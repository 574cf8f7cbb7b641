//! Debug symbols for the native backends.
//!
//! The debug information is written as GNU assembler sections that stand
//! beside the generated code: `.debug_abbrev`, `.debug_info` with an entry for
//! each function, and `.debug_line` with the source line and column of each
//! function. The local variables of a function are named in comments.

use vstd::prelude::*;
use crate::text::{byte_len, byte_length, dec, int_dec, push_dec, push_int, push_wide, text, texts};

verus! {

/// The debug symbol of a function.
#[derive(Debug, Clone)]
pub struct FuncDebugInfo {
    /// Function name.
    pub name: String,
    /// Source file path.
    pub file: String,
    /// Source line where the function is defined.
    pub line: usize,
    /// Source column.
    pub column: usize,
    /// Local variable names in the function.
    pub locals: Vec<String>,
}

/// The abbreviation table, and the head of the compilation unit up to its
/// length.
pub const ABBREV_TEXT: &'static str = ".section .debug_abbrev, \"\", @progbits\n.balign 1\n.debug_abbrev_begin:\n    .byte 1          ; abbrev code 1\n    .byte 17         ; DW_TAG_compile_unit\n    .byte 0          ; DW_CHILDREN_yes\n    .byte 3          ; DW_AT_name (string)\n    .byte 14         ; DW_FORM_strp\n    .byte 16         ; DW_AT_stmt_list\n    .byte 23         ; DW_FORM_sec_offset\n    .byte 0, 0       ; end of attr list\n    .byte 2          ; abbrev code 2\n    .byte 46         ; DW_TAG_subprogram\n    .byte 0          ; DW_CHILDREN_no\n    .byte 3          ; DW_AT_name\n    .byte 14         ; DW_FORM_strp\n    .byte 17         ; DW_AT_low_pc\n    .byte 1          ; DW_FORM_addr\n    .byte 18         ; DW_AT_high_pc\n    .byte 6          ; DW_FORM_data4\n    .byte 0, 0       ; end of attr list\n    .byte 0          ; end of abbrev table\n\n.section .debug_info, \"\", @progbits\n.balign 4\n.debug_info_begin:\n";

/// What follows the length of the compilation unit, up to the file name.
pub const UNIT_TEXT: &'static str = "    .2byte 4         ; DWARF version 4\n    .4byte 0         ; debug_abbrev offset (filled by linker)\n    .byte 8          ; address size (64-bit)\n    .byte 1          ; abbrev code 1 (compile_unit)\n";

/// The end of the compilation unit, and the line program's header up to the
/// file name.
pub const LINE_TEXT: &'static str = "    .byte 0          ; end of children\n.debug_info_end:\n\n.section .debug_line, \"\", @progbits\n.balign 4\n.debug_line_begin:\n    .4byte .debug_line_end - .debug_line_begin - 4  ; unit length\n    .2byte 4         ; DWARF version 4\n    .4byte .debug_line_prologue_end - .debug_line_prologue_begin  ; header length\n.debug_line_prologue_begin:\n    .byte 8          ; minimum instruction length\n    .byte 0          ; maximum operations per instruction\n    .byte 1          ; default is_stmt\n    .byte 0xFB       ; line_base (-5)\n    .byte 14         ; line_range\n    .byte 13         ; opcode_base\n    .byte 0, 1, 1, 1, 1, 0, 0, 0, 1, 0, 0, 1\n    .byte 0\n";

/// The size of the compilation unit: its header, the file name with its
/// terminator, and twenty bytes for each function.
pub open spec fn unit_length(n: nat, source_file: Seq<char>) -> nat {
    19 + byte_len(source_file) as nat + 20 * n
}

/// The comments that name the first `k` local variables of a function.
#[verifier::opaque]
pub open spec fn local_comments(t: Seq<char>, locals: Seq<Seq<char>>, k: nat) -> Seq<char>
    decreases k,
{
    if k == 0 || k > locals.len() {
        t
    } else {
        local_comments(t, locals, (k - 1) as nat) + "    ; local variable "@ + locals[k - 1] + "\n"@
    }
}

/// The unit's entries of the first `k` functions: the name and the address of
/// each, and its local variables as comments.
#[verifier::opaque]
pub open spec fn subprograms(t: Seq<char>, infos: Seq<FuncDebugInfo>, k: nat) -> Seq<char>
    decreases k,
{
    if k == 0 || k > infos.len() {
        t
    } else {
        let fi = infos[k - 1];
        local_comments(
            subprograms(t, infos, (k - 1) as nat) + "    .byte 2          ; abbrev code 2 (subprogram)\n    .asciz \""@ + fi.name@ + "\"\n    .quad "@ + fi.name@ + "         ; DW_AT_low_pc\n    .4byte 0x100     ; DW_AT_high_pc (estimated size)\n"@,
            texts(fi.locals@),
            fi.locals@.len(),
        )
    }
}

/// The line entries of the first `k` functions: each sets the address to the
/// function, and the line and the column to those of its source.
#[verifier::opaque]
pub open spec fn line_entries(t: Seq<char>, infos: Seq<FuncDebugInfo>, k: nat) -> Seq<char>
    decreases k,
{
    if k == 0 || k > infos.len() {
        t
    } else {
        let fi = infos[k - 1];
        line_entries(t, infos, (k - 1) as nat) + "    .byte 0          ; extended opcode\n    .byte 9          ; length\n    .byte 2          ; DW_LNE_set_address\n    .quad "@ + fi.name@ + "\n    .byte 0x21       ; DW_LNS_advance_line\n    .sleb128 "@ + int_dec(fi.line as i64 as int) + "\n    .byte 5          ; DW_LNS_set_column\n    .uleb128 "@ + dec(fi.column as nat) + "\n    .byte 1          ; DW_LNS_copy\n"@
    }
}

/// The debug sections of a compilation unit.
pub open spec fn debug_sections(infos: Seq<FuncDebugInfo>, source_file: Seq<char>) -> Seq<char> {
    let n = infos.len();
    let head = ABBREV_TEXT@ + "    .4byte "@ + dec(unit_length(n, source_file)) + "        ; DWARF unit length\n"@;
    let unit = head + UNIT_TEXT@ + "    .asciz \""@ + source_file + "\"\n    .4byte .debug_line_begin  ; DW_AT_stmt_list\n"@;
    let lines = subprograms(unit, infos, n) + LINE_TEXT@;
    let files = lines + "    .asciz \""@ + source_file + "\"\n    .byte 0, 0, 0   ; directory, mtime, length\n    .byte 0          ; end of file list\n.debug_line_prologue_end:\n"@;
    line_entries(files, infos, n) + "    .byte 0, 1, 1   ; DW_LNE_end_sequence\n.debug_line_end:\n\n"@
}

/// Writes the comments that name local variables.
fn write_local_comments(out: &mut String, locals: &Vec<String>)
    ensures
        final(out)@ == local_comments(old(out)@, texts(locals@), locals@.len()),
{
    reveal(local_comments);
    let mut k: usize = 0;
    while k < locals.len()
        invariant
            k <= locals@.len(),
            out@ == local_comments(old(out)@, texts(locals@), k as nat),
        decreases locals@.len() - k,
    {
        reveal(local_comments);
        out.append("    ; local variable ");
        out.append(locals[k].as_str());
        out.append("\n");
        k = k + 1;
    }
}

/// Writes the unit's entries.
fn write_subprograms(out: &mut String, infos: &[FuncDebugInfo])
    ensures
        final(out)@ == subprograms(old(out)@, infos@, infos@.len()),
{
    reveal(subprograms);
    let mut k: usize = 0;
    while k < infos.len()
        invariant
            k <= infos@.len(),
            out@ == subprograms(old(out)@, infos@, k as nat),
        decreases infos@.len() - k,
    {
        reveal(subprograms);
        let fi = &infos[k];
        out.append("    .byte 2          ; abbrev code 2 (subprogram)\n    .asciz \"");
        out.append(fi.name.as_str());
        out.append("\"\n    .quad ");
        out.append(fi.name.as_str());
        out.append("         ; DW_AT_low_pc\n    .4byte 0x100     ; DW_AT_high_pc (estimated size)\n");
        write_local_comments(out, &fi.locals);
        k = k + 1;
    }
}

/// Writes the line entries.
fn write_line_entries(out: &mut String, infos: &[FuncDebugInfo])
    ensures
        final(out)@ == line_entries(old(out)@, infos@, infos@.len()),
{
    reveal(line_entries);
    let mut k: usize = 0;
    while k < infos.len()
        invariant
            k <= infos@.len(),
            out@ == line_entries(old(out)@, infos@, k as nat),
        decreases infos@.len() - k,
    {
        reveal(line_entries);
        let fi = &infos[k];
        let line: i64 = fi.line as i64;
        out.append("    .byte 0          ; extended opcode\n    .byte 9          ; length\n    .byte 2          ; DW_LNE_set_address\n    .quad ");
        out.append(fi.name.as_str());
        out.append("\n    .byte 0x21       ; DW_LNS_advance_line\n    .sleb128 ");
        push_int(out, line);
        out.append("\n    .byte 5          ; DW_LNS_set_column\n    .uleb128 ");
        push_dec(out, fi.column as u64);
        out.append("\n    .byte 1          ; DW_LNS_copy\n");
        k = k + 1;
    }
}

/// Generates the debug sections of a compilation unit, to stand behind its
/// assembly code.
pub fn generate_debug_sections(func_infos: &[FuncDebugInfo], source_file: &str) -> (r: String)
    ensures
        r@ == debug_sections(func_infos@, source_file@),
{
    let mut s = text(ABBREV_TEXT);
    let bytes: usize = byte_length(source_file);
    let count: usize = func_infos.len();
    let len: u128 = bytes as u128;
    let n: u128 = count as u128;
    assert(n <= 0xffff_ffff_ffff_ffff && len <= 0xffff_ffff_ffff_ffff);
    let unit: u128 = 19 + len + 20 * n;
    s.append("    .4byte ");
    push_wide(&mut s, unit);
    s.append("        ; DWARF unit length\n");
    s.append(UNIT_TEXT);
    s.append("    .asciz \"");
    s.append(source_file);
    s.append("\"\n    .4byte .debug_line_begin  ; DW_AT_stmt_list\n");
    write_subprograms(&mut s, func_infos);
    s.append(LINE_TEXT);
    s.append("    .asciz \"");
    s.append(source_file);
    s.append("\"\n    .byte 0, 0, 0   ; directory, mtime, length\n    .byte 0          ; end of file list\n.debug_line_prologue_end:\n");
    write_line_entries(&mut s, func_infos);
    s.append("    .byte 0, 1, 1   ; DW_LNE_end_sequence\n.debug_line_end:\n\n");
    s
}

/// `fi` is the entry of a function at `(name, line, column)` of a source file,
/// with no local variables.
pub open spec fn entry_of(fi: FuncDebugInfo, f: (String, usize, usize), source_file: Seq<char>) -> bool {
    &&& fi.name@ == f.0@
    &&& fi.file@ == source_file
    &&& fi.line == f.1
    &&& fi.column == f.2
    &&& fi.locals@.len() == 0
}

/// Collects the debug entries of compiled functions, each given by its name,
/// line and column.
pub fn collect_debug_info(functions: &[(String, usize, usize)], source_file: &str) -> (r: Vec<FuncDebugInfo>)
    ensures
        r@.len() == functions@.len(),
        forall|i: int|
            0 <= i < r@.len() ==> entry_of(#[trigger] r@[i], functions@[i], source_file@),
{
    let mut r: Vec<FuncDebugInfo> = Vec::new();
    let mut k: usize = 0;
    while k < functions.len()
        invariant
            k <= functions@.len(),
            r@.len() == k,
            forall|i: int|
                0 <= i < k ==> entry_of(#[trigger] r@[i], functions@[i], source_file@),
        decreases functions@.len() - k,
    {
        let f = &functions[k];
        r.push(
            FuncDebugInfo {
                name: f.0.clone(),
                file: text(source_file),
                line: f.1,
                column: f.2,
                locals: Vec::new(),
            },
        );
        k = k + 1;
    }
    r
}

} // verus!
