//! What the native backends share: conditional compilation, struct layout,
//! inline assembly templates, and the shapes of functions that get special
//! treatment.

use vstd::hash_map::StringHashMap;
use vstd::prelude::*;
use crate::ast::{
    AsmOperand, Assignee, AssignOp, BasicType, BinaryOp, DtorBlock, Expr, FieldDef, FnDef, FnParam,
    Identifier, Program, Stmt, StringPart, TopLevel, TypeExpr, UnaryOp,
};
use crate::text::{chars, ends, ends_with, int_dec, int_text, same, slice_text, text, TextList};

verus! {

/// How many calls deep function bodies are inlined.
pub const MAX_INLINE_DEPTH: usize = 3;

/// Where a variable lives: in a register of the backend's variable pool, given
/// by its index, or in a stack slot, given by its offset from the frame
/// pointer.
#[derive(Debug, Clone, Copy, PartialEq, Eq, Structural)]
pub enum VarLoc {
    Reg(usize),
    Stack(i32),
}

/// The successor of a counter, which wraps at the end of its range.
pub open spec fn bump(n: usize) -> usize {
    if n == usize::MAX {
        0
    } else {
        (n + 1) as usize
    }
}

/// The next stack slot below `off`; the offset stays at the end of its range.
pub open spec fn down8(off: i32) -> i32 {
    if off < i32::MIN + 8 {
        i32::MIN
    } else {
        (off - 8) as i32
    }
}

/// The successor of a counter.
pub fn bumped(n: usize) -> (r: usize)
    ensures
        r == bump(n),
{
    if n == usize::MAX {
        0
    } else {
        n + 1
    }
}

/// The next stack slot below `off`.
pub fn lowered(off: i32) -> (r: i32)
    ensures
        r == down8(off),
{
    if off < i32::MIN + 8 {
        i32::MIN
    } else {
        off - 8
    }
}

/// The bytes that a frame reserves for slots down to `off`, rounded up to a
/// multiple of `align`.
pub open spec fn frame_bytes(off: int, align: int) -> int {
    let used = if off < 0 {
        -off
    } else {
        0
    };
    ((used + align - 1) / align) * align
}

// ---------------------------------------------------------------------------
// Pairs of texts
// ---------------------------------------------------------------------------

/// A list of pairs of texts.
pub struct PairList {
    items: Vec<(String, String)>,
}

impl View for PairList {
    type V = Seq<(Seq<char>, Seq<char>)>;

    closed spec fn view(&self) -> Seq<(Seq<char>, Seq<char>)> {
        self.items@.map_values(|p: (String, String)| (p.0@, p.1@))
    }
}

impl PairList {
    /// The empty list.
    pub fn new() -> (r: Self)
        ensures
            r@ == Seq::<(Seq<char>, Seq<char>)>::empty(),
    {
        let r = PairList { items: Vec::new() };
        assert(r@ =~= Seq::<(Seq<char>, Seq<char>)>::empty());
        r
    }

    /// The number of pairs.
    pub fn len(&self) -> (n: usize)
        ensures
            n == self@.len(),
    {
        self.items.len()
    }

    /// The first text of pair `i`.
    pub fn first(&self, i: usize) -> (r: &str)
        requires
            i < self@.len(),
        ensures
            r@ == self@[i as int].0,
    {
        self.items[i].0.as_str()
    }

    /// The second text of pair `i`.
    pub fn second(&self, i: usize) -> (r: &str)
        requires
            i < self@.len(),
        ensures
            r@ == self@[i as int].1,
    {
        self.items[i].1.as_str()
    }

    /// Adds a pair at the end.
    pub fn push(&mut self, a: String, b: String)
        ensures
            final(self)@ == old(self)@.push((a@, b@)),
    {
        self.items.push((a, b));
        assert(self@ =~= old(self)@.push((a@, b@)));
    }

    /// Takes the last pair off.
    pub fn pop(&mut self)
        requires
            old(self)@.len() > 0,
        ensures
            final(self)@ == old(self)@.drop_last(),
    {
        self.items.pop();
        assert(self@ =~= old(self)@.drop_last());
    }

    /// Replaces the second text of pair `i`.
    pub fn set_second(&mut self, i: usize, b: String)
        requires
            i < old(self)@.len(),
        ensures
            final(self)@ == old(self)@.update(i as int, (old(self)@[i as int].0, b@)),
    {
        let a = self.items[i].0.clone();
        self.items.set(i, (a, b));
        assert(self@ =~= old(self)@.update(i as int, (old(self)@[i as int].0, b@)));
    }
}

// ---------------------------------------------------------------------------
// String literals and conditions
// ---------------------------------------------------------------------------

/// The plain text of a string literal; interpolated pieces count for nothing.
pub open spec fn parts_text(parts: Seq<StringPart>) -> Seq<char>
    decreases parts.len(),
{
    if parts.len() == 0 {
        Seq::empty()
    } else {
        match parts.last() {
            StringPart::Text(t) => parts_text(parts.drop_last()) + t@,
            StringPart::Interpolation => parts_text(parts.drop_last()),
        }
    }
}

/// The plain text of a string literal.
pub fn string_parts_text(parts: &Vec<StringPart>) -> (r: String)
    ensures
        r@ == parts_text(parts@),
{
    let mut s = String::new();
    let mut i: usize = 0;
    assert(parts@.take(0) =~= Seq::<StringPart>::empty());
    while i < parts.len()
        invariant
            i <= parts.len(),
            s@ == parts_text(parts@.take(i as int)),
        decreases parts.len() - i,
    {
        assert(parts@.take(i + 1).drop_last() =~= parts@.take(i as int));
        match &parts[i] {
            StringPart::Text(t) => {
                s.append(t.as_str());
            },
            StringPart::Interpolation => {},
        }
        i = i + 1;
    }
    assert(parts@.take(i as int) =~= parts@);
    s
}

/// Whether a double-precision bit pattern is a number other than zero, or not
/// a number.
pub open spec fn float_truthy(bits: u64) -> bool {
    bits != 0 && bits != 0x8000_0000_0000_0000
}

/// The truth value of a condition that is a literal, possibly negated.
pub open spec fn const_condition(e: Expr) -> Option<bool>
    decreases e,
{
    match e {
        Expr::Bool(b) => Some(b.value),
        Expr::Integer(i) => Some(i.value != 0),
        Expr::Float(f) => Some(float_truthy(f.bits)),
        Expr::Null => Some(false),
        Expr::String_(s) => Some(parts_text(s.parts@).len() > 0),
        Expr::Unary(u) => if u.operator == UnaryOp::Not || u.operator == UnaryOp::Bang {
            match const_condition(*u.operand) {
                Some(v) => Some(!v),
                None => None,
            }
        } else {
            None
        },
        _ => None,
    }
}

/// Evaluates a conditional-compilation condition that is a literal; `None`
/// where the value is not known at compile time.
pub fn eval_const_condition(e: &Expr) -> (r: Option<bool>)
    ensures
        r == const_condition(*e),
    decreases e,
{
    match e {
        Expr::Bool(b) => Some(b.value),
        Expr::Integer(i) => Some(i.value != 0),
        Expr::Float(f) => Some(f.bits != 0 && f.bits != 0x8000_0000_0000_0000),
        Expr::Null => Some(false),
        Expr::String_(s) => {
            let t = string_parts_text(&s.parts);
            Some(!t.as_str().is_empty())
        },
        Expr::Unary(u) => {
            if u.operator == UnaryOp::Not || u.operator == UnaryOp::Bang {
                match eval_const_condition(&u.operand) {
                    Some(v) => Some(!v),
                    None => None,
                }
            } else {
                None
            }
        },
        _ => None,
    }
}

/// The first `k` declarations with every conditional-compilation node replaced
/// by the declarations it selects: the then-branch unless its condition is
/// known to be false.
pub open spec fn flattened<'a>(decls: Seq<TopLevel>, k: nat) -> Seq<&'a TopLevel>
    decreases decls, k,
{
    if k == 0 || k > decls.len() {
        Seq::empty()
    } else {
        let head = flattened(decls, (k - 1) as nat);
        match decls[k - 1] {
            TopLevel::ConditionalCompile(cc) => {
                if const_condition(cc.condition) != Some(false) {
                    head + flattened(cc.then_body@, cc.then_body@.len())
                } else {
                    match cc.else_body {
                        Some(b) => head + flattened(b@, b@.len()),
                        None => head,
                    }
                }
            },
            _ => head.push(&decls[k - 1]),
        }
    }
}

/// Adds the declarations that conditional compilation selects from `decls`.
pub fn flatten_decls<'a>(decls: &'a Vec<TopLevel>, out: &mut Vec<&'a TopLevel>)
    ensures
        final(out)@ == old(out)@ + flattened(decls@, decls@.len()),
    decreases decls@,
{
    let mut i: usize = 0;
    assert(out@ =~= old(out)@ + flattened(decls@, 0));
    while i < decls.len()
        invariant
            i <= decls.len(),
            out@ == old(out)@ + flattened(decls@, i as nat),
        decreases decls.len() - i,
    {
        let ghost before = out@;
        match &decls[i] {
            TopLevel::ConditionalCompile(cc) => {
                let take_then: bool = match eval_const_condition(&cc.condition) {
                    Some(v) => v,
                    None => true,
                };
                if take_then {
                    flatten_decls(&cc.then_body, out);
                } else {
                    match &cc.else_body {
                        Some(b) => {
                            flatten_decls(b, out);
                        },
                        None => {},
                    }
                }
            },
            _ => {
                out.push(&decls[i]);
            },
        }
        i = i + 1;
        assert(out@ =~= old(out)@ + flattened(decls@, i as nat));
    }
}

/// The declarations of a program once conditional compilation is resolved.
pub open spec fn program_decls<'a>(p: Program) -> Seq<&'a TopLevel> {
    flattened(p.declarations@, p.declarations@.len())
}

/// The declarations of a program once conditional compilation is resolved.
pub fn flatten_program<'a>(program: &'a Program) -> (r: Vec<&'a TopLevel>)
    ensures
        r@ == program_decls(*program),
{
    let mut out: Vec<&'a TopLevel> = Vec::new();
    flatten_decls(&program.declarations, &mut out);
    assert(out@ =~= program_decls(*program));
    out
}

// ---------------------------------------------------------------------------
// Inline assembly
// ---------------------------------------------------------------------------

/// A short rendering of an operand for assembly comments.
pub open spec fn operand_text(e: Expr) -> Seq<char> {
    match e {
        Expr::Identifier(id) => id.name@,
        Expr::Integer(i) => int_dec(i.value as int),
        Expr::Float(f) => f.text@,
        Expr::Bool(b) => if b.value {
            "true"@
        } else {
            "false"@
        },
        Expr::Null => "null"@,
        Expr::String_(s) => parts_text(s.parts@),
        _ => "<expr>"@,
    }
}

/// A short rendering of an operand for assembly comments.
pub fn expr_text(e: &Expr) -> (r: String)
    ensures
        r@ == operand_text(*e),
{
    match e {
        Expr::Identifier(id) => id.name.clone(),
        Expr::Integer(i) => int_text(i.value),
        Expr::Float(f) => f.text.clone(),
        Expr::Bool(b) => if b.value {
            text("true")
        } else {
            text("false")
        },
        Expr::Null => text("null"),
        Expr::String_(s) => string_parts_text(&s.parts),
        _ => text("<expr>"),
    }
}

/// ` "constraint"(operand)` for each of the first `k` operands.
pub open spec fn operand_list(ops: Seq<AsmOperand>, k: nat) -> Seq<char>
    decreases k,
{
    if k == 0 || k > ops.len() {
        Seq::empty()
    } else {
        operand_list(ops, (k - 1) as nat) + " \""@ + ops[k - 1].constraint@ + "\"("@
            + operand_text(ops[k - 1].expr) + ")"@
    }
}

/// Appends ` "constraint"(operand)` for each operand.
pub fn push_operand_list(out: &mut String, ops: &Vec<AsmOperand>)
    ensures
        final(out)@ == old(out)@ + operand_list(ops@, ops@.len()),
{
    let mut i: usize = 0;
    assert(out@ =~= old(out)@ + operand_list(ops@, 0));
    while i < ops.len()
        invariant
            i <= ops.len(),
            out@ == old(out)@ + operand_list(ops@, i as nat),
        decreases ops.len() - i,
    {
        out.append(" \"");
        out.append(ops[i].constraint.as_str());
        out.append("\"(");
        let t = expr_text(&ops[i].expr);
        out.append(t.as_str());
        out.append(")");
        i = i + 1;
        assert(out@ =~= old(out)@ + operand_list(ops@, i as nat));
    }
}

pub open spec fn is_digit(c: char) -> bool {
    '0' <= c && c <= '9'
}

/// The end of the run of decimal digits that starts at `i`.
pub open spec fn run_end(s: Seq<char>, i: int) -> int
    decreases s.len() - i,
{
    if 0 <= i < s.len() && is_digit(s[i]) {
        run_end(s, i + 1)
    } else {
        i
    }
}

/// The number that the digits `s[i..j]` denote.
pub open spec fn run_value(s: Seq<char>, i: int, j: int) -> int
    decreases j - i,
{
    if j <= i {
        0
    } else {
        run_value(s, i, j - 1) * 10 + (s[j - 1] as int - 48)
    }
}

proof fn lemma_run_end(s: Seq<char>, i: int)
    requires
        0 <= i <= s.len(),
    ensures
        i <= run_end(s, i) <= s.len(),
    decreases s.len() - i,
{
    if i < s.len() && is_digit(s[i]) {
        lemma_run_end(s, i + 1);
    }
}

/// A template line from position `i` on with its operand references replaced:
/// `%N` by operand `N`, where there is one, and `%%` by a percent sign. A
/// reference to no operand stays as it stands.
pub open spec fn substituted(s: Seq<char>, ops: Seq<Seq<char>>, i: int) -> Seq<char>
    decreases s.len() - i,
    via substituted_decreases
{
    if i < 0 || i >= s.len() {
        Seq::empty()
    } else if s[i] != '%' {
        seq![s[i]] + substituted(s, ops, i + 1)
    } else if i + 1 < s.len() && s[i + 1] == '%' {
        seq!['%'] + substituted(s, ops, i + 2)
    } else if i + 1 < s.len() && is_digit(s[i + 1]) {
        let j = run_end(s, i + 1);
        let n = run_value(s, i + 1, j);
        (if n < ops.len() {
            ops[n]
        } else {
            s.subrange(i, j)
        }) + substituted(s, ops, j)
    } else {
        seq!['%'] + substituted(s, ops, i + 1)
    }
}

#[via_fn]
proof fn substituted_decreases(s: Seq<char>, ops: Seq<Seq<char>>, i: int) {
    if 0 <= i && i + 1 < s.len() {
        lemma_run_end(s, i + 1);
    }
}

/// A template line with its operand references replaced.
pub fn substitute_asm_template(line: &str, operands: &TextList) -> (r: String)
    ensures
        r@ == substituted(line@, operands@, 0),
{
    let v: Vec<char> = chars(line);
    let mut out = String::new();
    let mut i: usize = 0;
    assert(out@ + substituted(v@, operands@, 0) =~= substituted(v@, operands@, 0));
    while i < v.len()
        invariant
            i <= v.len(),
            out@ + substituted(v@, operands@, i as int) == substituted(v@, operands@, 0),
        decreases v.len() - i,
    {
        let ghost before = out@;
        let ghost rest = substituted(v@, operands@, i as int);
        if v[i] != '%' {
            out.push(v[i]);
            i = i + 1;
        } else if i + 1 < v.len() && v[i + 1] == '%' {
            out.push('%');
            i = i + 2;
        } else if i + 1 < v.len() && '0' <= v[i + 1] && v[i + 1] <= '9' {
            let start: usize = i + 1;
            let mut j: usize = start;
            let mut n: usize = 0;
            while j < v.len() && '0' <= v[j] && v[j] <= '9'
                invariant
                    start <= j <= v.len(),
                    run_end(v@, j as int) == run_end(v@, start as int),
                    n == run_value(v@, start as int, j as int) || (n == usize::MAX && usize::MAX
                        <= run_value(v@, start as int, j as int)),
                decreases v.len() - j,
            {
                let d: u128 = (v[j] as u32 - 48) as u128;
                let wide: u128 = n as u128 * 10 + d;
                n = if wide > usize::MAX as u128 {
                    usize::MAX
                } else {
                    wide as usize
                };
                j = j + 1;
            }
            proof {
                lemma_run_end(v@, start as int);
            }
            if n < operands.len() {
                out.append(operands.get(n));
            } else {
                let reference = slice_text(&v, i, j);
                out.append(reference.as_str());
            }
            i = j;
        } else {
            out.push('%');
            i = i + 1;
        }
        assert(out@ + substituted(v@, operands@, i as int) =~= before + rest);
    }
    assert(out@ + substituted(v@, operands@, i as int) =~= out@);
    out
}

// ---------------------------------------------------------------------------
// Arguments
// ---------------------------------------------------------------------------

/// The value of the expression can be put into a register without the use of
/// another one.
pub open spec fn plain_arg(e: Expr) -> bool {
    e is Integer || e is Float || e is Bool || e is String_ || e is Identifier
}

/// Whether the value of the expression can be put into a register without the
/// use of another one.
pub fn is_plain_arg(e: &Expr) -> (r: bool)
    ensures
        r == plain_arg(*e),
{
    match e {
        Expr::Integer(_) => true,
        Expr::Float(_) => true,
        Expr::Bool(_) => true,
        Expr::String_(_) => true,
        Expr::Identifier(_) => true,
        _ => false,
    }
}

/// The arguments behind the first one, up to the first `k`, are plain.
pub open spec fn plain_behind(args: Seq<Expr>, k: nat) -> bool {
    forall|i: int| 1 <= i < k && i < args.len() ==> plain_arg(#[trigger] args[i])
}

/// Whether the arguments behind the first one, up to the first `k`, are plain.
pub fn is_plain_behind(args: &Vec<Expr>, k: usize) -> (r: bool)
    ensures
        r == plain_behind(args@, k as nat),
{
    let mut i: usize = 1;
    while i < k && i < args.len()
        invariant
            1 <= i,
            forall|j: int| 1 <= j < i && j < args@.len() ==> plain_arg(#[trigger] args@[j]),
        decreases args@.len() - i,
    {
        if !is_plain_arg(&args[i]) {
            assert(!plain_arg(args@[i as int]));
            return false;
        }
        i = i + 1;
    }
    true
}

// ---------------------------------------------------------------------------
// Struct layout
// ---------------------------------------------------------------------------

/// The size in bytes of a value of a type; eight where nothing better is known.
pub open spec fn type_size(t: TypeExpr) -> u32 {
    match t {
        TypeExpr::Basic(b) => match b {
            BasicType::Int | BasicType::Float | BasicType::Str | BasicType::Any => 8,
            BasicType::Bool | BasicType::Null => 1,
            BasicType::Void => 0,
        },
        TypeExpr::Pointer(_) => 8,
        TypeExpr::UnsignedInt(bits) => bits / 8,
        TypeExpr::Named(id) => {
            let n = id.name@;
            if n == "i8"@ || n == "char"@ || n == "byte"@ {
                1
            } else if n == "i16"@ || n == "short"@ {
                2
            } else if n == "i32"@ || n == "int"@ || n == "float32"@ {
                4
            } else {
                8
            }
        },
        _ => 8,
    }
}

/// The size in bytes of a value of a type.
pub fn type_size_bytes(t: &TypeExpr) -> (r: u32)
    ensures
        r == type_size(*t),
{
    match t {
        TypeExpr::Basic(b) => match b {
            BasicType::Int | BasicType::Float | BasicType::Str | BasicType::Any => 8,
            BasicType::Bool | BasicType::Null => 1,
            BasicType::Void => 0,
        },
        TypeExpr::Pointer(_) => 8,
        TypeExpr::UnsignedInt(bits) => *bits / 8,
        TypeExpr::Named(id) => {
            let n = id.name.as_str();
            if same(n, "i8") || same(n, "char") || same(n, "byte") {
                1
            } else if same(n, "i16") || same(n, "short") {
                2
            } else if same(n, "i32") || same(n, "int") || same(n, "float32") {
                4
            } else {
                8
            }
        },
        _ => 8,
    }
}

/// The size in bytes of a struct field.
pub open spec fn field_size(f: FieldDef) -> u32 {
    match f.type_annotation {
        Some(t) => type_size(t),
        None => 8,
    }
}

/// The alignment of a field: its size, but at least one and at most the
/// alignment of the struct.
pub open spec fn field_align(f: FieldDef, align: int) -> int {
    let natural = if field_size(f) < 1 {
        1
    } else {
        field_size(f) as int
    };
    if natural < align {
        natural
    } else {
        align
    }
}

/// The least multiple of `a` that is at least `x`; `x` itself where `a` is not
/// positive.
pub open spec fn round_up(x: int, a: int) -> int {
    if a > 0 && x % a != 0 {
        x + (a - x % a)
    } else {
        x
    }
}

/// The offset at which field `k` starts.
pub open spec fn field_start(fields: Seq<FieldDef>, align: int, k: int) -> int
    decreases k,
{
    if k <= 0 {
        0
    } else {
        round_up(
            field_start(fields, align, k - 1) + field_size(fields[k - 1]),
            field_align(fields[k], align),
        )
    }
}

/// The position of the first field called `name`, at or behind `k`.
pub open spec fn field_index(fields: Seq<FieldDef>, name: Seq<char>, k: int) -> Option<int>
    decreases fields.len() - k,
{
    if k < 0 || k >= fields.len() {
        None
    } else if fields[k].name.name@ == name {
        Some(k)
    } else {
        field_index(fields, name, k + 1)
    }
}

/// The offset of the field called `name`; zero where there is none.
pub open spec fn field_offset(fields: Seq<FieldDef>, align: int, name: Seq<char>) -> int {
    match field_index(fields, name, 0) {
        Some(k) => field_start(fields, align, k),
        None => 0,
    }
}

/// The offset of the field called `name`, as a machine word.
pub fn struct_field_offset(fields: &Vec<FieldDef>, align: i64, name: &str) -> (r: i64)
    ensures
        r == field_offset(fields@, align as int, name@) as i64,
{
    let mut k: usize = 0;
    let mut end: i128 = 0;
    while k < fields.len()
        invariant
            k <= fields.len(),
            0 <= end <= k * 0x4000_0000,
            k > 0 ==> end == field_start(fields@, align as int, k - 1) + field_size(fields@[k - 1]),
            k == 0 ==> end == 0,
            field_index(fields@, name@, 0) == field_index(fields@, name@, k as int),
        decreases fields.len() - k,
    {
        let size: u32 = match &fields[k].type_annotation {
            Some(t) => type_size_bytes(t),
            None => 8,
        };
        let natural: i64 = if size < 1 {
            1
        } else {
            size as i64
        };
        let fa: i64 = if natural < align {
            natural
        } else {
            align
        };
        proof {
            assert(size <= 0x1fff_ffff);
            assert(fa == field_align(fields@[k as int], align as int));
            if k == 0 && fa > 0 {
                assert(0int % (fa as int) == 0) by (nonlinear_arith)
                    requires
                        fa > 0,
                ;
            }
        }
        let m: i128 = if fa > 0 {
            end % (fa as i128)
        } else {
            0
        };
        let start: i128 = if m != 0 {
            end + (fa as i128 - m)
        } else {
            end
        };
        assert(start == field_start(fields@, align as int, k as int));
        if same(fields[k].name.name.as_str(), name) {
            return start as i64;
        }
        assert(k * 0x4000_0000 + 0x4000_0000 == (k + 1) * 0x4000_0000);
        end = start + size as i128;
        k = k + 1;
    }
    0
}

// ---------------------------------------------------------------------------
// Shapes of functions
// ---------------------------------------------------------------------------

/// A statement that may stand in an inlined body.
pub open spec fn simple_stmt(s: Stmt) -> bool {
    s is Return || s is If
}

/// A function whose calls are replaced by its body: few parameters, a short
/// body, and nothing but `return` and `if`.
pub open spec fn inlineable(f: FnDef) -> bool {
    &&& f.params@.len() <= 3
    &&& f.body@.len() <= 6
    &&& forall|i: int| 0 <= i < f.body@.len() ==> simple_stmt(#[trigger] f.body@[i])
}

/// Whether calls of `f` are replaced by its body.
pub fn is_inlineable(f: &FnDef) -> (r: bool)
    ensures
        r == inlineable(*f),
{
    if f.params.len() > 3 {
        return false;
    }
    if f.body.len() > 6 {
        return false;
    }
    let mut i: usize = 0;
    while i < f.body.len()
        invariant
            i <= f.body.len(),
            forall|j: int| 0 <= j < i ==> simple_stmt(#[trigger] f.body@[j]),
        decreases f.body.len() - i,
    {
        match &f.body[i] {
            Stmt::Return(_) => {},
            Stmt::If(_) => {},
            _ => {
                assert(!simple_stmt(f.body@[i as int]));
                return false;
            },
        }
        i = i + 1;
    }
    true
}

/// `e` is the name `n`.
pub open spec fn names(e: Expr, n: Seq<char>) -> bool {
    e matches Expr::Identifier(id) && id.name@ == n
}

/// `e` is the integer `v`.
pub open spec fn is_int(e: Expr, v: int) -> bool {
    e matches Expr::Integer(i) && i.value == v
}

/// `e` is the call `fname(param - offset)`.
pub open spec fn recursive_call(e: Expr, fname: Seq<char>, param: Seq<char>, offset: int) -> bool {
    e matches Expr::Call(c) && names(*c.callee, fname) && c.args@.len() == 1 && (c.args@[0]
        matches Expr::Binary(b) && b.operator == BinaryOp::Sub && names(*b.left, param) && is_int(
        *b.right,
        offset,
    ))
}

/// `e` is `param <= 1` or `param < 2`.
pub open spec fn base_condition(e: Expr, param: Seq<char>) -> bool {
    e matches Expr::Binary(b) && ((b.operator == BinaryOp::Le && names(*b.left, param) && is_int(
        *b.right,
        1,
    )) || (b.operator == BinaryOp::Lt && names(*b.left, param) && is_int(*b.right, 2)))
}

/// `f` computes Fibonacci numbers by double recursion:
/// `if n <= 1 { return n }; return f(n - 1) + f(n - 2)`.
pub open spec fn fib_shape(f: FnDef) -> bool {
    &&& f.params@.len() == 1
    &&& f.body@.len() == 2
    &&& f.body@[0] matches Stmt::If(i) && {
        &&& base_condition(i.condition, f.params@[0].name.name@)
        &&& i.then_body@.len() == 1
        &&& i.then_body@[0] matches Stmt::Return(r) && r.values@.len() == 1 && names(
            r.values@[0],
            f.params@[0].name.name@,
        )
        &&& i.else_body is None
    }
    &&& f.body@[1] matches Stmt::Return(r) && r.values@.len() == 1 && (r.values@[0]
        matches Expr::Binary(b) && b.operator == BinaryOp::Add && recursive_call(
        *b.left,
        f.name.name@,
        f.params@[0].name.name@,
        1,
    ) && recursive_call(*b.right, f.name.name@, f.params@[0].name.name@, 2))
}

/// Whether `e` is the name `n`.
pub fn is_name(e: &Expr, n: &str) -> (r: bool)
    ensures
        r == names(*e, n@),
{
    match e {
        Expr::Identifier(id) => same(id.name.as_str(), n),
        _ => false,
    }
}

/// Whether `e` is the integer `v`.
fn is_integer(e: &Expr, v: i64) -> (r: bool)
    ensures
        r == is_int(*e, v as int),
{
    match e {
        Expr::Integer(i) => i.value == v,
        _ => false,
    }
}

/// Whether `e` is the call `fname(param - offset)`.
pub fn is_recursive_call(e: &Expr, fname: &str, param: &str, offset: i64) -> (r: bool)
    ensures
        r == recursive_call(*e, fname@, param@, offset as int),
{
    match e {
        Expr::Call(c) => {
            if !is_name(&c.callee, fname) || c.args.len() != 1 {
                return false;
            }
            match &c.args[0] {
                Expr::Binary(b) => b.operator == BinaryOp::Sub && is_name(&b.left, param)
                    && is_integer(&b.right, offset),
                _ => false,
            }
        },
        _ => false,
    }
}

/// Whether `f` computes Fibonacci numbers by double recursion.
pub fn is_fib(f: &FnDef) -> (r: bool)
    ensures
        r == fib_shape(*f),
{
    if f.params.len() != 1 || f.body.len() != 2 {
        return false;
    }
    let param = f.params[0].name.name.as_str();
    let if_ok: bool = match &f.body[0] {
        Stmt::If(i) => {
            let cond_ok: bool = match &i.condition {
                Expr::Binary(b) => (b.operator == BinaryOp::Le && is_name(&b.left, param)
                    && is_integer(&b.right, 1)) || (b.operator == BinaryOp::Lt && is_name(
                    &b.left,
                    param,
                ) && is_integer(&b.right, 2)),
                _ => false,
            };
            let base_ok: bool = i.then_body.len() == 1 && (match &i.then_body[0] {
                Stmt::Return(r) => r.values.len() == 1 && is_name(&r.values[0], param),
                _ => false,
            });
            let no_else: bool = match &i.else_body {
                Some(_) => false,
                None => true,
            };
            cond_ok && base_ok && no_else
        },
        _ => false,
    };
    if !if_ok {
        return false;
    }
    match &f.body[1] {
        Stmt::Return(r) => {
            if r.values.len() != 1 {
                return false;
            }
            match &r.values[0] {
                Expr::Binary(b) => b.operator == BinaryOp::Add && is_recursive_call(
                    &b.left,
                    f.name.name.as_str(),
                    param,
                    1,
                ) && is_recursive_call(&b.right, f.name.name.as_str(), param, 2),
                _ => false,
            }
        },
        _ => false,
    }
}

// ---------------------------------------------------------------------------
// Destructors
// ---------------------------------------------------------------------------

/// The variable and type of a statement `set, var = Type(...)`.
pub open spec fn constructed(s: Stmt) -> Option<(Seq<char>, Seq<char>)> {
    match s {
        Stmt::Assign(a) => if a.operator == AssignOp::Simple && a.targets@.len() > 0 {
            match (a.targets@[0], a.value) {
                (Assignee::Identifier(id), Expr::Call(c)) => match *c.callee {
                    Expr::Identifier(t) => Some((id.name@, t.name@)),
                    _ => None,
                },
                _ => None,
            }
        } else {
            None
        },
        _ => None,
    }
}

/// The position of the pair whose first text is `n`, at or behind `k`.
pub open spec fn pair_index(list: Seq<(Seq<char>, Seq<char>)>, n: Seq<char>, k: int) -> Option<int>
    decreases list.len() - k,
{
    if k < 0 || k >= list.len() {
        None
    } else if list[k].0 == n {
        Some(k)
    } else {
        pair_index(list, n, k + 1)
    }
}

/// The variables among the first `k` statements that are set to a constructor
/// call of a type with a destructor, each with the type it was set to last.
pub open spec fn dtor_vars(
    dtors: Set<Seq<char>>,
    body: Seq<Stmt>,
    k: nat,
) -> Seq<(Seq<char>, Seq<char>)>
    decreases k,
{
    if k == 0 || k > body.len() {
        Seq::empty()
    } else {
        let prev = dtor_vars(dtors, body, (k - 1) as nat);
        match constructed(body[k - 1]) {
            Some((v, t)) => if dtors.contains(t) {
                match pair_index(prev, v, 0) {
                    Some(i) => prev.update(i, (prev[i].0, t)),
                    None => prev.push((v, t)),
                }
            } else {
                prev
            },
            None => prev,
        }
    }
}

fn find_pair(list: &PairList, n: &str) -> (r: Option<usize>)
    ensures
        r == (match pair_index(list@, n@, 0) {
            Some(i) => Some(i as usize),
            None => None::<usize>,
        }),
        r matches Some(i) ==> i < list@.len() && pair_index(list@, n@, 0) == Some(i as int),
        r is None ==> pair_index(list@, n@, 0) is None,
{
    let mut k: usize = 0;
    while k < list.len()
        invariant
            k <= list@.len(),
            pair_index(list@, n@, 0) == pair_index(list@, n@, k as int),
        decreases list@.len() - k,
    {
        if same(list.first(k), n) {
            return Some(k);
        }
        k = k + 1;
    }
    None
}

/// The variables of a function body that need a destructor call, with their
/// types.
pub fn collect_dtor_vars<'a>(dtors: &StringHashMap<&'a DtorBlock>, body: &Vec<Stmt>) -> (r: PairList)
    ensures
        r@ == dtor_vars(dtors@.dom(), body@, body@.len()),
{
    let mut out = PairList::new();
    let mut k: usize = 0;
    while k < body.len()
        invariant
            k <= body.len(),
            out@ == dtor_vars(dtors@.dom(), body@, k as nat),
        decreases body.len() - k,
    {
        match &body[k] {
            Stmt::Assign(a) => {
                if a.operator == AssignOp::Simple && a.targets.len() > 0 {
                    match (&a.targets[0], &a.value) {
                        (Assignee::Identifier(id), Expr::Call(c)) => {
                            match &*c.callee {
                                Expr::Identifier(t) => {
                                    assert(constructed(body@[k as int]) == Some(
                                        (id.name@, t.name@),
                                    ));
                                    if dtors.contains_key(t.name.as_str()) {
                                        match find_pair(&out, id.name.as_str()) {
                                            Some(i) => {
                                                out.set_second(i, t.name.clone());
                                            },
                                            None => {
                                                out.push(id.name.clone(), t.name.clone());
                                            },
                                        }
                                    }
                                },
                                _ => {},
                            }
                        },
                        _ => {},
                    }
                }
            },
            _ => {},
        }
        k = k + 1;
    }
    out
}

// ---------------------------------------------------------------------------
// Free variables
// ---------------------------------------------------------------------------

/// The names of parameters.
pub open spec fn param_names(params: Seq<FnParam>) -> Set<Seq<char>> {
    Set::new(|n: Seq<char>| exists|i: int| 0 <= i < params.len() && #[trigger] params[i].name.name@ == n)
}

/// The names that an expression uses and that are not parameters, in the order
/// of their use.
pub open spec fn free_names(e: Expr, params: Set<Seq<char>>) -> Seq<Seq<char>>
    decreases e, 0nat,
{
    match e {
        Expr::Identifier(id) => if !params.contains(id.name@) && id.name@ != "true"@ && id.name@
            != "false"@ {
            seq![id.name@]
        } else {
            Seq::empty()
        },
        Expr::Binary(b) => free_names(*b.left, params) + free_names(*b.right, params),
        Expr::Unary(u) => free_names(*u.operand, params),
        Expr::Call(c) => free_names(*c.callee, params) + free_names_of(
            c.args@,
            params,
            c.args@.len(),
        ),
        Expr::MemberAccess(m) => free_names(*m.target, params),
        Expr::Index(i) => free_names(*i.target, params) + free_names(*i.index, params),
        Expr::Cast(c) => free_names(*c.expr, params),
        _ => Seq::empty(),
    }
}

/// The names that the first `k` expressions use and that are not parameters.
pub open spec fn free_names_of(es: Seq<Expr>, params: Set<Seq<char>>, k: nat) -> Seq<Seq<char>>
    decreases es, k,
{
    if k == 0 || k > es.len() {
        Seq::empty()
    } else {
        free_names_of(es, params, (k - 1) as nat) + free_names(es[k - 1], params)
    }
}

fn is_param(params: &Vec<FnParam>, n: &str) -> (r: bool)
    ensures
        r == param_names(params@).contains(n@),
{
    let mut i: usize = 0;
    while i < params.len()
        invariant
            i <= params.len(),
            forall|j: int| 0 <= j < i ==> #[trigger] params@[j].name.name@ != n@,
        decreases params.len() - i,
    {
        if same(params[i].name.name.as_str(), n) {
            return true;
        }
        i = i + 1;
    }
    false
}

/// Adds the free names of `e` to `vars`.
fn collect_free_vars_inner(e: &Expr, params: &Vec<FnParam>, vars: &mut TextList)
    ensures
        final(vars)@ == old(vars)@ + free_names(*e, param_names(params@)),
    decreases e, 0nat,
{
    match e {
        Expr::Identifier(id) => {
            let n = id.name.as_str();
            if !is_param(params, n) && !same(n, "true") && !same(n, "false") {
                vars.push(id.name.clone());
            }
        },
        Expr::Binary(b) => {
            collect_free_vars_inner(&b.left, params, vars);
            collect_free_vars_inner(&b.right, params, vars);
        },
        Expr::Unary(u) => {
            collect_free_vars_inner(&u.operand, params, vars);
        },
        Expr::Call(c) => {
            collect_free_vars_inner(&c.callee, params, vars);
            collect_free_vars_list(&c.args, params, vars);
        },
        Expr::MemberAccess(m) => {
            collect_free_vars_inner(&m.target, params, vars);
        },
        Expr::Index(i) => {
            collect_free_vars_inner(&i.target, params, vars);
            collect_free_vars_inner(&i.index, params, vars);
        },
        Expr::Cast(c) => {
            collect_free_vars_inner(&c.expr, params, vars);
        },
        _ => {},
    }
    assert(vars@ =~= old(vars)@ + free_names(*e, param_names(params@)));
}

/// Adds the free names of each expression to `vars`.
fn collect_free_vars_list(es: &Vec<Expr>, params: &Vec<FnParam>, vars: &mut TextList)
    ensures
        final(vars)@ == old(vars)@ + free_names_of(es@, param_names(params@), es@.len()),
    decreases es@, 1nat,
{
    let mut i: usize = 0;
    assert(vars@ =~= old(vars)@ + free_names_of(es@, param_names(params@), 0));
    while i < es.len()
        invariant
            i <= es.len(),
            vars@ == old(vars)@ + free_names_of(es@, param_names(params@), i as nat),
        decreases es.len() - i,
    {
        collect_free_vars_inner(&es[i], params, vars);
        i = i + 1;
        assert(vars@ =~= old(vars)@ + free_names_of(es@, param_names(params@), i as nat));
    }
}

/// The free names of a lambda body, sorted and without repetitions.
pub fn collect_free_vars_expr(e: &Expr, params: &Vec<FnParam>) -> (r: TextList)
    ensures
        r@ == crate::text::sorted_set(free_names(*e, param_names(params@))),
{
    let mut vars = TextList::new();
    collect_free_vars_inner(e, params, &mut vars);
    assert(vars@ =~= free_names(*e, param_names(params@)));
    vars.sorted_unique()
}

// ---------------------------------------------------------------------------
// Loop labels
// ---------------------------------------------------------------------------

/// A loop context answers to the label `name` if its jump target is `target`
/// or ends with `_name`.
pub open spec fn label_matches(jump: Seq<char>, target: Seq<char>, name: Seq<char>) -> bool {
    jump == target || ends(jump, "_"@ + name)
}

/// Some enclosing loop's break target answers to the label.
pub open spec fn break_found(
    loops: Seq<(Seq<char>, Seq<char>)>,
    target: Seq<char>,
    name: Seq<char>,
) -> bool {
    exists|i: int| 0 <= i < loops.len() && label_matches(#[trigger] loops[i].1, target, name)
}

/// Some enclosing loop's continue target answers to the label.
pub open spec fn continue_found(
    loops: Seq<(Seq<char>, Seq<char>)>,
    target: Seq<char>,
    name: Seq<char>,
) -> bool {
    exists|i: int| 0 <= i < loops.len() && label_matches(#[trigger] loops[i].0, target, name)
}

/// Whether some enclosing loop's break target answers to the label.
pub fn finds_break(loops: &PairList, target: &str, name: &str) -> (r: bool)
    ensures
        r == break_found(loops@, target@, name@),
{
    let suffix = crate::text::cat("_", name);
    let mut i: usize = 0;
    while i < loops.len()
        invariant
            i <= loops@.len(),
            suffix@ == "_"@ + name@,
            forall|j: int| 0 <= j < i ==> !label_matches(#[trigger] loops@[j].1, target@, name@),
        decreases loops@.len() - i,
    {
        if same(loops.second(i), target) || ends_with(loops.second(i), suffix.as_str()) {
            assert(label_matches(loops@[i as int].1, target@, name@));
            return true;
        }
        i = i + 1;
    }
    false
}

/// Whether some enclosing loop's continue target answers to the label.
pub fn finds_continue(loops: &PairList, target: &str, name: &str) -> (r: bool)
    ensures
        r == continue_found(loops@, target@, name@),
{
    let suffix = crate::text::cat("_", name);
    let mut i: usize = 0;
    while i < loops.len()
        invariant
            i <= loops@.len(),
            suffix@ == "_"@ + name@,
            forall|j: int| 0 <= j < i ==> !label_matches(#[trigger] loops@[j].0, target@, name@),
        decreases loops@.len() - i,
    {
        if same(loops.first(i), target) || ends_with(loops.first(i), suffix.as_str()) {
            assert(label_matches(loops@[i as int].0, target@, name@));
            return true;
        }
        i = i + 1;
    }
    false
}

} // verus!
