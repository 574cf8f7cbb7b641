//! The C* compiler: from a syntax tree over PIR and the linear check to LLVM
//! text, linker script, package files and patch files.

use vstd::prelude::*;
use vstd::utf8::encode_utf8;
use crate::ast::Program;
use crate::cstar::hardware::{
    ASSERT_LOG_DRIVER, critical_entry, critical_exit, DEFAULT_LINKER_SCRIPT, default_linker_script,
    FLASH_DRIVER, generate_assert_log_asm, generate_critical_section_asm,
    generate_dynamic_linker_script, generate_flash_asm, generate_gpio_asm, generate_i2c_asm,
    generate_scheduler_asm, generate_spi_asm, generate_uart_asm, GPIO_DRIVER, I2C_DRIVER,
    linker_script, push_vector_lines, scheduler_text, SPI_DRIVER, UART_DRIVER, vector_lines,
};
use crate::cstar::linear::{law_accepted_programs_are_linear, linear, linear_error, LinearChecker};
use crate::cstar::llvm::{CstarLlvmEmitter, module_text};
use crate::cstar::packages::{
    build_package_layout, emit_layout_map, emit_package_header, emit_package_index,
    emit_patch_bytes, header_text, imports_of, index_bytes, map_text, package_layout,
    parse_repo_config, parse_source_imports, patch_text, repo_of,
};
use crate::cstar::annotations::text_outcome;
use crate::cstar::pir::{
    breakpoints_of, MemoryMap, no_program, Node, opt_view, Package, PackageEntry, packages_of,
    Patch, patches_of, PatchPlan, Pir, PirNode, PirProgram,
};
use crate::cstar::program::{
    all_in_budget, FileSizes, in_budget, in_text, law_handlers_keep_within_their_budgets,
    law_linker_scripts_are_marked, linked_where_due, lower_decls, lower_program,
};
use crate::error::CompilerError;
use crate::text::{dec, hex, push_dec, push_hex, texts};

verus! {

// ---------------------------------------------------------------------------
// Artifacts
// ---------------------------------------------------------------------------

/// A patch file.
#[derive(Debug)]
pub struct CstarPatchArtifact {
    pub path: String,
    pub bytes: Vec<u8>,
}

/// What a compilation produces.
#[derive(Debug)]
pub struct CstarArtifacts {
    pub llvm_ir: String,
    pub linker_script: Option<String>,
    pub package_header: Option<String>,
    pub layout_map: Option<String>,
    pub package_index: Option<Vec<u8>>,
    pub patches: Vec<CstarPatchArtifact>,
}

/// What the artifacts are.
pub struct Artifacts {
    pub llvm_ir: Seq<char>,
    pub linker_script: Option<Seq<char>>,
    pub package_header: Option<Seq<char>>,
    pub layout_map: Option<Seq<char>>,
    pub package_index: Option<Seq<u8>>,
    pub patches: Seq<(Seq<char>, Seq<u8>)>,
}

/// The patch files of a list.
pub open spec fn patch_files(v: Seq<CstarPatchArtifact>) -> Seq<(Seq<char>, Seq<u8>)> {
    Seq::new(v.len(), |i: int| (v[i].path@, v[i].bytes@))
}

impl View for CstarArtifacts {
    type V = Artifacts;

    open spec fn view(&self) -> Artifacts {
        Artifacts {
            llvm_ir: self.llvm_ir@,
            linker_script: opt_view(self.linker_script),
            package_header: opt_view(self.package_header),
            layout_map: opt_view(self.layout_map),
            package_index: match self.package_index {
                Some(b) => Some(b@),
                None => None,
            },
            patches: patch_files(self.patches@),
        }
    }
}

// ---------------------------------------------------------------------------
// Packages of the source
// ---------------------------------------------------------------------------

/// The program with the markers and entries of the first `k` packages.
pub open spec fn with_packages(p: Pir, ps: Seq<Package>, k: nat) -> Pir
    decreases k,
{
    if k == 0 || k > ps.len() {
        p
    } else {
        let prev = with_packages(p, ps, (k - 1) as nat);
        let x = ps[k - 1];
        (Pir {
            nodes: prev.nodes.push(
                Node::PackageMarker {
                    name: x.name,
                    partition: x.partition,
                    size: x.size,
                    offset: x.offset,
                    checksum: x.checksum,
                },
            ),
            packages: prev.packages.push(x),
            ..prev
        }).linked()
    }
}

/// The program with the repository and the packages of its source.
#[verifier::opaque]
pub open spec fn with_source(p: Pir, source: Seq<char>) -> Pir {
    let repo = repo_of(source);
    let imports = imports_of(source);
    if repo.enabled || imports.len() > 0 {
        let ps = package_layout(imports, repo.enabled);
        with_packages((Pir { repo, ..p }).linked(), ps, ps.len())
    } else {
        p
    }
}

/// Adds a package and its marker.
fn push_package_entry(pir: &mut PirProgram, x: &PackageEntry)
    ensures
        final(pir)@ == (Pir {
            nodes: old(pir)@.nodes.push(
                Node::PackageMarker {
                    name: x@.name,
                    partition: x@.partition,
                    size: x@.size,
                    offset: x@.offset,
                    checksum: x@.checksum,
                },
            ),
            packages: old(pir)@.packages.push(x@),
            ..old(pir)@
        }).linked(),
{
    pir.push(
        PirNode::PackageMarker {
            name: x.name.clone(),
            partition: x.partition.clone(),
            size: x.size,
            offset: x.offset,
            checksum: x.checksum,
        },
    );
    pir.push_package(
        PackageEntry {
            name: x.name.clone(),
            partition: x.partition.clone(),
            size: x.size,
            offset: x.offset,
            checksum: x.checksum,
        },
    );
}

/// Adds the repository and the packages of the source.
fn merge_source_physical_config(pir: &mut PirProgram, source: &str)
    ensures
        final(pir)@ == with_source(old(pir)@, source@),
{
    reveal(with_source);
    let repo = parse_repo_config(source);
    let imports = parse_source_imports(source);
    if repo.enabled || imports.len() > 0 {
        let ps = build_package_layout(&imports, repo.enabled);
        pir.enable_repo(repo);
        let ghost base = pir@;
        let mut k: usize = 0;
        while k < ps.len()
            invariant
                k <= ps@.len(),
                pir@ == with_packages(base, packages_of(ps@), k as nat),
            decreases ps@.len() - k,
        {
            push_package_entry(pir, &ps[k]);
            k = k + 1;
        }
    }
}

// ---------------------------------------------------------------------------
// Side files
// ---------------------------------------------------------------------------

/// The memory of a target whose memory map is not given.
pub open spec fn usual_memory() -> MemoryMap {
    MemoryMap {
        flash_origin: 0,
        flash_length: 262144,
        sram_origin: 0x2000_0000,
        sram_length: 65536,
        mmio_origin: None,
        mmio_length: None,
    }
}

/// The linker script of a program, where it needs one.
#[verifier::opaque]
pub open spec fn script_of(p: Pir) -> Option<Seq<char>> {
    if !p.needs_linker_script {
        None
    } else {
        match p.memory_map {
            Some(m) => Some(linker_script(m, p.stack_size, p.heap_size, p.vector_table)),
            None => if p.stack_size is Some || p.heap_size is Some {
                Some(linker_script(usual_memory(), p.stack_size, p.heap_size, p.vector_table))
            } else {
                Some(DEFAULT_LINKER_SCRIPT@)
            },
        }
    }
}

/// The linker script of a program.
fn choose_linker_script(p: &PirProgram) -> (r: Option<String>)
    ensures
        opt_view(r) == script_of(p@),
{
    reveal(script_of);
    if !p.needs_linker_script {
        return None;
    }
    match &p.memory_map {
        Some(m) => Some(
            generate_dynamic_linker_script(m, p.stack_size, p.heap_size, &p.vector_table),
        ),
        None => {
            if p.stack_size.is_some() || p.heap_size.is_some() {
                let m = MemoryMap {
                    flash_origin: 0,
                    flash_length: 262144,
                    sram_origin: 0x2000_0000,
                    sram_length: 65536,
                    mmio_origin: None,
                    mmio_length: None,
                };
                Some(generate_dynamic_linker_script(&m, p.stack_size, p.heap_size, &p.vector_table))
            } else {
                Some(default_linker_script())
            }
        },
    }
}

/// The patch files of the first `k` plans.
pub open spec fn patches_of_plans(ps: Seq<Patch>, ir: Seq<char>, k: nat) -> Seq<
    (Seq<char>, Seq<u8>),
>
    decreases k,
{
    if k == 0 || k > ps.len() {
        Seq::empty()
    } else {
        patches_of_plans(ps, ir, (k - 1) as nat).push(
            (ps[k - 1].output, encode_utf8(patch_text(ps[k - 1], ir))),
        )
    }
}

/// The patch files of the plans.
fn build_patches(ps: &Vec<PatchPlan>, ir: &str) -> (r: Vec<CstarPatchArtifact>)
    ensures
        patch_files(r@) == patches_of_plans(patches_of(ps@), ir@, ps@.len()),
{
    let mut out: Vec<CstarPatchArtifact> = Vec::new();
    let mut k: usize = 0;
    assert(patch_files(out@) =~= Seq::<(Seq<char>, Seq<u8>)>::empty());
    while k < ps.len()
        invariant
            k <= ps@.len(),
            patch_files(out@) == patches_of_plans(patches_of(ps@), ir@, k as nat),
        decreases ps@.len() - k,
    {
        let ghost before = patch_files(out@);
        let bytes = emit_patch_bytes(&ps[k], ir);
        out.push(CstarPatchArtifact { path: ps[k].output.clone(), bytes });
        k = k + 1;
        assert(patch_files(out@) =~= before.push(patch_files(out@).last()));
    }
    out
}

/// The text with the entries and exits of the first `k` critical functions.
pub open spec fn critical_text(out: Seq<char>, fs: Seq<Seq<char>>, k: nat) -> Seq<char>
    decreases k,
{
    if k == 0 || k > fs.len() {
        out
    } else {
        critical_text(out, fs, (k - 1) as nat) + "; @critical prologue for "@ + fs[k - 1] + ":\n"@ + critical_entry(fs[k - 1]) + "\n; @critical epilogue:\n"@ + critical_exit(fs[k - 1]) + "\n"@
    }
}

/// The text with the first `k` breakpoints.
pub open spec fn breakpoint_text(out: Seq<char>, bs: Seq<(u64, Seq<char>)>, k: nat) -> Seq<char>
    decreases k,
{
    if k == 0 || k > bs.len() {
        out
    } else {
        breakpoint_text(out, bs, (k - 1) as nat) + ";   0x"@ + hex(bs[k - 1].0 as nat, 8, true) + " -> "@ + bs[k - 1].1 + "\n"@
    }
}

/// The text with the target configuration of a program.
#[verifier::opaque]
pub open spec fn config_text(out: Seq<char>, p: Pir) -> Seq<char> {
    let o1 = if p.vector_table.len() > 0 {
        vector_lines(
            out + "\n; P0.1: Vector table entries:\n"@,
            ";   "@,
            p.vector_table,
            p.vector_table.len(),
        )
    } else {
        out
    };
    let o2 = if p.critical_sections.len() > 0 {
        critical_text(
            o1 + "\n; P2.9: Critical sections:\n"@,
            p.critical_sections,
            p.critical_sections.len(),
        )
    } else {
        o1
    };
    let o3 = match p.scheduler {
        Some(c) => o2 + "\n; P2.10: Scheduler configuration:\n;   tick_ms="@ + dec(c.tick_ms as nat) + " max_tasks="@ + dec(c.max_tasks as nat) + " stack_size="@ + dec(c.stack_size as nat) + "\n"@ + scheduler_text(c),
        None => o2,
    };
    if p.hw_breakpoints.len() > 0 {
        breakpoint_text(
            o3 + "\n; P4.13: Hardware breakpoints:\n"@,
            p.hw_breakpoints,
            p.hw_breakpoints.len(),
        )
    } else {
        o3
    }
}

/// The text with the hardware drivers.
#[verifier::opaque]
pub open spec fn drivers_text(out: Seq<char>) -> Seq<char> {
    out + "\n; P1.4: GPIO driver:\n"@ + GPIO_DRIVER@ + "\n; P1.6: UART driver:\n"@ + UART_DRIVER@
        + "\n; P1.7: I2C driver:\n"@ + I2C_DRIVER@ + "\n; P1.7: SPI driver:\n"@ + SPI_DRIVER@
        + "\n; P3.11: Flash driver:\n"@ + FLASH_DRIVER@ + "\n; P4.15: Assert + log:\n"@
        + ASSERT_LOG_DRIVER@
}

/// Appends the target configuration of a program.
fn push_config(out: &mut String, p: &PirProgram)
    ensures
        final(out)@ == config_text(old(out)@, p@),
{
    reveal(config_text);
    if p.vector_table.len() > 0 {
        out.append("\n; P0.1: Vector table entries:\n");
        push_vector_lines(out, ";   ", &p.vector_table);
    }
    if p.critical_sections.len() > 0 {
        out.append("\n; P2.9: Critical sections:\n");
        push_critical(out, &p.critical_sections);
    }
    match &p.scheduler {
        Some(c) => {
            let s = generate_scheduler_asm(c);
            out.append("\n; P2.10: Scheduler configuration:\n;   tick_ms=");
            push_dec(out, c.tick_ms);
            out.append(" max_tasks=");
            push_dec(out, c.max_tasks);
            out.append(" stack_size=");
            push_dec(out, c.stack_size);
            out.append("\n");
            out.append(s.as_str());
        },
        None => {},
    }
    if p.hw_breakpoints.len() > 0 {
        out.append("\n; P4.13: Hardware breakpoints:\n");
        push_breakpoints(out, &p.hw_breakpoints);
    }
}

/// Appends the entries and exits of critical functions.
fn push_critical(out: &mut String, fs: &Vec<String>)
    ensures
        final(out)@ == critical_text(old(out)@, texts(fs@), fs@.len()),
{
    let mut k: usize = 0;
    while k < fs.len()
        invariant
            k <= fs@.len(),
            out@ == critical_text(old(out)@, texts(fs@), k as nat),
        decreases fs@.len() - k,
    {
        let (a, b) = generate_critical_section_asm(fs[k].as_str());
        out.append("; @critical prologue for ");
        out.append(fs[k].as_str());
        out.append(":\n");
        out.append(a.as_str());
        out.append("\n; @critical epilogue:\n");
        out.append(b.as_str());
        out.append("\n");
        k = k + 1;
    }
}

/// Appends breakpoints.
fn push_breakpoints(out: &mut String, bs: &Vec<(u64, String)>)
    ensures
        final(out)@ == breakpoint_text(old(out)@, breakpoints_of(bs@), bs@.len()),
{
    let mut k: usize = 0;
    while k < bs.len()
        invariant
            k <= bs@.len(),
            out@ == breakpoint_text(old(out)@, breakpoints_of(bs@), k as nat),
        decreases bs@.len() - k,
    {
        out.append(";   0x");
        push_hex(out, bs[k].0, 8, true);
        out.append(" -> ");
        out.append(bs[k].1.as_str());
        out.append("\n");
        k = k + 1;
    }
}

/// Appends the hardware drivers.
fn push_drivers(out: &mut String)
    ensures
        final(out)@ == drivers_text(old(out)@),
{
    reveal(drivers_text);
    out.append("\n; P1.4: GPIO driver:\n");
    out.append(generate_gpio_asm().as_str());
    out.append("\n; P1.6: UART driver:\n");
    out.append(generate_uart_asm().as_str());
    out.append("\n; P1.7: I2C driver:\n");
    out.append(generate_i2c_asm().as_str());
    out.append("\n; P1.7: SPI driver:\n");
    out.append(generate_spi_asm().as_str());
    out.append("\n; P3.11: Flash driver:\n");
    out.append(generate_flash_asm().as_str());
    out.append("\n; P4.15: Assert + log:\n");
    out.append(generate_assert_log_asm().as_str());
}

// ---------------------------------------------------------------------------
// The compiler
// ---------------------------------------------------------------------------

/// The lowered program with the packages of its source.
pub open spec fn lowered_program(program: Program, source: Seq<char>, sizes: Seq<(Seq<char>, u64)>) -> Result<
    Pir,
    Seq<char>,
> {
    match lower_decls(no_program(), program.declarations@, 0, sizes) {
        Ok(p) => Ok(with_source(p, source)),
        Err(m) => Err(m),
    }
}

/// The artifacts of a lowered program that keeps the linear rules.
pub open spec fn artifacts_of(p: Pir) -> Result<Artifacts, Seq<char>> {
    match module_text(p) {
        Err(m) => Err(m),
        Ok(ir) => Ok(
            Artifacts {
                llvm_ir: drivers_text(config_text(ir, p)),
                linker_script: script_of(p),
                package_header: if p.packages.len() > 0 {
                    Some(header_text(p.packages))
                } else {
                    None
                },
                layout_map: if p.packages.len() > 0 {
                    Some(map_text(p.packages))
                } else {
                    None
                },
                package_index: if p.packages.len() > 0 {
                    Some(index_bytes(p.packages, p.packages.len()))
                } else {
                    None
                },
                patches: patches_of_plans(p.patch_plans, ir, p.patch_plans.len()),
            },
        ),
    }
}

/// What compiling a program with its source comes to.
pub open spec fn compiled(program: Program, source: Seq<char>, sizes: Seq<(Seq<char>, u64)>) -> Result<
    Artifacts,
    Seq<char>,
> {
    match lowered_program(program, source, sizes) {
        Err(m) => Err(m),
        Ok(p) => match linear_error(p) {
            Some(m) => Err(m),
            None => artifacts_of(p),
        },
    }
}

/// Packages leave functions and handlers alone.
proof fn lemma_with_packages(p: Pir, ps: Seq<Package>, k: nat)
    ensures
        with_packages(p, ps, k).functions == p.functions,
        with_packages(p, ps, k).isr_entries == p.isr_entries,
    decreases k,
{
    if k > 0 && k <= ps.len() {
        lemma_with_packages(p, ps, (k - 1) as nat);
    }
}

/// What is compiled keeps the rules: every scope releases what it acquires and
/// uses nothing after its release, and every interrupt handler keeps within its
/// budget.
pub proof fn law_compiled_programs_keep_the_rules(
    program: Program,
    source: Seq<char>,
    sizes: Seq<(Seq<char>, u64)>,
)
    requires
        compiled(program, source, sizes) is Ok,
    ensures
        lowered_program(program, source, sizes) matches Ok(p) && {
            &&& linear(p.nodes)
            &&& forall|i: int|
                0 <= i < p.functions.len() ==> linear((#[trigger] p.functions[i]).body)
            &&& all_in_budget(p)
        },
{
    let p = lowered_program(program, source, sizes)->Ok_0;
    law_accepted_programs_are_linear(p);
    law_handlers_keep_within_their_budgets(no_program(), program.declarations@, 0, sizes);
    let q = lower_decls(no_program(), program.declarations@, 0, sizes)->Ok_0;
    reveal(with_source);
    let repo = repo_of(source);
    let ps = package_layout(imports_of(source), repo.enabled);
    lemma_with_packages((Pir { repo, ..q }).linked(), ps, ps.len());
    assert(p.functions == q.functions && p.isr_entries == q.isr_entries);
    assert forall|k: int| 0 <= k < p.isr_entries.len() implies in_budget(
        p,
        #[trigger] p.isr_entries[k],
    ) by {
        assert(in_budget(q, q.isr_entries[k]));
    }
}

/// A program that breaks an ownership rule is not compiled.
pub proof fn law_broken_ownership_is_not_compiled(
    program: Program,
    source: Seq<char>,
    sizes: Seq<(Seq<char>, u64)>,
)
    requires
        lowered_program(program, source, sizes) matches Ok(p) && !(linear(p.nodes) && forall|i: int|
            0 <= i < p.functions.len() ==> linear((#[trigger] p.functions[i]).body)),
    ensures
        compiled(program, source, sizes) is Err,
{
    law_accepted_programs_are_linear(lowered_program(program, source, sizes)->Ok_0);
}

/// Whether the last compilation needs a linker script: that of a program that
/// keeps the linear rules, and else what the one before needed.
pub open spec fn needs_script(
    program: Program,
    source: Seq<char>,
    sizes: Seq<(Seq<char>, u64)>,
    earlier: bool,
) -> bool {
    match lowered_program(program, source, sizes) {
        Err(_) => earlier,
        Ok(p) => match linear_error(p) {
            Some(_) => earlier,
            None => p.needs_linker_script,
        },
    }
}

/// Packages are marked.
proof fn lemma_packages_marked(p: Pir, ps: Seq<Package>, k: nat)
    requires
        p.needs_linker_script,
    ensures
        with_packages(p, ps, k).needs_linker_script,
    decreases k,
{
    if k > 0 && k <= ps.len() {
        lemma_packages_marked(p, ps, (k - 1) as nat);
    }
}

/// After a compilation that succeeds, the compiler says that a linker script is
/// needed exactly where the artifacts hold one. That is so for every program
/// with a function without a section of its own, at the top level or selected by
/// an `@if`, with a patch file, or with package files.
pub proof fn law_linker_scripts_come_where_needed(
    program: Program,
    source: Seq<char>,
    sizes: Seq<(Seq<char>, u64)>,
    earlier: bool,
)
    ensures
        compiled(program, source, sizes) matches Ok(a) ==> {
            &&& needs_script(program, source, sizes, earlier) <==> a.linker_script is Some
            &&& (exists|k: int|
                0 <= k < program.declarations@.len() && in_text(
                    #[trigger] program.declarations@[k],
                )) ==> a.linker_script is Some
            &&& a.patches.len() > 0 ==> a.linker_script is Some
            &&& a.package_header is Some || a.layout_map is Some || a.package_index is Some
                ==> a.linker_script is Some
        },
{
    match compiled(program, source, sizes) {
        Ok(a) => {
            reveal(script_of);
            reveal(with_source);
            law_linker_scripts_are_marked(no_program(), program.declarations@, 0, sizes);
            let q = lower_decls(no_program(), program.declarations@, 0, sizes)->Ok_0;
            let p = with_source(q, source);
            assert(linked_where_due(no_program()));
            let repo = repo_of(source);
            let imports = imports_of(source);
            let ps = package_layout(imports, repo.enabled);
            lemma_packages_marked((Pir { repo, ..q }).linked(), ps, ps.len());
            assert(q.needs_linker_script ==> p.needs_linker_script);
            assert(p.patch_plans.len() > 0 ==> p.needs_linker_script);
            let ir = module_text(p)->Ok_0;
            if p.patch_plans.len() == 0 {
                assert(patches_of_plans(p.patch_plans, ir, 0).len() == 0);
            }
        },
        Err(_) => {},
    }
}

/// What a compilation has come to.
pub open spec fn artifacts_outcome(r: Result<CstarArtifacts, CompilerError>) -> Result<
    Artifacts,
    Seq<char>,
> {
    match r {
        Ok(a) => Ok(a@),
        Err(e) => Err(e.text()),
    }
}

/// The LLVM text of artifacts.
pub open spec fn ir_of(r: Result<Artifacts, Seq<char>>) -> Result<Seq<char>, Seq<char>> {
    match r {
        Ok(a) => Ok(a.llvm_ir),
        Err(m) => Err(m),
    }
}

/// The C* compiler.
pub struct CstarCompiler {
    last_needs_linker_script: bool,
    file_sizes: FileSizes,
}

impl CstarCompiler {
    /// Whether the last compilation needs a linker script.
    pub closed spec fn needs_linker_script(&self) -> bool {
        self.last_needs_linker_script
    }

    /// The sizes of the files that programs embed.
    pub closed spec fn sizes(&self) -> Seq<(Seq<char>, u64)> {
        self.file_sizes@
    }

    /// A new compiler.
    pub fn new() -> (r: Self)
        ensures
            !r.needs_linker_script(),
            r.sizes() == Seq::<(Seq<char>, u64)>::empty(),
    {
        CstarCompiler { last_needs_linker_script: false, file_sizes: FileSizes::new() }
    }

    /// Notes the size of a file that programs embed.
    pub fn note_file_size(&mut self, path: &str, size: u64)
        ensures
            final(self).sizes() == old(self).sizes().push((path@, size)),
            final(self).needs_linker_script() == old(self).needs_linker_script(),
    {
        self.file_sizes.note(path, size);
    }

    /// Compiles a program to LLVM text.
    pub fn generate_from_ast(&mut self, program: &Program) -> (r: Result<String, CompilerError>)
        ensures
            text_outcome(r) == ir_of(compiled(*program, ""@, old(self).sizes())),
            final(self).sizes() == old(self).sizes(),
            final(self).needs_linker_script() == needs_script(
                *program,
                ""@,
                old(self).sizes(),
                old(self).needs_linker_script(),
            ),
    {
        match self.generate_artifacts_from_ast(program) {
            Ok(a) => Ok(a.llvm_ir),
            Err(m) => Err(m),
        }
    }

    /// Compiles a program to artifacts.
    pub fn generate_artifacts_from_ast(&mut self, program: &Program) -> (r: Result<
        CstarArtifacts,
        CompilerError,
    >)
        ensures
            artifacts_outcome(r) == compiled(*program, ""@, old(self).sizes()),
            final(self).sizes() == old(self).sizes(),
            final(self).needs_linker_script() == needs_script(
                *program,
                ""@,
                old(self).sizes(),
                old(self).needs_linker_script(),
            ),
    {
        self.generate_artifacts_from_ast_with_source(program, "")
    }

    /// Compiles a program with its source text to artifacts.
    pub fn generate_artifacts_from_ast_with_source(&mut self, program: &Program, source: &str) -> (r:
        Result<CstarArtifacts, CompilerError>)
        ensures
            artifacts_outcome(r) == compiled(*program, source@, old(self).sizes()),
            final(self).sizes() == old(self).sizes(),
            final(self).needs_linker_script() == needs_script(
                *program,
                source@,
                old(self).sizes(),
                old(self).needs_linker_script(),
            ),
    {
        let mut pir = match lower_program(program, &self.file_sizes) {
            Ok(p) => p,
            Err(m) => {
                return Err(m);
            },
        };
        merge_source_physical_config(&mut pir, source);
        match LinearChecker::check(&pir) {
            Ok(_) => {},
            Err(m) => {
                return Err(m);
            },
        }
        self.last_needs_linker_script = pir.needs_linker_script;
        let llvm_ir = match CstarLlvmEmitter::new().emit(&pir) {
            Ok(s) => s,
            Err(m) => {
                return Err(m);
            },
        };
        let linker_script = choose_linker_script(&pir);
        let packed: bool = pir.packages.len() > 0;
        let package_header = if packed {
            Some(emit_package_header(&pir.packages))
        } else {
            None
        };
        let layout_map = if packed {
            Some(emit_layout_map(&pir.packages))
        } else {
            None
        };
        let package_index = if packed {
            Some(emit_package_index(&pir.packages))
        } else {
            None
        };
        let patches = build_patches(&pir.patch_plans, llvm_ir.as_str());
        let mut full_ir = llvm_ir;
        push_config(&mut full_ir, &pir);
        push_drivers(&mut full_ir);
        Ok(
            CstarArtifacts {
                llvm_ir: full_ir,
                linker_script,
                package_header,
                layout_map,
                package_index,
                patches,
            },
        )
    }

    /// Whether the last compilation needs a linker script.
    pub fn last_needs_linker_script(&self) -> (r: bool)
        ensures
            r == self.needs_linker_script(),
    {
        self.last_needs_linker_script
    }
}

} // verus!
