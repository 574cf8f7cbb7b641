//! The steps from a program to a native executable.
//!
//! The assembly is written first.  On a host of the same architecture it is
//! then assembled and linked; a tool that fails or is missing ends the run with
//! what has been made so far.

use vstd::prelude::*;
use crate::ast::Program;
use crate::cstar::raw::arm::ArmCodeGen;
use crate::cstar::raw::arm_model::target_of;
use crate::cstar::raw::common::program_decls;
use crate::cstar::raw::limits::Target;
use crate::cstar::raw::model::{Env, fresh_env, noted, result_text};
use crate::cstar::raw::support::decls_ok;
use crate::cstar::raw::x86::X86CodeGen;
use crate::cstar::raw::x86_model::x86_target;
use crate::text::{same, text, texts};

verus! {

/// An architecture that native code is generated for.
#[derive(Debug, Clone, Copy, PartialEq, Eq, Structural)]
pub enum Arch {
    X86,
    Aarch64,
    Arm,
}

/// How the run of a tool ended.
#[derive(Debug, Clone, Copy, PartialEq, Eq, Structural)]
pub enum ToolRun {
    Success,
    Failure,
    /// The tool could not be started.
    Missing,
}

/// How the making of an executable ended.
#[derive(Debug, Clone, Copy, PartialEq, Eq, Structural)]
pub enum Ending {
    /// The host cannot assemble the code.
    Cross,
    AssemblerFailed,
    AssemblerMissing,
    Linked,
    /// The linker failed and the C compiler linked.
    LinkedByCc,
    LinkFailed,
    LinkerMissing,
}

/// What to do next.
#[derive(Debug, Clone, Copy, PartialEq, Eq, Structural)]
pub enum Step {
    Assemble,
    Link,
    /// Link with the C compiler.
    Relink,
    Finish(Ending),
}

/// The name of an architecture.
pub open spec fn arch_text(a: Arch) -> Seq<char> {
    match a {
        Arch::X86 => "x86_64"@,
        Arch::Aarch64 => "aarch64"@,
        Arch::Arm => "arm"@,
    }
}

/// The name of an architecture.
pub fn arch_name(a: Arch) -> (r: &'static str)
    ensures
        r@ == arch_text(a),
{
    match a {
        Arch::X86 => "x86_64",
        Arch::Aarch64 => "aarch64",
        Arch::Arm => "arm",
    }
}

/// The ARM architecture that a name stands for.
pub open spec fn arm_named(n: Seq<char>) -> Option<Arch> {
    if n == "aarch64"@ || n == "arm64"@ {
        Some(Arch::Aarch64)
    } else if n == "arm"@ || n == "armv7"@ || n == "armv7l"@ {
        Some(Arch::Arm)
    } else {
        None
    }
}

/// The message for a name that stands for no ARM architecture.
pub open spec fn unsupported_text(n: Seq<char>) -> Seq<char> {
    "Unsupported ARM arch '"@ + n + "'. Use 'aarch64' or 'arm'."@
}

/// The ARM architecture that a name stands for, or what is wrong with it.
pub fn arm_arch(name: &str) -> (r: Result<Arch, String>)
    ensures
        r is Ok <==> arm_named(name@) is Some,
        r matches Ok(a) ==> arm_named(name@) == Some(a),
        r matches Err(e) ==> e@ == unsupported_text(name@),
{
    if same(name, "aarch64") || same(name, "arm64") {
        Ok(Arch::Aarch64)
    } else if same(name, "arm") || same(name, "armv7") || same(name, "armv7l") {
        Ok(Arch::Arm)
    } else {
        let mut s = String::new();
        s.append("Unsupported ARM arch '");
        s.append(name);
        s.append("'. Use 'aarch64' or 'arm'.");
        Err(s)
    }
}

/// The host cannot run what is made for `a`.
pub open spec fn cross(a: Arch, host: Seq<char>) -> bool {
    match a {
        Arch::X86 => host != "x86_64"@,
        Arch::Aarch64 => host != "aarch64"@,
        Arch::Arm => host != "arm"@ && host != "armv7l"@,
    }
}

/// Decides whether the host differs from the architecture.
pub fn is_cross(a: Arch, host: &str) -> (r: bool)
    ensures
        r == cross(a, host@),
{
    match a {
        Arch::X86 => !same(host, "x86_64"),
        Arch::Aarch64 => !same(host, "aarch64"),
        Arch::Arm => !same(host, "arm") && !same(host, "armv7l"),
    }
}

/// The assembler's arguments in front of the object file.
pub open spec fn assembler_words(a: Arch) -> Seq<Seq<char>> {
    match a {
        Arch::X86 => seq!["--64"@, "-o"@],
        Arch::Aarch64 => seq!["-march=armv8-a"@, "-o"@],
        Arch::Arm => seq!["-march=armv7-a"@, "-mfpu=neon-vfpv4"@, "-o"@],
    }
}

/// The assembler's arguments in front of the object file.
pub fn assembler_args(a: Arch) -> (r: Vec<String>)
    ensures
        texts(r@) == assembler_words(a),
{
    let r = match a {
        Arch::X86 => vec![text("--64"), text("-o")],
        Arch::Aarch64 => vec![text("-march=armv8-a"), text("-o")],
        Arch::Arm => vec![text("-march=armv7-a"), text("-mfpu=neon-vfpv4"), text("-o")],
    };
    assert(texts(r@) =~= assembler_words(a));
    r
}

/// The first step once the assembly has been written.
pub fn first_step(a: Arch, host: &str) -> (r: Step)
    ensures
        r == if cross(a, host@) {
            Step::Finish(Ending::Cross)
        } else {
            Step::Assemble
        },
{
    if is_cross(a, host) {
        Step::Finish(Ending::Cross)
    } else {
        Step::Assemble
    }
}

/// What follows a step: the linker follows the assembler, and where the linker
/// fails on ARM, the C compiler is tried.
pub open spec fn follows(a: Arch, step: Step, run: ToolRun) -> Step {
    match (step, run) {
        (Step::Assemble, ToolRun::Success) => Step::Link,
        (Step::Assemble, ToolRun::Failure) => Step::Finish(Ending::AssemblerFailed),
        (Step::Assemble, ToolRun::Missing) => Step::Finish(Ending::AssemblerMissing),
        (Step::Link, ToolRun::Success) => Step::Finish(Ending::Linked),
        (Step::Link, ToolRun::Failure) => if a == Arch::X86 {
            Step::Finish(Ending::LinkFailed)
        } else {
            Step::Relink
        },
        (Step::Link, ToolRun::Missing) => Step::Finish(Ending::LinkerMissing),
        (Step::Relink, ToolRun::Success) => Step::Finish(Ending::LinkedByCc),
        (Step::Relink, _) => Step::Finish(Ending::LinkFailed),
        (Step::Finish(e), _) => Step::Finish(e),
    }
}

/// What follows a step that ended with `run`.
pub fn next_step(a: Arch, step: Step, run: ToolRun) -> (r: Step)
    ensures
        r == follows(a, step, run),
{
    match (step, run) {
        (Step::Assemble, ToolRun::Success) => Step::Link,
        (Step::Assemble, ToolRun::Failure) => Step::Finish(Ending::AssemblerFailed),
        (Step::Assemble, ToolRun::Missing) => Step::Finish(Ending::AssemblerMissing),
        (Step::Link, ToolRun::Success) => Step::Finish(Ending::Linked),
        (Step::Link, ToolRun::Failure) => if a == Arch::X86 {
            Step::Finish(Ending::LinkFailed)
        } else {
            Step::Relink
        },
        (Step::Link, ToolRun::Missing) => Step::Finish(Ending::LinkerMissing),
        (Step::Relink, ToolRun::Success) => Step::Finish(Ending::LinkedByCc),
        (Step::Relink, _) => Step::Finish(Ending::LinkFailed),
        (Step::Finish(e), _) => Step::Finish(e),
    }
}

/// After at most three tools the run is over.
pub proof fn law_three_tools_end_the_run(a: Arch, r1: ToolRun, r2: ToolRun, r3: ToolRun)
    ensures
        follows(a, follows(a, follows(a, Step::Assemble, r1), r2), r3) is Finish,
{
}

/// An executable comes about only where the assembler succeeded, and the
/// linker or the C compiler after it.
pub proof fn law_executables_were_assembled_and_linked(
    a: Arch,
    r1: ToolRun,
    r2: ToolRun,
    r3: ToolRun,
)
    ensures
        ({
            let end = follows(a, follows(a, follows(a, Step::Assemble, r1), r2), r3);
            end == Step::Finish(Ending::Linked) || end == Step::Finish(Ending::LinkedByCc) <==> r1
                == ToolRun::Success && (r2 == ToolRun::Success || (a != Arch::X86 && r2
                == ToolRun::Failure && r3 == ToolRun::Success))
        }),
{
}

/// The note ahead of a compilation for another architecture.
pub open spec fn cross_note_text(a: Arch, host: Seq<char>) -> Seq<char> {
    "Cross-compiling to "@ + arch_text(a) + " (host is "@ + host + "). Assembly will be written but not assembled."@
}

/// The note ahead of a compilation for another architecture.
pub fn cross_note(a: Arch, host: &str) -> (r: String)
    ensures
        r@ == cross_note_text(a, host@),
{
    let mut s = String::new();
    s.append("Cross-compiling to ");
    s.append(arch_name(a));
    s.append(" (host is ");
    s.append(host);
    s.append("). Assembly will be written but not assembled.");
    s
}

/// The message at the end of a run; `stderr` is what the failed tool printed.
pub open spec fn ending_message(
    a: Arch,
    e: Ending,
    source: Seq<char>,
    obj: Seq<char>,
    exe: Seq<char>,
    stderr: Seq<char>,
) -> Seq<char> {
    match e {
        Ending::Cross => "Raw "@ + arch_text(a) + " assembly written to: "@ + source + " (cross-compilation, not assembled)"@,
        Ending::AssemblerFailed => if a == Arch::X86 {
            "'as' assembler not available or failed. Assembly written to "@ + source
        } else {
            "'as' assembler failed. Assembly written to "@ + source + "\n"@ + stderr
        },
        Ending::AssemblerMissing => "'as' not found. Assembly written to "@ + source,
        Ending::Linked => if a == Arch::X86 {
            "Native executable written to "@ + exe
        } else {
            "Native ELF executable written to "@ + exe
        },
        Ending::LinkedByCc => "Native ELF executable written to "@ + exe + " (via cc)"@,
        Ending::LinkFailed => "Linking failed. Object file at "@ + obj + "\n"@ + stderr,
        Ending::LinkerMissing => "'ld' not found. Object file at "@ + obj,
    }
}

/// The message at the end of a run; `stderr` is what the failed tool printed.
pub fn ending_text(a: Arch, e: Ending, source: &str, obj: &str, exe: &str, stderr: &str) -> (r:
    String)
    ensures
        r@ == ending_message(a, e, source@, obj@, exe@, stderr@),
{
    let mut s = String::new();
    match e {
        Ending::Cross => {
            s.append("Raw ");
            s.append(arch_name(a));
            s.append(" assembly written to: ");
            s.append(source);
            s.append(" (cross-compilation, not assembled)");
        },
        Ending::AssemblerFailed => {
            if a == Arch::X86 {
                s.append("'as' assembler not available or failed. Assembly written to ");
                s.append(source);
            } else {
                s.append("'as' assembler failed. Assembly written to ");
                s.append(source);
                s.append("\n");
                s.append(stderr);
            }
        },
        Ending::AssemblerMissing => {
            s.append("'as' not found. Assembly written to ");
            s.append(source);
        },
        Ending::Linked => {
            if a == Arch::X86 {
                s.append("Native executable written to ");
                s.append(exe);
            } else {
                s.append("Native ELF executable written to ");
                s.append(exe);
            }
        },
        Ending::LinkedByCc => {
            s.append("Native ELF executable written to ");
            s.append(exe);
            s.append(" (via cc)");
        },
        Ending::LinkFailed => {
            s.append("Linking failed. Object file at ");
            s.append(obj);
            s.append("\n");
            s.append(stderr);
        },
        Ending::LinkerMissing => {
            s.append("'ld' not found. Object file at ");
            s.append(obj);
        },
    }
    s
}

/// The tool that the user lacks at the end of a run.
pub fn lacking_tool(e: Ending) -> (r: Option<&'static str>)
    ensures
        r is None <==> e == Ending::Cross || e == Ending::Linked || e == Ending::LinkedByCc,
        r matches Some(t) ==> t@ == if e == Ending::AssemblerFailed || e
            == Ending::AssemblerMissing {
            "as"@
        } else {
            "ld"@
        },
{
    match e {
        Ending::Cross | Ending::Linked | Ending::LinkedByCc => None,
        Ending::AssemblerFailed | Ending::AssemblerMissing => Some("as"),
        Ending::LinkFailed | Ending::LinkerMissing => Some("ld"),
    }
}

/// The target of an architecture.
pub open spec fn native_target(a: Arch) -> Target {
    match a {
        Arch::X86 => x86_target(),
        Arch::Aarch64 => target_of(true),
        Arch::Arm => target_of(false),
    }
}

/// What a program's declarations bring in, for an architecture.
pub open spec fn native_env<'a>(a: Arch, program: Program) -> Env<'a> {
    noted(fresh_env(arch_text(a)), program_decls(program), program_decls(program).len())
}

/// The program can be compiled for the architecture.
pub open spec fn compiles(a: Arch, program: Program) -> bool {
    decls_ok(native_target(a), native_env(a, program), Seq::empty(), program_decls(program))
}

/// Decides whether a program can be compiled for the architecture.
pub fn supported(a: Arch, program: &Program) -> (r: bool)
    ensures
        r == compiles(a, *program),
{
    proof {
        reveal_strlit("aarch64");
        reveal_strlit("arm");
        assert("arm"@.len() != "aarch64"@.len());
    }
    match a {
        Arch::X86 => X86CodeGen::supports(program),
        Arch::Aarch64 | Arch::Arm => ArmCodeGen::supports(program, arch_name(a)),
    }
}

/// The assembly text of a program, or the errors in it.
pub open spec fn assembly_of(a: Arch, program: Program) -> Result<Seq<char>, Seq<char>> {
    let decls = program_decls(program);
    let env = native_env(a, program);
    match a {
        Arch::X86 => crate::cstar::raw::x86_model::compile_result(
            env,
            crate::cstar::raw::x86_model::program_code(
                env,
                crate::cstar::raw::x86_model::fresh_code(),
                decls,
            ),
            decls,
        ),
        _ => crate::cstar::raw::arm_model::compile_result(
            env,
            crate::cstar::raw::arm_model::program_code(
                env,
                crate::cstar::raw::arm_model::fresh_code(),
                decls,
            ),
            decls,
        ),
    }
}

/// Compiles a program to assembly text.
pub fn native_assembly(a: Arch, program: &Program) -> (r: Result<String, String>)
    requires
        compiles(a, *program),
    ensures
        result_text(r) == assembly_of(a, *program),
{
    proof {
        reveal_strlit("aarch64");
        reveal_strlit("arm");
        assert("arm"@.len() != "aarch64"@.len());
    }
    match a {
        Arch::X86 => {
            let mut gen = X86CodeGen::new();
            gen.compile(program)
        },
        Arch::Aarch64 | Arch::Arm => {
            let mut gen = ArmCodeGen::new(arch_name(a));
            gen.compile(program)
        },
    }
}

} // verus!
