//! The way from a program to an executable.

use vredrs_codegen::ast::{
    BasicType, Expr, FnDef, FnParam, Identifier, IntegerLiteral, PrintlnStmt, Program, ReturnStmt,
    Stmt, StringLiteral, StringPart, TopLevel, TypeExpr,
};
use vredrs_codegen::cstar::raw::debuginfo::{collect_debug_info, generate_debug_sections};
use vredrs_codegen::cstar::raw::driver::{
    arm_arch, assembler_args, cross_note, ending_text, first_step, is_cross, lacking_tool,
    native_assembly, next_step, supported, Arch, Ending, Step, ToolRun,
};
use vredrs_codegen::cstar::raw::toolchain::{
    build_commands, output_stem, path_in, RawBuildConfig,
};

fn ident(name: &str) -> Identifier {
    Identifier { name: name.to_string() }
}

fn var(name: &str) -> Expr {
    Expr::Identifier(ident(name))
}

fn int_lit(value: i64) -> Expr {
    Expr::Integer(IntegerLiteral { value })
}

fn str_lit(text: &str) -> Expr {
    Expr::String_(StringLiteral { parts: vec![StringPart::Text(text.to_string())] })
}

fn ret(value: Expr) -> Stmt {
    Stmt::Return(ReturnStmt { values: vec![value] })
}

fn print(value: Expr) -> Stmt {
    Stmt::Println(PrintlnStmt { args: vec![value] })
}

fn function(name: &str, params: &[&str], body: Vec<Stmt>) -> FnDef {
    FnDef {
        annotations: vec![],
        name: ident(name),
        params: params
            .iter()
            .map(|p| FnParam {
                name: ident(p),
                type_annotation: Some(TypeExpr::Basic(BasicType::Int)),
            })
            .collect(),
        return_type: None,
        body,
        extern_link: None,
    }
}

fn program(fns: Vec<FnDef>) -> Program {
    Program { declarations: fns.into_iter().map(TopLevel::FnDef).collect() }
}


fn hello(text: &str) -> Program {
    program(vec![function("main", &[], vec![print(str_lit(text))])])
}

#[test]
fn arm_architectures_have_several_names() {
    assert_eq!(arm_arch("aarch64"), Ok(Arch::Aarch64));
    assert_eq!(arm_arch("arm64"), Ok(Arch::Aarch64));
    assert_eq!(arm_arch("arm"), Ok(Arch::Arm));
    assert_eq!(arm_arch("armv7"), Ok(Arch::Arm));
    assert_eq!(arm_arch("armv7l"), Ok(Arch::Arm));
    assert!(arm_arch("x86_64").is_err());
}

#[test]
fn only_hosts_of_the_architecture_assemble() {
    assert_eq!(first_step(Arch::X86, "x86_64"), Step::Assemble);
    assert_eq!(first_step(Arch::X86, "aarch64"), Step::Finish(Ending::Cross));
    assert_eq!(first_step(Arch::Aarch64, "aarch64"), Step::Assemble);
    assert_eq!(first_step(Arch::Aarch64, "arm"), Step::Finish(Ending::Cross));
    assert_eq!(first_step(Arch::Arm, "armv7l"), Step::Assemble);
    assert!(!is_cross(Arch::Arm, "arm"));
    assert_eq!(
        cross_note(Arch::Arm, "x86_64"),
        "Cross-compiling to arm (host is x86_64). Assembly will be written but not assembled."
    );
}

#[test]
fn tools_follow_one_another() {
    let x = Arch::X86;
    let a = Arch::Aarch64;
    assert_eq!(next_step(x, Step::Assemble, ToolRun::Success), Step::Link);
    assert_eq!(
        next_step(x, Step::Assemble, ToolRun::Failure),
        Step::Finish(Ending::AssemblerFailed)
    );
    assert_eq!(
        next_step(a, Step::Assemble, ToolRun::Missing),
        Step::Finish(Ending::AssemblerMissing)
    );
    assert_eq!(next_step(a, Step::Link, ToolRun::Success), Step::Finish(Ending::Linked));
    assert_eq!(next_step(x, Step::Link, ToolRun::Failure), Step::Finish(Ending::LinkFailed));
    assert_eq!(next_step(a, Step::Link, ToolRun::Failure), Step::Relink);
    assert_eq!(next_step(a, Step::Link, ToolRun::Missing), Step::Finish(Ending::LinkerMissing));
    assert_eq!(next_step(a, Step::Relink, ToolRun::Success), Step::Finish(Ending::LinkedByCc));
    assert_eq!(next_step(a, Step::Relink, ToolRun::Missing), Step::Finish(Ending::LinkFailed));
}

#[test]
fn assemblers_get_the_flags_of_the_architecture() {
    assert_eq!(assembler_args(Arch::X86), vec!["--64", "-o"]);
    assert_eq!(assembler_args(Arch::Aarch64), vec!["-march=armv8-a", "-o"]);
    assert_eq!(assembler_args(Arch::Arm), vec!["-march=armv7-a", "-mfpu=neon-vfpv4", "-o"]);
}

#[test]
fn endings_are_reported() {
    let say = |a, e| ending_text(a, e, "o.s", "o.o", "o", "boom");
    assert_eq!(
        say(Arch::Arm, Ending::Cross),
        "Raw arm assembly written to: o.s (cross-compilation, not assembled)"
    );
    assert_eq!(
        say(Arch::X86, Ending::AssemblerFailed),
        "'as' assembler not available or failed. Assembly written to o.s"
    );
    assert_eq!(
        say(Arch::Arm, Ending::AssemblerFailed),
        "'as' assembler failed. Assembly written to o.s\nboom"
    );
    assert_eq!(
        say(Arch::X86, Ending::AssemblerMissing),
        "'as' not found. Assembly written to o.s"
    );
    assert_eq!(say(Arch::X86, Ending::Linked), "Native executable written to o");
    assert_eq!(say(Arch::Arm, Ending::Linked), "Native ELF executable written to o");
    assert_eq!(
        say(Arch::Arm, Ending::LinkedByCc),
        "Native ELF executable written to o (via cc)"
    );
    assert_eq!(say(Arch::X86, Ending::LinkFailed), "Linking failed. Object file at o.o\nboom");
    assert_eq!(say(Arch::X86, Ending::LinkerMissing), "'ld' not found. Object file at o.o");
    assert_eq!(lacking_tool(Ending::AssemblerFailed), Some("as"));
    assert_eq!(lacking_tool(Ending::LinkerMissing), Some("ld"));
    assert_eq!(lacking_tool(Ending::Linked), None);
}

#[test]
fn programs_are_compiled_for_every_architecture() {
    for arch in [Arch::X86, Arch::Aarch64, Arch::Arm] {
        let p = hello("hi");
        assert!(supported(arch, &p));
        let out = native_assembly(arch, &p).unwrap();
        assert!(out.contains("_start:"));
        assert!(out.contains("hi"));
    }
}

#[test]
fn functions_with_more_parameters_than_registers_are_not_supported() {
    let names = ["a", "b", "c", "d", "e", "f", "g"];
    let p = program(vec![
        function("wide", &names[..5], vec![ret(var("a"))]),
        function("main", &[], vec![ret(int_lit(0))]),
    ]);
    assert!(supported(Arch::X86, &p));
    assert!(supported(Arch::Aarch64, &p));
    assert!(!supported(Arch::Arm, &p));
    let p = program(vec![function("wide", &names, vec![ret(var("a"))])]);
    assert!(!supported(Arch::X86, &p));
    assert!(supported(Arch::Aarch64, &p));
}

#[test]
fn the_raw_build_defaults_to_an_armv7m_binary() {
    let c = RawBuildConfig::default();
    assert_eq!((c.target.as_str(), c.format.as_str()), ("armv7m-none-eabi", "bin"));
    assert!(c.include_startup && c.include_linker);
}

#[test]
fn build_commands_assemble_link_and_copy() {
    assert_eq!(
        build_commands("out/main.o", "out/fw.bin", "build"),
        vec![
            "arm-none-eabi-as -mcpu=cortex-m3 -mthumb -o build/startup.o build/startup.s",
            "arm-none-eabi-ld -T build/link.ld -o out/fw.elf build/startup.o out/main.o",
            "arm-none-eabi-objcopy -O binary out/fw.elf out/fw.bin",
        ]
    );
    assert_eq!(path_in("", "a"), "a");
    assert_eq!(path_in("d/", "a"), "d/a");
}

#[test]
fn debug_sections_are_sized_by_their_contents() {
    let infos = collect_debug_info(&[("main".to_string(), 7, 2)], "a.v");
    assert_eq!(infos[0].file, "a.v");
    assert_eq!(infos[0].column, 2);
    assert!(infos[0].locals.is_empty());
    let s = generate_debug_sections(&infos, "a.v");
    // 19 bytes, the three of the name, and twenty for the function.
    assert!(s.contains("    .4byte 42        ; DWARF unit length\n"));
    assert!(s.contains("    .asciz \"main\"\n    .quad main         ; DW_AT_low_pc\n"));
    assert!(s.contains("    .quad main\n    .byte 0x21       ; DW_LNS_advance_line\n    .sleb128 7\n"));
    assert!(s.ends_with("    .byte 0, 1, 1   ; DW_LNE_end_sequence\n.debug_line_end:\n\n"));
}

#[test]
fn output_stems_lose_one_extension() {
    let paths = [
        "out/fw.bin", "fw", "fw.tar.gz", "a.b/fw", "a.b/.fw", "a.b/.fw.x", "fw.", "...",
        "fw.bin/", "fw.bin/.", "a/..", "..", ".", "./", "/", "", "/.", "./fw.bin", "a//b.c//",
    ];
    for p in paths {
        let expected = std::path::Path::new(p).with_extension("");
        assert_eq!(output_stem(p), expected.to_str().unwrap(), "{}", p);
    }
    assert_eq!(output_stem("out/fw.bin"), "out/fw");
}
