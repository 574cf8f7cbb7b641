//! The C* compiler from syntax tree to artifacts.

use vredrs_codegen::ast::{
    Annotation, AnnotationArg, AssignOp, AssignStmt, Assignee, BasicType, BinaryExpr, BinaryOp,
    Expr, FnDef, FnParam, Identifier, IntegerLiteral, Program, Stmt, StringLiteral, StringPart,
    TopLevel, TypeExpr, WhileStmt,
};
use vredrs_codegen::cstar::codegen::CstarCompiler;

fn ident(name: &str) -> Identifier {
    Identifier { name: name.to_string() }
}

fn var(name: &str) -> Expr {
    Expr::Identifier(ident(name))
}

fn int_lit(value: i64) -> Expr {
    Expr::Integer(IntegerLiteral { value })
}

fn str_lit(text: &str) -> Expr {
    Expr::String_(StringLiteral { parts: vec![StringPart::Text(text.to_string())] })
}

fn bin(left: Expr, operator: BinaryOp, right: Expr) -> Expr {
    Expr::Binary(BinaryExpr { left: Box::new(left), operator, right: Box::new(right) })
}

fn set(name: &str, value: Expr) -> Stmt {
    Stmt::Assign(AssignStmt {
        targets: vec![Assignee::Identifier(ident(name))],
        operator: AssignOp::Simple,
        value,
    })
}

fn while_stmt(condition: Expr, body: Vec<Stmt>) -> Stmt {
    Stmt::While(WhileStmt { label: None, condition, body })
}

fn function(name: &str, params: &[&str], body: Vec<Stmt>) -> FnDef {
    FnDef {
        annotations: vec![],
        name: ident(name),
        params: params
            .iter()
            .map(|p| FnParam {
                name: ident(p),
                type_annotation: Some(TypeExpr::Basic(BasicType::Int)),
            })
            .collect(),
        return_type: None,
        body,
        extern_link: None,
    }
}

fn program(fns: Vec<FnDef>) -> Program {
    Program { declarations: fns.into_iter().map(TopLevel::FnDef).collect() }
}


fn annotated(annotations: Vec<Annotation>, name: &str, body: Vec<Stmt>) -> Program {
    let mut f = function(name, &[], body);
    f.annotations = annotations;
    program(vec![f])
}

fn arg(name: Option<&str>, value: Expr) -> AnnotationArg {
    AnnotationArg { name: name.map(|n| n.to_string()), value, rendered: String::new() }
}

fn note(name: &str, arguments: Vec<AnnotationArg>) -> Annotation {
    Annotation { name: name.to_string(), arguments }
}

/// The LLVM text of a program, or the error message.
fn lower_to_llvm(program: &Program, source: &str) -> String {
    let mut compiler = CstarCompiler::new();
    match compiler.generate_artifacts_from_ast_with_source(program, source) {
        Ok(a) => a.llvm_ir,
        Err(e) => format!("<codegen error: {}>", e.message()),
    }
}

#[test]
fn lowers_plain_cpps_main_to_text_section() {
    // No annotation: the function goes to `.text`, and the arithmetic becomes
    // an `add` instruction.
    let src = "fn, main()\n    set, x = 42\n    set, y = x + 8\n/end\n";
    let prog = program(vec![function(
        "main",
        &[],
        vec![set("x", int_lit(42)), set("y", bin(var("x"), BinaryOp::Add, int_lit(8)))],
    )]);
    let ir = lower_to_llvm(&prog, src);
    assert!(ir.contains("define"), "expected LLVM function: {}", ir);
    assert!(
        ir.contains("section \".text\""),
        "expected default .text section: {}",
        ir
    );
    assert!(ir.contains("alloca i64"), "expected alloca for x: {}", ir);
    assert!(
        ir.contains("store i64 42"),
        "expected store of 42 into x: {}",
        ir
    );
    assert!(
        ir.contains("= add i64"),
        "expected add instruction for x+8: {}",
        ir
    );
}

#[test]
fn lowers_section_annotation_to_section_attribute() {
    let src = "@section(\".text.boot\")\nfn, boot_entry()\n    set, x = 1\n/end\n";
    let prog = annotated(
        vec![note("section", vec![arg(None, str_lit(".text.boot"))])],
        "boot_entry",
        vec![set("x", int_lit(1))],
    );
    let ir = lower_to_llvm(&prog, src);
    assert!(
        ir.contains("section \".text.boot\""),
        "expected .text.boot section: {}",
        ir
    );
}

#[test]
fn lowers_isr_group_to_isr_vector_entry() {
    let src = "@isr_group(budget_us=50, priority=2)\nfn, systick_handler()\n    set, count = 0\n/end\n";
    let prog = annotated(
        vec![note(
            "isr_group",
            vec![arg(Some("budget_us"), int_lit(50)), arg(Some("priority"), int_lit(2))],
        )],
        "systick_handler",
        vec![set("count", int_lit(0))],
    );
    let ir = lower_to_llvm(&prog, src);
    assert!(
        ir.contains("@__cstar_isr_systick_handler"),
        "expected ISR vector entry: {}",
        ir
    );
    assert!(
        ir.contains("section \".isr\""),
        "expected .isr section: {}",
        ir
    );
}

#[test]
fn lowers_pipeline_to_dma_compute_windows() {
    let src = "@pipeline(priority=\"high\")\nfn, dma_fill()\n    set, total = 0\n/end\n";
    let prog = annotated(
        vec![note("pipeline", vec![arg(Some("priority"), str_lit("high"))])],
        "dma_fill",
        vec![set("total", int_lit(0))],
    );
    let ir = lower_to_llvm(&prog, src);
    assert!(
        ir.contains("C* @pipeline function=dma_fill priority=high"),
        "expected pipeline comment: {}",
        ir
    );
    assert!(
        ir.contains("# cstar dma window"),
        "expected DMA window asm: {}",
        ir
    );
    assert!(
        ir.contains("# cstar compute window"),
        "expected compute window asm: {}",
        ir
    );
}

#[test]
fn lowers_prefetch_to_llvm_prefetch_intrinsic() {
    let src =
        "@prefetch(hint=\"sequential\", stride=128)\nfn, scan()\n    set, s = 0\n/end\n";
    let prog = annotated(
        vec![note(
            "prefetch",
            vec![
                arg(Some("hint"), str_lit("sequential")),
                arg(Some("stride"), int_lit(128)),
            ],
        )],
        "scan",
        vec![set("s", int_lit(0))],
    );
    let ir = lower_to_llvm(&prog, src);
    assert!(
        ir.contains("@llvm.prefetch.p0i8"),
        "expected llvm.prefetch call: {}",
        ir
    );
    assert!(
        ir.contains("stride=128"),
        "expected stride comment: {}",
        ir
    );
}

#[test]
fn lowers_patch_to_patch_metadata_and_side_artifact() {
    let src = "@patch(base=\"base.bin\", output=\"out.patch\")\nfn, hot()\n    set, v = 7\n/end\n";
    let program = annotated(
        vec![note(
            "patch",
            vec![
                arg(Some("base"), str_lit("base.bin")),
                arg(Some("output"), str_lit("out.patch")),
            ],
        )],
        "hot",
        vec![set("v", int_lit(7))],
    );
    let mut compiler = CstarCompiler::new();
    let artifacts = compiler
        .generate_artifacts_from_ast_with_source(&program, src)
        .unwrap();
    assert!(
        artifacts.llvm_ir.contains("@__cstar_patch_hot"),
        "expected patch metadata: {}",
        artifacts.llvm_ir
    );
    assert_eq!(artifacts.patches.len(), 1);
    assert_eq!(artifacts.patches[0].path, "out.patch");
    let patch_text = String::from_utf8_lossy(&artifacts.patches[0].bytes);
    assert!(patch_text.starts_with("CSTAR-PATCH"), "expected patch header: {}", patch_text);
    assert!(patch_text.contains("function=hot"), "expected function name: {}", patch_text);
    assert!(patch_text.contains("base=base.bin"), "expected base: {}", patch_text);
}

#[test]
fn lowers_embed_to_comment_with_file_path() {
    let src = "@embed(\"samples/simple.cpps\")\nfn, blob()\n    set, m = 1\n/end\n";
    let prog = annotated(
        vec![note("embed", vec![arg(None, str_lit("samples/simple.cpps"))])],
        "blob",
        vec![set("m", int_lit(1))],
    );
    let ir = lower_to_llvm(&prog, src);
    assert!(
        ir.contains("C* @embed file=\"samples/simple.cpps\""),
        "expected @embed comment: {}",
        ir
    );
}

#[test]
fn lowers_link_to_comment_with_library_name() {
    let src = "@link(\"libm\")\nfn, math_link()\n    set, m = 2\n/end\n";
    let prog = annotated(
        vec![note("link", vec![arg(None, str_lit("libm"))])],
        "math_link",
        vec![set("m", int_lit(2))],
    );
    let ir = lower_to_llvm(&prog, src);
    assert!(
        ir.contains("C* @link library=\"libm\""),
        "expected @link comment: {}",
        ir
    );
}

#[test]
fn lowers_repo_to_package_metadata_and_side_artifacts() {
    let src = "@repo {\n    sources: \"local:pkg_a\"\n}\nfn, main()\n    set, x = 0\n/end\n";
    let program = program(vec![function("main", &[], vec![set("x", int_lit(0))])]);
    let mut compiler = CstarCompiler::new();
    let artifacts = compiler
        .generate_artifacts_from_ast_with_source(&program, src)
        .unwrap();
    assert!(
        artifacts
            .llvm_ir
            .contains("@__cstar_pkg_"),
        "expected package metadata: {}",
        artifacts.llvm_ir
    );
    assert!(artifacts.package_header.is_some(), "expected package header");
    assert!(artifacts.layout_map.is_some(), "expected layout map");
    assert!(artifacts.package_index.is_some(), "expected package index");
    assert!(artifacts.linker_script.is_some(), "expected linker script");
}

#[test]
fn permissive_path_emits_comment_for_unlowered_statements() {
    // `while` loops are lowered by the permissive C* PIR path;
    // the output must be valid LLVM IR with a ret instruction.
    let src = "fn, main()\n    set, i = 0\n    while, i < 10\n        set, i = i + 1\n    /end\n/end\n";
    let prog = program(vec![function(
        "main",
        &[],
        vec![
            set("i", int_lit(0)),
            while_stmt(
                bin(var("i"), BinaryOp::Lt, int_lit(10)),
                vec![set("i", bin(var("i"), BinaryOp::Add, int_lit(1)))],
            ),
        ],
    )]);
    let ir = lower_to_llvm(&prog, src);
    assert!(
        ir.contains("ret void"),
        "expected valid ret instruction: {}",
        ir
    );
}

#[test]
fn constant_folds_binary_literal_operands() {
    // The literal operands make it through to the add instruction.
    let src = "fn, main()\n    set, x = 1 + 2\n/end\n";
    let prog = program(vec![function(
        "main",
        &[],
        vec![set("x", bin(int_lit(1), BinaryOp::Add, int_lit(2)))],
    )]);
    let ir = lower_to_llvm(&prog, src);
    assert!(
        ir.contains("= add i64 1, 2"),
        "expected add i64 1, 2: {}",
        ir
    );
}
