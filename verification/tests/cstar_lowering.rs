//! From syntax trees to physical programs.

use vredrs_codegen::ast::{
    Annotation, AnnotationArg, AssignOp, AssignStmt, Assignee, BasicType, BinaryExpr, BinaryOp,
    CallExpr, CastExpr, ConditionalCompile, Expr, ExprStmt, ExternFnDef, FloatLiteral, FnDef,
    FnParam, Identifier, IntegerLiteral, Program, Stmt, StringLiteral, StringPart, StructDef,
    TopLevel, TypeExpr, UnaryExpr, UnaryOp, UnsafeBlock, WhileStmt,
};
use vredrs_codegen::cstar::annotations::{
    annotation_arg_value, parse_hex_or_dec, parse_size_string,
};
use vredrs_codegen::cstar::codegen::{CstarArtifacts, CstarCompiler};
use vredrs_codegen::cstar::hardware::{
    generate_critical_section_asm, generate_startup_s, generate_vector_table_asm,
};
use vredrs_codegen::cstar::lower::{fold_binop, lower_operand_expr};
use vredrs_codegen::cstar::pir::{
    PirNode, PirOperand, PirProgram, PirType, VectorTableEntry,
};
use vredrs_codegen::cstar::program::{
    embedded_files, estimate_wcet_cycles, eval_if_condition, lower_function, FileSizes,
};
use vredrs_codegen::cstar::raw::common::substitute_asm_template;
use vredrs_codegen::text::TextList;

fn ident(name: &str) -> Identifier {
    Identifier { name: name.to_string() }
}

fn var(name: &str) -> Expr {
    Expr::Identifier(ident(name))
}

fn int_lit(value: i64) -> Expr {
    Expr::Integer(IntegerLiteral { value })
}

fn float_lit(value: f64) -> Expr {
    Expr::Float(FloatLiteral { bits: value.to_bits(), text: format!("{}", value) })
}

fn str_lit(text: &str) -> Expr {
    Expr::String_(StringLiteral { parts: vec![StringPart::Text(text.to_string())] })
}

fn bin(left: Expr, operator: BinaryOp, right: Expr) -> Expr {
    Expr::Binary(BinaryExpr { left: Box::new(left), operator, right: Box::new(right) })
}

fn call(name: &str, args: Vec<Expr>) -> Expr {
    Expr::Call(CallExpr { callee: Box::new(var(name)), args })
}

fn set(name: &str, value: Expr) -> Stmt {
    Stmt::Assign(AssignStmt {
        targets: vec![Assignee::Identifier(ident(name))],
        operator: AssignOp::Simple,
        value,
    })
}

fn while_stmt(condition: Expr, body: Vec<Stmt>) -> Stmt {
    Stmt::While(WhileStmt { label: None, condition, body })
}

fn expr_stmt(expr: Expr) -> Stmt {
    Stmt::Expr(ExprStmt { expr })
}

fn function(name: &str, params: &[&str], body: Vec<Stmt>) -> FnDef {
    FnDef {
        annotations: vec![],
        name: ident(name),
        params: params
            .iter()
            .map(|p| FnParam {
                name: ident(p),
                type_annotation: Some(TypeExpr::Basic(BasicType::Int)),
            })
            .collect(),
        return_type: None,
        body,
        extern_link: None,
    }
}

fn program(fns: Vec<FnDef>) -> Program {
    Program { declarations: fns.into_iter().map(TopLevel::FnDef).collect() }
}


fn arg(name: Option<&str>, value: Expr) -> AnnotationArg {
    AnnotationArg { name: name.map(|n| n.to_string()), value, rendered: String::new() }
}

fn note(name: &str, arguments: Vec<AnnotationArg>) -> Annotation {
    Annotation { name: name.to_string(), arguments }
}

fn annotated(annotations: Vec<Annotation>, name: &str, body: Vec<Stmt>) -> Program {
    let mut f = function(name, &[], body);
    f.annotations = annotations;
    program(vec![f])
}

fn compile(program: &Program) -> Result<CstarArtifacts, String> {
    CstarCompiler::new()
        .generate_artifacts_from_ast(program)
        .map_err(|e| e.message().to_string())
}

#[test]
fn constants_are_folded() {
    assert_eq!(fold_binop(BinaryOp::Add, i64::MAX, 1), Some(i64::MIN));
    assert_eq!(fold_binop(BinaryOp::Sub, i64::MIN, 1), Some(i64::MAX));
    assert_eq!(fold_binop(BinaryOp::Mul, 3, -4), Some(-12));
    assert_eq!(fold_binop(BinaryOp::Div, -7, 2), Some(-3));
    assert_eq!(fold_binop(BinaryOp::FloorDiv, 7, -2), Some(-3));
    assert_eq!(fold_binop(BinaryOp::Div, i64::MIN, -1), Some(i64::MIN));
    assert_eq!(fold_binop(BinaryOp::Mod, -7, 2), Some(-1));
    assert_eq!(fold_binop(BinaryOp::Mod, i64::MIN, -1), Some(0));
    assert_eq!(fold_binop(BinaryOp::Div, 1, 0), None);
    assert_eq!(fold_binop(BinaryOp::Mod, 1, 0), None);
    assert_eq!(fold_binop(BinaryOp::BitAnd, 12, 10), Some(8));
    assert_eq!(fold_binop(BinaryOp::BitOr, 12, 10), Some(14));
    assert_eq!(fold_binop(BinaryOp::BitXor, 12, 10), Some(6));
    assert_eq!(fold_binop(BinaryOp::Shl, 1, 65), Some(2));
    assert_eq!(fold_binop(BinaryOp::Shr, -8, 1), Some(-4));
    assert_eq!(fold_binop(BinaryOp::Le, 2, 2), Some(1));
    assert_eq!(fold_binop(BinaryOp::Lt, 2, 2), Some(0));
    assert_eq!(fold_binop(BinaryOp::Power, 2, 2), None);
}

#[test]
fn operands_of_constants_are_constants() {
    let e = bin(int_lit(2), BinaryOp::Mul, bin(int_lit(3), BinaryOp::Add, int_lit(4)));
    assert!(matches!(lower_operand_expr(&e), PirOperand::Int(14)));
    let v = bin(var("x"), BinaryOp::Add, int_lit(1));
    assert!(matches!(lower_operand_expr(&v), PirOperand::Int(0)));
    assert!(matches!(lower_operand_expr(&var("x")), PirOperand::Var(n) if n == "x"));
    assert!(matches!(lower_operand_expr(&Expr::Null), PirOperand::NullPtr));
}

#[test]
fn sizes_and_numbers_are_read() {
    assert_eq!(parse_hex_or_dec(" 0x1F "), 31);
    assert_eq!(parse_hex_or_dec("0Xff"), 255);
    assert_eq!(parse_hex_or_dec("+7"), 7);
    assert_eq!(parse_hex_or_dec("-7"), 0);
    assert_eq!(parse_hex_or_dec("18446744073709551616"), 0);
    assert_eq!(parse_size_string("8kb"), 8192);
    assert_eq!(parse_size_string(" 2 MB "), 2 * 1024 * 1024);
    assert_eq!(parse_size_string("256B"), 256);
    assert_eq!(parse_size_string("0x10"), 16);
    assert_eq!(parse_size_string("lots"), 0);
}

#[test]
fn conditions_are_decided_where_they_are_known() {
    let not = |e| Expr::Unary(UnaryExpr { operator: UnaryOp::Not, operand: Box::new(e) });
    assert_eq!(eval_if_condition(&int_lit(0)), Some(false));
    assert_eq!(eval_if_condition(&not(int_lit(0))), Some(true));
    assert_eq!(eval_if_condition(&str_lit("")), Some(false));
    assert_eq!(eval_if_condition(&str_lit("x")), Some(true));
    assert_eq!(eval_if_condition(&float_lit(-0.0)), Some(false));
    assert_eq!(eval_if_condition(&float_lit(f64::NAN)), Some(true));
    assert_eq!(eval_if_condition(&Expr::Null), Some(false));
    assert_eq!(eval_if_condition(&var("x")), None);
}

#[test]
fn execution_times_multiply_loops() {
    let call = || PirNode::Call {
        dst: None,
        func: "f".to_string(),
        args: vec![],
        ret_ty: PirType::Void,
    };
    let block = |t: &str| PirNode::AsmBlock {
        template: t.to_string(),
        inputs: vec![],
        outputs: vec![],
    };
    assert_eq!(estimate_wcet_cycles(&vec![]), 0);
    assert_eq!(estimate_wcet_cycles(&vec![call(), block("a\nb"), block("")]), 24);
    let one = PirNode::Loop { label: "l".to_string(), body: vec![call()] };
    assert_eq!(estimate_wcet_cycles(&vec![one]), 12016);
    let mut deep = call();
    for _ in 0..8 {
        deep = PirNode::Loop { label: "l".to_string(), body: vec![deep] };
    }
    assert_eq!(estimate_wcet_cycles(&vec![deep]), u64::MAX);
}

#[test]
fn handlers_over_their_budget_are_rejected() {
    let handler = |budget: i64| {
        annotated(
            vec![note(
                "isr_group",
                vec![arg(Some("budget_us"), int_lit(budget)), arg(Some("priority"), int_lit(1))],
            )],
            "tick",
            vec![while_stmt(
                var("x"),
                vec![set("x", int_lit(1)), set("x", int_lit(2))],
            )],
        )
    };
    let message = compile(&handler(1)).unwrap_err();
    assert!(
        message.starts_with("C* @isr_group WCET violation: handler 'tick' estimated "),
        "{}",
        message
    );
    assert!(message.ends_with(" cycles exceeds budget 1us (100 cycles)"), "{}", message);
    assert!(compile(&handler(1000)).is_ok());
}

#[test]
fn leaking_programs_are_not_compiled() {
    let alloc = Stmt::Assign(AssignStmt {
        targets: vec![Assignee::Identifier(ident("p"))],
        operator: AssignOp::Simple,
        value: Expr::Cast(CastExpr {
            expr: Box::new(call("malloc", vec![int_lit(8)])),
            type_expr: TypeExpr::Pointer(Box::new(TypeExpr::UnsignedInt(8))),
        }),
    });
    let free = expr_stmt(call("free", vec![var("p")]));
    let block = |body| Program {
        declarations: vec![TopLevel::Statement(Stmt::UnsafeBlock(UnsafeBlock { body }))],
    };
    assert_eq!(
        compile(&block(vec![alloc])).unwrap_err(),
        "C* linear resource leak in top-level unsafe scope: ptr resources must be explicitly \
         free/consume/move before leaving scope: p allocated at malloc/alloc-linear"
    );
    let alloc = Stmt::Assign(AssignStmt {
        targets: vec![Assignee::Identifier(ident("p"))],
        operator: AssignOp::Simple,
        value: Expr::Cast(CastExpr {
            expr: Box::new(call("malloc", vec![int_lit(8)])),
            type_expr: TypeExpr::Pointer(Box::new(TypeExpr::UnsignedInt(8))),
        }),
    });
    let out = compile(&block(vec![alloc, free])).unwrap();
    assert!(out.llvm_ir.contains("call i8* @malloc(i64 8)"), "{}", out.llvm_ir);
}

#[test]
fn declarations_that_raw_code_cannot_hold_are_rejected() {
    let p = Program { declarations: vec![TopLevel::ClassDef] };
    assert_eq!(
        compile(&p).unwrap_err(),
        "C* raw backend rejects top-level ClassDef; use imports, unsafe blocks, \
         @section/@isr_group/@pipeline/@prefetch/@patch functions, aligned structs, or extern \
         cstar declarations"
    );
    let s = StructDef { annotations: vec![], name: ident("S"), fields: vec![] };
    let p = Program { declarations: vec![TopLevel::StructDef(s)] };
    assert_eq!(
        compile(&p).unwrap_err(),
        "C* raw backend only accepts structs marked @align(N); 'S' has no physical alignment"
    );
    let e = ExternFnDef { link: Some("c".to_string()), fn_def: function("g", &[], vec![]) };
    let p = Program { declarations: vec![TopLevel::ExternFnDef(e)] };
    assert_eq!(
        compile(&p).unwrap_err(),
        "C* raw backend only accepts extern cstar declarations, got extern c"
    );
}

#[test]
fn annotations_without_their_argument_are_rejected() {
    let p = annotated(vec![note("section", vec![])], "f", vec![]);
    assert_eq!(compile(&p).unwrap_err(), "@section requires a string argument");
    let p = annotated(vec![note("breakpoint", vec![])], "f", vec![]);
    assert_eq!(compile(&p).unwrap_err(), "@breakpoint requires an integer argument");
}

#[test]
fn targets_are_configured_by_annotations() {
    let p = annotated(
        vec![
            note("stack", vec![arg(Some("size"), str_lit("8KB"))]),
            note("vector_table", vec![arg(Some("reset"), var("boot"))]),
            note("critical", vec![]),
            note("breakpoint", vec![arg(None, int_lit(4096))]),
        ],
        "f",
        vec![],
    );
    let mut c = CstarCompiler::new();
    let out = c.generate_artifacts_from_ast(&p).unwrap();
    assert!(c.last_needs_linker_script());
    let script = out.linker_script.unwrap();
    assert!(script.contains("_stack_size = 0x2000;\n"), "{}", script);
    assert!(script.contains("FLASH (rx)  : ORIGIN = 0x00000000, LENGTH = 0x40000\n"));
    assert!(script.ends_with("\n/* Vector table entries:\n *   reset -> boot\n */\n"));
    assert!(out.llvm_ir.contains("; P0.1: Vector table entries:\n;   reset -> boot\n"));
    assert!(out.llvm_ir.contains("; @critical prologue for f:\n"));
    assert!(out.llvm_ir.contains("; P4.13: Hardware breakpoints:\n;   0x00001000 -> f\n"));
}

#[test]
fn embedded_files_are_noted_with_their_sizes() {
    let p = annotated(
        vec![note("embed", vec![arg(None, str_lit("a.bin"))])],
        "blob",
        vec![],
    );
    let mut c = CstarCompiler::new();
    c.note_file_size("a.bin", 123);
    let ir = c.generate_from_ast(&p).unwrap();
    assert!(ir.contains("C* @embed file=\"a.bin\""), "{}", ir);
    assert!(ir.contains("123"), "{}", ir);
}

#[test]
fn vector_tables_fall_back_to_the_default_handler() {
    let entries = vec![
        VectorTableEntry {
            name: "reset".to_string(),
            handler: "boot".to_string(),
            irq_number: None,
        },
        VectorTableEntry {
            name: "irq0".to_string(),
            handler: "uart".to_string(),
            irq_number: Some(0),
        },
    ];
    let s = generate_vector_table_asm(&entries);
    assert!(s.contains("    .word boot              ; 1  Reset\n"));
    assert!(s.contains("    .word _default_handler              ; 2  NMI\n"));
    assert!(s.contains("    .word uart              ; 16 IRQ0\n"));
    assert!(s.contains("    .word _default_handler              ; 31 IRQ15\n"));
    assert!(!s.contains("IRQ16"));
    assert_eq!(generate_startup_s(&vec![], "default"), "default");
    assert_eq!(generate_startup_s(&entries, "default"), s);
    let (enter, leave) = generate_critical_section_asm("f");
    assert_eq!(
        enter,
        "    ;; @critical: disable interrupts for 'f'\n    mrs r0, PRIMASK\n    push {r0}\n    \
         cpsid i\n"
    );
    assert_eq!(
        leave,
        "    ;; @critical: restore interrupt state for 'f'\n    pop {r0}\n    msr PRIMASK, r0\n"
    );
}

#[test]
fn embedded_files_are_listed() {
    let embed = |path: &str| note("embed", vec![arg(None, str_lit(path))]);
    let mut f = function("f", &[], vec![]);
    f.annotations = vec![embed("a.bin")];
    let mut g = function("g", &[], vec![]);
    g.annotations = vec![embed("b.bin")];
    let mut h = function("h", &[], vec![]);
    h.annotations = vec![embed("c.bin")];
    let p = Program {
        declarations: vec![
            TopLevel::FnDef(f),
            TopLevel::ConditionalCompile(ConditionalCompile {
                condition: int_lit(0),
                then_body: vec![TopLevel::FnDef(g)],
                else_body: Some(vec![TopLevel::FnDef(h)]),
            }),
        ],
    };
    assert_eq!(embedded_files(&p), vec!["a.bin", "c.bin"]);
    let mut other = CstarCompiler::new();
    other.note_file_size("b.bin", 99);
    assert_eq!(
        other.generate_from_ast(&p).unwrap(),
        CstarCompiler::new().generate_from_ast(&p).unwrap()
    );
}

#[test]
fn rejected_handlers_leave_nothing_behind() {
    let handler = |budget: i64| {
        let mut f = function(
            "tick",
            &[],
            vec![while_stmt(var("x"), vec![set("x", int_lit(1)), set("x", int_lit(2))])],
        );
        f.annotations = vec![note(
            "isr_group",
            vec![arg(Some("budget_us"), int_lit(budget)), arg(Some("priority"), int_lit(1))],
        )];
        f
    };
    let sizes = FileSizes::new();
    let mut p = PirProgram::default();
    assert!(lower_function(&mut p, &handler(1000), &sizes).is_ok());
    assert_eq!((p.functions.len(), p.isr_entries.len()), (1, 1));
    assert_eq!(p.isr_entries[0].handler, "tick");
    assert_eq!(p.isr_entries[0].budget_us, 1000);
    assert!(lower_function(&mut p, &handler(1), &sizes).is_err());
    assert_eq!((p.functions.len(), p.isr_entries.len()), (1, 1));
}

#[test]
fn integer_arguments_are_read_from_their_value() {
    assert_eq!(annotation_arg_value(&arg(None, int_lit(4096))), "4096");
    assert_eq!(annotation_arg_value(&arg(None, int_lit(-1))), "-1");
    assert_eq!(annotation_arg_value(&arg(None, var("low"))), "low");
    let mut other = arg(None, Expr::Null);
    other.rendered = "null".to_string();
    assert_eq!(annotation_arg_value(&other), "null");
}

#[test]
fn template_references_without_an_operand_stay() {
    let mut none = TextList::new();
    assert_eq!(substitute_asm_template("mov %09, %1 %%", &none), "mov %09, %1 %");
    assert_eq!(
        substitute_asm_template("%18446744073709551616", &none),
        "%18446744073709551616"
    );
    none.push("rax".to_string());
    assert_eq!(substitute_asm_template("mov %0, %00, %01", &none), "mov rax, rax, %01");
    assert_eq!(
        substitute_asm_template("%18446744073709551616", &none),
        "%18446744073709551616"
    );
}

#[test]
fn linker_scripts_come_where_they_are_needed() {
    let mut compiler = CstarCompiler::new();
    assert!(!compiler.last_needs_linker_script());
    let mut f = function("main", &[], vec![set("x", int_lit(0))]);
    let a = compiler.generate_artifacts_from_ast(&program(vec![f])).unwrap();
    assert!(a.linker_script.is_some());
    assert!(compiler.last_needs_linker_script());
    f = function("main", &[], vec![set("x", int_lit(0))]);
    f.annotations = vec![note("section", vec![arg(None, str_lit("fast"))])];
    let a = compiler.generate_artifacts_from_ast(&program(vec![f])).unwrap();
    assert!(a.linker_script.is_none());
    assert!(!compiler.last_needs_linker_script());
}

#[test]
fn selected_functions_need_a_linker_script() {
    let choice = |taken: bool| Program {
        declarations: vec![TopLevel::ConditionalCompile(ConditionalCompile {
            condition: int_lit(taken as i64),
            then_body: vec![TopLevel::FnDef(function("f", &[], vec![set("x", int_lit(0))]))],
            else_body: None,
        })],
    };
    let mut compiler = CstarCompiler::new();
    let a = compiler.generate_artifacts_from_ast(&choice(true)).unwrap();
    assert!(a.linker_script.is_some() && compiler.last_needs_linker_script());
    let a = compiler.generate_artifacts_from_ast(&choice(false)).unwrap();
    assert!(a.linker_script.is_none() && !compiler.last_needs_linker_script());
}
