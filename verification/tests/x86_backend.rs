//! The x86_64 backend on whole programs.

use vredrs_codegen::ast::{
    Annotation, AnnotationArg, AssignOp, AssignStmt, Assignee, BasicType, BinaryExpr, BinaryOp,
    BreakStmt, CallExpr, DtorBlock, Expr, ExprStmt, FnDef, FnParam, ForRangeStmt, Identifier,
    IfStmt, IntegerLiteral, PrintlnStmt, Program, ReturnStmt, Stmt, StringLiteral, StringPart,
    StructDef, ThrowStmt, TopLevel, TryStmt, TypeExpr, WhileStmt,
};
use vredrs_codegen::cstar::raw::x86::X86CodeGen;

fn ident(name: &str) -> Identifier {
    Identifier { name: name.to_string() }
}

fn var(name: &str) -> Expr {
    Expr::Identifier(ident(name))
}

fn int_lit(value: i64) -> Expr {
    Expr::Integer(IntegerLiteral { value })
}

fn str_lit(text: &str) -> Expr {
    Expr::String_(StringLiteral { parts: vec![StringPart::Text(text.to_string())] })
}

fn bin(left: Expr, operator: BinaryOp, right: Expr) -> Expr {
    Expr::Binary(BinaryExpr { left: Box::new(left), operator, right: Box::new(right) })
}

fn call(name: &str, args: Vec<Expr>) -> Expr {
    Expr::Call(CallExpr { callee: Box::new(var(name)), args })
}

fn set(name: &str, value: Expr) -> Stmt {
    Stmt::Assign(AssignStmt {
        targets: vec![Assignee::Identifier(ident(name))],
        operator: AssignOp::Simple,
        value,
    })
}

fn ret(value: Expr) -> Stmt {
    Stmt::Return(ReturnStmt { values: vec![value] })
}

fn print(value: Expr) -> Stmt {
    Stmt::Println(PrintlnStmt { args: vec![value] })
}

fn if_stmt(condition: Expr, then_body: Vec<Stmt>, else_body: Option<Vec<Stmt>>) -> Stmt {
    Stmt::If(IfStmt { condition, then_body, elif_chain: vec![], else_body })
}

fn while_stmt(condition: Expr, body: Vec<Stmt>) -> Stmt {
    Stmt::While(WhileStmt { label: None, condition, body })
}

fn expr_stmt(expr: Expr) -> Stmt {
    Stmt::Expr(ExprStmt { expr })
}

fn function(name: &str, params: &[&str], body: Vec<Stmt>) -> FnDef {
    FnDef {
        annotations: vec![],
        name: ident(name),
        params: params
            .iter()
            .map(|p| FnParam {
                name: ident(p),
                type_annotation: Some(TypeExpr::Basic(BasicType::Int)),
            })
            .collect(),
        return_type: None,
        body,
        extern_link: None,
    }
}

fn program(fns: Vec<FnDef>) -> Program {
    Program { declarations: fns.into_iter().map(TopLevel::FnDef).collect() }
}


const HEAD: &str = ".intel_syntax noprefix\n# Vredrs raw-mode x86_64 native output\n\
    # Generated by vredrs build --raw\n# No GC, no scheduler, no reflection — zero overhead.\n\n\
    .section .text\n.globl _start\n\n_start:\n    xor rbp, rbp\n    call main\n    mov rdi, rax\n    \
    mov rax, 60\n    syscall\n\n";

const TAIL: &str = ".section .bss\n.balign 8\n__handler_stack:\n    .skip 8192\n\
    __handler_idx:\n    .skip 8\n";

fn assembly(prog: &Program) -> String {
    assert!(X86CodeGen::supports(prog));
    X86CodeGen::new().compile(prog).expect("compile failed")
}

fn main_of(body: Vec<Stmt>) -> Program {
    program(vec![function("main", &[], body)])
}

#[test]
fn x86_main_that_returns() {
    let out = assembly(&main_of(vec![ret(int_lit(0))]));
    assert_eq!(
        out,
        format!(
            "{}main:\n    push rbp\n    mov rbp, rsp\n    push r12\n    sub rsp, 8\n    \
             mov rax, 0\n    jmp .Lepi_0\n    mov rax, 0\n    jmp .Lepi_0\n.Lepi_0:\n    \
             add rsp, 8\n    pop r12\n    pop rbp\n    ret\n\n{}",
            HEAD, TAIL
        )
    );
}

#[test]
fn x86_main_is_made_of_statements_where_there_is_none() {
    let p = Program { declarations: vec![TopLevel::Statement(set("x", int_lit(7)))] };
    let out = assembly(&p);
    assert!(out.contains("main:\n"), "{}", out);
    assert!(out.contains("    mov rax, 60\n    mov rdi, 0\n    syscall\n.Lepi_0:\n"), "{}", out);
}

#[test]
fn x86_hello_world() {
    let out = assembly(&main_of(vec![print(str_lit("Hi \"x\"\n"))]));
    assert!(out.contains(".section .rodata\n.str0:\n    .asciz \"Hi \\\"x\\\"\\n\"\n"), "{}", out);
    assert!(out.contains("    syscall\n"), "{}", out);
}

#[test]
fn x86_strings_are_folded() {
    let out = assembly(&main_of(vec![
        print(bin(str_lit("ab"), BinaryOp::Mul, int_lit(3))),
        print(bin(str_lit("c"), BinaryOp::Add, str_lit("d"))),
    ]));
    assert!(out.contains("\"ababab\""), "{}", out);
    assert!(out.contains("\"cd\""), "{}", out);
}

#[test]
fn x86_fibonacci_is_a_loop() {
    let fib = function(
        "fib",
        &["n"],
        vec![
            if_stmt(bin(var("n"), BinaryOp::Le, int_lit(1)), vec![ret(var("n"))], None),
            ret(bin(
                call("fib", vec![bin(var("n"), BinaryOp::Sub, int_lit(1))]),
                BinaryOp::Add,
                call("fib", vec![bin(var("n"), BinaryOp::Sub, int_lit(2))]),
            )),
        ],
    );
    let out = assembly(&program(vec![
        fib,
        function("main", &[], vec![print(call("fib", vec![int_lit(20)]))]),
    ]));
    assert!(out.contains(".Lfib_loop_"), "{}", out);
    let body = &out[out.find("fib:\n").unwrap()..out.find("main:\n").unwrap()];
    assert!(!body.contains("call fib"), "{}", body);
    assert!(out.contains("    call fib\n"), "{}", out);
}

#[test]
fn x86_small_functions_are_inlined() {
    let out = assembly(&program(vec![
        function("double", &["n"], vec![ret(bin(var("n"), BinaryOp::Add, var("n")))]),
        function("main", &[], vec![print(call("double", vec![int_lit(5)]))]),
    ]));
    assert!(!out.contains("call double"), "{}", out);
    assert!(out.contains(".Linl_"), "{}", out);
}

#[test]
fn x86_try_pushes_and_pops_its_handler() {
    let out = assembly(&main_of(vec![Stmt::Try(TryStmt {
        try_body: vec![Stmt::Throw(ThrowStmt { value: int_lit(3) })],
        catch_var: Some(ident("e")),
        catch_body: Some(vec![ret(var("e"))]),
        finally_body: None,
    })]));
    assert!(
        out.contains(
            "    lea rax, [rip + .Lcatch_1]\n    mov rcx, [rip + __handler_idx]\n    \
             lea rdx, [rip + __handler_stack]\n    mov [rdx + rcx*8], rax\n    inc rcx\n    \
             mov [rip + __handler_idx], rcx\n"
        ),
        "{}",
        out
    );
    assert!(out.contains(".Lcatch_1:\n    mov rcx, [rip + __handler_idx]\n    dec rcx\n"), "{}", out);
    assert!(out.contains("    mov rbx, rax\n"), "{}", out);
}

#[test]
fn x86_destructors_run_before_the_epilogue() {
    let p = Program {
        declarations: vec![
            TopLevel::DtorBlock(DtorBlock {
                target: ident("File"),
                body: vec![print(str_lit("closed"))],
            }),
            TopLevel::FnDef(function(
                "main",
                &[],
                vec![set("f", call("File", vec![])), ret(int_lit(1))],
            )),
        ],
    };
    let out = assembly(&p);
    let cleanup = out.find(".Lcleanup_1:\n").expect("cleanup label");
    let epilogue = out.find(".Lepi_0:\n").expect("epilogue label");
    assert!(cleanup < epilogue);
    assert!(out[..cleanup].contains("    jmp .Lcleanup_1\n"), "{}", out);
    assert!(!out[..cleanup].contains("    jmp .Lepi_0\n"), "{}", out);
    assert!(out[cleanup..epilogue].contains("    # dtor: calling ~File for f\n"), "{}", out);
    assert!(out[..epilogue].ends_with("    jmp .Lepi_0\n"), "{}", out);
    assert!(
        out.contains(
            "# dtor for type File (emitted at function exits via RAII heuristic)\n.section .text\n"
        ),
        "{}",
        out
    );
}

#[test]
fn x86_failed_assertions_are_errors() {
    let fails = |args| {
        let p = main_of(vec![expr_stmt(call("static_assert", args))]);
        assert!(X86CodeGen::supports(&p));
        X86CodeGen::new().compile(&p)
    };
    assert_eq!(
        fails(vec![int_lit(0), str_lit("too big")]),
        Err("static_assert failed: too big".to_string())
    );
    assert_eq!(
        fails(vec![int_lit(0)]),
        Err("static_assert failed: static assertion failed".to_string())
    );
    assert!(fails(vec![int_lit(1)]).is_ok());
}

#[test]
fn x86_struct_alignments_are_marked() {
    let s = StructDef {
        annotations: vec![Annotation {
            name: "align".to_string(),
            arguments: vec![AnnotationArg {
                name: None,
                value: int_lit(16),
                rendered: "16".to_string(),
            }],
        }],
        name: ident("Buf"),
        fields: vec![],
    };
    let p = Program {
        declarations: vec![
            TopLevel::StructDef(s),
            TopLevel::FnDef(function("main", &[], vec![])),
        ],
    };
    assert!(assembly(&p).ends_with(
        "# struct 'Buf' aligned to 16-byte boundary (@align(16))\n.balign 16\n\
         .LBuf_align_marker:\n    .skip 0\n"
    ));
}

#[test]
fn x86_parameters_spill_when_the_registers_run_out() {
    let out = assembly(&program(vec![
        function(
            "wide",
            &["a", "b", "c", "d", "e"],
            vec![set("a", int_lit(1)), set("b", int_lit(2)), ret(var("e"))],
        ),
        function("main", &[], vec![]),
    ]));
    assert!(
        out.contains(
            "    mov rbx, rdi\n    mov r13, rsi\n    mov r14, rdx\n    mov r15, rcx\n    \
             mov qword ptr [rbp-48], r8\n"
        ),
        "{}",
        out
    );
    assert!(out.contains("    mov rax, qword ptr [rbp-48]\n    jmp .Lepi_0\n"), "{}", out);
}

#[test]
fn x86_loops_branch_back() {
    let out = assembly(&main_of(vec![
        set("i", int_lit(0)),
        while_stmt(
            bin(var("i"), BinaryOp::Lt, int_lit(10)),
            vec![set("i", bin(var("i"), BinaryOp::Add, int_lit(1)))],
        ),
        Stmt::ForRange(ForRangeStmt {
            var: ident("j"),
            from: int_lit(0),
            to: int_lit(3),
            step: None,
            body: vec![Stmt::Break(BreakStmt { label: None })],
        }),
    ]));
    assert!(out.contains("    jmp .Lwhile_"), "{}", out);
    assert!(out.contains(".Lwend_"), "{}", out);
}

#[test]
fn x86_calls_need_their_arguments() {
    let p = main_of(vec![expr_stmt(call("spin_lock", vec![]))]);
    assert!(!X86CodeGen::supports(&p));
    let p = main_of(vec![expr_stmt(call("tls_set", vec![int_lit(1)]))]);
    assert!(!X86CodeGen::supports(&p));
    let p = main_of(vec![expr_stmt(call("spin_lock", vec![var("l")]))]);
    assert!(X86CodeGen::supports(&p));
}

/// The text of the function `name`.
fn part(out: &str, name: &str) -> String {
    let from = out.find(&format!("{}:\n", name)).unwrap();
    let to = out[from..].find("    ret\n\n").unwrap();
    out[from..from + to].to_string()
}

/// A function `g` that sets `n` variables, and the text for it.
fn with_variables(n: i64) -> String {
    let mut body: Vec<Stmt> = Vec::new();
    for i in 1..=n {
        body.push(set(&format!("v{}", i), int_lit(i)));
    }
    body.push(ret(var("v1")));
    let out = assembly(&program(vec![function("g", &[], body), function("main", &[], vec![])]));
    part(&out, "g")
}

#[test]
fn x86_variables_take_the_registers_that_the_allocator_gives() {
    // The fifth variable ends last, so it takes the register of the fourth.
    assert_eq!(
        with_variables(5),
        "g:\n    push rbp\n    mov rbp, rsp\n    push r12\n    push rbx\n    push r13\n    \
         push r14\n    push r15\n    sub rsp, 8\n    mov rax, 1\n    mov rbx, rax\n    \
         mov rax, 2\n    mov r13, rax\n    mov rax, 3\n    mov r14, rax\n    mov rax, 4\n    \
         mov r15, rax\n    mov rax, 5\n    mov r15, rax\n    mov rax, rbx\n    jmp .Lepi_0\n    \
         mov rax, 0\n    jmp .Lepi_0\n.Lepi_0:\n    add rsp, 8\n    pop r15\n    pop r14\n    \
         pop r13\n    pop rbx\n    pop r12\n    pop rbp\n"
    );
}

#[test]
fn x86_registers_are_used_again_after_an_interval() {
    // The interval of the first variable ends where the twenty-first starts.
    assert_eq!(with_variables(20).matches("    mov rbx, rax\n").count(), 1);
    assert!(with_variables(21).contains("    mov rax, 21\n    mov rbx, rax\n"));
}

#[test]
fn x86_failed_inlining_gives_the_registers_back() {
    let two = function("two", &["x", "y"], vec![ret(var("y"))]);
    let body = vec![ret(call("two", vec![int_lit(1), int_lit(2)]))];
    let out = assembly(&program(vec![
        two,
        function("g", &["a", "b", "c"], body),
        function("main", &[], vec![]),
    ]));
    let g = part(&out, "g");
    assert!(g.contains("    push r12\n    push rbx\n    push r13\n    push r14\n"), "{}", g);
    assert!(!g.contains("push r15"), "{}", g);
    assert!(g.contains("    mov rdi, 1\n    mov rsi, 2\n    call two\n"), "{}", g);
}

#[test]
fn x86_variables_leave_the_parameters_alone() {
    let out = assembly(&program(vec![
        function("g", &["a", "b"], vec![set("c", int_lit(7)), ret(var("a"))]),
        function("main", &[], vec![]),
    ]));
    assert!(
        part(&out, "g").contains(
            "    mov rbx, rdi\n    mov r13, rsi\n    mov rax, 7\n    mov r14, rax\n    \
             mov rax, rbx\n    jmp .Lepi_0\n"
        ),
        "{}",
        out
    );
}

#[test]
fn x86_loop_slots_lie_below_the_other_slots() {
    let range = |name: &str, body| {
        Stmt::ForRange(ForRangeStmt {
            var: ident(name),
            from: int_lit(0),
            to: int_lit(3),
            step: None,
            body,
        })
    };
    let out = assembly(&program(vec![
        function(
            "g",
            &["a", "b", "c", "d", "e"],
            vec![range("i", vec![set("x", var("e"))])],
        ),
        function("main", &[], vec![]),
    ]));
    let g = part(&out, "g");
    assert_eq!(g.matches("    mov qword ptr [rbp-48], ").count(), 1, "{}", g);
    for slot in ["[rbp-56]", "[rbp-64]", "[rbp-72]", "[rbp-80]"] {
        assert!(g.contains(slot), "{}", g);
    }
    assert!(!g.contains("[rbp-88]"), "{}", g);
}

#[test]
fn x86_arguments_do_not_disturb_each_other() {
    let double = || call("id", vec![int_lit(4)]);
    let out = assembly(&program(vec![
        function("f", &[], vec![ret(call("g", vec![int_lit(3), double()]))]),
        function("g", &["a", "b"], vec![set("c", int_lit(1)), ret(var("b"))]),
        function("id", &["a"], vec![set("c", int_lit(1)), ret(var("a"))]),
        function("main", &[], vec![]),
    ]));
    assert!(
        part(&out, "f").contains(
            "    mov rax, 3\n    push rax\n    mov rdi, 4\n    call id\n    push rax\n    \
             pop rsi\n    pop rdi\n    call g\n"
        ),
        "{}",
        out
    );
}

#[test]
fn x86_conditions_keep_their_left_side() {
    let out = assembly(&program(vec![
        function(
            "f",
            &["a", "b"],
            vec![if_stmt(
                bin(var("a"), BinaryOp::Lt, bin(var("b"), BinaryOp::Sub, int_lit(1))),
                vec![ret(var("a"))],
                None,
            )],
        ),
        function("main", &[], vec![]),
    ]));
    assert!(
        out.contains(
            "    mov rax, rbx\n    push rax\n    mov rax, r13\n    sub rax, 1\n    \
             mov rcx, rax\n    pop rax\n    cmp rax, rcx\n    jnl .Lelse_"
        ),
        "{}",
        out
    );
}
