//! The ARM backend on whole programs.

use vredrs_codegen::ast::{
    AsmStmt, AssignOp, AssignStmt, Assignee, BasicType, BinaryExpr, BinaryOp, BoolLiteral, CallExpr,
    ConditionalCompile, DtorBlock, Expr, ExprStmt, FloatLiteral, FnDef, FnParam, Identifier, IfStmt,
    IntegerLiteral, MemberAccessExpr, PrintlnStmt, Program, ReturnStmt, Stmt, StringLiteral,
    StringPart, TopLevel, TypeExpr, UnaryExpr, UnaryOp, WhileStmt,
};
use vredrs_codegen::cstar::raw::arm::ArmCodeGen;
use vredrs_codegen::cstar::raw::driver::arm_arch;

fn ident(name: &str) -> Identifier {
    Identifier { name: name.to_string() }
}

fn var(name: &str) -> Expr {
    Expr::Identifier(ident(name))
}

fn int_lit(value: i64) -> Expr {
    Expr::Integer(IntegerLiteral { value })
}

fn float_lit(value: f64) -> Expr {
    Expr::Float(FloatLiteral { bits: value.to_bits(), text: format!("{}", value) })
}

fn str_lit(text: &str) -> Expr {
    Expr::String_(StringLiteral { parts: vec![StringPart::Text(text.to_string())] })
}

fn bin(left: Expr, operator: BinaryOp, right: Expr) -> Expr {
    Expr::Binary(BinaryExpr { left: Box::new(left), operator, right: Box::new(right) })
}

fn neg(operand: Expr) -> Expr {
    Expr::Unary(UnaryExpr { operator: UnaryOp::Neg, operand: Box::new(operand) })
}

fn call(name: &str, args: Vec<Expr>) -> Expr {
    Expr::Call(CallExpr { callee: Box::new(var(name)), args })
}

fn method(target: Expr, name: &str, args: Vec<Expr>) -> Expr {
    let callee = Expr::MemberAccess(MemberAccessExpr {
        target: Box::new(target),
        member: ident(name),
    });
    Expr::Call(CallExpr { callee: Box::new(callee), args })
}

fn set(name: &str, value: Expr) -> Stmt {
    Stmt::Assign(AssignStmt {
        targets: vec![Assignee::Identifier(ident(name))],
        operator: AssignOp::Simple,
        value,
    })
}

fn ret(value: Expr) -> Stmt {
    Stmt::Return(ReturnStmt { values: vec![value] })
}

fn print(value: Expr) -> Stmt {
    Stmt::Println(PrintlnStmt { args: vec![value] })
}

fn if_stmt(condition: Expr, then_body: Vec<Stmt>, else_body: Option<Vec<Stmt>>) -> Stmt {
    Stmt::If(IfStmt { condition, then_body, elif_chain: vec![], else_body })
}

fn while_stmt(condition: Expr, body: Vec<Stmt>) -> Stmt {
    Stmt::While(WhileStmt { label: None, condition, body })
}

fn expr_stmt(expr: Expr) -> Stmt {
    Stmt::Expr(ExprStmt { expr })
}

fn function(name: &str, params: &[&str], body: Vec<Stmt>) -> FnDef {
    FnDef {
        annotations: vec![],
        name: ident(name),
        params: params
            .iter()
            .map(|p| FnParam {
                name: ident(p),
                type_annotation: Some(TypeExpr::Basic(BasicType::Int)),
            })
            .collect(),
        return_type: None,
        body,
        extern_link: None,
    }
}

fn program(fns: Vec<FnDef>) -> Program {
    Program { declarations: fns.into_iter().map(TopLevel::FnDef).collect() }
}


fn assembly(arch: &str, prog: &Program) -> String {
    assert!(ArmCodeGen::supports(prog, arch));
    let mut gen = ArmCodeGen::new(arch);
    gen.compile(prog).expect("compile failed")
}

fn fib_program(n: i64) -> Program {
    program(vec![
        function(
            "fib",
            &["n"],
            vec![
                if_stmt(bin(var("n"), BinaryOp::Le, int_lit(1)), vec![ret(var("n"))], None),
                ret(bin(
                    call("fib", vec![bin(var("n"), BinaryOp::Sub, int_lit(1))]),
                    BinaryOp::Add,
                    call("fib", vec![bin(var("n"), BinaryOp::Sub, int_lit(2))]),
                )),
            ],
        ),
        function("main", &[], vec![print(call("fib", vec![int_lit(n)]))]),
    ])
}

#[test]
fn test_aarch64_hello_world() {
    let prog = program(vec![function("main", &[], vec![print(str_lit("Hello, ARM!"))])]);
    let out = assembly("aarch64", &prog);
    assert!(out.contains(".text"), "missing .text section");
    assert!(out.contains(".global _start"), "missing _start global");
    assert!(out.contains("_start:"), "missing _start label");
    assert!(out.contains("bl main"), "missing bl main");
    assert!(out.contains("mov x8, #93"), "missing exit syscall");
    assert!(out.contains("Hello, ARM!"), "missing string constant");
    assert!(out.contains("adrp"), "missing adrp for string load");
}

#[test]
fn test_arm32_hello_world() {
    let prog = program(vec![function("main", &[], vec![print(str_lit("Hello, ARM32!"))])]);
    let out = assembly("arm", &prog);
    assert!(out.contains(".syntax unified"), "missing .syntax unified");
    assert!(out.contains("bl main"), "missing bl main");
    assert!(out.contains("mov r7, #1"), "missing ARM32 exit syscall");
    assert!(out.contains("Hello, ARM32!"), "missing string constant");
}

#[test]
fn test_aarch64_fib_iterative() {
    let out = assembly("aarch64", &fib_program(20));
    // The iterative pattern should use x19, x20, x21, x22.
    assert!(out.contains("mov x19, #0"), "fib: missing x19 init");
    assert!(out.contains("mov x20, #1"), "fib: missing x20 init");
    assert!(out.contains("mov x21, #2"), "fib: missing x21 init");
    // The fib function itself should use the iterative loop label.
    assert!(out.contains(".Lfib_loop_"), "fib: missing iterative loop label");
    assert!(out.contains(".Lfib_done_"), "fib: missing iterative done label");
}

#[test]
fn test_arm32_fib_iterative() {
    let out = assembly("arm", &fib_program(15));
    assert!(out.contains("mov r4, #0"), "arm32 fib: missing r4 init");
    assert!(out.contains("mov r5, #1"), "arm32 fib: missing r5 init");
    assert!(out.contains(".Lfib_loop_"), "arm32 fib: missing iterative loop label");
}

#[test]
fn test_aarch64_arithmetic() {
    let prog = program(vec![
        function("add", &["a", "b"], vec![ret(bin(var("a"), BinaryOp::Add, var("b")))]),
        function("main", &[], vec![print(call("add", vec![int_lit(3), int_lit(4)]))]),
    ]);
    let out = assembly("aarch64", &prog);
    // add function should use add instruction.
    assert!(out.contains("add x"), "missing add instruction");
}

fn float_program() -> Program {
    program(vec![function(
        "main",
        &[],
        vec![print(bin(float_lit(3.14), BinaryOp::Add, float_lit(2.86)))],
    )])
}

#[test]
fn test_aarch64_float_arithmetic() {
    let out = assembly("aarch64", &float_program());
    // Float arithmetic should use NEON fadd.
    assert!(out.contains("fadd"), "missing NEON fadd instruction");
    assert!(out.contains("fmov"), "missing NEON fmov instruction");
}

#[test]
fn test_arm32_float_arithmetic() {
    let out = assembly("arm", &float_program());
    // ARM32 float arithmetic should use VFP vadd.f64.
    assert!(out.contains("vadd.f64"), "missing VFP vadd.f64 instruction");
}

#[test]
fn test_aarch64_while_loop() {
    let prog = program(vec![function(
        "main",
        &[],
        vec![
            set("i", int_lit(0)),
            set("sum", int_lit(0)),
            while_stmt(
                bin(var("i"), BinaryOp::Lt, int_lit(10)),
                vec![
                    set("sum", bin(var("sum"), BinaryOp::Add, var("i"))),
                    set("i", bin(var("i"), BinaryOp::Add, int_lit(1))),
                ],
            ),
            print(var("sum")),
        ],
    )]);
    let out = assembly("aarch64", &prog);
    assert!(out.contains(".Lwhile_"), "missing while loop label");
    assert!(out.contains(".Lwend_"), "missing while end label");
    assert!(out.contains("b .Lwhile_"), "missing while back-branch");
}

#[test]
fn test_aarch64_if_else() {
    let prog = program(vec![function(
        "main",
        &[],
        vec![
            set("x", int_lit(5)),
            if_stmt(
                bin(var("x"), BinaryOp::Gt, int_lit(3)),
                vec![print(str_lit("big"))],
                Some(vec![print(str_lit("small"))]),
            ),
        ],
    )]);
    let out = assembly("aarch64", &prog);
    assert!(out.contains(".Lelse_"), "missing else label");
    assert!(out.contains(".Lend_"), "missing end label");
    assert!(out.contains("ble"), "missing ble (inverted gt) jump");
}

#[test]
fn test_aarch64_string_concat() {
    let prog = program(vec![function(
        "main",
        &[],
        vec![print(bin(str_lit("Hello, "), BinaryOp::Add, str_lit("World!")))],
    )]);
    let out = assembly("aarch64", &prog);
    assert!(out.contains("Hello, World!"), "string concat not folded");
}

#[test]
fn test_aarch64_string_repeat() {
    let prog = program(vec![function(
        "main",
        &[],
        vec![print(bin(str_lit("ab"), BinaryOp::Mul, int_lit(3)))],
    )]);
    let out = assembly("aarch64", &prog);
    assert!(out.contains("ababab"), "string repeat not folded");
}

#[test]
fn test_aarch64_ptr_atomics() {
    let prog = program(vec![function(
        "main",
        &[],
        vec![
            set("p", int_lit(0)),
            set("v", method(var("p"), "load_acquire", vec![])),
            expr_stmt(method(var("p"), "store_release", vec![int_lit(42)])),
            print(var("v")),
        ],
    )]);
    let out = assembly("aarch64", &prog);
    assert!(out.contains("dmb ishld"), "missing load_acquire fence");
    assert!(out.contains("dmb ish"), "missing store_release fence");
}

#[test]
fn test_aarch64_unary_neg() {
    let prog = program(vec![function(
        "main",
        &[],
        vec![set("x", int_lit(5)), print(neg(var("x")))],
    )]);
    let out = assembly("aarch64", &prog);
    assert!(out.contains("neg x"), "missing neg instruction");
}

#[test]
fn test_invalid_arch() {
    let result = arm_arch("mips");
    assert!(result.is_err(), "should reject invalid arch");
    assert_eq!(
        result.unwrap_err(),
        "Unsupported ARM arch 'mips'. Use 'aarch64' or 'arm'."
    );
}

#[test]
fn test_aarch64_bitwise_ops() {
    let prog = program(vec![function(
        "main",
        &[],
        vec![
            set("a", int_lit(12)),
            set("b", int_lit(10)),
            print(bin(var("a"), BinaryOp::Add, var("b"))),
            print(bin(var("a"), BinaryOp::Sub, var("b"))),
            print(bin(var("a"), BinaryOp::Mul, var("b"))),
        ],
    )]);
    let out = assembly("aarch64", &prog);
    assert!(out.contains("add x") || out.contains("sub x"), "missing arithmetic instruction");
}

#[test]
fn test_aarch64_function_inlining() {
    let prog = program(vec![
        function("double", &["n"], vec![ret(bin(var("n"), BinaryOp::Add, var("n")))]),
        function("main", &[], vec![print(call("double", vec![int_lit(5)]))]),
    ]);
    let out = assembly("aarch64", &prog);
    // Should NOT contain bl double (inlined).
    assert!(!out.contains("bl double"), "double should be inlined");
    assert!(out.contains(".Linl_"), "missing inline label");
}

fn helper_program() -> Program {
    program(vec![
        function("helper", &["x"], vec![ret(bin(var("x"), BinaryOp::Mul, int_lit(2)))]),
        function("main", &[], vec![print(call("helper", vec![int_lit(21)]))]),
    ])
}

#[test]
fn test_aarch64_prologue_epilogue() {
    let out = assembly("aarch64", &helper_program());
    // AArch64 prologue uses stp x29, x30.
    assert!(out.contains("stp x29, x30, [sp, #-16]!"), "missing AArch64 prologue");
    assert!(out.contains("ldp x29, x30, [sp], #16"), "missing AArch64 epilogue");
    assert!(out.contains("ret"), "missing ret");
}

#[test]
fn test_arm32_prologue_epilogue() {
    let out = assembly("arm", &helper_program());
    assert!(out.contains("push {r11, lr}"), "missing ARM32 prologue");
    assert!(out.contains("pop {r11, pc}"), "missing ARM32 epilogue");
}

#[test]
fn test_aarch64_stack_spill() {
    // Force stack spilling by using more variables than callee-saved registers (10).
    let names = ["a", "b", "c", "d", "e", "f", "g", "h", "i", "j", "k", "l"];
    let mut body: Vec<Stmt> = Vec::new();
    for (i, n) in names.iter().enumerate() {
        body.push(set(n, int_lit(i as i64 + 1)));
    }
    let mut sum = var("a");
    for n in &names[1..] {
        sum = bin(sum, BinaryOp::Add, var(n));
    }
    body.push(print(sum));
    let prog = program(vec![function("main", &[], body)]);
    let out = assembly("aarch64", &prog);
    // Should use str/ldr for spilled variables (k, l at least).
    assert!(out.contains("str x"), "missing str for spilled variable");
    assert!(out.contains("ldr x"), "missing ldr for spilled variable");
    // Frame size should be > 0.
    assert!(out.contains("sub sp, sp, #"), "missing frame allocation");
}

fn when(condition: bool, fns: Vec<FnDef>) -> TopLevel {
    TopLevel::ConditionalCompile(ConditionalCompile {
        condition: Expr::Bool(BoolLiteral { value: condition }),
        then_body: fns.into_iter().map(TopLevel::FnDef).collect(),
        else_body: None,
    })
}

#[test]
fn test_aarch64_conditional_compile() {
    let prog = Program {
        declarations: vec![when(
            true,
            vec![function("main", &[], vec![print(str_lit("compiled"))])],
        )],
    };
    let out = assembly("aarch64", &prog);
    assert!(out.contains("compiled"), "conditional compile (true) not taken");
}

#[test]
fn test_aarch64_conditional_compile_false() {
    let prog = Program {
        declarations: vec![
            when(false, vec![function("main", &[], vec![print(str_lit("should not appear"))])]),
            TopLevel::FnDef(function("main", &[], vec![print(str_lit("ok"))])),
        ],
    };
    let out = assembly("aarch64", &prog);
    assert!(!out.contains("should not appear"), "false branch not skipped");
    assert!(out.contains("ok"), "true branch not taken");
}

#[test]
fn test_aarch64_asm_block() {
    let block = |template: &str| {
        Stmt::Asm(AsmStmt { template: template.to_string(), outputs: vec![], inputs: vec![] })
    };
    let prog = program(vec![function(
        "main",
        &[],
        vec![block("nop"), block("wfi"), print(str_lit("done"))],
    )]);
    let out = assembly("aarch64", &prog);
    assert!(out.contains("nop"), "missing nop from asm block");
    assert!(out.contains("wfi"), "missing wfi from asm block");
}

#[test]
fn test_aarch64_integer_print_negative() {
    let prog = program(vec![function("main", &[], vec![print(neg(int_lit(42)))])]);
    let out = assembly("aarch64", &prog);
    // Should contain the print-int routine.
    assert!(out.contains("print signed int"), "missing print int routine");
    // neg or rsbs for negation.
    assert!(out.contains("neg x") || out.contains("movn x"), "missing negation");
}

#[test]
fn inlining_stops_after_three_levels() {
    let step = |name: &str, next: &str| {
        function(name, &["n"], vec![ret(call(next, vec![var("n")]))])
    };
    let prog = program(vec![
        function("main", &[], vec![print(call("a", vec![int_lit(1)]))]),
        step("a", "b"),
        step("b", "c"),
        step("c", "d"),
        step("d", "e"),
        function("e", &["n"], vec![ret(var("n"))]),
    ]);
    let out = assembly("aarch64", &prog);
    let main = &out[out.find("main:\n").unwrap()..out.find("\na:\n").unwrap()];
    assert!(!main.contains("bl a\n"), "{}", main);
    assert!(!main.contains("bl b\n"), "{}", main);
    assert!(!main.contains("bl c\n"), "{}", main);
    assert!(main.contains("bl d\n"), "{}", main);
}

#[test]
fn failed_assertions_are_kept() {
    let failing = program(vec![function(
        "main",
        &[],
        vec![expr_stmt(call("static_assert", vec![int_lit(0), str_lit("no")]))],
    )]);
    let fine = program(vec![function("main", &[], vec![ret(int_lit(0))])]);
    let mut gen = ArmCodeGen::new("arm");
    assert_eq!(gen.compile(&failing), Err("static_assert failed: no".to_string()));
    assert_eq!(gen.compile(&fine), Err("static_assert failed: no".to_string()));
    assert!(ArmCodeGen::new("arm").compile(&fine).is_ok());
}

#[test]
fn arm_destructors_run_before_the_epilogue() {
    let prog = Program {
        declarations: vec![
            TopLevel::DtorBlock(DtorBlock {
                target: ident("Lock"),
                body: vec![print(str_lit("unlocked"))],
            }),
            TopLevel::FnDef(function(
                "main",
                &[],
                vec![set("l", call("Lock", vec![])), ret(int_lit(1))],
            )),
        ],
    };
    for arch in ["aarch64", "arm"] {
        let out = assembly(arch, &prog);
        let cleanup = out.find(".Lcleanup_1:\n").expect("cleanup label");
        let epilogue = out.find(".Lepi_0:\n").expect("epilogue label");
        assert!(cleanup < epilogue);
        assert!(out[..cleanup].contains("    b .Lcleanup_1\n"), "{}", out);
        assert!(!out[..cleanup].contains("    b .Lepi_0\n"), "{}", out);
        assert!(out[..epilogue].ends_with("    b .Lepi_0\n"), "{}", out);
    }
}

#[test]
fn frames_are_aligned() {
    let mut body: Vec<Stmt> = Vec::new();
    for i in 0..13 {
        body.push(set(&format!("v{}", i), int_lit(i)));
    }
    let prog = program(vec![function("f", &[], body), function("main", &[], vec![])]);
    // Ten variables in registers, three in slots: 24 bytes, rounded up to 32.
    let out = assembly("aarch64", &prog);
    assert!(out.contains("    sub sp, sp, #32\n"), "{}", out);
    // The slots lie below the 80 bytes of the saved registers.
    for slot in ["[x29, #-88]", "[x29, #-96]", "[x29, #-104]"] {
        assert!(out.contains(slot), "{}", out);
    }
    assert!(!out.contains("[x29, #-80]"), "{}", out);
}

#[test]
fn the_result_of_a_literal_operation_stays_in_its_register() {
    let five = bin(int_lit(5), BinaryOp::Add, int_lit(1));
    let body = vec![ret(bin(var("a"), BinaryOp::Mul, five))];
    let prog = program(vec![function("f", &["a"], body), function("main", &[], vec![])]);
    let out = assembly("aarch64", &prog);
    assert!(
        out.contains(
            "    mov x0, x19\n    str x0, [sp, #-16]!\n    mov x0, #5\n    add x9, x0, #1\n    \
             ldr x10, [sp], #16\n    mul x0, x10, x9\n"
        ),
        "{}",
        out
    );
    let out = assembly("arm", &prog);
    assert!(
        out.contains("    mov r0, #5\n    add r12, r0, #1\n    pop {r3}\n    mul r0, r3, r12\n"),
        "{}",
        out
    );
}

#[test]
fn literal_operations_reach_the_argument_registers() {
    let body = vec![ret(call(
        "g",
        vec![int_lit(3), bin(int_lit(5), BinaryOp::Sub, int_lit(1))],
    ))];
    let prog = program(vec![
        function("f", &[], body),
        function("g", &["a", "b"], vec![set("c", int_lit(1)), ret(var("b"))]),
        function("h", &[], vec![ret(call("g", vec![int_lit(3), int_lit(4)]))]),
        function("main", &[], vec![]),
    ]);
    let out = assembly("aarch64", &prog);
    assert!(
        out.contains(
            "    mov x0, #3\n    str x0, [sp, #-16]!\n    mov x0, #5\n    sub x0, x0, #1\n    \
             str x0, [sp, #-16]!\n    ldr x1, [sp], #16\n    ldr x0, [sp], #16\n    bl g\n"
        ),
        "{}",
        out
    );
    assert!(out.contains("    mov x0, #3\n    mov x1, #4\n    bl g\n"), "{}", out);
}

#[test]
fn remainders_keep_their_divisor() {
    let rest = bin(var("a"), BinaryOp::Mod, var("b"));
    let body = vec![ret(bin(var("a"), BinaryOp::Add, rest))];
    let prog = program(vec![function("f", &["a", "b"], body), function("main", &[], vec![])]);
    let out = assembly("aarch64", &prog);
    assert!(out.contains("    sdiv x11, x10, x9\n    msub x9, x11, x9, x10\n"), "{}", out);
    let out = assembly("arm", &prog);
    assert!(out.contains("    sdiv r2, r3, r12\n    mls r12, r12, r2, r3\n"), "{}", out);
    let body = vec![ret(bin(var("a"), BinaryOp::Mod, var("b")))];
    let prog = program(vec![function("f", &["a", "b"], body), function("main", &[], vec![])]);
    let out = assembly("aarch64", &prog);
    assert!(out.contains("    sdiv x0, x10, x9\n    msub x0, x0, x9, x10\n"), "{}", out);
}

#[test]
fn arm32_comparisons_set_a_register() {
    let body = vec![ret(bin(var("a"), BinaryOp::Eq, int_lit(3)))];
    let prog = program(vec![function("f", &["a"], body), function("main", &[], vec![])]);
    let out = assembly("arm", &prog);
    assert!(
        out.contains("    cmp r0, #3\n    moveq r0, #1\n    movne r0, #0\n"),
        "{}",
        out
    );
    let body = vec![ret(bin(float_lit(1.5), BinaryOp::Lt, float_lit(2.5)))];
    let prog = program(vec![function("f", &[], body), function("main", &[], vec![])]);
    let out = assembly("arm", &prog);
    assert!(out.contains("    movmi r0, #1\n    movpl r0, #0\n"), "{}", out);
}

#[test]
fn aarch64_bytes_go_through_word_registers() {
    let args = || vec![var("p"), var("q"), var("n")];
    let body = vec![
        expr_stmt(call("memcpy", args())),
        expr_stmt(call("memset", args())),
        print(float_lit(2.5)),
    ];
    let prog = program(vec![
        function("f", &["p", "q", "n"], body),
        function("main", &[], vec![]),
    ]);
    let out = assembly("aarch64", &prog);
    assert!(out.contains("    ldrb w9, [x1], #1\n    strb w9, [x0], #1\n"), "{}", out);
    assert!(out.contains("    strb w1, [x0], #1\n"), "{}", out);
    assert!(out.contains("    strb w0, [x1]\n"), "{}", out);
    assert!(!out.contains("wx"), "{}", out);
    assert!(!out.contains("rb x"), "{}", out);
}

#[test]
fn aarch64_strings_are_written_to_the_standard_output() {
    let prog = program(vec![function("main", &[], vec![print(str_lit("abc"))])]);
    let out = assembly("aarch64", &prog);
    assert!(
        out.contains(
            "    adrp x1, .str0\n    add x1, x1, :lo12:.str0\n    mov x2, #3\n    \
             mov x8, #64\n    svc #0\n"
        ),
        "{}",
        out
    );
}

#[test]
fn thread_local_storage_is_reached_from_the_thread_pointer() {
    let body = vec![ret(call("tls_get", vec![int_lit(16)]))];
    let prog = program(vec![function("f", &[], body), function("main", &[], vec![])]);
    let out = assembly("aarch64", &prog);
    assert!(
        out.contains("    mov x9, #16\n    mrs x10, tpidr_el0\n    ldr x0, [x10, x9]\n"),
        "{}",
        out
    );
}

#[test]
fn conditions_keep_their_left_side() {
    let less = bin(var("a"), BinaryOp::Lt, bin(var("b"), BinaryOp::Sub, int_lit(1)));
    let body = vec![
        if_stmt(less, vec![ret(var("a"))], None),
        if_stmt(bin(var("a"), BinaryOp::Eq, int_lit(100000)), vec![ret(var("b"))], None),
    ];
    let prog = program(vec![function("f", &["a", "b"], body), function("main", &[], vec![])]);
    let out = assembly("aarch64", &prog);
    assert!(
        out.contains(
            "    mov x0, x19\n    str x0, [sp, #-16]!\n    mov x0, x20\n    sub x9, x0, #1\n    \
             ldr x10, [sp], #16\n    cmp x10, x9\n    bge .Lelse_"
        ),
        "{}",
        out
    );
    assert!(
        out.contains("    mov x9, #34464\n    movk x9, #1, lsl #16\n    cmp x0, x9\n"),
        "{}",
        out
    );
}

#[test]
fn failed_inlining_gives_the_registers_back() {
    let two = function("two", &["x", "y"], vec![ret(var("y"))]);
    let body = vec![
        set("e", int_lit(5)),
        set("f", int_lit(6)),
        ret(call("two", vec![int_lit(1), int_lit(2)])),
    ];
    let prog = program(vec![
        two,
        function("g", &["a", "b", "c", "d"], body),
        function("main", &[], vec![]),
    ]);
    let out = assembly("arm", &prog);
    assert!(out.contains("    push {r4, r5, r6, r7, r8, r9}\n"), "{}", out);
    assert!(out.contains("    mov r0, #1\n    mov r1, #2\n    bl two\n"), "{}", out);
}
