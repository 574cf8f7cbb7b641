//! LLVM text of typed and untyped code.

use vredrs_codegen::emit_llvm::{emit_module_string, LlvmEmitter};
use vredrs_codegen::ir::{BinOp, Cond, IrFunction, IrModule, Operand, StaticInsn, TypeHint};

#[test]
fn emit_static_no_vredrs_value() {
    let m = IrModule {
        functions: vec![IrFunction {
            name: "add".into(),
            params: vec![("a".into(), TypeHint::I64), ("b".into(), TypeHint::I64)],
            param_regs: vec![],
            return_ty: TypeHint::I64,
            body: vec![
                StaticInsn::Bin { op: BinOp::Add, dst: Operand::Reg("v2".into(), TypeHint::I64), lhs: Operand::Reg("v0".into(), TypeHint::I64), rhs: Operand::Reg("v1".into(), TypeHint::I64), ty: TypeHint::I64 },
                StaticInsn::Ret { value: Some(Operand::Reg("v2".into(), TypeHint::I64)) },
            ],
            is_main: false,
            annotations: vec![],
            locals: vec![],
        }],
        string_pool: vec![],
        globals: vec![],
        entry: Some("add".into()),
    };
    let ll = emit_module_string(&m);
    assert!(ll.contains("define i64 @add"));
    assert!(ll.contains("add i64"));
    assert!(!ll.contains("vredrs_value"), "static path must not emit vredrs_value: {}", ll);
}

#[test]
fn emit_dynamic_uses_runtime() {
    let m = IrModule {
        functions: vec![IrFunction {
            name: "fib".into(),
            params: vec![("n".into(), TypeHint::Dynamic)],
            param_regs: vec![],
            return_ty: TypeHint::Dynamic,
            body: vec![
                StaticInsn::Bin { op: BinOp::AddDyn, dst: Operand::Reg("v1".into(), TypeHint::Dynamic), lhs: Operand::Reg("v0".into(), TypeHint::Dynamic), rhs: Operand::ImmI64(1), ty: TypeHint::Dynamic },
                StaticInsn::Ret { value: Some(Operand::Reg("v1".into(), TypeHint::Dynamic)) },
            ],
            is_main: false,
            annotations: vec![],
            locals: vec![],
        }],
        string_pool: vec![],
        globals: vec![],
        entry: Some("fib".into()),
    };
    let ll = emit_module_string(&m);
    assert!(ll.contains("declare %vredrs_value @vredrs_value_add"));
    assert!(ll.contains("call %vredrs_value @vredrs_value_add"));
}

#[test]
fn emit_mixed_function() {
    let m = IrModule {
        functions: vec![IrFunction {
            name: "f".into(),
            params: vec![],
            param_regs: vec![],
            return_ty: TypeHint::I64,
            body: vec![
                StaticInsn::Bin { op: BinOp::Add, dst: Operand::Reg("v0".into(), TypeHint::I64), lhs: Operand::ImmI64(1), rhs: Operand::ImmI64(2), ty: TypeHint::I64 },
                StaticInsn::Box { dst: Operand::Reg("v1".into(), TypeHint::Dynamic), src: Operand::Reg("v0".into(), TypeHint::I64), from: TypeHint::I64 },
                StaticInsn::Bin { op: BinOp::AddDyn, dst: Operand::Reg("v2".into(), TypeHint::Dynamic), lhs: Operand::Reg("v1".into(), TypeHint::Dynamic), rhs: Operand::ImmI64(1), ty: TypeHint::Dynamic },
                StaticInsn::Unbox { dst: Operand::Reg("v3".into(), TypeHint::I64), src: Operand::Reg("v2".into(), TypeHint::Dynamic), to: TypeHint::I64 },
                StaticInsn::Ret { value: Some(Operand::Reg("v3".into(), TypeHint::I64)) },
            ],
            is_main: false,
            annotations: vec![],
            locals: vec![],
        }],
        string_pool: vec![],
        globals: vec![],
        entry: Some("f".into()),
    };
    let ll = emit_module_string(&m);
    assert!(ll.contains("add i64"));
    assert!(ll.contains("call %vredrs_value @vredrs_value_make_i64"));
    assert!(ll.contains("call %vredrs_value @vredrs_value_add"));
    assert!(ll.contains("call i64 @vredrs_value_get_i64"));
}

fn module(body: Vec<StaticInsn>, return_ty: TypeHint) -> IrModule {
    IrModule {
        functions: vec![IrFunction {
            name: "f".into(),
            params: vec![],
            param_regs: vec![],
            return_ty,
            body,
            is_main: false,
            annotations: vec![],
            locals: vec![],
        }],
        string_pool: vec![],
        globals: vec![],
        entry: None,
    }
}

fn reg(n: &str, t: TypeHint) -> Operand {
    Operand::Reg(n.into(), t)
}

#[test]
fn static_code_is_emitted_with_native_types() {
    let m = module(
        vec![
            StaticInsn::Bin {
                op: BinOp::Mul,
                dst: reg("v0", TypeHint::I64),
                lhs: Operand::ImmI64(6),
                rhs: Operand::ImmI64(-7),
                ty: TypeHint::I64,
            },
            StaticInsn::Ret { value: Some(reg("v0", TypeHint::I64)) },
        ],
        TypeHint::I64,
    );
    assert_eq!(
        emit_module_string(&m),
        "; Vredrs LLVM IR (gradual: static + dynamic)\n\ndefine i64 @f() {\nentry:\n  \
         %0 = alloca i64, align 8\n  %1 = mul i64 6, -7\n  store i64 %1, i64* %0\n  \
         %2 = load i64, i64* %0\n  ret i64 %2\n}\n"
    );
}

#[test]
fn every_called_runtime_function_is_declared_once() {
    let call = |f: &str| StaticInsn::RuntimeCall { dst: None, func: f.into(), args: vec![] };
    let m = module(
        vec![
            call("vredrs_zeta"),
            call("vredrs_alpha"),
            call("vredrs_zeta"),
            StaticInsn::Unbox {
                dst: reg("v0", TypeHint::I64),
                src: reg("v1", TypeHint::Dynamic),
                to: TypeHint::I64,
            },
        ],
        TypeHint::Unit,
    );
    let ll = emit_module_string(&m);
    let declared: Vec<&str> = ll
        .lines()
        .filter(|l| l.starts_with("declare "))
        .map(|l| &l[l.find('@').unwrap() + 1..l.find('(').unwrap()])
        .collect();
    assert_eq!(declared, vec!["vredrs_alpha", "vredrs_value_get_i64", "vredrs_zeta"]);
    assert!(ll.contains("%vredrs_value = type { i8, i64 }\n"));
}

#[test]
fn string_constants_are_counted_in_bytes() {
    let mut m = module(
        vec![StaticInsn::Mov {
            dst: reg("v0", TypeHint::Str),
            src: Operand::ImmStr(0),
            ty: TypeHint::Str,
        }],
        TypeHint::Unit,
    );
    m.string_pool = vec!["é\"".into()];
    let ll = emit_module_string(&m);
    assert!(
        ll.contains("@.str0 = private unnamed_addr constant [4 x i8] c\"\\C3\\A9\\22\\00\"\n"),
        "{}",
        ll
    );
    assert!(ll.contains("%1 = getelementptr [4 x i8], [4 x i8]* @.str0, i32 0, i32 0\n"), "{}", ll);
}

fn body_of(m: &IrModule) -> String {
    let ll = emit_module_string(m);
    let from = ll.find("entry:\n").unwrap() + "entry:\n".len();
    ll[from..].to_string()
}

#[test]
fn floats_are_compared_as_doubles() {
    let m = module(
        vec![StaticInsn::Cmp {
            dst: reg("c", TypeHint::Bool),
            cond: Cond::Lt,
            lhs: reg("a", TypeHint::F64),
            rhs: reg("b", TypeHint::F64),
            ty: TypeHint::F64,
        }],
        TypeHint::Unit,
    );
    let body = body_of(&m);
    assert!(body.contains(" = fcmp olt double %3, %4\n  %6 = zext i1 %5 to i64\n"), "{}", body);
    assert!(!body.contains("icmp"), "{}", body);
}

#[test]
fn integers_are_compared_as_integers() {
    let m = module(
        vec![StaticInsn::Cmp {
            dst: reg("c", TypeHint::Bool),
            cond: Cond::Ge,
            lhs: Operand::ImmI64(3),
            rhs: Operand::ImmI64(4),
            ty: TypeHint::I64,
        }],
        TypeHint::Unit,
    );
    assert_eq!(
        body_of(&m),
        "  %0 = alloca i64, align 8\n  %1 = icmp sge i64 3, 4\n  %2 = zext i1 %1 to i64\n  \
         store i64 %2, i64* %0\n  ret void\n}\n"
    );
}

#[test]
fn a_conditional_branch_has_two_labels() {
    let m = module(
        vec![
            StaticInsn::Branch {
                cond: Cond::Eq,
                lhs: Operand::ImmI64(1),
                rhs: Operand::ImmI64(2),
                target: "L1".into(),
            },
            StaticInsn::BranchTrue { cond: Operand::ImmBool(true), target: "L1".into() },
            StaticInsn::Branch {
                cond: Cond::Gt,
                lhs: Operand::ImmF64(0x3FF0000000000000),
                rhs: Operand::ImmF64(0x4000000000000000),
                target: "L1".into(),
            },
            StaticInsn::Label("L1".into()),
        ],
        TypeHint::Unit,
    );
    let body = body_of(&m);
    assert!(
        body.starts_with(
            "  %0 = icmp eq i64 1, 2\n  br i1 %0, label %L1, label %next$0\nnext$0:\n  \
             %1 = icmp ne i64 1, 0\n  br i1 %1, label %L1, label %next$1\nnext$1:\n  \
             %2 = fcmp ogt double 0x3ff0000000000000, 0x4000000000000000\n  \
             br i1 %2, label %L1, label %next$2\nnext$2:\n"
        ),
        "{}",
        body
    );
}

#[test]
fn constants_stand_behind_one_type() {
    let m = module(
        vec![
            StaticInsn::Bin {
                op: BinOp::Add,
                dst: reg("x", TypeHint::F64),
                lhs: Operand::ImmF64(0x3FF0000000000000),
                rhs: Operand::ImmF64(0),
                ty: TypeHint::F64,
            },
            StaticInsn::Mov {
                dst: reg("y", TypeHint::Bool),
                src: Operand::ImmBool(true),
                ty: TypeHint::Bool,
            },
            StaticInsn::Mov { dst: reg("z", TypeHint::I64), src: Operand::Null, ty: TypeHint::I64 },
            StaticInsn::Not {
                dst: reg("y", TypeHint::Bool),
                src: Operand::ImmBool(false),
                ty: TypeHint::Bool,
            },
        ],
        TypeHint::Unit,
    );
    let body = body_of(&m);
    assert!(
        body.contains(" = fadd double 0x3ff0000000000000, 0x0000000000000000\n"),
        "{}",
        body
    );
    assert!(body.contains("  store i64 1, i64* "), "{}", body);
    assert!(body.contains("  store i64 0, i64* "), "{}", body);
    assert!(body.contains(" = xor i64 0, 1\n"), "{}", body);
}

#[test]
fn a_function_ends_with_a_value_of_its_type() {
    for (ty, end) in [
        (TypeHint::I64, "  ret i64 0\n}\n"),
        (TypeHint::F64, "  ret double 0.0\n}\n"),
        (TypeHint::Unit, "  ret void\n}\n"),
        (TypeHint::Dynamic, "  ret %vredrs_value zeroinitializer\n}\n"),
    ] {
        assert_eq!(body_of(&module(vec![], ty)), end);
    }
}

#[test]
fn an_emitter_can_be_used_again() {
    let mut first = module(
        vec![StaticInsn::Mov {
            dst: reg("v0", TypeHint::Str),
            src: Operand::ImmStr(0),
            ty: TypeHint::Str,
        }],
        TypeHint::Unit,
    );
    first.string_pool = vec!["one".into(), "two".into()];
    let mut second = module(
        vec![StaticInsn::Mov {
            dst: reg("v0", TypeHint::Str),
            src: Operand::ImmStr(1),
            ty: TypeHint::Str,
        }],
        TypeHint::Unit,
    );
    second.string_pool = vec!["a".into()];
    let mut e = LlvmEmitter::new();
    assert_eq!(e.emit_module(&first), emit_module_string(&first));
    assert_eq!(e.emit_module(&second), emit_module_string(&second));
    assert_eq!(e.emit_module(&first), emit_module_string(&first));
}
