//! LLVM text of PIR nodes.

use vredrs_codegen::cstar::llvm::CstarLlvmEmitter;
use vredrs_codegen::cstar::pir::{
    PirExtern, PirFunction, PirNode, PirOperand, PirProgram, PirType,
};
use vredrs_codegen::emit_llvm::{escape_llvm_str, sanitize_name};
use vredrs_codegen::text::sanitize_symbol;

const HEAD: &str = "; Vredrs C* raw backend LLVM IR - phase 3\n\
    ; No interpreter Value, GC, coroutine scheduler or refcount runtime is linked.\n\
    target triple = \"x86_64-unknown-linux-gnu\"\n\n\
    declare i8* @malloc(i64)\ndeclare void @free(i8*)\n\
    declare void @llvm.prefetch.p0i8(i8*, i32, i32, i32)\n";

fn name(v: &str) -> PirOperand {
    PirOperand::Var(v.to_string())
}

fn ptr_to(t: PirType) -> PirType {
    PirType::Ptr(Box::new(t))
}

fn store(dst: &str, value: PirOperand) -> PirNode {
    PirNode::Store { ptr: name(dst), value, ty: PirType::I64, volatile: false }
}

/// The text of the entry point of a program made of nodes.
fn emitted(nodes: Vec<PirNode>) -> Result<String, String> {
    let mut p = PirProgram::default();
    for n in nodes {
        p.push(n);
    }
    match CstarLlvmEmitter::new().emit(&p) {
        Ok(s) => {
            let body = s.strip_prefix(HEAD).unwrap();
            let body = body.strip_prefix("define i32 @main() {\nentry:\n").unwrap();
            Ok(body.strip_suffix("  ret i32 0\n}\n").unwrap().to_string())
        }
        Err(e) => Err(e.message().to_string()),
    }
}

#[test]
fn an_empty_program_is_the_head() {
    assert_eq!(CstarLlvmEmitter::new().emit(&PirProgram::default()).unwrap(), HEAD);
}

#[test]
fn locals_live_in_stack_slots() {
    let add = PirNode::BinOp {
        dst: "y".to_string(),
        op: "add".to_string(),
        lhs: name("x"),
        rhs: PirOperand::Int(8),
        ty: PirType::I64,
    };
    assert_eq!(
        emitted(vec![store("x", PirOperand::Int(42)), add]).unwrap(),
        "  %cstar1 = alloca i64, align 8\n  store i64 42, i64* %cstar1, align 1\n  \
         %cstar2 = load i64, i64* %cstar1, align 8\n  %cstar3 = add i64 %cstar2, 8\n  \
         %cstar4 = alloca i64, align 8\n  store i64 %cstar3, i64* %cstar4, align 8\n"
    );
}

#[test]
fn comparisons_are_widened() {
    let less = PirNode::BinOp {
        dst: "b".to_string(),
        op: "icmp_slt".to_string(),
        lhs: PirOperand::Int(1),
        rhs: PirOperand::Bool(true),
        ty: PirType::I64,
    };
    assert_eq!(
        emitted(vec![less]).unwrap(),
        "  %cstar1 = icmp slt i64 1, 1\n  %cstar2 = zext i1 %cstar1 to i64\n  \
         %cstar3 = alloca i64, align 8\n  store i64 %cstar2, i64* %cstar3, align 8\n"
    );
}

#[test]
fn linear_resources_are_allocated_moved_and_freed() {
    let alloc = PirNode::AllocLinear {
        dst: "p".to_string(),
        bytes: PirOperand::Int(16),
        ty: ptr_to(PirType::I64),
    };
    let moved = PirNode::Move {
        dst: "q".to_string(),
        src: "p".to_string(),
        ty: ptr_to(PirType::I64),
    };
    let load = PirNode::Load {
        dst: "v".to_string(),
        ptr: name("q"),
        ty: PirType::I64,
        volatile: true,
    };
    let free = PirNode::Call {
        dst: None,
        func: "free".to_string(),
        args: vec![name("q")],
        ret_ty: PirType::Void,
    };
    assert_eq!(
        emitted(vec![alloc, moved, load, free]).unwrap(),
        "  %cstar1 = call i8* @malloc(i64 16)\n  %cstar2 = bitcast i8* %cstar1 to i64*\n  \
         %cstar3 = bitcast i8* %cstar2 to i64*\n  \
         %cstar4 = load volatile i64, i64* %cstar3, align 1\n  call void @free(i8* %cstar2)\n"
    );
}

#[test]
fn calls_name_their_results() {
    let call = PirNode::Call {
        dst: Some("r".to_string()),
        func: "my-fn".to_string(),
        args: vec![PirOperand::Int(-1), PirOperand::Bool(false), PirOperand::NullPtr],
        ret_ty: PirType::I32,
    };
    let again = PirNode::Call {
        dst: None,
        func: "log".to_string(),
        args: vec![name("r")],
        ret_ty: PirType::Void,
    };
    assert_eq!(
        emitted(vec![call, again]).unwrap(),
        "  %cstar1 = call i32 @my_fn(i64 -1, i1 0, i8* null)\n  call void @log(i8* %cstar1)\n"
    );
}

#[test]
fn markers_become_comments_and_windows() {
    let nodes = vec![
        PirNode::Pipeline {
            function: "f".to_string(),
            priority: "high".to_string(),
            dma_stage: "d".to_string(),
            compute_stage: "c".to_string(),
        },
        PirNode::Prefetch { ptr: None, hint: "sequential".to_string(), stride: 64 },
        PirNode::Prefetch { ptr: None, hint: "random".to_string(), stride: 32 },
        PirNode::Comment("one\ntwo".to_string()),
        PirNode::Loop { label: "l".to_string(), body: vec![store("x", PirOperand::Int(1))] },
        PirNode::PatchMarker {
            function: "f".to_string(),
            base: "b".to_string(),
            output: "o".to_string(),
        },
    ];
    assert_eq!(
        emitted(nodes).unwrap(),
        "  ; C* @pipeline function=f priority=high dma=d compute=c\n  \
         call void asm sideeffect \"# cstar dma window\", \"\"()\n  \
         call void asm sideeffect \"# cstar compute window\", \"\"()\n  \
         ; C* @prefetch hint=sequential stride=64\n  \
         call void @llvm.prefetch.p0i8(i8* null, i32 0, i32 3, i32 1)\n  \
         ; C* @prefetch hint=random stride=32\n  \
         call void @llvm.prefetch.p0i8(i8* null, i32 0, i32 1, i32 1)\n  ; one\n  ; two\n  \
         ; C* loop region l begins\n  %cstar1 = alloca i64, align 8\n  \
         store i64 1, i64* %cstar1, align 1\n  ; C* loop region l ends\n  \
         ; C* @patch function=f base=b output=o\n"
    );
}

#[test]
fn inline_assembly_is_escaped() {
    let plain = PirNode::AsmBlock {
        template: "mov \"a\"\\b".to_string(),
        inputs: vec![PirOperand::Int(1)],
        outputs: vec![],
    };
    let result = PirNode::AsmBlock {
        template: "nop".to_string(),
        inputs: vec![],
        outputs: vec!["=r".to_string()],
    };
    assert_eq!(
        emitted(vec![plain, result]).unwrap(),
        "  call void asm sideeffect inteldialect \"mov \\\"a\\\"\\\\b\", \"r\"(i64 1)\n  \
         %cstar1 = call i64 asm sideeffect inteldialect \"nop\", \"=r\"()\n"
    );
}

#[test]
fn values_that_are_not_there_are_errors() {
    let consume = PirNode::Consume { var: "p".to_string() };
    assert_eq!(emitted(vec![consume]).unwrap_err(), "C* consume target 'p' has no LLVM value");
    let moved = PirNode::Move { dst: "q".to_string(), src: "p".to_string(), ty: PirType::I64 };
    assert_eq!(emitted(vec![moved]).unwrap_err(), "C* move source 'p' has no LLVM value");
    let load = PirNode::Load {
        dst: "v".to_string(),
        ptr: name("p"),
        ty: PirType::I64,
        volatile: false,
    };
    assert_eq!(emitted(vec![load]).unwrap_err(), "C* variable 'p' has no LLVM value");
    let alloc = PirNode::AllocLinear {
        dst: "p".to_string(),
        bytes: name("n"),
        ty: ptr_to(PirType::I8),
    };
    assert_eq!(emitted(vec![alloc]).unwrap_err(), "C* expected i64 integer operand");
    let free = |args| PirNode::Call {
        dst: None,
        func: "free".to_string(),
        args,
        ret_ty: PirType::Void,
    };
    assert_eq!(emitted(vec![free(vec![])]).unwrap_err(), "C* free requires one argument");
    assert_eq!(
        emitted(vec![free(vec![PirOperand::Int(1)])]).unwrap_err(),
        "C* expected pointer operand"
    );
    assert_eq!(
        emitted(vec![free(vec![name("p")])]).unwrap_err(),
        "C* ptr variable 'p' has no LLVM value"
    );
}

#[test]
fn functions_end_with_the_default_of_their_type() {
    let mut p = PirProgram::default();
    p.push_extern(PirExtern {
        name: "ext".to_string(),
        params: vec![PirType::I8, ptr_to(PirType::F64)],
        ret_ty: PirType::I1,
        link: "cstar".to_string(),
    });
    p.push_function(PirFunction {
        name: "f".to_string(),
        params: vec![("a b".to_string(), PirType::I64)],
        ret_ty: ptr_to(PirType::I32),
        body: vec![],
        section: Some(".text".to_string()),
        is_pipeline: true,
        is_prefetch: true,
    });
    let s = CstarLlvmEmitter::new().emit(&p).unwrap();
    assert_eq!(
        s.strip_prefix(HEAD).unwrap(),
        "declare i1 @ext(i8, double*)\n\n\
         define i32* @f(i64 %a_b) section \".text\" {\nentry:\n  \
         ; C* function has @pipeline: DMA and compute windows are emitted below.\n  \
         ; C* function has @prefetch: llvm.prefetch is emitted below.\n  ret i32* null\n}\n\n"
    );
}

#[test]
fn symbols_keep_letters_and_digits() {
    assert_eq!(sanitize_symbol("a-b c.9"), "a_b_c_9");
    assert_eq!(sanitize_symbol("é"), "_");
    assert_eq!(sanitize_name("é·9"), "é_9");
    assert_eq!(sanitize_name("a-b.c d"), "a-b.c_d");
    assert_eq!(escape_llvm_str("a\"\\\n"), "a\\22\\\\\\0A");
    assert_eq!(escape_llvm_str("é"), "\\C3\\A9");
}
