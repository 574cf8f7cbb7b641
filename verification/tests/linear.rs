//! Linear ownership.

use vredrs_codegen::cstar::linear::LinearChecker;
use vredrs_codegen::cstar::pir::{PirFunction, PirNode, PirOperand, PirProgram, PirType};

fn ptr() -> PirType {
    PirType::Ptr(Box::new(PirType::I8))
}

fn name(v: &str) -> PirOperand {
    PirOperand::Var(v.to_string())
}

fn acquire(dst: &str) -> PirNode {
    PirNode::AllocLinear { dst: dst.to_string(), bytes: PirOperand::Int(8), ty: ptr() }
}

fn free(v: &str) -> PirNode {
    PirNode::Call { dst: None, func: "free".to_string(), args: vec![name(v)], ret_ty: PirType::Void }
}

fn move_to(dst: &str, src: &str) -> PirNode {
    PirNode::Move { dst: dst.to_string(), src: src.to_string(), ty: ptr() }
}

fn load(p: &str) -> PirNode {
    PirNode::Load { dst: "x".to_string(), ptr: name(p), ty: PirType::I64, volatile: false }
}

fn check(nodes: Vec<PirNode>) -> Result<(), String> {
    let mut p = PirProgram::default();
    for n in nodes {
        p.push(n);
    }
    LinearChecker::check(&p).map_err(|e| e.message().to_string())
}

fn rejected(nodes: Vec<PirNode>) -> String {
    check(nodes).unwrap_err()
}

#[test]
fn released_resources_are_accepted() {
    assert_eq!(check(vec![]), Ok(()));
    assert_eq!(check(vec![acquire("p"), load("p"), free("p")]), Ok(()));
    assert_eq!(check(vec![acquire("p"), PirNode::Consume { var: "p".to_string() }]), Ok(()));
    assert_eq!(check(vec![acquire("p"), move_to("q", "p"), free("q")]), Ok(()));
    assert_eq!(check(vec![acquire("p"), free("p"), acquire("p"), free("p")]), Ok(()));
    assert_eq!(check(vec![acquire("p"), move_to("p", "p"), free("p")]), Ok(()));
    assert_eq!(check(vec![load("unknown")]), Ok(()));
}

#[test]
fn leaks_are_rejected() {
    assert_eq!(
        rejected(vec![acquire("p")]),
        "C* linear resource leak in top-level unsafe scope: ptr resources must be explicitly \
         free/consume/move before leaving scope: p allocated at malloc/alloc-linear"
    );
    assert_eq!(
        rejected(vec![acquire("p"), acquire("q"), move_to("r", "p")]),
        "C* linear resource leak in top-level unsafe scope: ptr resources must be explicitly \
         free/consume/move before leaving scope: q allocated at malloc/alloc-linear, \
         r allocated at move(p)"
    );
}

#[test]
fn double_frees_are_rejected() {
    assert_eq!(
        rejected(vec![acquire("p"), free("p"), free("p")]),
        "C* linear error: free uses 'p' after Consumed"
    );
    assert_eq!(
        rejected(vec![
            acquire("p"),
            free("p"),
            PirNode::Consume { var: "p".to_string() },
        ]),
        "C* linear error: cannot consume 'p'; resource is already Consumed"
    );
    assert_eq!(
        rejected(vec![free("p")]),
        "C* linear error: cannot free 'p'; variable is not a live linear ptr resource"
    );
}

#[test]
fn uses_after_a_move_are_rejected() {
    assert_eq!(
        rejected(vec![acquire("p"), move_to("q", "p"), load("p"), free("q")]),
        "C* linear error: load ptr uses 'p' after Moved"
    );
    assert_eq!(
        rejected(vec![acquire("p"), move_to("q", "p"), move_to("r", "p")]),
        "C* linear error: cannot move source 'p'; resource is already Moved"
    );
    let store = PirNode::Store {
        ptr: PirOperand::NullPtr,
        value: name("p"),
        ty: PirType::I64,
        volatile: false,
    };
    assert_eq!(
        rejected(vec![acquire("p"), free("p"), store]),
        "C* linear error: store value uses 'p' after Consumed"
    );
    let block = PirNode::AsmBlock {
        template: "nop".to_string(),
        inputs: vec![name("p")],
        outputs: vec![],
    };
    assert_eq!(
        rejected(vec![acquire("p"), free("p"), block]),
        "C* linear error: asm input uses 'p' after Consumed"
    );
    let prefetch =
        PirNode::Prefetch { ptr: Some(name("p")), hint: "keep".to_string(), stride: 64 };
    assert_eq!(
        rejected(vec![acquire("p"), free("p"), prefetch]),
        "C* linear error: prefetch ptr uses 'p' after Consumed"
    );
}

#[test]
fn live_resources_are_not_overwritten() {
    assert_eq!(
        rejected(vec![acquire("p"), acquire("p")]),
        "C* variable 'p' is reassigned while previous linear resource is still live"
    );
    assert_eq!(
        rejected(vec![acquire("p"), acquire("q"), move_to("q", "p")]),
        "C* move into 'q' which still holds an unconsumed linear resource \
         (from malloc/alloc-linear)"
    );
    let call = PirNode::Call {
        dst: Some("p".to_string()),
        func: "open".to_string(),
        args: vec![],
        ret_ty: ptr(),
    };
    assert_eq!(
        rejected(vec![acquire("p"), call]),
        "C* call result into 'p' which still holds an unconsumed linear resource \
         (from malloc/alloc-linear)"
    );
}

#[test]
fn allocations_and_frees_are_typed() {
    let n = PirNode::AllocLinear {
        dst: "p".to_string(),
        bytes: PirOperand::Int(8),
        ty: PirType::I64,
    };
    assert_eq!(rejected(vec![n]), "C* AllocLinear for 'p' must produce ptr[T], got I64");
    let f = PirNode::Call {
        dst: None,
        func: "consume".to_string(),
        args: vec![PirOperand::Int(1)],
        ret_ty: PirType::Void,
    };
    assert_eq!(rejected(vec![f]), "C* consume requires a variable ptr argument");
}

#[test]
fn loops_and_functions_are_scopes_of_their_rules() {
    let l = PirNode::Loop { label: "l".to_string(), body: vec![acquire("p")] };
    assert_eq!(check(vec![l, free("p")]), Ok(()));
    let mut p = PirProgram::default();
    p.push_function(PirFunction {
        name: "f".to_string(),
        params: vec![],
        ret_ty: PirType::Void,
        body: vec![PirNode::Call {
            dst: Some("h".to_string()),
            func: "open".to_string(),
            args: vec![],
            ret_ty: ptr(),
        }],
        section: None,
        is_pipeline: false,
        is_prefetch: false,
    });
    assert_eq!(
        LinearChecker::check(&p).unwrap_err().message(),
        "C* linear resource leak in function f: ptr resources must be explicitly \
         free/consume/move before leaving scope: h allocated at call open"
    );
}
