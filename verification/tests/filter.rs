//! Loop detection and the scheduling filter.

use vredrs_codegen::cstar::filter::{
    analyze_module, detect_loops, filter_function, filter_module, FilterConfig,
};
use vredrs_codegen::ir::{Cond, IrFunction, IrModule, Operand, StaticInsn, TypeHint};

fn make_loop_body() -> Vec<StaticInsn> {
    // .L0_head:
    //   cmp v0, v1
    //   branch Ge, v0, v1, .L0_exit
    //   load v2, [v3]
    //   store [v3], v2
    //   jump .L0_head
    // .L0_exit:
    vec![
        StaticInsn::Label(".L0_head".into()),
        StaticInsn::Cmp { dst: Operand::Reg("v4".into(), TypeHint::Bool), cond: Cond::Ge, lhs: Operand::Reg("v0".into(), TypeHint::I64), rhs: Operand::Reg("v1".into(), TypeHint::I64), ty: TypeHint::I64 },
        StaticInsn::Branch { cond: Cond::Ge, lhs: Operand::Reg("v0".into(), TypeHint::I64), rhs: Operand::Reg("v1".into(), TypeHint::I64), target: ".L0_exit".into() },
        StaticInsn::Load { dst: Operand::Reg("v2".into(), TypeHint::I64), addr: Operand::Reg("v3".into(), TypeHint::Ptr), size: 8, ty: TypeHint::I64 },
        StaticInsn::Store { addr: Operand::Reg("v3".into(), TypeHint::Ptr), value: Operand::Reg("v2".into(), TypeHint::I64), size: 8, ty: TypeHint::I64 },
        StaticInsn::Jump { target: ".L0_head".into() },
        StaticInsn::Label(".L0_exit".into()),
    ]
}

#[test]
fn detect_simple_loop() {
    let body = make_loop_body();
    let loops = detect_loops(&body);
    assert_eq!(loops.len(), 1);
    let l = &loops[0];
    assert_eq!(l.head_label, ".L0_head");
    assert!(l.has_memory_access);
    assert!(l.insn_count > 0);
}

#[test]
fn filter_inserts_prefetch_for_pipeline() {
    let f = IrFunction {
        name: "process".into(),
        params: vec![],
        param_regs: vec![],
        return_ty: TypeHint::Unit,
        body: make_loop_body(),
        is_main: false,
        annotations: vec!["pipeline".into()],
        locals: vec![],
    };
    let cfg = FilterConfig::default();
    let filtered = filter_function(&f, &cfg);
    let has_marker = filtered.iter().any(|i| matches!(i, StaticInsn::PipelineMarker { .. }));
    let has_prefetch = filtered.iter().any(|i| matches!(i, StaticInsn::Prefetch { .. }));
    assert!(has_marker, "expected PipelineMarker");
    assert!(has_prefetch, "expected Prefetch for DMA-able loop");
}

#[test]
fn filter_inserts_wcet_for_isr() {
    let f = IrFunction {
        name: "handler".into(),
        params: vec![],
        param_regs: vec![],
        return_ty: TypeHint::Unit,
        body: make_loop_body(),
        is_main: false,
        annotations: vec!["isr_group".into()],
        locals: vec![],
    };
    let cfg = FilterConfig::default();
    let filtered = filter_function(&f, &cfg);
    let has_wcet = filtered.iter().any(|i| matches!(i, StaticInsn::WcetNote { .. }));
    assert!(has_wcet, "expected WcetNote for @isr_group");
}

#[test]
fn no_annotation_passes_through() {
    let f = IrFunction {
        name: "plain".into(),
        params: vec![],
        param_regs: vec![],
        return_ty: TypeHint::Unit,
        body: make_loop_body(),
        is_main: false,
        annotations: vec![],
        locals: vec![],
    };
    let cfg = FilterConfig::default();
    let filtered = filter_function(&f, &cfg);
    assert_eq!(filtered.len(), f.body.len());
}

#[test]
fn filter_preserves_semantics() {
    let f = IrFunction {
        name: "p".into(),
        params: vec![],
        param_regs: vec![],
        return_ty: TypeHint::Unit,
        body: make_loop_body(),
        is_main: false,
        annotations: vec!["pipeline".into(), "isr_group".into(), "patch".into()],
        locals: vec![],
    };
    let cfg = FilterConfig::default();
    let filtered = filter_function(&f, &cfg);
    assert!(filtered.len() > f.body.len());
    let orig_labels: Vec<_> = f.body.iter().filter_map(|i| {
        if let StaticInsn::Label(l) = i { Some(l.clone()) } else { None }
    }).collect();
    for l in orig_labels {
        assert!(filtered.iter().any(|i| matches!(i, StaticInsn::Label(x) if x == &l)), "label {} must be preserved", l);
    }
}

#[test]
fn analyze_report_smoke() {
    let m = IrModule {
        functions: vec![IrFunction {
            name: "f".into(),
            params: vec![],
        param_regs: vec![],
            return_ty: TypeHint::Unit,
            body: make_loop_body(),
            is_main: false,
            annotations: vec![],
            locals: vec![],
        }],
        string_pool: vec![],
        globals: vec![],
        entry: Some("f".into()),
    };
    let report = analyze_module(&m);
    assert!(report.contains("total loops: 1"));
    assert!(report.contains("DMA candidates: 1"));
}

fn annotated(body: Vec<StaticInsn>, annotations: Vec<&str>) -> IrFunction {
    IrFunction {
        name: "f".into(),
        params: vec![],
        param_regs: vec![],
        return_ty: TypeHint::Unit,
        body,
        is_main: false,
        annotations: annotations.into_iter().map(|a| a.to_string()).collect(),
        locals: vec![],
    }
}

fn schedules(i: &StaticInsn) -> bool {
    matches!(
        i,
        StaticInsn::Prefetch { .. }
            | StaticInsn::PipelineMarker { .. }
            | StaticInsn::IsrEntry { .. }
            | StaticInsn::WcetNote { .. }
            | StaticInsn::DiffMeta { .. }
            | StaticInsn::Comment(_)
    )
}

#[test]
fn only_scheduling_instructions_are_inserted() {
    let f = annotated(make_loop_body(), vec!["pipeline", "isr_group", "patch"]);
    let filtered = filter_function(&f, &FilterConfig::default());
    let kept: Vec<String> =
        filtered.iter().filter(|i| !schedules(i)).map(|i| format!("{:?}", i)).collect();
    let original: Vec<String> = f.body.iter().map(|i| format!("{:?}", i)).collect();
    assert_eq!(kept, original);
}

#[test]
fn loops_over_their_budget_are_flagged() {
    let f = annotated(make_loop_body(), vec!["isr"]);
    let cfg = FilterConfig { wcet_budget: 4, ..FilterConfig::default() };
    let filtered = filter_function(&f, &cfg);
    assert!(matches!(filtered[0], StaticInsn::IsrEntry { priority: 0, .. }));
    assert!(matches!(filtered[1], StaticInsn::WcetNote { cycles: 5, budget: 4 }));
    assert!(matches!(&filtered[2], StaticInsn::Comment(c)
        if c == "cstar: WCET OVERFLOW in loop @.L0_head (5 > 4)"));
    assert!(matches!(filtered.last(), Some(StaticInsn::Comment(c))
        if c == "cstar: function f total WCET ~= 12 cycles (1 loops)"));
    let within = filter_function(&f, &FilterConfig { wcet_budget: 5, ..cfg });
    assert_eq!(within.len() + 1, filtered.len());
}

#[test]
fn calls_of_patched_functions_carry_their_offsets() {
    let body = vec![
        StaticInsn::Label("l".into()),
        StaticInsn::Call { dst: None, func: "g".into(), args: vec![], ty: TypeHint::Unit },
    ];
    let filtered = filter_function(&annotated(body, vec!["patch"]), &FilterConfig::default());
    assert_eq!(filtered.len(), 3);
    assert!(matches!(&filtered[1], StaticInsn::DiffMeta { symbol, offset: 8 } if symbol == "g"));
}

#[test]
fn modules_are_filtered_function_by_function() {
    let m = IrModule {
        functions: vec![
            annotated(make_loop_body(), vec![]),
            annotated(make_loop_body(), vec!["pipeline"]),
        ],
        string_pool: vec!["s".into()],
        globals: vec![],
        entry: None,
    };
    let out = filter_module(&m, &FilterConfig::default());
    assert_eq!(out.functions.len(), 2);
    assert_eq!(out.functions[0].body.len(), 7);
    assert_eq!(out.functions[1].body.len(), 10);
    assert_eq!(out.string_pool, vec!["s"]);
}

#[test]
fn loops_are_backward_jumps() {
    let jump = |t: &str| StaticInsn::Jump { target: t.into() };
    let label = |l: &str| StaticInsn::Label(l.into());
    assert!(detect_loops(&vec![jump("a"), label("a")]).is_empty());
    assert!(detect_loops(&vec![jump("b"), label("a")]).is_empty());
    let loops = detect_loops(&vec![label("a"), label("b"), jump("b"), jump("a")]);
    assert_eq!(loops.len(), 2);
    assert_eq!((loops[0].body_start, loops[0].body_end), (1, 2));
    assert_eq!(loops[0].exit_label, "");
    assert_eq!((loops[1].body_start, loops[1].body_end), (0, 3));
    assert_eq!(loops[1].insn_count, 2);
    assert!(!loops[1].has_memory_access);
}
