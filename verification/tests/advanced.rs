//! The scheduling, patching and partitioning annotations.

use vredrs_codegen::ast::{
    Annotation, AnnotationArg, AssignOp, AssignStmt, Assignee, BasicType, BoolLiteral, CallExpr,
    Expr, ExprStmt, FnDef, FnParam, ForInStmt, Identifier, IfStmt, IntegerLiteral, Program,
    ReturnStmt, Stmt, StringLiteral, StringPart, TopLevel, TypeExpr, WhileStmt,
};
use vredrs_codegen::cstar::advanced::isr::{
    assign_priorities, check_wcet, estimate_wcet, generate_isr_section, parse_isr_group_config,
    IsrGroupConfig,
};
use vredrs_codegen::cstar::advanced::patch::{
    generate_patch, patches_to_file, PatchEntry, SymMap, SymMapEntry,
};
use vredrs_codegen::cstar::advanced::pipeline::{
    generate_dma_ops, generate_dma_ops_x86, parse_pipeline_config, schedule_pipeline, PipNode,
    PipelineConfig,
};
use vredrs_codegen::cstar::advanced::prefetch::{
    generate_prefetch_instructions, parse_prefetch_config, PrefetchConfig,
};
use vredrs_codegen::cstar::advanced::repo::{
    generate_linker_script, overflow_warnings, parse_repo_config, partition_packages, RepoConfig,
};

fn ident(name: &str) -> Identifier {
    Identifier { name: name.to_string() }
}

fn var(name: &str) -> Expr {
    Expr::Identifier(ident(name))
}

fn int_lit(value: i64) -> Expr {
    Expr::Integer(IntegerLiteral { value })
}

fn str_lit(text: &str) -> Expr {
    Expr::String_(StringLiteral { parts: vec![StringPart::Text(text.to_string())] })
}

fn call(name: &str, args: Vec<Expr>) -> Expr {
    Expr::Call(CallExpr { callee: Box::new(var(name)), args })
}

fn set(name: &str, value: Expr) -> Stmt {
    Stmt::Assign(AssignStmt {
        targets: vec![Assignee::Identifier(ident(name))],
        operator: AssignOp::Simple,
        value,
    })
}

fn ret(value: Expr) -> Stmt {
    Stmt::Return(ReturnStmt { values: vec![value] })
}

fn if_stmt(condition: Expr, then_body: Vec<Stmt>, else_body: Option<Vec<Stmt>>) -> Stmt {
    Stmt::If(IfStmt { condition, then_body, elif_chain: vec![], else_body })
}

fn while_stmt(condition: Expr, body: Vec<Stmt>) -> Stmt {
    Stmt::While(WhileStmt { label: None, condition, body })
}

fn expr_stmt(expr: Expr) -> Stmt {
    Stmt::Expr(ExprStmt { expr })
}

fn function(name: &str, params: &[&str], body: Vec<Stmt>) -> FnDef {
    FnDef {
        annotations: vec![],
        name: ident(name),
        params: params
            .iter()
            .map(|p| FnParam {
                name: ident(p),
                type_annotation: Some(TypeExpr::Basic(BasicType::Int)),
            })
            .collect(),
        return_type: None,
        body,
        extern_link: None,
    }
}

fn program(fns: Vec<FnDef>) -> Program {
    Program { declarations: fns.into_iter().map(TopLevel::FnDef).collect() }
}

fn arg(name: Option<&str>, value: Expr) -> AnnotationArg {
    AnnotationArg { name: name.map(|n| n.to_string()), value, rendered: String::new() }
}

fn note(name: &str, arguments: Vec<AnnotationArg>) -> Annotation {
    Annotation { name: name.to_string(), arguments }
}

fn for_in(name: &str, body: Vec<Stmt>) -> Stmt {
    Stmt::ForIn(ForInStmt { var: ident(name), iterable: var("data"), body })
}

#[test]
fn pipeline_configuration_is_read() {
    let c = parse_pipeline_config(&note("pipeline", vec![]));
    assert_eq!(c, PipelineConfig { dma_channel: 0, burst_size: 64, double_buffer: false });
    let c = parse_pipeline_config(&note(
        "pipeline",
        vec![
            arg(Some("dma_channel"), int_lit(3)),
            arg(Some("burst"), int_lit(128)),
            arg(Some("double_buffer"), Expr::Bool(BoolLiteral { value: true })),
            arg(Some("other"), int_lit(9)),
        ],
    ));
    assert_eq!(c, PipelineConfig { dma_channel: 3, burst_size: 128, double_buffer: true });
}

#[test]
fn single_buffered_loops_make_four_passes() {
    let f = function("run", &[], vec![for_in("x", vec![set("y", int_lit(1)), ret(var("y"))])]);
    let nodes = schedule_pipeline(&f, &PipelineConfig::default());
    assert_eq!(nodes.len(), 12);
    match &nodes[3] {
        PipNode::DmaRequest { src, dst, length, channel } => {
            assert_eq!(src, "iter_src_x_iter1");
            assert_eq!(dst, "iter_dst_x_iter1");
            assert_eq!((*length, *channel), (64, 0));
        }
        _ => panic!("expected a transfer"),
    }
    assert!(matches!(nodes[4], PipNode::DmaWait { channel: 0 }));
    match &nodes[5] {
        PipNode::Compute { label, instructions } => {
            assert_eq!(label, "compute_x_iter1");
            assert_eq!(instructions, &vec!["STORE y = <expr>".to_string(), "RET".to_string()]);
        }
        _ => panic!("expected a computation"),
    }
}

#[test]
fn double_buffered_loops_overlap_transfer_and_computation() {
    let c = PipelineConfig { dma_channel: 2, burst_size: 32, double_buffer: true };
    let f = function("run", &[], vec![for_in("x", vec![expr_stmt(var("f"))])]);
    let nodes = schedule_pipeline(&f, &c);
    assert_eq!(nodes.len(), 5);
    assert!(matches!(&nodes[1], PipNode::DmaRequest { src, .. } if src == "iter_src_x_buf1"));
    assert!(matches!(&nodes[2], PipNode::Compute { label, .. } if label == "compute_x_buf0"));
    assert!(matches!(nodes[3], PipNode::DmaWait { channel: 2 }));
    assert!(matches!(&nodes[4], PipNode::Compute { label, .. } if label == "compute_x_buf1"));
}

#[test]
fn functions_without_loops_are_one_computation() {
    let f = function("plain", &[], vec![set("y", int_lit(1)), expr_stmt(var("f"))]);
    let nodes = schedule_pipeline(&f, &PipelineConfig::default());
    assert_eq!(nodes.len(), 1);
    assert!(matches!(&nodes[0], PipNode::Compute { label, instructions }
        if label == "plain" && instructions.len() == 2 && instructions[1] == "CALL <expr>"));
}

#[test]
fn dma_operations_are_written_for_both_targets() {
    let c = PipelineConfig { dma_channel: 1, burst_size: 16, double_buffer: false };
    let nodes = vec![
        PipNode::DmaRequest {
            src: "a".to_string(),
            dst: "b".to_string(),
            length: 16,
            channel: 1,
        },
        PipNode::DmaWait { channel: 1 },
        PipNode::Compute { label: "k".to_string(), instructions: vec!["RET".to_string()] },
    ];
    assert_eq!(
        generate_dma_ops(&nodes, &c),
        "; DMA pipeline (channel=1, burst=16)\n\
         ; DMA: a → b (16 bytes, ch1)\n    LDR R0, =a\n    LDR R1, =b\n    MOV R2, #16\n    \
         STR R0, [DMA1+0]\n    STR R1, [DMA1+4]\n    STR R2, [DMA1+8]\n    MOV R3, #1\n    \
         STR R3, [DMA1+12]\n; Wait for DMA channel 1\n.wait_dma1:\n    LDR R0, [DMA1+16]\n    \
         TST R0, #1\n    BEQ .wait_dma1\n.compute_k:\n    ; RET\n"
    );
    assert_eq!(
        generate_dma_ops_x86(&nodes, &c),
        "# DMA pipeline (channel=1, burst=16)\n# DMA: a → b (16 bytes)\n    lea rsi, [a]\n    \
         lea rdi, [b]\n    mov rcx, 16\n    rep movsb\n# Wait for DMA channel 1\n.wait_dma1:\n    \
         mfence\n.compute_k:\n    # RET\n"
    );
}

#[test]
fn symbol_maps_are_laid_out_function_by_function() {
    let prog = program(vec![
        function("first", &[], vec![set("x", int_lit(1)), set("y", int_lit(2))]),
        function("second", &[], vec![]),
    ]);
    let map = SymMap::from_program(&prog, "1.2");
    assert_eq!(map.version, "1.2");
    assert_eq!(map.symbols.len(), 2);
    assert_eq!(map.symbols[0].0, "first");
    assert_eq!((map.symbols[0].1.offset, map.symbols[0].1.size), (0, 64));
    assert_eq!((map.symbols[1].1.offset, map.symbols[1].1.size), (64, 32));
    assert_eq!(map.symbols[1].1.section, ".text");
}

#[test]
fn symbol_map_files_read_back() {
    let mut map = SymMap::new();
    map.version = "7".to_string();
    map.insert("late", SymMapEntry { section: ".data".to_string(), offset: 128, size: 4 });
    map.insert("early", SymMapEntry { section: ".text".to_string(), offset: 16, size: 32 });
    map.insert("late", SymMapEntry { section: ".data".to_string(), offset: 256, size: 8 });
    let file = map.to_file();
    assert_eq!(
        file,
        "# Vredrs symbol map v7\n# name section offset size\nearly .text 16 32\nlate .data 256 8\n"
    );
    let back = SymMap::from_file(&file);
    assert_eq!(back.version, "0.0.0");
    assert_eq!(back.symbols.len(), 2);
    assert_eq!(back.symbols[0].0, "early");
    assert_eq!(back.symbols[1].0, "late");
    assert_eq!(back.symbols[1].1.section, ".data");
    assert_eq!((back.symbols[1].1.offset, back.symbols[1].1.size), (256, 8));
}

#[test]
fn symbol_map_lines_that_say_too_little_are_skipped() {
    let map = SymMap::from_file("# comment\n\n  f .text 4\n  g .text x 9 more\r\n");
    assert_eq!(map.symbols.len(), 1);
    assert_eq!(map.symbols[0].0, "g");
    assert_eq!((map.symbols[0].1.offset, map.symbols[0].1.size), (0, 9));
}

fn two_symbols() -> SymMap {
    let mut map = SymMap::new();
    map.insert("a", SymMapEntry { section: ".text".to_string(), offset: 0, size: 2 });
    map.insert("b", SymMapEntry { section: ".text".to_string(), offset: 2, size: 3 });
    map
}

#[test]
fn patches_bring_the_changed_functions() {
    let old = vec![1u8, 2, 3, 4, 5];
    let new = vec![1u8, 2, 9, 4, 7];
    let map = two_symbols();
    assert!(generate_patch(&map, &map, &old, &old).is_empty());
    let patches = generate_patch(&map, &map, &old, &new);
    assert_eq!(patches.len(), 1);
    assert_eq!(patches[0].symbol, "b");
    assert_eq!(patches[0].address, 2);
    assert_eq!(patches[0].old_content, vec![3, 4, 5]);
    assert_eq!(patches[0].new_content, vec![9, 4, 7]);
    let mut applied = old.clone();
    for p in &patches {
        let at = p.address as usize;
        applied[at..at + p.new_content.len()].copy_from_slice(&p.new_content);
    }
    assert_eq!(applied, new);
}

#[test]
fn new_functions_are_patched_whole_and_cut_at_the_end_of_the_binary() {
    let old = SymMap::new();
    let patches = generate_patch(&old, &two_symbols(), &vec![], &vec![1u8, 2, 3]);
    assert_eq!(patches.len(), 2);
    assert!(patches[0].old_content.is_empty());
    assert_eq!(patches[0].new_content, vec![1, 2]);
    assert_eq!(patches[1].new_content, vec![3]);
}

#[test]
fn patch_files_dump_sixteen_bytes_to_a_line() {
    let p = PatchEntry {
        address: 32,
        old_content: vec![0],
        new_content: (0u8..18).collect(),
        symbol: "f".to_string(),
    };
    assert_eq!(
        patches_to_file(&vec![p]),
        "# Vredrs differential patch\n# symbol address old_size new_size\nf 32 1 18\n\
         # new content:\n# 00 01 02 03 04 05 06 07 08 09 0a 0b 0c 0d 0e 0f \n# 10 11 \n"
    );
}

#[test]
fn interrupt_groups_are_read() {
    let c = parse_isr_group_config(&note(
        "isr_group",
        vec![
            arg(Some("budget_us"), int_lit(50)),
            arg(Some("period_us"), int_lit(200)),
            arg(Some("priority"), int_lit(2)),
        ],
    ));
    assert_eq!(c, IsrGroupConfig { budget_us: 50, period_us: 200, priority: Some(2) });
    let d = parse_isr_group_config(&note("isr_group", vec![]));
    assert_eq!(d, IsrGroupConfig { budget_us: 100, period_us: 1000, priority: None });
}

#[test]
fn execution_times_count_nested_statements() {
    // set 3; while 3 + set 3; if 2 + set 3 + return 2; call 5.
    let f = function(
        "h",
        &[],
        vec![
            set("x", int_lit(0)),
            while_stmt(var("x"), vec![set("x", int_lit(1))]),
            if_stmt(var("x"), vec![set("x", int_lit(2))], Some(vec![ret(var("x"))])),
            expr_stmt(call("f", vec![])),
        ],
    );
    assert_eq!(estimate_wcet(&f, 1), 42);
    assert_eq!(estimate_wcet(&f, 0), 42);
    assert_eq!(estimate_wcet(&f, 8), 5);
    let c = IsrGroupConfig { budget_us: 42, period_us: 1, priority: None };
    assert_eq!(check_wcet(&f, &c, 1), Ok(()));
    let c = IsrGroupConfig { budget_us: 41, period_us: 1, priority: None };
    assert_eq!(
        check_wcet(&f, &c, 1),
        Err("WCET violation: function 'h' estimated 42µs, budget 41µs".to_string())
    );
}

#[test]
fn shorter_periods_get_higher_priorities() {
    let group = |period_us| IsrGroupConfig { budget_us: 10, period_us, priority: None };
    let mut groups = vec![
        ("slow".to_string(), group(500)),
        ("fast".to_string(), group(20)),
        ("mid".to_string(), group(100)),
        ("fast2".to_string(), group(20)),
    ];
    assign_priorities(&mut groups);
    let names: Vec<&str> = groups.iter().map(|g| g.0.as_str()).collect();
    assert_eq!(names, vec!["fast", "fast2", "mid", "slow"]);
    let priorities: Vec<Option<u32>> = groups.iter().map(|g| g.1.priority).collect();
    assert_eq!(priorities, vec![Some(0), Some(1), Some(2), Some(3)]);
    assert_eq!(
        generate_isr_section(&groups),
        "; ISR priority configuration (Rate-Monotonic)\n; function priority period_us budget_us\n\
         fast 0 20 10\nfast2 1 20 10\nmid 2 100 10\nslow 3 500 10\n"
    );
}

#[test]
fn prefetch_instructions_fit_the_target() {
    let c = parse_prefetch_config(&note(
        "prefetch",
        vec![arg(Some("hint"), str_lit("random")), arg(Some("stride"), int_lit(128))],
    ));
    assert_eq!((c.hint.as_str(), c.stride, c.cache_line), ("random", 128, 64));
    assert_eq!(
        generate_prefetch_instructions("i", &c, "x86_64", 7),
        vec![
            "    ; @prefetch (stride=128, hint=random)",
            "    mov rax, i",
            "    add rax, 4",
            "    imul rax, 128",
            "    add rax, [base_addr]",
            "    prefetchnta [rax]",
        ]
    );
    let d = PrefetchConfig::default();
    assert_eq!(
        generate_prefetch_instructions("i", &d, "aarch64", 6)[3..],
        ["    lsl x0, x0, #6", "    add x0, x0, x9", "    prfm pldl1keep, [x0]"]
    );
    assert_eq!(
        generate_prefetch_instructions("i", &d, "arm", 6)[1..],
        [
            "    mov r0, i",
            "    add r0, r0, 4",
            "    lsl r0, r0, #6",
            "    add r0, r0, r9",
            "    pld [r0]",
        ]
    );
}

#[test]
fn packages_are_partitioned_one_behind_the_other() {
    let c = parse_repo_config(&note(
        "repo",
        vec![
            arg(Some("flash_size"), int_lit(1)),
            arg(Some("sram_size"), int_lit(2)),
            arg(Some("package"), str_lit("net")),
        ],
    ));
    assert_eq!((c.flash_size, c.sram_size), (1024, 2048));
    assert_eq!(c.packages.len(), 1);
    assert_eq!((c.packages[0].name.as_str(), c.packages[0].target.as_str()), ("net", "flash"));
    let sizes = vec![
        ("a".to_string(), 1000, 100),
        ("b".to_string(), 24, 50),
        ("c".to_string(), 1, 0),
    ];
    let r = partition_packages(&c, &sizes);
    assert_eq!((r.flash_total, r.sram_total), (1025, 150));
    let places: Vec<(u64, u64)> =
        r.assignments.iter().map(|a| (a.flash_offset, a.sram_offset)).collect();
    assert_eq!(places, vec![(0, 0), (1000, 100), (1024, 150)]);
    assert_eq!(
        overflow_warnings(&c, &sizes),
        vec!["[vredrs] warning: Flash overflow! 1025 > 1024 bytes"]
    );
    assert!(overflow_warnings(&c, &sizes[..2].to_vec()).is_empty());
}

#[test]
fn linker_scripts_list_the_packages() {
    let c = RepoConfig { flash_size: 4096, sram_size: 2048, packages: vec![] };
    let r = partition_packages(&c, &vec![("net".to_string(), 256, 16)]);
    let s = generate_linker_script(&r, "6.2", "0.8");
    assert!(s.starts_with(
        "/* Vredrs @repo partitioned linker script */\n/* Flash: 256/4096 bytes used (6.2%) */\n\
         /* SRAM: 16/2048 bytes used (0.8%) */\n\nMEMORY {\n    \
         FLASH (rx) : ORIGIN = 0x08000000, LENGTH = 4K\n    \
         SRAM (rwx) : ORIGIN = 0x20000000, LENGTH = 2K\n}\n\nSECTIONS {\n    .text.net : {\n        \
         KEEP(*(.text.net))\n    } > FLASH\n\n    .data.net : {\n        KEEP(*(.data.net))\n    \
         } > SRAM\n\n    .pkg_index : {\n"
    ));
    assert!(s.ends_with(
        "/* Package Index Table */\n\
         /* pkg: net flash=0x00000000 sram=0x00000000 text=256 data=16 */\n"
    ));
}

#[test]
fn patches_come_in_the_order_of_their_addresses() {
    let entry = |offset, size| SymMapEntry { section: ".text".to_string(), offset, size };
    let mut old = SymMap::new();
    old.insert("same", entry(0, 2));
    old.insert("late", entry(6, 2));
    let mut new = SymMap::new();
    new.insert("late", entry(6, 2));
    new.insert("fresh", entry(4, 2));
    new.insert("same", entry(0, 2));
    let before = vec![1u8, 1, 0, 0, 0, 0, 3, 3];
    let after = vec![1u8, 1, 0, 0, 5, 5, 3, 4];
    let found: Vec<(String, u64)> = generate_patch(&old, &new, &before, &after)
        .into_iter()
        .map(|p| (p.symbol, p.address))
        .collect();
    assert_eq!(found, vec![("fresh".to_string(), 4), ("late".to_string(), 6)]);
}

#[test]
fn symbol_maps_of_any_version_read_back() {
    for version in ["", "2", "2\r", "\r\r", "# x"] {
        let mut map = two_symbols();
        map.version = version.to_string();
        let back = SymMap::from_file(&map.to_file());
        let names: Vec<&str> = back.symbols.iter().map(|s| s.0.as_str()).collect();
        assert_eq!(names, vec!["a", "b"], "{:?}", version);
    }
}
