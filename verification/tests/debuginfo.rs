//! Debug sections.

use vredrs_codegen::cstar::raw::debuginfo::{
    collect_debug_info, generate_debug_sections, FuncDebugInfo,
};

#[test]
fn test_debug_sections_not_empty() {
    let infos = vec![
        FuncDebugInfo {
            name: "main".to_string(),
            file: "test.vraw".to_string(),
            line: 1,
            column: 1,
            locals: vec!["x".to_string()],
        },
    ];
    let sections = generate_debug_sections(&infos, "test.vraw");
    assert!(sections.contains(".debug_abbrev"), "should have .debug_abbrev");
    assert!(sections.contains(".debug_info"), "should have .debug_info");
    assert!(sections.contains(".debug_line"), "should have .debug_line");
    assert!(sections.contains("main"), "should mention function name");
    assert!(sections.contains("test.vraw"), "should mention source file");
}

#[test]
fn test_collect_debug_info() {
    let funcs = vec![("main".to_string(), 1, 1), ("helper".to_string(), 10, 5)];
    let infos = collect_debug_info(&funcs, "test.vraw");
    assert_eq!(infos.len(), 2);
    assert_eq!(infos[0].name, "main");
    assert_eq!(infos[1].line, 10);
}

#[test]
fn functions_have_their_column_and_their_locals() {
    let infos = vec![FuncDebugInfo {
        name: "f".to_string(),
        file: "a.v".to_string(),
        line: 3,
        column: 14,
        locals: vec!["x".to_string(), "y".to_string()],
    }];
    let s = generate_debug_sections(&infos, "a.v");
    assert!(
        s.contains(
            "    .4byte 0x100     ; DW_AT_high_pc (estimated size)\n    ; local variable x\n    \
             ; local variable y\n    .byte 0          ; end of children\n"
        ),
        "{}",
        s
    );
    assert!(
        s.contains(
            "    .sleb128 3\n    .byte 5          ; DW_LNS_set_column\n    .uleb128 14\n    \
             .byte 1          ; DW_LNS_copy\n"
        ),
        "{}",
        s
    );
}
