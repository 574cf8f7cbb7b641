//! Thumb-2 code and firmware images.

use vredrs_codegen::ast::{
    AssignOp, AssignStmt, Assignee, BasicType, BinaryExpr, BinaryOp, Expr, FnDef, FnParam,
    Identifier, IfStmt, IntegerLiteral, Program, ReturnStmt, Stmt, TopLevel, TypeExpr, WhileStmt,
};
use vredrs_codegen::cstar::raw::emitter::{compile_program_to_arm, STACK_TOP};
use vredrs_codegen::cstar::raw::firmware::{firmware_image, verify_firmware};
use vredrs_codegen::cstar::raw::thumb::ArmEmitter;

fn ident(name: &str) -> Identifier {
    Identifier { name: name.to_string() }
}

fn var(name: &str) -> Expr {
    Expr::Identifier(ident(name))
}

fn int_lit(value: i64) -> Expr {
    Expr::Integer(IntegerLiteral { value })
}

fn bin(left: Expr, operator: BinaryOp, right: Expr) -> Expr {
    Expr::Binary(BinaryExpr { left: Box::new(left), operator, right: Box::new(right) })
}

fn set(name: &str, value: Expr) -> Stmt {
    Stmt::Assign(AssignStmt {
        targets: vec![Assignee::Identifier(ident(name))],
        operator: AssignOp::Simple,
        value,
    })
}

fn ret(value: Expr) -> Stmt {
    Stmt::Return(ReturnStmt { values: vec![value] })
}

fn if_stmt(condition: Expr, then_body: Vec<Stmt>, else_body: Option<Vec<Stmt>>) -> Stmt {
    Stmt::If(IfStmt { condition, then_body, elif_chain: vec![], else_body })
}

fn while_stmt(condition: Expr, body: Vec<Stmt>) -> Stmt {
    Stmt::While(WhileStmt { label: None, condition, body })
}

fn function(name: &str, params: &[&str], body: Vec<Stmt>) -> FnDef {
    FnDef {
        annotations: vec![],
        name: ident(name),
        params: params
            .iter()
            .map(|p| FnParam {
                name: ident(p),
                type_annotation: Some(TypeExpr::Basic(BasicType::Int)),
            })
            .collect(),
        return_type: None,
        body,
        extern_link: None,
    }
}

fn program(fns: Vec<FnDef>) -> Program {
    Program { declarations: fns.into_iter().map(TopLevel::FnDef).collect() }
}


/// Scan `code` for the 16-bit CMP Rn, #imm8 instruction (T1 encoding
/// 0x2800 | (Rn<<8) | imm8). Returns the byte offset of the match.
fn find_cmp_imm8(code: &[u8], rn: u8, imm: u8) -> Option<usize> {
    let expected: u16 = 0x2800 | (((rn as u16) & 0x7) << 8) | (imm as u16);
    let bytes = expected.to_le_bytes();
    code.windows(2)
        .position(|w| w == bytes)
}

/// Scan `code` for the 16-bit NOP instruction (0xBF00).
fn count_nop(code: &[u8]) -> usize {
    let bytes: [u8; 2] = [0x00, 0xBF];
    code.windows(2)
        .filter(|w| *w == bytes)
        .count()
}

/// True if `code` contains a T1 B<cond> (16-bit) with cond != 0b1111 and
/// the 1101 prefix. Encoding: 0xD000..=0xDFFF (excluding 0xDF00.. which is
/// a permanently undefined UDF hint).
fn has_cond_branch_16bit(code: &[u8]) -> bool {
    for w in code.windows(2) {
        let instr = u16::from_le_bytes([w[0], w[1]]);
        if (instr & 0xF000) == 0xD000 && (instr & 0x0F00) != 0x0F00 {
            return true;
        }
    }
    false
}

/// True if `code` contains the 32-bit T4 B.W encoding (hi half starts with
/// 0xF000..=0xF7FF and matches the B.W pattern: bits [15:11]=11110,
/// bits [9:4]=10xxxx or specifically the 10J11J2 pattern in the lo half).
fn has_t4_branch(code: &[u8]) -> bool {
    if code.len() < 4 {
        return false;
    }
    for i in 0..(code.len() - 3) {
        let hi = u16::from_le_bytes([code[i], code[i + 1]]);
        let lo = u16::from_le_bytes([code[i + 2], code[i + 3]]);
        // hi = 11110 ... (T4 prefix)
        if (hi & 0xF800) != 0xF000 {
            continue;
        }
        // lo = 10 J1 1 J2 imm11 → bits [15:12] = 10x1
        if (lo & 0xD000) == 0x9000 {
            return true;
        }
    }
    false
}


fn main_program(body: Vec<Stmt>) -> Program {
    program(vec![function("main", &[], body)])
}

#[test]
fn test_firmware_generation() {
    let bin = firmware_image();
    assert!(verify_firmware(&bin));
    assert!(bin.len() >= 128);
    let sp = u32::from_le_bytes([bin[0], bin[1], bin[2], bin[3]]);
    assert_eq!(sp, STACK_TOP);
}

/// An if statement emits a real conditional branch.
#[test]
fn test_if_emits_conditional_branch() {
    let code = compile_program_to_arm(&main_program(vec![
        set("x", int_lit(1)),
        if_stmt(var("x"), vec![set("y", int_lit(1))], None),
        ret(int_lit(0)),
    ]));
    // CMP r0, #0 must be present.
    assert!(
        find_cmp_imm8(&code, 0, 0).is_some(),
        "if: expected CMP r0, #0 in code: {:02x?}",
        code
    );
    // No NOP should be emitted for the condition (the body shouldn't
    // contain NOPs at all in this simple program).
    assert_eq!(count_nop(&code), 0, "if: NOP leaked into code: {:02x?}", code);
    // Either a 16-bit B<cond> or a 32-bit T4 B.W must be present.
    assert!(
        has_cond_branch_16bit(&code) || has_t4_branch(&code),
        "if: no conditional branch found in code: {:02x?}",
        code
    );
}

/// A while loop emits a real conditional branch and a back-branch to its top.
#[test]
fn test_while_emits_conditional_branch_and_backbranch() {
    let code = compile_program_to_arm(&main_program(vec![
        set("i", int_lit(0)),
        while_stmt(
            bin(var("i"), BinaryOp::Lt, int_lit(10)),
            vec![set("i", bin(var("i"), BinaryOp::Add, int_lit(1)))],
        ),
        ret(int_lit(0)),
    ]));
    assert!(
        find_cmp_imm8(&code, 0, 0).is_some(),
        "while: expected CMP r0, #0 in code: {:02x?}",
        code
    );
    assert_eq!(count_nop(&code), 0, "while: NOP leaked: {:02x?}", code);
    assert!(
        has_cond_branch_16bit(&code) || has_t4_branch(&code),
        "while: no conditional branch: {:02x?}",
        code
    );
}

/// An if with an else emits branches for both arms.
#[test]
fn test_if_else_branches() {
    let code = compile_program_to_arm(&main_program(vec![
        set("x", int_lit(1)),
        if_stmt(var("x"), vec![set("y", int_lit(1))], Some(vec![set("y", int_lit(2))])),
        ret(int_lit(0)),
    ]));
    assert!(find_cmp_imm8(&code, 0, 0).is_some());
    assert_eq!(count_nop(&code), 0);
    // Both a conditional branch (over then-body) and an unconditional
    // branch (skip else after then-body) must be present.
    assert!(has_cond_branch_16bit(&code) || has_t4_branch(&code));
}

/// Integers 0-255 use the 8-bit MOVS.
#[test]
fn test_small_integer_uses_mov_imm8() {
    // 42 → 0x202A (MOVS r0, #42). Build directly via the emitter.
    let mut e = ArmEmitter::new();
    e.mov_imm8(0, 42);
    assert_eq!(e.code, vec![0x2A, 0x20]);
}

/// Integers 256-65535 use MOVW and are not cut down to their low 8 bits.
#[test]
fn test_integer_256_uses_movw_not_truncated() {
    let code =
        compile_program_to_arm(&main_program(vec![set("x", int_lit(1000)), ret(var("x"))]));
    // 1000 = 0x3E8: imm4 = 0, i = 0, imm3 = 3, imm8 = 0xE8.
    let movw_hi: [u8; 2] = [0x40, 0xF2];
    assert!(
        code.windows(2).any(|w| w == movw_hi),
        "expected MOVW (0xF240 high half) for 1000, got: {:02x?}",
        code
    );
    // Find the MOVW and check the imm8 byte (low byte of the low half).
    let mut found_movw = false;
    for i in 0..code.len().saturating_sub(3) {
        if code[i] == 0x40 && code[i + 1] == 0xF2 {
            let lo = u16::from_le_bytes([code[i + 2], code[i + 3]]);
            let imm8 = lo & 0xFF;
            assert_eq!(
                imm8, 0xE8,
                "MOVW for 1000 should preserve imm8=0xE8, got {:02x}",
                imm8
            );
            found_movw = true;
            break;
        }
    }
    assert!(found_movw, "MOVW not found in code: {:02x?}", code);
    // 1000 must NOT appear as a truncated 0xE8 (232) movs.
    let truncated: [u8; 2] = [0xE8, 0x20];
    assert!(
        !code.windows(2).any(|w| w == truncated),
        "1000 was truncated to 232 (movs r0, #232): {:02x?}",
        code
    );
}

/// Integers > 65535 use MOVW + MOVT (8 bytes total).
#[test]
fn test_integer_large_uses_movw_movt() {
    let code =
        compile_program_to_arm(&main_program(vec![set("x", int_lit(100000)), ret(var("x"))]));
    // 100000 = 0x186A0. lo = 0x86A0, hi = 0x0001.
    let movw_hi: [u8; 2] = [0x48, 0xF2];
    assert!(
        code.windows(2).any(|w| w == movw_hi),
        "expected MOVW for 100000, got: {:02x?}",
        code
    );
    let movt_hi: [u8; 2] = [0xC0, 0xF2];
    assert!(
        code.windows(2).any(|w| w == movt_hi),
        "expected MOVT for 100000, got: {:02x?}",
        code
    );
}

/// Negative integers use MOVW + MOVT (two's complement).
#[test]
fn test_negative_integer_uses_movw_movt() {
    let code = compile_program_to_arm(&main_program(vec![set("x", int_lit(-1)), ret(var("x"))]));
    // -1 as u32 = 0xFFFFFFFF. lo = 0xFFFF, hi = 0xFFFF.
    let movw_hi: [u8; 2] = [0x4F, 0xF6];
    assert!(
        code.windows(2).any(|w| w == movw_hi),
        "expected MOVW for -1, got: {:02x?}",
        code
    );
    let movt_hi: [u8; 2] = [0xCF, 0xF6];
    assert!(
        code.windows(2).any(|w| w == movt_hi),
        "expected MOVT for -1, got: {:02x?}",
        code
    );
    // Make sure -1 is not truncated to 0xFF (movs r0, #255 = 0x20FF).
    let truncated: [u8; 2] = [0xFF, 0x20];
    assert!(
        !code.windows(2).any(|w| w == truncated),
        "-1 was truncated to 255: {:02x?}",
        code
    );
}

/// MOVW r0, #1000.
#[test]
fn test_movw_encoder() {
    let mut e = ArmEmitter::new();
    e.movw(0, 1000);
    assert_eq!(e.code, vec![0x40, 0xF2, 0xE8, 0x30]);
}

/// MOVT r0, #1.
#[test]
fn test_movt_encoder() {
    let mut e = ArmEmitter::new();
    e.movt(0, 1);
    assert_eq!(e.code, vec![0xC0, 0xF2, 0x01, 0x00]);
}

/// CMP r0, #0.
#[test]
fn test_cmp_imm8_encoder() {
    let mut e = ArmEmitter::new();
    e.cmp_imm8(0, 0);
    assert_eq!(e.code, vec![0x00, 0x28]);
}
