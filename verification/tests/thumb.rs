//! Thumb-2 encodings and whole images.

use vredrs_codegen::ast::{
    Annotation, AnnotationArg, AssignOp, AssignStmt, Assignee, BasicType, Expr, FnDef, FnParam,
    Identifier, IntegerLiteral, Program, ReturnStmt, Stmt, TopLevel, TypeExpr,
};
use vredrs_codegen::cstar::raw::emitter::compile_program_to_arm;
use vredrs_codegen::cstar::raw::firmware::{
    firmware_image, firmware_image_with_program, verify_firmware,
};
use vredrs_codegen::cstar::raw::thumb::ArmEmitter;

fn ident(name: &str) -> Identifier {
    Identifier { name: name.to_string() }
}

fn var(name: &str) -> Expr {
    Expr::Identifier(ident(name))
}

fn int_lit(value: i64) -> Expr {
    Expr::Integer(IntegerLiteral { value })
}

fn set(name: &str, value: Expr) -> Stmt {
    Stmt::Assign(AssignStmt {
        targets: vec![Assignee::Identifier(ident(name))],
        operator: AssignOp::Simple,
        value,
    })
}

fn ret(value: Expr) -> Stmt {
    Stmt::Return(ReturnStmt { values: vec![value] })
}

fn function(name: &str, params: &[&str], body: Vec<Stmt>) -> FnDef {
    FnDef {
        annotations: vec![],
        name: ident(name),
        params: params
            .iter()
            .map(|p| FnParam {
                name: ident(p),
                type_annotation: Some(TypeExpr::Basic(BasicType::Int)),
            })
            .collect(),
        return_type: None,
        body,
        extern_link: None,
    }
}

fn program(fns: Vec<FnDef>) -> Program {
    Program { declarations: fns.into_iter().map(TopLevel::FnDef).collect() }
}


fn halves(e: &ArmEmitter) -> Vec<u16> {
    e.code.chunks(2).map(|c| u16::from_le_bytes([c[0], c[1]])).collect()
}

fn word(bin: &[u8], i: usize) -> u32 {
    u32::from_le_bytes([bin[i], bin[i + 1], bin[i + 2], bin[i + 3]])
}

fn half(bin: &[u8], i: usize) -> u16 {
    u16::from_le_bytes([bin[i], bin[i + 1]])
}

/// The distance that a 32-bit branch jumps, from the instruction behind it.
fn wide_distance(hi: u16, lo: u16) -> i32 {
    let s = (hi >> 10) as u32 & 1;
    let j1 = (lo >> 13) as u32 & 1;
    let j2 = (lo >> 11) as u32 & 1;
    let i1 = 1 ^ (j1 ^ s);
    let i2 = 1 ^ (j2 ^ s);
    let v = s << 24
        | i1 << 23
        | i2 << 22
        | ((hi as u32) & 0x3ff) << 12
        | ((lo as u32) & 0x7ff) << 1;
    ((v << 7) as i32) >> 7
}

#[test]
fn register_instructions_are_encoded() {
    let mut e = ArmEmitter::new();
    e.mov_reg(13, 0);
    e.add_imm3(1, 2, 3);
    e.add_reg(1, 2, 3);
    e.sub_reg(1, 2, 3);
    e.muls(1, 2);
    e.str_imm5(1, 2, 3);
    e.ldr_imm5(1, 2, 3);
    e.str_reg(1, 2, 3);
    e.ldr_reg(1, 2, 3);
    e.ldr_literal(1, 2);
    assert_eq!(
        halves(&e),
        vec![
            0x4685, 0x1c8b, 0x18d1, 0x1ad1, 0x4351, 0x60d1, 0x68d1, 0x50d1, 0x58d1, 0x4902,
        ]
    );
}

#[test]
fn logic_and_control_instructions_are_encoded() {
    let mut e = ArmEmitter::new();
    e.orr_reg(1, 2);
    e.ands_reg(1, 2);
    e.eors_reg(1, 2);
    e.mvns_reg(1, 2);
    e.bx(14);
    e.nop();
    e.push(&[0, 4, 14]);
    e.pop(&[4, 15]);
    e.b(-2);
    assert_eq!(
        halves(&e),
        vec![0x4311, 0x4011, 0x4051, 0x43d1, 0x4770, 0xbf00, 0xb511, 0xbd10, 0xe7fe]
    );
    let mut f = ArmEmitter::new();
    f.literal(0x2001_0000);
    assert_eq!(f.code, vec![0, 0, 1, 0x20]);
}

#[test]
fn branches_reach_their_targets() {
    let mut e = ArmEmitter::new();
    for _ in 0..10 {
        e.nop();
    }
    e.b_to(0);
    // From 20, to 0: 24 bytes back.
    assert_eq!(half(&e.code, 20), 0xe7f4);
    e.b_cond_to(0, 0);
    assert_eq!(half(&e.code, 22), 0xd0f3);
    let pos = e.emit_b_placeholder();
    assert_eq!(pos, 24);
    for _ in 0..3000 {
        e.nop();
    }
    let here = e.code.len();
    e.patch_b_w(pos, here);
    let d = wide_distance(half(&e.code, pos), half(&e.code, pos + 2));
    assert_eq!(pos as i32 + 4 + d, here as i32);
    e.b_to(0);
    let d = wide_distance(half(&e.code, here), half(&e.code, here + 2));
    assert_eq!(here as i32 + 4 + d, 0);
}

#[test]
fn far_conditional_branches_skip_a_wide_branch() {
    let mut e = ArmEmitter::new();
    let pos = e.emit_cond_branch_placeholder(0);
    assert_eq!(half(&e.code, pos), 0xd101);
    for _ in 0..200 {
        e.nop();
    }
    let here = e.code.len();
    e.patch_cond_branch(pos, here);
    let d = wide_distance(half(&e.code, pos + 2), half(&e.code, pos + 4));
    assert_eq!(pos as i32 + 2 + 4 + d, here as i32);
    e.b_cond_to(1, 0);
    assert_eq!(half(&e.code, here), 0xd001);
    let d = wide_distance(half(&e.code, here + 2), half(&e.code, here + 4));
    assert_eq!(here as i32 + 2 + 4 + d, 0);
}

#[test]
fn bare_images_hang_in_every_handler() {
    let bin = firmware_image();
    assert_eq!(bin.len(), 512);
    assert_eq!(word(&bin, 0), 0x2001_0000);
    assert_eq!(word(&bin, 4), 129);
    for i in 2..32 {
        let handler = word(&bin, 4 * i);
        assert_eq!(handler % 2, 1);
        assert_eq!(half(&bin, handler as usize - 1), 0xe7fe);
    }
}

#[test]
fn images_hold_the_compiled_program() {
    let prog = program(vec![function("main", &[], vec![set("x", int_lit(1)), ret(var("x"))])]);
    let code = compile_program_to_arm(&prog);
    let bin = firmware_image_with_program(&prog);
    assert!(verify_firmware(&bin));
    assert_eq!(bin.len(), 1024);
    assert!(bin.windows(code.len()).any(|w| w == code.as_slice()));
    for i in 2..32 {
        let handler = word(&bin, 4 * i) as usize;
        assert_eq!(half(&bin, handler - 1), 0xe7fe);
    }
}

fn handler(name: &str, vector: i64) -> FnDef {
    let mut f = function(name, &[], vec![]);
    f.annotations = vec![Annotation {
        name: "isr_group".to_string(),
        arguments: vec![AnnotationArg {
            name: Some("vector".to_string()),
            value: int_lit(vector),
            rendered: format!("{}", vector),
        }],
    }];
    f
}

fn stub_at(bin: &[u8], vector: usize) -> Vec<u16> {
    let at = word(bin, 4 * vector) as usize - 1;
    vec![half(bin, at), half(bin, at + 2), half(bin, at + 4)]
}

#[test]
fn handlers_get_vectors_of_their_own() {
    let bin = firmware_image_with_program(&program(vec![handler("tick", 5), handler("io", 31)]));
    assert!(verify_firmware(&bin));
    assert_eq!(bin.len(), 1024);
    assert_eq!(word(&bin, 4 * 5), 128 + 12 + 4 + 200 + 5 * 16 + 1);
    assert_eq!(stub_at(&bin, 5), vec![0xb500, 0xbf00, 0xbd00]);
    assert_eq!(stub_at(&bin, 31), vec![0xb500, 0xbf00, 0xbd00]);
    assert_eq!(stub_at(&bin, 6)[0], 0xe7fe);
}

#[test]
fn handlers_stand_behind_long_programs() {
    let mut body: Vec<Stmt> = Vec::new();
    for i in 0..200 {
        body.push(set("x", int_lit(i)));
    }
    let prog = program(vec![function("main", &[], body), handler("tick", 2)]);
    let code = compile_program_to_arm(&prog);
    assert!(code.len() > 232);
    let bin = firmware_image_with_program(&prog);
    assert_eq!(&bin[144..144 + code.len()], code.as_slice());
    assert!(word(&bin, 8) as usize > 144 + code.len());
    assert_eq!(stub_at(&bin, 2), vec![0xb500, 0xbf00, 0xbd00]);
}

#[test]
fn broken_images_are_rejected() {
    let good = firmware_image();
    assert!(!verify_firmware(&good[..127]));
    assert!(verify_firmware(&good[..128]));
    let mut low_stack = good.clone();
    low_stack[3] = 0x1f;
    assert!(!verify_firmware(&low_stack));
    let mut high_stack = good.clone();
    high_stack[0] = 1;
    assert!(!verify_firmware(&high_stack));
    let mut even_reset = good.clone();
    even_reset[4] = 128;
    assert!(!verify_firmware(&even_reset));
    let mut far_reset = good;
    far_reset[6] = 4;
    assert!(!verify_firmware(&far_reset));
}
