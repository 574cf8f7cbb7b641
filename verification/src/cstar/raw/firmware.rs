//! Layout of firmware images.
//!
//! An image starts with 32 vectors of four bytes: the initial stack pointer,
//! the reset handler and the interrupt handlers.  Handler addresses are odd,
//! which selects the Thumb instruction set.

use vstd::prelude::*;
use crate::ast::{Annotation, AnnotationArg, Expr, FnDef, Program, TopLevel};
use crate::bytes::{
    law_le_bytes_read_back, le_bytes, le_value, lemma_le_len, push_bytes, push_le, push_zeros,
};
use crate::cstar::annotations::{is_named, named};
use crate::cstar::raw::emitter::{
    compile_program_to_arm, program_fw, SRAM_ORIGIN, SRAM_SIZE, STACK_TOP,
};
use crate::cstar::raw::thumb::{ArmEmitter, branch_target, half, half_at, lemma_half};
use crate::text::same;

verus! {

// ---------------------------------------------------------------------------
// What images are
// ---------------------------------------------------------------------------

/// The vector of a handler: the last argument named `vector`, or else 2.
pub open spec fn vector_arg(args: Seq<AnnotationArg>, k: nat) -> u32
    decreases k,
{
    if k == 0 || k > args.len() {
        2
    } else {
        match args[k - 1].value {
            Expr::Integer(i) => if named(args[k - 1], "vector"@) {
                i.value as u32
            } else {
                vector_arg(args, (k - 1) as nat)
            },
            _ => vector_arg(args, (k - 1) as nat),
        }
    }
}

/// The vectors with those of the first `k` annotations of a function.
pub open spec fn annotated_vectors(acc: Seq<u32>, anns: Seq<Annotation>, k: nat) -> Seq<u32>
    decreases k,
{
    if k == 0 || k > anns.len() {
        acc
    } else {
        let prev = annotated_vectors(acc, anns, (k - 1) as nat);
        if anns[k - 1].name@ == "isr_group"@ {
            prev.push(vector_arg(anns[k - 1].arguments@, anns[k - 1].arguments@.len()))
        } else {
            prev
        }
    }
}

/// The vectors of the handlers among the first `k` declarations.
pub open spec fn handler_vectors(ds: Seq<TopLevel>, k: nat) -> Seq<u32>
    decreases k,
{
    if k == 0 || k > ds.len() {
        Seq::empty()
    } else {
        let prev = handler_vectors(ds, (k - 1) as nat);
        match ds[k - 1] {
            TopLevel::FnDef(f) => annotated_vectors(
                prev,
                f.annotations@,
                f.annotations@.len(),
            ),
            _ => prev,
        }
    }
}

/// Where the slots of the interrupt handlers are counted from, for a program of
/// `n` bytes: each handler has a slot of sixteen bytes at its own number, and the
/// first slot, that of interrupt 2, lies behind the program.
pub open spec fn slots_base(n: nat) -> nat {
    if n <= 232 {
        344
    } else {
        112 + (n + 15) / 16 * 16
    }
}

/// The address in the vector table for interrupt `i`.
pub open spec fn handler_address(vs: Seq<u32>, i: int, default: u32, base: nat) -> u32 {
    if vs.contains(i as u32) {
        ((base + i * 16 + 1) % 0x1_0000_0000) as u32
    } else {
        default
    }
}

/// The bytes with the vectors `2` to `k - 1`.
pub open spec fn interrupt_vectors(
    out: Seq<u8>,
    vs: Seq<u32>,
    default: u32,
    base: nat,
    k: int,
) -> Seq<u8>
    decreases k,
{
    if k <= 2 {
        out
    } else {
        interrupt_vectors(out, vs, default, base, k - 1) + le_bytes(
            handler_address(vs, k - 1, default, base) as nat,
            4,
        )
    }
}

/// The vector table: the stack pointer, the reset handler behind the table, and
/// the interrupt handlers.
pub open spec fn vector_table(vs: Seq<u32>, default: u32, base: nat) -> Seq<u8> {
    interrupt_vectors(le_bytes(STACK_TOP as nat, 4) + le_bytes(129, 4), vs, default, base, 32)
}

/// The reset handler: it loads the stack pointer from the literal at its eighth
/// byte and branches over `skip` instructions from the program counter.
pub open spec fn reset_code(skip: int) -> Seq<u8> {
    half(0x4801) + half(0x4685) + half(0xE000 + skip) + half(0xBF00) + le_bytes(
        STACK_TOP as nat,
        4,
    )
}

/// A branch to itself.
pub open spec fn hang() -> Seq<u8> {
    half(0xE7FE)
}

/// The stub of an interrupt handler, sixteen bytes long.
pub open spec fn handler_stub() -> Seq<u8> {
    half(0xB500) + half(0xBF00) + half(0xBD00) + half(0xBF00) + half(0xBF00) + half(0xBF00) + half(
        0xBF00,
    ) + half(0xBF00)
}

/// The bytes with the slots `2` to `k - 1`: a stub for each interrupt with a
/// handler, and zeros for the others.
pub open spec fn with_slots(out: Seq<u8>, vs: Seq<u32>, k: int) -> Seq<u8>
    decreases k,
{
    if k <= 2 {
        out
    } else {
        with_slots(out, vs, k - 1) + (if vs.contains((k - 1) as u32) {
            handler_stub()
        } else {
            Seq::new(16, |i: int| 0u8)
        })
    }
}

/// The bytes filled up with zeros to at least `n`.
pub open spec fn padded(b: Seq<u8>, n: nat) -> Seq<u8> {
    if b.len() < n {
        b + Seq::new((n - b.len()) as nat, |i: int| 0u8)
    } else {
        b
    }
}

/// An image without a program: the reset handler sets up the stack and hangs,
/// and so does the default handler at 144.
pub open spec fn bare_image() -> Seq<u8> {
    padded(
        vector_table(Seq::empty(), 145, 344) + reset_code(2) + hang() + half(0xBF00) + hang(),
        512,
    )
}

/// What the image of a program begins with: the reset handler sets up the stack
/// and goes to the program at 144; the default handler at 140 hangs.
pub open spec fn program_head(p: Program) -> Seq<u8> {
    let vs = handler_vectors(p.declarations@, p.declarations@.len());
    vector_table(vs, 141, slots_base(program_fw(p).len())) + reset_code(4) + hang() + half(0xBF00)
        + program_fw(p)
}

/// The image of a program: its head, and the slots of its interrupt handlers
/// where it has any.
pub open spec fn program_image(p: Program) -> Seq<u8> {
    let vs = handler_vectors(p.declarations@, p.declarations@.len());
    let head = program_head(p);
    padded(
        if vs.len() == 0 {
            head
        } else {
            with_slots(padded(head, slots_base(program_fw(p).len()) + 32), vs, 32)
        },
        1024,
    )
}

/// The 32-bit number at position `i`.
pub open spec fn word_at(b: Seq<u8>, i: int) -> nat {
    le_value(b.subrange(i, i + 4))
}

/// The image is valid: it holds the vector table, its stack pointer is in SRAM,
/// and its reset handler is Thumb code in flash.
pub open spec fn valid_image(b: Seq<u8>) -> bool {
    &&& b.len() >= 128
    &&& SRAM_ORIGIN <= word_at(b, 0) <= SRAM_ORIGIN + SRAM_SIZE
    &&& word_at(b, 4) % 2 == 1
    &&& word_at(b, 4) <= 262144
}

// ---------------------------------------------------------------------------
// Building images
// ---------------------------------------------------------------------------

/// The vector of a handler.
fn read_vector(args: &Vec<AnnotationArg>) -> (v: u32)
    ensures
        v == vector_arg(args@, args@.len()),
{
    let mut v: u32 = 2;
    let mut k: usize = 0;
    while k < args.len()
        invariant
            k <= args@.len(),
            v == vector_arg(args@, k as nat),
        decreases args@.len() - k,
    {
        match &args[k].value {
            Expr::Integer(i) => {
                if is_named(&args[k], "vector") {
                    v = i.value as u32;
                }
            },
            _ => {},
        }
        k = k + 1;
    }
    v
}

/// Adds the vectors of a function.
fn push_vectors(out: &mut Vec<u32>, f: &FnDef)
    ensures
        final(out)@ == annotated_vectors(old(out)@, f.annotations@, f.annotations@.len()),
{
    let anns = &f.annotations;
    let mut k: usize = 0;
    while k < anns.len()
        invariant
            anns@ == f.annotations@,
            k <= anns@.len(),
            out@ == annotated_vectors(old(out)@, anns@, k as nat),
        decreases anns@.len() - k,
    {
        if same(anns[k].name.as_str(), "isr_group") {
            out.push(read_vector(&anns[k].arguments));
        }
        k = k + 1;
    }
}

/// The vectors of the handlers of a program.
fn collect_vectors(p: &Program) -> (r: Vec<u32>)
    ensures
        r@ == handler_vectors(p.declarations@, p.declarations@.len()),
{
    let mut out: Vec<u32> = Vec::new();
    let ds = &p.declarations;
    let mut k: usize = 0;
    while k < ds.len()
        invariant
            ds@ == p.declarations@,
            k <= ds@.len(),
            out@ == handler_vectors(ds@, k as nat),
        decreases ds@.len() - k,
    {
        match &ds[k] {
            TopLevel::FnDef(f) => {
                push_vectors(&mut out, f);
            },
            _ => {},
        }
        k = k + 1;
    }
    out
}

/// Whether a handler has the given vector.
fn has_vector(vs: &Vec<u32>, v: u32) -> (r: bool)
    ensures
        r == vs@.contains(v),
{
    let mut k: usize = 0;
    while k < vs.len()
        invariant
            k <= vs@.len(),
            forall|i: int| 0 <= i < k ==> vs@[i] != v,
        decreases vs@.len() - k,
    {
        if vs[k] == v {
            assert(vs@[k as int] == v);
            return true;
        }
        k = k + 1;
    }
    false
}

/// The vector table.
fn build_vector_table(vs: &Vec<u32>, default: u32, base: u128) -> (r: Vec<u8>)
    requires
        base <= 0x1_0000_0000_0000_0000_0000,
    ensures
        r@ == vector_table(vs@, default, base as nat),
{
    let mut out: Vec<u8> = Vec::new();
    push_le(&mut out, STACK_TOP as u64, 4);
    push_le(&mut out, 129, 4);
    let ghost head = out@;
    assert(head =~= le_bytes(STACK_TOP as nat, 4) + le_bytes(129, 4));
    let mut i: u32 = 2;
    while i < 32
        invariant
            2 <= i <= 32,
            base <= 0x1_0000_0000_0000_0000_0000,
            out@ == interrupt_vectors(head, vs@, default, base as nat, i as int),
        decreases 32 - i,
    {
        let a: u32 = if has_vector(vs, i) {
            ((base + i as u128 * 16 + 1) % 0x1_0000_0000) as u32
        } else {
            default
        };
        push_le(&mut out, a as u64, 4);
        i = i + 1;
    }
    out
}

/// The reset handler.
fn build_reset(skip: i16) -> (r: ArmEmitter)
    requires
        0 <= skip < 1024,
    ensures
        r.code@ == reset_code(skip as int),
{
    let mut e = ArmEmitter::new();
    e.ldr_literal(0, 1);
    e.mov_reg(13, 0);
    e.b(skip);
    e.nop();
    e.literal(STACK_TOP);
    assert(e.code@ =~= reset_code(skip as int));
    e
}

/// Fills up with zeros.
fn pad(out: &mut Vec<u8>, n: usize)
    ensures
        final(out)@ == padded(old(out)@, n as nat),
{
    if out.len() < n {
        let gap: usize = n - out.len();
        push_zeros(out, gap);
    }
}

/// An image without a program.
pub fn firmware_image() -> (r: Vec<u8>)
    ensures
        r@ == bare_image(),
{
    let none: Vec<u32> = Vec::new();
    let mut out = build_vector_table(&none, 145, 344);
    assert(none@ =~= Seq::<u32>::empty());
    let mut e = build_reset(2);
    e.b(-2);
    e.nop();
    e.b(-2);
    push_bytes(&mut out, e.code.as_slice());
    assert(out@ =~= vector_table(Seq::empty(), 145, 344) + reset_code(2) + hang() + half(0xBF00)
        + hang());
    pad(&mut out, 512);
    out
}

/// The stub of an interrupt handler.
fn build_stub() -> (r: ArmEmitter)
    ensures
        r.code@ == handler_stub(),
{
    let mut e = ArmEmitter::new();
    let lr: [u8; 1] = [14];
    let pc: [u8; 1] = [15];
    proof {
        assert(lr@ =~= seq![14u8]);
        assert(pc@ =~= seq![15u8]);
        assert(lr@[0] == 14);
        assert(pc@[0] == 15);
        assert(lr@.contains(14));
        assert(pc@.contains(15));
    }
    e.push(&lr);
    e.nop();
    e.pop(&pc);
    e.nop();
    e.nop();
    e.nop();
    e.nop();
    e.nop();
    assert(e.code@ =~= handler_stub());
    e
}

/// Where the slots of the interrupt handlers are counted from.
fn find_slots(n: usize) -> (r: u128)
    ensures
        r == slots_base(n as nat),
        r <= 0x1_0000_0000_0000_0100,
{
    if n <= 232 {
        344
    } else {
        112 + (n as u128 + 15) / 16 * 16
    }
}

/// Adds the slots of the interrupt handlers.
fn push_slots(out: &mut Vec<u8>, vs: &Vec<u32>)
    ensures
        final(out)@ == with_slots(old(out)@, vs@, 32),
{
    let stub = build_stub();
    let mut i: u32 = 2;
    while i < 32
        invariant
            2 <= i <= 32,
            stub.code@ == handler_stub(),
            out@ == with_slots(old(out)@, vs@, i as int),
        decreases 32 - i,
    {
        if has_vector(vs, i) {
            push_bytes(out, stub.code.as_slice());
        } else {
            push_zeros(out, 16);
        }
        i = i + 1;
    }
}

/// The image of a program.
#[verifier::rlimit(60)]
pub fn firmware_image_with_program(program: &Program) -> (r: Vec<u8>)
    ensures
        r@ == program_image(*program),
{
    let vs = collect_vectors(program);
    let user = compile_program_to_arm(program);
    let n: usize = user.len();
    let base: u128 = find_slots(n);
    let mut out = build_vector_table(&vs, 141, base);
    let mut e = build_reset(4);
    e.b(-2);
    e.nop();
    push_bytes(&mut out, e.code.as_slice());
    push_bytes(&mut out, user.as_slice());
    assert(out@ =~= program_head(*program));
    proof {
        lemma_tables(vs@, 141, base as nat);
        lemma_codes();
    }
    if vs.len() > 0 {
        let gap: usize = if n <= 232 {
            232 - n
        } else {
            (16 - n % 16) % 16
        };
        push_zeros(&mut out, gap);
        assert(out@ =~= padded(program_head(*program), (base + 32) as nat));
        push_slots(&mut out, &vs);
    }
    pad(&mut out, 1024);
    out
}

/// The 32-bit number at position `i`.
fn read_word(b: &[u8], i: usize) -> (r: u32)
    requires
        i + 4 <= b@.len(),
    ensures
        r == word_at(b@, i as int),
{
    proof {
        let s = b@.subrange(i as int, i + 4);
        reveal_with_fuel(le_value, 5);
        assert(s.skip(1).skip(1) =~= b@.subrange(i + 2, i + 4));
        assert(s.skip(1).skip(1).skip(1) =~= b@.subrange(i + 3, i + 4));
        assert(s.skip(1) =~= b@.subrange(i + 1, i + 4));
        assert(s.skip(1).skip(1).skip(1).skip(1) =~= Seq::<u8>::empty());
    }
    b[i] as u32 + 256 * b[i + 1] as u32 + 65536 * b[i + 2] as u32 + 16777216 * b[i + 3] as u32
}

/// Whether an image is valid.
pub fn verify_firmware(bin: &[u8]) -> (r: bool)
    ensures
        r == valid_image(bin@),
{
    if bin.len() < 128 {
        return false;
    }
    let sp: u32 = read_word(bin, 0);
    if sp < SRAM_ORIGIN || sp > SRAM_ORIGIN + SRAM_SIZE {
        return false;
    }
    let reset: u32 = read_word(bin, 4);
    reset % 2 == 1 && reset <= 262144
}

// ---------------------------------------------------------------------------
// Laws
// ---------------------------------------------------------------------------

/// The position of the literal that an `LDR Rt, [PC, #imm8]` at position `pos`
/// loads.
pub open spec fn literal_position(h: int, pos: int) -> int {
    (pos + 4) / 4 * 4 + 4 * (h % 256)
}

/// The vector table is 128 bytes long.
proof fn lemma_table_len(out: Seq<u8>, vs: Seq<u32>, default: u32, base: nat, k: int)
    requires
        2 <= k,
    ensures
        interrupt_vectors(out, vs, default, base, k).len() == out.len() + 4 * (k - 2),
        interrupt_vectors(out, vs, default, base, k).take(out.len() as int) == out,
    decreases k,
{
    if k > 2 {
        lemma_table_len(out, vs, default, base, k - 1);
        lemma_le_len(handler_address(vs, k - 1, default, base) as nat, 4);
        let p = interrupt_vectors(out, vs, default, base, k - 1);
        assert(interrupt_vectors(out, vs, default, base, k).take(out.len() as int) =~= p.take(
            out.len() as int,
        ));
    } else {
        assert(out.take(out.len() as int) =~= out);
    }
}

/// The number that was written at position `i` is read there.
proof fn lemma_word(b: Seq<u8>, i: int, n: u32)
    requires
        0 <= i,
        i + 4 <= b.len(),
        b.subrange(i, i + 4) == le_bytes(n as nat, 4),
    ensures
        word_at(b, i) == n,
{
    assert(n < crate::bytes::byte_range(4)) by {
        reveal_with_fuel(crate::bytes::byte_range, 5);
    }
    law_le_bytes_read_back(n as nat, 4);
}

/// An image that begins with a vector table and the reset handler is valid, and
/// its first vectors are the stack pointer and the reset handler.
proof fn lemma_valid(b: Seq<u8>, vs: Seq<u32>, default: u32, base: nat)
    requires
        b.len() >= 128,
        b.take(128) == vector_table(vs, default, base),
    ensures
        valid_image(b),
        word_at(b, 0) == STACK_TOP,
        word_at(b, 4) == 129,
{
    let head = le_bytes(STACK_TOP as nat, 4) + le_bytes(129, 4);
    lemma_le_len(STACK_TOP as nat, 4);
    lemma_le_len(129, 4);
    lemma_table_len(head, vs, default, base, 32);
    assert(b.take(128).take(8) == head);
    assert(b.subrange(0, 4) =~= head.subrange(0, 4));
    assert(head.subrange(0, 4) =~= le_bytes(STACK_TOP as nat, 4));
    assert(b.subrange(4, 8) =~= head.subrange(4, 8));
    assert(head.subrange(4, 8) =~= le_bytes(129, 4));
    lemma_word(b, 0, STACK_TOP);
    lemma_word(b, 4, 129);
}

/// Every image that is built is valid.
pub proof fn law_built_images_are_valid(p: Program)
    ensures
        valid_image(bare_image()),
        valid_image(program_image(p)),
        bare_image().len() == 512,
        program_image(p).len() >= 1024,
{
    let t = vector_table(Seq::empty(), 145, 344);
    lemma_tables(Seq::empty(), 145, 344);
    lemma_bare_prefix();
    assert(bare_image().take(128) =~= bare_image().take(146).take(128));
    assert(bare_image().take(128) =~= t);
    lemma_valid(bare_image(), Seq::empty(), 145, 344);
    let vs = handler_vectors(p.declarations@, p.declarations@.len());
    let base = slots_base(program_fw(p).len());
    lemma_tables(vs, 141, base);
    lemma_prefix(p);
    assert(program_image(p).take(128) =~= program_head(p).take(128));
    assert(program_head(p).take(128) =~= vector_table(vs, 141, base));
    lemma_valid(program_image(p), vs, 141, base);
}

/// The length of a vector table.
proof fn lemma_tables(vs: Seq<u32>, default: u32, base: nat)
    ensures
        vector_table(vs, default, base).len() == 128,
{
    lemma_le_len(STACK_TOP as nat, 4);
    lemma_le_len(129, 4);
    lemma_table_len(le_bytes(STACK_TOP as nat, 4) + le_bytes(129, 4), vs, default, base, 32);
}

/// The lengths of the handlers.
proof fn lemma_codes()
    ensures
        reset_code(2).len() == 12,
        reset_code(4).len() == 12,
        hang().len() == 2,
        half(0xBF00).len() == 2,
{
    lemma_le_len(0x4801, 2);
    lemma_le_len(0x4685, 2);
    lemma_le_len(0xE002, 2);
    lemma_le_len(0xE004, 2);
    lemma_le_len(0xBF00, 2);
    lemma_le_len(0xE7FE, 2);
    lemma_le_len(STACK_TOP as nat, 4);
}

/// A stub is sixteen bytes long.
proof fn lemma_stub_len()
    ensures
        handler_stub().len() == 16,
{
    lemma_le_len(0xB500, 2);
    lemma_le_len(0xBF00, 2);
    lemma_le_len(0xBD00, 2);
}

/// Slots come behind what was there, each at its place.
proof fn lemma_slots(out: Seq<u8>, vs: Seq<u32>, k: int)
    requires
        2 <= k,
    ensures
        with_slots(out, vs, k).len() == out.len() + 16 * (k - 2),
        with_slots(out, vs, k).take(out.len() as int) == out,
        forall|i: int|
            2 <= i < k && #[trigger] vs.contains(i as u32) ==> with_slots(out, vs, k).subrange(
                out.len() + 16 * (i - 2),
                out.len() + 16 * (i - 2) + 16,
            ) == handler_stub(),
    decreases k,
{
    lemma_stub_len();
    let all = with_slots(out, vs, k);
    if k > 2 {
        lemma_slots(out, vs, k - 1);
        let prev = with_slots(out, vs, k - 1);
        assert(all.take(out.len() as int) =~= prev.take(out.len() as int));
        assert forall|i: int| 2 <= i < k && #[trigger] vs.contains(i as u32) implies all.subrange(
            out.len() + 16 * (i - 2),
            out.len() + 16 * (i - 2) + 16,
        ) == handler_stub() by {
            let at = out.len() + 16 * (i - 2);
            if i < k - 1 {
                assert(all.subrange(at, at + 16) =~= prev.subrange(at, at + 16));
            } else {
                assert(all.subrange(at, at + 16) =~= handler_stub());
            }
        }
    } else {
        assert(all.take(out.len() as int) =~= out);
    }
}

/// What the image of a program begins with.
proof fn lemma_prefix(p: Program)
    ensures
        ({
            let head = program_head(p);
            &&& head.len() == 144 + program_fw(p).len()
            &&& program_image(p).len() >= 1024
            &&& program_image(p).len() >= head.len()
            &&& program_image(p).take(head.len() as int) == head
        }),
{
    let vs = handler_vectors(p.declarations@, p.declarations@.len());
    let base = slots_base(program_fw(p).len());
    let head = program_head(p);
    lemma_tables(vs, 141, base);
    lemma_codes();
    let start = padded(head, base + 32);
    lemma_slots(start, vs, 32);
    let all = with_slots(start, vs, 32);
    assert(start.take(head.len() as int) =~= head);
    assert(all.take(head.len() as int) =~= all.take(start.len() as int).take(head.len() as int));
    let b = program_image(p);
    if vs.len() == 0 {
        assert(b.take(head.len() as int) =~= head);
    } else {
        assert(b.take(head.len() as int) =~= all.take(head.len() as int));
    }
}

/// The bytes of the reset handler.
#[verifier::rlimit(60)]
proof fn lemma_reset(b: Seq<u8>, skip: int)
    requires
        b.len() >= 142,
        0 <= skip < 256,
        b.subrange(128, 140) == reset_code(skip),
        b.subrange(140, 142) == hang(),
    ensures
        half_at(b, 128) == 0x4801,
        half_at(b, 130) == 0x4685,
        half_at(b, 132) == 0xE000 + skip,
        word_at(b, 136) == STACK_TOP,
        half_at(b, 140) == 0xE7FE,
{
    let r = b.subrange(128, 140);
    lemma_half(0x4801);
    lemma_half(0x4685);
    lemma_half((0xE000 + skip) as u16);
    lemma_half(0xBF00);
    lemma_half(0xE7FE);
    lemma_le_len(STACK_TOP as nat, 4);
    assert(r[0] == b[128] && r[1] == b[129] && r[2] == b[130] && r[3] == b[131] && r[4] == b[132]
        && r[5] == b[133]);
    assert(b.subrange(140, 142)[0] == b[140] && b.subrange(140, 142)[1] == b[141]);
    assert(b.subrange(136, 140) =~= r.subrange(8, 12));
    assert(r.subrange(8, 12) =~= le_bytes(STACK_TOP as nat, 4));
    lemma_word(b, 136, STACK_TOP);
}

/// The reset handler of a program sets up the stack and goes to the program,
/// and the default handler hangs: the reset handler loads the end of SRAM from
/// its literal into `r0` and moves it to the stack pointer, its branch leads to
/// the first instruction of the program, and the default handler branches to
/// itself.
pub proof fn law_reset_reaches_the_program(p: Program)
    ensures
        ({
            let b = program_image(p);
            &&& half_at(b, 128) == 0x4801
            &&& word_at(b, literal_position(0x4801, 128)) == STACK_TOP
            &&& half_at(b, 130) == 0x4685
            &&& branch_target(half_at(b, 132), 132) == 144
            &&& b.subrange(144, (144 + program_fw(p).len()) as int) == program_fw(p)
            &&& branch_target(half_at(b, 140), 140) == 140
        }),
{
    let b = program_image(p);
    let vs = handler_vectors(p.declarations@, p.declarations@.len());
    let head = program_head(p);
    lemma_prefix(p);
    lemma_tables(vs, 141, slots_base(program_fw(p).len()));
    lemma_codes();
    assert(b.subrange(128, 140) =~= head.subrange(128, 140));
    assert(head.subrange(128, 140) =~= reset_code(4));
    assert(b.subrange(140, 142) =~= head.subrange(140, 142));
    assert(head.subrange(140, 142) =~= hang());
    lemma_reset(b, 4);
    assert(b.subrange(144, (144 + program_fw(p).len()) as int) =~= head.subrange(144, head.len() as int));
    assert(head.subrange(144, head.len() as int) =~= program_fw(p));
}

/// Vector `i` of a vector table.
proof fn lemma_vector(out: Seq<u8>, vs: Seq<u32>, default: u32, base: nat, k: int, i: int)
    requires
        out.len() == 8,
        2 <= i < k,
    ensures
        ({
            let t = interrupt_vectors(out, vs, default, base, k);
            t.len() >= 4 * i + 4 && t.subrange(4 * i, 4 * i + 4) == le_bytes(
                handler_address(vs, i, default, base) as nat,
                4,
            )
        }),
    decreases k,
{
    let t = interrupt_vectors(out, vs, default, base, k);
    let p = interrupt_vectors(out, vs, default, base, k - 1);
    lemma_table_len(out, vs, default, base, k);
    lemma_table_len(out, vs, default, base, k - 1);
    lemma_le_len(handler_address(vs, k - 1, default, base) as nat, 4);
    if i < k - 1 {
        lemma_vector(out, vs, default, base, k - 1, i);
        assert(t.subrange(4 * i, 4 * i + 4) =~= p.subrange(4 * i, 4 * i + 4));
    } else {
        assert(t.subrange(4 * i, 4 * i + 4) =~= le_bytes(
            handler_address(vs, i, default, base) as nat,
            4,
        ));
    }
}

/// What the image without a program begins with.
proof fn lemma_bare_prefix()
    ensures
        ({
            let head = vector_table(Seq::empty(), 145, 344) + reset_code(2) + hang() + half(0xBF00)
                + hang();
            &&& head.len() == 146
            &&& bare_image().len() == 512
            &&& bare_image().take(146) == head
        }),
{
    let head = vector_table(Seq::empty(), 145, 344) + reset_code(2) + hang() + half(0xBF00) + hang();
    lemma_tables(Seq::empty(), 145, 344);
    lemma_codes();
    assert(bare_image().take(146) =~= head);
}

/// Vector `i` of an image that begins with a vector table.
proof fn lemma_image_vector(b: Seq<u8>, vs: Seq<u32>, default: u32, base: nat, i: int)
    requires
        2 <= i < 32,
        b.len() >= 128,
        b.take(128) == vector_table(vs, default, base),
    ensures
        word_at(b, 4 * i) == handler_address(vs, i, default, base),
{
    let head = le_bytes(STACK_TOP as nat, 4) + le_bytes(129, 4);
    lemma_le_len(STACK_TOP as nat, 4);
    lemma_le_len(129, 4);
    lemma_vector(head, vs, default, base, 32, i);
    let t = vector_table(vs, default, base);
    assert(b.subrange(4 * i, 4 * i + 4) =~= b.take(128).subrange(4 * i, 4 * i + 4));
    lemma_word(b, 4 * i, handler_address(vs, i, default, base));
}

/// The vectors of the image of a program.
proof fn lemma_program_vector(p: Program, i: int)
    requires
        2 <= i < 32,
    ensures
        word_at(program_image(p), 4 * i) == handler_address(
            handler_vectors(p.declarations@, p.declarations@.len()),
            i,
            141,
            slots_base(program_fw(p).len()),
        ),
{
    let vs = handler_vectors(p.declarations@, p.declarations@.len());
    let base = slots_base(program_fw(p).len());
    let b = program_image(p);
    let t = vector_table(vs, 141, base);
    lemma_prefix(p);
    lemma_tables(vs, 141, base);
    assert(b.take(128) =~= program_head(p).take(128));
    assert(program_head(p).take(128) =~= t);
    lemma_image_vector(b, vs, 141, base, i);
}

/// Every interrupt without a handler of its own goes to the default handler, in
/// Thumb code.
pub proof fn law_other_interrupts_reach_the_default_handler(p: Program, i: int)
    requires
        2 <= i < 32,
        !handler_vectors(p.declarations@, p.declarations@.len()).contains(i as u32),
    ensures
        word_at(program_image(p), 4 * i) == 140 + 1,
{
    lemma_program_vector(p, i);
}

/// The vector of every interrupt with a handler points to valid code: the address
/// of Thumb code behind the program, where the stub of the handler stands.
pub proof fn law_handlers_point_to_code(p: Program, i: int)
    requires
        2 <= i < 32,
        handler_vectors(p.declarations@, p.declarations@.len()).contains(i as u32),
        program_fw(p).len() <= 0xffff_0000,
    ensures
        ({
            let b = program_image(p);
            let at = word_at(b, 4 * i) - 1;
            &&& word_at(b, 4 * i) % 2 == 1
            &&& at >= 144 + program_fw(p).len()
            &&& at + 16 <= b.len()
            &&& b.subrange(at, at + 16) == handler_stub()
        }),
{
    let vs = handler_vectors(p.declarations@, p.declarations@.len());
    let base = slots_base(program_fw(p).len());
    lemma_program_vector(p, i);
    lemma_prefix(p);
    let start = padded(program_head(p), base + 32);
    assert(start.len() == base + 32);
    lemma_slots(start, vs, 32);
    let all = with_slots(start, vs, 32);
    assert(vs.len() > 0);
    assert(vs.contains(i as u32));
    let at = base + 16 * i;
    let b = program_image(p);
    assert(all.subrange(at as int, at + 16) == handler_stub());
    assert(b.subrange(at as int, at + 16) =~= all.subrange(at as int, at + 16));
}

/// In an image without a program the reset handler sets up the stack and hangs,
/// and every interrupt goes to the default handler, which hangs too.
pub proof fn law_bare_image_hangs(i: int)
    requires
        2 <= i < 32,
    ensures
        ({
            let b = bare_image();
            &&& half_at(b, 128) == 0x4801
            &&& word_at(b, literal_position(0x4801, 128)) == STACK_TOP
            &&& half_at(b, 130) == 0x4685
            &&& branch_target(half_at(b, 132), 132) == 140
            &&& branch_target(half_at(b, 140), 140) == 140
            &&& word_at(b, 4 * i) == 144 + 1
            &&& branch_target(half_at(b, 144), 144) == 144
        }),
{
    let b = bare_image();
    let t = vector_table(Seq::empty(), 145, 344);
    let head = t + reset_code(2) + hang() + half(0xBF00) + hang();
    lemma_bare_prefix();
    lemma_tables(Seq::empty(), 145, 344);
    lemma_codes();
    assert(b.subrange(128, 140) =~= head.subrange(128, 140));
    assert(head.subrange(128, 140) =~= reset_code(2));
    assert(b.subrange(140, 142) =~= head.subrange(140, 142));
    assert(head.subrange(140, 142) =~= hang());
    lemma_reset(b, 2);
    assert(b.take(128) =~= head.take(128));
    assert(head.take(128) =~= t);
    lemma_image_vector(b, Seq::empty(), 145, 344, i);
    lemma_half(0xE7FE);
    assert(b.subrange(144, 146) =~= head.subrange(144, 146));
    assert(head.subrange(144, 146) =~= hang());
    assert(b.subrange(144, 146)[0] == b[144] && b.subrange(144, 146)[1] == b[145]);
}

} // verus!
