//! `@pipeline`: DMA pipeline scheduling.

use vstd::prelude::*;
use crate::ast::{Annotation, AnnotationArg, Assignee, Expr, FnDef, Stmt};
use crate::cstar::annotations::{is_named, named};
use crate::text::{cat, cat3, dec, push_dec, text, TextList, texts};

verus! {

/// The configuration of a DMA pipeline.
#[derive(Debug, Clone, Copy, PartialEq, Eq, Structural)]
pub struct PipelineConfig {
    pub dma_channel: u32,
    pub burst_size: u32,
    pub double_buffer: bool,
}

/// The configuration that stands where nothing is given.
pub open spec fn default_pipeline() -> PipelineConfig {
    PipelineConfig { dma_channel: 0, burst_size: 64, double_buffer: false }
}

impl Default for PipelineConfig {
    fn default() -> (r: Self)
        ensures
            r == default_pipeline(),
    {
        PipelineConfig { dma_channel: 0, burst_size: 64, double_buffer: false }
    }
}

/// A scheduled step: a DMA transfer, a computation, or a wait for a channel.
#[allow(inconsistent_fields)]
#[derive(Debug)]
pub enum PipNode {
    DmaRequest { src: String, dst: String, length: u32, channel: u32 },
    Compute { label: String, instructions: Vec<String> },
    DmaWait { channel: u32 },
}

/// What a step is.
#[allow(inconsistent_fields)]
pub enum Step {
    DmaRequest { src: Seq<char>, dst: Seq<char>, length: u32, channel: u32 },
    Compute { label: Seq<char>, instructions: Seq<Seq<char>> },
    DmaWait { channel: u32 },
}

impl View for PipNode {
    type V = Step;

    open spec fn view(&self) -> Step {
        match self {
            PipNode::DmaRequest { src, dst, length, channel } => Step::DmaRequest {
                src: src@,
                dst: dst@,
                length: *length,
                channel: *channel,
            },
            PipNode::Compute { label, instructions } => Step::Compute {
                label: label@,
                instructions: texts(instructions@),
            },
            PipNode::DmaWait { channel } => Step::DmaWait { channel: *channel },
        }
    }
}

/// What the steps of a list are.
pub open spec fn steps(v: Seq<PipNode>) -> Seq<Step> {
    Seq::new(v.len(), |i: int| v[i]@)
}

/// The configuration with what an argument says.
pub open spec fn pipeline_arg(c: PipelineConfig, a: AnnotationArg) -> PipelineConfig {
    if named(a, "dma_channel"@) {
        match a.value {
            Expr::Integer(i) => PipelineConfig { dma_channel: i.value as u32, ..c },
            _ => c,
        }
    } else if named(a, "burst"@) {
        match a.value {
            Expr::Integer(i) => PipelineConfig { burst_size: i.value as u32, ..c },
            _ => c,
        }
    } else if named(a, "double_buffer"@) {
        match a.value {
            Expr::Bool(b) => PipelineConfig { double_buffer: b.value, ..c },
            _ => c,
        }
    } else {
        c
    }
}

/// The configuration that the first `k` arguments give.
pub open spec fn pipeline_args(args: Seq<AnnotationArg>, k: nat) -> PipelineConfig
    decreases k,
{
    if k == 0 || k > args.len() {
        default_pipeline()
    } else {
        pipeline_arg(pipeline_args(args, (k - 1) as nat), args[k - 1])
    }
}

/// Reads a `@pipeline` annotation.
pub fn parse_pipeline_config(ann: &Annotation) -> (c: PipelineConfig)
    ensures
        c == pipeline_args(ann.arguments@, ann.arguments@.len()),
{
    let mut c = PipelineConfig::default();
    let args = &ann.arguments;
    let mut k: usize = 0;
    while k < args.len()
        invariant
            args@ == ann.arguments@,
            k <= args@.len(),
            c == pipeline_args(args@, k as nat),
        decreases args@.len() - k,
    {
        let a = &args[k];
        if is_named(a, "dma_channel") {
            match &a.value {
                Expr::Integer(i) => {
                    c.dma_channel = i.value as u32;
                },
                _ => {},
            }
        } else if is_named(a, "burst") {
            match &a.value {
                Expr::Integer(i) => {
                    c.burst_size = i.value as u32;
                },
                _ => {},
            }
        } else if is_named(a, "double_buffer") {
            match &a.value {
                Expr::Bool(b) => {
                    c.double_buffer = b.value;
                },
                _ => {},
            }
        }
        k = k + 1;
    }
    c
}

/// Every assignment among the statements has a target.
pub open spec fn targets_given(ss: Seq<Stmt>) -> bool {
    forall|i: int|
        0 <= i < ss.len() ==> ((#[trigger] ss[i]) matches Stmt::Assign(a) ==> a.targets@.len() > 0)
}

/// The pseudo-instruction of a statement.
#[verifier::opaque]
pub open spec fn pseudo(s: Stmt) -> Option<Seq<char>> {
    match s {
        Stmt::Assign(a) => Some(
            match a.targets@[0] {
                Assignee::Identifier(id) => "STORE "@ + id.name@ + " = <expr>"@,
                _ => "STORE ? = <expr>"@,
            },
        ),
        Stmt::Expr(_) => Some("CALL <expr>"@),
        Stmt::Return(_) => Some("RET"@),
        _ => None,
    }
}

/// The pseudo-instructions of the first `k` statements.
pub open spec fn pseudos(ss: Seq<Stmt>, k: nat) -> Seq<Seq<char>>
    decreases k,
{
    if k == 0 || k > ss.len() {
        Seq::empty()
    } else {
        let prev = pseudos(ss, (k - 1) as nat);
        match pseudo(ss[k - 1]) {
            Some(t) => prev.push(t),
            None => prev,
        }
    }
}

/// The pseudo-instructions of statements.
fn compile_loop_body(ss: &Vec<Stmt>) -> (r: Vec<String>)
    requires
        targets_given(ss@),
    ensures
        texts(r@) == pseudos(ss@, ss@.len()),
{
    let mut out = TextList::new();
    let mut k: usize = 0;
    while k < ss.len()
        invariant
            k <= ss@.len(),
            targets_given(ss@),
            out@ == pseudos(ss@, k as nat),
        decreases ss@.len() - k,
    {
        reveal(pseudo);
        match &ss[k] {
            Stmt::Assign(a) => {
                assert(ss@[k as int] is Assign);
                match &a.targets[0] {
                    Assignee::Identifier(id) => {
                        let mut s = text("STORE ");
                        s.append(id.name.as_str());
                        s.append(" = <expr>");
                        out.push(s);
                    },
                    _ => {
                        out.push(text("STORE ? = <expr>"));
                    },
                }
            },
            Stmt::Expr(_) => {
                out.push(text("CALL <expr>"));
            },
            Stmt::Return(_) => {
                out.push(text("RET"));
            },
            _ => {},
        }
        k = k + 1;
    }
    out.into_vec()
}

/// The steps of a double-buffered loop: the transfer of the second buffer
/// runs during the computation on the first.
pub open spec fn double_steps(out: Seq<Step>, v: Seq<char>, body: Seq<Stmt>, c: PipelineConfig) -> Seq<
    Step,
> {
    let src = "iter_src_"@ + v;
    let dst = "iter_dst_"@ + v;
    let code = pseudos(body, body.len());
    out.push(
        Step::DmaRequest {
            src: src + "_buf0"@,
            dst: dst + "_buf0"@,
            length: c.burst_size,
            channel: c.dma_channel,
        },
    ).push(
        Step::DmaRequest {
            src: src + "_buf1"@,
            dst: dst + "_buf1"@,
            length: c.burst_size,
            channel: c.dma_channel,
        },
    ).push(Step::Compute { label: "compute_"@ + v + "_buf0"@, instructions: code }).push(
        Step::DmaWait { channel: c.dma_channel },
    ).push(Step::Compute { label: "compute_"@ + v + "_buf1"@, instructions: code })
}

/// The steps of the first `n` passes of a single-buffered loop.
pub open spec fn single_steps(out: Seq<Step>, v: Seq<char>, body: Seq<Stmt>, c: PipelineConfig, n: nat) -> Seq<
    Step,
>
    decreases n,
{
    if n == 0 {
        out
    } else {
        single_steps(out, v, body, c, (n - 1) as nat).push(
            Step::DmaRequest {
                src: "iter_src_"@ + v + "_iter"@ + dec((n - 1) as nat),
                dst: "iter_dst_"@ + v + "_iter"@ + dec((n - 1) as nat),
                length: c.burst_size,
                channel: c.dma_channel,
            },
        ).push(Step::DmaWait { channel: c.dma_channel }).push(
            Step::Compute {
                label: "compute_"@ + v + "_iter"@ + dec((n - 1) as nat),
                instructions: pseudos(body, body.len()),
            },
        )
    }
}

/// The steps of the loops among the first `k` statements.
pub open spec fn loop_steps(ss: Seq<Stmt>, c: PipelineConfig, k: nat) -> Seq<Step>
    decreases k,
{
    if k == 0 || k > ss.len() {
        Seq::empty()
    } else {
        let prev = loop_steps(ss, c, (k - 1) as nat);
        match ss[k - 1] {
            Stmt::ForIn(fi) => if c.double_buffer {
                double_steps(prev, fi.var.name@, fi.body@, c)
            } else {
                single_steps(prev, fi.var.name@, fi.body@, c, 4)
            },
            _ => prev,
        }
    }
}

/// The schedule of a function: its loops, or all of it as one computation where
/// it has none.
pub open spec fn schedule(f: FnDef, c: PipelineConfig) -> Seq<Step> {
    let s = loop_steps(f.body@, c, f.body@.len());
    if s.len() == 0 {
        seq![
            Step::Compute { label: f.name.name@, instructions: pseudos(f.body@, f.body@.len()) },
        ]
    } else {
        s
    }
}

/// The function can be scheduled: every assignment that becomes an instruction
/// has a target.
pub open spec fn can_schedule(f: FnDef) -> bool {
    &&& forall|i: int|
        0 <= i < f.body@.len() ==> ((#[trigger] f.body@[i]) matches Stmt::ForIn(fi)
            ==> targets_given(fi.body@))
    &&& (forall|i: int| 0 <= i < f.body@.len() ==> !(#[trigger] f.body@[i] is ForIn))
        ==> targets_given(f.body@)
}

/// Appends a step.
fn push_step(out: &mut Vec<PipNode>, n: PipNode)
    ensures
        steps(final(out)@) == steps(old(out)@).push(n@),
{
    out.push(n);
    assert(steps(out@) =~= steps(old(out)@).push(n@));
}

/// Appends the steps of a double-buffered loop.
fn push_double_steps(out: &mut Vec<PipNode>, v: &str, body: &Vec<Stmt>, c: &PipelineConfig)
    requires
        targets_given(body@),
    ensures
        steps(final(out)@) == double_steps(steps(old(out)@), v@, body@, *c),
{
    let src = cat("iter_src_", v);
    let dst = cat("iter_dst_", v);
    push_step(
        out,
        PipNode::DmaRequest {
            src: cat(src.as_str(), "_buf0"),
            dst: cat(dst.as_str(), "_buf0"),
            length: c.burst_size,
            channel: c.dma_channel,
        },
    );
    push_step(
        out,
        PipNode::DmaRequest {
            src: cat(src.as_str(), "_buf1"),
            dst: cat(dst.as_str(), "_buf1"),
            length: c.burst_size,
            channel: c.dma_channel,
        },
    );
    push_step(
        out,
        PipNode::Compute {
            label: cat3("compute_", v, "_buf0"),
            instructions: compile_loop_body(body),
        },
    );
    push_step(out, PipNode::DmaWait { channel: c.dma_channel });
    push_step(
        out,
        PipNode::Compute {
            label: cat3("compute_", v, "_buf1"),
            instructions: compile_loop_body(body),
        },
    );
}

/// `prefix`, the loop variable and the number of a pass.
fn pass_name(prefix: &str, v: &str, n: u64) -> (r: String)
    ensures
        r@ == prefix@ + v@ + "_iter"@ + dec(n as nat),
{
    let mut s = text(prefix);
    s.append(v);
    s.append("_iter");
    push_dec(&mut s, n);
    s
}

/// Appends the steps of a single-buffered loop.
fn push_single_steps(out: &mut Vec<PipNode>, v: &str, body: &Vec<Stmt>, c: &PipelineConfig)
    requires
        targets_given(body@),
    ensures
        steps(final(out)@) == single_steps(steps(old(out)@), v@, body@, *c, 4),
{
    let mut n: u64 = 0;
    while n < 4
        invariant
            n <= 4,
            targets_given(body@),
            steps(out@) == single_steps(steps(old(out)@), v@, body@, *c, n as nat),
        decreases 4 - n,
    {
        push_step(
            out,
            PipNode::DmaRequest {
                src: pass_name("iter_src_", v, n),
                dst: pass_name("iter_dst_", v, n),
                length: c.burst_size,
                channel: c.dma_channel,
            },
        );
        push_step(out, PipNode::DmaWait { channel: c.dma_channel });
        push_step(
            out,
            PipNode::Compute {
                label: pass_name("compute_", v, n),
                instructions: compile_loop_body(body),
            },
        );
        n = n + 1;
    }
}

/// A loop leaves at least one step.
proof fn lemma_loop_leaves_steps(ss: Seq<Stmt>, c: PipelineConfig, k: nat)
    requires
        k <= ss.len(),
        exists|i: int| 0 <= i < k && #[trigger] ss[i] is ForIn,
    ensures
        loop_steps(ss, c, k).len() > 0,
    decreases k,
{
    if !(ss[k - 1] is ForIn) {
        let i = choose|i: int| 0 <= i < k && #[trigger] ss[i] is ForIn;
        assert(ss[i] is ForIn && i < k - 1);
        lemma_loop_leaves_steps(ss, c, (k - 1) as nat);
    } else {
        let fi = ss[k - 1]->ForIn_0;
        let prev = loop_steps(ss, c, (k - 1) as nat);
        assert(single_steps(prev, fi.var.name@, fi.body@, c, 4).len() > 0);
    }
}

/// Some transfer has been requested and not been waited for.
pub open spec fn transfer_pending(s: Seq<Step>) -> bool
    decreases s.len(),
{
    if s.len() == 0 {
        false
    } else {
        match s.last() {
            Step::DmaRequest { src, dst, length, channel } => true,
            Step::DmaWait { channel } => false,
            Step::Compute { label, instructions } => transfer_pending(s.drop_last()),
        }
    }
}

/// The passes of a loop wait for their transfers.
proof fn lemma_single_steps(out: Seq<Step>, v: Seq<char>, body: Seq<Stmt>, c: PipelineConfig, n: nat)
    requires
        !transfer_pending(out),
    ensures
        !transfer_pending(single_steps(out, v, body, c, n)),
    decreases n,
{
    if n > 0 {
        lemma_single_steps(out, v, body, c, (n - 1) as nat);
        reveal_with_fuel(transfer_pending, 3);
    }
}

/// The loops wait for their transfers.
proof fn lemma_loop_steps(ss: Seq<Stmt>, c: PipelineConfig, k: nat)
    ensures
        !transfer_pending(loop_steps(ss, c, k)),
    decreases k,
{
    if k > 0 && k <= ss.len() {
        lemma_loop_steps(ss, c, (k - 1) as nat);
        let prev = loop_steps(ss, c, (k - 1) as nat);
        match ss[k - 1] {
            Stmt::ForIn(fi) => {
                lemma_single_steps(prev, fi.var.name@, fi.body@, c, 4);
                reveal_with_fuel(transfer_pending, 3);
            },
            _ => {},
        }
    }
}

/// No transfer is left open: every schedule waits for the transfers that it
/// requests.
pub proof fn law_schedules_wait_for_their_transfers(f: FnDef, c: PipelineConfig)
    ensures
        !transfer_pending(schedule(f, c)),
        schedule(f, c).len() > 0,
{
    lemma_loop_steps(f.body@, c, f.body@.len());
    reveal_with_fuel(transfer_pending, 2);
}

/// Schedules the DMA transfers and computations of a function.
pub fn schedule_pipeline(fn_def: &FnDef, config: &PipelineConfig) -> (r: Vec<PipNode>)
    requires
        can_schedule(*fn_def),
    ensures
        steps(r@) == schedule(*fn_def, *config),
{
    let ss = &fn_def.body;
    let mut out: Vec<PipNode> = Vec::new();
    let mut k: usize = 0;
    assert(steps(out@) =~= Seq::<Step>::empty());
    while k < ss.len()
        invariant
            ss@ == fn_def.body@,
            k <= ss@.len(),
            can_schedule(*fn_def),
            steps(out@) == loop_steps(ss@, *config, k as nat),
        decreases ss@.len() - k,
    {
        match &ss[k] {
            Stmt::ForIn(fi) => {
                assert(fn_def.body@[k as int] is ForIn);
                if config.double_buffer {
                    push_double_steps(&mut out, fi.var.name.as_str(), &fi.body, config);
                } else {
                    push_single_steps(&mut out, fi.var.name.as_str(), &fi.body, config);
                }
            },
            _ => {},
        }
        k = k + 1;
    }
    if out.len() == 0 {
        proof {
            if exists|i: int| 0 <= i < ss@.len() && #[trigger] ss@[i] is ForIn {
                lemma_loop_leaves_steps(ss@, *config, ss@.len());
                assert(steps(out@).len() == 0);
            }
        }
        push_step(
            &mut out,
            PipNode::Compute {
                label: fn_def.name.name.clone(),
                instructions: compile_loop_body(ss),
            },
        );
        assert(steps(out@) =~= schedule(*fn_def, *config));
    }
    out
}

/// The text with the first `k` pseudo-instructions as comments behind `mark`.
pub open spec fn commented(out: Seq<char>, mark: Seq<char>, ls: Seq<Seq<char>>, k: nat) -> Seq<char>
    decreases k,
{
    if k == 0 || k > ls.len() {
        out
    } else {
        commented(out, mark, ls, (k - 1) as nat) + mark + ls[k - 1] + "\n"@
    }
}

/// Appends pseudo-instructions as comments.
fn push_commented(out: &mut String, mark: &str, ls: &Vec<String>)
    ensures
        final(out)@ == commented(old(out)@, mark@, texts(ls@), ls@.len()),
{
    let mut k: usize = 0;
    while k < ls.len()
        invariant
            k <= ls@.len(),
            out@ == commented(old(out)@, mark@, texts(ls@), k as nat),
        decreases ls@.len() - k,
    {
        out.append(mark);
        out.append(ls[k].as_str());
        out.append("\n");
        k = k + 1;
    }
}

/// The text with the register operations of a step on a Cortex-M target.
#[verifier::opaque]
pub open spec fn arm_step(out: Seq<char>, n: Step) -> Seq<char> {
    match n {
        Step::DmaRequest { src, dst, length, channel } => {
            let ch = dec(channel as nat);
            let len = dec(length as nat);
            out + "; DMA: "@ + src + " → "@ + dst + " ("@ + len + " bytes, ch"@ + ch + ")\n    LDR R0, ="@ + src + "\n    LDR R1, ="@ + dst + "\n    MOV R2, #"@ + len + "\n    STR R0, [DMA"@ + ch + "+0]\n    STR R1, [DMA"@ + ch + "+4]\n    STR R2, [DMA"@ + ch + "+8]\n    MOV R3, #1\n    STR R3, [DMA"@ + ch + "+12]\n"@
        },
        Step::DmaWait { channel } => {
            let ch = dec(channel as nat);
            out + "; Wait for DMA channel "@ + ch + "\n.wait_dma"@ + ch + ":\n    LDR R0, [DMA"@ + ch + "+16]\n    TST R0, #1\n    BEQ .wait_dma"@ + ch + "\n"@
        },
        Step::Compute { label, instructions } => commented(
            out + ".compute_"@ + label + ":\n"@,
            "    ; "@,
            instructions,
            instructions.len(),
        ),
    }
}

/// The text with the operations of a step on x86_64.
#[verifier::opaque]
pub open spec fn x86_step(out: Seq<char>, n: Step) -> Seq<char> {
    match n {
        Step::DmaRequest { src, dst, length, channel } => {
            let len = dec(length as nat);
            out + "# DMA: "@ + src + " → "@ + dst + " ("@ + len + " bytes)\n    lea rsi, ["@ + src + "]\n    lea rdi, ["@ + dst + "]\n    mov rcx, "@ + len + "\n    rep movsb\n"@
        },
        Step::DmaWait { channel } => {
            let ch = dec(channel as nat);
            out + "# Wait for DMA channel "@ + ch + "\n.wait_dma"@ + ch + ":\n    mfence\n"@
        },
        Step::Compute { label, instructions } => commented(
            out + ".compute_"@ + label + ":\n"@,
            "    # "@,
            instructions,
            instructions.len(),
        ),
    }
}

/// The text with the first `k` steps.
pub open spec fn steps_text(out: Seq<char>, ns: Seq<Step>, x86: bool, k: nat) -> Seq<char>
    decreases k,
{
    if k == 0 || k > ns.len() {
        out
    } else {
        let prev = steps_text(out, ns, x86, (k - 1) as nat);
        if x86 {
            x86_step(prev, ns[k - 1])
        } else {
            arm_step(prev, ns[k - 1])
        }
    }
}

/// The assembly of a schedule, with comments that begin with `mark`.
pub open spec fn dma_text(ns: Seq<Step>, c: PipelineConfig, x86: bool) -> Seq<char> {
    steps_text(
        (if x86 {
            "#"@
        } else {
            ";"@
        }) + " DMA pipeline (channel="@ + dec(c.dma_channel as nat) + ", burst="@ + dec(
            c.burst_size as nat,
        ) + ")\n"@,
        ns,
        x86,
        ns.len(),
    )
}

/// Appends the register operations of a step on a Cortex-M target.
fn push_arm_step(out: &mut String, n: &PipNode)
    ensures
        final(out)@ == arm_step(old(out)@, n@),
{
    reveal(arm_step);
    match n {
        PipNode::DmaRequest { src, dst, length, channel } => {
            let ch: u64 = *channel as u64;
            let len: u64 = *length as u64;
            out.append("; DMA: ");
            out.append(src.as_str());
            out.append(" → ");
            out.append(dst.as_str());
            out.append(" (");
            push_dec(out, len);
            out.append(" bytes, ch");
            push_dec(out, ch);
            out.append(")\n    LDR R0, =");
            out.append(src.as_str());
            out.append("\n    LDR R1, =");
            out.append(dst.as_str());
            out.append("\n    MOV R2, #");
            push_dec(out, len);
            out.append("\n    STR R0, [DMA");
            push_dec(out, ch);
            out.append("+0]\n    STR R1, [DMA");
            push_dec(out, ch);
            out.append("+4]\n    STR R2, [DMA");
            push_dec(out, ch);
            out.append("+8]\n    MOV R3, #1\n    STR R3, [DMA");
            push_dec(out, ch);
            out.append("+12]\n");
        },
        PipNode::DmaWait { channel } => {
            let ch: u64 = *channel as u64;
            out.append("; Wait for DMA channel ");
            push_dec(out, ch);
            out.append("\n.wait_dma");
            push_dec(out, ch);
            out.append(":\n    LDR R0, [DMA");
            push_dec(out, ch);
            out.append("+16]\n    TST R0, #1\n    BEQ .wait_dma");
            push_dec(out, ch);
            out.append("\n");
        },
        PipNode::Compute { label, instructions } => {
            out.append(".compute_");
            out.append(label.as_str());
            out.append(":\n");
            push_commented(out, "    ; ", instructions);
        },
    }
}

/// Appends the operations of a step on x86_64.
fn push_x86_step(out: &mut String, n: &PipNode)
    ensures
        final(out)@ == x86_step(old(out)@, n@),
{
    reveal(x86_step);
    match n {
        PipNode::DmaRequest { src, dst, length, channel: _ } => {
            let len: u64 = *length as u64;
            out.append("# DMA: ");
            out.append(src.as_str());
            out.append(" → ");
            out.append(dst.as_str());
            out.append(" (");
            push_dec(out, len);
            out.append(" bytes)\n    lea rsi, [");
            out.append(src.as_str());
            out.append("]\n    lea rdi, [");
            out.append(dst.as_str());
            out.append("]\n    mov rcx, ");
            push_dec(out, len);
            out.append("\n    rep movsb\n");
        },
        PipNode::DmaWait { channel } => {
            let ch: u64 = *channel as u64;
            out.append("# Wait for DMA channel ");
            push_dec(out, ch);
            out.append("\n.wait_dma");
            push_dec(out, ch);
            out.append(":\n    mfence\n");
        },
        PipNode::Compute { label, instructions } => {
            out.append(".compute_");
            out.append(label.as_str());
            out.append(":\n");
            push_commented(out, "    # ", instructions);
        },
    }
}

/// The assembly of a schedule for a Cortex-M DMA controller.
pub fn generate_dma_ops(nodes: &Vec<PipNode>, config: &PipelineConfig) -> (r: String)
    ensures
        r@ == dma_text(steps(nodes@), *config, false),
{
    let mut s = text(";");
    s.append(" DMA pipeline (channel=");
    push_dec(&mut s, config.dma_channel as u64);
    s.append(", burst=");
    push_dec(&mut s, config.burst_size as u64);
    s.append(")\n");
    let ghost head = s@;
    let mut k: usize = 0;
    while k < nodes.len()
        invariant
            k <= nodes@.len(),
            s@ == steps_text(head, steps(nodes@), false, k as nat),
        decreases nodes@.len() - k,
    {
        push_arm_step(&mut s, &nodes[k]);
        k = k + 1;
    }
    s
}

/// The assembly of a schedule for x86_64.
pub fn generate_dma_ops_x86(nodes: &Vec<PipNode>, config: &PipelineConfig) -> (r: String)
    ensures
        r@ == dma_text(steps(nodes@), *config, true),
{
    let mut s = text("#");
    s.append(" DMA pipeline (channel=");
    push_dec(&mut s, config.dma_channel as u64);
    s.append(", burst=");
    push_dec(&mut s, config.burst_size as u64);
    s.append(")\n");
    let ghost head = s@;
    let mut k: usize = 0;
    while k < nodes.len()
        invariant
            k <= nodes@.len(),
            s@ == steps_text(head, steps(nodes@), true, k as nat),
        decreases nodes@.len() - k,
    {
        push_x86_step(&mut s, &nodes[k]);
        k = k + 1;
    }
    s
}

} // verus!
