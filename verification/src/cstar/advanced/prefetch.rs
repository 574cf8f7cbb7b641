//! `@prefetch`: cache prefetch instructions.

use vstd::prelude::*;
use crate::ast::{Annotation, AnnotationArg, Expr, StringPart};
use crate::cstar::annotations::{is_named, named};
use crate::text::{cat, dec, numbered, push_dec, same, text, TextList, texts};

verus! {

/// The configuration of a prefetch.
#[derive(Debug)]
pub struct PrefetchConfig {
    /// `sequential` or `random`.
    pub hint: String,
    /// The bytes between prefetches.
    pub stride: u32,
    /// The size of a cache line.
    pub cache_line: u32,
}

/// What a prefetch configuration is.
pub struct Prefetching {
    pub hint: Seq<char>,
    pub stride: u32,
    pub cache_line: u32,
}

impl View for PrefetchConfig {
    type V = Prefetching;

    open spec fn view(&self) -> Prefetching {
        Prefetching { hint: self.hint@, stride: self.stride, cache_line: self.cache_line }
    }
}

/// The configuration that stands where nothing is given.
pub open spec fn default_prefetch() -> Prefetching {
    Prefetching { hint: "sequential"@, stride: 64, cache_line: 64 }
}

impl Default for PrefetchConfig {
    fn default() -> (r: Self)
        ensures
            r@ == default_prefetch(),
    {
        PrefetchConfig { hint: text("sequential"), stride: 64, cache_line: 64 }
    }
}

/// The first piece of a string literal, where it is plain text.
pub open spec fn first_text(e: Expr) -> Option<Seq<char>> {
    match e {
        Expr::String_(s) => if s.parts@.len() > 0 {
            match s.parts@[0] {
                StringPart::Text(t) => Some(t@),
                _ => None,
            }
        } else {
            None
        },
        _ => None,
    }
}

/// The first piece of a string literal, where it is plain text.
pub fn first_plain_piece(e: &Expr) -> (r: Option<String>)
    ensures
        match r {
            Some(s) => first_text(*e) == Some(s@),
            None => first_text(*e) is None,
        },
{
    match e {
        Expr::String_(s) => {
            if s.parts.len() > 0 {
                match &s.parts[0] {
                    StringPart::Text(t) => {
                        return Some(t.clone());
                    },
                    _ => {},
                }
            }
            None
        },
        _ => None,
    }
}

/// The configuration with what an argument says.
pub open spec fn prefetch_arg(c: Prefetching, a: AnnotationArg) -> Prefetching {
    if named(a, "hint"@) {
        match first_text(a.value) {
            Some(hint) => Prefetching { hint, ..c },
            None => c,
        }
    } else if named(a, "stride"@) {
        match a.value {
            Expr::Integer(i) => Prefetching { stride: i.value as u32, ..c },
            _ => c,
        }
    } else {
        c
    }
}

/// The configuration that the first `k` arguments give.
pub open spec fn prefetch_args(args: Seq<AnnotationArg>, k: nat) -> Prefetching
    decreases k,
{
    if k == 0 || k > args.len() {
        default_prefetch()
    } else {
        prefetch_arg(prefetch_args(args, (k - 1) as nat), args[k - 1])
    }
}

/// Reads a `@prefetch` annotation.
pub fn parse_prefetch_config(ann: &Annotation) -> (c: PrefetchConfig)
    ensures
        c@ == prefetch_args(ann.arguments@, ann.arguments@.len()),
{
    let mut c = PrefetchConfig::default();
    let args = &ann.arguments;
    let mut k: usize = 0;
    while k < args.len()
        invariant
            args@ == ann.arguments@,
            k <= args@.len(),
            c@ == prefetch_args(args@, k as nat),
        decreases args@.len() - k,
    {
        let a = &args[k];
        if is_named(a, "hint") {
            match first_plain_piece(&a.value) {
                Some(t) => {
                    c.hint = t;
                },
                None => {},
            }
        } else if is_named(a, "stride") {
            match &a.value {
                Expr::Integer(i) => {
                    c.stride = i.value as u32;
                },
                _ => {},
            }
        }
        k = k + 1;
    }
    c
}

/// The comment in front of prefetch instructions.
pub open spec fn prefetch_comment(c: Prefetching) -> Seq<char> {
    "    ; @prefetch (stride="@ + dec(c.stride as nat) + ", hint="@ + c.hint + ")"@
}

/// The prefetch instructions for a loop over `v`, four passes ahead; `shift` is
/// the binary logarithm of the stride, for the targets that shift.
pub open spec fn prefetch_lines(v: Seq<char>, c: Prefetching, arch: Seq<char>, shift: u32) -> Seq<
    Seq<char>,
> {
    let sequential = c.hint == "sequential"@;
    if arch == "x86_64"@ {
        seq![
            prefetch_comment(c),
            "    mov rax, "@ + v,
            "    add rax, 4"@,
            "    imul rax, "@ + dec(c.stride as nat),
            "    add rax, [base_addr]"@,
            if sequential {
                "    prefetcht0 [rax]"@
            } else {
                "    prefetchnta [rax]"@
            },
        ]
    } else if arch == "aarch64"@ {
        seq![
            prefetch_comment(c),
            "    mov x0, "@ + v,
            "    add x0, x0, 4"@,
            "    lsl x0, x0, #"@ + dec(shift as nat),
            "    add x0, x0, x9"@,
            if sequential {
                "    prfm pldl1keep, [x0]"@
            } else {
                "    prfm pldl1strm, [x0]"@
            },
        ]
    } else {
        seq![
            prefetch_comment(c),
            "    mov r0, "@ + v,
            "    add r0, r0, 4"@,
            "    lsl r0, r0, #"@ + dec(shift as nat),
            "    add r0, r0, r9"@,
            "    pld [r0]"@,
        ]
    }
}

/// The prefetch instructions for a loop over `loop_var`: `prefetcht0` on
/// x86_64, `prfm` on AArch64, and `pld` on every other target.
pub fn generate_prefetch_instructions(
    loop_var: &str,
    config: &PrefetchConfig,
    target_arch: &str,
    shift: u32,
) -> (r: Vec<String>)
    ensures
        texts(r@) == prefetch_lines(loop_var@, config@, target_arch@, shift),
{
    let sequential: bool = same(config.hint.as_str(), "sequential");
    let mut out = TextList::new();
    let mut c = text("    ; @prefetch (stride=");
    push_dec(&mut c, config.stride as u64);
    c.append(", hint=");
    c.append(config.hint.as_str());
    c.append(")");
    out.push(c);
    if same(target_arch, "x86_64") {
        out.push(cat("    mov rax, ", loop_var));
        out.push(text("    add rax, 4"));
        out.push(numbered("    imul rax, ", config.stride as u64));
        out.push(text("    add rax, [base_addr]"));
        out.push(
            text(
                if sequential {
                    "    prefetcht0 [rax]"
                } else {
                    "    prefetchnta [rax]"
                },
            ),
        );
    } else if same(target_arch, "aarch64") {
        out.push(cat("    mov x0, ", loop_var));
        out.push(text("    add x0, x0, 4"));
        out.push(numbered("    lsl x0, x0, #", shift as u64));
        out.push(text("    add x0, x0, x9"));
        out.push(
            text(
                if sequential {
                    "    prfm pldl1keep, [x0]"
                } else {
                    "    prfm pldl1strm, [x0]"
                },
            ),
        );
    } else {
        out.push(cat("    mov r0, ", loop_var));
        out.push(text("    add r0, r0, 4"));
        out.push(numbered("    lsl r0, r0, #", shift as u64));
        out.push(text("    add r0, r0, r9"));
        out.push(text("    pld [r0]"));
    }
    assert(out@ =~= prefetch_lines(loop_var@, config@, target_arch@, shift));
    out.into_vec()
}

} // verus!
