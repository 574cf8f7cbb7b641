//! `@repo`: partitioning of packages into flash and SRAM.

use vstd::prelude::*;
use crate::ast::{Annotation, AnnotationArg, Expr};
use crate::cstar::advanced::prefetch::{first_plain_piece, first_text};
use crate::cstar::annotations::{is_named, named};
use crate::text::{dec, hex, push_dec, push_hex, text, TextList, texts};

verus! {

/// A package that is to be placed.
#[derive(Debug)]
pub struct PackageSpec {
    pub name: String,
    /// `flash` or `sram`.
    pub target: String,
    pub max_size: u64,
}

/// What a package is.
pub struct Wanted {
    pub name: Seq<char>,
    pub target: Seq<char>,
    pub max_size: u64,
}

impl View for PackageSpec {
    type V = Wanted;

    open spec fn view(&self) -> Wanted {
        Wanted { name: self.name@, target: self.target@, max_size: self.max_size }
    }
}

/// The memory sizes in bytes and the packages to be placed.
#[derive(Debug)]
pub struct RepoConfig {
    pub flash_size: u64,
    pub sram_size: u64,
    pub packages: Vec<PackageSpec>,
}

/// What a configuration is.
pub struct Repository {
    pub flash_size: u64,
    pub sram_size: u64,
    pub packages: Seq<Wanted>,
}

/// What the packages of a list are.
pub open spec fn wanted(v: Seq<PackageSpec>) -> Seq<Wanted> {
    Seq::new(v.len(), |i: int| v[i]@)
}

impl View for RepoConfig {
    type V = Repository;

    open spec fn view(&self) -> Repository {
        Repository {
            flash_size: self.flash_size,
            sram_size: self.sram_size,
            packages: wanted(self.packages@),
        }
    }
}

/// The configuration that stands where nothing is given: 512 KB of flash and
/// 128 KB of SRAM.
pub open spec fn default_repository() -> Repository {
    Repository { flash_size: 524288, sram_size: 131072, packages: Seq::empty() }
}

impl Default for RepoConfig {
    fn default() -> (r: Self)
        ensures
            r@ == default_repository(),
    {
        let r = RepoConfig { flash_size: 524288, sram_size: 131072, packages: Vec::new() };
        assert(r@.packages =~= Seq::<Wanted>::empty());
        r
    }
}

/// The configuration with what an argument says.
pub open spec fn repo_arg(c: Repository, a: AnnotationArg) -> Repository {
    if named(a, "flash_size"@) {
        match a.value {
            Expr::Integer(i) => Repository {
                flash_size: (i.value as u64).wrapping_mul(1024),
                ..c
            },
            _ => c,
        }
    } else if named(a, "sram_size"@) {
        match a.value {
            Expr::Integer(i) => Repository { sram_size: (i.value as u64).wrapping_mul(1024), ..c },
            _ => c,
        }
    } else if named(a, "package"@) {
        match first_text(a.value) {
            Some(name) => Repository {
                packages: c.packages.push(Wanted { name, target: "flash"@, max_size: 0 }),
                ..c
            },
            None => c,
        }
    } else {
        c
    }
}

/// The configuration that the first `k` arguments give.
pub open spec fn repo_args(args: Seq<AnnotationArg>, k: nat) -> Repository
    decreases k,
{
    if k == 0 || k > args.len() {
        default_repository()
    } else {
        repo_arg(repo_args(args, (k - 1) as nat), args[k - 1])
    }
}

/// Reads a `@repo` annotation; sizes are given in kilobytes.
pub fn parse_repo_config(ann: &Annotation) -> (c: RepoConfig)
    ensures
        c@ == repo_args(ann.arguments@, ann.arguments@.len()),
{
    let mut c = RepoConfig::default();
    let args = &ann.arguments;
    let mut k: usize = 0;
    while k < args.len()
        invariant
            args@ == ann.arguments@,
            k <= args@.len(),
            c@ == repo_args(args@, k as nat),
        decreases args@.len() - k,
    {
        let a = &args[k];
        if is_named(a, "flash_size") {
            match &a.value {
                Expr::Integer(i) => {
                    c.flash_size = (i.value as u64).wrapping_mul(1024);
                },
                _ => {},
            }
        } else if is_named(a, "sram_size") {
            match &a.value {
                Expr::Integer(i) => {
                    c.sram_size = (i.value as u64).wrapping_mul(1024);
                },
                _ => {},
            }
        } else if is_named(a, "package") {
            match first_plain_piece(&a.value) {
                Some(name) => {
                    let ghost before = c@.packages;
                    c.packages.push(PackageSpec { name, target: text("flash"), max_size: 0 });
                    assert(c@.packages =~= before.push(c@.packages.last()));
                },
                None => {},
            }
        }
        k = k + 1;
    }
    c
}

/// Where a package is put: its code in flash and its data in SRAM.
#[derive(Debug)]
pub struct PackageAssignment {
    pub name: String,
    pub flash_offset: u64,
    pub sram_offset: u64,
    pub text_size: u64,
    pub data_size: u64,
}

/// What an assignment is.
pub struct Assigned {
    pub name: Seq<char>,
    pub flash_offset: u64,
    pub sram_offset: u64,
    pub text_size: u64,
    pub data_size: u64,
}

impl View for PackageAssignment {
    type V = Assigned;

    open spec fn view(&self) -> Assigned {
        Assigned {
            name: self.name@,
            flash_offset: self.flash_offset,
            sram_offset: self.sram_offset,
            text_size: self.text_size,
            data_size: self.data_size,
        }
    }
}

/// What the assignments of a list are.
pub open spec fn assigned(v: Seq<PackageAssignment>) -> Seq<Assigned> {
    Seq::new(v.len(), |i: int| v[i]@)
}

/// Where packages are put, and how much of each memory they use.
#[derive(Debug)]
pub struct PartitionResult {
    pub assignments: Vec<PackageAssignment>,
    pub flash_total: u64,
    pub sram_total: u64,
    pub flash_capacity: u64,
    pub sram_capacity: u64,
}

/// What a partition is.
pub struct Partition {
    pub assignments: Seq<Assigned>,
    pub flash_total: u64,
    pub sram_total: u64,
    pub flash_capacity: u64,
    pub sram_capacity: u64,
}

impl View for PartitionResult {
    type V = Partition;

    open spec fn view(&self) -> Partition {
        Partition {
            assignments: assigned(self.assignments@),
            flash_total: self.flash_total,
            sram_total: self.sram_total,
            flash_capacity: self.flash_capacity,
            sram_capacity: self.sram_capacity,
        }
    }
}

/// Packages with the sizes of their code and their data.
pub open spec fn sized(v: Seq<(String, u64, u64)>) -> Seq<(Seq<char>, u64, u64)> {
    Seq::new(v.len(), |i: int| (v[i].0@, v[i].1, v[i].2))
}

/// The partition of the first `k` packages.
pub open spec fn partition(c: Repository, ps: Seq<(Seq<char>, u64, u64)>, k: nat) -> Partition
    decreases k,
{
    if k == 0 || k > ps.len() {
        Partition {
            assignments: Seq::empty(),
            flash_total: 0,
            sram_total: 0,
            flash_capacity: c.flash_size,
            sram_capacity: c.sram_size,
        }
    } else {
        let p = partition(c, ps, (k - 1) as nat);
        let (name, text_size, data_size) = ps[k - 1];
        Partition {
            assignments: p.assignments.push(
                Assigned {
                    name,
                    flash_offset: p.flash_total,
                    sram_offset: p.sram_total,
                    text_size,
                    data_size,
                },
            ),
            flash_total: p.flash_total.wrapping_add(text_size),
            sram_total: p.sram_total.wrapping_add(data_size),
            ..p
        }
    }
}

/// Partitions packages: the code goes to flash and the data to SRAM, one behind
/// the other.
pub fn partition_packages(config: &RepoConfig, package_sizes: &Vec<(String, u64, u64)>) -> (r: PartitionResult)
    ensures
        r@ == partition(config@, sized(package_sizes@), package_sizes@.len()),
{
    let mut r = PartitionResult {
        assignments: Vec::new(),
        flash_total: 0,
        sram_total: 0,
        flash_capacity: config.flash_size,
        sram_capacity: config.sram_size,
    };
    let mut k: usize = 0;
    assert(r@.assignments =~= Seq::<Assigned>::empty());
    while k < package_sizes.len()
        invariant
            k <= package_sizes@.len(),
            r@ == partition(config@, sized(package_sizes@), k as nat),
        decreases package_sizes@.len() - k,
    {
        let ghost before = r@.assignments;
        let p = &package_sizes[k];
        let a = PackageAssignment {
            name: p.0.clone(),
            flash_offset: r.flash_total,
            sram_offset: r.sram_total,
            text_size: p.1,
            data_size: p.2,
        };
        r.assignments.push(a);
        assert(r@.assignments =~= before.push(a@));
        r.flash_total = r.flash_total.wrapping_add(p.1);
        r.sram_total = r.sram_total.wrapping_add(p.2);
        k = k + 1;
    }
    r
}

/// The warnings for the first `k` packages: one for each package behind which
/// more of a memory is used than there is.
pub open spec fn overflow_lines(c: Repository, ps: Seq<(Seq<char>, u64, u64)>, k: nat) -> Seq<
    Seq<char>,
>
    decreases k,
{
    if k == 0 || k > ps.len() {
        Seq::empty()
    } else {
        let prev = overflow_lines(c, ps, (k - 1) as nat);
        let p = partition(c, ps, k);
        let w = if p.flash_total > c.flash_size {
            prev.push(
                "[vredrs] warning: Flash overflow! "@ + dec(p.flash_total as nat) + " > "@ + dec(c.flash_size as nat) + " bytes"@,
            )
        } else {
            prev
        };
        if p.sram_total > c.sram_size {
            w.push(
                "[vredrs] warning: SRAM overflow! "@ + dec(p.sram_total as nat) + " > "@ + dec(c.sram_size as nat) + " bytes"@,
            )
        } else {
            w
        }
    }
}

/// The sizes of the code of the first `k` packages, taken together.
pub open spec fn code_sum(ps: Seq<(Seq<char>, u64, u64)>, k: nat) -> nat
    decreases k,
{
    if k == 0 || k > ps.len() {
        0
    } else {
        code_sum(ps, (k - 1) as nat) + ps[k - 1].1 as nat
    }
}

/// The sizes of the data of the first `k` packages, taken together.
pub open spec fn data_sum(ps: Seq<(Seq<char>, u64, u64)>, k: nat) -> nat
    decreases k,
{
    if k == 0 || k > ps.len() {
        0
    } else {
        data_sum(ps, (k - 1) as nat) + ps[k - 1].2 as nat
    }
}

/// The sums grow.
proof fn lemma_sums(ps: Seq<(Seq<char>, u64, u64)>, j: nat, k: nat)
    requires
        j <= k <= ps.len(),
    ensures
        code_sum(ps, j) <= code_sum(ps, k),
        data_sum(ps, j) <= data_sum(ps, k),
    decreases k - j,
{
    if j < k {
        lemma_sums(ps, j, (k - 1) as nat);
    }
}

/// Packages are put one behind the other: each starts where those before it end,
/// the totals are the sums of the sizes, and no two packages overlap in flash or
/// in SRAM.
pub proof fn law_packages_do_not_overlap(c: Repository, ps: Seq<(Seq<char>, u64, u64)>, k: nat)
    requires
        k <= ps.len(),
        code_sum(ps, k) <= u64::MAX,
        data_sum(ps, k) <= u64::MAX,
    ensures
        ({
            let p = partition(c, ps, k);
            let a = p.assignments;
            &&& p.flash_total == code_sum(ps, k) && p.sram_total == data_sum(ps, k)
            &&& a.len() == k
            &&& forall|i: int|
                0 <= i < k ==> {
                    &&& (#[trigger] a[i]).name == ps[i].0
                    &&& a[i].text_size == ps[i].1 && a[i].data_size == ps[i].2
                    &&& a[i].flash_offset == code_sum(ps, i as nat)
                    &&& a[i].sram_offset == data_sum(ps, i as nat)
                    &&& a[i].flash_offset + a[i].text_size <= p.flash_total
                    &&& a[i].sram_offset + a[i].data_size <= p.sram_total
                }
            &&& forall|i: int, j: int|
                0 <= i < j < k ==> {
                    &&& (#[trigger] a[i]).flash_offset + a[i].text_size <= (
                    #[trigger] a[j]).flash_offset
                    &&& a[i].sram_offset + a[i].data_size <= a[j].sram_offset
                }
        }),
    decreases k,
{
    if k > 0 {
        lemma_sums(ps, (k - 1) as nat, k);
        law_packages_do_not_overlap(c, ps, (k - 1) as nat);
        let a = partition(c, ps, k).assignments;
        let q = partition(c, ps, (k - 1) as nat).assignments;
        assert(forall|i: int| 0 <= i < k - 1 ==> (#[trigger] a[i]) == q[i]);
        assert(a[k - 1].flash_offset == code_sum(ps, (k - 1) as nat));
    }
}

/// There is a warning exactly where the packages do not fit into a memory.
pub proof fn law_warnings_mean_overflow(c: Repository, ps: Seq<(Seq<char>, u64, u64)>, k: nat)
    requires
        k <= ps.len(),
        code_sum(ps, k) <= u64::MAX,
        data_sum(ps, k) <= u64::MAX,
    ensures
        overflow_lines(c, ps, k).len() == 0 <==> code_sum(ps, k) <= c.flash_size && data_sum(
            ps,
            k,
        ) <= c.sram_size,
    decreases k,
{
    if k > 0 {
        lemma_sums(ps, (k - 1) as nat, k);
        law_warnings_mean_overflow(c, ps, (k - 1) as nat);
        law_packages_do_not_overlap(c, ps, k);
    }
}

/// The warnings about packages that do not fit.
pub fn overflow_warnings(config: &RepoConfig, package_sizes: &Vec<(String, u64, u64)>) -> (r: Vec<
    String,
>)
    ensures
        texts(r@) == overflow_lines(config@, sized(package_sizes@), package_sizes@.len()),
{
    let mut out = TextList::new();
    let mut flash: u64 = 0;
    let mut sram: u64 = 0;
    let mut k: usize = 0;
    while k < package_sizes.len()
        invariant
            k <= package_sizes@.len(),
            flash == partition(config@, sized(package_sizes@), k as nat).flash_total,
            sram == partition(config@, sized(package_sizes@), k as nat).sram_total,
            out@ == overflow_lines(config@, sized(package_sizes@), k as nat),
        decreases package_sizes@.len() - k,
    {
        flash = flash.wrapping_add(package_sizes[k].1);
        sram = sram.wrapping_add(package_sizes[k].2);
        if flash > config.flash_size {
            let mut s = text("[vredrs] warning: Flash overflow! ");
            push_dec(&mut s, flash);
            s.append(" > ");
            push_dec(&mut s, config.flash_size);
            s.append(" bytes");
            out.push(s);
        }
        if sram > config.sram_size {
            let mut s = text("[vredrs] warning: SRAM overflow! ");
            push_dec(&mut s, sram);
            s.append(" > ");
            push_dec(&mut s, config.sram_size);
            s.append(" bytes");
            out.push(s);
        }
        k = k + 1;
    }
    out.into_vec()
}

/// The text with the sections of the first `k` packages.
pub open spec fn section_lines(out: Seq<char>, s: Seq<Assigned>, k: nat) -> Seq<char>
    decreases k,
{
    if k == 0 || k > s.len() {
        out
    } else {
        let n = s[k - 1].name;
        section_lines(out, s, (k - 1) as nat) + "    .text."@ + n + " : {\n        KEEP(*(.text."@ + n + "))\n    } > FLASH\n\n    .data."@ + n + " : {\n        KEEP(*(.data."@ + n + "))\n    } > SRAM\n\n"@
    }
}

/// The text with the index entries of the first `k` packages.
pub open spec fn entry_lines(out: Seq<char>, s: Seq<Assigned>, k: nat) -> Seq<char>
    decreases k,
{
    if k == 0 || k > s.len() {
        out
    } else {
        let a = s[k - 1];
        entry_lines(out, s, (k - 1) as nat) + "/* pkg: "@ + a.name + " flash=0x"@ + hex(a.flash_offset as nat, 8, false) + " sram=0x"@ + hex(a.sram_offset as nat, 8, false) + " text="@ + dec(a.text_size as nat) + " data="@ + dec(a.data_size as nat) + " */\n"@
    }
}

/// The head of a linker script; the shares of the memories in use are given as
/// percentages.
#[verifier::opaque]
pub open spec fn script_head(p: Partition, flash_share: Seq<char>, sram_share: Seq<char>) -> Seq<char> {
    "/* Vredrs @repo partitioned linker script */\n/* Flash: "@ + dec(p.flash_total as nat) + "/"@ + dec(p.flash_capacity as nat) + " bytes used ("@ + flash_share + "%) */\n/* SRAM: "@ + dec(p.sram_total as nat) + "/"@ + dec(p.sram_capacity as nat) + " bytes used ("@ + sram_share + "%) */\n\nMEMORY {\n    FLASH (rx) : ORIGIN = 0x08000000, LENGTH = "@ + dec((p.flash_capacity / 1024) as nat) + "K\n    SRAM (rwx) : ORIGIN = 0x20000000, LENGTH = "@ + dec((p.sram_capacity / 1024) as nat) + "K\n}\n\nSECTIONS {\n"@
}

/// The linker script of a partition.
pub open spec fn script_text(p: Partition, flash_share: Seq<char>, sram_share: Seq<char>) -> Seq<char> {
    let o = section_lines(
        script_head(p, flash_share, sram_share),
        p.assignments,
        p.assignments.len(),
    );
    entry_lines(
        o
            + "    .pkg_index : {\n        KEEP(*(.pkg_index))\n    } > FLASH\n\n}\n\n/* Package Index Table */\n"@,
        p.assignments,
        p.assignments.len(),
    )
}

/// The head of a linker script.
fn script_start(p: &PartitionResult, flash_share: &str, sram_share: &str) -> (r: String)
    ensures
        r@ == script_head(p@, flash_share@, sram_share@),
{
    reveal(script_head);
    let mut s = text("/* Vredrs @repo partitioned linker script */\n/* Flash: ");
    push_dec(&mut s, p.flash_total);
    s.append("/");
    push_dec(&mut s, p.flash_capacity);
    s.append(" bytes used (");
    s.append(flash_share);
    s.append("%) */\n/* SRAM: ");
    push_dec(&mut s, p.sram_total);
    s.append("/");
    push_dec(&mut s, p.sram_capacity);
    s.append(" bytes used (");
    s.append(sram_share);
    s.append("%) */\n\nMEMORY {\n    FLASH (rx) : ORIGIN = 0x08000000, LENGTH = ");
    push_dec(&mut s, p.flash_capacity / 1024);
    s.append("K\n    SRAM (rwx) : ORIGIN = 0x20000000, LENGTH = ");
    push_dec(&mut s, p.sram_capacity / 1024);
    s.append("K\n}\n\nSECTIONS {\n");
    s
}

/// The linker script of a partition.  `flash_share` and `sram_share` are the
/// percentages of the memories in use, as they are to be printed.
pub fn generate_linker_script(result: &PartitionResult, flash_share: &str, sram_share: &str) -> (r: String)
    ensures
        r@ == script_text(result@, flash_share@, sram_share@),
{
    let mut s = script_start(result, flash_share, sram_share);
    let ghost head = s@;
    let a = &result.assignments;
    let mut k: usize = 0;
    while k < a.len()
        invariant
            a@ == result.assignments@,
            k <= a@.len(),
            s@ == section_lines(head, assigned(a@), k as nat),
        decreases a@.len() - k,
    {
        let n = a[k].name.as_str();
        s.append("    .text.");
        s.append(n);
        s.append(" : {\n        KEEP(*(.text.");
        s.append(n);
        s.append("))\n    } > FLASH\n\n    .data.");
        s.append(n);
        s.append(" : {\n        KEEP(*(.data.");
        s.append(n);
        s.append("))\n    } > SRAM\n\n");
        k = k + 1;
    }
    s.append(
        "    .pkg_index : {\n        KEEP(*(.pkg_index))\n    } > FLASH\n\n}\n\n/* Package Index Table */\n",
    );
    let ghost middle = s@;
    let mut j: usize = 0;
    while j < a.len()
        invariant
            a@ == result.assignments@,
            j <= a@.len(),
            s@ == entry_lines(middle, assigned(a@), j as nat),
        decreases a@.len() - j,
    {
        let p = &a[j];
        s.append("/* pkg: ");
        s.append(p.name.as_str());
        s.append(" flash=0x");
        push_hex(&mut s, p.flash_offset, 8, false);
        s.append(" sram=0x");
        push_hex(&mut s, p.sram_offset, 8, false);
        s.append(" text=");
        push_dec(&mut s, p.text_size);
        s.append(" data=");
        push_dec(&mut s, p.data_size);
        s.append(" */\n");
        j = j + 1;
    }
    s
}

} // verus!
