//! The physical layout of packages and the files that describe it.

use vstd::hash_map::StringHashMap;
use vstd::prelude::*;
use vstd::utf8::encode_utf8;
use crate::bytes::{le_bytes, push_le, push_utf8};
use crate::cstar::hash::{hash_of, stable_hash};
use crate::cstar::pir::{
    opt_view, Package, PackageEntry, packages_of, Patch, PatchPlan, Repo, RepoConfig,
};
use crate::text::{
    before, begins, byte_len, byte_length, cat3, chars, comes_before, contains, dec, find,
    find_from, hex, joined, lemma_before_total, lemma_before_trans, lemma_found_at,
    lemma_split_nonempty, lines, lines_of, occurs, push_dec, push_hex, slice_text, split, split_on,
    starts_with, strip_ends, strip_left, strip_right, text, TextList, texts, trim, trimmed,
};

verus! {

// ---------------------------------------------------------------------------
// Reading the source
// ---------------------------------------------------------------------------

/// The texts between quotation marks, each from an opening to a closing one.
pub open spec fn quoted(s: Seq<char>) -> Seq<Seq<char>> {
    let p = split(s, '"');
    Seq::new(((p.len() - 1) / 2) as nat, |i: int| p[2 * i + 1])
}

/// The texts between quotation marks.
pub fn extract_quoted(s: &str) -> (r: TextList)
    ensures
        r@ == quoted(s@),
{
    let p = split_on(s, '"');
    let mut out = TextList::new();
    proof {
        lemma_split_nonempty(s@, '"');
    }
    let total: usize = p.len();
    let n: usize = (total - 1) / 2;
    let mut i: usize = 0;
    while i < n
        invariant
            i <= n,
            total == p@.len(),
            total > 0,
            n == (total - 1) / 2,
            p@ == split(s@, '"'),
            out@ == quoted(s@).take(i as int),
        decreases n - i,
    {
        out.push(text(p.get(2 * i + 1)));
        i = i + 1;
        assert(out@ =~= quoted(s@).take(i as int));
    }
    assert(out@ =~= quoted(s@));
    out
}

/// The last one of texts, or else the default.
pub open spec fn last_or(v: Seq<Seq<char>>, default: Seq<char>) -> Seq<char> {
    if v.len() > 0 {
        v.last()
    } else {
        default
    }
}

/// The repository configuration with what a line of the source says.
#[verifier::opaque]
pub open spec fn repo_line(r: Repo, t: Seq<char>) -> Repo {
    let q = quoted(t);
    Repo {
        sources: if occurs(t, "http"@) || occurs(t, "local:"@) {
            r.sources + q
        } else {
            r.sources
        },
        output_header: if occurs(t, "header"@) {
            last_or(q, r.output_header)
        } else {
            r.output_header
        },
        output_map: if occurs(t, "map"@) {
            last_or(q, r.output_map)
        } else {
            r.output_map
        },
        output_binary: if occurs(t, "binary"@) {
            last_or(q, r.output_binary)
        } else {
            r.output_binary
        },
        ..r
    }
}

/// The repository configuration behind the first `k` lines of a source.
pub open spec fn repo_lines(enabled: bool, ls: Seq<Seq<char>>, k: nat) -> Repo
    decreases k,
{
    if k == 0 || k > ls.len() {
        Repo {
            enabled,
            sources: Seq::empty(),
            split_by: "size"@,
            output_header: "flash_layout.h"@,
            output_map: "layout.map"@,
            output_binary: "pkg_index.bin"@,
        }
    } else {
        repo_line(repo_lines(enabled, ls, (k - 1) as nat), trimmed(ls[k - 1]))
    }
}

/// The repository configuration of a source.
pub open spec fn repo_of(source: Seq<char>) -> Repo {
    repo_lines(occurs(source, "@repo"@), lines(source), lines(source).len())
}

/// Reads a line of the source into a repository configuration.
fn read_repo_line(repo: &mut RepoConfig, t: &str)
    ensures
        final(repo)@ == repo_line(old(repo)@, t@),
{
    reveal(repo_line);
    let q = extract_quoted(t);
    if contains(t, "http") || contains(t, "local:") {
        let mut i: usize = 0;
        assert(texts(repo.sources@) =~= texts(old(repo).sources@) + q@.take(0));
        while i < q.len()
            invariant
                i <= q@.len(),
                texts(repo.sources@) == texts(old(repo).sources@) + q@.take(i as int),
                repo.enabled == old(repo).enabled,
                repo.split_by == old(repo).split_by,
                repo.output_header == old(repo).output_header,
                repo.output_map == old(repo).output_map,
                repo.output_binary == old(repo).output_binary,
            decreases q@.len() - i,
        {
            let ghost before = repo.sources@;
            repo.sources.push(text(q.get(i)));
            i = i + 1;
            assert(texts(repo.sources@) =~= texts(before).push(q@[i - 1]));
            assert(texts(repo.sources@) =~= texts(old(repo).sources@) + q@.take(i as int));
        }
        assert(q@.take(i as int) =~= q@);
    }
    if q.len() > 0 {
        let last = q.get(q.len() - 1);
        if contains(t, "header") {
            repo.output_header = text(last);
        }
        if contains(t, "map") {
            repo.output_map = text(last);
        }
        if contains(t, "binary") {
            repo.output_binary = text(last);
        }
    }
}

/// Reads the repository configuration of a source.
pub fn parse_repo_config(source: &str) -> (r: RepoConfig)
    ensures
        r@ == repo_of(source@),
{
    let enabled: bool = contains(source, "@repo");
    let mut repo = RepoConfig {
        enabled,
        sources: Vec::new(),
        split_by: text("size"),
        output_header: text("flash_layout.h"),
        output_map: text("layout.map"),
        output_binary: text("pkg_index.bin"),
    };
    assert(texts(repo.sources@) =~= Seq::<Seq<char>>::empty());
    let ls = lines_of(source);
    let mut k: usize = 0;
    while k < ls.len()
        invariant
            k <= ls@.len(),
            repo@ == repo_lines(enabled, ls@, k as nat),
        decreases ls@.len() - k,
    {
        let t = trim(ls.get(k));
        read_repo_line(&mut repo, t.as_str());
        k = k + 1;
    }
    repo
}

/// What stands behind the first `sep`, up to the next one.
#[verifier::opaque]
pub open spec fn second_piece(s: Seq<char>, sep: Seq<char>) -> Option<Seq<char>> {
    match find_from(s, sep, 0) {
        None => None,
        Some(i) => {
            let rest = s.skip(i + sep.len());
            match find_from(rest, sep, 0) {
                None => Some(rest),
                Some(j) => Some(rest.take(j)),
            }
        },
    }
}

/// What stands behind the first `sep`, up to the next one.
fn piece_behind(s: &str, sep: &str) -> (r: Option<String>)
    ensures
        opt_view(r) == second_piece(s@, sep@),
{
    reveal(second_piece);
    let v: Vec<char> = chars(s);
    let p: Vec<char> = chars(sep);
    let i: usize = match find(&v, &p) {
        None => {
            return None;
        },
        Some(i) => i,
    };
    proof {
        lemma_found_at(s@, sep@, 0);
    }
    let rest = slice_text(&v, i + p.len(), v.len());
    assert(rest@ =~= s@.skip(i + sep@.len()));
    let w: Vec<char> = chars(rest.as_str());
    match find(&w, &p) {
        None => Some(rest),
        Some(j) => {
            proof {
                lemma_found_at(rest@, sep@, 0);
                assert(rest@.subrange(0, j as int) =~= rest@.take(j as int));
            }
            Some(slice_text(&w, 0, j))
        },
    }
}

/// The import that a line of the source is: the package, and the partition
/// that it is put to where the line names one.
#[verifier::opaque]
pub open spec fn import_of(t: Seq<char>) -> Option<(Seq<char>, Option<Seq<char>>)> {
    if begins(t, "import"@) && quoted(t).len() > 0 {
        Some(
            (
                quoted(t)[0],
                match second_piece(t, " to "@) {
                    Some(s) => Some(strip_right(strip_left(trimmed(s), ','), ',')),
                    None => None,
                },
            ),
        )
    } else {
        None
    }
}

/// The imports in the first `k` lines.
pub open spec fn import_lines(ls: Seq<Seq<char>>, k: nat) -> Seq<(Seq<char>, Option<Seq<char>>)>
    decreases k,
{
    if k == 0 || k > ls.len() {
        Seq::empty()
    } else {
        let prev = import_lines(ls, (k - 1) as nat);
        match import_of(trimmed(ls[k - 1])) {
            Some(i) => prev.push(i),
            None => prev,
        }
    }
}

/// The imports of a source.
pub open spec fn imports_of(source: Seq<char>) -> Seq<(Seq<char>, Option<Seq<char>>)> {
    import_lines(lines(source), lines(source).len())
}

/// A list of packages, each with the partition that it is put to.
pub struct ImportList {
    items: Vec<(String, Option<String>)>,
}

spec fn import_view(p: (String, Option<String>)) -> (Seq<char>, Option<Seq<char>>) {
    (p.0@, opt_view(p.1))
}

impl View for ImportList {
    type V = Seq<(Seq<char>, Option<Seq<char>>)>;

    closed spec fn view(&self) -> Seq<(Seq<char>, Option<Seq<char>>)> {
        Seq::new(self.items@.len(), |i: int| import_view(self.items@[i]))
    }
}

impl ImportList {
    /// The empty list.
    pub fn new() -> (r: Self)
        ensures
            r@ == Seq::<(Seq<char>, Option<Seq<char>>)>::empty(),
    {
        let r = ImportList { items: Vec::new() };
        assert(r@ =~= Seq::<(Seq<char>, Option<Seq<char>>)>::empty());
        r
    }

    /// The number of packages.
    pub fn len(&self) -> (n: usize)
        ensures
            n == self@.len(),
    {
        self.items.len()
    }

    /// The name of package `i`.
    pub fn name(&self, i: usize) -> (r: &str)
        requires
            i < self@.len(),
        ensures
            r@ == self@[i as int].0,
    {
        self.items[i].0.as_str()
    }

    /// The partition that package `i` is put to.
    pub fn forced(&self, i: usize) -> (r: Option<String>)
        requires
            i < self@.len(),
        ensures
            opt_view(r) == self@[i as int].1,
    {
        match &self.items[i].1 {
            Some(s) => Some(s.clone()),
            None => None,
        }
    }

    /// Adds a package at the end.
    pub fn push(&mut self, name: String, forced: Option<String>)
        ensures
            final(self)@ == old(self)@.push((name@, opt_view(forced))),
    {
        self.items.push((name, forced));
        assert(self@ =~= old(self)@.push((name@, opt_view(forced))));
    }

    /// Adds a package in front of those whose names come after its own.
    pub fn insert_by_name(&mut self, name: String, forced: Option<String>)
        ensures
            final(self)@ == insert_import(old(self)@, (name@, opt_view(forced))),
    {
        let ghost all = self@;
        let ghost x = (name@, opt_view(forced));
        let mut i: usize = self.items.len();
        assert(all.take(i as int) =~= all);
        assert(insert_import(all.take(i as int), x) + all.skip(i as int) =~= insert_import(all, x));
        while i > 0 && comes_before(name.as_str(), self.items[i - 1].0.as_str())
            invariant
                i <= self@.len(),
                self@ == all,
                self@.len() == self.items@.len(),
                x == (name@, opt_view(forced)),
                insert_import(all.take(i as int), x) + all.skip(i as int) == insert_import(all, x),
            decreases i,
        {
            assert(all.take(i as int).last() == all[i - 1]);
            assert(all.take(i as int).drop_last() =~= all.take(i - 1));
            assert(insert_import(all.take(i - 1), x) + all.skip(i - 1) =~= insert_import(
                all.take(i as int),
                x,
            ) + all.skip(i as int));
            i = i - 1;
        }
        assert(i > 0 ==> all.take(i as int).last() == all[i - 1]);
        assert(insert_import(all.take(i as int), x) == all.take(i as int).push(x));
        self.items.insert(i, (name, forced));
        assert(self@ =~= all.take(i as int).push(x) + all.skip(i as int));
    }
}

/// A list sorted by name with `x` behind all whose names do not come after its
/// own.
pub open spec fn insert_import(
    list: Seq<(Seq<char>, Option<Seq<char>>)>,
    x: (Seq<char>, Option<Seq<char>>),
) -> Seq<(Seq<char>, Option<Seq<char>>)>
    decreases list.len(),
{
    if list.len() > 0 && before(x.0, list.last().0) {
        insert_import(list.drop_last(), x).push(list.last())
    } else {
        list.push(x)
    }
}

/// The list sorted by name; packages of the same name keep their order.
pub open spec fn sorted_imports(list: Seq<(Seq<char>, Option<Seq<char>>)>) -> Seq<
    (Seq<char>, Option<Seq<char>>),
>
    decreases list.len(),
{
    if list.len() == 0 {
        Seq::empty()
    } else {
        insert_import(sorted_imports(list.drop_last()), list.last())
    }
}

/// Reads the imports of a source.
pub fn parse_source_imports(source: &str) -> (r: ImportList)
    ensures
        r@ == imports_of(source@),
{
    let mut out = ImportList::new();
    let ls = lines_of(source);
    let mut k: usize = 0;
    while k < ls.len()
        invariant
            k <= ls@.len(),
            out@ == import_lines(ls@, k as nat),
        decreases ls@.len() - k,
    {
        reveal(import_of);
        let t = trim(ls.get(k));
        if starts_with(t.as_str(), "import") {
            let q = extract_quoted(t.as_str());
            if q.len() > 0 {
                let forced = match piece_behind(t.as_str(), " to ") {
                    Some(s) => {
                        let u = trim(s.as_str());
                        Some(strip_ends(u.as_str(), ',', ','))
                    },
                    None => None,
                };
                out.push(text(q.get(0)), forced);
            }
        }
        k = k + 1;
    }
    out
}

// ---------------------------------------------------------------------------
// Layout
// ---------------------------------------------------------------------------

/// The estimated size of a package.
pub open spec fn package_size(name: Seq<char>) -> u64 {
    512u64.wrapping_add((byte_len(name) as u64).wrapping_mul(257))
}

/// The partition for a package of the given size.
pub open spec fn partition_for(size: u64) -> Seq<char> {
    if size <= 4096 {
        "sram"@
    } else if size <= 32768 {
        "flash_fast"@
    } else if size <= 524288 {
        "flash_normal"@
    } else {
        "flash_archive"@
    }
}

/// The size rounded up to a multiple of 256.
pub open spec fn page_aligned(size: u64) -> u64 {
    ((size.wrapping_add(255) / 256) * 256) as u64
}

/// Where the partitions start.
pub open spec fn partition_starts() -> Map<Seq<char>, u64> {
    Map::empty().insert("sram"@, 0x2000_0000u64).insert("flash_fast"@, 0x0800_2000u64).insert(
        "flash_normal"@,
        0x0801_0000u64,
    ).insert("flash_archive"@, 0x0810_0000u64)
}

/// The layout so far: where each partition goes on, and the packages placed.
pub struct Layout {
    pub cursors: Map<Seq<char>, u64>,
    pub placed: Seq<Package>,
}

/// The partition of a package.
pub open spec fn partition_of(item: (Seq<char>, Option<Seq<char>>)) -> Seq<char> {
    match item.1 {
        Some(p) => p,
        None => partition_for(package_size(item.0)),
    }
}

/// Where a partition goes on.
pub open spec fn cursor(l: Layout, partition: Seq<char>) -> u64 {
    if l.cursors.contains_key(partition) {
        l.cursors[partition]
    } else {
        0x0800_0000
    }
}

/// The layout with one more package.
pub open spec fn place_package(l: Layout, item: (Seq<char>, Option<Seq<char>>)) -> Layout {
    let size = package_size(item.0);
    let partition = partition_of(item);
    let offset = cursor(l, partition);
    Layout {
        cursors: l.cursors.insert(partition, offset.wrapping_add(page_aligned(size))),
        placed: l.placed.push(
            Package {
                name: item.0,
                partition,
                size,
                offset,
                checksum: hash_of(item.0) ^ size,
            },
        ),
    }
}

/// The layout of the first `k` packages.
pub open spec fn layout_of(items: Seq<(Seq<char>, Option<Seq<char>>)>, k: nat) -> Layout
    decreases k,
{
    if k == 0 || k > items.len() {
        Layout { cursors: partition_starts(), placed: Seq::empty() }
    } else {
        place_package(layout_of(items, (k - 1) as nat), items[k - 1])
    }
}

/// The packages to lay out: the imports, or the program itself where it has a
/// repository and no import.
pub open spec fn packages_to_place(imports: Seq<(Seq<char>, Option<Seq<char>>)>, enabled: bool) -> Seq<
    (Seq<char>, Option<Seq<char>>),
> {
    if imports.len() == 0 && enabled {
        seq![("self"@, None)]
    } else {
        sorted_imports(imports)
    }
}

/// The packages with their places.
pub open spec fn package_layout(imports: Seq<(Seq<char>, Option<Seq<char>>)>, enabled: bool) -> Seq<
    Package,
> {
    let items = packages_to_place(imports, enabled);
    layout_of(items, items.len()).placed
}

/// No package comes before an earlier one.
pub open spec fn name_ordered(s: Seq<(Seq<char>, Option<Seq<char>>)>) -> bool {
    forall|i: int, j: int|
        0 <= i < j < s.len() ==> !before((#[trigger] s[j]).0, (#[trigger] s[i]).0)
}

/// Insertion keeps the order and adds the package.
proof fn lemma_insert_import(
    s: Seq<(Seq<char>, Option<Seq<char>>)>,
    x: (Seq<char>, Option<Seq<char>>),
)
    requires
        name_ordered(s),
    ensures
        name_ordered(insert_import(s, x)),
        insert_import(s, x).to_multiset() == s.to_multiset().insert(x),
        insert_import(s, x).len() == s.len() + 1,
        forall|i: int|
            0 <= i <= s.len() ==> (#[trigger] insert_import(s, x)[i]) == x || s.contains(
                insert_import(s, x)[i],
            ),
    decreases s.len(),
{
    broadcast use vstd::seq_lib::group_to_multiset_ensures;

    let r = insert_import(s, x);
    if s.len() > 0 && before(x.0, s.last().0) {
        let p = s.drop_last();
        lemma_insert_import(p, x);
        assert(p.push(s.last()) =~= s);
        let q = insert_import(p, x);
        assert forall|i: int| 0 <= i <= s.len() implies (#[trigger] r[i]) == x || s.contains(
            r[i],
        ) by {
            if i < q.len() {
                assert(r[i] == q[i]);
                if q[i] != x {
                    let j = p.index_of(q[i]);
                    assert(s[j] == q[i]);
                }
            } else {
                assert(s[s.len() - 1] == r[i]);
            }
        }
        assert forall|i: int, j: int| 0 <= i < j < r.len() implies !before(
            (#[trigger] r[j]).0,
            (#[trigger] r[i]).0,
        ) by {
            if j == q.len() {
                assert(r[i] == q[i]);
                if q[i] == x {
                    lemma_before_total(x.0, s.last().0);
                } else {
                    let k = p.index_of(q[i]);
                    assert(s[k] == q[i]);
                    assert(!before(s[s.len() - 1].0, s[k].0));
                }
            } else {
                assert(r[i] == q[i] && r[j] == q[j]);
            }
        }
    } else {
        assert forall|i: int| 0 <= i <= s.len() implies (#[trigger] r[i]) == x || s.contains(
            r[i],
        ) by {
            if i < s.len() {
                assert(s[i] == r[i]);
            }
        }
        assert forall|i: int, j: int| 0 <= i < j < r.len() implies !before(
            (#[trigger] r[j]).0,
            (#[trigger] r[i]).0,
        ) by {
            if j == s.len() && i < s.len() - 1 {
                if before(x.0, s[i].0) {
                    lemma_before_total(s[i].0, s.last().0);
                    assert(!before(s[s.len() - 1].0, s[i].0));
                    if s[i].0 != s.last().0 {
                        lemma_before_trans(x.0, s[i].0, s.last().0);
                    }
                }
            }
        }
    }
}

/// Packages are laid out in the order of their names, whatever the order in which
/// the source imports them.
pub proof fn law_packages_are_sorted_by_name(s: Seq<(Seq<char>, Option<Seq<char>>)>)
    ensures
        name_ordered(sorted_imports(s)),
        sorted_imports(s).to_multiset() == s.to_multiset(),
        sorted_imports(s).len() == s.len(),
    decreases s.len(),
{
    broadcast use vstd::seq_lib::group_to_multiset_ensures;

    if s.len() > 0 {
        law_packages_are_sorted_by_name(s.drop_last());
        lemma_insert_import(sorted_imports(s.drop_last()), s.last());
        assert(s.drop_last().push(s.last()) =~= s);
    } else {
        assert(sorted_imports(s) =~= s);
    }
}

/// The size of a package rounded up to a multiple of 256.
pub open spec fn pages(size: u64) -> nat {
    ((size + 255) / 256 * 256) as nat
}

/// What the first `k` packages take, rounded up.
pub open spec fn page_sum(items: Seq<(Seq<char>, Option<Seq<char>>)>, k: nat) -> nat
    decreases k,
{
    if k == 0 || k > items.len() {
        0
    } else {
        page_sum(items, (k - 1) as nat) + pages(package_size(items[k - 1].0))
    }
}

/// Where the layout stands: every partition goes on behind its packages, at a
/// multiple of 256.
spec fn placed_well(l: Layout, used: nat) -> bool {
    let a = l.placed;
    &&& forall|n: Seq<char>| #[trigger]
        l.cursors.contains_key(n) ==> l.cursors[n] <= 0x2000_0000 + used && l.cursors[n] % 256 == 0
    &&& forall|i: int|
        0 <= i < a.len() ==> {
            &&& (#[trigger] a[i]).offset % 256 == 0
            &&& l.cursors.contains_key(a[i].partition)
            &&& a[i].offset + a[i].size <= l.cursors[a[i].partition]
        }
    &&& forall|i: int, j: int|
        0 <= i < j < a.len() && (#[trigger] a[i]).partition == (#[trigger] a[j]).partition
            ==> a[i].offset + a[i].size <= a[j].offset
}

/// One more package keeps the layout.
proof fn lemma_place_package(l: Layout, item: (Seq<char>, Option<Seq<char>>), used: nat)
    requires
        placed_well(l, used),
        0x2000_0000 + used + pages(package_size(item.0)) <= u64::MAX,
    ensures
        placed_well(place_package(l, item), used + pages(package_size(item.0))),
{
    let size = package_size(item.0);
    let partition = partition_of(item);
    let offset = cursor(l, partition);
    assert(page_aligned(size) == pages(size) && size <= pages(size));
    assert(pages(size) % 256 == 0);
    let q = place_package(l, item);
    assert(q.placed[l.placed.len() as int].offset == offset);
    assert(offset + page_aligned(size) <= 0x2000_0000 + used + pages(size));
    assert forall|i: int| 0 <= i < l.placed.len() implies (#[trigger] q.placed[i])
        == l.placed[i] by {}
}

/// The layout keeps packages apart.
proof fn lemma_layout(items: Seq<(Seq<char>, Option<Seq<char>>)>, k: nat)
    requires
        k <= items.len(),
        0x2000_0000 + page_sum(items, k) <= u64::MAX,
    ensures
        placed_well(layout_of(items, k), page_sum(items, k)),
    decreases k,
{
    if k > 0 {
        lemma_layout(items, (k - 1) as nat);
        lemma_place_package(
            layout_of(items, (k - 1) as nat),
            items[k - 1],
            page_sum(items, (k - 1) as nat),
        );
    }
}

/// Packages start at multiples of 256, and no two packages of a partition
/// overlap.
pub proof fn law_packages_of_a_partition_do_not_overlap(
    imports: Seq<(Seq<char>, Option<Seq<char>>)>,
    enabled: bool,
)
    requires
        0x2000_0000 + page_sum(
            packages_to_place(imports, enabled),
            packages_to_place(imports, enabled).len(),
        ) <= u64::MAX,
    ensures
        ({
            let a = package_layout(imports, enabled);
            &&& forall|i: int| 0 <= i < a.len() ==> (#[trigger] a[i]).offset % 256 == 0
            &&& forall|i: int, j: int|
                0 <= i < j < a.len() && (#[trigger] a[i]).partition == (#[trigger] a[j]).partition
                    ==> a[i].offset + a[i].size <= a[j].offset
        }),
{
    let items = packages_to_place(imports, enabled);
    lemma_layout(items, items.len());
}

/// The estimated size of a package.
pub fn estimate_package_size(name: &str) -> (r: u64)
    ensures
        r == package_size(name@),
{
    512u64.wrapping_add((byte_length(name) as u64).wrapping_mul(257))
}

/// The partition for a package of the given size.
pub fn classify_package(size: u64) -> (r: String)
    ensures
        r@ == partition_for(size),
{
    text(
        if size <= 4096 {
            "sram"
        } else if size <= 32768 {
            "flash_fast"
        } else if size <= 524288 {
            "flash_normal"
        } else {
            "flash_archive"
        },
    )
}

/// The packages to lay out.
fn collect_packages(imports: &ImportList, enabled: bool) -> (r: ImportList)
    ensures
        r@ == packages_to_place(imports@, enabled),
{
    let mut out = ImportList::new();
    if imports.len() == 0 && enabled {
        let none: Option<String> = None;
        out.push(text("self"), none);
        assert(out@ =~= packages_to_place(imports@, enabled));
        return out;
    }
    let mut i: usize = 0;
    assert(imports@.take(0) =~= Seq::<(Seq<char>, Option<Seq<char>>)>::empty());
    while i < imports.len()
        invariant
            i <= imports@.len(),
            out@ == sorted_imports(imports@.take(i as int)),
        decreases imports@.len() - i,
    {
        assert(imports@.take(i + 1).drop_last() =~= imports@.take(i as int));
        out.insert_by_name(text(imports.name(i)), imports.forced(i));
        i = i + 1;
    }
    assert(imports@.take(i as int) =~= imports@);
    out
}

/// Lays the packages out.
pub fn build_package_layout(imports: &ImportList, enabled: bool) -> (r: Vec<PackageEntry>)
    ensures
        packages_of(r@) == package_layout(imports@, enabled),
{
    let items = collect_packages(imports, enabled);
    let mut cursors: StringHashMap<u64> = StringHashMap::new();
    cursors.insert(text("sram"), 0x2000_0000);
    cursors.insert(text("flash_fast"), 0x0800_2000);
    cursors.insert(text("flash_normal"), 0x0801_0000);
    cursors.insert(text("flash_archive"), 0x0810_0000);
    let mut out: Vec<PackageEntry> = Vec::new();
    let mut k: usize = 0;
    assert(packages_of(out@) =~= Seq::<Package>::empty());
    while k < items.len()
        invariant
            k <= items@.len(),
            cursors@ == layout_of(items@, k as nat).cursors,
            packages_of(out@) == layout_of(items@, k as nat).placed,
        decreases items@.len() - k,
    {
        let ghost l = layout_of(items@, k as nat);
        let ghost before = packages_of(out@);
        let name = items.name(k);
        let size: u64 = estimate_package_size(name);
        let partition = match items.forced(k) {
            Some(p) => p,
            None => classify_package(size),
        };
        let offset: u64 = match cursors.get(partition.as_str()) {
            Some(o) => *o,
            None => 0x0800_0000,
        };
        let aligned: u64 = (size.wrapping_add(255) / 256) * 256;
        cursors.insert(partition.clone(), offset.wrapping_add(aligned));
        let checksum: u64 = stable_hash(name) ^ size;
        out.push(PackageEntry { name: text(name), partition, size, offset, checksum });
        k = k + 1;
        assert(packages_of(out@) =~= before.push(packages_of(out@).last()));
    }
    out
}

// ---------------------------------------------------------------------------
// Files
// ---------------------------------------------------------------------------

/// The text with the table rows of the first `k` packages.
pub open spec fn header_rows(out: Seq<char>, ps: Seq<Package>, k: nat) -> Seq<char>
    decreases k,
{
    if k == 0 || k > ps.len() {
        out
    } else {
        header_rows(out, ps, (k - 1) as nat) + "  {\""@ + ps[k - 1].name + "\", 0x"@ + hex(ps[k - 1].offset as nat, 0, false) + ", "@ + dec(ps[k - 1].size as nat) + ", 0x"@ + hex(ps[k - 1].checksum as nat, 0, false) + "}, /* "@ + ps[k - 1].partition + " */\n"@
    }
}

/// The C header of a package layout.
pub open spec fn header_text(ps: Seq<Package>) -> Seq<char> {
    header_rows(
        "/* Auto-generated C* package layout. */\nstruct CstarPkgEntry { const char* name; unsigned long long load_addr; unsigned long long size; unsigned long long checksum; };\nstatic const struct CstarPkgEntry CSTAR_PKG_INDEX[] = {\n"@,
        ps,
        ps.len(),
    ) + "};\n"@
}

/// The C header of a package layout.
pub fn emit_package_header(ps: &Vec<PackageEntry>) -> (r: String)
    ensures
        r@ == header_text(packages_of(ps@)),
{
    let mut s = text(
        "/* Auto-generated C* package layout. */\nstruct CstarPkgEntry { const char* name; unsigned long long load_addr; unsigned long long size; unsigned long long checksum; };\nstatic const struct CstarPkgEntry CSTAR_PKG_INDEX[] = {\n",
    );
    let ghost head = s@;
    let mut k: usize = 0;
    while k < ps.len()
        invariant
            k <= ps@.len(),
            s@ == header_rows(head, packages_of(ps@), k as nat),
        decreases ps@.len() - k,
    {
        let p = &ps[k];
        s.append("  {\"");
        s.append(p.name.as_str());
        s.append("\", 0x");
        push_hex(&mut s, p.offset, 0, false);
        s.append(", ");
        push_dec(&mut s, p.size);
        s.append(", 0x");
        push_hex(&mut s, p.checksum, 0, false);
        s.append("}, /* ");
        s.append(p.partition.as_str());
        s.append(" */\n");
        k = k + 1;
    }
    s.append("};\n");
    s
}

/// The text with the map rows of the first `k` packages.
pub open spec fn map_rows(out: Seq<char>, ps: Seq<Package>, k: nat) -> Seq<char>
    decreases k,
{
    if k == 0 || k > ps.len() {
        out
    } else {
        map_rows(out, ps, (k - 1) as nat) + ps[k - 1].name + " 0x"@ + hex(ps[k - 1].offset as nat, 8, false) + " size="@ + dec(ps[k - 1].size as nat) + " checksum=0x"@ + hex(ps[k - 1].checksum as nat, 0, false) + " partition="@ + ps[k - 1].partition + "\n"@
    }
}

/// The map file of a package layout.
pub open spec fn map_text(ps: Seq<Package>) -> Seq<char> {
    map_rows("=== C* Package Layout ===\n"@, ps, ps.len())
}

/// The map file of a package layout.
pub fn emit_layout_map(ps: &Vec<PackageEntry>) -> (r: String)
    ensures
        r@ == map_text(packages_of(ps@)),
{
    let mut s = text("=== C* Package Layout ===\n");
    let ghost head = s@;
    let mut k: usize = 0;
    while k < ps.len()
        invariant
            k <= ps@.len(),
            s@ == map_rows(head, packages_of(ps@), k as nat),
        decreases ps@.len() - k,
    {
        let p = &ps[k];
        s.append(p.name.as_str());
        s.append(" 0x");
        push_hex(&mut s, p.offset, 8, false);
        s.append(" size=");
        push_dec(&mut s, p.size);
        s.append(" checksum=0x");
        push_hex(&mut s, p.checksum, 0, false);
        s.append(" partition=");
        s.append(p.partition.as_str());
        s.append("\n");
        k = k + 1;
    }
    s
}

/// The index record of a package: the length of its name, its name, offset,
/// size and checksum.
pub open spec fn index_record(p: Package) -> Seq<u8> {
    le_bytes(byte_len(p.name) as nat, 4) + encode_utf8(p.name) + le_bytes(p.offset as nat, 8)
        + le_bytes(p.size as nat, 8) + le_bytes(p.checksum as nat, 8)
}

/// The index records of the first `k` packages.
pub open spec fn index_bytes(ps: Seq<Package>, k: nat) -> Seq<u8>
    decreases k,
{
    if k == 0 || k > ps.len() {
        Seq::empty()
    } else {
        index_bytes(ps, (k - 1) as nat) + index_record(ps[k - 1])
    }
}

/// The binary index of a package layout.
pub fn emit_package_index(ps: &Vec<PackageEntry>) -> (r: Vec<u8>)
    ensures
        r@ == index_bytes(packages_of(ps@), ps@.len()),
{
    let mut out: Vec<u8> = Vec::new();
    let mut k: usize = 0;
    while k < ps.len()
        invariant
            k <= ps@.len(),
            out@ == index_bytes(packages_of(ps@), k as nat),
        decreases ps@.len() - k,
    {
        let ghost before = out@;
        let p = &ps[k];
        push_le(&mut out, byte_length(p.name.as_str()) as u64, 4);
        push_utf8(&mut out, p.name.as_str());
        push_le(&mut out, p.offset, 8);
        push_le(&mut out, p.size, 8);
        push_le(&mut out, p.checksum, 8);
        assert(out@ =~= before + index_record(p@));
        k = k + 1;
    }
    out
}

/// The first line at or behind `i` that defines the function `name`.
pub open spec fn definition_line(ls: Seq<Seq<char>>, name: Seq<char>, i: int) -> Option<int>
    decreases ls.len() - i,
{
    if i < 0 || i >= ls.len() {
        None
    } else if occurs(ls[i], "@"@ + name + "("@) && begins(ls[i], "define"@) {
        Some(i)
    } else {
        definition_line(ls, name, i + 1)
    }
}

/// The first line at or behind `i` that starts a definition, or the end.
pub open spec fn next_definition(ls: Seq<Seq<char>>, i: int) -> int
    decreases ls.len() - i,
{
    if i < 0 || i >= ls.len() {
        ls.len() as int
    } else if begins(ls[i], "define "@) {
        i
    } else {
        next_definition(ls, i + 1)
    }
}

/// The part of a module that defines a function, or the function's name where
/// the module does not define it.
pub open spec fn function_ir(ir: Seq<char>, name: Seq<char>) -> Seq<char> {
    let ls = lines(ir);
    match definition_line(ls, name, 0) {
        Some(i) => joined(ls.subrange(i, next_definition(ls, i + 1)), "\n"@),
        None => name,
    }
}

/// The part of a module that defines a function.
pub fn extract_function_ir(ir: &str, name: &str) -> (r: String)
    ensures
        r@ == function_ir(ir@, name@),
{
    let ls = lines_of(ir);
    let at_name = cat3("@", name, "(");
    let mut i: usize = 0;
    while i < ls.len() && !(contains(ls.get(i), at_name.as_str()) && starts_with(
        ls.get(i),
        "define",
    ))
        invariant
            i <= ls@.len(),
            at_name@ == "@"@ + name@ + "("@,
            definition_line(ls@, name@, 0) == definition_line(ls@, name@, i as int),
        decreases ls@.len() - i,
    {
        i = i + 1;
    }
    if i >= ls.len() {
        return text(name);
    }
    let mut j: usize = i + 1;
    while j < ls.len() && !starts_with(ls.get(j), "define ")
        invariant
            i < j <= ls@.len(),
            next_definition(ls@, i + 1) == next_definition(ls@, j as int),
        decreases ls@.len() - j,
    {
        j = j + 1;
    }
    let mut part = TextList::new();
    let mut k: usize = i;
    assert(part@ =~= ls@.subrange(i as int, i as int));
    while k < j
        invariant
            i <= k <= j <= ls@.len(),
            part@ == ls@.subrange(i as int, k as int),
        decreases j - k,
    {
        part.push(text(ls.get(k)));
        k = k + 1;
        assert(part@ =~= ls@.subrange(i as int, k as int));
    }
    part.join("\n")
}

/// The text of a patch file.
pub open spec fn patch_text(p: Patch, ir: Seq<char>) -> Seq<char> {
    "CSTAR-PATCH\nfunction="@ + p.function + "\nbase="@ + p.base + "\noutput="@ + p.output + "\nnew_hash=0x"@ + hex(hash_of(function_ir(ir, p.function)) as nat, 0, false) + "\n"@
}

/// The bytes of a patch file.
pub fn emit_patch_bytes(p: &PatchPlan, ir: &str) -> (r: Vec<u8>)
    ensures
        r@ == encode_utf8(patch_text(p@, ir@)),
{
    let part = extract_function_ir(ir, p.function.as_str());
    let h: u64 = stable_hash(part.as_str());
    let mut s = text("CSTAR-PATCH\nfunction=");
    s.append(p.function.as_str());
    s.append("\nbase=");
    s.append(p.base.as_str());
    s.append("\noutput=");
    s.append(p.output.as_str());
    s.append("\nnew_hash=0x");
    push_hex(&mut s, h, 0, false);
    s.append("\n");
    let mut out: Vec<u8> = Vec::new();
    push_utf8(&mut out, s.as_str());
    assert(out@ =~= encode_utf8(patch_text(p@, ir@)));
    out
}

} // verus!
