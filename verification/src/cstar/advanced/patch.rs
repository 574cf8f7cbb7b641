//! `@patch`: symbol maps and differential patches.

use vstd::prelude::*;
use crate::ast::{Program, TopLevel};
use crate::text::{
    at_line_start, chars, dec, hex, is_space, law_decimals_read_back, lemma_lines_append,
    lemma_lines_empty, lemma_trimmed, lemma_words_append, lemma_words_space, lines, lines_of,
    parse_u64, parse_unsigned, push_dec, push_hex, same, spaceless, strip_cr, text, trim,
    trim_right, trimmed, words, words_of,
};

verus! {

// ---------------------------------------------------------------------------
// Symbol maps
// ---------------------------------------------------------------------------

/// Where a symbol is.
#[derive(Debug)]
pub struct SymMapEntry {
    pub section: String,
    pub offset: u64,
    pub size: u64,
}

/// What an entry is.
pub struct Located {
    pub section: Seq<char>,
    pub offset: u64,
    pub size: u64,
}

impl View for SymMapEntry {
    type V = Located;

    open spec fn view(&self) -> Located {
        Located { section: self.section@, offset: self.offset, size: self.size }
    }
}

/// A symbol map: the symbols with their entries, each symbol once, in the order
/// of their first definition.
#[derive(Debug)]
pub struct SymMap {
    pub symbols: Vec<(String, SymMapEntry)>,
    pub version: String,
}

/// What a symbol map is.
pub struct Symbols {
    pub items: Seq<(Seq<char>, Located)>,
    pub version: Seq<char>,
}

/// What the symbols of a list are.
pub open spec fn located(v: Seq<(String, SymMapEntry)>) -> Seq<(Seq<char>, Located)> {
    Seq::new(v.len(), |i: int| (v[i].0@, v[i].1@))
}

impl View for SymMap {
    type V = Symbols;

    open spec fn view(&self) -> Symbols {
        Symbols { items: located(self.symbols@), version: self.version@ }
    }
}

/// The position of the symbol `n`, at or behind `i`.
pub open spec fn symbol_position(s: Seq<(Seq<char>, Located)>, n: Seq<char>, i: int) -> Option<int>
    decreases s.len() - i,
{
    if i < 0 || i >= s.len() {
        None
    } else if s[i].0 == n {
        Some(i)
    } else {
        symbol_position(s, n, i + 1)
    }
}

/// The symbols with `n` set to `e`.
pub open spec fn with_symbol(s: Seq<(Seq<char>, Located)>, n: Seq<char>, e: Located) -> Seq<
    (Seq<char>, Located),
> {
    match symbol_position(s, n, 0) {
        Some(i) => s.update(i, (n, e)),
        None => s.push((n, e)),
    }
}

/// The estimated size of a function of `n` statements.
pub open spec fn estimated_size(n: nat) -> u64 {
    ((n as u64).wrapping_mul(16)).wrapping_add(32)
}

/// The symbols of the functions among the first `k` declarations, and where the
/// next function goes.
pub open spec fn program_symbols(ds: Seq<TopLevel>, k: nat) -> (Seq<(Seq<char>, Located)>, u64)
    decreases k,
{
    if k == 0 || k > ds.len() {
        (Seq::empty(), 0)
    } else {
        let (s, offset) = program_symbols(ds, (k - 1) as nat);
        match ds[k - 1] {
            TopLevel::FnDef(f) => {
                let size = estimated_size(f.body@.len());
                (
                    with_symbol(
                        s,
                        f.name.name@,
                        Located { section: ".text"@, offset, size },
                    ),
                    offset.wrapping_add(size),
                )
            },
            _ => (s, offset),
        }
    }
}

/// A list sorted by offset with `x` behind all whose offsets are not greater.
pub open spec fn insert_located(s: Seq<(Seq<char>, Located)>, x: (Seq<char>, Located)) -> Seq<
    (Seq<char>, Located),
>
    decreases s.len(),
{
    if s.len() > 0 && x.1.offset < s.last().1.offset {
        insert_located(s.drop_last(), x).push(s.last())
    } else {
        s.push(x)
    }
}

/// The symbols sorted by offset; those of the same offset keep their order.
pub open spec fn by_offset(s: Seq<(Seq<char>, Located)>) -> Seq<(Seq<char>, Located)>
    decreases s.len(),
{
    if s.len() == 0 {
        Seq::empty()
    } else {
        insert_located(by_offset(s.drop_last()), s.last())
    }
}

/// A line of a symbol map file.
pub open spec fn symbol_line(x: (Seq<char>, Located)) -> Seq<char> {
    x.0 + " "@ + x.1.section + " "@ + dec(x.1.offset as nat) + " "@ + dec(x.1.size as nat) + "\n"@
}

/// The text with the lines of the first `k` symbols.
pub open spec fn symbol_lines(out: Seq<char>, s: Seq<(Seq<char>, Located)>, k: nat) -> Seq<char>
    decreases k,
{
    if k == 0 || k > s.len() {
        out
    } else {
        symbol_lines(out, s, (k - 1) as nat) + symbol_line(s[k - 1])
    }
}

/// The head of a symbol map file.
pub open spec fn file_head(version: Seq<char>) -> Seq<char> {
    "# Vredrs symbol map v"@ + version + "\n# name section offset size\n"@
}

/// A symbol map file.
pub open spec fn file_text(m: Symbols) -> Seq<char> {
    let s = by_offset(m.items);
    symbol_lines(file_head(m.version), s, s.len())
}

/// The number in decimal digits that `w` is; zero where it is none.
pub open spec fn word_number(w: Seq<char>) -> u64 {
    match parse_unsigned(w, 10) {
        Some(n) => n,
        None => 0,
    }
}

/// The symbols with the one that a line gives.
#[verifier::opaque]
pub open spec fn with_line(s: Seq<(Seq<char>, Located)>, line: Seq<char>) -> Seq<
    (Seq<char>, Located),
> {
    let t = trimmed(line);
    let w = words(t);
    if t.len() == 0 || t[0] == '#' || w.len() < 4 {
        s
    } else {
        with_symbol(
            s,
            w[0],
            Located { section: w[1], offset: word_number(w[2]), size: word_number(w[3]) },
        )
    }
}

/// The symbols that the first `k` lines give.
pub open spec fn with_lines(s: Seq<(Seq<char>, Located)>, ls: Seq<Seq<char>>, k: nat) -> Seq<
    (Seq<char>, Located),
>
    decreases k,
{
    if k == 0 || k > ls.len() {
        s
    } else {
        with_line(with_lines(s, ls, (k - 1) as nat), ls[k - 1])
    }
}

/// The symbols of a symbol map file.
pub open spec fn file_symbols(content: Seq<char>) -> Seq<(Seq<char>, Located)> {
    with_lines(Seq::empty(), lines(content), lines(content).len())
}

/// A copy of an entry.
fn copy_entry(e: &SymMapEntry) -> (r: SymMapEntry)
    ensures
        r@ == e@,
{
    SymMapEntry { section: e.section.clone(), offset: e.offset, size: e.size }
}

/// The number in decimal digits that a word is.
fn parse_word_number(w: &str) -> (r: u64)
    ensures
        r == word_number(w@),
{
    match parse_u64(w, 10) {
        Some(n) => n,
        None => 0,
    }
}

impl SymMap {
    /// A map without symbols.
    pub fn new() -> (r: Self)
        ensures
            r@ == (Symbols { items: Seq::empty(), version: "0.0.0"@ }),
    {
        let r = SymMap { symbols: Vec::new(), version: text("0.0.0") };
        assert(r@.items =~= Seq::<(Seq<char>, Located)>::empty());
        r
    }

    /// The position of a symbol.
    pub fn position(&self, n: &str) -> (r: Option<usize>)
        ensures
            match r {
                Some(i) => symbol_position(self@.items, n@, 0) == Some(i as int) && i
                    < self.symbols@.len(),
                None => symbol_position(self@.items, n@, 0) is None,
            },
    {
        let mut i: usize = 0;
        while i < self.symbols.len()
            invariant
                i <= self.symbols@.len(),
                symbol_position(self@.items, n@, 0) == symbol_position(self@.items, n@, i as int),
            decreases self.symbols@.len() - i,
        {
            if same(self.symbols[i].0.as_str(), n) {
                return Some(i);
            }
            i = i + 1;
        }
        None
    }

    /// Sets a symbol.
    pub fn insert(&mut self, n: &str, e: SymMapEntry)
        ensures
            final(self)@ == (Symbols {
                items: with_symbol(old(self)@.items, n@, e@),
                ..old(self)@
            }),
    {
        match self.position(n) {
            Some(i) => {
                self.symbols.set(i, (text(n), e));
            },
            None => {
                self.symbols.push((text(n), e));
            },
        }
        assert(self@.items =~= with_symbol(old(self)@.items, n@, e@));
    }

    /// The symbol map of the functions of a program.
    pub fn from_program(program: &Program, version: &str) -> (r: Self)
        ensures
            r@ == (Symbols {
                items: program_symbols(program.declarations@, program.declarations@.len()).0,
                version: version@,
            }),
    {
        let mut map = SymMap::new();
        map.version = text(version);
        let mut offset: u64 = 0;
        let ds = &program.declarations;
        let mut k: usize = 0;
        while k < ds.len()
            invariant
                ds@ == program.declarations@,
                k <= ds@.len(),
                map@.version == version@,
                (map@.items, offset) == program_symbols(ds@, k as nat),
            decreases ds@.len() - k,
        {
            match &ds[k] {
                TopLevel::FnDef(f) => {
                    let size: u64 = ((f.body.len() as u64).wrapping_mul(16)).wrapping_add(32);
                    map.insert(
                        f.name.name.as_str(),
                        SymMapEntry { section: text(".text"), offset, size },
                    );
                    offset = offset.wrapping_add(size);
                },
                _ => {},
            }
            k = k + 1;
        }
        map
    }

    /// The symbols sorted by offset.
    fn sorted(&self) -> (r: Vec<(String, SymMapEntry)>)
        ensures
            located(r@) == by_offset(self@.items),
    {
        let mut out: Vec<(String, SymMapEntry)> = Vec::new();
        let mut i: usize = 0;
        let ghost all = self@.items;
        assert(all.take(0) =~= Seq::<(Seq<char>, Located)>::empty());
        assert(located(out@) =~= Seq::<(Seq<char>, Located)>::empty());
        while i < self.symbols.len()
            invariant
                i <= self.symbols@.len(),
                all == self@.items,
                located(out@) == by_offset(all.take(i as int)),
            decreases self.symbols@.len() - i,
        {
            assert(all.take(i + 1).drop_last() =~= all.take(i as int));
            let e = &self.symbols[i];
            insert_by_offset(&mut out, e.0.clone(), copy_entry(&e.1));
            i = i + 1;
        }
        assert(all.take(i as int) =~= all);
        out
    }

    /// Writes a symbol map file.
    pub fn to_file(&self) -> (r: String)
        ensures
            r@ == file_text(self@),
    {
        let s = self.sorted();
        let mut file = text("# Vredrs symbol map v");
        file.append(self.version.as_str());
        file.append("\n# name section offset size\n");
        let ghost head = file@;
        let mut k: usize = 0;
        while k < s.len()
            invariant
                k <= s@.len(),
                file@ == symbol_lines(head, located(s@), k as nat),
            decreases s@.len() - k,
        {
            let ghost before = file@;
            file.append(s[k].0.as_str());
            file.append(" ");
            file.append(s[k].1.section.as_str());
            file.append(" ");
            push_dec(&mut file, s[k].1.offset);
            file.append(" ");
            push_dec(&mut file, s[k].1.size);
            file.append("\n");
            assert(file@ =~= before + symbol_line(located(s@)[k as int]));
            k = k + 1;
        }
        file
    }

    /// Reads a symbol map file.
    pub fn from_file(content: &str) -> (r: Self)
        ensures
            r@ == (Symbols { items: file_symbols(content@), version: "0.0.0"@ }),
    {
        let mut map = SymMap::new();
        let ls = lines_of(content);
        let mut k: usize = 0;
        while k < ls.len()
            invariant
                k <= ls@.len(),
                map@ == (Symbols {
                    items: with_lines(Seq::empty(), ls@, k as nat),
                    version: "0.0.0"@,
                }),
            decreases ls@.len() - k,
        {
            reveal(with_line);
            let t = trim(ls.get(k));
            let w = words_of(t.as_str());
            let cs: Vec<char> = chars(t.as_str());
            if cs.len() > 0 && cs[0] != '#' && w.len() >= 4 {
                let offset: u64 = parse_word_number(w.get(2));
                let size: u64 = parse_word_number(w.get(3));
                map.insert(w.get(0), SymMapEntry { section: text(w.get(1)), offset, size });
            }
            k = k + 1;
        }
        map
    }
}

/// Adds a symbol behind all whose offsets are not greater.
fn insert_by_offset(out: &mut Vec<(String, SymMapEntry)>, n: String, e: SymMapEntry)
    ensures
        located(final(out)@) == insert_located(located(old(out)@), (n@, e@)),
{
    let ghost all = located(out@);
    let ghost x = (n@, e@);
    let mut i: usize = out.len();
    assert(all.take(i as int) =~= all);
    assert(insert_located(all.take(i as int), x) + all.skip(i as int) =~= insert_located(all, x));
    while i > 0 && e.offset < out[i - 1].1.offset
        invariant
            i <= out@.len(),
            out@ == old(out)@,
            all == located(out@),
            x == (n@, e@),
            insert_located(all.take(i as int), x) + all.skip(i as int) == insert_located(all, x),
        decreases i,
    {
        assert(all.take(i as int).last() == all[i - 1]);
        assert(all.take(i as int).drop_last() =~= all.take(i - 1));
        assert(insert_located(all.take(i - 1), x) + all.skip(i - 1) =~= insert_located(
            all.take(i as int),
            x,
        ) + all.skip(i as int));
        i = i - 1;
    }
    assert(i > 0 ==> all.take(i as int).last() == all[i - 1]);
    assert(insert_located(all.take(i as int), x) == all.take(i as int).push(x));
    out.insert(i, (n, e));
    assert(located(out@) =~= all.take(i as int).push(x) + all.skip(i as int));
}

// ---------------------------------------------------------------------------
// Symbol map files read back
// ---------------------------------------------------------------------------

/// A symbol can stand in a symbol map file: its name and its section are words,
/// and the name does not begin a comment.
pub open spec fn writable(x: (Seq<char>, Located)) -> bool {
    &&& x.0.len() > 0 && spaceless(x.0) && x.0[0] != '#'
    &&& x.1.section.len() > 0 && spaceless(x.1.section)
}

/// No symbol occurs twice.
pub open spec fn once_each(s: Seq<(Seq<char>, Located)>) -> bool {
    forall|i: int, j: int| 0 <= i < j < s.len() ==> (#[trigger] s[i]).0 != (#[trigger] s[j]).0
}

/// The symbols are in the order of their offsets.
pub open spec fn ordered(s: Seq<(Seq<char>, Located)>) -> bool {
    forall|i: int, j: int|
        0 <= i < j < s.len() ==> (#[trigger] s[i]).1.offset <= (#[trigger] s[j]).1.offset
}

/// Insertion keeps the order and adds the symbol.
proof fn lemma_insert_in_order(s: Seq<(Seq<char>, Located)>, x: (Seq<char>, Located))
    requires
        ordered(s),
    ensures
        ordered(insert_located(s, x)),
        insert_located(s, x).to_multiset() == s.to_multiset().insert(x),
        insert_located(s, x).len() == s.len() + 1,
    decreases s.len(),
{
    broadcast use vstd::seq_lib::group_to_multiset_ensures;

    let r = insert_located(s, x);
    if s.len() > 0 && x.1.offset < s.last().1.offset {
        let p = s.drop_last();
        lemma_insert_in_order(p, x);
        assert(p.push(s.last()) =~= s);
        let q = insert_located(p, x);
        assert forall|i: int, j: int| 0 <= i < j < r.len() implies (#[trigger] r[i]).1.offset
            <= (#[trigger] r[j]).1.offset by {
            if j == q.len() {
                assert(q.to_multiset().contains(q[i]));
                lemma_member(p, x, q[i]);
            }
        }
    }
}

/// What is in a list with one more symbol.
proof fn lemma_member(
    p: Seq<(Seq<char>, Located)>,
    x: (Seq<char>, Located),
    y: (Seq<char>, Located),
)
    requires
        p.to_multiset().insert(x).contains(y),
    ensures
        y == x || p.contains(y),
{
    broadcast use vstd::seq_lib::group_to_multiset_ensures;

}

/// The symbols of a file are those of the map, in the order of their offsets.
pub proof fn law_files_list_all_symbols_in_order(s: Seq<(Seq<char>, Located)>)
    ensures
        ordered(by_offset(s)),
        by_offset(s).to_multiset() == s.to_multiset(),
        by_offset(s).len() == s.len(),
    decreases s.len(),
{
    broadcast use vstd::seq_lib::group_to_multiset_ensures;

    if s.len() > 0 {
        law_files_list_all_symbols_in_order(s.drop_last());
        lemma_insert_in_order(by_offset(s.drop_last()), s.last());
        assert(s.drop_last().push(s.last()) =~= s);
    } else {
        assert(by_offset(s) =~= s);
    }
}

/// The line of a symbol gives the symbol.
proof fn lemma_with_line(s: Seq<(Seq<char>, Located)>, x: (Seq<char>, Located), line: Seq<char>)
    requires
        writable(x),
        line == x.0 + " "@ + x.1.section + " "@ + dec(x.1.offset as nat) + " "@ + dec(
            x.1.size as nat,
        ),
    ensures
        with_line(s, line) == with_symbol(s, x.0, x.1),
        forall|i: int| 0 <= i < line.len() ==> line[i] != '\n',
        line.len() > 0,
        line.last() != '\r',
{
    reveal(with_line);
    reveal_strlit(" ");
    let a = x.0;
    let b = x.1.section;
    let o = dec(x.1.offset as nat);
    let z = dec(x.1.size as nat);
    law_decimals_read_back(x.1.offset as nat);
    law_decimals_read_back(x.1.size as nat);
    let none = Seq::<char>::empty();
    let l1 = a + " "@;
    let l2 = l1 + b + " "@;
    let l3 = l2 + o + " "@;
    assert(is_space(' '));
    lemma_words_append(none, a);
    assert(none + a =~= a);
    assert(l1 =~= a.push(' '));
    lemma_words_space(a, ' ');
    lemma_words_append(l1, b);
    assert(l2 =~= (l1 + b).push(' '));
    lemma_words_space(l1 + b, ' ');
    lemma_words_append(l2, o);
    assert(l3 =~= (l2 + o).push(' '));
    lemma_words_space(l2 + o, ' ');
    lemma_words_append(l3, z);
    assert(line == l3 + z);
    assert(words(line) =~= seq![a, b, o, z]);
    assert(line[0] == a[0]);
    assert(line.last() == z.last());
    lemma_trimmed(line);
    assert forall|i: int| 0 <= i < line.len() implies line[i] != '\n' by {
        assert(is_space('\n'));
    }
    assert(is_space('\r'));
}

/// A comment gives no symbol.
proof fn lemma_comment_line(s: Seq<(Seq<char>, Located)>, line: Seq<char>)
    requires
        line.len() > 0,
        line[0] == '#',
    ensures
        with_line(s, line) == s,
{
    reveal(with_line);
    lemma_trim_right_keeps(line);
}

/// Trimming at the end keeps a first character that is no white space.
proof fn lemma_trim_right_keeps(s: Seq<char>)
    requires
        s.len() > 0,
        !is_space(s[0]),
    ensures
        trim_right(s).len() > 0,
        trim_right(s)[0] == s[0],
    decreases s.len(),
{
    if is_space(s.last()) {
        lemma_trim_right_keeps(s.drop_last());
    }
}

/// A symbol that is not in a list is added at its end.
proof fn lemma_new_symbol(s: Seq<(Seq<char>, Located)>, n: Seq<char>, i: int)
    requires
        0 <= i,
        forall|k: int| 0 <= k < s.len() ==> (#[trigger] s[k]).0 != n,
    ensures
        symbol_position(s, n, i) is None,
    decreases s.len() - i,
{
    if i < s.len() {
        lemma_new_symbol(s, n, i + 1);
    }
}

/// The lines behind the head of a file give its symbols.
proof fn lemma_symbol_lines(
    head: Seq<char>,
    s: Seq<(Seq<char>, Located)>,
    k: nat,
)
    requires
        at_line_start(head),
        with_lines(Seq::empty(), lines(head), lines(head).len()).len() == 0,
        once_each(s),
        forall|i: int| 0 <= i < s.len() ==> writable(#[trigger] s[i]),
        k <= s.len(),
    ensures
        at_line_start(symbol_lines(head, s, k)),
        file_symbols(symbol_lines(head, s, k)) == s.take(k as int),
    decreases k,
{
    if k == 0 {
        assert(file_symbols(head) =~= s.take(0));
    } else {
        lemma_symbol_lines(head, s, (k - 1) as nat);
        let prev = symbol_lines(head, s, (k - 1) as nat);
        let x = s[k - 1];
        let line = x.0 + " "@ + x.1.section + " "@ + dec(x.1.offset as nat) + " "@ + dec(
            x.1.size as nat,
        );
        lemma_with_line(s.take(k - 1), x, line);
        lemma_lines_append(prev, line);
        assert(symbol_lines(head, s, k) =~= prev + line + "\n"@);
        let ls = lines(prev).push(line);
        lemma_with_lines_prefix(lines(prev), line, lines(prev).len());
        assert(ls.last() == line);
        lemma_new_symbol(s.take(k - 1), x.0, 0);
        assert(s.take(k - 1).push(x) =~= s.take(k as int));
    }
}

/// The symbols of the first lines do not depend on a later line.
proof fn lemma_with_lines_prefix(ls: Seq<Seq<char>>, l: Seq<char>, k: nat)
    requires
        k <= ls.len(),
    ensures
        with_lines(Seq::empty(), ls.push(l), k) == with_lines(Seq::empty(), ls, k),
    decreases k,
{
    if k > 0 {
        lemma_with_lines_prefix(ls, l, (k - 1) as nat);
    }
}

/// The head of a file gives no symbol.
proof fn lemma_file_head(version: Seq<char>)
    requires
        forall|i: int| 0 <= i < version.len() ==> version[i] != '\n',
    ensures
        at_line_start(file_head(version)),
        with_lines(
            Seq::empty(),
            lines(file_head(version)),
            lines(file_head(version)).len(),
        ).len() == 0,
{
    reveal_strlit("# Vredrs symbol map v");
    reveal_strlit("\n# name section offset size\n");
    reveal_strlit("# name section offset size");
    reveal_strlit("\n");
    let none = Seq::<char>::empty();
    let a = "# Vredrs symbol map v"@ + version;
    let b = "# name section offset size"@;
    lemma_lines_empty();
    let c = strip_cr(a);
    lemma_lines_append(none, a);
    let t = none + a + "\n"@;
    lemma_lines_append(t, b);
    assert(t + b + "\n"@ =~= file_head(version));
    let ls = lines(file_head(version));
    assert(ls =~= seq![c, b]);
    lemma_comment_line(Seq::empty(), c);
    lemma_comment_line(Seq::empty(), b);
    reveal_with_fuel(with_lines, 3);
}

/// A symbol map that is written to a file is read back from it: the same
/// symbols, in the order of their offsets.
pub proof fn law_symbol_maps_read_back(m: Symbols)
    requires
        once_each(m.items),
        forall|i: int| 0 <= i < m.items.len() ==> writable(#[trigger] m.items[i]),
        forall|i: int| 0 <= i < m.version.len() ==> m.version[i] != '\n',
    ensures
        file_symbols(file_text(m)) == by_offset(m.items),
        file_symbols(file_text(m)).to_multiset() == m.items.to_multiset(),
{
    broadcast use vstd::seq_lib::group_to_multiset_ensures;

    let s = by_offset(m.items);
    law_files_list_all_symbols_in_order(m.items);
    assert forall|i: int| 0 <= i < s.len() implies writable(#[trigger] s[i]) by {
        assert(s.to_multiset().contains(s[i]));
        assert(m.items.contains(s[i]));
    }
    lemma_once_each(m.items);
    lemma_file_head(m.version);
    lemma_symbol_lines(file_head(m.version), s, s.len());
    assert(s.take(s.len() as int) =~= s);
}

/// Sorting keeps symbols apart.
proof fn lemma_once_each(s: Seq<(Seq<char>, Located)>)
    requires
        once_each(s),
    ensures
        once_each(by_offset(s)),
    decreases s.len(),
{
    if s.len() > 0 {
        let p = s.drop_last();
        lemma_once_each(p);
        law_files_list_all_symbols_in_order(p);
        assert forall|i: int| 0 <= i < by_offset(p).len() implies (#[trigger] by_offset(p)[i]).0
            != s.last().0 by {
            broadcast use vstd::seq_lib::group_to_multiset_ensures;

            assert(by_offset(p).to_multiset().contains(by_offset(p)[i]));
            assert(p.contains(by_offset(p)[i]));
            let j = p.index_of(by_offset(p)[i]);
            assert(s[j] == p[j]);
        }
        lemma_insert_once(by_offset(p), s.last());
    }
}

/// Insertion of a new symbol keeps symbols apart.
proof fn lemma_insert_once(s: Seq<(Seq<char>, Located)>, x: (Seq<char>, Located))
    requires
        once_each(s),
        forall|i: int| 0 <= i < s.len() ==> (#[trigger] s[i]).0 != x.0,
    ensures
        once_each(insert_located(s, x)),
        forall|i: int|
            0 <= i < insert_located(s, x).len() ==> (#[trigger] insert_located(s, x)[i]) == x || s.contains(insert_located(s, x)[i]),
    decreases s.len(),
{
    let r = insert_located(s, x);
    if s.len() > 0 && x.1.offset < s.last().1.offset {
        let p = s.drop_last();
        lemma_insert_once(p, x);
        let q = insert_located(p, x);
        assert forall|i: int| 0 <= i < r.len() implies (#[trigger] r[i]) == x || s.contains(r[i]) by {
            if i < q.len() {
                assert(r[i] == q[i]);
                if q[i] != x {
                    let j = p.index_of(q[i]);
                    assert(s[j] == q[i]);
                }
            } else {
                assert(s[s.len() - 1] == r[i]);
            }
        }
        assert forall|i: int, j: int| 0 <= i < j < r.len() implies (#[trigger] r[i]).0 != (
        #[trigger] r[j]).0 by {
            if j == q.len() {
                assert(r[i] == q[i]);
                if q[i] != x {
                    let k = p.index_of(q[i]);
                    assert(s[k] == q[i]);
                }
            }
        }
    } else {
        assert forall|i: int| 0 <= i < r.len() implies (#[trigger] r[i]) == x || s.contains(r[i]) by {
            if i < s.len() {
                assert(s[i] == r[i]);
            }
        }
    }
}

// ---------------------------------------------------------------------------
// Patches
// ---------------------------------------------------------------------------

/// New content for an address.
#[derive(Debug)]
pub struct PatchEntry {
    pub address: u64,
    pub old_content: Vec<u8>,
    pub new_content: Vec<u8>,
    pub symbol: String,
}

/// What a patch is.
pub struct Change {
    pub address: u64,
    pub old_content: Seq<u8>,
    pub new_content: Seq<u8>,
    pub symbol: Seq<char>,
}

impl View for PatchEntry {
    type V = Change;

    open spec fn view(&self) -> Change {
        Change {
            address: self.address,
            old_content: self.old_content@,
            new_content: self.new_content@,
            symbol: self.symbol@,
        }
    }
}

/// What the patches of a list are.
pub open spec fn changes(v: Seq<PatchEntry>) -> Seq<Change> {
    Seq::new(v.len(), |i: int| v[i]@)
}

/// The content of a symbol in a binary, as far as the binary goes.
pub open spec fn content(bin: Seq<u8>, e: Located) -> Seq<u8> {
    bin.subrange(
        e.offset as int,
        if e.offset + e.size < bin.len() {
            e.offset + e.size
        } else {
            bin.len() as int
        },
    )
}

/// The patch for a symbol of the new map: none where the old binary has the
/// same content under the same name.
pub open spec fn change_of(
    old_items: Seq<(Seq<char>, Located)>,
    x: (Seq<char>, Located),
    old_bin: Seq<u8>,
    new_bin: Seq<u8>,
) -> Option<Change> {
    match symbol_position(old_items, x.0, 0) {
        Some(i) => {
            let before = content(old_bin, old_items[i].1);
            if before == content(new_bin, x.1) {
                None
            } else {
                Some(
                    Change {
                        address: x.1.offset,
                        old_content: before,
                        new_content: content(new_bin, x.1),
                        symbol: x.0,
                    },
                )
            }
        },
        None => Some(
            Change {
                address: x.1.offset,
                old_content: Seq::empty(),
                new_content: content(new_bin, x.1),
                symbol: x.0,
            },
        ),
    }
}

/// The patches for the first `k` symbols of a list.
pub open spec fn changes_of(
    old_items: Seq<(Seq<char>, Located)>,
    s: Seq<(Seq<char>, Located)>,
    old_bin: Seq<u8>,
    new_bin: Seq<u8>,
    k: nat,
) -> Seq<Change>
    decreases k,
{
    if k == 0 || k > s.len() {
        Seq::empty()
    } else {
        let prev = changes_of(old_items, s, old_bin, new_bin, (k - 1) as nat);
        match change_of(old_items, s[k - 1], old_bin, new_bin) {
            Some(c) => prev.push(c),
            None => prev,
        }
    }
}

/// The symbols start within the binaries: each new one, and each old one of the
/// same name.
pub open spec fn symbols_inside(old_map: Symbols, new_map: Symbols, old_bin: Seq<u8>, new_bin: Seq<u8>) -> bool {
    forall|i: int|
        0 <= i < new_map.items.len() ==> {
            &&& (#[trigger] new_map.items[i]).1.offset <= new_bin.len()
            &&& symbol_position(old_map.items, new_map.items[i].0, 0) matches Some(j)
                ==> old_map.items[j].1.offset <= old_bin.len()
        }
}

/// The content of a symbol in a binary.
fn slice_of(bin: &Vec<u8>, e: &SymMapEntry) -> (r: Vec<u8>)
    requires
        e.offset <= bin@.len(),
    ensures
        r@ == content(bin@, e@),
{
    let start: usize = e.offset as usize;
    let limit: u128 = e.offset as u128 + e.size as u128;
    let end: usize = if limit < bin.len() as u128 {
        limit as usize
    } else {
        bin.len()
    };
    let mut out: Vec<u8> = Vec::new();
    let mut i: usize = start;
    assert(out@ =~= bin@.subrange(start as int, i as int));
    while i < end
        invariant
            start <= i <= end <= bin@.len(),
            out@ == bin@.subrange(start as int, i as int),
        decreases end - i,
    {
        out.push(bin[i]);
        i = i + 1;
        assert(out@ =~= bin@.subrange(start as int, i as int));
    }
    out
}

/// Whether two byte strings are the same.
fn same_bytes(a: &Vec<u8>, b: &Vec<u8>) -> (r: bool)
    ensures
        r == (a@ == b@),
{
    if a.len() != b.len() {
        return false;
    }
    let mut i: usize = 0;
    while i < a.len()
        invariant
            i <= a@.len(),
            a@.len() == b@.len(),
            forall|j: int| 0 <= j < i ==> a@[j] == b@[j],
        decreases a@.len() - i,
    {
        if a[i] != b[i] {
            return false;
        }
        i = i + 1;
    }
    assert(a@ =~= b@);
    true
}

/// The symbols of a sorted list are those of the list.
proof fn lemma_by_offset(s: Seq<(Seq<char>, Located)>)
    ensures
        by_offset(s).len() == s.len(),
        forall|i: int| 0 <= i < by_offset(s).len() ==> s.contains(#[trigger] by_offset(s)[i]),
    decreases s.len(),
{
    if s.len() > 0 {
        lemma_by_offset(s.drop_last());
        lemma_insert_located(by_offset(s.drop_last()), s.last());
        let r = by_offset(s);
        assert forall|i: int| 0 <= i < r.len() implies s.contains(#[trigger] r[i]) by {
            if r[i] == s.last() {
                assert(s[s.len() - 1] == r[i]);
            } else {
                let p = by_offset(s.drop_last());
                assert(p.contains(r[i]));
                let j = choose|j: int| 0 <= j < p.len() && p[j] == r[i];
                assert(s.drop_last().contains(p[j]));
                let l = choose|l: int| 0 <= l < s.drop_last().len() && s.drop_last()[l] == r[i];
                assert(s[l] == r[i]);
            }
        }
    }
}

/// Inserting adds one symbol and keeps the others.
proof fn lemma_insert_located(s: Seq<(Seq<char>, Located)>, x: (Seq<char>, Located))
    ensures
        insert_located(s, x).len() == s.len() + 1,
        forall|i: int|
            0 <= i < insert_located(s, x).len() ==> (#[trigger] insert_located(s, x)[i]) == x
                || s.contains(insert_located(s, x)[i]),
    decreases s.len(),
{
    let r = insert_located(s, x);
    if s.len() > 0 && x.1.offset < s.last().1.offset {
        lemma_insert_located(s.drop_last(), x);
        let p = insert_located(s.drop_last(), x);
        assert forall|i: int| 0 <= i < r.len() implies (#[trigger] r[i]) == x || s.contains(
            r[i],
        ) by {
            if i < p.len() {
                assert(r[i] == p[i]);
                if p[i] != x {
                    let l = choose|l: int|
                        0 <= l < s.drop_last().len() && s.drop_last()[l] == p[i];
                    assert(s[l] == p[i]);
                }
            } else {
                assert(s[s.len() - 1] == r[i]);
            }
        }
    } else {
        assert forall|i: int| 0 <= i < r.len() implies (#[trigger] r[i]) == x || s.contains(
            r[i],
        ) by {
            if i < s.len() {
                assert(s[i] == r[i]);
            }
        }
    }
}

/// Where the new binary is the old one under the same map, there is nothing to
/// patch.
pub proof fn law_no_change_no_patch(s: Seq<(Seq<char>, Located)>, bin: Seq<u8>)
    requires
        once_each(s),
    ensures
        changes_of(s, by_offset(s), bin, bin, by_offset(s).len()).len() == 0,
{
    lemma_by_offset(s);
    lemma_nothing_changed(s, by_offset(s), bin, by_offset(s).len());
}

/// A symbol is found where it stands.
proof fn lemma_position_of(s: Seq<(Seq<char>, Located)>, k: int, i: int)
    requires
        once_each(s),
        0 <= i <= k < s.len(),
    ensures
        symbol_position(s, s[k].0, i) == Some(k),
    decreases k - i,
{
    if i < k {
        assert(s[i].0 != s[k].0);
        lemma_position_of(s, k, i + 1);
    }
}

/// Symbols of a map have not changed under the map.
proof fn lemma_nothing_changed(
    s: Seq<(Seq<char>, Located)>,
    q: Seq<(Seq<char>, Located)>,
    bin: Seq<u8>,
    k: nat,
)
    requires
        once_each(s),
        k <= q.len(),
        forall|i: int| 0 <= i < q.len() ==> s.contains(#[trigger] q[i]),
    ensures
        changes_of(s, q, bin, bin, k).len() == 0,
    decreases k,
{
    if k > 0 {
        lemma_nothing_changed(s, q, bin, (k - 1) as nat);
        assert(s.contains(q[k - 1]));
        let j = s.index_of(q[k - 1]);
        lemma_position_of(s, j, 0);
    }
}

/// A binary with new content at an address.
pub open spec fn patched(bin: Seq<u8>, c: Change) -> Seq<u8> {
    Seq::new(
        bin.len(),
        |i: int|
            if c.address <= i < c.address + c.new_content.len() {
                c.new_content[i - c.address]
            } else {
                bin[i]
            },
    )
}

/// A binary with the first `k` patches.
pub open spec fn all_patched(bin: Seq<u8>, cs: Seq<Change>, k: nat) -> Seq<u8>
    decreases k,
{
    if k == 0 || k > cs.len() {
        bin
    } else {
        patched(all_patched(bin, cs, (k - 1) as nat), cs[k - 1])
    }
}

/// No two symbols overlap.
pub open spec fn apart(s: Seq<(Seq<char>, Located)>) -> bool {
    forall|i: int, j: int|
        0 <= i < j < s.len() ==> (#[trigger] s[i]).1.offset + s[i].1.size <= (
        #[trigger] s[j]).1.offset || s[j].1.offset + s[j].1.size <= s[i].1.offset
}

/// The patches bring the new functions: once they are applied to the old binary,
/// every symbol of the new map has its new content, where the symbols lie within
/// the binaries without overlapping and those that are in both maps have kept
/// their places.
pub proof fn law_patches_bring_the_new_functions(
    old_items: Seq<(Seq<char>, Located)>,
    s: Seq<(Seq<char>, Located)>,
    old_bin: Seq<u8>,
    new_bin: Seq<u8>,
)
    requires
        apart(s),
        forall|i: int|
            0 <= i < s.len() ==> {
                &&& (#[trigger] s[i]).1.offset + s[i].1.size <= new_bin.len()
                &&& s[i].1.offset + s[i].1.size <= old_bin.len()
                &&& symbol_position(old_items, s[i].0, 0) matches Some(j)
                    ==> old_items[j].1.offset == s[i].1.offset && old_items[j].1.size
                    == s[i].1.size
            },
    ensures
        ({
            let cs = changes_of(old_items, s, old_bin, new_bin, s.len());
            let r = all_patched(old_bin, cs, cs.len());
            forall|i: int|
                0 <= i < s.len() ==> content(r, (#[trigger] s[i]).1) == content(new_bin, s[i].1)
        }),
{
    lemma_patched(old_items, s, old_bin, new_bin, s.len());
}

/// The first patches of a longer list are those of the list.
proof fn lemma_patched_prefix(bin: Seq<u8>, cs: Seq<Change>, c: Change, k: nat)
    requires
        k <= cs.len(),
    ensures
        all_patched(bin, cs.push(c), k) == all_patched(bin, cs, k),
        all_patched(bin, cs, k).len() == bin.len(),
    decreases k,
{
    if k > 0 {
        lemma_patched_prefix(bin, cs, c, (k - 1) as nat);
        assert(cs.push(c)[k - 1] == cs[k - 1]);
    }
}

/// Behind the patches of the first `k` symbols, those have their new content and
/// the others their old one.
proof fn lemma_patched(
    old_items: Seq<(Seq<char>, Located)>,
    s: Seq<(Seq<char>, Located)>,
    old_bin: Seq<u8>,
    new_bin: Seq<u8>,
    k: nat,
)
    requires
        k <= s.len(),
        apart(s),
        forall|i: int|
            0 <= i < s.len() ==> {
                &&& (#[trigger] s[i]).1.offset + s[i].1.size <= new_bin.len()
                &&& s[i].1.offset + s[i].1.size <= old_bin.len()
                &&& symbol_position(old_items, s[i].0, 0) matches Some(j)
                    ==> old_items[j].1.offset == s[i].1.offset && old_items[j].1.size
                    == s[i].1.size
            },
    ensures
        ({
            let cs = changes_of(old_items, s, old_bin, new_bin, k);
            let r = all_patched(old_bin, cs, cs.len());
            &&& r.len() == old_bin.len()
            &&& forall|i: int|
                0 <= i < k ==> content(r, (#[trigger] s[i]).1) == content(new_bin, s[i].1)
            &&& forall|i: int|
                k <= i < s.len() ==> content(r, (#[trigger] s[i]).1) == content(old_bin, s[i].1)
        }),
    decreases k,
{
    if k > 0 {
        lemma_patched(old_items, s, old_bin, new_bin, (k - 1) as nat);
        let x = s[k - 1];
        let prev = changes_of(old_items, s, old_bin, new_bin, (k - 1) as nat);
        let before = all_patched(old_bin, prev, prev.len());
        match change_of(old_items, x, old_bin, new_bin) {
            Some(c) => {
                lemma_patched_prefix(old_bin, prev, c, prev.len());
                let r = patched(before, c);
                let cs = prev.push(c);
                assert(cs[cs.len() - 1] == c);
                assert(all_patched(old_bin, cs, cs.len()) == r);
                assert(content(r, x.1) =~= content(new_bin, x.1));
                assert forall|i: int| 0 <= i < s.len() && i != k - 1 implies content(
                    r,
                    (#[trigger] s[i]).1,
                ) == content(before, s[i].1) by {
                    let a = s[if i < k - 1 {
                        i
                    } else {
                        k - 1
                    }];
                    let b = s[if i < k - 1 {
                        k - 1
                    } else {
                        i
                    }];
                    assert(a.1.offset + a.1.size <= b.1.offset || b.1.offset + b.1.size
                        <= a.1.offset);
                    assert(content(r, s[i].1) =~= content(before, s[i].1));
                }
            },
            None => {
                assert(content(old_bin, x.1) == content(new_bin, x.1));
            },
        }
    }
}

/// The patches of an ordered list are those of its symbols that differ, in
/// order.
proof fn lemma_changes(
    old_items: Seq<(Seq<char>, Located)>,
    t: Seq<(Seq<char>, Located)>,
    old_bin: Seq<u8>,
    new_bin: Seq<u8>,
    k: nat,
)
    requires
        ordered(t),
        k <= t.len(),
    ensures
        ({
            let cs = changes_of(old_items, t, old_bin, new_bin, k);
            &&& forall|a: int, b: int|
                0 <= a < b < cs.len() ==> (#[trigger] cs[a]).address <= (#[trigger] cs[b]).address
            &&& forall|c: Change| #[trigger]
                cs.contains(c) <==> exists|i: int|
                    0 <= i < k && change_of(old_items, #[trigger] t[i], old_bin, new_bin) == Some(c)
        }),
    decreases k,
{
    let cs = changes_of(old_items, t, old_bin, new_bin, k);
    if k > 0 {
        let prev = changes_of(old_items, t, old_bin, new_bin, (k - 1) as nat);
        lemma_changes(old_items, t, old_bin, new_bin, (k - 1) as nat);
        let last = change_of(old_items, t[k - 1], old_bin, new_bin);
        assert forall|c: Change| #[trigger] cs.contains(c) <==> exists|i: int|
            0 <= i < k && change_of(old_items, #[trigger] t[i], old_bin, new_bin) == Some(c) by {
            if cs.contains(c) {
                let a = cs.index_of(c);
                if a < prev.len() {
                    assert(prev[a] == c);
                    assert(prev.contains(c));
                } else {
                    assert(change_of(old_items, t[k - 1], old_bin, new_bin) == Some(c));
                }
            }
            if exists|i: int|
                0 <= i < k && change_of(old_items, #[trigger] t[i], old_bin, new_bin) == Some(c) {
                let i = choose|i: int|
                    0 <= i < k && change_of(old_items, #[trigger] t[i], old_bin, new_bin) == Some(c);
                if i < k - 1 {
                    assert(prev.contains(c));
                    let a = prev.index_of(c);
                    assert(cs[a] == c);
                } else {
                    assert(cs[cs.len() - 1] == c);
                }
            }
        }
        assert forall|a: int, b: int| 0 <= a < b < cs.len() implies (#[trigger] cs[a]).address <= (
        #[trigger] cs[b]).address by {
            assert(prev[a] == cs[a]);
            if b < prev.len() {
                assert(prev[b] == cs[b]);
            } else {
                assert(prev.contains(cs[a]));
                let i = choose|i: int|
                    0 <= i < k - 1 && change_of(old_items, #[trigger] t[i], old_bin, new_bin)
                        == Some(cs[a]);
                assert(t[i].1.offset <= t[k - 1].1.offset);
            }
        }
    } else {
        assert forall|c: Change| !(#[trigger] cs.contains(c)) by {}
    }
}

/// There is a patch for exactly those symbols of the new map that are not in
/// the old one or have other content there, and the patches come in the order
/// of their addresses.
pub proof fn law_patches_are_of_what_changed(
    old_items: Seq<(Seq<char>, Located)>,
    new_items: Seq<(Seq<char>, Located)>,
    old_bin: Seq<u8>,
    new_bin: Seq<u8>,
)
    ensures
        ({
            let t = by_offset(new_items);
            let cs = changes_of(old_items, t, old_bin, new_bin, t.len());
            &&& forall|a: int, b: int|
                0 <= a < b < cs.len() ==> (#[trigger] cs[a]).address <= (#[trigger] cs[b]).address
            &&& forall|c: Change| #[trigger]
                cs.contains(c) <==> exists|i: int|
                    0 <= i < new_items.len() && change_of(
                        old_items,
                        #[trigger] new_items[i],
                        old_bin,
                        new_bin,
                    ) == Some(c)
        }),
{
    broadcast use vstd::seq_lib::group_to_multiset_ensures;

    let t = by_offset(new_items);
    law_files_list_all_symbols_in_order(new_items);
    lemma_changes(old_items, t, old_bin, new_bin, t.len());
    let cs = changes_of(old_items, t, old_bin, new_bin, t.len());
    assert forall|c: Change| #[trigger] cs.contains(c) <==> exists|i: int|
        0 <= i < new_items.len() && change_of(old_items, #[trigger] new_items[i], old_bin, new_bin)
            == Some(c) by {
        if cs.contains(c) {
            let i = choose|i: int|
                0 <= i < t.len() && change_of(old_items, #[trigger] t[i], old_bin, new_bin) == Some(
                    c,
                );
            assert(t.to_multiset().contains(t[i]));
            assert(new_items.contains(t[i]));
            let j = new_items.index_of(t[i]);
            assert(new_items[j] == t[i]);
        }
        if exists|i: int|
            0 <= i < new_items.len() && change_of(
                old_items,
                #[trigger] new_items[i],
                old_bin,
                new_bin,
            ) == Some(c) {
            let i = choose|i: int|
                0 <= i < new_items.len() && change_of(
                    old_items,
                    #[trigger] new_items[i],
                    old_bin,
                    new_bin,
                ) == Some(c);
            assert(new_items.to_multiset().contains(new_items[i]));
            assert(t.contains(new_items[i]));
            let j = t.index_of(new_items[i]);
            assert(t[j] == new_items[i]);
        }
    }
}

/// The patches that turn the functions of an old binary into those of a new
/// one.
pub fn generate_patch(old_map: &SymMap, new_map: &SymMap, old_bin: &Vec<u8>, new_bin: &Vec<u8>) -> (r: Vec<
    PatchEntry,
>)
    requires
        symbols_inside(old_map@, new_map@, old_bin@, new_bin@),
    ensures
        changes(r@) == changes_of(
            old_map@.items,
            by_offset(new_map@.items),
            old_bin@,
            new_bin@,
            by_offset(new_map@.items).len(),
        ),
{
    let mut out: Vec<PatchEntry> = Vec::new();
    let s = new_map.sorted();
    proof {
        lemma_by_offset(new_map@.items);
    }
    let mut k: usize = 0;
    assert(changes(out@) =~= Seq::<Change>::empty());
    while k < s.len()
        invariant
            k <= s@.len(),
            located(s@) == by_offset(new_map@.items),
            symbols_inside(old_map@, new_map@, old_bin@, new_bin@),
            forall|i: int|
                0 <= i < by_offset(new_map@.items).len() ==> new_map@.items.contains(
                    #[trigger] by_offset(new_map@.items)[i],
                ),
            changes(out@) == changes_of(
                old_map@.items,
                by_offset(new_map@.items),
                old_bin@,
                new_bin@,
                k as nat,
            ),
        decreases s@.len() - k,
    {
        let ghost before = changes(out@);
        let ghost x = by_offset(new_map@.items)[k as int];
        proof {
            assert(located(s@)[k as int] == x);
            assert(new_map@.items.contains(x));
            let i = choose|i: int| 0 <= i < new_map@.items.len() && new_map@.items[i] == x;
            assert(new_map@.items[i].1.offset <= new_bin@.len());
        }
        let fresh = slice_of(new_bin, &s[k].1);
        match old_map.position(s[k].0.as_str()) {
            Some(i) => {
                assert(old_map@.items[i as int] == (
                    old_map.symbols@[i as int].0@,
                    old_map.symbols@[i as int].1@,
                ));
                let stale = slice_of(old_bin, &old_map.symbols[i].1);
                if !same_bytes(&stale, &fresh) {
                    out.push(
                        PatchEntry {
                            address: s[k].1.offset,
                            old_content: stale,
                            new_content: fresh,
                            symbol: s[k].0.clone(),
                        },
                    );
                    assert(changes(out@) =~= before.push(changes(out@).last()));
                }
            },
            None => {
                let nothing: Vec<u8> = Vec::new();
                assert(nothing@ =~= Seq::<u8>::empty());
                out.push(
                    PatchEntry {
                        address: s[k].1.offset,
                        old_content: nothing,
                        new_content: fresh,
                        symbol: s[k].0.clone(),
                    },
                );
                assert(changes(out@) =~= before.push(changes(out@).last()));
            },
        }
        k = k + 1;
    }
    out
}

/// The text with the hexadecimal dump of the first `k` bytes, sixteen to a
/// line.
pub open spec fn hex_dump(out: Seq<char>, b: Seq<u8>, k: nat) -> Seq<char>
    decreases k,
{
    if k == 0 || k > b.len() {
        out
    } else {
        let prev = hex_dump(out, b, (k - 1) as nat);
        let o1 = if (k - 1) % 16 == 0 {
            prev + "# "@
        } else {
            prev
        };
        let o2 = o1 + hex(b[k - 1] as nat, 2, false) + " "@;
        if (k - 1) % 16 == 15 {
            o2 + "\n"@
        } else {
            o2
        }
    }
}

/// The text with one more patch.
#[verifier::opaque]
pub open spec fn change_text(out: Seq<char>, c: Change) -> Seq<char> {
    let o = hex_dump(
        out + c.symbol + " "@ + dec(c.address as nat) + " "@ + dec(c.old_content.len()) + " "@ + dec(c.new_content.len()) + "\n# new content:\n"@,
        c.new_content,
        c.new_content.len(),
    );
    if c.new_content.len() % 16 != 0 {
        o + "\n"@
    } else {
        o
    }
}

/// The text with the first `k` patches.
pub open spec fn changes_text(out: Seq<char>, cs: Seq<Change>, k: nat) -> Seq<char>
    decreases k,
{
    if k == 0 || k > cs.len() {
        out
    } else {
        change_text(changes_text(out, cs, (k - 1) as nat), cs[k - 1])
    }
}

/// A patch file.
pub open spec fn patch_file(cs: Seq<Change>) -> Seq<char> {
    changes_text(
        "# Vredrs differential patch\n# symbol address old_size new_size\n"@,
        cs,
        cs.len(),
    )
}

/// Appends a hexadecimal dump.
fn push_hex_dump(out: &mut String, b: &Vec<u8>)
    ensures
        final(out)@ == hex_dump(old(out)@, b@, b@.len()),
{
    let mut k: usize = 0;
    while k < b.len()
        invariant
            k <= b@.len(),
            out@ == hex_dump(old(out)@, b@, k as nat),
        decreases b@.len() - k,
    {
        if k % 16 == 0 {
            out.append("# ");
        }
        push_hex(out, b[k] as u64, 2, false);
        out.append(" ");
        if k % 16 == 15 {
            out.append("\n");
        }
        k = k + 1;
    }
}

/// Appends a patch.
fn push_change(out: &mut String, p: &PatchEntry)
    ensures
        final(out)@ == change_text(old(out)@, p@),
{
    reveal(change_text);
    out.append(p.symbol.as_str());
    out.append(" ");
    push_dec(out, p.address);
    out.append(" ");
    push_dec(out, p.old_content.len() as u64);
    out.append(" ");
    push_dec(out, p.new_content.len() as u64);
    out.append("\n# new content:\n");
    push_hex_dump(out, &p.new_content);
    if p.new_content.len() % 16 != 0 {
        out.append("\n");
    }
}

/// Writes a patch file.
pub fn patches_to_file(patches: &Vec<PatchEntry>) -> (r: String)
    ensures
        r@ == patch_file(changes(patches@)),
{
    let mut s = text("# Vredrs differential patch\n# symbol address old_size new_size\n");
    let ghost head = s@;
    let mut k: usize = 0;
    while k < patches.len()
        invariant
            k <= patches@.len(),
            s@ == changes_text(head, changes(patches@), k as nat),
        decreases patches@.len() - k,
    {
        push_change(&mut s, &patches[k]);
        k = k + 1;
    }
    s
}

} // verus!
