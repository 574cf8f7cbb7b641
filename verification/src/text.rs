//! Text building and scanning.
//!
//! Contracts speak of texts as sequences of characters.  Numbers are rendered
//! and parsed by verified code, and the scanning functions (`lines`, `trim`,
//! `split`, ...) follow the conventions of the `str` methods of the same name.

use vstd::hash_map::StringHashMap;
use vstd::prelude::*;
use vstd::std_specs::iter::IteratorSpec;

verus! {

/// `String::push` appends one character to the end of the text.
pub assume_specification[ String::push ](s: &mut String, c: char)
    ensures
        final(s)@ == old(s)@.push(c),
;

// ---------------------------------------------------------------------------
// Numbers
// ---------------------------------------------------------------------------

/// The decimal digit character of `d`.
pub open spec fn digit(d: int) -> char {
    (48 + d) as char
}

/// Decimal digits of `n` without leading zeros.
#[verifier::opaque]
pub open spec fn dec(n: nat) -> Seq<char>
    decreases n,
{
    if n < 10 {
        seq![digit(n as int)]
    } else {
        dec(n / 10).push(digit((n % 10) as int))
    }
}

/// Decimal text of an integer, with a leading minus sign where it is negative.
#[verifier::opaque]
pub open spec fn int_dec(i: int) -> Seq<char> {
    if i < 0 {
        seq!['-'] + dec((-i) as nat)
    } else {
        dec(i as nat)
    }
}

/// The hexadecimal digit character of `d`, in upper or lower case.
pub open spec fn hex_digit(d: int, upper: bool) -> char {
    if d < 10 {
        (48 + d) as char
    } else if upper {
        (55 + d) as char
    } else {
        (87 + d) as char
    }
}

/// Hexadecimal digits of `n`, padded on the left with zeros to `width`.
pub open spec fn hex(n: nat, width: nat, upper: bool) -> Seq<char>
    decreases n, width,
{
    let rest = if width > 0 {
        (width - 1) as nat
    } else {
        0
    };
    if n < 16 && width <= 1 {
        seq![hex_digit(n as int, upper)]
    } else {
        hex(n / 16, rest, upper).push(hex_digit((n % 16) as int, upper))
    }
}

/// Appends the decimal digits of `n`.
pub fn push_dec(s: &mut String, n: u64)
    ensures
        final(s)@ == old(s)@ + dec(n as nat),
    decreases n,
{
    proof {
        reveal(dec);
    }
    if n >= 10 {
        push_dec(s, n / 10);
    }
    let d: u8 = (n % 10) as u8;
    s.push((48 + d) as char);
    assert(s@ =~= old(s)@ + dec(n as nat));
}

/// Appends the decimal digits of `n`.
pub fn push_wide(s: &mut String, n: u128)
    ensures
        final(s)@ == old(s)@ + dec(n as nat),
    decreases n,
{
    proof {
        reveal(dec);
    }
    if n >= 10 {
        push_wide(s, n / 10);
    }
    let d: u8 = (n % 10) as u8;
    s.push((48 + d) as char);
    assert(s@ =~= old(s)@ + dec(n as nat));
}

/// Appends the decimal text of `i`.
pub fn push_int(s: &mut String, i: i64)
    ensures
        final(s)@ == old(s)@ + int_dec(i as int),
{
    proof {
        reveal(int_dec);
    }
    if i < 0 {
        s.push('-');
        let m: u64 = (-(i as i128)) as u64;
        push_dec(s, m);
        assert(s@ =~= old(s)@ + int_dec(i as int));
    } else {
        push_dec(s, i as u64);
    }
}

/// The decimal text of `n`.
pub fn dec_text(n: u64) -> (r: String)
    ensures
        r@ == dec(n as nat),
{
    proof {
        reveal(dec);
    }
    let mut s = String::new();
    push_dec(&mut s, n);
    assert(s@ =~= dec(n as nat));
    s
}

/// The decimal text of `i`.
pub fn int_text(i: i64) -> (r: String)
    ensures
        r@ == int_dec(i as int),
{
    proof {
        reveal(int_dec);
    }
    let mut s = String::new();
    push_int(&mut s, i);
    assert(s@ =~= int_dec(i as int));
    s
}

/// Appends the hexadecimal digits of `n`, padded with zeros to `width`.
pub fn push_hex(s: &mut String, n: u64, width: u8, upper: bool)
    ensures
        final(s)@ == old(s)@ + hex(n as nat, width as nat, upper),
    decreases n, width,
{
    let rest: u8 = if width > 0 {
        width - 1
    } else {
        0
    };
    if !(n < 16 && width <= 1) {
        push_hex(s, n / 16, rest, upper);
    }
    let d: u8 = (n % 16) as u8;
    let c: char = if d < 10 {
        (48 + d) as char
    } else if upper {
        (55 + d) as char
    } else {
        (87 + d) as char
    };
    s.push(c);
    assert(s@ =~= old(s)@ + hex(n as nat, width as nat, upper));
}

/// The value of a digit character in bases up to sixteen.
pub open spec fn digit_value(c: char) -> Option<int> {
    if '0' <= c && c <= '9' {
        Some(c as int - 48)
    } else if 'a' <= c && c <= 'f' {
        Some(c as int - 87)
    } else if 'A' <= c && c <= 'F' {
        Some(c as int - 55)
    } else {
        None
    }
}

/// The number that a run of digits denotes in base `radix`, if every
/// character is a digit of that base.
pub open spec fn digits_value(s: Seq<char>, radix: int) -> Option<int>
    decreases s.len(),
{
    if s.len() == 0 {
        Some(0)
    } else {
        match (digits_value(s.drop_last(), radix), digit_value(s.last())) {
            (Some(v), Some(d)) if d < radix => Some(v * radix + d),
            _ => None,
        }
    }
}

/// The text behind one leading plus sign.
pub open spec fn skip_plus(s: Seq<char>) -> Seq<char> {
    if s.len() > 0 && s[0] == '+' {
        s.skip(1)
    } else {
        s
    }
}

/// What a text denotes as a `u64` in base `radix`: an optional plus sign and
/// at least one digit, with a value that fits.
pub open spec fn parse_unsigned(s: Seq<char>, radix: int) -> Option<u64> {
    let t = skip_plus(s);
    match digits_value(t, radix) {
        Some(v) if t.len() > 0 && v <= u64::MAX => Some(v as u64),
        _ => None,
    }
}

/// What a text denotes as a decimal `i64`: an optional sign and at least one
/// digit, with a value that fits.
pub open spec fn parse_signed(s: Seq<char>) -> Option<i64> {
    let neg = s.len() > 0 && s[0] == '-';
    let t = if neg {
        s.skip(1)
    } else {
        skip_plus(s)
    };
    match digits_value(t, 10) {
        Some(v) if t.len() > 0 && neg && v <= 0x8000_0000_0000_0000 => Some((-v) as i64),
        Some(v) if t.len() > 0 && !neg && v <= i64::MAX => Some(v as i64),
        _ => None,
    }
}

proof fn lemma_digits_value_nonneg(s: Seq<char>, radix: int)
    requires
        radix > 0,
    ensures
        digits_value(s, radix) matches Some(v) ==> v >= 0,
    decreases s.len(),
{
    if s.len() > 0 {
        lemma_digits_value_nonneg(s.drop_last(), radix);
        if let Some(v) = digits_value(s.drop_last(), radix) {
            assert(v * radix >= 0) by (nonlinear_arith)
                requires
                    v >= 0,
                    radix > 0,
            ;
        }
    }
}

proof fn lemma_digits_value_prefix(s: Seq<char>, k: int, radix: int)
    requires
        0 <= k <= s.len(),
        radix >= 1,
    ensures
        digits_value(s, radix) matches Some(v) ==> (digits_value(s.take(k), radix) matches Some(w)
            && w <= v),
    decreases s.len() - k,
{
    if k < s.len() {
        lemma_digits_value_prefix(s, k + 1, radix);
        assert(s.take(k + 1).drop_last() =~= s.take(k));
        lemma_digits_value_nonneg(s.take(k), radix);
        if let Some(w) = digits_value(s.take(k), radix) {
            assert(w <= w * radix) by (nonlinear_arith)
                requires
                    w >= 0,
                    radix >= 1,
            ;
        }
    } else {
        assert(s.take(k) =~= s);
    }
}

/// The value of the digits `v[from..]` in base `radix`, where it is at most
/// `max`.
fn digits_from(v: &Vec<char>, from: usize, radix: u64, max: u64) -> (r: Option<u64>)
    requires
        from <= v.len(),
        2 <= radix <= 16,
    ensures
        r == (match digits_value(v@.skip(from as int), radix as int) {
            Some(x) if x <= max => Some(x as u64),
            _ => None::<u64>,
        }),
{
    let ghost all = v@.skip(from as int);
    let mut i: usize = from;
    let mut acc: u64 = 0;
    while i < v.len()
        invariant
            from <= i <= v.len(),
            2 <= radix <= 16,
            all == v@.skip(from as int),
            digits_value(all.take(i - from), radix as int) == Some(acc as int),
            acc <= max,
        decreases v.len() - i,
    {
        let c: char = v[i];
        proof {
            assert(all.take(i - from + 1).drop_last() =~= all.take(i - from));
            assert(all.take(i - from + 1).last() == c);
            lemma_digits_value_prefix(all, i - from + 1, radix as int);
        }
        let d: u64 = if '0' <= c && c <= '9' {
            c as u64 - 48
        } else if 'a' <= c && c <= 'f' {
            c as u64 - 87
        } else if 'A' <= c && c <= 'F' {
            c as u64 - 55
        } else {
            return None;
        };
        if d >= radix {
            return None;
        }
        assert(acc * radix <= 0xffff_ffff_ffff_ffff * 16) by (nonlinear_arith)
            requires
                acc <= 0xffff_ffff_ffff_ffff,
                radix <= 16,
        ;
        let wide: u128 = acc as u128 * radix as u128 + d as u128;
        if wide > max as u128 {
            return None;
        }
        acc = wide as u64;
        i = i + 1;
    }
    assert(all.take(i - from) =~= all);
    Some(acc)
}

/// Parses `s` as a `u64` in base `radix`.
pub fn parse_u64(s: &str, radix: u64) -> (r: Option<u64>)
    requires
        2 <= radix <= 16,
    ensures
        r == parse_unsigned(s@, radix as int),
{
    let v: Vec<char> = chars(s);
    let from: usize = if v.len() > 0 && v[0] == '+' {
        1
    } else {
        0
    };
    assert(v@.skip(from as int) =~= skip_plus(s@));
    if from == v.len() {
        return None;
    }
    proof {
        lemma_digits_value_nonneg(skip_plus(s@), radix as int);
    }
    digits_from(&v, from, radix, u64::MAX)
}

/// Parses `s` as a decimal `i64`.
pub fn parse_i64(s: &str) -> (r: Option<i64>)
    ensures
        r == parse_signed(s@),
{
    let v: Vec<char> = chars(s);
    let neg: bool = v.len() > 0 && v[0] == '-';
    let from: usize = if v.len() > 0 && (v[0] == '-' || v[0] == '+') {
        1
    } else {
        0
    };
    if neg {
        assert(v@.skip(from as int) =~= s@.skip(1));
    } else {
        assert(v@.skip(from as int) =~= skip_plus(s@));
    }
    if from == v.len() {
        return None;
    }
    proof {
        lemma_digits_value_nonneg(v@.skip(from as int), 10);
    }
    if neg {
        match digits_from(&v, from, 10, 0x8000_0000_0000_0000) {
            Some(m) => Some((-(m as i128)) as i64),
            None => None,
        }
    } else {
        match digits_from(&v, from, 10, 0x7fff_ffff_ffff_ffff) {
            Some(m) => Some(m as i64),
            None => None,
        }
    }
}

// ---------------------------------------------------------------------------
// Characters and slices of text
// ---------------------------------------------------------------------------

/// The characters of `s` as a vector.
pub fn chars(s: &str) -> (v: Vec<char>)
    ensures
        v@ == s@,
{
    let mut v: Vec<char> = Vec::new();
    for c in it: s.chars()
        invariant
            v@ == it.seq().take(it.index()),
            it.seq() == s@,
    {
        v.push(c);
    }
    v
}

/// The text of the characters `v[from..to]`.
pub fn slice_text(v: &Vec<char>, from: usize, to: usize) -> (r: String)
    requires
        from <= to <= v.len(),
    ensures
        r@ == v@.subrange(from as int, to as int),
{
    let mut s = String::new();
    let mut i: usize = from;
    while i < to
        invariant
            from <= i <= to <= v.len(),
            s@ == v@.subrange(from as int, i as int),
        decreases to - i,
    {
        s.push(v[i]);
        i = i + 1;
        assert(s@ =~= v@.subrange(from as int, i as int));
    }
    s
}

/// The number of bytes of a text in UTF-8.
#[verifier::opaque]
pub open spec fn byte_len(s: Seq<char>) -> usize {
    vstd::utf8::encode_utf8(s).len() as usize
}

/// The number of bytes of a text in UTF-8.
pub fn byte_length(s: &str) -> (n: usize)
    ensures
        n == byte_len(s@),
{
    reveal(byte_len);
    s.len()
}

/// A copy of `s`.
pub fn text(s: &str) -> (r: String)
    ensures
        r@ == s@,
{
    s.to_owned()
}

/// The concatenation of two texts.
pub fn cat(a: &str, b: &str) -> (r: String)
    ensures
        r@ == a@ + b@,
{
    let mut s = String::new();
    s.append(a);
    s.append(b);
    assert(s@ =~= a@ + b@);
    s
}

/// The concatenation of three texts.
pub fn cat3(a: &str, b: &str, c: &str) -> (r: String)
    ensures
        r@ == a@ + b@ + c@,
{
    let mut s = String::new();
    s.append(a);
    s.append(b);
    s.append(c);
    assert(s@ =~= a@ + b@ + c@);
    s
}

/// The text `prefix` followed by the decimal digits of `n`.
pub fn numbered(prefix: &str, n: u64) -> (r: String)
    ensures
        r@ == prefix@ + dec(n as nat),
{
    proof {
        reveal(dec);
    }
    let mut s = text(prefix);
    push_dec(&mut s, n);
    s
}

/// Whether two texts have the same characters.
pub fn same(a: &str, b: &str) -> (r: bool)
    ensures
        r == (a@ == b@),
{
    let u: Vec<char> = chars(a);
    let v: Vec<char> = chars(b);
    if u.len() != v.len() {
        return false;
    }
    assert(u@.subrange(0, v@.len() as int) =~= u@);
    occurs_at(&u, &v, 0)
}

// ---------------------------------------------------------------------------
// Searching
// ---------------------------------------------------------------------------

/// `pat` stands in `s` at position `i`.
pub open spec fn at(s: Seq<char>, pat: Seq<char>, i: int) -> bool {
    0 <= i && i + pat.len() <= s.len() && s.subrange(i, i + pat.len()) == pat
}

/// `pat` stands somewhere in `s`.
pub open spec fn occurs(s: Seq<char>, pat: Seq<char>) -> bool {
    exists|i: int| at(s, pat, i)
}

/// The first position of `pat` in `s` at or behind `from`.
pub open spec fn find_from(s: Seq<char>, pat: Seq<char>, from: int) -> Option<int>
    decreases s.len() + 1 - from,
{
    if from < 0 || from > s.len() {
        None
    } else if at(s, pat, from) {
        Some(from)
    } else {
        find_from(s, pat, from + 1)
    }
}

/// Whether `pat` stands in `s` at position `i`.
pub fn occurs_at(s: &Vec<char>, pat: &Vec<char>, i: usize) -> (r: bool)
    requires
        i <= s.len(),
    ensures
        r == at(s@, pat@, i as int),
{
    if s.len() - i < pat.len() {
        return false;
    }
    let mut k: usize = 0;
    while k < pat.len()
        invariant
            i + pat.len() <= s.len(),
            k <= pat.len(),
            forall|j: int| 0 <= j < k ==> s@[i + j] == pat@[j],
        decreases pat.len() - k,
    {
        if s[i + k] != pat[k] {
            assert(s@.subrange(i as int, i + pat@.len())[k as int] != pat@[k as int]);
            return false;
        }
        k = k + 1;
    }
    assert(s@.subrange(i as int, i + pat@.len()) =~= pat@);
    true
}

/// The first position of `pat` in `s`.
pub fn find(s: &Vec<char>, pat: &Vec<char>) -> (r: Option<usize>)
    ensures
        r == (match find_from(s@, pat@, 0) {
            Some(i) => Some(i as usize),
            None => None::<usize>,
        }),
        r matches Some(i) ==> at(s@, pat@, i as int) && i <= s.len(),
        r is None ==> !occurs(s@, pat@),
        r is Some ==> occurs(s@, pat@),
{
    let mut i: usize = 0;
    loop
        invariant
            i <= s.len(),
            find_from(s@, pat@, 0) == find_from(s@, pat@, i as int),
            forall|j: int| 0 <= j < i ==> !at(s@, pat@, j),
        decreases s.len() - i,
    {
        if occurs_at(s, pat, i) {
            return Some(i);
        }
        if i == s.len() {
            assert(find_from(s@, pat@, i + 1) is None);
            assert forall|j: int| !at(s@, pat@, j) by {
                if at(s@, pat@, j) {
                    assert(j <= s.len());
                }
            }
            return None;
        }
        i = i + 1;
    }
}

/// A found place is in the text, with `pat` there.
pub proof fn lemma_found_at(s: Seq<char>, pat: Seq<char>, from: int)
    requires
        find_from(s, pat, from) is Some,
    ensures
        at(s, pat, find_from(s, pat, from)->Some_0),
    decreases s.len() + 1 - from,
{
    if from >= 0 && from <= s.len() && !at(s, pat, from) {
        lemma_found_at(s, pat, from + 1);
    }
}

/// Whether `pat` stands somewhere in `s`.
pub fn contains(s: &str, pat: &str) -> (r: bool)
    ensures
        r == occurs(s@, pat@),
{
    let v: Vec<char> = chars(s);
    let p: Vec<char> = chars(pat);
    match find(&v, &p) {
        Some(_) => true,
        None => false,
    }
}

/// `s` begins with `pat`.
pub open spec fn begins(s: Seq<char>, pat: Seq<char>) -> bool {
    at(s, pat, 0)
}

/// `s` ends with `pat`.
pub open spec fn ends(s: Seq<char>, pat: Seq<char>) -> bool {
    at(s, pat, s.len() - pat.len())
}

/// Whether `s` begins with `pat`.
pub fn starts_with(s: &str, pat: &str) -> (r: bool)
    ensures
        r == begins(s@, pat@),
{
    let v: Vec<char> = chars(s);
    let p: Vec<char> = chars(pat);
    occurs_at(&v, &p, 0)
}

/// Whether `s` ends with `pat`.
pub fn ends_with(s: &str, pat: &str) -> (r: bool)
    ensures
        r == ends(s@, pat@),
{
    let v: Vec<char> = chars(s);
    let p: Vec<char> = chars(pat);
    if p.len() > v.len() {
        return false;
    }
    occurs_at(&v, &p, v.len() - p.len())
}

/// `s` with `ins` put in front of the first place where `pat` stands, or in
/// front of the whole text where `pat` does not occur.
pub open spec fn insert_before(s: Seq<char>, pat: Seq<char>, ins: Seq<char>) -> Seq<char> {
    match find_from(s, pat, 0) {
        Some(i) => s.take(i) + ins + s.skip(i),
        None => ins + s,
    }
}

/// Puts `ins` in front of the first place in `s` where `pat` stands.
pub fn insert_before_first(s: &str, pat: &str, ins: &str) -> (r: String)
    ensures
        r@ == insert_before(s@, pat@, ins@),
{
    let v: Vec<char> = chars(s);
    let p: Vec<char> = chars(pat);
    match find(&v, &p) {
        Some(i) => {
            let mut out = slice_text(&v, 0, i);
            out.append(ins);
            let tail = slice_text(&v, i, v.len());
            out.append(tail.as_str());
            proof {
                assert(find_from(s@, pat@, 0) is Some);
                assert(find_from(s@, pat@, 0) == Some(i as int)) by {
                    lemma_find_bound(s@, pat@, 0);
                }
                assert(s@.take(i as int) =~= s@.subrange(0, i as int));
                assert(s@.skip(i as int) =~= s@.subrange(i as int, s@.len() as int));
            }
            out
        },
        None => {
            cat(ins, s)
        },
    }
}

proof fn lemma_find_bound(s: Seq<char>, pat: Seq<char>, from: int)
    requires
        s.len() <= usize::MAX,
    ensures
        find_from(s, pat, from) matches Some(i) ==> 0 <= i <= usize::MAX,
    decreases s.len() + 1 - from,
{
    if 0 <= from <= s.len() && !at(s, pat, from) {
        lemma_find_bound(s, pat, from + 1);
    }
}

// ---------------------------------------------------------------------------
// Trimming
// ---------------------------------------------------------------------------

/// The characters with the Unicode property White_Space.
pub open spec fn is_space(c: char) -> bool {
    let n = c as int;
    (9 <= n <= 13) || n == 32 || n == 0x85 || n == 0xA0 || n == 0x1680 || (0x2000 <= n <= 0x200A)
        || n == 0x2028 || n == 0x2029 || n == 0x202F || n == 0x205F || n == 0x3000
}

/// Whether `c` is white space.
pub fn space(c: char) -> (r: bool)
    ensures
        r == is_space(c),
{
    let n: u32 = c as u32;
    (9 <= n && n <= 13) || n == 32 || n == 0x85 || n == 0xA0 || n == 0x1680 || (0x2000 <= n && n
        <= 0x200A) || n == 0x2028 || n == 0x2029 || n == 0x202F || n == 0x205F || n == 0x3000
}

/// `s` without its leading white space.
pub open spec fn trim_left(s: Seq<char>) -> Seq<char>
    decreases s.len(),
{
    if s.len() > 0 && is_space(s[0]) {
        trim_left(s.skip(1))
    } else {
        s
    }
}

/// `s` without its trailing white space.
pub open spec fn trim_right(s: Seq<char>) -> Seq<char>
    decreases s.len(),
{
    if s.len() > 0 && is_space(s.last()) {
        trim_right(s.drop_last())
    } else {
        s
    }
}

/// `s` without white space at either end.
pub open spec fn trimmed(s: Seq<char>) -> Seq<char> {
    trim_right(trim_left(s))
}

/// `s` without white space at either end.
pub fn trim(s: &str) -> (r: String)
    ensures
        r@ == trimmed(s@),
{
    let v: Vec<char> = chars(s);
    let mut i: usize = 0;
    assert(v@.skip(0) =~= v@);
    while i < v.len() && space(v[i])
        invariant
            i <= v.len(),
            trim_left(s@) == trim_left(v@.skip(i as int)),
        decreases v.len() - i,
    {
        assert(v@.skip(i as int).skip(1) =~= v@.skip(i + 1));
        i = i + 1;
    }
    let ghost left = v@.skip(i as int);
    assert(trim_left(s@) == left);
    let mut j: usize = v.len();
    assert(v@.subrange(i as int, j as int) =~= left);
    while i < j && space(v[j - 1])
        invariant
            i <= j <= v.len(),
            trim_right(left) == trim_right(v@.subrange(i as int, j as int)),
        decreases j,
    {
        assert(v@.subrange(i as int, j as int).drop_last() =~= v@.subrange(i as int, j - 1));
        j = j - 1;
    }
    slice_text(&v, i, j)
}

/// `s` without trailing white space.
pub fn trim_end(s: &str) -> (r: String)
    ensures
        r@ == trim_right(s@),
{
    let v: Vec<char> = chars(s);
    let mut j: usize = v.len();
    assert(v@.take(j as int) =~= s@);
    while j > 0 && space(v[j - 1])
        invariant
            j <= v.len(),
            trim_right(s@) == trim_right(v@.take(j as int)),
        decreases j,
    {
        assert(v@.take(j as int).drop_last() =~= v@.take(j - 1));
        j = j - 1;
    }
    assert(v@.subrange(0, j as int) =~= v@.take(j as int));
    slice_text(&v, 0, j)
}

/// `s` without leading characters `c`.
pub open spec fn strip_left(s: Seq<char>, c: char) -> Seq<char>
    decreases s.len(),
{
    if s.len() > 0 && s[0] == c {
        strip_left(s.skip(1), c)
    } else {
        s
    }
}

/// `s` without trailing characters `c`.
pub open spec fn strip_right(s: Seq<char>, c: char) -> Seq<char>
    decreases s.len(),
{
    if s.len() > 0 && s.last() == c {
        strip_right(s.drop_last(), c)
    } else {
        s
    }
}

/// `s` without leading characters `a` and then without trailing characters
/// `b`.
pub fn strip_ends(s: &str, a: char, b: char) -> (r: String)
    ensures
        r@ == strip_right(strip_left(s@, a), b),
{
    let v: Vec<char> = chars(s);
    let mut i: usize = 0;
    assert(v@.skip(0) =~= v@);
    while i < v.len() && v[i] == a
        invariant
            i <= v.len(),
            strip_left(s@, a) == strip_left(v@.skip(i as int), a),
        decreases v.len() - i,
    {
        assert(v@.skip(i as int).skip(1) =~= v@.skip(i + 1));
        i = i + 1;
    }
    let ghost left = v@.skip(i as int);
    assert(strip_left(s@, a) == left);
    let mut j: usize = v.len();
    assert(v@.subrange(i as int, j as int) =~= left);
    while i < j && v[j - 1] == b
        invariant
            i <= j <= v.len(),
            strip_right(left, b) == strip_right(v@.subrange(i as int, j as int), b),
        decreases j,
    {
        assert(v@.subrange(i as int, j as int).drop_last() =~= v@.subrange(i as int, j - 1));
        j = j - 1;
    }
    slice_text(&v, i, j)
}

// ---------------------------------------------------------------------------
// Lists of texts
// ---------------------------------------------------------------------------

/// The texts of a list of strings.
pub open spec fn texts(v: Seq<String>) -> Seq<Seq<char>> {
    Seq::new(v.len(), |i: int| v[i]@)
}

/// A growing list of texts.
pub struct TextList {
    items: Vec<String>,
}

impl View for TextList {
    type V = Seq<Seq<char>>;

    closed spec fn view(&self) -> Seq<Seq<char>> {
        self.items@.map_values(|s: String| s@)
    }
}

impl TextList {
    /// The empty list.
    pub fn new() -> (r: Self)
        ensures
            r@ == Seq::<Seq<char>>::empty(),
    {
        let r = TextList { items: Vec::new() };
        assert(r@ =~= Seq::<Seq<char>>::empty());
        r
    }

    /// The number of texts.
    pub fn len(&self) -> (n: usize)
        ensures
            n == self@.len(),
    {
        self.items.len()
    }

    /// The text at position `i`.
    pub fn get(&self, i: usize) -> (r: &str)
        requires
            i < self@.len(),
        ensures
            r@ == self@[i as int],
    {
        self.items[i].as_str()
    }

    /// Adds a text at the end.
    pub fn push(&mut self, s: String)
        ensures
            final(self)@ == old(self)@.push(s@),
    {
        self.items.push(s);
        assert(self@ =~= old(self)@.push(s@));
    }

    /// The texts as a vector of strings.
    pub fn into_vec(self) -> (r: Vec<String>)
        ensures
            texts(r@) == self@,
    {
        assert(texts(self.items@) =~= self@);
        self.items
    }

    /// Whether `s` is one of the texts.
    pub fn contains(&self, s: &str) -> (r: bool)
        ensures
            r == self@.contains(s@),
    {
        let mut i: usize = 0;
        while i < self.len()
            invariant
                i <= self@.len(),
                forall|j: int| 0 <= j < i ==> self@[j] != s@,
            decreases self@.len() - i,
        {
            if same(self.get(i), s) {
                assert(self@[i as int] == s@);
                return true;
            }
            i = i + 1;
        }
        false
    }

    /// Puts a text at its place in a sorted list, unless it is there already.
    pub fn insert_sorted(&mut self, s: String)
        ensures
            final(self)@ == insert_sorted(old(self)@, s@),
    {
        let ghost all = self@;
        let mut i: usize = self.items.len();
        let ghost tail = all.skip(i as int);
        assert(insert_sorted(all.take(i as int), s@) + all.skip(i as int) =~= insert_sorted(all, s@)) by {
            assert(all.take(i as int) =~= all);
        }
        while i > 0
            invariant
                i <= self@.len(),
                self@ == all,
                insert_sorted(all.take(i as int), s@) + all.skip(i as int) == insert_sorted(all, s@),
            ensures
                i <= self@.len(),
                self@ == all,
                insert_sorted(all.take(i as int), s@) + all.skip(i as int) == insert_sorted(all, s@),
                i > 0 ==> all[i - 1] != s@ && before(all[i - 1], s@),
            decreases i,
        {
            assert(all.take(i as int).last() == all[i - 1]);
            assert(all.take(i as int).drop_last() =~= all.take(i - 1));
            if same(self.get(i - 1), s.as_str()) {
                assert(all.take(i as int) + all.skip(i as int) =~= all);
                return;
            }
            if comes_before(self.get(i - 1), s.as_str()) {
                break;
            }
            assert(insert_sorted(all.take(i - 1), s@) + all.skip(i - 1) =~= insert_sorted(
                all.take(i as int),
                s@,
            ) + all.skip(i as int));
            i = i - 1;
        }
        self.items.insert(i, s);
        proof {
            if i > 0 {
                assert(all.take(i as int).last() == all[i - 1]);
                assert(insert_sorted(all.take(i as int), s@) == all.take(i as int).push(s@));
            } else {
                assert(insert_sorted(all.take(0), s@) == seq![s@]);
            }
            assert(self@ =~= insert_sorted(all.take(i as int), s@) + all.skip(i as int));
        }
    }

    /// The texts, sorted and without repetitions.
    pub fn sorted_unique(&self) -> (r: TextList)
        ensures
            r@ == sorted_set(self@),
    {
        let mut out = TextList::new();
        let mut i: usize = 0;
        assert(self@.take(0) =~= Seq::<Seq<char>>::empty());
        while i < self.len()
            invariant
                i <= self@.len(),
                out@ == sorted_set(self@.take(i as int)),
            decreases self@.len() - i,
        {
            assert(self@.take(i + 1).drop_last() =~= self@.take(i as int));
            out.insert_sorted(text(self.get(i)));
            i = i + 1;
        }
        assert(self@.take(i as int) =~= self@);
        out
    }

    /// The texts with `sep` between neighbours.
    pub fn join(&self, sep: &str) -> (r: String)
        ensures
            r@ == joined(self@, sep@),
    {
        let mut s = String::new();
        let mut i: usize = 0;
        assert(self@.take(0) =~= Seq::<Seq<char>>::empty());
        while i < self.len()
            invariant
                i <= self@.len(),
                s@ == joined(self@.take(i as int), sep@),
            decreases self@.len() - i,
        {
            assert(self@.take(i + 1).drop_last() =~= self@.take(i as int));
            if i > 0 {
                s.append(sep);
            }
            s.append(self.get(i));
            i = i + 1;
            assert(s@ =~= joined(self@.take(i as int), sep@));
        }
        assert(self@.take(i as int) =~= self@);
        s
    }
}

/// Text order: character by character, a prefix before its extensions.
pub open spec fn before(a: Seq<char>, b: Seq<char>) -> bool
    decreases a.len(),
{
    if b.len() == 0 {
        false
    } else if a.len() == 0 {
        true
    } else {
        a[0] < b[0] || (a[0] == b[0] && before(a.skip(1), b.skip(1)))
    }
}

/// Whether `a` comes before `b` in text order.
pub fn comes_before(a: &str, b: &str) -> (r: bool)
    ensures
        r == before(a@, b@),
{
    let u: Vec<char> = chars(a);
    let v: Vec<char> = chars(b);
    let mut i: usize = 0;
    assert(u@.skip(0) =~= u@);
    assert(v@.skip(0) =~= v@);
    while i < u.len() && i < v.len()
        invariant
            i <= u.len(),
            i <= v.len(),
            before(a@, b@) == before(u@.skip(i as int), v@.skip(i as int)),
        decreases u.len() - i,
    {
        assert(u@.skip(i as int).skip(1) =~= u@.skip(i + 1));
        assert(v@.skip(i as int).skip(1) =~= v@.skip(i + 1));
        if u[i] < v[i] {
            return true;
        }
        if u[i] != v[i] {
            return false;
        }
        i = i + 1;
    }
    i < v.len()
}

/// A sorted list with `x` at its place, unless it is there already.
pub open spec fn insert_sorted(list: Seq<Seq<char>>, x: Seq<char>) -> Seq<Seq<char>>
    decreases list.len(),
{
    if list.len() == 0 {
        seq![x]
    } else if list.last() == x {
        list
    } else if before(list.last(), x) {
        list.push(x)
    } else {
        insert_sorted(list.drop_last(), x).push(list.last())
    }
}

/// The texts of `s`, sorted and without repetitions.
pub open spec fn sorted_set(s: Seq<Seq<char>>) -> Seq<Seq<char>>
    decreases s.len(),
{
    if s.len() == 0 {
        Seq::empty()
    } else {
        insert_sorted(sorted_set(s.drop_last()), s.last())
    }
}

/// Text order is transitive.
pub proof fn lemma_before_trans(a: Seq<char>, b: Seq<char>, c: Seq<char>)
    requires
        before(a, b),
        before(b, c),
    ensures
        before(a, c),
    decreases a.len(),
{
    if a.len() > 0 && b.len() > 0 && c.len() > 0 && a[0] == b[0] && b[0] == c[0] {
        lemma_before_trans(a.skip(1), b.skip(1), c.skip(1));
    }
}

/// Of two different texts exactly one comes before the other.
pub proof fn lemma_before_total(a: Seq<char>, b: Seq<char>)
    ensures
        a != b ==> before(a, b) || before(b, a),
        !(before(a, b) && before(b, a)),
        before(a, b) ==> a != b,
    decreases a.len(),
{
    if a.len() > 0 && b.len() > 0 {
        lemma_before_total(a.skip(1), b.skip(1));
        if a.skip(1) == b.skip(1) && a[0] == b[0] {
            assert(a =~= seq![a[0]] + a.skip(1));
            assert(b =~= seq![b[0]] + b.skip(1));
        }
    } else if a.len() == 0 && b.len() == 0 {
        assert(a =~= b);
    }
}

/// Each text comes before the next ones.
pub open spec fn strictly_sorted(s: Seq<Seq<char>>) -> bool {
    forall|i: int, j: int| 0 <= i < j < s.len() ==> before(#[trigger] s[i], #[trigger] s[j])
}

/// Insertion keeps a list sorted and adds the text.
proof fn lemma_insert_sorted(list: Seq<Seq<char>>, x: Seq<char>)
    requires
        strictly_sorted(list),
    ensures
        strictly_sorted(insert_sorted(list, x)),
        insert_sorted(list, x).len() > 0,
        forall|y: Seq<char>| #[trigger]
            insert_sorted(list, x).contains(y) <==> y == x || list.contains(y),
    decreases list.len(),
{
    let r = insert_sorted(list, x);
    if list.len() == 0 {
        assert(r[0] == x);
    } else if list.last() == x {
        assert(list[list.len() - 1] == x);
    } else if before(list.last(), x) {
        assert forall|i: int| 0 <= i < list.len() implies before(#[trigger] list[i], x) by {
            if i < list.len() - 1 {
                lemma_before_trans(list[i], list[list.len() - 1], x);
            }
        }
        assert(r[list.len() as int] == x);
        assert forall|y: Seq<char>| #[trigger] r.contains(y) <==> y == x || list.contains(y) by {
            if list.contains(y) {
                let i = list.index_of(y);
                assert(r[i] == y);
            }
        }
    } else {
        let p = list.drop_last();
        lemma_before_total(list.last(), x);
        lemma_insert_sorted(p, x);
        let q = insert_sorted(p, x);
        assert forall|i: int| 0 <= i < q.len() implies before(#[trigger] q[i], list.last()) by {
            assert(q.contains(q[i]));
            if q[i] != x {
                let j = p.index_of(q[i]);
                assert(list[j] == q[i]);
                assert(before(list[j], list[list.len() - 1]));
            }
        }
        assert forall|y: Seq<char>| #[trigger] r.contains(y) <==> y == x || list.contains(y) by {
            if r.contains(y) {
                let i = r.index_of(y);
                if i < q.len() {
                    assert(q[i] == y);
                    assert(q.contains(y));
                    if y != x {
                        let j = p.index_of(y);
                        assert(list[j] == y);
                    }
                } else {
                    assert(list[list.len() - 1] == y);
                }
            }
            if y == x || list.contains(y) {
                if y == list.last() {
                    assert(r[r.len() - 1] == y);
                } else {
                    if list.contains(y) {
                        let j = list.index_of(y);
                        assert(p[j] == y);
                    }
                    assert(q.contains(y));
                    let i = q.index_of(y);
                    assert(r[i] == y);
                }
            }
        }
    }
}

/// The sorted texts are those of the list, each once and in text order.
pub proof fn law_sorted_texts_are_the_texts(s: Seq<Seq<char>>)
    ensures
        strictly_sorted(sorted_set(s)),
        forall|y: Seq<char>| #[trigger] sorted_set(s).contains(y) <==> s.contains(y),
    decreases s.len(),
{
    if s.len() > 0 {
        let p = s.drop_last();
        law_sorted_texts_are_the_texts(p);
        lemma_insert_sorted(sorted_set(p), s.last());
        assert forall|y: Seq<char>| #[trigger] sorted_set(s).contains(y) <==> s.contains(y) by {
            if s.contains(y) {
                let i = s.index_of(y);
                if i < p.len() {
                    assert(p[i] == y);
                }
            }
            if p.contains(y) {
                let i = p.index_of(y);
                assert(s[i] == y);
            }
            assert(s[s.len() - 1] == s.last());
        }
    }
}

/// The texts of `parts` with `sep` between neighbours.
pub open spec fn joined(parts: Seq<Seq<char>>, sep: Seq<char>) -> Seq<char>
    decreases parts.len(),
{
    if parts.len() == 0 {
        Seq::empty()
    } else if parts.len() == 1 {
        parts[0]
    } else {
        joined(parts.drop_last(), sep) + sep + parts.last()
    }
}

/// The pieces of `s` between the characters `c`.
pub open spec fn split(s: Seq<char>, c: char) -> Seq<Seq<char>>
    decreases s.len(),
{
    if s.len() == 0 {
        seq![Seq::<char>::empty()]
    } else {
        let r = split(s.drop_last(), c);
        if s.last() == c {
            r.push(Seq::<char>::empty())
        } else {
            r.drop_last().push(r.last().push(s.last()))
        }
    }
}

/// A text has at least one piece.
pub proof fn lemma_split_nonempty(s: Seq<char>, c: char)
    ensures
        split(s, c).len() > 0,
    decreases s.len(),
{
    if s.len() > 0 {
        lemma_split_nonempty(s.drop_last(), c);
    }
}

/// The pieces of `s` between the characters `c`.
pub fn split_on(s: &str, c: char) -> (r: TextList)
    ensures
        r@ == split(s@, c),
{
    let v: Vec<char> = chars(s);
    let mut out = TextList::new();
    let mut cur = String::new();
    let mut i: usize = 0;
    assert(v@.take(0) =~= Seq::<char>::empty());
    assert(out@.push(cur@) =~= split(v@.take(0), c));
    while i < v.len()
        invariant
            i <= v.len(),
            out@.push(cur@) == split(v@.take(i as int), c),
        decreases v.len() - i,
    {
        assert(v@.take(i + 1).drop_last() =~= v@.take(i as int));
        let ghost before = out@.push(cur@);
        assert(before.drop_last() =~= out@);
        if v[i] == c {
            out.push(cur);
            cur = String::new();
            assert(out@.push(cur@) =~= split(v@.take(i + 1), c));
        } else {
            cur.push(v[i]);
            assert(out@.push(cur@) =~= split(v@.take(i + 1), c));
        }
        i = i + 1;
    }
    assert(v@.take(i as int) =~= v@);
    out.push(cur);
    out
}

/// The runs of characters of `s` between white space.
pub open spec fn words(s: Seq<char>) -> Seq<Seq<char>>
    decreases s.len(),
{
    if s.len() == 0 {
        Seq::empty()
    } else {
        let r = words(s.drop_last());
        if is_space(s.last()) {
            r
        } else if s.len() == 1 || is_space(s[s.len() - 2]) {
            r.push(seq![s.last()])
        } else {
            r.drop_last().push(r.last().push(s.last()))
        }
    }
}

/// The runs of characters of `s` between white space.
pub fn words_of(s: &str) -> (r: TextList)
    ensures
        r@ == words(s@),
{
    let v: Vec<char> = chars(s);
    let mut out = TextList::new();
    let mut cur = String::new();
    let mut open: bool = false;
    let mut i: usize = 0;
    assert(v@.take(0) =~= Seq::<char>::empty());
    while i < v.len()
        invariant
            i <= v.len(),
            open == (i > 0 && !is_space(v@[i - 1])),
            open ==> out@.push(cur@) == words(v@.take(i as int)),
            !open ==> out@ == words(v@.take(i as int)) && cur@.len() == 0,
        decreases v.len() - i,
    {
        let ghost t = v@.take(i + 1);
        assert(t.drop_last() =~= v@.take(i as int));
        assert(t.last() == v@[i as int]);
        assert(i > 0 ==> t[t.len() - 2] == v@[i - 1]);
        if space(v[i]) {
            if open {
                out.push(cur);
                cur = String::new();
                open = false;
            }
        } else {
            let ghost before = out@.push(cur@);
            let ghost was = open;
            cur.push(v[i]);
            open = true;
            proof {
                if was {
                    assert(before.drop_last() =~= out@);
                    assert(out@.push(cur@) =~= words(t));
                } else {
                    assert(cur@ =~= seq![v@[i as int]]);
                    assert(out@.push(cur@) =~= words(t));
                }
            }
        }
        i = i + 1;
    }
    assert(v@.take(i as int) =~= v@);
    if open {
        out.push(cur);
    }
    out
}

/// A line without the carriage return in front of its line feed.
pub open spec fn strip_cr(s: Seq<char>) -> Seq<char> {
    if s.len() > 0 && s.last() == '\r' {
        s.drop_last()
    } else {
        s
    }
}

/// The lines of `s`: ended by a line feed or by a carriage return and a line
/// feed; the last one needs no end.
pub open spec fn lines(s: Seq<char>) -> Seq<Seq<char>> {
    let p = split(s, '\n');
    let full = p.drop_last().map_values(|l: Seq<char>| strip_cr(l));
    if p.last().len() == 0 {
        full
    } else {
        full.push(p.last())
    }
}

/// The lines of `s`.
pub fn lines_of(s: &str) -> (r: TextList)
    ensures
        r@ == lines(s@),
{
    let p = split_on(s, '\n');
    proof {
        lemma_split_nonempty(s@, '\n');
    }
    let mut out = TextList::new();
    let mut i: usize = 0;
    let n: usize = p.len() - 1;
    let ghost full = p@.drop_last().map_values(|l: Seq<char>| strip_cr(l));
    assert(out@ =~= full.take(0));
    while i < n
        invariant
            i <= n,
            n == p@.len() - 1,
            full == p@.drop_last().map_values(|l: Seq<char>| strip_cr(l)),
            out@ == full.take(i as int),
        decreases n - i,
    {
        let l: Vec<char> = chars(p.get(i));
        let stop: usize = if l.len() > 0 && l[l.len() - 1] == '\r' {
            l.len() - 1
        } else {
            l.len()
        };
        let piece = slice_text(&l, 0, stop);
        assert(piece@ =~= strip_cr(p@[i as int]));
        out.push(piece);
        i = i + 1;
        assert(out@ =~= full.take(i as int));
    }
    assert(full.take(n as int) =~= full);
    let last = p.get(n);
    if !last.is_empty() {
        out.push(text(last));
    }
    out
}

// ---------------------------------------------------------------------------
// Repetition and escaping
// ---------------------------------------------------------------------------

/// `s` written `n` times.
pub open spec fn repeated(s: Seq<char>, n: nat) -> Seq<char>
    decreases n,
{
    if n == 0 {
        Seq::empty()
    } else {
        repeated(s, (n - 1) as nat) + s
    }
}

proof fn lemma_repeated_empty(s: Seq<char>, n: nat)
    requires
        s.len() == 0,
    ensures
        repeated(s, n) =~= Seq::<char>::empty(),
    decreases n,
{
    if n > 0 {
        lemma_repeated_empty(s, (n - 1) as nat);
    }
}

/// `s` written `n` times.
pub fn repeat(s: &str, n: usize) -> (r: String)
    ensures
        r@ == repeated(s@, n as nat),
{
    let mut out = String::new();
    if s.is_empty() {
        proof {
            lemma_repeated_empty(s@, n as nat);
        }
        return out;
    }
    let mut i: usize = 0;
    while i < n
        invariant
            i <= n,
            out@ == repeated(s@, i as nat),
        decreases n - i,
    {
        out.append(s);
        i = i + 1;
    }
    out
}

/// One character of a string constant as the assembler's string syntax
/// writes it.
pub open spec fn asm_escape(c: char) -> Seq<char> {
    if c == '\\' {
        seq!['\\', '\\']
    } else if c == '"' {
        seq!['\\', '"']
    } else if c == '\n' {
        seq!['\\', 'n']
    } else if c == '\r' {
        seq!['\\', 'r']
    } else if c == '\t' {
        seq!['\\', 't']
    } else if c == '\0' {
        seq!['\\', '0']
    } else {
        seq![c]
    }
}

/// A string constant as the assembler's string syntax writes it.
pub open spec fn asm_escaped(s: Seq<char>) -> Seq<char>
    decreases s.len(),
{
    if s.len() == 0 {
        Seq::empty()
    } else {
        asm_escaped(s.drop_last()) + asm_escape(s.last())
    }
}

/// Appends a string constant in the assembler's string syntax.
pub fn push_asm_escaped(out: &mut String, s: &str)
    ensures
        final(out)@ == old(out)@ + asm_escaped(s@),
{
    let v: Vec<char> = chars(s);
    let mut i: usize = 0;
    assert(v@.take(0) =~= Seq::<char>::empty());
    assert(out@ =~= old(out)@ + asm_escaped(v@.take(0)));
    while i < v.len()
        invariant
            i <= v.len(),
            out@ == old(out)@ + asm_escaped(v@.take(i as int)),
        decreases v.len() - i,
    {
        let c: char = v[i];
        assert(v@.take(i + 1).drop_last() =~= v@.take(i as int));
        if c == '\\' {
            out.push('\\');
            out.push('\\');
        } else if c == '"' {
            out.push('\\');
            out.push('"');
        } else if c == '\n' {
            out.push('\\');
            out.push('n');
        } else if c == '\r' {
            out.push('\\');
            out.push('r');
        } else if c == '\t' {
            out.push('\\');
            out.push('t');
        } else if c == '\0' {
            out.push('\\');
            out.push('0');
        } else {
            out.push(c);
        }
        i = i + 1;
        assert(out@ =~= old(out)@ + asm_escaped(v@.take(i as int)));
    }
    assert(v@.take(i as int) =~= v@);
}

// ---------------------------------------------------------------------------
// Maps between texts
// ---------------------------------------------------------------------------

/// A map from texts to texts.
pub struct TextMap {
    entries: StringHashMap<String>,
}

impl View for TextMap {
    type V = Map<Seq<char>, Seq<char>>;

    closed spec fn view(&self) -> Map<Seq<char>, Seq<char>> {
        self.entries@.map_values(|s: String| s@)
    }
}

impl TextMap {
    /// The empty map.
    pub fn new() -> (r: Self)
        ensures
            r@ == Map::<Seq<char>, Seq<char>>::empty(),
    {
        let r = TextMap { entries: StringHashMap::new() };
        assert(r@ =~= Map::<Seq<char>, Seq<char>>::empty());
        r
    }

    /// Sets the value of a key.
    pub fn insert(&mut self, key: String, value: String)
        ensures
            final(self)@ == old(self)@.insert(key@, value@),
    {
        self.entries.insert(key, value);
        assert(self@ =~= old(self)@.insert(key@, value@));
    }

    /// The value of a key.
    pub fn get(&self, key: &str) -> (r: Option<&str>)
        ensures
            match r {
                Some(v) => self@.contains_key(key@) && self@[key@] == v@,
                None => !self@.contains_key(key@),
            },
    {
        match self.entries.get(key) {
            Some(v) => Some(v.as_str()),
            None => None,
        }
    }

    /// Whether the key has a value.
    pub fn contains_key(&self, key: &str) -> (r: bool)
        ensures
            r == self@.contains_key(key@),
    {
        self.entries.contains_key(key)
    }

    /// Forgets everything.
    pub fn clear(&mut self)
        ensures
            final(self)@ == Map::<Seq<char>, Seq<char>>::empty(),
    {
        self.entries.clear();
        assert(self@ =~= Map::<Seq<char>, Seq<char>>::empty());
    }
}

// ---------------------------------------------------------------------------
// Symbols, suffixes and case
// ---------------------------------------------------------------------------

/// The character is an ASCII letter, an ASCII digit or an underscore.
pub open spec fn is_word(c: char) -> bool {
    ('0' <= c && c <= '9') || ('A' <= c && c <= 'Z') || ('a' <= c && c <= 'z') || c == '_'
}

/// `s` with an underscore in place of everything that no symbol may hold.
pub open spec fn sanitized(s: Seq<char>) -> Seq<char> {
    Seq::new(
        s.len(),
        |i: int|
            if is_word(s[i]) {
                s[i]
            } else {
                '_'
            },
    )
}

/// A symbol made of `s`.
pub fn sanitize_symbol(s: &str) -> (r: String)
    ensures
        r@ == sanitized(s@),
{
    let v: Vec<char> = chars(s);
    let mut out = String::new();
    let mut i: usize = 0;
    while i < v.len()
        invariant
            i <= v.len(),
            v@ == s@,
            out@ == sanitized(s@).take(i as int),
        decreases v.len() - i,
    {
        let c: char = v[i];
        if ('0' <= c && c <= '9') || ('A' <= c && c <= 'Z') || ('a' <= c && c <= 'z') || c == '_' {
            out.push(c);
        } else {
            out.push('_');
        }
        i = i + 1;
        assert(out@ =~= sanitized(s@).take(i as int));
    }
    assert(sanitized(s@).take(i as int) =~= sanitized(s@));
    out
}

/// Sanitizing a symbol again changes nothing.
pub proof fn law_sanitize_is_idempotent(s: Seq<char>)
    ensures
        sanitized(sanitized(s)) == sanitized(s),
        forall|i: int| 0 <= i < s.len() ==> is_word(#[trigger] sanitized(s)[i]),
        sanitized(s).len() == s.len(),
{
    assert(sanitized(sanitized(s)) =~= sanitized(s));
}

/// One character inside an LLVM string, where `feed` says that a line feed is
/// written as its code.
pub open spec fn llvm_escape(c: char, feed: bool) -> Seq<char> {
    if c == '\\' {
        seq!['\\', '\\']
    } else if c == '"' {
        seq!['\\', '"']
    } else if feed && c == '\n' {
        seq!['\\', '0', 'A']
    } else {
        seq![c]
    }
}

/// A text inside an LLVM string.
pub open spec fn llvm_escaped(s: Seq<char>, feed: bool) -> Seq<char>
    decreases s.len(),
{
    if s.len() == 0 {
        Seq::empty()
    } else {
        llvm_escaped(s.drop_last(), feed) + llvm_escape(s.last(), feed)
    }
}

/// A text inside an LLVM string.
pub fn escape_llvm(s: &str, feed: bool) -> (r: String)
    ensures
        r@ == llvm_escaped(s@, feed),
{
    let v: Vec<char> = chars(s);
    let mut out = String::new();
    let mut i: usize = 0;
    assert(v@.take(0) =~= Seq::<char>::empty());
    while i < v.len()
        invariant
            i <= v.len(),
            v@ == s@,
            out@ == llvm_escaped(s@.take(i as int), feed),
        decreases v.len() - i,
    {
        assert(s@.take(i + 1).drop_last() =~= s@.take(i as int));
        let c: char = v[i];
        if c == '\\' {
            out.push('\\');
            out.push('\\');
        } else if c == '"' {
            out.push('\\');
            out.push('"');
        } else if feed && c == '\n' {
            out.push('\\');
            out.push('0');
            out.push('A');
        } else {
            out.push(c);
        }
        i = i + 1;
        assert(out@ =~= llvm_escaped(s@.take(i as int), feed));
    }
    assert(s@.take(i as int) =~= s@);
    out
}

/// `s` without the suffix `pat`, however often it stands there.
pub open spec fn without_suffix(s: Seq<char>, pat: Seq<char>) -> Seq<char>
    decreases s.len(),
{
    if pat.len() > 0 && ends(s, pat) {
        without_suffix(s.take(s.len() - pat.len()), pat)
    } else {
        s
    }
}

/// `s` without the suffix `pat`, however often it stands there.
pub fn trim_suffix(s: &str, pat: &str) -> (r: String)
    ensures
        r@ == without_suffix(s@, pat@),
{
    let v: Vec<char> = chars(s);
    let p: Vec<char> = chars(pat);
    let mut n: usize = v.len();
    assert(v@.take(n as int) =~= v@);
    while p.len() > 0 && n >= p.len() && occurs_at(&v, &p, n - p.len())
        invariant
            v@ == s@,
            p@ == pat@,
            n <= v.len(),
            without_suffix(s@, pat@) == without_suffix(v@.take(n as int), pat@),
        decreases n,
    {
        proof {
            let cur = v@.take(n as int);
            assert(cur.subrange(cur.len() - p@.len(), cur.len() as int) =~= v@.subrange(
                n - p@.len(),
                n as int,
            ));
            assert(ends(cur, pat@));
            assert(cur.take(n - p@.len()) =~= v@.take(n - p@.len()));
        }
        n = n - p.len();
    }
    proof {
        let cur = v@.take(n as int);
        if p@.len() > 0 && ends(cur, pat@) {
            assert(cur.subrange(cur.len() - p@.len(), cur.len() as int) =~= v@.subrange(
                n - p@.len(),
                n as int,
            ));
        }
        assert(v@.subrange(0, n as int) =~= cur);
    }
    slice_text(&v, 0, n)
}

// ---------------------------------------------------------------------------
// Reading back what was written
// ---------------------------------------------------------------------------

/// The text holds no white space.
pub open spec fn spaceless(s: Seq<char>) -> bool {
    forall|i: int| 0 <= i < s.len() ==> !is_space(#[trigger] s[i])
}

/// Decimal digits are read back as the number that they were written for.
pub proof fn law_decimals_read_back(n: nat)
    ensures
        digits_value(dec(n), 10) == Some(n as int),
        n <= u64::MAX ==> parse_unsigned(dec(n), 10) == Some(n as u64),
        dec(n).len() > 0,
        spaceless(dec(n)),
    decreases n,
{
    reveal(dec);
    let s = dec(n);
    if n < 10 {
        assert(s.drop_last() =~= Seq::<char>::empty());
    } else {
        law_decimals_read_back(n / 10);
        assert(s.drop_last() =~= dec(n / 10));
        lemma_first_digit(n / 10);
    }
    lemma_first_digit(n);
}

/// The decimal text of a 64-bit number is read back as the number.
pub proof fn law_numbers_read_back(i: i64)
    ensures
        parse_signed(int_dec(i as int)) == Some(i),
        int_dec(i as int).len() > 0,
        int_dec(i as int)[0] != '%',
{
    reveal(int_dec);
    let s = int_dec(i as int);
    if i < 0 {
        let d = dec((-i) as nat);
        law_decimals_read_back((-i) as nat);
        assert(s.skip(1) =~= d);
    } else {
        law_decimals_read_back(i as nat);
        lemma_first_digit(i as nat);
    }
}

/// Different numbers have different digits.
pub proof fn lemma_dec_differs(a: nat, b: nat)
    requires
        a != b,
    ensures
        dec(a) != dec(b),
{
    law_decimals_read_back(a);
    law_decimals_read_back(b);
}

/// Decimal digits begin with a digit.
proof fn lemma_first_digit(n: nat)
    ensures
        dec(n).len() > 0,
        '0' <= dec(n)[0] && dec(n)[0] <= '9',
    decreases n,
{
    reveal(dec);
    if n >= 10 {
        lemma_first_digit(n / 10);
    }
}

/// A word behind white space is one more word.
pub proof fn lemma_words_append(s: Seq<char>, w: Seq<char>)
    requires
        s.len() == 0 || is_space(s.last()),
        w.len() > 0,
        spaceless(w),
    ensures
        words(s + w) == words(s).push(w),
    decreases w.len(),
{
    let t = s + w;
    assert(t.last() == w.last());
    assert(t.drop_last() =~= s + w.drop_last());
    if w.len() == 1 {
        assert(t.drop_last() =~= s);
        assert(w =~= seq![w.last()]);
        assert(s.len() > 0 ==> t[t.len() - 2] == s.last());
    } else {
        lemma_words_append(s, w.drop_last());
        assert(t[t.len() - 2] == w[w.len() - 2]);
        let r = words(s).push(w.drop_last());
        assert(r.drop_last() =~= words(s));
        assert(w.drop_last().push(w.last()) =~= w);
    }
}

/// White space at the end adds no word.
pub proof fn lemma_words_space(s: Seq<char>, c: char)
    requires
        is_space(c),
    ensures
        words(s.push(c)) == words(s),
{
    assert(s.push(c).drop_last() =~= s);
}

/// A text that neither begins nor ends with white space is its own trimmed form.
pub proof fn lemma_trimmed(s: Seq<char>)
    requires
        s.len() > 0,
        !is_space(s[0]),
        !is_space(s.last()),
    ensures
        trimmed(s) == s,
{
}

/// A text without the separator goes to the last piece.
proof fn lemma_split_append(s: Seq<char>, l: Seq<char>, c: char)
    requires
        forall|i: int| 0 <= i < l.len() ==> l[i] != c,
    ensures
        split(s + l, c) == split(s, c).drop_last().push(split(s, c).last() + l),
    decreases l.len(),
{
    lemma_split_nonempty(s, c);
    let r = split(s, c);
    if l.len() == 0 {
        assert(s + l =~= s);
        assert(r.last() + l =~= r.last());
        assert(r.drop_last().push(r.last()) =~= r);
    } else {
        lemma_split_append(s, l.drop_last(), c);
        assert((s + l).drop_last() =~= s + l.drop_last());
        assert((s + l).last() == l.last());
        let q = r.drop_last().push(r.last() + l.drop_last());
        assert(q.drop_last() =~= r.drop_last());
        assert((r.last() + l.drop_last()).push(l.last()) =~= r.last() + l);
    }
}

/// A text ends where a line begins.
pub open spec fn at_line_start(s: Seq<char>) -> bool {
    split(s, '\n').last().len() == 0
}

/// A line that is added to a text is one more line; a carriage return at its end
/// is no part of it.
pub proof fn lemma_lines_append(s: Seq<char>, l: Seq<char>)
    requires
        at_line_start(s),
        forall|i: int| 0 <= i < l.len() ==> l[i] != '\n',
    ensures
        lines(s + l + "\n"@) == lines(s).push(strip_cr(l)),
        at_line_start(s + l + "\n"@),
{
    reveal_strlit("\n");
    lemma_split_nonempty(s, '\n');
    lemma_split_append(s, l, '\n');
    let p = split(s, '\n');
    assert(p.last() + l =~= l);
    let t = s + l + "\n"@;
    assert(t.drop_last() =~= s + l);
    assert(t.last() == '\n');
    let q = split(t, '\n');
    assert(q =~= p.drop_last().push(l).push(Seq::<char>::empty()));
    assert(q.drop_last() =~= p.drop_last().push(l));
    assert(lines(t) =~= lines(s).push(strip_cr(l)));
}

/// An empty text ends where a line begins.
pub proof fn lemma_lines_empty()
    ensures
        at_line_start(Seq::empty()),
        lines(Seq::empty()) == Seq::<Seq<char>>::empty(),
{
    assert(lines(Seq::empty()) =~= Seq::<Seq<char>>::empty());
}

/// The character is a letter or a number by `char::is_alphanumeric`.
pub uninterp spec fn alphanumeric(c: char) -> bool;

/// `char::is_alphanumeric` depends on the character alone; among the ASCII
/// characters it holds of the letters and digits.  Which of the other
/// characters are letters or numbers is not stated.
#[verifier::external_body]
pub(crate) fn is_letter_or_number(c: char) -> (r: bool)
    ensures
        r == alphanumeric(c),
        c < '\u{80}' ==> r == (('0' <= c && c <= '9') || ('A' <= c && c <= 'Z') || ('a' <= c
            && c <= 'z')),
{
    c.is_alphanumeric()
}

/// The upper-case equivalent of a text, as `str::to_uppercase` gives it.
pub uninterp spec fn uppercase(s: Seq<char>) -> Seq<char>;

/// The text holds ASCII characters only.
pub open spec fn is_ascii(s: Seq<char>) -> bool {
    forall|i: int| 0 <= i < s.len() ==> #[trigger] s[i] < '\u{80}'
}

/// The text with its ASCII small letters as capitals.
pub open spec fn ascii_upper(s: Seq<char>) -> Seq<char> {
    Seq::new(
        s.len(),
        |i: int|
            if 'a' <= s[i] && s[i] <= 'z' {
                (s[i] as u32 - 32) as char
            } else {
                s[i]
            },
    )
}

/// `str::to_uppercase` gives the upper-case equivalent of a text, which
/// depends on the text alone.  Of a text in ASCII it is the text with its small
/// letters as capitals; of other texts the characters are not stated.
#[verifier::external_body]
pub(crate) fn upper_text(s: &str) -> (r: String)
    ensures
        r@ == uppercase(s@),
        is_ascii(s@) ==> r@ == ascii_upper(s@),
{
    s.to_uppercase()
}

} // verus!
