//! The annotations of a declaration: looking them up and reading their
//! arguments.

use vstd::prelude::*;
use crate::ast::{Annotation, AnnotationArg, Expr, StringPart};
use crate::cstar::pir::opt_view;
use crate::cstar::raw::common::{parts_text, string_parts_text};
use crate::error::{CompilerError, fail, outcome};
use crate::text::{
    ascii_upper, begins, chars, dec, dec_text, ends, ends_with, int_dec, int_text, is_ascii,
    parse_u64, parse_unsigned, same, slice_text, starts_with, text, trim, trim_suffix, trimmed,
    upper_text, uppercase, without_suffix,
};

verus! {

// ---------------------------------------------------------------------------
// Values of arguments
// ---------------------------------------------------------------------------

/// The literal has no interpolated piece.
pub open spec fn is_plain(parts: Seq<StringPart>) -> bool {
    forall|i: int| 0 <= i < parts.len() ==> #[trigger] parts[i] is Text
}

/// The text of a string literal without interpolated pieces.
pub open spec fn plain_text(parts: Seq<StringPart>) -> Result<Seq<char>, Seq<char>> {
    if is_plain(parts) {
        Ok(parts_text(parts))
    } else {
        Err("C* annotation strings must be literal text without interpolation"@)
    }
}

/// The text that an expression is: that of a string literal, or a name.
pub open spec fn string_of(e: Expr) -> Result<Seq<char>, Seq<char>> {
    match e {
        Expr::String_(s) => plain_text(s.parts@),
        Expr::MultiLineString(s) => plain_text(s.parts@),
        Expr::Identifier(id) => Ok(id.name@),
        _ => Err("C* annotation argument must be a string literal"@),
    }
}

/// What a function that gives a text or fails has come to.
pub open spec fn text_outcome(r: Result<String, CompilerError>) -> Result<Seq<char>, Seq<char>> {
    match r {
        Ok(s) => Ok(s@),
        Err(e) => Err(e.text()),
    }
}

/// Reads a string literal without interpolated pieces.
pub fn string_parts_to_plain(parts: &Vec<StringPart>) -> (r: Result<String, CompilerError>)
    ensures
        text_outcome(r) == plain_text(parts@),
{
    let mut i: usize = 0;
    while i < parts.len()
        invariant
            i <= parts@.len(),
            forall|j: int| 0 <= j < i ==> #[trigger] parts@[j] is Text,
        decreases parts@.len() - i,
    {
        match &parts[i] {
            StringPart::Text(_) => {},
            _ => {
                assert(!(parts@[i as int] is Text));
                return fail("C* annotation strings must be literal text without interpolation");
            },
        }
        i = i + 1;
    }
    Ok(string_parts_text(parts))
}

/// Reads a text.
pub fn string_from_expr(e: &Expr) -> (r: Result<String, CompilerError>)
    ensures
        text_outcome(r) == string_of(*e),
{
    match e {
        Expr::String_(s) => string_parts_to_plain(&s.parts),
        Expr::MultiLineString(s) => string_parts_to_plain(&s.parts),
        Expr::Identifier(id) => Ok(id.name.clone()),
        _ => fail("C* annotation argument must be a string literal"),
    }
}

/// The integer that an expression is.
pub open spec fn int_of(e: Expr) -> Result<i64, Seq<char>> {
    match e {
        Expr::Integer(i) => Ok(i.value),
        _ => Err("C* annotation integer argument must be an integer literal"@),
    }
}

/// Reads an integer.
pub fn int_from_expr(e: &Expr) -> (r: Result<i64, CompilerError>)
    ensures
        outcome(r) == int_of(*e),
{
    match e {
        Expr::Integer(i) => Ok(i.value),
        _ => fail("C* annotation integer argument must be an integer literal"),
    }
}

/// The text of an argument: an integer in decimal digits, a string or a name;
/// nothing where the argument is neither.
pub open spec fn arg_text(e: Expr) -> Seq<char> {
    match e {
        Expr::Integer(i) => int_dec(i.value as int),
        _ => match string_of(e) {
            Ok(s) => s,
            Err(_) => Seq::empty(),
        },
    }
}

/// Reads an argument as text.
pub fn text_from_expr(e: &Expr) -> (r: String)
    ensures
        r@ == arg_text(*e),
{
    match e {
        Expr::Integer(i) => int_text(i.value),
        _ => match string_from_expr(e) {
            Ok(s) => s,
            Err(_) => {
                let s = String::new();
                assert(s@ =~= Seq::<char>::empty());
                s
            },
        },
    }
}

/// The number of a named priority.
pub open spec fn named_priority(s: Seq<char>) -> i64 {
    if s == "high"@ {
        0
    } else if s == "low"@ {
        10
    } else {
        5
    }
}

/// The priority that an expression is.
pub open spec fn priority_of(e: Expr) -> Result<i64, Seq<char>> {
    match e {
        Expr::Integer(i) => Ok(i.value),
        Expr::String_(s) => match plain_text(s.parts@) {
            Ok(t) => Ok(named_priority(t)),
            Err(m) => Err(m),
        },
        Expr::Identifier(id) => Ok(named_priority(id.name@)),
        _ => Err("C* @isr_group priority must be integer or high/medium/low"@),
    }
}

/// The number of a named priority.
fn priority_number(s: &str) -> (r: i64)
    ensures
        r == named_priority(s@),
{
    if same(s, "high") {
        0
    } else if same(s, "low") {
        10
    } else {
        5
    }
}

/// Reads a priority.
pub fn priority_from_expr(e: &Expr) -> (r: Result<i64, CompilerError>)
    ensures
        outcome(r) == priority_of(*e),
{
    match e {
        Expr::Integer(i) => Ok(i.value),
        Expr::String_(s) => match string_parts_to_plain(&s.parts) {
            Ok(t) => Ok(priority_number(t.as_str())),
            Err(m) => Err(m),
        },
        Expr::Identifier(id) => Ok(priority_number(id.name.as_str())),
        _ => fail("C* @isr_group priority must be integer or high/medium/low"),
    }
}

/// The text of an argument of any form: a string, a name, the digits of an
/// integer, or the printed form of another expression.
pub open spec fn value_text(a: AnnotationArg) -> Seq<char> {
    match a.value {
        Expr::String_(s) => parts_text(s.parts@),
        Expr::Identifier(id) => id.name@,
        Expr::Integer(i) => int_dec(i.value as int),
        _ => a.rendered@,
    }
}

/// The text of an argument of any form.
pub fn annotation_arg_value(a: &AnnotationArg) -> (r: String)
    ensures
        r@ == value_text(*a),
{
    match &a.value {
        Expr::String_(s) => string_parts_text(&s.parts),
        Expr::Identifier(id) => id.name.clone(),
        Expr::Integer(i) => int_text(i.value),
        _ => a.rendered.clone(),
    }
}

/// The name of an argument; nothing where it has none.
pub open spec fn arg_name(a: AnnotationArg) -> Seq<char> {
    match a.name {
        Some(n) => n@,
        None => Seq::empty(),
    }
}

/// The name of an argument.
pub fn name_of_arg(a: &AnnotationArg) -> (r: String)
    ensures
        r@ == arg_name(*a),
{
    match &a.name {
        Some(n) => n.clone(),
        None => {
            let s = String::new();
            assert(s@ =~= Seq::<char>::empty());
            s
        },
    }
}

/// The argument is given by the name `n`.
pub open spec fn named(a: AnnotationArg, n: Seq<char>) -> bool {
    a.name matches Some(m) && m@ == n
}

/// Whether the argument is given by the name `n`.
pub fn is_named(a: &AnnotationArg, n: &str) -> (r: bool)
    ensures
        r == named(*a, n@),
{
    match &a.name {
        Some(m) => same(m.as_str(), n),
        None => false,
    }
}

// ---------------------------------------------------------------------------
// Numbers and sizes in text
// ---------------------------------------------------------------------------

/// The number that `s` is in decimal or, behind `0x`, in hexadecimal digits;
/// zero where it is none.
pub open spec fn number_of(s: Seq<char>) -> u64 {
    let t = trimmed(s);
    let n = if begins(t, "0x"@) || begins(t, "0X"@) {
        parse_unsigned(t.skip(2), 16)
    } else {
        parse_unsigned(t, 10)
    };
    match n {
        Some(v) => v,
        None => 0,
    }
}

/// Reads a hexadecimal (`0x...`) or decimal number.
pub fn parse_hex_or_dec(s: &str) -> (r: u64)
    ensures
        r == number_of(s@),
{
    let t = trim(s);
    let n: Option<u64> = if starts_with(t.as_str(), "0x") || starts_with(t.as_str(), "0X") {
        proof {
            reveal_strlit("0x");
            reveal_strlit("0X");
        }
        let v: Vec<char> = chars(t.as_str());
        let tail = slice_text(&v, 2, v.len());
        assert(tail@ =~= t@.skip(2));
        parse_u64(tail.as_str(), 16)
    } else {
        parse_u64(t.as_str(), 10)
    };
    match n {
        Some(v) => v,
        None => 0,
    }
}

/// The count in front of the unit `unit`; zero where there is none.
pub open spec fn count_before(s: Seq<char>, unit: Seq<char>) -> u64 {
    match parse_unsigned(trimmed(without_suffix(s, unit)), 10) {
        Some(v) => v,
        None => 0,
    }
}

/// The count in front of a unit.
fn read_count(s: &str, unit: &str) -> (r: u64)
    ensures
        r == count_before(s@, unit@),
{
    let t = trim_suffix(s, unit);
    let u = trim(t.as_str());
    match parse_u64(u.as_str(), 10) {
        Some(v) => v,
        None => 0,
    }
}

/// The bytes of a size in capitals: a count of `KB`, `MB` or `B`, or a plain
/// number.
pub open spec fn size_of(s: Seq<char>) -> u64 {
    if ends(s, "KB"@) {
        count_before(s, "KB"@).wrapping_mul(1024)
    } else if ends(s, "MB"@) {
        count_before(s, "MB"@).wrapping_mul(1024).wrapping_mul(1024)
    } else if ends(s, "B"@) {
        count_before(s, "B"@)
    } else {
        number_of(s)
    }
}

/// The bytes of a size in capitals, such as `8KB`, `2MB` or `256B`.
pub fn parse_upper_size(s: &str) -> (r: u64)
    ensures
        r == size_of(s@),
{
    if ends_with(s, "KB") {
        read_count(s, "KB").wrapping_mul(1024)
    } else if ends_with(s, "MB") {
        read_count(s, "MB").wrapping_mul(1024).wrapping_mul(1024)
    } else if ends_with(s, "B") {
        read_count(s, "B")
    } else {
        parse_hex_or_dec(s)
    }
}

/// The bytes of a size in any case of letters.
pub fn parse_size_string(s: &str) -> (r: u64)
    ensures
        r == size_of(uppercase(trimmed(s@))),
        is_ascii(trimmed(s@)) ==> r == size_of(ascii_upper(trimmed(s@))),
{
    let t = trim(s);
    let u = upper_text(t.as_str());
    parse_upper_size(u.as_str())
}

// ---------------------------------------------------------------------------
// Finding annotations
// ---------------------------------------------------------------------------

/// The first annotation of the given name, at or behind `i`.
pub open spec fn find_named(anns: Seq<Annotation>, name: Seq<char>, i: int) -> Option<int>
    decreases anns.len() - i,
{
    if i < 0 || i >= anns.len() {
        None
    } else if anns[i].name@ == name {
        Some(i)
    } else {
        find_named(anns, name, i + 1)
    }
}

/// Some annotation has the given name.
pub open spec fn annotated(anns: Seq<Annotation>, name: Seq<char>) -> bool {
    find_named(anns, name, 0) is Some
}

/// The first annotation of the given name.
pub fn find_annotation<'a>(anns: &'a Vec<Annotation>, name: &str) -> (r: Option<&'a Annotation>)
    ensures
        match r {
            Some(a) => find_named(anns@, name@, 0) is Some && *a == anns@[find_named(
                anns@,
                name@,
                0,
            )->Some_0],
            None => find_named(anns@, name@, 0) is None,
        },
{
    let mut i: usize = 0;
    while i < anns.len()
        invariant
            i <= anns@.len(),
            find_named(anns@, name@, 0) == find_named(anns@, name@, i as int),
        decreases anns@.len() - i,
    {
        if same(anns[i].name.as_str(), name) {
            return Some(&anns[i]);
        }
        i = i + 1;
    }
    None
}

/// The text that the first argument of the annotation `name` is.
pub open spec fn string_annotation(anns: Seq<Annotation>, name: Seq<char>) -> Result<
    Option<Seq<char>>,
    Seq<char>,
> {
    match find_named(anns, name, 0) {
        None => Ok(None),
        Some(i) => if anns[i].arguments@.len() == 0 {
            Err("@"@ + name + " requires a string argument"@)
        } else {
            match string_of(anns[i].arguments@[0].value) {
                Ok(s) => Ok(Some(s)),
                Err(m) => Err(m),
            }
        },
    }
}

/// What a function that gives an optional text or fails has come to.
pub open spec fn opt_outcome(r: Result<Option<String>, CompilerError>) -> Result<
    Option<Seq<char>>,
    Seq<char>,
> {
    match r {
        Ok(s) => Ok(opt_view(s)),
        Err(e) => Err(e.text()),
    }
}

/// Reads the text of the annotation `name`.
pub fn annotation_string(anns: &Vec<Annotation>, name: &str) -> (r: Result<
    Option<String>,
    CompilerError,
>)
    ensures
        opt_outcome(r) == string_annotation(anns@, name@),
{
    match find_annotation(anns, name) {
        None => Ok(None),
        Some(a) => {
            if a.arguments.len() == 0 {
                let mut m = text("@");
                m.append(name);
                m.append(" requires a string argument");
                return Err(CompilerError::codegen_error(m));
            }
            match string_from_expr(&a.arguments[0].value) {
                Ok(s) => Ok(Some(s)),
                Err(m) => Err(m),
            }
        },
    }
}

/// The integer that the first argument of the annotation `name` is.
pub open spec fn int_annotation(anns: Seq<Annotation>, name: Seq<char>) -> Result<
    Option<i64>,
    Seq<char>,
> {
    match find_named(anns, name, 0) {
        None => Ok(None),
        Some(i) => if anns[i].arguments@.len() == 0 {
            Err("@"@ + name + " requires an integer argument"@)
        } else {
            match int_of(anns[i].arguments@[0].value) {
                Ok(n) => Ok(Some(n)),
                Err(m) => Err(m),
            }
        },
    }
}

/// Reads the integer of the annotation `name`.
pub fn annotation_int(anns: &Vec<Annotation>, name: &str) -> (r: Result<
    Option<i64>,
    CompilerError,
>)
    ensures
        outcome(r) == int_annotation(anns@, name@),
{
    match find_annotation(anns, name) {
        None => Ok(None),
        Some(a) => {
            if a.arguments.len() == 0 {
                let mut m = text("@");
                m.append(name);
                m.append(" requires an integer argument");
                return Err(CompilerError::codegen_error(m));
            }
            match int_from_expr(&a.arguments[0].value) {
                Ok(n) => Ok(Some(n)),
                Err(m) => Err(m),
            }
        },
    }
}

/// The key of argument `i`: its name, or its position in decimal digits.
pub open spec fn arg_key(args: Seq<AnnotationArg>, i: int) -> Seq<char> {
    match args[i].name {
        Some(n) => n@,
        None => dec(i as nat),
    }
}

/// The text of the last one among the first `k` arguments whose key is `key`.
pub open spec fn arg_lookup(args: Seq<AnnotationArg>, key: Seq<char>, k: nat) -> Option<Seq<char>>
    decreases k,
{
    if k == 0 || k > args.len() {
        None
    } else if arg_key(args, k - 1) == key {
        Some(arg_text(args[k - 1].value))
    } else {
        arg_lookup(args, key, (k - 1) as nat)
    }
}

/// The text of the last argument whose key is `key`.
pub fn lookup_arg(args: &Vec<AnnotationArg>, key: &str) -> (r: Option<String>)
    ensures
        opt_view(r) == arg_lookup(args@, key@, args@.len()),
{
    let mut k: usize = args.len();
    while k > 0
        invariant
            k <= args@.len(),
            arg_lookup(args@, key@, args@.len()) == arg_lookup(args@, key@, k as nat),
        decreases k,
    {
        let found: bool = match &args[k - 1].name {
            Some(n) => same(n.as_str(), key),
            None => {
                let d = dec_text((k - 1) as u64);
                same(d.as_str(), key)
            },
        };
        if found {
            return Some(text_from_expr(&args[k - 1].value));
        }
        k = k - 1;
    }
    None
}

/// The text under `key` of the arguments, or else `default`.
pub open spec fn arg_or(args: Seq<AnnotationArg>, key: Seq<char>, default: Seq<char>) -> Seq<char> {
    match arg_lookup(args, key, args.len()) {
        Some(v) => v,
        None => default,
    }
}

/// The text under `key` of the arguments, or else `default`.
pub fn arg_or_default(args: &Vec<AnnotationArg>, key: &str, default: &str) -> (r: String)
    ensures
        r@ == arg_or(args@, key@, default@),
{
    match lookup_arg(args, key) {
        Some(v) => v,
        None => text(default),
    }
}

/// The base image and the output file of a `@patch` annotation.
pub open spec fn patch_annotation(anns: Seq<Annotation>) -> Option<(Seq<char>, Seq<char>)> {
    match find_named(anns, "patch"@, 0) {
        None => None,
        Some(i) => Some(
            (
                arg_or(anns[i].arguments@, "base"@, "firmware_base.bin"@),
                arg_or(anns[i].arguments@, "output"@, "update.patch"@),
            ),
        ),
    }
}

/// Reads a `@patch` annotation.
pub fn annotation_patch(anns: &Vec<Annotation>) -> (r: Option<(String, String)>)
    ensures
        match r {
            Some(p) => patch_annotation(anns@) == Some((p.0@, p.1@)),
            None => patch_annotation(anns@) is None,
        },
{
    match find_annotation(anns, "patch") {
        None => None,
        Some(a) => Some(
            (
                arg_or_default(&a.arguments, "base", "firmware_base.bin"),
                arg_or_default(&a.arguments, "output", "update.patch"),
            ),
        ),
    }
}

/// The priority and the budget that the arguments at and behind `i` give, with
/// `priority` and `budget` where they give none.
pub open spec fn isr_args(args: Seq<AnnotationArg>, i: int, priority: i64, budget: i64) -> Result<
    (i64, i64),
    Seq<char>,
>
    decreases args.len() - i,
{
    if i < 0 || i >= args.len() {
        Ok((priority, budget))
    } else {
        let e = args[i].value;
        match args[i].name {
            Some(n) => if n@ == "priority"@ {
                match priority_of(e) {
                    Ok(p) => isr_args(args, i + 1, p, budget),
                    Err(m) => Err(m),
                }
            } else if n@ == "budget_us"@ || n@ == "budget"@ {
                match int_of(e) {
                    Ok(b) => isr_args(args, i + 1, priority, b),
                    Err(m) => Err(m),
                }
            } else if n@ == "vector"@ || n@ == "period_us"@ || n@ == "period"@ {
                isr_args(args, i + 1, priority, budget)
            } else {
                Err("@isr_group unknown parameter '"@ + n@ + "'"@)
            },
            None => match int_of(e) {
                Ok(b) => isr_args(args, i + 1, priority, b),
                Err(m) => Err(m),
            },
        }
    }
}

/// The priority and the budget of an `@isr_group` annotation.
pub open spec fn isr_annotation(anns: Seq<Annotation>) -> Result<Option<(i64, i64)>, Seq<char>> {
    match find_named(anns, "isr_group"@, 0) {
        None => Ok(None),
        Some(i) => match isr_args(anns[i].arguments@, 0, 0, 0) {
            Ok(p) => Ok(Some(p)),
            Err(m) => Err(m),
        },
    }
}

/// Reads an `@isr_group` annotation.
pub fn annotation_isr(anns: &Vec<Annotation>) -> (r: Result<Option<(i64, i64)>, CompilerError>)
    ensures
        outcome(r) == isr_annotation(anns@),
{
    let a = match find_annotation(anns, "isr_group") {
        None => {
            return Ok(None);
        },
        Some(a) => a,
    };
    let args = &a.arguments;
    let mut priority: i64 = 0;
    let mut budget: i64 = 0;
    let mut i: usize = 0;
    while i < args.len()
        invariant
            i <= args@.len(),
            isr_args(args@, 0, 0, 0) == isr_args(args@, i as int, priority, budget),
            find_named(anns@, "isr_group"@, 0) is Some,
            *a == anns@[find_named(anns@, "isr_group"@, 0)->Some_0],
            args@ == a.arguments@,
        decreases args@.len() - i,
    {
        let e = &args[i].value;
        match &args[i].name {
            Some(n) => {
                let n = n.as_str();
                if same(n, "priority") {
                    match priority_from_expr(e) {
                        Ok(p) => {
                            priority = p;
                        },
                        Err(m) => {
                            return Err(m);
                        },
                    }
                } else if same(n, "budget_us") || same(n, "budget") {
                    match int_from_expr(e) {
                        Ok(b) => {
                            budget = b;
                        },
                        Err(m) => {
                            return Err(m);
                        },
                    }
                } else if same(n, "vector") || same(n, "period_us") || same(n, "period") {
                } else {
                    let mut m = text("@isr_group unknown parameter '");
                    m.append(n);
                    m.append("'");
                    return Err(CompilerError::codegen_error(m));
                }
            },
            None => {
                match int_from_expr(e) {
                    Ok(b) => {
                        budget = b;
                    },
                    Err(m) => {
                        return Err(m);
                    },
                }
            },
        }
        i = i + 1;
    }
    Ok(Some((priority, budget)))
}

/// The text of the first argument named `size`, at or behind `i`.
pub open spec fn size_arg(args: Seq<AnnotationArg>, i: int) -> Option<Seq<char>>
    decreases args.len() - i,
{
    if i < 0 || i >= args.len() {
        None
    } else if named(args[i], "size"@) {
        Some(value_text(args[i]))
    } else {
        size_arg(args, i + 1)
    }
}

/// The bytes that the annotations of the given name at and behind `i` ask for.
pub open spec fn size_annotation(anns: Seq<Annotation>, name: Seq<char>, i: int) -> Option<u64>
    decreases anns.len() - i,
{
    if i < 0 || i >= anns.len() {
        None
    } else {
        match size_arg(anns[i].arguments@, 0) {
            Some(v) => if anns[i].name@ == name {
                Some(size_of(uppercase(trimmed(v))))
            } else {
                size_annotation(anns, name, i + 1)
            },
            None => size_annotation(anns, name, i + 1),
        }
    }
}

/// The text of the first argument named `size`.
fn find_size_arg(args: &Vec<AnnotationArg>) -> (r: Option<String>)
    ensures
        opt_view(r) == size_arg(args@, 0),
{
    let mut i: usize = 0;
    while i < args.len()
        invariant
            i <= args@.len(),
            size_arg(args@, 0) == size_arg(args@, i as int),
        decreases args@.len() - i,
    {
        if is_named(&args[i], "size") {
            return Some(annotation_arg_value(&args[i]));
        }
        i = i + 1;
    }
    None
}

/// Reads a size annotation such as `@stack(size=8KB)`.
pub fn annotation_size(anns: &Vec<Annotation>, name: &str) -> (r: Option<u64>)
    ensures
        r == size_annotation(anns@, name@, 0),
{
    let mut i: usize = 0;
    while i < anns.len()
        invariant
            i <= anns@.len(),
            size_annotation(anns@, name@, 0) == size_annotation(anns@, name@, i as int),
        decreases anns@.len() - i,
    {
        if same(anns[i].name.as_str(), name) {
            match find_size_arg(&anns[i].arguments) {
                Some(v) => {
                    return Some(parse_size_string(v.as_str()));
                },
                None => {},
            }
        }
        i = i + 1;
    }
    None
}

} // verus!
