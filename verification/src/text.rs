//! Text: comparing, splitting and assembling strings.
//!
//! Every message that the matcher builds is stated as a sequence of characters
//! and assembled here from literals, recorded names and decimal numbers.
use vstd::prelude::*;
use vstd::string::StringExecFns;

verus! {

// ── Functions of the standard library ───────────────────────────────────────
/// `String::push` appends the given character to the end of the string.
pub assume_specification[ String::push ](s: &mut String, c: char)
    ensures
        final(s)@ == old(s)@.push(c),
;

/// `==` on `str`: two string slices are equal when they hold the same characters.
#[verifier::external_body]
pub(crate) fn str_eq(a: &str, b: &str) -> (r: bool)
    ensures
        r == (a@ == b@),
{
    a == b
}

/// `<` on `str`: strings are ordered character by character, by the value of
/// the first character in which they differ, a proper prefix coming first.
#[verifier::external_body]
pub(crate) fn str_before(a: &str, b: &str) -> (r: bool)
    ensures
        r == precedes(a@, b@),
{
    a < b
}

/// `str::strip_prefix` with a string pattern: the rest of `s` behind `prefix`
/// when `s` starts with it, and nothing otherwise.
#[verifier::external_body]
pub(crate) fn strip_prefix<'a>(s: &'a str, prefix: &str) -> (r: Option<&'a str>)
    ensures
        r is Some <==> prefix@.is_prefix_of(s@),
        r matches Some(rest) ==> rest@ == s@.skip(prefix@.len() as int),
{
    s.strip_prefix(prefix)
}

/// `str::split_once` with a character pattern: what stands before and behind
/// the first occurrence of `c` in `s`, and nothing when there is none.
#[verifier::external_body]
pub(crate) fn split_once<'a>(s: &'a str, c: char) -> (r: Option<(&'a str, &'a str)>)
    ensures
        r is Some <==> s@.contains(c),
        r matches Some(parts) ==> {
            &&& !parts.0@.contains(c)
            &&& s@ == parts.0@.push(c) + parts.1@
        },
{
    s.split_once(c)
}

// ── Order ───────────────────────────────────────────────────────────────────
/// Whether `a` comes strictly before `b` in character order.
pub open spec fn precedes(a: Seq<char>, b: Seq<char>) -> bool
    decreases a.len(),
{
    if b.len() == 0 {
        false
    } else if a.len() == 0 {
        true
    } else if a[0] != b[0] {
        a[0] < b[0]
    } else {
        precedes(a.drop_first(), b.drop_first())
    }
}

// ── Numbers ─────────────────────────────────────────────────────────────────
/// The character of a decimal digit.
pub open spec fn digit(n: nat) -> char
    recommends
        n < 10,
{
    (('0' as nat) + n) as char
}

/// The decimal digits of `n`, most significant first.
pub open spec fn decimal(n: nat) -> Seq<char>
    decreases n,
{
    if n < 10 {
        seq![digit(n)]
    } else {
        decimal(n / 10).push(digit(n % 10))
    }
}

/// The character of a decimal digit.
fn digit_char(n: u64) -> (c: char)
    requires
        n < 10,
    ensures
        c == digit(n as nat),
{
    let code: u8 = 48u8 + (n as u8);
    code as char
}

/// Appends the decimal digits of `n`.
pub(crate) fn push_decimal(out: &mut String, n: u64)
    ensures
        final(out)@ == old(out)@ + decimal(n as nat),
    decreases n,
{
    let ghost start = out@;
    if n >= 10 {
        push_decimal(out, n / 10);
    }
    out.push(digit_char(n % 10));
    assert(out@ =~= start + decimal(n as nat));
}

// ── Assembled messages ──────────────────────────────────────────────────────
/// `kind(argument)`.
pub open spec fn tagged(kind: Seq<char>, argument: Seq<char>) -> Seq<char> {
    kind + "("@ + argument + ")"@
}

/// Assembles `kind(argument)`.
pub fn tag(kind: &str, argument: &str) -> (r: String)
    ensures
        r@ == tagged(kind@, argument@),
{
    let mut out: String = kind.to_string();
    out.append("(");
    out.append(argument);
    out.append(")");
    out
}

/// `prefix` followed by the decimal digits of `n`.
pub open spec fn numbered(prefix: Seq<char>, n: nat) -> Seq<char> {
    prefix + decimal(n)
}

/// Assembles `prefix` followed by the decimal digits of `n`.
pub(crate) fn number(prefix: &str, n: u64) -> (r: String)
    ensures
        r@ == numbered(prefix@, n as nat),
{
    let mut out: String = prefix.to_string();
    push_decimal(&mut out, n);
    out
}

/// A string glued to another.
pub fn glue(a: &str, b: &str) -> (r: String)
    ensures
        r@ == a@ + b@,
{
    let mut out: String = a.to_string();
    out.append(b);
    out
}

/// An optional number as it is shown to a developer: `Some(7)` or `None`.
pub open spec fn shown_option(n: Option<u64>) -> Seq<char> {
    match n {
        Some(n) => "Some("@ + decimal(n as nat) + ")"@,
        None => "None"@,
    }
}

/// Assembles [`shown_option`].
pub(crate) fn show_option(n: Option<u64>) -> (r: String)
    ensures
        r@ == shown_option(n),
{
    match n {
        Some(n) => {
            let mut out: String = "Some(".to_string();
            push_decimal(&mut out, n);
            out.append(")");
            out
        },
        None => "None".to_string(),
    }
}

/// The items of a list of numbers, separated by a comma and a space.
pub open spec fn listed(items: Seq<usize>) -> Seq<char>
    decreases items.len(),
{
    if items.len() == 0 {
        Seq::empty()
    } else if items.len() == 1 {
        decimal(items[0] as nat)
    } else {
        listed(items.drop_last()) + ", "@ + decimal(items.last() as nat)
    }
}

/// A list of numbers as it is shown to a developer: `[1, 2, 3]`.
pub open spec fn shown_list(items: Seq<usize>) -> Seq<char> {
    "["@ + listed(items) + "]"@
}

/// Assembles [`shown_list`].
pub(crate) fn show_list(items: &[usize]) -> (r: String)
    ensures
        r@ == shown_list(items@),
{
    let mut out: String = "[".to_string();
    let mut i: usize = 0;
    while i < items.len()
        invariant
            i <= items@.len(),
            out@ == "["@ + listed(items@.take(i as int)),
        decreases items@.len() - i,
    {
        if i > 0 {
            out.append(", ");
        }
        push_decimal(&mut out, items[i] as u64);
        assert(items@.take(i + 1).drop_last() =~= items@.take(i as int));
        i += 1;
        assert(out@ =~= "["@ + listed(items@.take(i as int)));
    }
    assert(items@.take(i as int) =~= items@);
    out.append("]");
    out
}

} // verus!
