//! Byte classes used by the tokenizer.

use vstd::prelude::*;

verus! {

/// HTML ASCII whitespace: tab, line feed, form feed, carriage return, space.
pub open spec fn spec_is_whitespace(c: u8) -> bool {
    c == 9 || c == 10 || c == 12 || c == 13 || c == 32
}

/// Whitespace check used by every scanning loop.
#[verifier::when_used_as_spec(spec_is_whitespace)]
pub fn is_whitespace(c: u8) -> (r: bool)
    ensures
        r == spec_is_whitespace(c),
{
    c == 9 || c == 10 || c == 12 || c == 13 || c == 32
}

pub open spec fn spec_is_ascii_digit(c: u8) -> bool {
    48 <= c <= 57
}

pub open spec fn spec_is_ascii_alpha(c: u8) -> bool {
    (65 <= c <= 90) || (97 <= c <= 122)
}

pub open spec fn spec_is_ascii_alnum(c: u8) -> bool {
    spec_is_ascii_digit(c) || spec_is_ascii_alpha(c)
}

pub open spec fn spec_is_ascii_hexdigit(c: u8) -> bool {
    spec_is_ascii_digit(c) || (65 <= c <= 70) || (97 <= c <= 102)
}

#[verifier::when_used_as_spec(spec_is_ascii_digit)]
pub fn is_ascii_digit(c: u8) -> (r: bool)
    ensures
        r == spec_is_ascii_digit(c),
{
    48 <= c && c <= 57
}

#[verifier::when_used_as_spec(spec_is_ascii_alpha)]
pub fn is_ascii_alpha(c: u8) -> (r: bool)
    ensures
        r == spec_is_ascii_alpha(c),
{
    (65 <= c && c <= 90) || (97 <= c && c <= 122)
}

#[verifier::when_used_as_spec(spec_is_ascii_alnum)]
pub fn is_ascii_alnum(c: u8) -> (r: bool)
    ensures
        r == spec_is_ascii_alnum(c),
{
    is_ascii_digit(c) || is_ascii_alpha(c)
}

#[verifier::when_used_as_spec(spec_is_ascii_hexdigit)]
pub fn is_ascii_hexdigit(c: u8) -> (r: bool)
    ensures
        r == spec_is_ascii_hexdigit(c),
{
    is_ascii_digit(c) || (65 <= c && c <= 70) || (97 <= c && c <= 102)
}

/// ASCII lowercase mapping of one byte; every other byte is unchanged.
pub open spec fn spec_to_lower(c: u8) -> u8 {
    if 65 <= c <= 90 {
        (c + 32) as u8
    } else {
        c
    }
}

/// `a` and `b` are equal once ASCII letters are lowercased.
pub open spec fn same_ignoring_case(a: Seq<u8>, b: Seq<u8>) -> bool {
    a.len() == b.len() && forall|k: int| 0 <= k < a.len() ==> #[trigger] spec_to_lower(a[k]) == spec_to_lower(b[k])
}

#[verifier::when_used_as_spec(spec_to_lower)]
pub fn to_lower(c: u8) -> (r: u8)
    ensures
        r == spec_to_lower(c),
{
    if 65 <= c && c <= 90 {
        c + 32
    } else {
        c
    }
}

/// The ASCII-lowercased copy of a byte string.
pub open spec fn lower_seq(s: Seq<u8>) -> Seq<u8> {
    s.map_values(|c: u8| spec_to_lower(c))
}

pub fn to_ascii_lowercase(s: &[u8]) -> (r: Vec<u8>)
    ensures
        r@ == lower_seq(s@),
{
    let mut out: Vec<u8> = Vec::new();
    let mut i: usize = 0;
    while i < s.len()
        invariant
            i <= s@.len(),
            out@ == lower_seq(s@.subrange(0, i as int)),
        decreases s@.len() - i,
    {
        out.push(to_lower(s[i]));
        i = i + 1;
        assert(lower_seq(s@.subrange(0, i as int)) =~= lower_seq(s@.subrange(0, i - 1)).push(spec_to_lower(s@[i - 1])));
    }
    assert(s@.subrange(0, s@.len() as int) =~= s@);
    out
}

} // verus!
