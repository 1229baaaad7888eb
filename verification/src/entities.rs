//! Character references: a fixed table of named references plus decimal and
//! hexadecimal numeric references, decoded with the HTML rules for text and
//! for attribute values.

use vstd::prelude::*;
use vstd::utf8::*;
use crate::chars::{
    is_ascii_alnum, is_ascii_digit, is_ascii_hexdigit, spec_is_ascii_alnum, spec_is_ascii_digit,
    spec_is_ascii_hexdigit,
};

verus! {

/// The longest name in the HTML named character reference table
/// (`CounterClockwiseContourIntegral`).
pub const MAX_ENTITY_NAME_LENGTH: usize = 31;

pub fn max_entity_name_length() -> (r: usize)
    ensures
        r == MAX_ENTITY_NAME_LENGTH,
{
    MAX_ENTITY_NAME_LENGTH
}

pub open spec fn is2(n: Seq<u8>, a: u8, b: u8) -> bool {
    n.len() == 2 && n[0] == a && n[1] == b
}

pub open spec fn is3(n: Seq<u8>, a: u8, b: u8, c: u8) -> bool {
    n.len() == 3 && n[0] == a && n[1] == b && n[2] == c
}

pub open spec fn is4(n: Seq<u8>, a: u8, b: u8, c: u8, d: u8) -> bool {
    n.len() == 4 && n[0] == a && n[1] == b && n[2] == c && n[3] == d
}

pub open spec fn is5(n: Seq<u8>, a: u8, b: u8, c: u8, d: u8, e: u8) -> bool {
    n.len() == 5 && n[0] == a && n[1] == b && n[2] == c && n[3] == d && n[4] == e
}

pub open spec fn is6(n: Seq<u8>, a: u8, b: u8, c: u8, d: u8, e: u8, f: u8) -> bool {
    n.len() == 6 && n[0] == a && n[1] == b && n[2] == c && n[3] == d && n[4] == e && n[5] == f
}

/// The named references this decoder knows: the code point each stands for,
/// and whether HTML also recognises it without a terminating `;`.
pub open spec fn spec_named_entity(n: Seq<u8>) -> Option<(u32, bool)> {
    if is2(n, 108, 116) { Some((60, true)) }  // lt
    else if is2(n, 103, 116) { Some((62, true)) }  // gt
    else if is3(n, 97, 109, 112) { Some((38, true)) }  // amp
    else if is3(n, 114, 101, 103) { Some((174, true)) }  // reg
    else if is3(n, 100, 101, 103) { Some((176, true)) }  // deg
    else if is3(n, 121, 101, 110) { Some((165, true)) }  // yen
    else if is4(n, 113, 117, 111, 116) { Some((34, true)) }  // quot
    else if is4(n, 97, 112, 111, 115) { Some((39, false)) }  // apos
    else if is4(n, 110, 98, 115, 112) { Some((160, true)) }  // nbsp
    else if is4(n, 99, 111, 112, 121) { Some((169, true)) }  // copy
    else if is4(n, 99, 101, 110, 116) { Some((162, true)) }  // cent
    else if is4(n, 115, 101, 99, 116) { Some((167, true)) }  // sect
    else if is4(n, 112, 97, 114, 97) { Some((182, true)) }  // para
    else if is4(n, 98, 117, 108, 108) { Some((8226, false)) }  // bull
    else if is4(n, 101, 117, 114, 111) { Some((8364, false)) }  // euro
    else if is5(n, 116, 105, 109, 101, 115) { Some((215, true)) }  // times
    else if is5(n, 112, 111, 117, 110, 100) { Some((163, true)) }  // pound
    else if is5(n, 108, 97, 113, 117, 111) { Some((171, true)) }  // laquo
    else if is5(n, 114, 97, 113, 117, 111) { Some((187, true)) }  // raquo
    else if is5(n, 116, 114, 97, 100, 101) { Some((8482, false)) }  // trade
    else if is5(n, 109, 100, 97, 115, 104) { Some((8212, false)) }  // mdash
    else if is5(n, 110, 100, 97, 115, 104) { Some((8211, false)) }  // ndash
    else if is5(n, 108, 115, 113, 117, 111) { Some((8216, false)) }  // lsquo
    else if is5(n, 114, 115, 113, 117, 111) { Some((8217, false)) }  // rsquo
    else if is5(n, 108, 100, 113, 117, 111) { Some((8220, false)) }  // ldquo
    else if is5(n, 114, 100, 113, 117, 111) { Some((8221, false)) }  // rdquo
    else if is6(n, 100, 105, 118, 105, 100, 101) { Some((247, true)) }  // divide
    else if is6(n, 109, 105, 100, 100, 111, 116) { Some((183, true)) }  // middot
    else if is6(n, 104, 101, 108, 108, 105, 112) { Some((8230, false)) }  // hellip
    else { None }
}

fn eq2(s: &[u8], at: usize, a: u8, b: u8) -> (r: bool)
    requires
        at + 2 <= s@.len(),
    ensures
        r == is2(s@.subrange(at as int, at + 2), a, b),
{
    s[at] == a && s[at + 1] == b
}

fn eq3(s: &[u8], at: usize, a: u8, b: u8, c: u8) -> (r: bool)
    requires
        at + 3 <= s@.len(),
    ensures
        r == is3(s@.subrange(at as int, at + 3), a, b, c),
{
    s[at] == a && s[at + 1] == b && s[at + 2] == c
}

fn eq4(s: &[u8], at: usize, a: u8, b: u8, c: u8, d: u8) -> (r: bool)
    requires
        at + 4 <= s@.len(),
    ensures
        r == is4(s@.subrange(at as int, at + 4), a, b, c, d),
{
    s[at] == a && s[at + 1] == b && s[at + 2] == c && s[at + 3] == d
}

fn eq5(s: &[u8], at: usize, a: u8, b: u8, c: u8, d: u8, e: u8) -> (r: bool)
    requires
        at + 5 <= s@.len(),
    ensures
        r == is5(s@.subrange(at as int, at + 5), a, b, c, d, e),
{
    s[at] == a && s[at + 1] == b && s[at + 2] == c && s[at + 3] == d && s[at + 4] == e
}

fn eq6(s: &[u8], at: usize, a: u8, b: u8, c: u8, d: u8, e: u8, f: u8) -> (r: bool)
    requires
        at + 6 <= s@.len(),
    ensures
        r == is6(s@.subrange(at as int, at + 6), a, b, c, d, e, f),
{
    s[at] == a && s[at + 1] == b && s[at + 2] == c && s[at + 3] == d && s[at + 4] == e && s[at
        + 5] == f
}

/// Looks up the name `s[at..at + len]` in the reference table.
pub fn named_entity(s: &[u8], at: usize, len: usize) -> (r: Option<(u32, bool)>)
    requires
        at + len <= s@.len(),
    ensures
        r == spec_named_entity(s@.subrange(at as int, at + len)),
{
    let ghost n = s@.subrange(at as int, at + len);
    if len == 2 {
        if eq2(s, at, 108, 116) { Some((60, true)) }
        else if eq2(s, at, 103, 116) { Some((62, true)) }
        else { None }
    } else if len == 3 {
        if eq3(s, at, 97, 109, 112) { Some((38, true)) }
        else if eq3(s, at, 114, 101, 103) { Some((174, true)) }
        else if eq3(s, at, 100, 101, 103) { Some((176, true)) }
        else if eq3(s, at, 121, 101, 110) { Some((165, true)) }
        else { None }
    } else if len == 4 {
        if eq4(s, at, 113, 117, 111, 116) { Some((34, true)) }
        else if eq4(s, at, 97, 112, 111, 115) { Some((39, false)) }
        else if eq4(s, at, 110, 98, 115, 112) { Some((160, true)) }
        else if eq4(s, at, 99, 111, 112, 121) { Some((169, true)) }
        else if eq4(s, at, 99, 101, 110, 116) { Some((162, true)) }
        else if eq4(s, at, 115, 101, 99, 116) { Some((167, true)) }
        else if eq4(s, at, 112, 97, 114, 97) { Some((182, true)) }
        else if eq4(s, at, 98, 117, 108, 108) { Some((8226, false)) }
        else if eq4(s, at, 101, 117, 114, 111) { Some((8364, false)) }
        else { None }
    } else if len == 5 {
        if eq5(s, at, 116, 105, 109, 101, 115) { Some((215, true)) }
        else if eq5(s, at, 112, 111, 117, 110, 100) { Some((163, true)) }
        else if eq5(s, at, 108, 97, 113, 117, 111) { Some((171, true)) }
        else if eq5(s, at, 114, 97, 113, 117, 111) { Some((187, true)) }
        else if eq5(s, at, 116, 114, 97, 100, 101) { Some((8482, false)) }
        else if eq5(s, at, 109, 100, 97, 115, 104) { Some((8212, false)) }
        else if eq5(s, at, 110, 100, 97, 115, 104) { Some((8211, false)) }
        else if eq5(s, at, 108, 115, 113, 117, 111) { Some((8216, false)) }
        else if eq5(s, at, 114, 115, 113, 117, 111) { Some((8217, false)) }
        else if eq5(s, at, 108, 100, 113, 117, 111) { Some((8220, false)) }
        else if eq5(s, at, 114, 100, 113, 117, 111) { Some((8221, false)) }
        else { None }
    } else if len == 6 {
        if eq6(s, at, 100, 105, 118, 105, 100, 101) { Some((247, true)) }
        else if eq6(s, at, 109, 105, 100, 100, 111, 116) { Some((183, true)) }
        else if eq6(s, at, 104, 101, 108, 108, 105, 112) { Some((8230, false)) }
        else { None }
    } else {
        None
    }
}

/// Length of the run of ASCII alphanumerics starting at `from`.
pub open spec fn alnum_run(s: Seq<u8>, from: int) -> int
    decreases s.len() - from,
{
    if 0 <= from < s.len() && spec_is_ascii_alnum(s[from]) {
        1 + alnum_run(s, from + 1)
    } else {
        0
    }
}

/// Length of the run of decimal (or, with `hex`, hexadecimal) digits at `from`.
pub open spec fn digit_run(s: Seq<u8>, from: int, hex: bool) -> int
    decreases s.len() - from,
{
    if 0 <= from < s.len() && (if hex { spec_is_ascii_hexdigit(s[from]) } else { spec_is_ascii_digit(s[from]) }) {
        1 + digit_run(s, from + 1, hex)
    } else {
        0
    }
}

pub proof fn lemma_alnum_run_bounds(s: Seq<u8>, from: int)
    requires
        0 <= from <= s.len(),
    ensures
        0 <= alnum_run(s, from) <= s.len() - from,
        forall|k: int| from <= k < from + alnum_run(s, from) ==> spec_is_ascii_alnum(#[trigger] s[k]),
        from + alnum_run(s, from) < s.len() ==> !spec_is_ascii_alnum(s[from + alnum_run(s, from)]),
    decreases s.len() - from,
{
    if from < s.len() && spec_is_ascii_alnum(s[from]) {
        lemma_alnum_run_bounds(s, from + 1);
    }
}

pub proof fn lemma_digit_run_bounds(s: Seq<u8>, from: int, hex: bool)
    requires
        0 <= from <= s.len(),
    ensures
        0 <= digit_run(s, from, hex) <= s.len() - from,
        forall|k: int| from <= k < from + digit_run(s, from, hex) ==> (if hex { spec_is_ascii_hexdigit(#[trigger] s[k]) } else { spec_is_ascii_digit(s[k]) }),
    decreases s.len() - from,
{
    if from < s.len() && (if hex { spec_is_ascii_hexdigit(s[from]) } else { spec_is_ascii_digit(s[from]) }) {
        lemma_digit_run_bounds(s, from + 1, hex);
    }
}

pub fn count_alnum_run(s: &[u8], from: usize) -> (r: usize)
    requires
        from <= s@.len(),
    ensures
        r == alnum_run(s@, from as int),
{
    let mut i = from;
    while i < s.len() && is_ascii_alnum(s[i])
        invariant
            from <= i <= s@.len(),
            alnum_run(s@, from as int) == (i - from) + alnum_run(s@, i as int),
        decreases s@.len() - i,
    {
        i = i + 1;
    }
    i - from
}

pub open spec fn spec_is_radix_digit(c: u8, hex: bool) -> bool {
    if hex { spec_is_ascii_hexdigit(c) } else { spec_is_ascii_digit(c) }
}

#[verifier::when_used_as_spec(spec_is_radix_digit)]
pub fn is_radix_digit(c: u8, hex: bool) -> (r: bool)
    ensures
        r == spec_is_radix_digit(c, hex),
{
    if hex { is_ascii_hexdigit(c) } else { is_ascii_digit(c) }
}

pub fn count_digit_run(s: &[u8], from: usize, hex: bool) -> (r: usize)
    requires
        from <= s@.len(),
    ensures
        r == digit_run(s@, from as int, hex),
{
    let mut i = from;
    while i < s.len() && is_radix_digit(s[i], hex)
        invariant
            from <= i <= s@.len(),
            digit_run(s@, from as int, hex) == (i - from) + digit_run(s@, i as int, hex),
        decreases s@.len() - i,
    {
        i = i + 1;
    }
    i - from
}

/// The longest prefix of `s[start..start + k]`, of length at least 2, that is
/// a reference HTML recognises without `;`; 0 when there is none.
pub open spec fn legacy_prefix(s: Seq<u8>, start: int, k: int) -> int
    decreases k,
{
    if k < 2 {
        0
    } else if spec_named_entity(s.subrange(start, start + k)) matches Some((_, true)) {
        k
    } else {
        legacy_prefix(s, start, k - 1)
    }
}

pub proof fn lemma_legacy_prefix(s: Seq<u8>, start: int, k: int)
    ensures
        legacy_prefix(s, start, k) == 0 || (2 <= legacy_prefix(s, start, k) <= k
            && spec_named_entity(s.subrange(start, start + legacy_prefix(s, start, k))) matches Some((_, true))),
    decreases k,
{
    if k >= 2 {
        lemma_legacy_prefix(s, start, k - 1);
    }
}

fn find_legacy_prefix(s: &[u8], start: usize, k: usize) -> (r: usize)
    requires
        start + k <= s@.len(),
    ensures
        r == legacy_prefix(s@, start as int, k as int),
        r <= k,
{
    let mut j = k;
    while j >= 2
        invariant
            j <= k,
            start + k <= s@.len(),
            legacy_prefix(s@, start as int, k as int) == legacy_prefix(s@, start as int, j as int),
        decreases j,
    {
        match named_entity(s, start, j) {
            Some((_, true)) => return j,
            _ => {},
        }
        j = j - 1;
    }
    0
}

pub open spec fn digit_value(c: u8) -> nat {
    if spec_is_ascii_digit(c) {
        (c - 48) as nat
    } else if 65 <= c <= 70 {
        (c - 55) as nat
    } else {
        (c - 87) as nat
    }
}

/// Value of the digits `s[from..from + k]`, saturating at 0x110000.
pub open spec fn numeric_value(s: Seq<u8>, from: int, k: int, hex: bool) -> nat
    decreases k,
{
    if k <= 0 {
        0
    } else {
        let v = numeric_value(s, from, k - 1, hex) * (if hex { 16nat } else { 10nat }) + digit_value(s[from + k - 1]);
        if v > 0x110000 { 0x110000 } else { v }
    }
}

/// Code point for a numeric reference value: NUL, surrogates and values past
/// U+10FFFF become U+FFFD.
pub open spec fn sanitize_code_point(v: nat) -> u32 {
    if v == 0 || v > 0x10FFFF || (0xD800 <= v <= 0xDFFF) {
        0xFFFD
    } else {
        v as u32
    }
}

/// The reference that starts with the `&` at `i`: how many bytes it spans and
/// the code point it stands for, or `None` when those bytes stay literal.
/// `attr` selects the attribute-value rule for references without `;`.
pub open spec fn entity_at(s: Seq<u8>, i: int, attr: bool) -> Option<(int, u32)> {
    if i + 1 < s.len() && s[i + 1] == 35 {
        let hex = i + 2 < s.len() && (s[i + 2] == 120 || s[i + 2] == 88);
        let d = if hex { i + 3 } else { i + 2 };
        let run = digit_run(s, d, hex);
        if run == 0 {
            None
        } else {
            let semi: int = if d + run < s.len() && s[d + run] == 59 { 1 } else { 0 };
            Some(((d - i) + run + semi, sanitize_code_point(numeric_value(s, d, run, hex))))
        }
    } else {
        let run = alnum_run(s, i + 1);
        if run > 0 && i + 1 + run < s.len() && s[i + 1 + run] == 59
            && spec_named_entity(s.subrange(i + 1, i + 1 + run)) is Some {
            Some((run + 2, spec_named_entity(s.subrange(i + 1, i + 1 + run)).unwrap().0))
        } else {
            let k = legacy_prefix(s, i + 1, if run < 6 { run } else { 6 });
            if k == 0 {
                None
            } else if attr && i + 1 + k < s.len() && (spec_is_ascii_alnum(s[i + 1 + k]) || s[i + 1 + k] == 61) {
                None
            } else {
                Some((k + 1, spec_named_entity(s.subrange(i + 1, i + 1 + k)).unwrap().0))
            }
        }
    }
}

/// Every reference in `s[i..]` replaced by the UTF-8 encoding of its code point.
pub open spec fn decode_from(s: Seq<u8>, i: int, attr: bool) -> Seq<u8>
    decreases s.len() - i,
{
    if i < 0 || i >= s.len() {
        Seq::empty()
    } else if s[i] == 38 && entity_at(s, i, attr) is Some && entity_at(s, i, attr).unwrap().0 > 0
        && i + entity_at(s, i, attr).unwrap().0 <= s.len() {
        let (n, cp) = entity_at(s, i, attr).unwrap();
        encode_scalar(cp) + decode_from(s, i + n, attr)
    } else {
        seq![s[i]] + decode_from(s, i + 1, attr)
    }
}

pub open spec fn decode_entities(s: Seq<u8>, attr: bool) -> Seq<u8> {
    decode_from(s, 0, attr)
}

/// Appends the UTF-8 encoding of a scalar value.
pub fn push_scalar(out: &mut Vec<u8>, cp: u32)
    requires
        is_scalar(cp),
    ensures
        final(out)@ == old(out)@ + encode_scalar(cp),
{
    if cp <= 0x7F {
        out.push((cp & 0x7F) as u8);
    } else if cp <= 0x7FF {
        out.push(0xC0 | ((cp >> 6) & 0x1F) as u8);
        out.push(0x80 | (cp & 0x3F) as u8);
    } else if cp <= 0xFFFF {
        out.push(0xE0 | ((cp >> 12) & 0x0F) as u8);
        out.push(0x80 | ((cp >> 6) & 0x3F) as u8);
        out.push(0x80 | (cp & 0x3F) as u8);
    } else {
        out.push(0xF0 | ((cp >> 18) & 0x7) as u8);
        out.push(0x80 | ((cp >> 12) & 0x3F) as u8);
        out.push(0x80 | ((cp >> 6) & 0x3F) as u8);
        out.push(0x80 | (cp & 0x3F) as u8);
    }
}

fn parse_numeric(s: &[u8], from: usize, k: usize, hex: bool) -> (r: u32)
    requires
        from + k <= s@.len(),
        forall|j: int| from <= j < from + k ==> (if hex { spec_is_ascii_hexdigit(#[trigger] s@[j]) } else { spec_is_ascii_digit(s@[j]) }),
    ensures
        r == numeric_value(s@, from as int, k as int, hex),
{
    let mut v: u32 = 0;
    let mut j: usize = 0;
    let radix: u32 = if hex { 16 } else { 10 };
    while j < k
        invariant
            j <= k,
            from + k <= s@.len(),
            s@.len() == s.len(),
            radix == (if hex { 16u32 } else { 10u32 }),
            forall|t: int| from <= t < from + k ==> (if hex { spec_is_ascii_hexdigit(#[trigger] s@[t]) } else { spec_is_ascii_digit(s@[t]) }),
            v == numeric_value(s@, from as int, j as int, hex),
            v <= 0x110000,
        decreases k - j,
    {
        let c = s[from + j];
        let d: u32 = if is_ascii_digit(c) {
            (c - 48) as u32
        } else if 65 <= c && c <= 70 {
            (c - 55) as u32
        } else {
            (c - 87) as u32
        };
        assert(d <= 15);
        let w: u32 = v * radix + d;
        v = if w > 0x110000 { 0x110000 } else { w };
        j = j + 1;
    }
    v
}

/// The reference at `s[i]` (an `&`), as `entity_at` describes it.
pub fn decode_entity_at(s: &[u8], i: usize, attr: bool) -> (r: Option<(usize, u32)>)
    requires
        i < s@.len(),
        s@[i as int] == 38,
    ensures
        match r {
            Some((n, cp)) => entity_at(s@, i as int, attr) == Some((n as int, cp)) && n > 0
                && i + n <= s@.len() && is_scalar(cp),
            None => entity_at(s@, i as int, attr) is None,
        },
{
    let len = s.len();
    if i + 1 < len && s[i + 1] == 35 {
        let hex = i + 2 < len && (s[i + 2] == 120 || s[i + 2] == 88);
        let d = if hex { i + 3 } else { i + 2 };
        let run = count_digit_run(s, d, hex);
        proof { lemma_digit_run_bounds(s@, d as int, hex); }
        if run == 0 {
            None
        } else {
            let semi: usize = if d + run < len && s[d + run] == 59 { 1 } else { 0 };
            let v = parse_numeric(s, d, run, hex);
            let cp: u32 = if v == 0 || v > 0x10FFFF || (0xD800 <= v && v <= 0xDFFF) { 0xFFFD } else { v };
            Some(((d - i) + run + semi, cp))
        }
    } else {
        let run = count_alnum_run(s, i + 1);
        proof { lemma_alnum_run_bounds(s@, i + 1); }
        if run > 0 && i + 1 + run < len && s[i + 1 + run] == 59 {
            match named_entity(s, i + 1, run) {
                Some((cp, _)) => {
                    proof { assert(is_scalar(cp)); }
                    return Some((run + 2, cp));
                },
                None => {},
            }
        }
        let cap = if run < 6 { run } else { 6 };
        let k = find_legacy_prefix(s, i + 1, cap);
        proof { lemma_legacy_prefix(s@, i + 1, cap as int); }
        if k == 0 {
            None
        } else if attr && i + 1 + k < len && (is_ascii_alnum(s[i + 1 + k]) || s[i + 1 + k] == 61) {
            None
        } else {
            match named_entity(s, i + 1, k) {
                Some((cp, _)) => Some((k + 1, cp)),
                None => None,
            }
        }
    }
}

/// Decodes every character reference in `s`; `attr` selects the attribute-value
/// rule (a reference without `;` followed by `=` or an alphanumeric stays literal).
pub fn decode_html_entities(s: &[u8], attr: bool) -> (r: Vec<u8>)
    ensures
        r@ == decode_entities(s@, attr),
{
    let mut out: Vec<u8> = Vec::new();
    let mut i: usize = 0;
    while i < s.len()
        invariant
            i <= s@.len(),
            decode_entities(s@, attr) == out@ + decode_from(s@, i as int, attr),
        decreases s@.len() - i,
    {
        let c = s[i];
        if c == 38 {
            match decode_entity_at(s, i, attr) {
                Some((n, cp)) => {
                    push_scalar(&mut out, cp);
                    proof {
                        assert(decode_from(s@, i as int, attr) == encode_scalar(cp) + decode_from(s@, i + n, attr));
                    }
                    i = i + n;
                    continue;
                },
                None => {},
            }
        }
        out.push(c);
        proof {
            assert(decode_from(s@, i as int, attr) == seq![c] + decode_from(s@, i + 1, attr));
        }
        i = i + 1;
    }
    out
}

} // verus!
