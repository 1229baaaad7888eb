//! Plugin side data: frontmatter from `<head>` and extraction by selector.

use vstd::prelude::*;
use crate::attributes::Attributes;
use crate::scan::{trim_bounds, trim_end_index, trim_start_index};
use crate::text::{bytes_eq, copy_range, string_from_bytes};
use vstd::utf8::{decode_utf8, valid_utf8};
use crate::types::ExtractedElement;
use crate::budget::saturated;
use super::{
    grows_from, ConvertState, Pen, TrackedExtraction, MAX_ACTIVE_EXTRACTIONS, MAX_EXTRACTION_RESULTS, MAX_EXTRACTION_RESULT_BYTES,
    MAX_FRONTMATTER_BYTES, MAX_FRONTMATTER_FIELDS, MAX_FRONTMATTER_VALUE_BYTES,
};
use super::selector::{matches_selector, selector_matches, Selector};

verus! {

/// The upper-case hexadecimal digit of `d` (below 16).
pub open spec fn hex_digit(d: u8) -> u8 {
    if d < 10 { (48 + d) as u8 } else { (55 + d) as u8 }
}

/// The escaped form of `s[i..]` inside a YAML double-quoted scalar: `"` and
/// `\` get a backslash, control characters become `\u00XX`, and the line and
/// paragraph separators U+2028 and U+2029 become `\u2028` and `\u2029`.
pub open spec fn yaml_escaped_from(s: Seq<u8>, i: int) -> Seq<u8>
    decreases s.len() - i,
{
    if i < 0 || i >= s.len() {
        Seq::empty()
    } else if s[i] == 34 {
        seq![92u8, 34u8] + yaml_escaped_from(s, i + 1)
    } else if s[i] == 92 {
        seq![92u8, 92u8] + yaml_escaped_from(s, i + 1)
    } else if s[i] < 32 {
        seq![92u8, 117u8, 48u8, 48u8, hex_digit(s[i] / 16), hex_digit(s[i] % 16)] + yaml_escaped_from(s, i + 1)
    } else if i + 2 < s.len() && s[i] == 0xE2 && s[i + 1] == 0x80 && (s[i + 2] == 0xA8 || s[i + 2] == 0xA9) {
        seq![92u8, 117u8, 50u8, 48u8, 50u8, if s[i + 2] == 0xA8 { 56u8 } else { 57u8 }] + yaml_escaped_from(s, i + 3)
    } else {
        seq![s[i]] + yaml_escaped_from(s, i + 1)
    }
}

/// `value` as a YAML double-quoted scalar.
pub open spec fn yaml_quoted(value: Seq<u8>) -> Seq<u8> {
    seq![34u8] + yaml_escaped_from(value, 0) + seq![34u8]
}

fn hex(d: u8) -> (r: u8)
    requires
        d < 16,
    ensures
        r == hex_digit(d),
{
    if d < 10 { 48 + d } else { 55 + d }
}

/// Writes `value` as a YAML double-quoted scalar.
pub fn yaml_double_quoted(value: &[u8]) -> (r: Vec<u8>)
    ensures
        r@ == yaml_quoted(value@),
{
    let mut out: Vec<u8> = Vec::new();
    out.push(34);
    let n = value.len();
    let mut i: usize = 0;
    while i < n
        invariant
            i <= n == value@.len(),
            seq![34u8] + yaml_escaped_from(value@, 0) == out@ + yaml_escaped_from(value@, i as int),
        decreases n - i,
    {
        let c = value[i];
        let ghost before = out@;
        let ghost i_old = i as int;
        if c == 34 {
            out.push(92);
            out.push(34);
            i = i + 1;
        } else if c == 92 {
            out.push(92);
            out.push(92);
            i = i + 1;
        } else if c < 32 {
            out.push(92);
            out.push(117);
            out.push(48);
            out.push(48);
            out.push(hex(c / 16));
            out.push(hex(c % 16));
            i = i + 1;
        } else if n - i > 2 && c == 0xE2 && value[i + 1] == 0x80 && (value[i + 2] == 0xA8 || value[i + 2] == 0xA9) {
            out.push(92);
            out.push(117);
            out.push(50);
            out.push(48);
            out.push(50);
            out.push(if value[i + 2] == 0xA8 { 56 } else { 57 });
            i = i + 3;
        } else {
            out.push(c);
            i = i + 1;
        }
        assert(before + yaml_escaped_from(value@, i_old) =~= out@ + yaml_escaped_from(value@, i as int));
    }
    out.push(34);
    proof {
        assert(yaml_escaped_from(value@, i as int) =~= Seq::<u8>::empty());
    }
    assert(out@ =~= yaml_quoted(value@));
    out
}

/// Whether `a` sorts before `b` byte by byte.
pub fn bytes_less(a: &[u8], b: &[u8]) -> (r: bool)
    ensures
        r == lex_less(a@, b@, 0),
{
    let n = if a.len() < b.len() { a.len() } else { b.len() };
    let mut k: usize = 0;
    while k < n
        invariant
            k <= n,
            n <= a@.len(),
            n <= b@.len(),
            n == a@.len() || n == b@.len(),
            lex_less(a@, b@, 0) == lex_less(a@, b@, k as int),
        decreases n - k,
    {
        if a[k] != b[k] {
            return a[k] < b[k];
        }
        k = k + 1;
    }
    a.len() < b.len()
}


/// Byte-wise lexicographic order from position `k` on: the first differing
/// byte decides, and a proper prefix comes first.
pub open spec fn lex_less(a: Seq<u8>, b: Seq<u8>, k: int) -> bool
    decreases a.len() - k,
{
    if k < 0 || k >= a.len() || k >= b.len() {
        a.len() < b.len()
    } else if a[k] != b[k] {
        a[k] < b[k]
    } else {
        lex_less(a, b, k + 1)
    }
}

/// Keys in non-decreasing byte order.
pub open spec fn keys_sorted(s: Seq<(Seq<u8>, Seq<u8>)>) -> bool {
    forall|i: int, j: int| 0 <= i < j < s.len() ==> !lex_less(#[trigger] s[j].0, #[trigger] s[i].0, 0)
}

proof fn lemma_lex_less_transitive(a: Seq<u8>, b: Seq<u8>, c: Seq<u8>, k: int)
    requires
        0 <= k,
        lex_less(a, b, k),
        lex_less(b, c, k),
    ensures
        lex_less(a, c, k),
    decreases a.len() - k,
{
    if k < a.len() && k < b.len() && k < c.len() && a[k] == b[k] && b[k] == c[k] {
        lemma_lex_less_transitive(a, b, c, k + 1);
    }
}

proof fn lemma_lex_less_irreflexive(a: Seq<u8>, k: int)
    requires
        0 <= k,
    ensures
        !lex_less(a, a, k),
    decreases a.len() - k,
{
    if k < a.len() {
        lemma_lex_less_irreflexive(a, k + 1);
    }
}

/// Whether `key` is one of the names the frontmatter never takes from
/// additional fields.
fn is_reserved_key(key: &[u8]) -> (r: bool)
    ensures
        r == (key@ == seq![116u8, 105, 116, 108, 101] || key@ == seq![100u8, 101, 115, 99, 114, 105, 112, 116, 105, 111, 110]
            || key@ == seq![109u8, 101, 116, 97]),
{
    let title: [u8; 5] = [116, 105, 116, 108, 101];
    let description: [u8; 11] = [100, 101, 115, 99, 114, 105, 112, 116, 105, 111, 110];
    let meta: [u8; 4] = [109, 101, 116, 97];
    assert(title@ =~= seq![116u8, 105, 116, 108, 101]);
    assert(description@ =~= seq![100u8, 101, 115, 99, 114, 105, 112, 116, 105, 111, 110]);
    assert(meta@ =~= seq![109u8, 101, 116, 97]);
    bytes_eq(key, &title) || bytes_eq(key, &description) || bytes_eq(key, &meta)
}

/// The additional frontmatter fields that are written: sorted by key, the
/// last occurrence of a key winning; reserved or oversized ones, keys
/// already taken from metadata, and those over the field or byte budgets are
/// left out.
pub fn selected_additional_fields(
    additional: &Vec<(String, String)>,
    metadata: &Vec<(Vec<u8>, Vec<u8>)>,
    source_bytes: usize,
    field_count: usize,
) -> (r: Vec<(Vec<u8>, Vec<u8>)>)
    ensures
        r@.len() <= MAX_FRONTMATTER_FIELDS,
        field_count <= MAX_FRONTMATTER_FIELDS ==> field_count + r@.len() <= MAX_FRONTMATTER_FIELDS,
{
    let mut candidates: Vec<(Vec<u8>, Vec<u8>)> = Vec::new();
    let mut k: usize = 0;
    while k < additional.len()
        invariant
            k <= additional@.len(),
            candidates@.len() <= MAX_FRONTMATTER_FIELDS,
        decreases additional@.len() - k,
    {
        let key = additional[k].0.as_str().as_bytes();
        let value = additional[k].1.as_str().as_bytes();
        if !is_reserved_key(key) && key.len() <= MAX_FRONTMATTER_VALUE_BYTES && value.len() <= MAX_FRONTMATTER_VALUE_BYTES {
            let mut existing: Option<usize> = None;
            let mut j: usize = 0;
            while j < candidates.len()
                invariant
                    j <= candidates@.len(),
                    existing matches Some(x) ==> x < candidates@.len(),
                decreases candidates@.len() - j,
            {
                if bytes_eq(candidates[j].0.as_slice(), key) {
                    existing = Some(j);
                    break;
                }
                j = j + 1;
            }
            let key_copy = copy_range(key, 0, key.len());
            let value_copy = copy_range(value, 0, value.len());
            match existing {
                Some(x) => {
                    candidates.remove(x);
                    candidates.insert(x, (key_copy, value_copy));
                },
                None => {
                    let mut position: usize = 0;
                    while position < candidates.len() && bytes_less(candidates[position].0.as_slice(), key)
                        invariant
                            position <= candidates@.len(),
                        decreases candidates@.len() - position,
                    {
                        position = position + 1;
                    }
                    if position < MAX_FRONTMATTER_FIELDS {
                        candidates.insert(position, (key_copy, value_copy));
                        if candidates.len() > MAX_FRONTMATTER_FIELDS {
                            candidates.pop();
                        }
                    }
                },
            }
        }
        k = k + 1;
    }
    let mut selected: Vec<(Vec<u8>, Vec<u8>)> = Vec::new();
    let mut count = field_count;
    let mut bytes = source_bytes;
    let mut c: usize = 0;
    while c < candidates.len()
        invariant
            c <= candidates@.len() <= MAX_FRONTMATTER_FIELDS,
            selected@.len() <= c,
            count == field_count + selected@.len() || field_count > MAX_FRONTMATTER_FIELDS,
            field_count <= MAX_FRONTMATTER_FIELDS ==> count <= MAX_FRONTMATTER_FIELDS,
        decreases candidates@.len() - c,
    {
        let key = candidates[c].0.as_slice();
        let value = candidates[c].1.as_slice();
        let field_bytes = key.len().saturating_add(value.len());
        let mut in_metadata = false;
        let mut m: usize = 0;
        while m < metadata.len()
            invariant
                m <= metadata@.len(),
            decreases metadata@.len() - m,
        {
            if bytes_eq(metadata[m].0.as_slice(), key) {
                in_metadata = true;
            }
            m = m + 1;
        }
        if !in_metadata && count < MAX_FRONTMATTER_FIELDS && bytes.saturating_add(field_bytes) <= MAX_FRONTMATTER_BYTES {
            count = count + 1;
            bytes = bytes.saturating_add(field_bytes);
            selected.push((copy_range(key, 0, key.len()), copy_range(value, 0, value.len())));
        }
        c = c + 1;
    }
    selected
}


/// The metadata entries that fit the frontmatter, in order: an entry is
/// taken while fewer than the maximum number of fields are taken and its key
/// and value still fit the byte budget, `count` fields and `bytes` bytes
/// being used already.
pub open spec fn meta_within_budget(s: Seq<(Seq<u8>, Seq<u8>)>, count: int, bytes: int) -> Seq<(Seq<u8>, Seq<u8>)>
    decreases s.len(),
{
    if s.len() == 0 {
        Seq::empty()
    } else {
        let fb = saturated((s[0].0.len() + s[0].1.len()) as int);
        if count < MAX_FRONTMATTER_FIELDS && saturated(bytes + fb) <= MAX_FRONTMATTER_BYTES {
            seq![s[0]] + meta_within_budget(s.drop_first(), count + 1, saturated(bytes + fb))
        } else {
            meta_within_budget(s.drop_first(), count, bytes)
        }
    }
}

/// Bytes of the keys and values of `s`.
pub open spec fn pairs_bytes(s: Seq<(Seq<u8>, Seq<u8>)>) -> int
    decreases s.len(),
{
    if s.len() == 0 { 0 } else { s[0].0.len() + s[0].1.len() + pairs_bytes(s.drop_first()) }
}

/// Metadata that fits the field and byte budgets is all kept, in order.
pub proof fn lemma_meta_all_kept(s: Seq<(Seq<u8>, Seq<u8>)>, count: int, bytes: int)
    requires
        0 <= count,
        0 <= bytes,
        count + s.len() <= MAX_FRONTMATTER_FIELDS,
        bytes + pairs_bytes(s) <= MAX_FRONTMATTER_BYTES,
    ensures
        meta_within_budget(s, count, bytes) == s,
    decreases s.len(),
{
    if s.len() > 0 {
        let fb = s[0].0.len() + s[0].1.len();
        assert(pairs_bytes(s.drop_first()) >= 0) by { lemma_pairs_bytes_nonneg(s.drop_first()); }
        lemma_meta_all_kept(s.drop_first(), count + 1, bytes + fb);
        assert(seq![s[0]] + s.drop_first() =~= s);
    }
}

pub proof fn lemma_pairs_bytes_nonneg(s: Seq<(Seq<u8>, Seq<u8>)>)
    ensures
        pairs_bytes(s) >= 0,
    decreases s.len(),
{
    if s.len() > 0 {
        lemma_pairs_bytes_nonneg(s.drop_first());
    }
}

/// `title: "..."`.
pub open spec fn title_line(t: Seq<u8>) -> Seq<u8> {
    seq![116u8, 105, 116, 108, 101, 58, 32] + yaml_quoted(t)
}

/// `"key": "value"`.
pub open spec fn field_line(e: (Seq<u8>, Seq<u8>)) -> Seq<u8> {
    yaml_quoted(e.0) + seq![58u8, 32] + yaml_quoted(e.1)
}

/// `meta:` and one indented field line per entry, or nothing without entries.
pub open spec fn meta_lines(a: Seq<(Seq<u8>, Seq<u8>)>) -> Seq<Seq<u8>> {
    if a.len() == 0 {
        Seq::empty()
    } else {
        seq![seq![109u8, 101, 116, 97, 58]] + a.map_values(|e: (Seq<u8>, Seq<u8>)| seq![32u8, 32] + field_line(e))
    }
}

/// The lines of the frontmatter: the title, the additional fields, then the
/// metadata.
pub open spec fn frontmatter_lines(title: Option<Seq<u8>>, chosen: Seq<(Seq<u8>, Seq<u8>)>, accepted: Seq<(Seq<u8>, Seq<u8>)>)
    -> Seq<Seq<u8>> {
    (match title { Some(t) => seq![title_line(t)], None => Seq::empty() })
        + chosen.map_values(|e: (Seq<u8>, Seq<u8>)| field_line(e)) + meta_lines(accepted)
}

/// Each line followed by a newline.
pub open spec fn joined_lines(lines: Seq<Seq<u8>>) -> Seq<u8>
    decreases lines.len(),
{
    if lines.len() == 0 { Seq::empty() } else { joined_lines(lines.drop_last()) + lines.last() + seq![10u8] }
}

/// A YAML block between `---` lines, followed by a blank line; nothing
/// when there are no lines.
pub open spec fn yaml_block(lines: Seq<Seq<u8>>) -> Seq<u8> {
    if lines.len() == 0 {
        Seq::empty()
    } else {
        seq![45u8, 45, 45, 10] + joined_lines(lines) + seq![45u8, 45, 45, 10, 10]
    }
}

/// Fields a title takes from the budget.
pub open spec fn title_count(title: Option<Seq<u8>>) -> int {
    if title is Some { 1 } else { 0 }
}

/// Bytes a title takes from the budget (with its key).
pub open spec fn title_bytes(title: Option<Seq<u8>>) -> int {
    match title { Some(t) => saturated((t.len() + 5) as int), None => 0 }
}

/// The view of an optional byte string.
pub open spec fn opt_view(o: Option<Vec<u8>>) -> Option<Seq<u8>> {
    match o { Some(t) => Some(t@), None => None }
}

/// The views of a list of byte strings.
pub open spec fn lines_view(v: Seq<Vec<u8>>) -> Seq<Seq<u8>> {
    v.map_values(|l: Vec<u8>| l@)
}

impl ConvertState {
    /// Keeps the trimmed text of `<title>` inside `<head>` for frontmatter.
    pub fn capture_frontmatter_title(&mut self, value: &[u8])
        requires
            old(self).wf(),
        ensures
            final(self).wf(),
            final(self).releases_as(old(self)),
            final(self).stack@ == old(self).stack@,
            final(self).config == old(self).config,
            final(self).handed_out() == old(self).handed_out(),
            final(self).written() == old(self).written(),
            ({
                let lo = trim_start_index(value@, 0, value@.len() as int);
                let hi = trim_end_index(value@, lo, value@.len() as int);
                if lo == hi || hi - lo > MAX_FRONTMATTER_VALUE_BYTES {
                    final(self).plugins.frontmatter_title == old(self).plugins.frontmatter_title
                } else {
                    final(self).plugins.frontmatter_title is Some && final(self).plugins.frontmatter_title.unwrap()@ == value@.subrange(lo, hi)
                }
            }),
    {
        let (lo, hi) = trim_bounds(value, 0, value.len());
        if lo == hi || hi - lo > MAX_FRONTMATTER_VALUE_BYTES {
            return;
        }
        self.plugins.frontmatter_title = Some(copy_range(value, lo, hi));
    }

    /// Keeps a `<meta>` field for frontmatter; a repeated key takes the new value.
    pub fn capture_frontmatter_meta(&mut self, key: &[u8], value: &[u8])
        requires
            old(self).wf(),
        ensures
            final(self).wf(),
            final(self).stack@ == old(self).stack@,
            final(self).config == old(self).config,
            final(self).handed_out() == old(self).handed_out(),
            final(self).written() == old(self).written(),
            pairs_view(final(self).plugins.frontmatter_meta@) == meta_after(pairs_view(old(self).plugins.frontmatter_meta@), key@, value@),
            final(self).plugins.frontmatter_in_head == old(self).plugins.frontmatter_in_head,
            final(self).scan == old(self).scan,
    {
        if key.len() > MAX_FRONTMATTER_VALUE_BYTES || value.len() > MAX_FRONTMATTER_VALUE_BYTES {
            return;
        }
        let ghost m0 = pairs_view(self.plugins.frontmatter_meta@);
        let mut k: usize = 0;
        while k < self.plugins.frontmatter_meta.len()
            invariant
                k <= self.plugins.frontmatter_meta@.len(),
                self.wf(),
                self.stack@ == old(self).stack@,
                self.config == old(self).config,
                self.handed_out() == old(self).handed_out(),
                self.written() == old(self).written(),
                self.plugins.frontmatter_meta@ == old(self).plugins.frontmatter_meta@,
                self.plugins.frontmatter_in_head == old(self).plugins.frontmatter_in_head,
                self.scan == old(self).scan,
                m0 == pairs_view(old(self).plugins.frontmatter_meta@),
                key@.len() <= MAX_FRONTMATTER_VALUE_BYTES,
                value@.len() <= MAX_FRONTMATTER_VALUE_BYTES,
                key_index_from(m0, key@, 0) == key_index_from(m0, key@, k as int),
            decreases self.plugins.frontmatter_meta@.len() - k,
        {
            if bytes_eq(self.plugins.frontmatter_meta[k].0.as_slice(), key) {
                let entry = (copy_range(key, 0, key.len()), copy_range(value, 0, value.len()));
                let ghost ev = (entry.0@, entry.1@);
                assert(key@.subrange(0, key@.len() as int) =~= key@);
                assert(value@.subrange(0, value@.len() as int) =~= value@);
                assert(m0[k as int].0 == key@);
                assert(key_index_from(m0, key@, 0) == k);
                self.plugins.frontmatter_meta.remove(k);
                self.plugins.frontmatter_meta.insert(k, entry);
                assert(pairs_view(self.plugins.frontmatter_meta@) =~= m0.update(k as int, ev));
                return;
            }
            k = k + 1;
        }
        assert(key_index_from(m0, key@, k as int) == -1);
        if self.plugins.frontmatter_meta.len() >= MAX_FRONTMATTER_FIELDS - 1 {
            return;
        }
        let entry = (copy_range(key, 0, key.len()), copy_range(value, 0, value.len()));
        let ghost ev = (entry.0@, entry.1@);
        assert(key@.subrange(0, key@.len() as int) =~= key@);
        assert(value@.subrange(0, value@.len() as int) =~= value@);
        assert(key_index_from(m0, key@, 0) == -1);
        self.plugins.frontmatter_meta.push(entry);
        assert(pairs_view(self.plugins.frontmatter_meta@) =~= m0.push(ev));
    }

    /// The metadata entries in key order.
    fn sorted_meta(&self) -> (r: Vec<(Vec<u8>, Vec<u8>)>)
        ensures
            pairs_view(r@).to_multiset() == pairs_view(self.plugins.frontmatter_meta@).to_multiset(),
            keys_sorted(pairs_view(r@)),
    {
        let ghost meta = pairs_view(self.plugins.frontmatter_meta@);
        let mut sorted: Vec<(Vec<u8>, Vec<u8>)> = Vec::new();
        let mut k: usize = 0;
        assert(pairs_view(sorted@) =~= meta.take(0));
        while k < self.plugins.frontmatter_meta.len()
            invariant
                k <= self.plugins.frontmatter_meta@.len(),
                meta == pairs_view(self.plugins.frontmatter_meta@),
                pairs_view(sorted@).to_multiset() == meta.take(k as int).to_multiset(),
                keys_sorted(pairs_view(sorted@)),
            decreases self.plugins.frontmatter_meta@.len() - k,
        {
            let key = self.plugins.frontmatter_meta[k].0.as_slice();
            let value = self.plugins.frontmatter_meta[k].1.as_slice();
            let ghost sv = pairs_view(sorted@);
            let mut position: usize = 0;
            while position < sorted.len() && !bytes_less(key, sorted[position].0.as_slice())
                invariant
                    position <= sorted@.len(),
                    sv == pairs_view(sorted@),
                    forall|i: int| 0 <= i < position ==> !lex_less(key@, #[trigger] sv[i].0, 0),
                decreases sorted@.len() - position,
            {
                position = position + 1;
            }
            let entry = (copy_range(key, 0, key.len()), copy_range(value, 0, value.len()));
            let ghost ev = (entry.0@, entry.1@);
            proof {
                assert(key@.subrange(0, key@.len() as int) =~= key@);
                assert(value@.subrange(0, value@.len() as int) =~= value@);
                assert(ev == meta[k as int]);
                assert(meta.take(k as int + 1) =~= meta.take(k as int).push(ev));
                let nv = sv.insert(position as int, ev);
                assert forall|i: int, j: int| 0 <= i < j < nv.len() implies !lex_less(#[trigger] nv[j].0, #[trigger] nv[i].0, 0) by {
                    if j == position {
                        assert(nv[i] == sv[i]);
                    } else if i == position {
                        assert(nv[j] == sv[j - 1]);
                        if lex_less(sv[j - 1].0, key@, 0) {
                            assert(position < sv.len());
                            assert(lex_less(key@, sv[position as int].0, 0));
                            lemma_lex_less_transitive(sv[j - 1].0, key@, sv[position as int].0, 0);
                            if j - 1 > position {
                                assert(!lex_less(sv[j - 1].0, sv[position as int].0, 0));
                            } else {
                                lemma_lex_less_irreflexive(sv[j - 1].0, 0);
                            }
                        }
                    } else {
                        let oi = if i < position { i } else { i - 1 };
                        let oj = if j < position { j } else { j - 1 };
                        assert(nv[i] == sv[oi] && nv[j] == sv[oj]);
                    }
                }
            }
            sorted.insert(position, entry);
            assert(pairs_view(sorted@) =~= sv.insert(position as int, ev));
            proof {
                vstd::seq_lib::to_multiset_insert(sv, position as int, ev);
                vstd::seq_lib::to_multiset_build(meta.take(k as int), ev);
            }
            assert(meta.take(k as int + 1) =~= meta.take(k as int).push(ev));
            k = k + 1;
        }
        assert(meta.take(k as int) =~= meta);
        sorted
    }

    /// The frontmatter YAML block: the title, the additional fields, then
    /// the metadata under `meta:`, within the field and byte budgets.
    #[verifier::spinoff_prover]
    pub fn frontmatter_yaml(&self) -> (r: Vec<u8>)
        ensures
            exists|sorted: Seq<(Seq<u8>, Seq<u8>)>, chosen: Seq<(Seq<u8>, Seq<u8>)>|
                sorted.to_multiset() == pairs_view(self.plugins.frontmatter_meta@).to_multiset()
                && keys_sorted(sorted)
                && r@ == yaml_block(#[trigger] frontmatter_lines(opt_view(self.plugins.frontmatter_title), chosen,
                    meta_within_budget(sorted, title_count(opt_view(self.plugins.frontmatter_title)),
                        title_bytes(opt_view(self.plugins.frontmatter_title))))),
    {
        let ghost title = opt_view(self.plugins.frontmatter_title);
        let mut lines: Vec<Vec<u8>> = Vec::new();
        let mut source_bytes: usize = 0;
        let mut field_count: usize = 0;
        match &self.plugins.frontmatter_title {
            Some(t) => {
                source_bytes = t.len().saturating_add(5);
                field_count = 1;
                let mut line: Vec<u8> = Vec::new();
                let prefix: [u8; 7] = [116, 105, 116, 108, 101, 58, 32];
                line.extend_from_slice(&prefix);
                let q = yaml_double_quoted(t.as_slice());
                line.extend_from_slice(q.as_slice());
                assert(line@ =~= title_line(t@));
                lines.push(line);
            },
            None => {},
        }
        let ghost head = match title { Some(t) => seq![title_line(t)], None => Seq::<Seq<u8>>::empty() };
        assert(lines_view(lines@) =~= head);
        let ghost count0: int = field_count as int;
        let ghost bytes0: int = source_bytes as int;
        assert(bytes0 == title_bytes(title) && count0 == title_count(title));
        let sorted = self.sorted_meta();
        let ghost sv = pairs_view(sorted@);
        let mut accepted: Vec<(Vec<u8>, Vec<u8>)> = Vec::new();
        let mut k: usize = 0;
        assert(sv.skip(0) =~= sv);
        assert(pairs_view(accepted@) + meta_within_budget(sv, count0, bytes0) =~= meta_within_budget(sv, count0, bytes0));
        while k < sorted.len()
            invariant
                k <= sorted@.len(),
                sv == pairs_view(sorted@),
                field_count <= MAX_FRONTMATTER_FIELDS,
                pairs_view(accepted@) + meta_within_budget(sv.skip(k as int), field_count as int, source_bytes as int)
                    == meta_within_budget(sv, count0, bytes0),
            decreases sorted@.len() - k,
        {
            let ghost rest = sv.skip(k as int);
            assert(rest[0] == sv[k as int]);
            assert(rest.drop_first() =~= sv.skip(k + 1));
            let field_bytes = sorted[k].0.len().saturating_add(sorted[k].1.len());
            if field_count < MAX_FRONTMATTER_FIELDS && source_bytes.saturating_add(field_bytes) <= MAX_FRONTMATTER_BYTES {
                field_count = field_count + 1;
                source_bytes = source_bytes.saturating_add(field_bytes);
                let ghost before = pairs_view(accepted@);
                let kc = copy_range(sorted[k].0.as_slice(), 0, sorted[k].0.len());
                let vc = copy_range(sorted[k].1.as_slice(), 0, sorted[k].1.len());
                assert(kc@ =~= sv[k as int].0 && vc@ =~= sv[k as int].1);
                accepted.push((kc, vc));
                assert(pairs_view(accepted@) =~= before.push(sv[k as int]));
                assert(before.push(sv[k as int]) + meta_within_budget(sv.skip(k + 1), field_count as int, source_bytes as int)
                    =~= before + (seq![sv[k as int]] + meta_within_budget(sv.skip(k + 1), field_count as int, source_bytes as int)));
            }
            k = k + 1;
        }
        assert(sv.skip(k as int) =~= Seq::<(Seq<u8>, Seq<u8>)>::empty());
        assert(pairs_view(accepted@) =~= meta_within_budget(sv, count0, bytes0));
        let ghost acc = pairs_view(accepted@);
        let ghost mut chosen_view = Seq::<(Seq<u8>, Seq<u8>)>::empty();
        match &self.options.plugins {
            Some(p) => match &p.frontmatter {
                Some(f) => match &f.additional_fields {
                    Some(add) => {
                        let chosen = selected_additional_fields(add, &self.plugins.frontmatter_meta, source_bytes, field_count);
                        proof { chosen_view = pairs_view(chosen@); }
                        let mut c: usize = 0;
                        while c < chosen.len()
                            invariant
                                c <= chosen@.len(),
                                chosen_view == pairs_view(chosen@),
                                lines_view(lines@) == head + chosen_view.take(c as int).map_values(|e: (Seq<u8>, Seq<u8>)| field_line(e)),
                            decreases chosen@.len() - c,
                        {
                            let mut line = yaml_double_quoted(chosen[c].0.as_slice());
                            line.push(58);
                            line.push(32);
                            let q = yaml_double_quoted(chosen[c].1.as_slice());
                            line.extend_from_slice(q.as_slice());
                            assert(line@ =~= field_line(chosen_view[c as int]));
                            let ghost lv = lines_view(lines@);
                            lines.push(line);
                            assert(lines_view(lines@) =~= lv.push(field_line(chosen_view[c as int])));
                            assert(chosen_view.take(c + 1) =~= chosen_view.take(c as int).push(chosen_view[c as int]));
                            assert(chosen_view.take(c + 1).map_values(|e: (Seq<u8>, Seq<u8>)| field_line(e))
                                =~= chosen_view.take(c as int).map_values(|e: (Seq<u8>, Seq<u8>)| field_line(e)).push(field_line(chosen_view[c as int])));
                            c = c + 1;
                        }
                        assert(chosen_view.take(c as int) =~= chosen_view);
                    },
                    None => {},
                },
                None => {},
            },
            None => {},
        }
        assert(lines_view(lines@) =~= head + chosen_view.map_values(|e: (Seq<u8>, Seq<u8>)| field_line(e)));
        let ghost mid = lines_view(lines@);
        if accepted.len() > 0 {
            let meta: [u8; 5] = [109, 101, 116, 97, 58];
            let m = copy_range(&meta, 0, 5);
            assert(m@ =~= seq![109u8, 101, 116, 97, 58]);
            lines.push(m);
            assert(lines_view(lines@) =~= mid.push(seq![109u8, 101, 116, 97, 58]));
            let mut a: usize = 0;
            while a < accepted.len()
                invariant
                    a <= accepted@.len(),
                    acc == pairs_view(accepted@),
                    lines_view(lines@) == mid + seq![seq![109u8, 101, 116, 97, 58]]
                        + acc.take(a as int).map_values(|e: (Seq<u8>, Seq<u8>)| seq![32u8, 32] + field_line(e)),
                decreases accepted@.len() - a,
            {
                let mut line: Vec<u8> = Vec::new();
                line.push(32);
                line.push(32);
                let qk = yaml_double_quoted(accepted[a].0.as_slice());
                line.extend_from_slice(qk.as_slice());
                line.push(58);
                line.push(32);
                let qv = yaml_double_quoted(accepted[a].1.as_slice());
                line.extend_from_slice(qv.as_slice());
                assert(line@ =~= seq![32u8, 32] + field_line(acc[a as int]));
                let ghost lv = lines_view(lines@);
                lines.push(line);
                assert(lines_view(lines@) =~= lv.push(seq![32u8, 32] + field_line(acc[a as int])));
                assert(acc.take(a + 1) =~= acc.take(a as int).push(acc[a as int]));
                assert(acc.take(a + 1).map_values(|e: (Seq<u8>, Seq<u8>)| seq![32u8, 32] + field_line(e))
                    =~= acc.take(a as int).map_values(|e: (Seq<u8>, Seq<u8>)| seq![32u8, 32] + field_line(e))
                        .push(seq![32u8, 32] + field_line(acc[a as int])));
                a = a + 1;
            }
            assert(acc.take(a as int) =~= acc);
        }
        assert(lines_view(lines@) =~= frontmatter_lines(title, chosen_view, acc));
        let ghost all = lines_view(lines@);
        let mut out: Vec<u8> = Vec::new();
        if lines.len() == 0 {
            assert(out@ =~= yaml_block(all));
            return out;
        }
        let dashes: [u8; 4] = [45, 45, 45, 10];
        out.extend_from_slice(&dashes);
        let mut l: usize = 0;
        assert(all.take(0) =~= Seq::<Seq<u8>>::empty());
        assert(out@ =~= seq![45u8, 45, 45, 10] + joined_lines(all.take(0)));
        while l < lines.len()
            invariant
                l <= lines@.len(),
                all == lines_view(lines@),
                out@ == seq![45u8, 45, 45, 10] + joined_lines(all.take(l as int)),
            decreases lines@.len() - l,
        {
            let ghost o = out@;
            out.extend_from_slice(lines[l].as_slice());
            out.push(10);
            assert(all.take(l + 1).drop_last() =~= all.take(l as int));
            assert(all[l as int] == lines@[l as int]@);
            assert(out@ =~= o + all[l as int] + seq![10u8]);
            l = l + 1;
        }
        assert(all.take(l as int) =~= all);
        let end: [u8; 5] = [45, 45, 45, 10, 10];
        out.extend_from_slice(&end);
        assert(out@ =~= yaml_block(all));
        assert(sv.to_multiset() == pairs_view(self.plugins.frontmatter_meta@).to_multiset());
        out
    }

    /// Writes the frontmatter block when `<head>` closes.
    pub fn generate_frontmatter_yaml(&mut self)
        requires
            old(self).wf(),
        ensures
            final(self).wf(),
            final(self).keeps_parse(old(self)),
            final(self).config == old(self).config,
            grows_from(old(self).written(), final(self).written()),
            old(self).config.plain_text ==> final(self).written() == old(self).written(),
            final(self).written() == old(self).written() ==> final(self).pen == old(self).pen,
            final(self).written() != old(self).written() ==> final(self).pen == (Pen {
                pending_breaks: 0,
                pending_space: false,
                at_line_start: true,
                wrote_any: false,
                ..old(self).pen
            }),
    {
        if self.config.plain_text {
            return;
        }
        let block = self.frontmatter_yaml();
        if block.len() == 0 {
            return;
        }
        if !self.push_output_bytes(block.as_slice()) {
            return;
        }
        assert(self.written().len() == old(self).written().len() + block@.len());
        let mut p = self.pen;
        p.pending_breaks = 0;
        p.pending_space = false;
        p.at_line_start = true;
        p.wrote_any = false;
        self.pen = p;
    }

    /// The frontmatter entries (title, metadata, additional fields) when the
    /// frontmatter plugin is on.
    /// The metadata entries the frontmatter keeps, in document order.
    pub open spec fn kept_meta(&self) -> Seq<(Seq<u8>, Seq<u8>)> {
        meta_within_budget(pairs_view(self.plugins.frontmatter_meta@), title_count(opt_view(self.plugins.frontmatter_title)),
            title_bytes(opt_view(self.plugins.frontmatter_title)))
    }

    #[verifier::spinoff_prover]
    pub fn frontmatter(&self) -> (r: Option<Vec<(String, String)>>)
        ensures
            r is Some <==> self.config.has_frontmatter,
            r matches Some(v) ==> v@.len() <= MAX_FRONTMATTER_FIELDS,
            r matches Some(v) ==> (self.plugins.frontmatter_title matches Some(t) ==> v@.len() > 0 && v@[0].0@ == "title"@
                && (valid_utf8(t@) ==> v@[0].1@ == decode_utf8(t@))),
            r matches Some(v) ==> v@.len() >= title_count(opt_view(self.plugins.frontmatter_title)) + self.kept_meta().len()
                && forall|j: int| 0 <= j < self.kept_meta().len() ==> {
                    let e = v@[title_count(opt_view(self.plugins.frontmatter_title)) + j];
                    &&& (valid_utf8(#[trigger] self.kept_meta()[j].0) ==> e.0@ == decode_utf8(self.kept_meta()[j].0))
                    &&& (valid_utf8(self.kept_meta()[j].1) ==> e.1@ == decode_utf8(self.kept_meta()[j].1))
                },
    {
        if !self.config.has_frontmatter {
            return None;
        }
        let ghost m = pairs_view(self.plugins.frontmatter_meta@);
        let ghost c0 = title_count(opt_view(self.plugins.frontmatter_title));
        let ghost b0 = title_bytes(opt_view(self.plugins.frontmatter_title));
        let mut entries: Vec<(String, String)> = Vec::new();
        let mut source_bytes: usize = 0;
        match &self.plugins.frontmatter_title {
            Some(t) => {
                entries.push((String::from_str("title"), string_from_bytes(t.as_slice())));
                source_bytes = t.len().saturating_add(5);
            },
            None => {},
        }
        let ghost first = entries@[0];
        let mut k: usize = 0;
        let ghost mut taken = Seq::<(Seq<u8>, Seq<u8>)>::empty();
        assert(m.skip(0) =~= m);
        assert(taken + meta_within_budget(m, c0, b0) =~= meta_within_budget(m, c0, b0));
        while k < self.plugins.frontmatter_meta.len()
            invariant
                k <= self.plugins.frontmatter_meta@.len(),
                m == pairs_view(self.plugins.frontmatter_meta@),
                entries@.len() <= MAX_FRONTMATTER_FIELDS,
                self.plugins.frontmatter_title is Some ==> entries@.len() > 0 && entries@[0] == first,
                c0 == title_count(opt_view(self.plugins.frontmatter_title)),
                entries@.len() == c0 + taken.len(),
                taken + meta_within_budget(m.skip(k as int), entries@.len() as int, source_bytes as int) == meta_within_budget(m, c0, b0),
                forall|j: int| 0 <= j < taken.len() ==> {
                    let e = entries@[c0 + j];
                    &&& (valid_utf8(#[trigger] taken[j].0) ==> e.0@ == decode_utf8(taken[j].0))
                    &&& (valid_utf8(taken[j].1) ==> e.1@ == decode_utf8(taken[j].1))
                },
            decreases self.plugins.frontmatter_meta@.len() - k,
        {
            let key = self.plugins.frontmatter_meta[k].0.as_slice();
            let value = self.plugins.frontmatter_meta[k].1.as_slice();
            let ghost rest = m.skip(k as int);
            assert(rest[0] == m[k as int]);
            assert(rest.drop_first() =~= m.skip(k + 1));
            let field_bytes = key.len().saturating_add(value.len());
            if entries.len() < MAX_FRONTMATTER_FIELDS && source_bytes.saturating_add(field_bytes) <= MAX_FRONTMATTER_BYTES {
                source_bytes = source_bytes.saturating_add(field_bytes);
                entries.push((string_from_bytes(key), string_from_bytes(value)));
                let ghost old_taken = taken;
                proof {
                    taken = taken.push(m[k as int]);
                    assert(old_taken.push(m[k as int]) + meta_within_budget(m.skip(k + 1), entries@.len() as int, source_bytes as int)
                        =~= old_taken + (seq![m[k as int]] + meta_within_budget(m.skip(k + 1), entries@.len() as int, source_bytes as int)));
                }
            }
            k = k + 1;
        }
        assert(m.skip(k as int) =~= Seq::<(Seq<u8>, Seq<u8>)>::empty());
        assert(taken =~= self.kept_meta());
        let ghost base_entries = entries@;
        match &self.options.plugins {
            Some(p) => match &p.frontmatter {
                Some(f) => match &f.additional_fields {
                    Some(add) => {
                        let chosen = selected_additional_fields(add, &self.plugins.frontmatter_meta, source_bytes, entries.len());
                        let ghost base = entries@.len();
                        let mut c: usize = 0;
                        while c < chosen.len()
                            invariant
                                c <= chosen@.len(),
                                base + chosen@.len() <= MAX_FRONTMATTER_FIELDS,
                                entries@.len() == base + c,
                                self.plugins.frontmatter_title is Some ==> entries@.len() > 0 && entries@[0] == first,
                                base == base_entries.len(),
                                entries@.subrange(0, base as int) == base_entries,
                            decreases chosen@.len() - c,
                        {
                            let ghost before = entries@;
                            entries.push((string_from_bytes(chosen[c].0.as_slice()), string_from_bytes(chosen[c].1.as_slice())));
                            assert(entries@.subrange(0, base as int) =~= before.subrange(0, base as int));
                            c = c + 1;
                        }
                    },
                    None => {},
                },
                None => {},
            },
            None => {},
        }
        proof {
            assert(base_entries.subrange(0, base_entries.len() as int) =~= base_entries);
            assert(entries@.len() >= base_entries.len() && entries@.subrange(0, base_entries.len() as int) == base_entries);
            let kept = self.kept_meta();
            assert forall|j: int| 0 <= j < kept.len() implies {
                let e = entries@[c0 + j];
                &&& (valid_utf8(#[trigger] kept[j].0) ==> e.0@ == decode_utf8(kept[j].0))
                &&& (valid_utf8(kept[j].1) ==> e.1@ == decode_utf8(kept[j].1))
            } by {
                assert(entries@[c0 + j] == entries@.subrange(0, base_entries.len() as int)[c0 + j]);
                assert(taken[j] == kept[j]);
            }
        }
        Some(entries)
    }

    /// Starts an extraction for each selector the element just pushed matches.
    pub fn start_extractions(&mut self, name: &[u8])
        requires
            old(self).wf(),
        ensures
            final(self).wf(),
            final(self).keeps_parse(old(self)),
            final(self).config == old(self).config,
            final(self).written() == old(self).written(),
            final(self).plugins.extraction_results@ == old(self).plugins.extraction_results@,
            ({
                let t0 = old(self).plugins.extraction_tracked@;
                let n = old(self).stack@.len();
                let started = if n == 0 { Seq::<int>::empty() } else {
                    started_from(t0.len() as int, old(self).plugins.extraction_results@.len() as int,
                        old(self).plugins.extraction_selectors@, name@, old(self).stack@[n - 1].attributes@.entries, 0)
                };
                &&& final(self).plugins.extraction_tracked@.len() == t0.len() + started.len()
                &&& final(self).plugins.extraction_tracked@.subrange(0, t0.len() as int) == t0
                &&& forall|j: int| 0 <= j < started.len() ==> {
                    let e = #[trigger] final(self).plugins.extraction_tracked@[t0.len() + j];
                    &&& e.selector == old(self).plugins.extraction_selectors@[started[j]].0
                    &&& e.stack_depth == n
                    &&& e.text_content@.len() == 0
                    &&& !e.limit_exceeded
                }
            }),
    {
        let n = self.stack.len();
        let ghost t0 = self.plugins.extraction_tracked@;
        let ghost r0 = self.plugins.extraction_results@.len() as int;
        let ghost sels = self.plugins.extraction_selectors@;
        if n == 0 {
            assert(self.plugins.extraction_tracked@.subrange(0, t0.len() as int) =~= t0);
            return;
        }
        let ghost entries = self.stack@[n - 1].attributes@.entries;
        let mut k: usize = 0;
        assert(self.plugins.extraction_tracked@.subrange(0, t0.len() as int) =~= t0);
        while k < self.plugins.extraction_selectors.len()
            invariant
                self.wf(),
                self.keeps_parse(old(self)),
                self.config == old(self).config,
                self.written() == old(self).written(),
                n == self.stack@.len(),
                n > 0,
                k <= sels.len(),
                sels == self.plugins.extraction_selectors@,
                sels == old(self).plugins.extraction_selectors@,
                t0 == old(self).plugins.extraction_tracked@,
                r0 == old(self).plugins.extraction_results@.len(),
                self.plugins.extraction_results@ == old(self).plugins.extraction_results@,
                entries == old(self).stack@[n - 1].attributes@.entries,
                self.plugins.extraction_tracked@.len() >= t0.len(),
                self.plugins.extraction_tracked@.subrange(0, t0.len() as int) == t0,
                ({
                    let done = self.plugins.extraction_tracked@.len() - t0.len();
                    let all = started_from(t0.len() as int, r0, sels, name@, entries, 0);
                    let rest = started_from(self.plugins.extraction_tracked@.len() as int, r0, sels, name@, entries, k as int);
                    &&& all == all.subrange(0, done) + rest
                    &&& done <= all.len()
                    &&& forall|j: int| 0 <= j < done ==> {
                        let e = #[trigger] self.plugins.extraction_tracked@[t0.len() + j];
                        &&& e.selector == sels[all[j]].0
                        &&& e.stack_depth == n
                        &&& e.text_content@.len() == 0
                        &&& !e.limit_exceeded
                    }
                }),
            decreases self.plugins.extraction_selectors@.len() - k,
        {
            let ghost tr = self.plugins.extraction_tracked@;
            let ghost done = tr.len() - t0.len();
            let ghost all = started_from(t0.len() as int, r0, sels, name@, entries, 0);
            if self.plugins.extraction_tracked.len() >= MAX_ACTIVE_EXTRACTIONS
                || self.plugins.extraction_results.len() >= MAX_EXTRACTION_RESULTS - self.plugins.extraction_tracked.len() {
                assert(all =~= all.subrange(0, done));
                return;
            }
            if matches_selector(name, &self.stack[n - 1].attributes, &self.plugins.extraction_selectors[k].1) {
                let extraction = TrackedExtraction {
                    selector: self.plugins.extraction_selectors[k].0.clone(),
                    stack_depth: n,
                    text_content: Vec::new(),
                    tag_name: string_from_bytes(name),
                    attributes: self.stack[n - 1].attributes.pairs(),
                    limit_exceeded: false,
                };
                self.plugins.extraction_tracked.push(extraction);
                proof {
                    let rest2 = started_from(tr.len() as int + 1, r0, sels, name@, entries, k as int + 1);
                    assert(all.subrange(0, done + 1) =~= all.subrange(0, done).push(k as int));
                    assert(all =~= all.subrange(0, done + 1) + rest2);
                    assert(self.plugins.extraction_tracked@.subrange(0, t0.len() as int) =~= tr.subrange(0, t0.len() as int));
                    assert forall|j: int| 0 <= j < done + 1 implies {
                        let e = #[trigger] self.plugins.extraction_tracked@[t0.len() + j];
                        &&& e.selector == sels[all[j]].0
                        &&& e.stack_depth == n
                        &&& e.text_content@.len() == 0
                        &&& !e.limit_exceeded
                    } by {
                        if j < done {
                            assert(self.plugins.extraction_tracked@[t0.len() + j] == tr[t0.len() + j]);
                        }
                    }
                }
            }
            k = k + 1;
        }
        proof {
            let all = started_from(t0.len() as int, r0, sels, name@, entries, 0);
            let done = self.plugins.extraction_tracked@.len() - t0.len();
            assert(all =~= all.subrange(0, done));
        }
    }

    /// Adds text to every extraction whose element encloses it.
    pub fn track_extraction_text(&mut self, text: &[u8])
        requires
            old(self).wf(),
        ensures
            final(self).wf(),
            final(self).keeps_parse(old(self)),
            final(self).config == old(self).config,
            final(self).written() == old(self).written(),
            final(self).pen == old(self).pen,
            final(self).plugins.extraction_results@ == old(self).plugins.extraction_results@,
            final(self).plugins.extraction_tracked@.len() == old(self).plugins.extraction_tracked@.len(),
            final(self).scan == old(self).scan,
            final(self).plugins.isolate_main_found == old(self).plugins.isolate_main_found,
            final(self).plugins.isolate_main_closed == old(self).plugins.isolate_main_closed,
            final(self).plugins.isolate_first_header_depth == old(self).plugins.isolate_first_header_depth,
            final(self).plugins.isolate_after_footer == old(self).plugins.isolate_after_footer,
            forall|i: int| 0 <= i < old(self).plugins.extraction_tracked@.len() ==> text_tracked(
                old(self).plugins.extraction_tracked@[i], #[trigger] final(self).plugins.extraction_tracked@[i],
                old(self).stack@.len() as int, text@),
    {
        let depth = self.stack.len();
        let mut old_list: Vec<TrackedExtraction> = Vec::new();
        std::mem::swap(&mut old_list, &mut self.plugins.extraction_tracked);
        let ghost orig = old_list@;
        let mut kept: Vec<TrackedExtraction> = Vec::new();
        while old_list.len() > 0
            invariant
                self.wf(),
                self.keeps_parse(old(self)),
                self.config == old(self).config,
                self.written() == old(self).written(),
                self.plugins.extraction_results@ == old(self).plugins.extraction_results@,
                self.scan == old(self).scan,
                self.plugins.isolate_main_found == old(self).plugins.isolate_main_found,
                self.plugins.isolate_main_closed == old(self).plugins.isolate_main_closed,
                self.plugins.isolate_first_header_depth == old(self).plugins.isolate_first_header_depth,
                self.plugins.isolate_after_footer == old(self).plugins.isolate_after_footer,
                depth == old(self).stack@.len(),
                orig == old(self).plugins.extraction_tracked@,
                kept@.len() + old_list@.len() == orig.len(),
                old_list@ == orig.skip(kept@.len() as int),
                forall|i: int| 0 <= i < kept@.len() ==> text_tracked(orig[i], #[trigger] kept@[i], depth as int, text@),
            decreases old_list@.len(),
        {
            let ghost at = kept@.len() as int;
            assert(old_list@[0] == orig[at]);
            let mut t = old_list.remove(0);
            let ghost t0 = t;
            assert(old_list@ =~= orig.skip(at + 1));
            if t.stack_depth <= depth && !t.limit_exceeded {
                if t.text_content.len() <= MAX_EXTRACTION_RESULT_BYTES && text.len() <= MAX_EXTRACTION_RESULT_BYTES - t.text_content.len() {
                    t.text_content.extend_from_slice(text);
                    assert(t.text_content@ == t0.text_content@ + text@);
                } else {
                    t.limit_exceeded = true;
                    t.text_content = Vec::new();
                    assert(t.text_content@.len() == 0);
                }
            }
            assert(text_tracked(t0, t, depth as int, text@));
            let ghost kept_before = kept@;
            kept.push(t);
            assert forall|i: int| 0 <= i < kept@.len() implies text_tracked(orig[i], #[trigger] kept@[i], depth as int, text@) by {
                if i < at {
                    assert(kept@[i] == kept_before[i]);
                }
            }
        }
        self.plugins.extraction_tracked = kept;
    }

    /// Finishes the extractions of the element about to close.
    pub fn finish_extractions(&mut self)
        requires
            old(self).wf(),
        ensures
            final(self).wf(),
            final(self).keeps_parse(old(self)),
            final(self).config == old(self).config,
            final(self).written() == old(self).written(),
            final(self).lines == old(self).lines,
            final(self).scan == old(self).scan,
            final(self).pen == old(self).pen,
            final(self).plugins.extraction_tracked@ == old(self).plugins.extraction_tracked@.filter(
                |t: TrackedExtraction| t.stack_depth != old(self).stack@.len()),
            final(self).plugins.extraction_results@.len() == results_after(
                old(self).plugins.extraction_results@.len() as int, old(self).plugins.extraction_tracked@, old(self).stack@.len() as int),
            final(self).plugins.extraction_results@.subrange(0, old(self).plugins.extraction_results@.len() as int)
                == old(self).plugins.extraction_results@,
    {
        let depth = self.stack.len();
        let mut old_list: Vec<TrackedExtraction> = Vec::new();
        std::mem::swap(&mut old_list, &mut self.plugins.extraction_tracked);
        let ghost orig = old_list@;
        let ghost f = |t: TrackedExtraction| t.stack_depth != depth;
        let mut kept: Vec<TrackedExtraction> = Vec::new();
        assert(orig.take(0) =~= Seq::<TrackedExtraction>::empty());
        assert(orig.take(0).filter(f) =~= Seq::<TrackedExtraction>::empty());
        assert(self.plugins.extraction_results@.subrange(0, old(self).plugins.extraction_results@.len() as int)
            =~= old(self).plugins.extraction_results@);
        while old_list.len() > 0
            invariant
                self.wf(),
                self.keeps_parse(old(self)),
                self.config == old(self).config,
                self.written() == old(self).written(),
                depth == old(self).stack@.len(),
                f == (|t: TrackedExtraction| t.stack_depth != depth),
                self.lines == old(self).lines,
                self.scan == old(self).scan,
                self.pen == old(self).pen,
                orig == old(self).plugins.extraction_tracked@,
                old_list@.len() <= orig.len(),
                old_list@ == orig.skip(orig.len() - old_list@.len()),
                kept@ == orig.take(orig.len() - old_list@.len()).filter(f),
                self.plugins.extraction_results@.len() == results_after(
                    old(self).plugins.extraction_results@.len() as int, orig.take(orig.len() - old_list@.len()), depth as int),
                old(self).plugins.extraction_results@.len() <= self.plugins.extraction_results@.len(),
                self.plugins.extraction_results@.subrange(0, old(self).plugins.extraction_results@.len() as int)
                    == old(self).plugins.extraction_results@,
            decreases old_list@.len(),
        {
            let ghost at = orig.len() - old_list@.len();
            assert(old_list@[0] == orig[at]);
            let t = old_list.remove(0);
            assert(old_list@ =~= orig.skip(at + 1));
            assert(orig.take(at + 1) =~= orig.take(at).push(t));
            if t.stack_depth == depth {
                if !t.limit_exceeded && self.plugins.extraction_results.len() < MAX_EXTRACTION_RESULTS {
                    let (lo, hi) = trim_bounds(t.text_content.as_slice(), 0, t.text_content.len());
                    let text = copy_range(t.text_content.as_slice(), lo, hi);
                    self.plugins.extraction_results.push(ExtractedElement {
                        selector: t.selector,
                        tag_name: t.tag_name,
                        text_content: string_from_bytes(text.as_slice()),
                        attributes: t.attributes,
                    });
                }
            } else {
                kept.push(t);
            }
            proof {
                let pre = orig.take(at);
                assert(orig.take(at + 1).drop_last() =~= pre);
                assert(orig.take(at + 1).last() == t);
                lemma_filter_push(pre, t, f);
            }
        }
        assert(orig.take(orig.len() as int) =~= orig);
        self.plugins.extraction_tracked = kept;
    }
}

/// The indices of the selectors, from `k` on, that start an extraction for
/// an element named `name` with the attributes `entries`, while `running`
/// extractions are under way and `results` are kept: each that matches, in
/// order, until the running extractions or the results would pass their
/// limits.
pub open spec fn started_from(
    running: int,
    results: int,
    sels: Seq<(String, Selector)>,
    name: Seq<u8>,
    entries: Seq<(Seq<u8>, Seq<u8>)>,
    k: int,
) -> Seq<int>
    decreases sels.len() - k,
{
    if k < 0 || k >= sels.len() || running >= MAX_ACTIVE_EXTRACTIONS || results >= MAX_EXTRACTION_RESULTS - running {
        Seq::empty()
    } else if selector_matches(name, entries, sels[k].1) {
        seq![k].add(started_from(running + 1, results, sels, name, entries, k + 1))
    } else {
        started_from(running, results, sels, name, entries, k + 1)
    }
}

/// The byte strings of a list of pairs.
pub open spec fn pairs_view(v: Seq<(Vec<u8>, Vec<u8>)>) -> Seq<(Seq<u8>, Seq<u8>)> {
    v.map_values(|e: (Vec<u8>, Vec<u8>)| (e.0@, e.1@))
}

/// The index of the first entry from `k` on whose key is `key`, or -1.
pub open spec fn key_index_from(entries: Seq<(Seq<u8>, Seq<u8>)>, key: Seq<u8>, k: int) -> int
    decreases entries.len() - k,
{
    if k < 0 || k >= entries.len() {
        -1
    } else if entries[k].0 == key {
        k
    } else {
        key_index_from(entries, key, k + 1)
    }
}

/// The metadata after the field `key: value` was seen: a key or value over
/// the size limit is ignored, a repeated key takes the new value in its
/// place, and a new key is added at the end while there is room.
pub open spec fn meta_after(m: Seq<(Seq<u8>, Seq<u8>)>, key: Seq<u8>, value: Seq<u8>) -> Seq<(Seq<u8>, Seq<u8>)> {
    if key.len() > MAX_FRONTMATTER_VALUE_BYTES || value.len() > MAX_FRONTMATTER_VALUE_BYTES {
        m
    } else if key_index_from(m, key, 0) >= 0 {
        m.update(key_index_from(m, key, 0), (key, value))
    } else if m.len() >= MAX_FRONTMATTER_FIELDS - 1 {
        m
    } else {
        m.push((key, value))
    }
}

/// The number of extraction results after the extractions of `list` that
/// finish at `depth` were added in order to `count` results: one for each
/// that is not over its limit, while there is room.
pub open spec fn results_after(count: int, list: Seq<TrackedExtraction>, depth: int) -> int
    decreases list.len(),
{
    if list.len() == 0 {
        count
    } else {
        let before = results_after(count, list.drop_last(), depth);
        if list.last().stack_depth == depth && !list.last().limit_exceeded && before < MAX_EXTRACTION_RESULTS {
            before + 1
        } else {
            before
        }
    }
}

proof fn lemma_filter_push(s: Seq<TrackedExtraction>, t: TrackedExtraction, f: spec_fn(TrackedExtraction) -> bool)
    ensures
        s.push(t).filter(f) == (if f(t) { s.filter(f).push(t) } else { s.filter(f) }),
{
    reveal(Seq::filter);
    assert(s.push(t).drop_last() =~= s);
}

/// An extraction `t` after the text `text` was seen at stack depth `depth`,
/// from `o`: one whose element encloses the text and is not over its limit
/// takes the text, or is marked over the limit and emptied when the text
/// would pass the limit; the others stay as they were.
pub open spec fn text_tracked(o: TrackedExtraction, t: TrackedExtraction, depth: int, text: Seq<u8>) -> bool {
    &&& t.selector == o.selector
    &&& t.stack_depth == o.stack_depth
    &&& t.tag_name == o.tag_name
    &&& t.attributes == o.attributes
    &&& if o.stack_depth <= depth && !o.limit_exceeded {
        if o.text_content@.len() + text.len() <= MAX_EXTRACTION_RESULT_BYTES {
            t.text_content@ == o.text_content@ + text && !t.limit_exceeded
        } else {
            t.limit_exceeded && t.text_content@.len() == 0
        }
    } else {
        t.text_content@ == o.text_content@ && t.limit_exceeded == o.limit_exceeded
    }
}

} // verus!
