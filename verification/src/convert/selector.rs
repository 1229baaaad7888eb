//! Compound CSS selectors: a tag name, `#id`, `.class` and `[attr]` /
//! `[attr=value]` parts, all of which must hold of one element.

use vstd::prelude::*;
use crate::attributes::{lookup, Attributes};
use crate::chars::{lower_seq, same_ignoring_case, spec_is_whitespace, spec_to_lower, to_lower, to_ascii_lowercase, is_whitespace};
use crate::text::{bytes_eq, copy_range};

verus! {

/// A parsed compound selector. `valid` is false for text this parser does
/// not understand, which then matches nothing.
pub struct Selector {
    pub tag: Option<Vec<u8>>,
    pub id: Option<Vec<u8>>,
    pub classes: Vec<Vec<u8>>,
    pub attrs: Vec<(Vec<u8>, Option<Vec<u8>>)>,
    pub valid: bool,
}

/// `s` is a non-empty name: every byte may appear in a name.
pub open spec fn name_bytes(s: Seq<u8>) -> bool {
    s.len() > 0 && forall|k: int| 0 <= k < s.len() ==> spec_is_name_byte(#[trigger] s[k])
}

/// `t` is an attribute selector whose name ends at `e`: `[name]`, or
/// `[name=value]` with an unquoted value holding no `]`.
pub open spec fn attr_selector_at(t: Seq<u8>, e: int) -> bool {
    &&& t.len() >= 3
    &&& t[0] == 91
    &&& t[t.len() - 1] == 93
    &&& 1 < e <= t.len() - 1
    &&& name_bytes(t.subrange(1, e))
    &&& (e == t.len() - 1 || (t[e] == 61 && (e + 1 == t.len() - 1 || (t[e + 1] != 34 && t[e + 1] != 39))
        && forall|k: int| e < k < t.len() - 1 ==> #[trigger] t[k] != 93))
}

/// Whether `c` may appear in a tag, class, id or attribute name.
pub open spec fn spec_is_name_byte(c: u8) -> bool {
    (48 <= c <= 57) || (65 <= c <= 90) || (97 <= c <= 122) || c == 45 || c == 95 || c >= 128
}

fn is_name_byte(c: u8) -> (r: bool)
    ensures
        r == spec_is_name_byte(c),
{
    (48 <= c && c <= 57) || (65 <= c && c <= 90) || (97 <= c && c <= 122) || c == 45 || c == 95 || c >= 128
}

/// End of the name starting at `i`.
fn name_end(s: &[u8], i: usize) -> (r: usize)
    requires
        i <= s@.len(),
    ensures
        i <= r <= s@.len(),
        forall|k: int| i <= k < r ==> spec_is_name_byte(s@[k]),
        r == s@.len() || !spec_is_name_byte(s@[r as int]),
{
    let mut j = i;
    while j < s.len() && is_name_byte(s[j])
        invariant
            i <= j <= s@.len(),
            forall|k: int| i <= k < j ==> spec_is_name_byte(s@[k]),
        decreases s@.len() - j,
    {
        j = j + 1;
    }
    j
}

/// Parses a compound selector. Surrounding whitespace is ignored; anything
/// else that is not one of the supported parts makes it invalid.
#[verifier::spinoff_prover]
pub fn parse_selector(text: &[u8]) -> (r: Selector)
    ensures
        r.valid ==> text@.len() > 0,
        name_bytes(text@) ==> r.valid && (r.tag matches Some(t) && t@ == lower_seq(text@)) && r.id is None
            && r.classes@.len() == 0 && r.attrs@.len() == 0,
        text@.len() > 1 && text@[0] == 35 && name_bytes(text@.subrange(1, text@.len() as int)) ==> r.valid && r.tag is None
            && (r.id matches Some(v) && v@ == text@.subrange(1, text@.len() as int)) && r.classes@.len() == 0 && r.attrs@.len() == 0,
        text@.len() > 1 && text@[0] == 46 && name_bytes(text@.subrange(1, text@.len() as int)) ==> r.valid && r.tag is None
            && r.id is None && r.classes@.len() == 1 && r.classes@[0]@ == text@.subrange(1, text@.len() as int) && r.attrs@.len() == 0,
        forall|e: int| #[trigger] attr_selector_at(text@, e) ==> r.valid && r.tag is None && r.id is None && r.classes@.len() == 0
            && r.attrs@.len() == 1 && r.attrs@[0].0@ == lower_seq(text@.subrange(1, e))
            && (e == text@.len() - 1 ==> r.attrs@[0].1 is None)
            && (e < text@.len() - 1 ==> (r.attrs@[0].1 matches Some(v) && v@ == text@.subrange(e + 1, text@.len() - 1))),
{
    let ghost n0 = text@.len() as int;
    let ghost tag_form = name_bytes(text@);
    let ghost id_form = text@.len() > 1 && text@[0] == 35 && name_bytes(text@.subrange(1, n0));
    let ghost class_form = text@.len() > 1 && text@[0] == 46 && name_bytes(text@.subrange(1, n0));
    proof {
        if id_form || class_form {
            assert forall|k: int| 1 <= k < n0 implies spec_is_name_byte(text@[k]) by {
                assert(text@[k] == text@.subrange(1, n0)[k - 1]);
            }
        }
        if tag_form {
            assert(spec_is_name_byte(text@[0]) && spec_is_name_byte(text@[n0 - 1]));
        }
    }
    let ghost ae = choose|e: int| attr_selector_at(text@, e);
    let ghost attr_form = attr_selector_at(text@, ae);
    proof {
        if attr_form {
            assert forall|k: int| 1 <= k < ae implies spec_is_name_byte(#[trigger] text@[k]) by {
                assert(text@[k] == text@.subrange(1, ae)[k - 1]);
            }
            assert(!spec_is_name_byte(text@[ae]));
            assert forall|e: int| #[trigger] attr_selector_at(text@, e) implies e == ae by {
                assert(!spec_is_name_byte(text@[e]));
                if e < ae {
                    assert(spec_is_name_byte(text@[e]));
                } else if ae < e {
                    assert(text@[ae] == text@.subrange(1, e)[ae - 1]);
                }
            }
        }
    }
    let ghost edges = tag_form || id_form || class_form || attr_form;
    assert(edges ==> n0 > 0 && !spec_is_whitespace(text@[0]) && !spec_is_whitespace(text@[n0 - 1]));
    let mut sel = Selector { tag: None, id: None, classes: Vec::new(), attrs: Vec::new(), valid: true };
    let mut i: usize = 0;
    let n = text.len();
    while i < n && is_whitespace(text[i])
        invariant
            i <= n == text@.len(),
            n0 == n,
            edges ==> n0 > 0 && !spec_is_whitespace(text@[0]) && !spec_is_whitespace(text@[n0 - 1]),
            edges ==> i == 0,
        decreases n - i,
    {
        i = i + 1;
    }
    let mut end = n;
    while end > i && is_whitespace(text[end - 1])
        invariant
            i <= end <= n == text@.len(),
            n0 == n,
            edges ==> n0 > 0 && !spec_is_whitespace(text@[0]) && !spec_is_whitespace(text@[n0 - 1]),
            edges ==> end == n && i == 0,
        decreases end,
    {
        end = end - 1;
    }
    if i == end {
        sel.valid = false;
        return sel;
    }
    if i < end && is_name_byte(text[i]) {
        let e = name_end(text, i);
        let e = if e > end { end } else { e };
        let name = copy_range(text, i, e);
        sel.tag = Some(to_ascii_lowercase(name.as_slice()));
        i = e;
    } else if i < end && text[i] == 42 {
        i = i + 1;
    }
    while i < end && sel.valid
        invariant
            i <= end <= n == text@.len(),
            n0 == n,
            id_form == (text@.len() > 1 && text@[0] == 35 && name_bytes(text@.subrange(1, n0))),
            class_form == (text@.len() > 1 && text@[0] == 46 && name_bytes(text@.subrange(1, n0))),
            id_form || class_form ==> end == n && forall|k: int| 1 <= k < n0 ==> spec_is_name_byte(#[trigger] text@[k]),
            tag_form == name_bytes(text@),
            tag_form ==> i == n && sel.valid && (sel.tag matches Some(t) && t@ == lower_seq(text@)) && sel.id is None
                && sel.classes@.len() == 0 && sel.attrs@.len() == 0,
            id_form ==> sel.valid && sel.tag is None && sel.classes@.len() == 0 && sel.attrs@.len() == 0
                && (i == 0 && sel.id is None || i == n && (sel.id matches Some(v) && v@ == text@.subrange(1, n0))),
            class_form ==> sel.valid && sel.tag is None && sel.id is None && sel.attrs@.len() == 0
                && (i == 0 && sel.classes@.len() == 0 || i == n && sel.classes@.len() == 1 && sel.classes@[0]@ == text@.subrange(1, n0)),
            attr_form == attr_selector_at(text@, ae),
            attr_form ==> end == n && forall|k: int| 1 <= k < ae ==> spec_is_name_byte(#[trigger] text@[k]),
            attr_form ==> !spec_is_name_byte(text@[ae]),
            attr_form ==> sel.valid && sel.tag is None && sel.id is None && sel.classes@.len() == 0
                && (i == 0 && sel.attrs@.len() == 0 || i == n && sel.attrs@.len() == 1 && sel.attrs@[0].0@ == lower_seq(text@.subrange(1, ae))
                    && (ae == n0 - 1 ==> sel.attrs@[0].1 is None)
                    && (ae < n0 - 1 ==> (sel.attrs@[0].1 matches Some(v) && v@ == text@.subrange(ae + 1, n0 - 1)))),
        decreases end - i, (if sel.valid { 1int } else { 0int }),
    {
        let c = text[i];
        if c == 35 || c == 46 {
            let e = name_end(text, i + 1);
            let e = if e > end { end } else { e };
            if e == i + 1 {
                sel.valid = false;
            } else {
                let name = copy_range(text, i + 1, e);
                if c == 35 {
                    sel.id = Some(name);
                } else {
                    sel.classes.push(name);
                }
                i = e;
            }
        } else if c == 91 {
            let e = name_end(text, i + 1);
            let e = if e > end { end } else { e };
            if e == i + 1 || e >= end {
                sel.valid = false;
            } else {
                let name = to_ascii_lowercase(copy_range(text, i + 1, e).as_slice());
                if text[e] == 93 {
                    sel.attrs.push((name, None));
                    i = e + 1;
                } else if text[e] == 61 {
                    let mut j = e + 1;
                    let mut quote: u8 = 0;
                    if j < end && (text[j] == 34 || text[j] == 39) {
                        quote = text[j];
                        j = j + 1;
                    }
                    let vstart = j;
                    while j < end && text[j] != 93 && (quote == 0 || text[j] != quote)
                        invariant
                            vstart <= j <= end <= n == text@.len(),
                            attr_form ==> i == 0 && e == ae && quote == 0 && vstart == e + 1 && j <= n0 - 1 && end == n,
                            attr_form == attr_selector_at(text@, ae),
                            n0 == n,
                        decreases end - j,
                    {
                        j = j + 1;
                    }
                    let value = copy_range(text, vstart, j);
                    if quote != 0 {
                        if j < end && text[j] == quote {
                            j = j + 1;
                        } else {
                            sel.valid = false;
                        }
                    }
                    if sel.valid && j < end && text[j] == 93 {
                        sel.attrs.push((name, Some(value)));
                        i = j + 1;
                    } else {
                        sel.valid = false;
                    }
                } else {
                    sel.valid = false;
                }
            }
        } else {
            sel.valid = false;
        }
    }
    sel
}

/// Whether `word` is one of the whitespace-separated words of `list`,
/// starting at `start`.
pub open spec fn word_at(list: Seq<u8>, word: Seq<u8>, start: int) -> bool {
    &&& word.len() > 0
    &&& 0 <= start
    &&& start + word.len() <= list.len()
    &&& (start == 0 || spec_is_whitespace(list[start - 1]))
    &&& (start + word.len() == list.len() || spec_is_whitespace(list[start + word.len()]))
    &&& forall|k: int| 0 <= k < word.len() ==> list[start + k] == #[trigger] word[k] && !spec_is_whitespace(word[k])
}

/// Whether `word` is one of the whitespace-separated words of `list`.
pub open spec fn lists_word(list: Seq<u8>, word: Seq<u8>) -> bool {
    exists|start: int| #[trigger] word_at(list, word, start)
}

/// Whether the whitespace-separated list `list` contains `word`.
fn has_word(list: &[u8], word: &[u8]) -> (r: bool)
    ensures
        r == lists_word(list@, word@),
{
    let n = list.len();
    let mut i: usize = 0;
    while i < n
        invariant
            i <= n == list@.len(),
            i == 0 || i == n || spec_is_whitespace(list@[i as int]),
            forall|s: int| 0 <= s < i ==> !#[trigger] word_at(list@, word@, s),
        decreases n - i,
    {
        let ghost i0 = i;
        while i < n && is_whitespace(list[i])
            invariant
                i0 <= i <= n == list@.len(),
                forall|s: int| i0 <= s < i ==> spec_is_whitespace(#[trigger] list@[s]),
            decreases n - i,
        {
            i = i + 1;
        }
        assert forall|s: int| 0 <= s < i implies !#[trigger] word_at(list@, word@, s) by {
            if s >= i0 && word_at(list@, word@, s) {
                assert(list@[s + 0] == word@[0]);
            }
        }
        if i >= n {
            assert forall|s: int| #![all_triggers] !word_at(list@, word@, s) by {
                if s >= n && word_at(list@, word@, s) {
                    assert(list@[s + 0] == word@[0]);
                }
            }
            return false;
        }
        let start = i;
        assert(start == 0 || spec_is_whitespace(list@[start - 1]));
        i = i + 1;
        while i < n && !is_whitespace(list[i])
            invariant
                i0 <= start < i <= n == list@.len(),
                !spec_is_whitespace(list@[start as int]),
                forall|s: int| start <= s < i ==> !spec_is_whitespace(#[trigger] list@[s]),
            decreases n - i,
        {
            i = i + 1;
        }
        let mut found = false;
        if i - start == word.len() {
            let mut k: usize = 0;
            let mut same = true;
            while k < word.len()
                invariant
                    start + word@.len() <= n == list@.len(),
                    k <= word@.len(),
                    same == forall|j: int| 0 <= j < k ==> list@[start + j] == #[trigger] word@[j],
                decreases word@.len() - k,
            {
                if list[start + k] != word[k] {
                    same = false;
                }
                k = k + 1;
            }
            if same {
                assert(word_at(list@, word@, start as int)) by {
                    assert forall|k: int| 0 <= k < word@.len() implies list@[start + k] == #[trigger] word@[k] && !spec_is_whitespace(word@[k]) by {
                        assert(!spec_is_whitespace(list@[start + k]));
                    }
                }
                found = true;
            }
        }
        if found {
            return true;
        }
        assert forall|s: int| 0 <= s < i implies !#[trigger] word_at(list@, word@, s) by {
            if s == start && word_at(list@, word@, s) {
                if start + word@.len() < i {
                    assert(!spec_is_whitespace(list@[start + word@.len()]));
                } else if start + word@.len() > i {
                    assert(list@[start + (i - start)] == word@[i - start]);
                } else {
                    assert(forall|j: int| 0 <= j < word@.len() ==> list@[start + j] == #[trigger] word@[j]);
                }
            } else if s > start && word_at(list@, word@, s) {
                assert(!spec_is_whitespace(list@[s - 1]));
            }
        }
    }
    assert forall|s: int| #![all_triggers] !word_at(list@, word@, s) by {
        if s >= n && word_at(list@, word@, s) {
            assert(list@[s + 0] == word@[0]);
        }
    }
    false
}

/// Whether `name` equals `want` ignoring ASCII case.
fn eq_ignore_case(name: &[u8], want: &[u8]) -> (r: bool)
    ensures
        r == same_ignoring_case(name@, want@),
{
    if name.len() != want.len() {
        return false;
    }
    let mut k: usize = 0;
    while k < name.len()
        invariant
            k <= name@.len() == want@.len(),
            forall|j: int| 0 <= j < k ==> #[trigger] spec_to_lower(name@[j]) == spec_to_lower(want@[j]),
        decreases name@.len() - k,
    {
        if to_lower(name[k]) != to_lower(want[k]) {
            return false;
        }
        k = k + 1;
    }
    true
}

/// Whether the attribute part `part` (`[attr]` or `[attr=value]`) holds of
/// the attributes `entries`.
pub open spec fn attr_part_holds(entries: Seq<(Seq<u8>, Seq<u8>)>, part: (Vec<u8>, Option<Vec<u8>>)) -> bool {
    match lookup(entries, part.0@) {
        Some(v) => match part.1 {
            Some(w) => v == w@,
            None => true,
        },
        None => false,
    }
}

/// Whether an element named `name` with the attributes `entries` matches
/// `sel`: the tag name ignoring ASCII case, the `id` exactly, every class
/// among the words of `class`, and every attribute part.
pub open spec fn selector_matches(name: Seq<u8>, entries: Seq<(Seq<u8>, Seq<u8>)>, sel: Selector) -> bool {
    &&& sel.valid
    &&& match sel.tag {
        Some(t) => same_ignoring_case(name, t@),
        None => true,
    }
    &&& match sel.id {
        Some(id) => lookup(entries, seq![105u8, 100]) == Some(id@),
        None => true,
    }
    &&& (sel.classes@.len() > 0 ==> match lookup(entries, seq![99u8, 108, 97, 115, 115]) {
        Some(v) => forall|k: int| 0 <= k < sel.classes@.len() ==> lists_word(v, (#[trigger] sel.classes@[k])@),
        None => false,
    })
    &&& forall|k: int| 0 <= k < sel.attrs@.len() ==> attr_part_holds(entries, #[trigger] sel.attrs@[k])
}

/// Whether an element with the given name and attributes matches `sel`.
pub fn matches_selector(name: &[u8], attributes: &Attributes, sel: &Selector) -> (r: bool)
    ensures
        r == selector_matches(name@, attributes@.entries, *sel),
{
    let id_name: [u8; 2] = [105u8, 100u8];
    let class_name: [u8; 5] = [99u8, 108u8, 97u8, 115u8, 115u8];
    assert(id_name@ =~= seq![105u8, 100]);
    assert(class_name@ =~= seq![99u8, 108, 97, 115, 115]);
    if !sel.valid {
        return false;
    }
    match &sel.tag {
        Some(tag) => {
            if !eq_ignore_case(name, tag.as_slice()) {
                return false;
            }
        },
        None => {},
    }
    match &sel.id {
        Some(id) => {
            match attributes.value_of(&id_name) {
                Some(value) => {
                    if !bytes_eq(value.as_slice(), id.as_slice()) {
                        return false;
                    }
                },
                None => {
                    return false;
                },
            }
        },
        None => {},
    }
    if sel.classes.len() > 0 {
        match attributes.value_of(&class_name) {
            Some(value) => {
                let mut k: usize = 0;
                while k < sel.classes.len()
                    invariant
                        k <= sel.classes@.len(),
                        lookup(attributes@.entries, seq![99u8, 108, 97, 115, 115]) == Some(value@),
                        forall|j: int| 0 <= j < k ==> lists_word(value@, (#[trigger] sel.classes@[j])@),
                    decreases sel.classes@.len() - k,
                {
                    if !has_word(value.as_slice(), sel.classes[k].as_slice()) {
                        return false;
                    }
                    k = k + 1;
                }
            },
            None => {
                return false;
            },
        }
    }
    let mut k: usize = 0;
    while k < sel.attrs.len()
        invariant
            k <= sel.attrs@.len(),
            sel.valid,
            forall|j: int| 0 <= j < k ==> attr_part_holds(attributes@.entries, #[trigger] sel.attrs@[j]),
        decreases sel.attrs@.len() - k,
    {
        let (attr, want) = &sel.attrs[k];
        match attributes.value_of(attr.as_slice()) {
            Some(value) => {
                match want {
                    Some(w) => {
                        if !bytes_eq(value.as_slice(), w.as_slice()) {
                            return false;
                        }
                    },
                    None => {},
                }
            },
            None => {
                return false;
            },
        }
        k = k + 1;
    }
    true
}

} // verus!

verus! {

/// What the selectors `#name`, `.name` and `name` match: the element whose
/// `id` is `name`, the element whose class list holds `name`, and the
/// element named `name` in any letter case.
pub proof fn lemma_simple_selectors_match(name: Seq<u8>, entries: Seq<(Seq<u8>, Seq<u8>)>, sel: Selector)
    requires
        sel.valid,
        sel.attrs@.len() == 0,
    ensures
        sel.tag is None && sel.classes@.len() == 0 && sel.id is Some
            ==> (selector_matches(name, entries, sel) <==> lookup(entries, seq![105u8, 100]) == Some(sel.id.unwrap()@)),
        sel.tag is None && sel.id is None && sel.classes@.len() == 1
            ==> (selector_matches(name, entries, sel) <==> (lookup(entries, seq![99u8, 108, 97, 115, 115]) matches Some(v)
                && lists_word(v, sel.classes@[0]@))),
        sel.id is None && sel.classes@.len() == 0 && sel.tag is Some
            ==> (selector_matches(name, entries, sel) <==> same_ignoring_case(name, sel.tag.unwrap()@)),
{
}

} // verus!
