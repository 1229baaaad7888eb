//! Low-level HTML scanning: comments, bogus comments, tag attributes.

use vstd::prelude::*;
use vstd::string::StringSliceAdditionalSpecFns;
use crate::attributes::{AttrModel, Attributes, empty_attrs, insert_attr, attrs_wf, lemma_insert_keeps_wf};
use crate::chars::{is_whitespace, spec_is_whitespace, lower_seq, to_ascii_lowercase};
use crate::entities::{decode_entities, decode_html_entities};

verus! {

/// Attribute strings longer than this are refused as a whole.
pub const MAX_ATTRIBUTE_BYTES: usize = 65536;

pub struct CommentResult {
    pub complete: bool,
    pub new_position: usize,
}

/// Index just past the first `>` at or after `i`.
pub open spec fn first_gt_end(b: Seq<u8>, i: int) -> Option<int>
    decreases b.len() - i,
{
    if i < 0 || i >= b.len() {
        None
    } else if b[i] == 62 {
        Some(i + 1)
    } else {
        first_gt_end(b, i + 1)
    }
}

/// Comment-end recognition (states: start, start-dash, comment, end-dash,
/// end, end-bang): whether byte `c` closes the comment in state `state`.
pub open spec fn comment_closes(state: u8, c: u8) -> bool {
    c == 62 && (state == 0 || state == 1 || state == 4 || state == 5)
}

pub open spec fn comment_next(state: u8, c: u8) -> u8 {
    if state == 0 {
        if c == 45 { 1 } else { 2 }
    } else if state == 1 {
        if c == 45 { 4 } else { 2 }
    } else if state == 2 {
        if c == 45 { 3 } else { 2 }
    } else if state == 3 {
        if c == 45 { 4 } else { 2 }
    } else if state == 4 {
        if c == 33 { 5 } else if c == 45 { 4 } else { 2 }
    } else {
        if c == 45 { 3 } else { 2 }
    }
}

/// Index just past the `>` that ends a comment whose body starts at `i`.
pub open spec fn comment_close_end(b: Seq<u8>, i: int, state: u8) -> Option<int>
    decreases b.len() - i,
{
    if i < 0 || i >= b.len() {
        None
    } else if comment_closes(state, b[i]) {
        Some(i + 1)
    } else {
        comment_close_end(b, i + 1, comment_next(state, b[i]))
    }
}

/// End of a `<!...` or `<?...` construct starting at `p`: a `<!--` comment
/// ends as HTML comments do; anything else at its first `>`.
pub open spec fn comment_or_doctype_end(b: Seq<u8>, p: int) -> Option<int> {
    if p + 3 < b.len() && b[p + 2] == 45 && b[p + 3] == 45 {
        comment_close_end(b, p + 4, 0)
    } else {
        first_gt_end(b, p + 2)
    }
}

pub proof fn lemma_first_gt_end(b: Seq<u8>, i: int)
    requires
        0 <= i,
    ensures
        first_gt_end(b, i) matches Some(e) ==> i < e <= b.len(),
    decreases b.len() - i,
{
    if i < b.len() && b[i] != 62 {
        lemma_first_gt_end(b, i + 1);
    }
}

pub proof fn lemma_comment_close_end(b: Seq<u8>, i: int, state: u8)
    requires
        0 <= i,
    ensures
        comment_close_end(b, i, state) matches Some(e) ==> i < e <= b.len(),
    decreases b.len() - i,
{
    if i < b.len() && !comment_closes(state, b[i]) {
        lemma_comment_close_end(b, i + 1, comment_next(state, b[i]));
    }
}

fn first_gt(b: &[u8], start: usize) -> (r: Option<usize>)
    ensures
        match r {
            Some(e) => first_gt_end(b@, start as int) == Some(e as int),
            None => first_gt_end(b@, start as int) is None,
        },
{
    let mut i = start;
    while i < b.len()
        invariant
            start <= i,
            first_gt_end(b@, start as int) == first_gt_end(b@, i as int),
        decreases b@.len() - i,
    {
        if b[i] == 62 {
            return Some(i + 1);
        }
        i = i + 1;
    }
    None
}

/// Scans a bogus comment (`<?...>`, `</...>` not naming a tag) from `position`.
pub fn process_bogus_comment(html: &[u8], position: usize) -> (r: CommentResult)
    requires
        position <= html@.len(),
    ensures
        r.complete == first_gt_end(html@, position + 2) is Some,
        r.complete ==> first_gt_end(html@, position + 2) == Some(r.new_position as int),
        !r.complete ==> r.new_position == position,
{
    let start = if html.len() - position >= 2 { position + 2 } else { html.len() };
    match first_gt(html, start) {
        Some(e) => CommentResult { complete: true, new_position: e },
        None => CommentResult { complete: false, new_position: position },
    }
}

/// Scans `<!...` from `position`: a comment, a doctype or a bogus comment.
pub fn process_comment_or_doctype(html: &[u8], position: usize) -> (r: CommentResult)
    requires
        position <= html@.len(),
    ensures
        r.complete == comment_or_doctype_end(html@, position as int) is Some,
        r.complete ==> comment_or_doctype_end(html@, position as int) == Some(r.new_position as int),
        !r.complete ==> r.new_position == position,
{
    let len = html.len();
    if len - position > 3 && html[position + 2] == 45 && html[position + 3] == 45 {
        let mut i = position + 4;
        let mut state: u8 = 0;
        while i < len
            invariant
                position + 4 <= i,
                len == html@.len(),
                position + 3 < len,
                html@[position + 2] == 45 && html@[position + 3] == 45,
                state <= 5,
                comment_close_end(html@, position + 4, 0) == comment_close_end(html@, i as int, state),
            decreases len - i,
        {
            let c = html[i];
            if c == 62 && (state == 0 || state == 1 || state == 4 || state == 5) {
                return CommentResult { complete: true, new_position: i + 1 };
            }
            state = if state == 0 {
                if c == 45 { 1 } else { 2 }
            } else if state == 1 {
                if c == 45 { 4 } else { 2 }
            } else if state == 2 {
                if c == 45 { 3 } else { 2 }
            } else if state == 3 {
                if c == 45 { 4 } else { 2 }
            } else if state == 4 {
                if c == 33 { 5 } else if c == 45 { 4 } else { 2 }
            } else {
                if c == 45 { 3 } else { 2 }
            };
            i = i + 1;
        }
        CommentResult { complete: false, new_position: position }
    } else {
        process_bogus_comment(html, position)
    }
}

// ---------------------------------------------------------------------------
// Tag attribute scanning

/// How the scanner for a start tag's attribute area moves between
/// before-name (0), name (1), after-name (2), before-value (3),
/// quoted-value (4), after-quoted-value (5) and unquoted-value (6).
pub open spec fn tag_next(state: u8, quote: u8, c: u8) -> (u8, u8) {
    if state == 0 {
        if !spec_is_whitespace(c) { (1, quote) } else { (0, quote) }
    } else if state == 1 {
        if spec_is_whitespace(c) { (2, quote) } else if c == 61 { (3, quote) } else { (1, quote) }
    } else if state == 2 {
        if c == 61 { (3, quote) } else if !spec_is_whitespace(c) { (1, quote) } else { (2, quote) }
    } else if state == 3 {
        if c == 34 || c == 39 { (4, c) } else if !spec_is_whitespace(c) { (6, quote) } else { (3, quote) }
    } else if state == 4 {
        if c == quote { (5, quote) } else { (4, quote) }
    } else if state == 5 {
        if spec_is_whitespace(c) { (0, quote) } else { (1, quote) }
    } else {
        if spec_is_whitespace(c) { (0, quote) } else { (6, quote) }
    }
}

/// Where the tag whose attribute area is being scanned at `i` ends:
/// `(attribute area end, index after the tag, syntactically self-closing)`.
/// `/>` closes the tag outside a value; `>` closes it outside a quoted value.
pub open spec fn tag_close(b: Seq<u8>, i: int, state: u8, quote: u8) -> Option<(int, int, bool)>
    decreases b.len() - i,
{
    if i < 0 || i >= b.len() {
        None
    } else if b[i] == 47 && (state == 0 || state == 1 || state == 2 || state == 5) && i + 1 < b.len()
        && b[i + 1] == 62 {
        Some((i, i + 2, true))
    } else if b[i] == 62 && state != 4 {
        Some((i, i + 1, false))
    } else {
        tag_close(b, i + 1, tag_next(state, quote, b[i]).0, tag_next(state, quote, b[i]).1)
    }
}

pub proof fn lemma_tag_close(b: Seq<u8>, i: int, state: u8, quote: u8)
    requires
        0 <= i,
    ensures
        tag_close(b, i, state, quote) matches Some((e, n, sc)) ==> i <= e < n <= b.len() && n == e + (if sc { 2int } else { 1int }),
    decreases b.len() - i,
{
    if i < b.len() && !(b[i] == 47 && (state == 0 || state == 1 || state == 2 || state == 5) && i + 1 < b.len()
        && b[i + 1] == 62) && !(b[i] == 62 && state != 4) {
        lemma_tag_close(b, i + 1, tag_next(state, quote, b[i]).0, tag_next(state, quote, b[i]).1);
    }
}

// Unicode whitespace as `str::trim` removes it, by its UTF-8 encoding.

/// Width of the whitespace character starting at `i`, 0 when none starts there.
pub open spec fn ws_width_at(b: Seq<u8>, i: int) -> int {
    if 0 <= i < b.len() && ((9 <= b[i] <= 13) || b[i] == 32) {
        1
    } else if 0 <= i && i + 1 < b.len() && b[i] == 0xC2 && (b[i + 1] == 0x85 || b[i + 1] == 0xA0) {
        2
    } else if 0 <= i && i + 2 < b.len() && ((b[i] == 0xE1 && b[i + 1] == 0x9A && b[i + 2] == 0x80)
        || (b[i] == 0xE2 && b[i + 1] == 0x80 && (b[i + 2] <= 0x8A || b[i + 2] == 0xA8 || b[i + 2] == 0xA9 || b[i + 2] == 0xAF) && b[i + 2] >= 0x80)
        || (b[i] == 0xE2 && b[i + 1] == 0x81 && b[i + 2] == 0x9F)
        || (b[i] == 0xE3 && b[i + 1] == 0x80 && b[i + 2] == 0x80)) {
        3
    } else {
        0
    }
}

/// Width of the whitespace character ending just before `j` (within `[lo, j)`), 0 when none.
pub open spec fn ws_width_before(b: Seq<u8>, lo: int, j: int) -> int {
    if lo < j && j <= b.len() && ws_width_at(b, j - 1) == 1 {
        1
    } else if lo <= j - 2 && j <= b.len() && ws_width_at(b, j - 2) == 2 {
        2
    } else if lo <= j - 3 && j <= b.len() && ws_width_at(b, j - 3) == 3 {
        3
    } else {
        0
    }
}

/// Start of `b[lo..hi]` after its leading whitespace.
pub open spec fn trim_start_index(b: Seq<u8>, lo: int, hi: int) -> int
    decreases hi - lo,
{
    if lo < hi && ws_width_at(b, lo) > 0 && lo + ws_width_at(b, lo) <= hi {
        trim_start_index(b, lo + ws_width_at(b, lo), hi)
    } else {
        lo
    }
}

/// End of `b[lo..hi]` before its trailing whitespace.
pub open spec fn trim_end_index(b: Seq<u8>, lo: int, hi: int) -> int
    decreases hi - lo,
{
    if lo < hi && ws_width_before(b, lo, hi) > 0 {
        trim_end_index(b, lo, hi - ws_width_before(b, lo, hi))
    } else {
        hi
    }
}

/// Trimming whitespace from both ends keeps a final printable ASCII byte.
pub proof fn lemma_trim_keeps_final_ascii(b: Seq<u8>, lo: int)
    requires
        0 <= lo < b.len(),
        32 < b.last() < 0x80,
    ensures
        lo <= trim_start_index(b, lo, b.len() as int) < b.len(),
        trim_end_index(b, trim_start_index(b, lo, b.len() as int), b.len() as int) == b.len(),
    decreases b.len() - lo,
{
    let w = ws_width_at(b, lo);
    if ws_width_at(b, lo) > 0 && lo + ws_width_at(b, lo) <= b.len() {
        assert(lo + w < b.len());
        lemma_trim_keeps_final_ascii(b, lo + w);
    }
}

/// Where trimming the end of `b[lo..hi]` stops, the byte before is not
/// ASCII whitespace.
pub proof fn lemma_trim_end_stops(b: Seq<u8>, lo: int, hi: int)
    requires
        0 <= lo <= hi <= b.len(),
    ensures
        lo <= trim_end_index(b, lo, hi) <= hi,
        lo < trim_end_index(b, lo, hi) ==> !(9 <= b[trim_end_index(b, lo, hi) - 1] <= 13 || b[trim_end_index(b, lo, hi) - 1] == 32),
    decreases hi - lo,
{
    if lo < hi && ws_width_before(b, lo, hi) > 0 {
        lemma_trim_end_stops(b, lo, hi - ws_width_before(b, lo, hi));
    }
}

/// All of `s` is whitespace, as trimming from its start removes it.
pub open spec fn leading_blank(s: Seq<u8>) -> bool {
    trim_start_index(s, 0, s.len() as int) == s.len()
}

/// All of `s` is whitespace, as trimming from its end removes it.
pub open spec fn trailing_blank(s: Seq<u8>) -> bool {
    trim_end_index(s, 0, s.len() as int) == 0
}

pub proof fn lemma_trim_start_bounds(b: Seq<u8>, lo: int, hi: int)
    requires
        lo <= hi,
    ensures
        lo <= trim_start_index(b, lo, hi) <= hi,
    decreases hi - lo,
{
    if lo < hi && ws_width_at(b, lo) > 0 && lo + ws_width_at(b, lo) <= hi {
        lemma_trim_start_bounds(b, lo + ws_width_at(b, lo), hi);
    }
}

pub proof fn lemma_trim_end_bounds(b: Seq<u8>, lo: int, hi: int)
    requires
        lo <= hi,
    ensures
        lo <= trim_end_index(b, lo, hi) <= hi,
    decreases hi - lo,
{
    if lo < hi && ws_width_before(b, lo, hi) > 0 {
        lemma_trim_end_bounds(b, lo, hi - ws_width_before(b, lo, hi));
    }
}

/// What trimming skips at the start of `b` is whitespace on its own.
pub proof fn lemma_trim_start_prefix(b: Seq<u8>, lo: int, s: int)
    requires
        0 <= lo <= s <= b.len(),
        trim_start_index(b, lo, b.len() as int) == s,
    ensures
        trim_start_index(b.subrange(0, s), lo, s) == s,
    decreases s - lo,
{
    let n = b.len() as int;
    let sub = b.subrange(0, s);
    let w = ws_width_at(b, lo);
    if lo < n && w > 0 && lo + w <= n {
        lemma_trim_start_bounds(b, lo + w, n);
        lemma_trim_start_prefix(b, lo + w, s);
        assert(ws_width_at(sub, lo) == w);
    }
}

/// What trimming skips at the end of `b` is whitespace on its own.
pub proof fn lemma_trim_end_suffix(b: Seq<u8>, lo: int, hi: int, e: int)
    requires
        0 <= lo <= e <= hi <= b.len(),
        trim_end_index(b, lo, hi) == e,
    ensures
        trim_end_index(b.subrange(e, b.len() as int), 0, hi - e) == 0,
    decreases hi - lo,
{
    let n = b.len() as int;
    let sub = b.subrange(e, n);
    let wb = ws_width_before(b, lo, hi);
    if lo < hi && wb > 0 {
        lemma_trim_end_bounds(b, lo, hi - wb);
        lemma_trim_end_suffix(b, lo, hi - wb, e);
        assert(hi - wb >= e);
        assert forall|k: int| 0 <= k implies #[trigger] ws_width_at(sub, k) == ws_width_at(b, e + k) by {
            if k < sub.len() {
                assert(sub[k] == b[e + k]);
            }
            if k + 1 < sub.len() {
                assert(sub[k + 1] == b[e + k + 1]);
            }
            if k + 2 < sub.len() {
                assert(sub[k + 2] == b[e + k + 2]);
            }
        }
        assert(ws_width_before(sub, 0, hi - e) == wb);
    }
}

fn ws_width(b: &[u8], i: usize) -> (r: usize)
    ensures
        r == ws_width_at(b@, i as int),
{
    let len = b.len();
    if i < len && ((9 <= b[i] && b[i] <= 13) || b[i] == 32) {
        1
    } else if i < len && len - i > 1 && b[i] == 0xC2 && (b[i + 1] == 0x85 || b[i + 1] == 0xA0) {
        2
    } else if i < len && len - i > 2 && ((b[i] == 0xE1 && b[i + 1] == 0x9A && b[i + 2] == 0x80)
        || (b[i] == 0xE2 && b[i + 1] == 0x80 && (b[i + 2] <= 0x8A || b[i + 2] == 0xA8 || b[i + 2] == 0xA9 || b[i + 2] == 0xAF) && b[i + 2] >= 0x80)
        || (b[i] == 0xE2 && b[i + 1] == 0x81 && b[i + 2] == 0x9F)
        || (b[i] == 0xE3 && b[i + 1] == 0x80 && b[i + 2] == 0x80)) {
        3
    } else {
        0
    }
}

fn ws_width_ending(b: &[u8], lo: usize, j: usize) -> (r: usize)
    requires
        j <= b@.len(),
    ensures
        r == ws_width_before(b@, lo as int, j as int),
{
    if lo < j && ws_width(b, j - 1) == 1 {
        1
    } else if j >= 2 && lo <= j - 2 && ws_width(b, j - 2) == 2 {
        2
    } else if j >= 3 && lo <= j - 3 && ws_width(b, j - 3) == 3 {
        3
    } else {
        0
    }
}

/// The end of `b[lo..hi]` before its trailing whitespace.
pub fn trim_end_bound(b: &[u8], lo: usize, hi: usize) -> (r: usize)
    requires
        lo <= hi <= b@.len(),
    ensures
        r == trim_end_index(b@, lo as int, hi as int),
        lo <= r <= hi,
{
    let mut e = hi;
    while lo < e && ws_width_ending(b, lo, e) > 0
        invariant
            lo <= e <= hi,
            hi <= b@.len(),
            trim_end_index(b@, lo as int, hi as int) == trim_end_index(b@, lo as int, e as int),
        decreases e - lo,
    {
        e = e - ws_width_ending(b, lo, e);
    }
    e
}

/// The bounds of `b[lo..hi]` without leading and trailing whitespace.
pub fn trim_bounds(b: &[u8], lo: usize, hi: usize) -> (r: (usize, usize))
    requires
        lo <= hi <= b@.len(),
    ensures
        r.0 == trim_start_index(b@, lo as int, hi as int),
        r.1 == trim_end_index(b@, r.0 as int, hi as int),
        lo <= r.0 <= r.1 <= hi,
{
    let mut a = lo;
    while a < hi && ws_width(b, a) > 0 && ws_width(b, a) <= hi - a
        invariant
            lo <= a <= hi,
            hi <= b@.len(),
            trim_start_index(b@, lo as int, hi as int) == trim_start_index(b@, a as int, hi as int),
        decreases hi - a,
    {
        a = a + ws_width(b, a);
    }
    let mut e = hi;
    while a < e && ws_width_ending(b, a, e) > 0
        invariant
            a <= e <= hi,
            hi <= b@.len(),
            trim_end_index(b@, a as int, hi as int) == trim_end_index(b@, a as int, e as int),
        decreases e - a,
    {
        e = e - ws_width_ending(b, a, e);
    }
    (a, e)
}

/// Scans a start tag's attribute area from `position` (just after the tag
/// name) to the closing `>` or `/>`. Returns whether the tag is complete, the
/// index after it, its attributes (none when `skip_attrs`) and whether it was
/// written self-closing.
pub fn process_tag_attributes(html: &[u8], position: usize, skip_attrs: bool) -> (r: (bool, usize, Attributes, bool))
    requires
        position <= html@.len(),
    ensures
        match tag_close(html@, position as int, 0, 0) {
            Some((e, n, sc)) => {
                &&& r.0
                &&& r.1 == n
                &&& r.3 == sc
                &&& r.2@ == (if skip_attrs { empty_attrs() } else {
                    spec_parse_attributes(html@.subrange(
                        trim_start_index(html@, position as int, e),
                        trim_end_index(html@, trim_start_index(html@, position as int, e), e)))
                })
            },
            None => !r.0 && r.1 == html@.len() && r.2@ == empty_attrs() && !r.3,
        },
{
    let len = html.len();
    let mut i = position;
    let mut state: u8 = 0;
    let mut quote: u8 = 0;
    while i < len
        invariant
            position <= i <= len,
            len == html@.len(),
            state <= 6,
            tag_close(html@, position as int, 0, 0) == tag_close(html@, i as int, state, quote),
        decreases len - i,
    {
        let c = html[i];
        let self_closing = c == 47 && (state == 0 || state == 1 || state == 2 || state == 5) && i + 1 < len
            && html[i + 1] == 62;
        if self_closing || (c == 62 && state != 4) {
            let attrs = if skip_attrs {
                Attributes::new()
            } else {
                let (a, e) = trim_bounds(html, position, i);
                parse_attributes(&html[a..e])
            };
            let next = if self_closing { i + 2 } else { i + 1 };
            return (true, next, attrs, self_closing);
        }
        if state == 0 {
            if !is_whitespace(c) { state = 1; }
        } else if state == 1 {
            if is_whitespace(c) { state = 2; } else if c == 61 { state = 3; }
        } else if state == 2 {
            if c == 61 { state = 3; } else if !is_whitespace(c) { state = 1; }
        } else if state == 3 {
            if c == 34 || c == 39 { state = 4; quote = c; } else if !is_whitespace(c) { state = 6; }
        } else if state == 4 {
            if c == quote { state = 5; }
        } else if state == 5 {
            if is_whitespace(c) { state = 0; } else { state = 1; }
        } else {
            if is_whitespace(c) { state = 0; }
        }
        i = i + 1;
    }
    (false, i, Attributes::new(), false)
}

// ---------------------------------------------------------------------------
// Attribute parsing

/// State of the attribute parser: its mode (whitespace 0, name 1,
/// after-name 2, before-value 3, quoted 4, unquoted 5), where the current
/// name starts, the saved bounds of the name a value belongs to, where the
/// value starts, the quote, and the attributes gathered so far.
pub struct ParseState {
    pub mode: u8,
    pub name_start: int,
    pub saved_start: int,
    pub saved_end: int,
    pub value_start: int,
    pub quote: u8,
    pub acc: AttrModel,
}

pub open spec fn saved_name(s: Seq<u8>, st: ParseState) -> Seq<u8> {
    lower_seq(s.subrange(st.saved_start, st.saved_end))
}

pub open spec fn parse_step(s: Seq<u8>, i: int, st: ParseState) -> ParseState {
    let c = s[i];
    let space = spec_is_whitespace(c);
    if st.mode == 0 {
        if !space { ParseState { mode: 1, name_start: i, ..st } } else { st }
    } else if st.mode == 1 {
        if c == 61 || space {
            ParseState { mode: if c == 61 { 3 } else { 2 }, saved_start: st.name_start, saved_end: i, ..st }
        } else {
            st
        }
    } else if st.mode == 2 {
        if c == 61 {
            ParseState { mode: 3, ..st }
        } else if !space {
            ParseState { mode: 1, name_start: i, acc: insert_attr(st.acc, saved_name(s, st), Seq::empty()), ..st }
        } else {
            st
        }
    } else if st.mode == 3 {
        if !space {
            if c == 34 || c == 39 {
                ParseState { mode: 4, quote: c, value_start: i + 1, ..st }
            } else {
                ParseState { mode: 5, value_start: i, ..st }
            }
        } else {
            st
        }
    } else if st.mode == 4 {
        if c == st.quote {
            ParseState { mode: 0, acc: insert_attr(st.acc, saved_name(s, st), decode_entities(s.subrange(st.value_start, i), true)), ..st }
        } else {
            st
        }
    } else {
        if space {
            ParseState { mode: 0, acc: insert_attr(st.acc, saved_name(s, st), decode_entities(s.subrange(st.value_start, i), true)), ..st }
        } else {
            st
        }
    }
}

pub open spec fn parse_from(s: Seq<u8>, i: int, st: ParseState) -> ParseState
    decreases s.len() - i,
{
    if i < 0 || i >= s.len() {
        st
    } else {
        parse_from(s, i + 1, parse_step(s, i, st))
    }
}

/// What the attribute string's end adds: a pending name or unquoted value.
pub open spec fn parse_finish(s: Seq<u8>, st: ParseState) -> AttrModel {
    if st.mode == 1 {
        insert_attr(st.acc, lower_seq(s.subrange(st.name_start, s.len() as int)), Seq::empty())
    } else if st.mode == 5 {
        insert_attr(st.acc, saved_name(s, st), decode_entities(s.subrange(st.value_start, s.len() as int), true))
    } else if st.mode == 2 || st.mode == 3 {
        insert_attr(st.acc, saved_name(s, st), Seq::empty())
    } else {
        st.acc
    }
}

pub open spec fn parse_init() -> ParseState {
    ParseState { mode: 0, name_start: 0, saved_start: 0, saved_end: 0, value_start: 0, quote: 0, acc: empty_attrs() }
}

/// The attributes written in `s`: names ASCII-lowercased, values with their
/// character references decoded; a repeated name keeps its first value.
pub open spec fn spec_parse_attributes(s: Seq<u8>) -> AttrModel {
    if s.len() == 0 {
        empty_attrs()
    } else if s.len() > MAX_ATTRIBUTE_BYTES {
        AttrModel { entries: Seq::empty(), limit_exceeded: true }
    } else {
        parse_finish(s, parse_from(s, 0, parse_init()))
    }
}

/// Bounds that the parse state keeps for every prefix it has read.
pub open spec fn parse_state_ok(st: ParseState, i: int) -> bool {
    &&& 0 <= st.name_start <= i
    &&& 0 <= st.saved_start <= st.saved_end <= i
    &&& 0 <= st.value_start <= i + 1
    &&& (st.mode == 5 ==> st.value_start <= i)
    &&& (st.mode == 4 ==> st.value_start <= i)
    &&& st.mode <= 5
    &&& attrs_wf(st.acc)
}

fn lower_range(s: &[u8], from: usize, to: usize) -> (r: Vec<u8>)
    requires
        from <= to <= s@.len(),
    ensures
        r@ == lower_seq(s@.subrange(from as int, to as int)),
{
    to_ascii_lowercase(&s[from..to])
}

fn decode_range(s: &[u8], from: usize, to: usize) -> (r: Vec<u8>)
    requires
        from <= to <= s@.len(),
    ensures
        r@ == decode_entities(s@.subrange(from as int, to as int), true),
{
    decode_html_entities(&s[from..to], true)
}

/// Parses an attribute string (the trimmed text between a tag name and its `>`).
pub fn parse_attributes(s: &[u8]) -> (r: Attributes)
    ensures
        r@ == spec_parse_attributes(s@),
        attrs_wf(r@),
{
    if s.len() == 0 {
        return Attributes::new();
    }
    if s.len() > MAX_ATTRIBUTE_BYTES {
        let mut result = Attributes::new();
        result.mark_limit_exceeded();
        assert(result@ == (AttrModel { entries: Seq::empty(), limit_exceeded: true }));
        return result;
    }
    let mut result = Attributes::new();
    let len = s.len();
    let mut i: usize = 0;
    let mut mode: u8 = 0;
    let mut name_start: usize = 0;
    let mut saved_start: usize = 0;
    let mut saved_end: usize = 0;
    let mut value_start: usize = 0;
    let mut quote: u8 = 0;
    while i < len
        invariant
            len == s@.len(),
            i <= len,
            len <= MAX_ATTRIBUTE_BYTES,
            ({
                let st = ParseState {
                    mode,
                    name_start: name_start as int,
                    saved_start: saved_start as int,
                    saved_end: saved_end as int,
                    value_start: value_start as int,
                    quote,
                    acc: result@,
                };
                &&& parse_state_ok(st, i as int)
                &&& parse_from(s@, 0, parse_init()) == parse_from(s@, i as int, st)
            }),
        decreases len - i,
    {
        let ghost before = ParseState {
            mode,
            name_start: name_start as int,
            saved_start: saved_start as int,
            saved_end: saved_end as int,
            value_start: value_start as int,
            quote,
            acc: result@,
        };
        let c = s[i];
        let space = is_whitespace(c);
        if mode == 0 {
            if !space {
                mode = 1;
                name_start = i;
            }
        } else if mode == 1 {
            if c == 61 || space {
                saved_start = name_start;
                saved_end = i;
                mode = if c == 61 { 3 } else { 2 };
            }
        } else if mode == 2 {
            if c == 61 {
                mode = 3;
            } else if !space {
                proof { lemma_insert_keeps_wf(result@, saved_name(s@, before), Seq::empty()); }
                let name = lower_range(s, saved_start, saved_end);
                result.insert_attribute(name, Vec::new());
                mode = 1;
                name_start = i;
            }
        } else if mode == 3 {
            if !space {
                if c == 34 || c == 39 {
                    mode = 4;
                    quote = c;
                    value_start = i + 1;
                } else {
                    mode = 5;
                    value_start = i;
                }
            }
        } else if mode == 4 {
            if c == quote {
                proof { lemma_insert_keeps_wf(result@, saved_name(s@, before), decode_entities(s@.subrange(value_start as int, i as int), true)); }
                let name = lower_range(s, saved_start, saved_end);
                let value = decode_range(s, value_start, i);
                result.insert_attribute(name, value);
                mode = 0;
            }
        } else {
            if space {
                proof { lemma_insert_keeps_wf(result@, saved_name(s@, before), decode_entities(s@.subrange(value_start as int, i as int), true)); }
                let name = lower_range(s, saved_start, saved_end);
                let value = decode_range(s, value_start, i);
                result.insert_attribute(name, value);
                mode = 0;
            }
        }
        proof {
            assert(parse_step(s@, i as int, before) == (ParseState {
                mode,
                name_start: name_start as int,
                saved_start: saved_start as int,
                saved_end: saved_end as int,
                value_start: value_start as int,
                quote,
                acc: result@,
            }));
        }
        i = i + 1;
    }
    let ghost fin = ParseState {
        mode,
        name_start: name_start as int,
        saved_start: saved_start as int,
        saved_end: saved_end as int,
        value_start: value_start as int,
        quote,
        acc: result@,
    };
    if mode == 1 {
        proof { lemma_insert_keeps_wf(result@, lower_seq(s@.subrange(name_start as int, len as int)), Seq::empty()); }
        let name = lower_range(s, name_start, len);
        result.insert_attribute(name, Vec::new());
    } else if mode == 5 {
        proof { lemma_insert_keeps_wf(result@, saved_name(s@, fin), decode_entities(s@.subrange(value_start as int, len as int), true)); }
        let name = lower_range(s, saved_start, saved_end);
        let value = decode_range(s, value_start, len);
        result.insert_attribute(name, value);
    } else if mode == 2 || mode == 3 {
        proof { lemma_insert_keeps_wf(result@, saved_name(s@, fin), Seq::empty()); }
        let name = lower_range(s, saved_start, saved_end);
        result.insert_attribute(name, Vec::new());
    }
    result
}

/// `parse_attributes` on a `&str`.
pub fn parse_attribute_str(s: &str) -> (r: Attributes)
    ensures
        r@ == spec_parse_attributes(s.spec_bytes()),
{
    parse_attributes(s.as_bytes())
}

} // verus!
