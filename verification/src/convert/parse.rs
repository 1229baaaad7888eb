//! HTML tokenizing and tree building: tags, text, comments, raw text, implied
//! end tags and the depth limit.

use vstd::prelude::*;
use vstd::string::StringSliceAdditionalSpecFns;
use vstd::utf8::{decode_utf8, encode_utf8, is_char_boundary, is_continuation_byte, valid_utf8};
use crate::attributes::{lookup, Attributes};
use super::plugins::{meta_after, pairs_view};
use super::selector::{selector_matches, Selector};
use super::render::{embeds, escaped_visible, exit_markup, last_visible, visible_bytes};
use crate::chars::{spec_is_ascii_alnum, spec_is_ascii_digit, spec_is_ascii_hexdigit, spec_is_ascii_alpha, is_ascii_alpha, is_ascii_alnum, is_ascii_digit, is_ascii_hexdigit, is_whitespace, spec_is_whitespace, same_ignoring_case, lower_seq, spec_to_lower, to_ascii_lowercase, to_lower};
use crate::entities::{decode_html_entities, max_entity_name_length, MAX_ENTITY_NAME_LENGTH};
use crate::scan::{process_bogus_comment, process_comment_or_doctype, process_tag_attributes, tag_close};
use crate::tags::{
    tag_id_of, get_tag_id_ci_bytes, tag_name, tag_name_spec, MAX_TAG_ID, TAG_A, TAG_CAPTION, TAG_DD, TAG_DT, TAG_FOOTER, TAG_H1, TAG_H2,
    TAG_H3, TAG_H4, TAG_H5, TAG_H6, TAG_HEAD, TAG_HEADER, TAG_LI, TAG_MAIN, TAG_OPTGROUP, TAG_OPTION, TAG_P,
    TAG_SCRIPT, TAG_SELECT, TAG_SVG, TAG_TABLE, TAG_TBODY, TAG_TD, TAG_TEMPLATE, TAG_TFOOT, TAG_TH, TAG_THEAD,
    TAG_TITLE, TAG_TR, TAG_META, TAG_BR,
};
use crate::text::{bytes_eq, copy_range};
use crate::types::{HTMLToMarkdownOptions, StreamingError, TagOverrideConfig};
use super::{grows_from, ConvertState, Pen, PluginState, ScanFlags, MAX_ELEMENT_DEPTH, TEXT_LOOKBEHIND};
use super::handlers::{
    closes_p, excludes_text, is_a_scope_boundary, is_cell_scope_boundary, is_dl_scope_boundary, is_head_content,
    is_li_scope_boundary, is_non_nesting, is_p_scope_boundary, is_void, needs_attributes, render_of,
    suppresses_subtree, text_mode_for,
};
use super::node::{ElementNode, OverflowState, Render, TextMode, TokenizerContext};
use super::handlers::{spec_is_void, is_inline_gfm_hazard, is_inline_tag, spec_text_mode_for, spec_is_inline_tag, spec_excludes_text, spec_is_non_nesting, spec_is_inline_gfm_hazard, spec_is_a_scope_boundary, spec_is_cell_scope_boundary, spec_is_dl_scope_boundary, spec_is_li_scope_boundary, spec_is_p_scope_boundary, spec_render_of};
use super::script::{find_script_end_tag, ScriptBoundary, SCRIPT_DATA};

verus! {

/// Outcome of scanning a start tag.
pub struct OpeningTagResult {
    pub complete: bool,
    pub new_position: usize,
    pub self_closing: bool,
    pub skip: bool,
}

/// Outcome of scanning an end tag.
pub struct CloseTagResult {
    pub complete: bool,
    pub new_position: usize,
}

/// What a step of the tokenizer loop asks for next.
pub enum Step {
    /// Continue at this index.
    Next(usize),
    /// Stop and carry the input from this index into the next chunk; the
    /// text before it has been processed.
    Carry(usize),
    /// Stop and carry the input from the start of the current text run,
    /// which is left unprocessed.
    CarryRun,
}

/// Where script data stops in a chunk.
pub enum ScriptChunk {
    /// Its end tag starts here.
    Closed(usize),
    /// Carry the chunk from here.
    Carry(usize),
}

/// Which end tags an implied close looks for, and where it gives up.
#[derive(Clone, Copy, PartialEq, Eq, Structural)]
pub enum Implied {
    Paragraph,
    ListItem,
    Definition,
    Cell,
    Anchor,
}

pub open spec fn implied_target(kind: Implied, id: u8) -> bool {
    match kind {
        Implied::Paragraph => id == TAG_P,
        Implied::ListItem => id == TAG_LI,
        Implied::Definition => id == TAG_DT || id == TAG_DD,
        Implied::Cell => id == TAG_TD || id == TAG_TH,
        Implied::Anchor => id == TAG_A,
    }
}

/// The index of the open element that closes implicitly for `kind`,
/// searching `stack` down from below position `j`: the first target of
/// `kind`, or -1 when a boundary of `kind` or the bottom comes first.
pub open spec fn implied_index(stack: Seq<ElementNode>, kind: Implied, j: int) -> int
    decreases j,
{
    if j <= 0 || j > stack.len() {
        -1
    } else {
        match stack[j - 1].tag_id {
            Some(id) => if implied_target(kind, id) {
                j - 1
            } else if implied_boundary(kind, id) {
                -1
            } else {
                implied_index(stack, kind, j - 1)
            },
            None => implied_index(stack, kind, j - 1),
        }
    }
}

/// Where the `>` that ends an end tag lies, scanning from `i`: `named` is
/// whether the tag name has ended (at whitespace, `/` or `>`), after which
/// quotes enclose values in which `>` does not count; -1 when there is none.
pub open spec fn end_tag_gt(b: Seq<u8>, i: int, named: bool, quote: u8) -> int
    decreases b.len() - i,
{
    if i < 0 || i >= b.len() {
        -1
    } else {
        let c = b[i];
        let nm = named || spec_is_whitespace(c) || c == 47 || c == 62;
        if quote != 0 {
            end_tag_gt(b, i + 1, nm, if c == quote { 0u8 } else { quote })
        } else if nm && (c == 34 || c == 39) {
            end_tag_gt(b, i + 1, nm, c)
        } else if c == 62 {
            i
        } else {
            end_tag_gt(b, i + 1, nm, 0)
        }
    }
}

/// Where the name of an end tag starting at `i` ends: at the first
/// whitespace, `/` or `>`, or at the end of the bytes.
pub open spec fn end_tag_name_end(b: Seq<u8>, i: int) -> int
    decreases b.len() - i,
{
    if i < 0 || i >= b.len() {
        b.len() as int
    } else if spec_is_whitespace(b[i]) || b[i] == 47 || b[i] == 62 {
        i
    } else {
        end_tag_name_end(b, i + 1)
    }
}

/// No byte of `b` starts a tag or a character reference.
pub open spec fn plain_bytes(b: Seq<u8>) -> bool {
    forall|j: int| 0 <= j < b.len() ==> b[j] != 60 && b[j] != 38
}

/// No byte of `b` from `i` on ends a tag name (whitespace, `/`, `>`).
pub open spec fn name_runs_to_end(b: Seq<u8>, i: int) -> bool {
    forall|j: int| i <= j < b.len() ==> !(spec_is_whitespace(b[j]) || b[j] == 47 || b[j] == 62)
}

/// `b` is `<` and a tag name reaching its end: a start tag cut short.
pub open spec fn unfinished_start_tag(b: Seq<u8>) -> bool {
    &&& b.len() >= 2
    &&& b[0] == 60
    &&& spec_is_ascii_alpha(b[1])
    &&& name_runs_to_end(b, 1)
}

/// The collected `text` ends, as far as visible bytes go, as `b[..i]` does:
/// both have a last visible byte, and it is the same, or neither has one.
pub open spec fn same_last_visible(text: Seq<u8>, b: Seq<u8>, i: int) -> bool {
    &&& (last_visible(b, i) < 0 ==> last_visible(text, text.len() as int) < 0)
    &&& (last_visible(b, i) >= 0 ==> last_visible(text, text.len() as int) >= 0
        && text[last_visible(text, text.len() as int)] == b[last_visible(b, i)])
}

/// The last visible byte before `m` lies before `m`, and is visible.
pub proof fn lemma_last_visible_bounds(t: Seq<u8>, m: int)
    ensures
        -1 <= last_visible(t, m),
        last_visible(t, m) >= 0 ==> last_visible(t, m) < m,
        last_visible(t, m) < t.len(),
        last_visible(t, m) >= 0 ==> !spec_is_whitespace(t[last_visible(t, m)]),
    decreases m,
{
    if m > 0 && m <= t.len() && spec_is_whitespace(t[m - 1]) {
        lemma_last_visible_bounds(t, m - 1);
    }
}

/// Extending a sequence does not change the last visible byte before a
/// position inside the original.
pub proof fn lemma_last_visible_prefix(t: Seq<u8>, u: Seq<u8>, m: int)
    requires
        t.len() <= u.len(),
        u.subrange(0, t.len() as int) == t,
        m <= t.len(),
    ensures
        last_visible(u, m) == last_visible(t, m),
    decreases m,
{
    if m > 0 {
        assert(u[m - 1] == u.subrange(0, t.len() as int)[m - 1]);
        lemma_last_visible_prefix(t, u, m - 1);
    }
}

/// Appending one byte to the collected text keeps `same_last_visible` as the
/// input advances over one byte: a visible byte is appended as it is, and
/// whitespace adds at most whitespace.
pub proof fn lemma_same_last_visible_step(text: Seq<u8>, text2: Seq<u8>, b: Seq<u8>, i: int)
    requires
        0 <= i < b.len(),
        same_last_visible(text, b, i),
        !spec_is_whitespace(b[i]) ==> text2 == text.push(b[i]),
        spec_is_whitespace(b[i]) ==> text2 == text || (text2.len() == text.len() + 1 && text2.drop_last() == text
            && spec_is_whitespace(text2.last())),
    ensures
        same_last_visible(text2, b, i + 1),
{
    if text2.len() == text.len() + 1 {
        assert(text2.subrange(0, text.len() as int) =~= text);
        lemma_last_visible_prefix(text, text2, text.len() as int);
        lemma_last_visible_bounds(text, text.len() as int);
        if last_visible(text, text.len() as int) >= 0 {
            assert(text2[last_visible(text, text.len() as int)] == text2.subrange(0, text.len() as int)[last_visible(text, text.len() as int)]);
        }
    }
}

/// Whether the open element `node` is what an end tag named `name`
/// (lower-case) with the given ids closes.
pub open spec fn node_closes(node: ElementNode, name: Seq<u8>, tag_id: Option<u8>, builtin: Option<u8>) -> bool {
    node.tag_id == tag_id && match node.custom_name {
        Some(c) => c@ == name,
        None => builtin is Some,
    }
}

/// Where an end tag finds the element it closes among `stack[..j]`: the
/// innermost one it closes, unless a `template` (for any other end tag)
/// stands above it; -1 when there is none.
pub open spec fn close_match_index(stack: Seq<ElementNode>, name: Seq<u8>, tag_id: Option<u8>, builtin: Option<u8>, j: int) -> int
    decreases j,
{
    if j <= 0 || j > stack.len() {
        -1
    } else if tag_id != Some(TAG_TEMPLATE) && stack[j - 1].tag_id == Some(TAG_TEMPLATE) {
        -1
    } else if node_closes(stack[j - 1], name, tag_id, builtin) {
        j - 1
    } else {
        close_match_index(stack, name, tag_id, builtin, j - 1)
    }
}

/// How many open elements of `stack` below position `j` stay when the
/// table context closes: cells and rows (and, with `sections`, sections and
/// captions) close from the top down.
pub open spec fn table_kept(stack: Seq<ElementNode>, sections: bool, j: int) -> int
    decreases j,
{
    if j <= 0 || j > stack.len() {
        if j > stack.len() { stack.len() as int } else { 0 }
    } else {
        let closeable = match stack[j - 1].tag_id {
            Some(t) => t == TAG_TD || t == TAG_TH || t == TAG_TR
                || (sections && (t == TAG_THEAD || t == TAG_TBODY || t == TAG_TFOOT || t == TAG_CAPTION)),
            None => false,
        };
        if closeable { table_kept(stack, sections, j - 1) } else { j }
    }
}

/// The index of the nearest open `target` element below position `j` of
/// `stack`, or -1 when a `select` (for another target) or a `template`
/// comes first, or none is open.
pub open spec fn select_index(stack: Seq<ElementNode>, target: u8, j: int) -> int
    decreases j,
{
    if j <= 0 || j > stack.len() {
        -1
    } else {
        match stack[j - 1].tag_id {
            Some(id) => if id == target {
                j - 1
            } else if (id == TAG_SELECT && target != TAG_SELECT) || id == TAG_TEMPLATE {
                -1
            } else {
                select_index(stack, target, j - 1)
            },
            None => select_index(stack, target, j - 1),
        }
    }
}

/// How many open elements of `stack` below position `j` stay when an open
/// `head` closes: everything down to the topmost `head`, that included, or
/// all when none is open.
pub open spec fn head_kept(stack: Seq<ElementNode>, j: int) -> int
    decreases j,
{
    if j <= 0 || j > stack.len() {
        0
    } else if stack[j - 1].tag_id == Some(TAG_HEAD) {
        j - 1
    } else {
        head_kept(stack, j - 1)
    }
}

fn is_implied_target(kind: Implied, id: u8) -> (r: bool)
    ensures
        r == implied_target(kind, id),
{
    match kind {
        Implied::Paragraph => id == TAG_P,
        Implied::ListItem => id == TAG_LI,
        Implied::Definition => id == TAG_DT || id == TAG_DD,
        Implied::Cell => id == TAG_TD || id == TAG_TH,
        Implied::Anchor => id == TAG_A,
    }
}

pub open spec fn implied_boundary(kind: Implied, id: u8) -> bool {
    match kind {
        Implied::Paragraph => spec_is_p_scope_boundary(id),
        Implied::ListItem => spec_is_li_scope_boundary(id),
        Implied::Definition => spec_is_dl_scope_boundary(id),
        Implied::Cell => spec_is_cell_scope_boundary(id),
        Implied::Anchor => spec_is_a_scope_boundary(id),
    }
}

fn is_implied_boundary(kind: Implied, id: u8) -> (r: bool)
    ensures
        r == implied_boundary(kind, id),
{
    match kind {
        Implied::Paragraph => is_p_scope_boundary(id),
        Implied::ListItem => is_li_scope_boundary(id),
        Implied::Definition => is_dl_scope_boundary(id),
        Implied::Cell => is_cell_scope_boundary(id),
        Implied::Anchor => is_a_scope_boundary(id),
    }
}

/// Whether `name` equals `want` ignoring ASCII case.
fn eq_ignore_case(name: &[u8], want: &[u8]) -> (r: bool)
    ensures
        r == same_ignoring_case(name@, want@),
{
    if name.len() != want.len() {
        return false;
    }
    let mut k: usize = 0;
    while k < name.len()
        invariant
            k <= name@.len() == want@.len(),
            forall|j: int| 0 <= j < k ==> #[trigger] spec_to_lower(name@[j]) == spec_to_lower(want@[j]),
        decreases name@.len() - k,
    {
        if to_lower(name[k]) != to_lower(want[k]) {
            return false;
        }
        k = k + 1;
    }
    true
}

/// Whether `needle` occurs in `hay`.
pub open spec fn occurs_at(hay: Seq<u8>, needle: Seq<u8>, start: int) -> bool {
    0 <= start && start + needle.len() <= hay.len() && hay.subrange(start, start + needle.len()) == needle
}

/// Whether `needle` occurs somewhere in `hay`.
pub open spec fn contains_seq(hay: Seq<u8>, needle: Seq<u8>) -> bool {
    exists|start: int| occurs_at(hay, needle, start)
}

/// Whether a `style` value hides its element: `display:none`,
/// `visibility:hidden`, or absolute or fixed positioning, with or without a
/// space after the colon.
pub open spec fn hiding_style(v: Seq<u8>) -> bool {
    contains_seq(v, seq![100u8, 105, 115, 112, 108, 97, 121, 58, 110, 111, 110, 101])
        || contains_seq(v, seq![100u8, 105, 115, 112, 108, 97, 121, 58, 32, 110, 111, 110, 101])
        || contains_seq(v, seq![118u8, 105, 115, 105, 98, 105, 108, 105, 116, 121, 58, 104, 105, 100, 100, 101, 110])
        || contains_seq(v, seq![118u8, 105, 115, 105, 98, 105, 108, 105, 116, 121, 58, 32, 104, 105, 100, 100, 101, 110])
        || contains_seq(v, seq![112u8, 111, 115, 105, 116, 105, 111, 110, 58, 97, 98, 115, 111, 108, 117, 116, 101])
        || contains_seq(v, seq![112u8, 111, 115, 105, 116, 105, 111, 110, 58, 32, 97, 98, 115, 111, 108, 117, 116, 101])
        || contains_seq(v, seq![112u8, 111, 115, 105, 116, 105, 111, 110, 58, 102, 105, 120, 101, 100])
        || contains_seq(v, seq![112u8, 111, 115, 105, 116, 105, 111, 110, 58, 32, 102, 105, 120, 101, 100])
}

/// Whether attributes hide an element: a hiding `style`, or `hidden` with
/// any value but `until-found`.
pub open spec fn hidden_by(entries: Seq<(Seq<u8>, Seq<u8>)>) -> bool {
    (lookup(entries, seq![115u8, 116, 121, 108, 101]) matches Some(v) && hiding_style(v))
        || (lookup(entries, seq![104u8, 105, 100, 100, 101, 110]) matches Some(h)
            && !same_ignoring_case(h, seq![117u8, 110, 116, 105, 108, 45, 102, 111, 117, 110, 100]))
}

fn contains_bytes(hay: &[u8], needle: &[u8]) -> (r: bool)
    ensures
        r == contains_seq(hay@, needle@),
{
    if needle.len() > hay.len() {
        return false;
    }
    let last = hay.len() - needle.len();
    let mut start: usize = 0;
    while start <= last
        invariant
            last + needle@.len() == hay@.len(),
            forall|j: int| 0 <= j < start ==> !occurs_at(hay@, needle@, j),
        decreases last + 1 - start,
    {
        let mut k: usize = 0;
        let mut same = true;
        while k < needle.len() && same
            invariant
                k <= needle@.len(),
                start <= last,
                last + needle.len() == hay.len(),
                same ==> forall|j: int| 0 <= j < k ==> hay@[start + j] == needle@[j],
                !same ==> !occurs_at(hay@, needle@, start as int),
            decreases needle@.len() - k, (if same { 1int } else { 0int }),
        {
            let pos = start + k;
            if hay[pos] != needle[k] {
                same = false;
                assert(hay@.subrange(start as int, start + needle@.len())[k as int] != needle@[k as int]);
            } else {
                k = k + 1;
            }
        }
        if same {
            assert(hay@.subrange(start as int, start + needle@.len()) =~= needle@);
            assert(occurs_at(hay@, needle@, start as int));
            return true;
        }
        if start == last {
            assert forall|j: int| !occurs_at(hay@, needle@, j) by {
                if 0 <= j && j + needle@.len() <= hay@.len() {
                    assert(j <= last);
                }
            }
            return false;
        }
        start = start + 1;
    }
    false
}

/// Whether `name` starts with `prefix`.
fn starts_with_bytes(name: &[u8], prefix: &[u8]) -> (r: bool)
    ensures
        r ==> prefix@.len() <= name@.len(),
        r == occurs_at(name@, prefix@, 0),
{
    if prefix.len() > name.len() {
        return false;
    }
    let mut k: usize = 0;
    while k < prefix.len()
        invariant
            k <= prefix@.len() <= name@.len(),
            forall|j: int| 0 <= j < k ==> name@[j] == prefix@[j],
        decreases prefix@.len() - k,
    {
        if name[k] != prefix[k] {
            assert(name@.subrange(0, prefix@.len() as int)[k as int] != prefix@[k as int]);
            return false;
        }
        k = k + 1;
    }
    assert(name@.subrange(0, prefix@.len() as int) =~= prefix@);
    true
}

/// Whether an entity reference at `i` (an `&`) may still grow with the next
/// chunk: it runs to the end of the bytes without being decided.
/// Digits of a numeric reference from `index` to the end, or a `;` that
/// ends the bytes.
pub open spec fn numeric_open(b: Seq<u8>, index: int, hex: bool) -> bool
    decreases b.len() - index,
{
    if index < 0 || index >= b.len() {
        true
    } else if spec_is_ascii_digit(b[index]) || (hex && spec_is_ascii_hexdigit(b[index])) {
        numeric_open(b, index + 1, hex)
    } else {
        b[index] == 59 && index + 1 == b.len()
    }
}

/// A name of at most the longest entity name from `index` to the end, or
/// followed by a `;` that ends the bytes; `i` is where the `&` stands.
pub open spec fn named_open(b: Seq<u8>, index: int, i: int) -> bool
    decreases b.len() - index,
{
    if 0 <= index < b.len() && spec_is_ascii_alnum(b[index]) {
        if index + 1 - i - 1 > MAX_ENTITY_NAME_LENGTH {
            false
        } else {
            named_open(b, index + 1, i)
        }
    } else {
        index == b.len() || (0 <= index < b.len() && b[index] == 59 && index + 1 == b.len())
    }
}

/// Whether the reference that starts at `i` runs to the end undecided.
pub open spec fn entity_open(b: Seq<u8>, i: int) -> bool {
    if b.len() - i == 1 {
        true
    } else if b[i + 1] == 35 {
        let hex = i + 2 < b.len() && (b[i + 2] == 120 || b[i + 2] == 88);
        numeric_open(b, if hex { i + 3 } else { i + 2 }, hex)
    } else {
        named_open(b, i + 1, i)
    }
}

pub fn incomplete_entity_at_end(bytes: &[u8], i: usize) -> (r: bool)
    requires
        i < bytes@.len(),
    ensures
        r == entity_open(bytes@, i as int),
{
    let n = bytes.len();
    if n - i == 1 {
        return true;
    }
    if bytes[i + 1] == 35 {
        let mut index = i + 2;
        let hex = index < n && (bytes[index] == 120 || bytes[index] == 88);
        if hex {
            index = index + 1;
        }
        while index < n
            invariant
                i + 2 <= index <= n == bytes@.len(),
                entity_open(bytes@, i as int) == numeric_open(bytes@, index as int, hex),
            decreases n - index,
        {
            let b = bytes[index];
            if is_ascii_digit(b) || (hex && is_ascii_hexdigit(b)) {
                index = index + 1;
            } else {
                return b == 59 && index + 1 == n;
            }
        }
        return true;
    }
    let mut index = i + 1;
    while index < n && is_ascii_alnum(bytes[index])
        invariant
            i + 1 <= index <= n == bytes@.len(),
            entity_open(bytes@, i as int) == named_open(bytes@, index as int, i as int),
        decreases n - index,
    {
        index = index + 1;
        if index - i - 1 > max_entity_name_length() {
            return false;
        }
    }
    index == n || (bytes[index] == 59 && index + 1 == n)
}

impl ConvertState {
    /// The text mode of the innermost open element.
    pub fn text_mode(&self) -> (r: TextMode)
        ensures
            r == (if self.tokenizer_contexts@.len() == 0 { TextMode::Data }
                else { self.tokenizer_contexts@.last().text_mode }),
    {
        let n = self.tokenizer_contexts.len();
        if n == 0 {
            TextMode::Data
        } else {
            self.tokenizer_contexts[n - 1].text_mode
        }
    }

    pub fn in_supported_svg_content(&self) -> (r: bool)
        ensures
            r == (self.tokenizer_contexts@.len() > 0 && self.tokenizer_contexts@.last().in_supported_svg),
    {
        let n = self.tokenizer_contexts.len();
        n > 0 && self.tokenizer_contexts[n - 1].in_supported_svg
    }

    pub fn is_supported_svg_integration_point(&self) -> (r: bool)
        ensures
            r == (self.tokenizer_contexts@.len() > 0 && self.tokenizer_contexts@.last().svg_integration_point),
    {
        let n = self.tokenizer_contexts.len();
        n > 0 && self.tokenizer_contexts[n - 1].svg_integration_point
    }

    fn depth_at(&self, id: u8) -> (r: u16)
        requires
            self.wf(),
        ensures
            r == (if (id as int) < self.depth_map@.len() { self.depth_map@[id as int] } else { 0 }),
    {
        if (id as usize) < self.depth_map.len() {
            self.depth_map[id as usize]
        } else {
            0
        }
    }

    fn bump_depth(&mut self, id: u8, up: bool)
        requires
            old(self).wf(),
        ensures
            final(self).wf(),
            final(self).stack@ == old(self).stack@,
            final(self).written() == old(self).written(),
            final(self).handed_out() == old(self).handed_out(),
            final(self).config == old(self).config,
            final(self).streaming_error == old(self).streaming_error,
            final(self).scan == old(self).scan,
            final(self).plugins == old(self).plugins,
            final(self).lines == old(self).lines,
            final(self).depth_map@ == (if (id as int) < old(self).depth_map@.len() {
                old(self).depth_map@.update(id as int, (if up {
                    if old(self).depth_map@[id as int] == u16::MAX { u16::MAX } else { (old(self).depth_map@[id as int] + 1) as u16 }
                } else {
                    if old(self).depth_map@[id as int] == 0 { 0 } else { (old(self).depth_map@[id as int] - 1) as u16 }
                }))
            } else {
                old(self).depth_map@
            }),
    {
        let k = id as usize;
        if k < self.depth_map.len() {
            let v = self.depth_map[k];
            self.depth_map[k] = if up { v.saturating_add(1) } else { v.saturating_sub(1) };
        }
    }

    /// In a bounded conversion, records `BufferLimitExceeded` once the charged
    /// capacity is over the ceiling; true when the conversion may go on.
    pub fn check_ceiling(&mut self) -> (r: bool)
        requires
            old(self).wf(),
        ensures
            final(self).wf(),
            final(self).keeps_parse(old(self)),
            final(self).written() == old(self).written(),
            r ==> final(self).streaming_error == old(self).streaming_error,
            old(self).config.streaming_limit is None ==> r == (old(self).streaming_error is None)
                && final(self).streaming_error == old(self).streaming_error,
            old(self).streaming_error is Some ==> !r && final(self).streaming_error == old(self).streaming_error,
            !r ==> final(self).streaming_error is Some,
    {
        if self.streaming_error.is_some() {
            return false;
        }
        match self.config.streaming_limit {
            Some(limit) => {
                if self.retained_buffer_capacity() > limit {
                    self.fail_streaming(StreamingError::BufferLimitExceeded);
                    false
                } else {
                    true
                }
            },
            None => true,
        }
    }

    /// The override configured for the element `name`, if any.
    pub fn find_override(&self, name: &[u8]) -> (r: Option<TagOverrideConfig>)
        ensures
            r == first_override(overrides_of(self.options), name@, 0),
    {
        match &self.options.plugins {
            Some(p) => match &p.tag_overrides {
                Some(ovs) => {
                    let mut k: usize = 0;
                    while k < ovs.len()
                        invariant
                            k <= ovs@.len(),
                            overrides_of(self.options) == ovs@,
                            first_override(ovs@, name@, 0) == first_override(ovs@, name@, k as int),
                        decreases ovs@.len() - k,
                    {
                        if bytes_eq(ovs[k].0.as_str().as_bytes(), name) {
                            return Some(copy_override(&ovs[k].1));
                        }
                        k = k + 1;
                    }
                    None
                },
                None => None,
            },
            None => None,
        }
    }

    /// The alias id of the override for `name`, when in range.
    fn alias_of(&self, name: &[u8]) -> (r: Option<u8>)
        ensures
            r matches Some(id) ==> (id as int) < MAX_TAG_ID,
            r == (match first_override(overrides_of(self.options), name@, 0) {
                Some(c) => match c.alias_tag_id {
                    Some(id) => if (id as int) < MAX_TAG_ID { Some(id) } else { None },
                    None => None,
                },
                None => None,
            }),
    {
        match self.find_override(name) {
            Some(c) => match c.alias_tag_id {
                Some(id) => if (id as usize) < MAX_TAG_ID { Some(id) } else { None },
                None => None,
            },
            None => None,
        }
    }

    /// Pushes an element with its tokenizer context.
    fn push_element(&mut self, node: ElementNode, ctx: TokenizerContext)
        requires
            old(self).wf(),
            old(self).stack@.len() < MAX_ELEMENT_DEPTH + 1,
        ensures
            final(self).wf(),
            final(self).streaming_error is None ==> final(self).stack@.len() == old(self).stack@.len() + 1,
            0 < final(self).stack@.len() <= old(self).stack@.len() + 1,
            final(self).stack@.last() == node,
            old(self).config.streaming_limit is None ==> final(self).stack@ == old(self).stack@.push(node),
            final(self).written() == old(self).written(),
            final(self).handed_out() == old(self).handed_out(),
            final(self).config == old(self).config,
            old(self).streaming_error is Some ==> final(self).streaming_error == old(self).streaming_error,
            old(self).config.streaming_limit is None ==> final(self).streaming_error == old(self).streaming_error,
    {
        match self.config.streaming_limit {
            Some(limit) => {
                if self.streaming_error.is_none() {
                    match self.reserve_element_slot(limit, &node) {
                        Ok(()) => {},
                        Err(e) => {
                            self.fail_streaming(e);
                        },
                    }
                }
            },
            None => {},
        }
        self.stack.push(node);
        self.tokenizer_contexts.push(ctx);
    }

    /// Pops the innermost element with its tokenizer context.
    fn pop_element(&mut self) -> (r: Option<ElementNode>)
        requires
            old(self).wf(),
        ensures
            final(self).wf(),
            old(self).stack@.len() > 0 ==> r == Some(old(self).stack@.last()) && final(self).stack@ == old(self).stack@.drop_last(),
            old(self).stack@.len() == 0 ==> r is None && final(self).stack@ == old(self).stack@,
            final(self).written() == old(self).written(),
            final(self).lines == old(self).lines,
            final(self).scan == old(self).scan,
            final(self).depth_map@ == old(self).depth_map@,
            final(self).handed_out() == old(self).handed_out(),
            final(self).config == old(self).config,
            final(self).streaming_error == old(self).streaming_error,
    {
        let node = self.stack.pop();
        self.tokenizer_contexts.pop();
        node
    }

    /// The tokenizer context for a new element.
    fn context_for(&self, name: &[u8], tag_id: Option<u8>) -> (r: TokenizerContext)
        ensures
            ({
                let parent_in_svg = self.tokenizer_contexts@.len() > 0 && self.tokenizer_contexts@.last().in_supported_svg;
                let integration = parent_in_svg && (same_ignoring_case(name@, seq![102u8, 111, 114, 101, 105, 103, 110, 111, 98, 106, 101, 99, 116])
                    || same_ignoring_case(name@, seq![100u8, 101, 115, 99]) || same_ignoring_case(name@, seq![116u8, 105, 116, 108, 101]));
                r == (TokenizerContext {
                    text_mode: spec_text_mode_for(tag_id, integration),
                    in_supported_svg: tag_id == Some(TAG_SVG) || (parent_in_svg && !integration),
                    svg_integration_point: integration,
                })
            }),
    {
        let parent_in_svg = self.in_supported_svg_content();
        let foreign: [u8; 13] = [102, 111, 114, 101, 105, 103, 110, 111, 98, 106, 101, 99, 116];
        let desc: [u8; 4] = [100, 101, 115, 99];
        let title: [u8; 5] = [116, 105, 116, 108, 101];
        assert(foreign@ =~= seq![102u8, 111, 114, 101, 105, 103, 110, 111, 98, 106, 101, 99, 116]);
        assert(desc@ =~= seq![100u8, 101, 115, 99]);
        assert(title@ =~= seq![116u8, 105, 116, 108, 101]);
        let integration = parent_in_svg
            && (eq_ignore_case(name, &foreign) || eq_ignore_case(name, &desc) || eq_ignore_case(name, &title));
        let in_svg = tag_id == Some(TAG_SVG) || (parent_in_svg && !integration);
        TokenizerContext {
            text_mode: text_mode_for(tag_id, integration),
            in_supported_svg: in_svg,
            svg_integration_point: integration,
        }
    }

    /// Emits the text collected since the last tag: decodes character
    /// references when one was seen, feeds plugins, and renders it.
    pub fn process_text_buffer(&mut self, text: &Vec<u8>)
        requires
            old(self).wf(),
        ensures
            final(self).wf(),
            final(self).stack@.len() == old(self).stack@.len(),
            final(self).config == old(self).config,
            final(self).handed_out() == old(self).handed_out(),
            grows_from(old(self).written(), final(self).written()),
            old(self).config.streaming_limit is None ==> final(self).releases_as(old(self)),
            text@.len() == 0 ==> final(self).written() == old(self).written() && final(self).scan == (ScanFlags {
                text_buffer_contains_non_whitespace: false,
                text_buffer_contains_whitespace: false,
                has_encoded_html_entity: false,
                ..old(self).scan
            }),
            ({
                let o = old(self);
                let title = o.config.has_frontmatter && o.plugins.frontmatter_in_head && o.stack@.len() > 0
                    && o.stack@.last().tag_id == Some(TAG_TITLE);
                let isolated = o.config.has_isolate_main && if o.plugins.isolate_main_found {
                    o.plugins.isolate_main_closed
                } else if o.plugins.isolate_first_header_depth is None {
                    o.depth_map@[TAG_HEAD as int] == 0
                } else {
                    o.plugins.isolate_after_footer
                };
                o.config.streaming_limit is None && !o.scan.has_encoded_html_entity && !title && !isolated
                    && o.scan.excluded_depth == 0 && o.depth_map@[crate::tags::TAG_PRE as int] == 0
                    && last_visible(text@, text@.len() as int) >= 0
                    ==> final(self).written().len() > 0 && final(self).written().last() == text@[last_visible(text@, text@.len() as int)]
            }),
            ({
                let o = old(self);
                let title = o.config.has_frontmatter && o.plugins.frontmatter_in_head && o.stack@.len() > 0
                    && o.stack@.last().tag_id == Some(TAG_TITLE);
                let isolated = o.config.has_isolate_main && if o.plugins.isolate_main_found {
                    o.plugins.isolate_main_closed
                } else if o.plugins.isolate_first_header_depth is None {
                    o.depth_map@[TAG_HEAD as int] == 0
                } else {
                    o.plugins.isolate_after_footer
                };
                o.config.streaming_limit is None && !o.scan.has_encoded_html_entity && !title && !isolated
                    && o.scan.excluded_depth == 0 && o.depth_map@[crate::tags::TAG_PRE as int] == 0
                    ==> embeds(visible_bytes(text@), final(self).written().subrange(o.written().len() as int, final(self).written().len() as int))
                        && (o.config.plain_text ==> visible_bytes(final(self).written().subrange(o.written().len() as int,
                            final(self).written().len() as int)) == visible_bytes(text@))
                        && (!o.config.plain_text && o.pen.code_depth == 0 ==> embeds(escaped_visible(text@),
                            final(self).written().subrange(o.written().len() as int, final(self).written().len() as int)))
            }),
    {
        let mut flags = self.scan;
        let decode = flags.has_encoded_html_entity;
        flags.text_buffer_contains_non_whitespace = false;
        flags.text_buffer_contains_whitespace = false;
        flags.has_encoded_html_entity = false;
        self.scan = flags;
        if text.len() == 0 {
            return;
        }
        let decoded = if decode { decode_html_entities(text.as_slice(), false) } else { text.clone() };
        if self.config.has_frontmatter && self.plugins.frontmatter_in_head {
            let n = self.stack.len();
            if n > 0 && self.stack[n - 1].tag_id == Some(TAG_TITLE) {
                self.capture_frontmatter_title(decoded.as_slice());
                return;
            }
        }
        if self.plugins.extraction_tracked.len() > 0 {
            self.track_extraction_text(decoded.as_slice());
        }
        if self.isolate_excludes_text() {
            return;
        }
        self.emit_text(decoded.as_slice());
    }

    /// Whether main isolation drops text at this point.
    fn isolate_excludes_text(&self) -> (r: bool)
        requires
            self.wf(),
        ensures
            r == (self.config.has_isolate_main && if self.plugins.isolate_main_found {
                self.plugins.isolate_main_closed
            } else if self.plugins.isolate_first_header_depth is None {
                self.depth_map@[TAG_HEAD as int] == 0
            } else {
                self.plugins.isolate_after_footer
            }),
    {
        if !self.config.has_isolate_main {
            return false;
        }
        if self.plugins.isolate_main_found {
            self.plugins.isolate_main_closed
        } else if self.plugins.isolate_first_header_depth.is_none() {
            self.depth_at(TAG_HEAD) == 0
        } else {
            self.plugins.isolate_after_footer
        }
    }

    /// Closes the innermost open element: finishes extractions that end
    /// with it, renders its end, and restores the parser flags.
    pub fn close_node(&mut self)
        requires
            old(self).wf(),
        ensures
            final(self).wf(),
            old(self).stack@.len() > 0 ==> final(self).stack@ == old(self).stack@.drop_last(),
            old(self).stack@.len() == 0 ==> final(self).stack@ == old(self).stack@,
            final(self).config == old(self).config,
            final(self).handed_out() == old(self).handed_out(),
            old(self).stack@.len() > 0 && old(self).config.streaming_limit is None && !old(self).stack@.last().excluded_from_markdown
                && old(self).scan.excluded_depth == 0
                && !(old(self).config.has_frontmatter && old(self).stack@.last().tag_id == Some(TAG_HEAD)) ==>
                (exit_markup(old(self).stack@.last(), !(old(self).lines.pending_opens@.len() > 0
                    && old(self).lines.pending_opens@.last().0 == old(self).stack@.len() - 1),
                    old(self).config.plain_text, final(self).depth_map@[crate::tags::TAG_PRE as int] > 0, old(self).lines.line_prefix@)
                    matches Some(m) ==> final(self).written() == old(self).written() + m),
            grows_from(old(self).written(), final(self).written()),
            old(self).stack@.len() > 0 ==> final(self).depth_map@ == (match old(self).stack@.last().tag_id {
                Some(id) => if (id as int) < old(self).depth_map@.len() {
                    old(self).depth_map@.update(id as int,
                        if old(self).depth_map@[id as int] == 0 { 0 } else { (old(self).depth_map@[id as int] - 1) as u16 })
                } else {
                    old(self).depth_map@
                },
                None => old(self).depth_map@,
            }),
    {
        if self.stack.len() == 0 {
            return;
        }
        if self.plugins.extraction_tracked.len() > 0 {
            self.finish_extractions();
        }
        let idx = self.stack.len() - 1;
        let node = match self.pop_element() {
            Some(n) => n,
            None => {
                return;
            },
        };
        self.note_closed(&node, idx);
        if self.config.has_frontmatter && node.tag_id == Some(TAG_HEAD) && self.plugins.frontmatter_in_head {
            self.plugins.frontmatter_in_head = false;
            self.generate_frontmatter_yaml();
        }
        self.emit_exit_element(&node, idx);
        let n = self.stack.len();
        let non_nesting = n > 0 && self.stack[n - 1].is_non_nesting && !self.is_supported_svg_integration_point();
        let mut flags = self.scan;
        flags.in_non_nesting = non_nesting;
        flags.has_encoded_html_entity = false;
        flags.just_closed_tag = true;
        self.scan = flags;
    }

    /// Parser bookkeeping for an element just popped from index `idx`.
    fn note_closed(&mut self, node: &ElementNode, idx: usize)
        requires
            old(self).wf(),
        ensures
            final(self).wf(),
            final(self).stack@ == old(self).stack@,
            final(self).config == old(self).config,
            final(self).handed_out() == old(self).handed_out(),
            final(self).written() == old(self).written(),
            final(self).lines == old(self).lines,
            final(self).scan == (ScanFlags {
                hidden_since_depth: if old(self).scan.hidden_since_depth == Some(idx) { None } else { old(self).scan.hidden_since_depth },
                excluded_depth: if node.excluded_from_markdown && old(self).scan.excluded_depth > 0 {
                    (old(self).scan.excluded_depth - 1) as usize
                } else {
                    old(self).scan.excluded_depth
                },
                ..old(self).scan
            }),
            final(self).plugins.isolate_main_closed == (old(self).plugins.isolate_main_closed || (old(self).config.has_isolate_main
                && node.tag_id == Some(TAG_MAIN) && !node.excluded_from_markdown && old(self).plugins.isolate_main_found)),
            final(self).depth_map@ == (match node.tag_id {
                Some(id) => if (id as int) < old(self).depth_map@.len() {
                    old(self).depth_map@.update(id as int,
                        if old(self).depth_map@[id as int] == 0 { 0 } else { (old(self).depth_map@[id as int] - 1) as u16 })
                } else {
                    old(self).depth_map@
                },
                None => old(self).depth_map@,
            }),
    {
        let mut flags = self.scan;
        match flags.hidden_since_depth {
            Some(d) => {
                if d == idx {
                    flags.hidden_since_depth = None;
                }
            },
            None => {},
        }
        if node.excluded_from_markdown {
            flags.excluded_depth = flags.excluded_depth.saturating_sub(1);
        }
        self.scan = flags;
        if self.config.has_isolate_main && node.tag_id == Some(TAG_MAIN) && !node.excluded_from_markdown
            && self.plugins.isolate_main_found && !self.plugins.isolate_main_closed {
            self.plugins.isolate_main_closed = true;
        }
        match node.tag_id {
            Some(id) => self.bump_depth(id, false),
            None => {},
        }
    }

    /// Closes elements from the top down to the nearest one that `kind`
    /// targets, unless a boundary of `kind` comes first (then nothing closes).
    fn close_implied_to(&mut self, kind: Implied)
        requires
            old(self).wf(),
        ensures
            final(self).wf(),
            final(self).stack@.len() <= old(self).stack@.len(),
            final(self).config == old(self).config,
            final(self).handed_out() == old(self).handed_out(),
            ({
                let t = implied_index(old(self).stack@, kind, old(self).stack@.len() as int);
                &&& t >= 0 ==> final(self).stack@ == old(self).stack@.subrange(0, t)
                &&& t < 0 ==> final(self).stack@ == old(self).stack@
            }),
    {
        let n = self.stack.len();
        let ghost st = self.stack@;
        let mut count: usize = 0;
        let mut found = false;
        let mut j = n;
        while j > 0
            invariant_except_break
                count == n - j,
                !found,
                implied_index(st, kind, n as int) == implied_index(st, kind, j as int),
            invariant
                j <= n == self.stack@.len(),
                st == self.stack@,
                count <= n,
            ensures
                found ==> count > 0 && implied_index(st, kind, n as int) == n - count,
                !found ==> implied_index(st, kind, n as int) < 0,
            decreases j,
        {
            match self.stack[j - 1].tag_id {
                Some(id) => {
                    if is_implied_target(kind, id) {
                        count = count + 1;
                        found = true;
                        break;
                    }
                    if is_implied_boundary(kind, id) {
                        break;
                    }
                },
                None => {},
            }
            count = count + 1;
            j = j - 1;
        }
        if found {
            let mut k: usize = 0;
            while k < count
                invariant
                    self.wf(),
                    k <= count <= n,
                    st.len() == n,
                    self.stack@ == st.subrange(0, n - k),
                    self.config == old(self).config,
                    self.handed_out() == old(self).handed_out(),
                decreases count - k,
            {
                self.close_node();
                assert(st.subrange(0, n - k).drop_last() =~= st.subrange(0, n - k - 1));
                k = k + 1;
            }
        } else {
            assert(self.stack@ =~= st);
        }
    }

    /// Closes table-internal elements from the top while they are cells,
    /// rows or (with `sections`) sections and captions.
    fn close_table_context(&mut self, sections: bool)
        requires
            old(self).wf(),
        ensures
            final(self).wf(),
            final(self).stack@.len() <= old(self).stack@.len(),
            final(self).config == old(self).config,
            final(self).handed_out() == old(self).handed_out(),
            final(self).stack@ == old(self).stack@.subrange(0, table_kept(old(self).stack@, sections, old(self).stack@.len() as int)),
    {
        let ghost st = self.stack@;
        assert(st.subrange(0, st.len() as int) =~= st);
        while self.stack.len() > 0
            invariant
                self.wf(),
                self.stack@.len() <= old(self).stack@.len(),
                self.config == old(self).config,
                self.handed_out() == old(self).handed_out(),
                st == old(self).stack@,
                self.stack@ == st.subrange(0, self.stack@.len() as int),
                table_kept(st, sections, st.len() as int) == table_kept(st, sections, self.stack@.len() as int),
            ensures
                self.stack@ == st.subrange(0, table_kept(st, sections, st.len() as int)),
            decreases self.stack@.len(),
        {
            let top = self.stack[self.stack.len() - 1].tag_id;
            let closeable = match top {
                Some(t) => t == TAG_TD || t == TAG_TH || t == TAG_TR
                    || (sections && (t == TAG_THEAD || t == TAG_TBODY || t == TAG_TFOOT || t == TAG_CAPTION)),
                None => false,
            };
            if !closeable {
                break;
            }
            let ghost m = self.stack@.len() as int;
            self.close_node();
            assert(st.subrange(0, m).drop_last() =~= st.subrange(0, m - 1));
        }
    }

    /// Closes the nearest `target` element within the current select;
    /// returns whether one was found.
    fn close_select_to(&mut self, target: u8) -> (r: bool)
        requires
            old(self).wf(),
        ensures
            final(self).wf(),
            final(self).stack@.len() <= old(self).stack@.len(),
            final(self).config == old(self).config,
            final(self).handed_out() == old(self).handed_out(),
            ({
                let t = select_index(old(self).stack@, target, old(self).stack@.len() as int);
                &&& r == (t >= 0)
                &&& t >= 0 ==> final(self).stack@ == old(self).stack@.subrange(0, t)
                &&& t < 0 ==> final(self).stack@ == old(self).stack@
            }),
    {
        let n = self.stack.len();
        let ghost st = self.stack@;
        let mut j = n;
        let mut index: Option<usize> = None;
        while j > 0
            invariant_except_break
                index is None,
                select_index(st, target, n as int) == select_index(st, target, j as int),
            invariant
                j <= n == self.stack@.len(),
                st == self.stack@,
                index matches Some(x) ==> x < n,
            ensures
                index matches Some(x) ==> select_index(st, target, n as int) == x,
                index is None ==> select_index(st, target, n as int) < 0,
            decreases j,
        {
            match self.stack[j - 1].tag_id {
                Some(id) => {
                    if id == target {
                        index = Some(j - 1);
                        break;
                    }
                    if (id == TAG_SELECT && target != TAG_SELECT) || id == TAG_TEMPLATE {
                        break;
                    }
                },
                None => {},
            }
            j = j - 1;
        }
        match index {
            Some(x) => {
                assert(st.subrange(0, n as int) =~= st);
                while self.stack.len() > x
                    invariant
                        self.wf(),
                        self.stack@.len() <= n,
                        x <= self.stack@.len(),
                        st.len() == n,
                        self.stack@ == st.subrange(0, self.stack@.len() as int),
                        self.config == old(self).config,
                        self.handed_out() == old(self).handed_out(),
                    decreases self.stack@.len(),
                {
                    let ghost m = self.stack@.len() as int;
                    self.close_node();
                    assert(st.subrange(0, m).drop_last() =~= st.subrange(0, m - 1));
                }
                true
            },
            None => false,
        }
    }

    /// The name an open element is known by: its custom name, or the name
    /// of its tag.
    pub open spec fn node_name_spec(node: ElementNode) -> Seq<u8> {
        match node.custom_name {
            Some(n) => n@,
            None => match node.tag_id {
                Some(id) => tag_name_spec(id),
                None => Seq::<u8>::empty(),
            },
        }
    }

    /// Whether `sel` matches the element `name` with `attributes` or one of
    /// the open elements `stack` around it (those only when `with_parents`).
    pub open spec fn matches_here(name: Seq<u8>, entries: Seq<(Seq<u8>, Seq<u8>)>, stack: Seq<ElementNode>, sel: Selector,
        with_parents: bool) -> bool {
        ||| selector_matches(name, entries, sel)
        ||| with_parents && exists|a: int| 0 <= a < stack.len()
            && selector_matches(Self::node_name_spec(#[trigger] stack[a]), stack[a].attributes@.entries, sel)
    }

    /// Whether the filter plugin drops the element `name` with `entries`
    /// under the open elements `stack`: a selector of `dropping` matches it or an
    /// element around it, or `keeping` has selectors and none matches it
    /// (or, when children are processed, an element around it).
    pub open spec fn filter_drops_spec(name: Seq<u8>, entries: Seq<(Seq<u8>, Seq<u8>)>, stack: Seq<ElementNode>,
        dropping: Seq<Selector>, keeping: Seq<Selector>, children: bool) -> bool {
        ||| exists|k: int| 0 <= k < dropping.len() && Self::matches_here(name, entries, stack, #[trigger] dropping[k], true)
        ||| keeping.len() > 0 && !exists|k: int| 0 <= k < keeping.len()
            && Self::matches_here(name, entries, stack, #[trigger] keeping[k], children)
    }

    /// The name of an open element: its custom name or its known name.
    pub fn node_name(node: &ElementNode) -> (r: Vec<u8>)
        ensures
            r@ == Self::node_name_spec(*node),
    {
        match &node.custom_name {
            Some(n) => copy_range(n.as_slice(), 0, n.len()),
            None => match node.tag_id {
                Some(id) => tag_name(id),
                None => Vec::new(),
            },
        }
    }

    /// Records an element opened beyond the depth limit in the overflow
    /// summary: its nesting under the summary's root, and whether it starts
    /// a suppressed subtree or raw text.
    pub fn record_overflow_start(&mut self, name: &[u8], tag_id: Option<u8>)
        requires
            old(self).wf(),
        ensures
            final(self).wf(),
            final(self).keeps_parse(old(self)),
            final(self).written() == old(self).written(),
            final(self).overflow is Some,
    {
        let mut o = match self.overflow.take() {
            Some(mut o) => {
                if bytes_eq(o.root_name.as_slice(), name) {
                    o.root_depth = o.root_depth.saturating_add(1);
                }
                match &o.suppressed_name {
                    Some(sn) => {
                        if bytes_eq(sn.as_slice(), name) {
                            o.suppressed_depth = o.suppressed_depth.saturating_add(1);
                        }
                    },
                    None => {},
                }
                o
            },
            None => OverflowState {
                root_name: copy_range(name, 0, name.len()),
                root_depth: 1,
                suppressed_name: None,
                suppressed_depth: 0,
                raw_name: None,
                raw_mode: TextMode::Data,
                raw_is_script: false,
            },
        };
        match tag_id {
            Some(id) => {
                if suppresses_subtree(id) && o.suppressed_name.is_none() {
                    o.suppressed_name = Some(copy_range(name, 0, name.len()));
                    o.suppressed_depth = 1;
                }
                if is_non_nesting(id) {
                    let ctx = self.context_for(name, tag_id);
                    o.raw_name = Some(copy_range(name, 0, name.len()));
                    o.raw_mode = ctx.text_mode;
                    let script: [u8; 6] = [115, 99, 114, 105, 112, 116];
                    o.raw_is_script = id == TAG_SCRIPT && bytes_eq(name, &script);
                    self.scan.script_data_state = SCRIPT_DATA;
                }
            },
            None => {},
        }
        self.overflow = Some(o);
    }

    /// Scans an end tag while in the overflow summary and updates it.
    pub fn process_overflow_closing_tag(&mut self, bytes: &[u8], position: usize) -> (r: CloseTagResult)
        requires
            old(self).wf(),
            position + 2 <= bytes@.len(),
        ensures
            final(self).wf(),
            final(self).keeps_parse(old(self)),
            final(self).written() == old(self).written(),
            r.complete ==> position < r.new_position <= bytes@.len(),
            !r.complete ==> r.new_position == position,
    {
        let n = bytes.len();
        let mut i = position + 2;
        let name_start = i;
        let mut name_end = n;
        let mut quote: u8 = 0;
        let mut complete = false;
        while i < n
            invariant_except_break
                !complete,
            invariant
                name_start <= i <= n == bytes@.len(),
                name_start <= name_end <= n,
                position + 2 == name_start,
                complete ==> i < n,
            decreases n - i,
        {
            let c = bytes[i];
            if name_end == n && (is_whitespace(c) || c == 47 || c == 62) {
                name_end = i;
            }
            if quote != 0 {
                if c == quote {
                    quote = 0;
                }
            } else if name_end != n && (c == 34 || c == 39) {
                quote = c;
            } else if c == 62 {
                complete = true;
                break;
            }
            i = i + 1;
        }
        if !complete {
            return CloseTagResult { complete: false, new_position: position };
        }
        let raw = copy_range(bytes, name_start, name_end);
        let name = to_ascii_lowercase(raw.as_slice());
        let mut leave = false;
        match self.overflow.take() {
            Some(mut o) => {
                let raw_matches = match &o.raw_name {
                    Some(rn) => bytes_eq(rn.as_slice(), name.as_slice()),
                    None => false,
                };
                if raw_matches {
                    o.raw_name = None;
                    o.raw_mode = TextMode::Data;
                    o.raw_is_script = false;
                    self.scan.script_data_state = SCRIPT_DATA;
                }
                let suppressed_matches = match &o.suppressed_name {
                    Some(sn) => bytes_eq(sn.as_slice(), name.as_slice()),
                    None => false,
                };
                if suppressed_matches {
                    o.suppressed_depth = o.suppressed_depth.saturating_sub(1);
                    if o.suppressed_depth == 0 {
                        o.suppressed_name = None;
                    }
                }
                if bytes_eq(o.root_name.as_slice(), name.as_slice()) {
                    o.root_depth = o.root_depth.saturating_sub(1);
                    leave = o.root_depth == 0;
                }
                if !leave {
                    self.overflow = Some(o);
                }
            },
            None => {},
        }
        if leave {
            self.scan.script_data_state = SCRIPT_DATA;
        }
        self.scan.just_closed_tag = true;
        CloseTagResult { complete: true, new_position: i + 1 }
    }

    /// Whether an element is visually hidden: an inline style with
    /// `display:none`, `visibility:hidden` or absolute/fixed position, or a
    /// `hidden` attribute other than `until-found`.
    pub fn is_hidden(attributes: &Attributes) -> (r: bool)
        ensures
            r == hidden_by(attributes@.entries),
    {
        let style: [u8; 5] = [115, 116, 121, 108, 101];
        assert(style@ =~= seq![115u8, 116, 121, 108, 101]);
        match attributes.value_of(&style) {
            Some(v) => {
                let d1: [u8; 12] = [100, 105, 115, 112, 108, 97, 121, 58, 110, 111, 110, 101];
                let d2: [u8; 13] = [100, 105, 115, 112, 108, 97, 121, 58, 32, 110, 111, 110, 101];
                let v1: [u8; 17] = [118, 105, 115, 105, 98, 105, 108, 105, 116, 121, 58, 104, 105, 100, 100, 101, 110];
                let v2: [u8; 18] = [118, 105, 115, 105, 98, 105, 108, 105, 116, 121, 58, 32, 104, 105, 100, 100, 101, 110];
                let p1: [u8; 17] = [112, 111, 115, 105, 116, 105, 111, 110, 58, 97, 98, 115, 111, 108, 117, 116, 101];
                let p2: [u8; 18] = [112, 111, 115, 105, 116, 105, 111, 110, 58, 32, 97, 98, 115, 111, 108, 117, 116, 101];
                let f1: [u8; 14] = [112, 111, 115, 105, 116, 105, 111, 110, 58, 102, 105, 120, 101, 100];
                let f2: [u8; 15] = [112, 111, 115, 105, 116, 105, 111, 110, 58, 32, 102, 105, 120, 101, 100];
                assert(d1@ =~= seq![100u8, 105, 115, 112, 108, 97, 121, 58, 110, 111, 110, 101]);
                assert(d2@ =~= seq![100u8, 105, 115, 112, 108, 97, 121, 58, 32, 110, 111, 110, 101]);
                assert(v1@ =~= seq![118u8, 105, 115, 105, 98, 105, 108, 105, 116, 121, 58, 104, 105, 100, 100, 101, 110]);
                assert(v2@ =~= seq![118u8, 105, 115, 105, 98, 105, 108, 105, 116, 121, 58, 32, 104, 105, 100, 100, 101, 110]);
                assert(p1@ =~= seq![112u8, 111, 115, 105, 116, 105, 111, 110, 58, 97, 98, 115, 111, 108, 117, 116, 101]);
                assert(p2@ =~= seq![112u8, 111, 115, 105, 116, 105, 111, 110, 58, 32, 97, 98, 115, 111, 108, 117, 116, 101]);
                assert(f1@ =~= seq![112u8, 111, 115, 105, 116, 105, 111, 110, 58, 102, 105, 120, 101, 100]);
                assert(f2@ =~= seq![112u8, 111, 115, 105, 116, 105, 111, 110, 58, 32, 102, 105, 120, 101, 100]);
                if contains_bytes(v.as_slice(), &d1) || contains_bytes(v.as_slice(), &d2)
                    || contains_bytes(v.as_slice(), &v1) || contains_bytes(v.as_slice(), &v2)
                    || contains_bytes(v.as_slice(), &p1) || contains_bytes(v.as_slice(), &p2)
                    || contains_bytes(v.as_slice(), &f1) || contains_bytes(v.as_slice(), &f2) {
                    return true;
                }
            },
            None => {},
        }
        let hidden: [u8; 6] = [104, 105, 100, 100, 101, 110];
        assert(hidden@ =~= seq![104u8, 105, 100, 100, 101, 110]);
        match attributes.value_of(&hidden) {
            Some(v) => {
                let until: [u8; 11] = [117, 110, 116, 105, 108, 45, 102, 111, 117, 110, 100];
                assert(until@ =~= seq![117u8, 110, 116, 105, 108, 45, 102, 111, 117, 110, 100]);
                !eq_ignore_case(v.as_slice(), &until)
            },
            None => false,
        }
    }

    /// Whether the filter plugin drops an element with the given name and
    /// attributes, given the open elements above it.
    fn filter_drops(&self, name: &[u8], attributes: &Attributes) -> (r: bool)
        requires
            self.wf(),
        ensures
            r == Self::filter_drops_spec(name@, attributes@.entries, self.stack@, self.plugins.filter_exclude@,
                self.plugins.filter_include@, self.config.filter_process_children),
    {
        let ghost ex = self.plugins.filter_exclude@;
        let ghost inc = self.plugins.filter_include@;
        let ghost st = self.stack@;
        let mut k: usize = 0;
        while k < self.plugins.filter_exclude.len()
            invariant
                ex == self.plugins.filter_exclude@ && inc == self.plugins.filter_include@ && st == self.stack@,
                k <= self.plugins.filter_exclude@.len(),
                forall|j: int| 0 <= j < k ==> !Self::matches_here(name@, attributes@.entries, st, #[trigger] ex[j], true),
            decreases self.plugins.filter_exclude@.len() - k,
        {
            if super::selector::matches_selector(name, attributes, &self.plugins.filter_exclude[k]) {
                assert(Self::matches_here(name@, attributes@.entries, st, ex[k as int], true));
                return true;
            }
            let mut a: usize = 0;
            while a < self.stack.len()
                invariant
                    ex == self.plugins.filter_exclude@ && inc == self.plugins.filter_include@ && st == self.stack@,
                ex == self.plugins.filter_exclude@ && inc == self.plugins.filter_include@ && st == self.stack@,
                    a <= self.stack@.len(),
                    k < self.plugins.filter_exclude@.len(),
                    !selector_matches(name@, attributes@.entries, ex[k as int]),
                    forall|b: int| 0 <= b < a ==> !selector_matches(Self::node_name_spec(#[trigger] st[b]), st[b].attributes@.entries, ex[k as int]),
                decreases self.stack@.len() - a,
            {
                let parent = Self::node_name(&self.stack[a]);
                if super::selector::matches_selector(parent.as_slice(), &self.stack[a].attributes, &self.plugins.filter_exclude[k]) {
                    assert(Self::matches_here(name@, attributes@.entries, st, ex[k as int], true));
                    return true;
                }
                a = a + 1;
            }
            k = k + 1;
        }
        if self.plugins.filter_include.len() == 0 {
            return false;
        }
        let children = self.config.filter_process_children;
        let mut k: usize = 0;
        while k < self.plugins.filter_include.len()
            invariant
                ex == self.plugins.filter_exclude@ && inc == self.plugins.filter_include@ && st == self.stack@,
                k <= self.plugins.filter_include@.len(),
                inc.len() > 0,
                children == self.config.filter_process_children,
                !exists|j: int| 0 <= j < ex.len() && Self::matches_here(name@, attributes@.entries, st, #[trigger] ex[j], true),
                forall|j: int| 0 <= j < k ==> !Self::matches_here(name@, attributes@.entries, st, #[trigger] inc[j], children),
            decreases self.plugins.filter_include@.len() - k,
        {
            if super::selector::matches_selector(name, attributes, &self.plugins.filter_include[k]) {
                assert(Self::matches_here(name@, attributes@.entries, st, inc[k as int], children));
                return false;
            }
            if self.config.filter_process_children {
                let mut a: usize = 0;
                while a < self.stack.len()
                    invariant
                        ex == self.plugins.filter_exclude@ && inc == self.plugins.filter_include@ && st == self.stack@,
                    ex == self.plugins.filter_exclude@ && inc == self.plugins.filter_include@ && st == self.stack@,
                ex == self.plugins.filter_exclude@ && inc == self.plugins.filter_include@ && st == self.stack@,
                        a <= self.stack@.len(),
                        k < self.plugins.filter_include@.len(),
                        children,
                        children == self.config.filter_process_children,
                        inc.len() > 0,
                        !exists|j: int| 0 <= j < ex.len() && Self::matches_here(name@, attributes@.entries, st, #[trigger] ex[j], true),
                        !selector_matches(name@, attributes@.entries, inc[k as int]),
                        forall|b: int| 0 <= b < a ==> !selector_matches(Self::node_name_spec(#[trigger] st[b]), st[b].attributes@.entries, inc[k as int]),
                    decreases self.stack@.len() - a,
                {
                    let parent = Self::node_name(&self.stack[a]);
                    if super::selector::matches_selector(parent.as_slice(), &self.stack[a].attributes, &self.plugins.filter_include[k]) {
                        assert(Self::matches_here(name@, attributes@.entries, st, inc[k as int], children));
                        return false;
                    }
                    a = a + 1;
                }
            }
            k = k + 1;
        }
        true
    }

    /// Whether `tag_id` is one of `h1` to `h6`.
    pub open spec fn is_heading_tag(tag_id: Option<u8>) -> bool {
        match tag_id {
            Some(id) => id == TAG_H1 || id == TAG_H2 || id == TAG_H3 || id == TAG_H4 || id == TAG_H5 || id == TAG_H6,
            None => false,
        }
    }

    /// Whether main isolation skips an element with `tag_id` at `depth`,
    /// given the plugin state `p` and the open-element counts `d`: after
    /// `<main>` (found at depth 50 or less), what follows its close; before
    /// it, what is outside `<head>` until a first heading outside `<header>`,
    /// and from then on a footer up to 5 levels below that heading and all
    /// after it.
    pub open spec fn isolate_skips(p: PluginState, d: Seq<u16>, tag_id: Option<u8>, depth: usize) -> bool {
        let found = p.isolate_main_found || (tag_id == Some(TAG_MAIN) && depth <= 50);
        let header = p.isolate_first_header_depth is None && Self::is_heading_tag(tag_id) && d[TAG_HEADER as int] == 0;
        let first = if header { Some(depth) } else { p.isolate_first_header_depth };
        if found {
            p.isolate_main_closed
        } else {
            match first {
                Some(hd) => p.isolate_after_footer || (tag_id == Some(TAG_FOOTER) && (if depth >= hd { depth - hd } else { 0 }) <= 5),
                None => tag_id != Some(TAG_HEAD) && d[TAG_HEAD as int] == 0,
            }
        }
    }

    /// Main isolation at a start tag: whether the element is skipped.
    fn isolate_start(&mut self, tag_id: Option<u8>, depth: usize) -> (r: bool)
        requires
            old(self).wf(),
        ensures
            final(self).wf(),
            final(self).stack@ == old(self).stack@,
            final(self).config == old(self).config,
            final(self).handed_out() == old(self).handed_out(),
            ({
                let p = old(self).plugins;
                let d = old(self).depth_map@;
                let found = p.isolate_main_found || (tag_id == Some(TAG_MAIN) && depth <= 50);
                let header = p.isolate_first_header_depth is None && Self::is_heading_tag(tag_id) && d[TAG_HEADER as int] == 0;
                let first = if header { Some(depth) } else { p.isolate_first_header_depth };
                &&& final(self).plugins.isolate_main_found == found
                &&& r == Self::isolate_skips(p, d, tag_id, depth)
                &&& final(self).scan == old(self).scan
                &&& final(self).depth_map@ == old(self).depth_map@
                &&& found ==> r == p.isolate_main_closed
                &&& !found ==> final(self).plugins.isolate_first_header_depth == first
                &&& !found ==> r == (match first {
                    Some(hd) => p.isolate_after_footer || (tag_id == Some(TAG_FOOTER) && (if depth >= hd { depth - hd } else { 0 }) <= 5),
                    None => tag_id != Some(TAG_HEAD) && d[TAG_HEAD as int] == 0,
                })
                &&& !found ==> final(self).plugins.isolate_after_footer == (if first is Some { r } else { p.isolate_after_footer })
                &&& !found ==> final(self).written() == old(self).written()
            }),
    {
        let is_main = tag_id == Some(TAG_MAIN);
        if !self.plugins.isolate_main_found && is_main && depth <= 50 {
            self.plugins.isolate_main_found = true;
            self.discard_isolate_fallback();
        }
        if self.plugins.isolate_main_found {
            return self.plugins.isolate_main_closed;
        }
        let is_header = match tag_id {
            Some(id) => id == TAG_H1 || id == TAG_H2 || id == TAG_H3 || id == TAG_H4 || id == TAG_H5 || id == TAG_H6,
            None => false,
        };
        if self.plugins.isolate_first_header_depth.is_none() && is_header && self.depth_at(TAG_HEADER) == 0 {
            self.plugins.isolate_first_header_depth = Some(depth);
            self.plugins.isolate_fallback_output_start = Some(self.buffer.len());
        }
        let mut skip = false;
        match self.plugins.isolate_first_header_depth {
            Some(hd) => {
                if !self.plugins.isolate_after_footer && tag_id == Some(TAG_FOOTER) && depth.saturating_sub(hd) <= 5 {
                    self.plugins.isolate_after_footer = true;
                    skip = true;
                }
                if self.plugins.isolate_after_footer {
                    skip = true;
                }
            },
            None => {
                if tag_id != Some(TAG_HEAD) && self.depth_at(TAG_HEAD) == 0 {
                    skip = true;
                }
            },
        }
        skip
    }

    /// Drops the output written before `<main>` was found.
    fn discard_isolate_fallback(&mut self)
        requires
            old(self).wf(),
        ensures
            final(self).wf(),
            final(self).stack@ == old(self).stack@,
            final(self).config == old(self).config,
            final(self).handed_out() == old(self).handed_out(),
            final(self).plugins == old(self).plugins,
            final(self).scan == old(self).scan,
            final(self).depth_map@ == old(self).depth_map@,
            ({
                let start = match old(self).plugins.isolate_fallback_output_start {
                    Some(s) => s,
                    None => old(self).buffer@.len() as usize,
                };
                let cut = old(self).last_yielded_length <= start < old(self).buffer@.len();
                &&& cut ==> final(self).written() == old(self).written().subrange(0, old(self).drained@ + start)
                &&& !cut ==> final(self).written() == old(self).written()
                &&& final(self).buffer@.len() == (if cut { start as int } else { old(self).buffer@.len() as int })
                &&& final(self).pen == (Pen {
                    pending_space: false,
                    pending_breaks: 0,
                    at_line_start: final(self).buffer@.len() == 0,
                    wrote_any: final(self).buffer@.len() > 0,
                    ..old(self).pen
                })
            }),
    {
        let start = match self.plugins.isolate_fallback_output_start {
            Some(s) => s,
            None => self.buffer.len(),
        };
        self.truncate_output(start);
        let mut p = self.pen;
        p.pending_space = false;
        p.pending_breaks = 0;
        p.at_line_start = self.buffer.len() == 0;
        p.wrote_any = self.buffer.len() > 0;
        self.pen = p;
    }

    /// Frontmatter at a start tag: notes `<head>` and keeps allowed `<meta>` fields.
    fn frontmatter_start(&mut self, tag_id: Option<u8>, attributes: &Attributes)
        requires
            old(self).wf(),
        ensures
            final(self).wf(),
            final(self).stack@ == old(self).stack@,
            final(self).config == old(self).config,
            final(self).handed_out() == old(self).handed_out(),
            final(self).written() == old(self).written(),
            final(self).scan == old(self).scan,
            final(self).plugins.frontmatter_in_head == (old(self).plugins.frontmatter_in_head || tag_id == Some(TAG_HEAD)),
            pairs_view(final(self).plugins.frontmatter_meta@) == ({
                let m = pairs_view(old(self).plugins.frontmatter_meta@);
                let e = attributes@.entries;
                let name = match lookup(e, seq![110u8, 97, 109, 101]) {
                    Some(n) => Some(n),
                    None => lookup(e, seq![112u8, 114, 111, 112, 101, 114, 116, 121]),
                };
                if tag_id == Some(TAG_HEAD) || !old(self).plugins.frontmatter_in_head || tag_id != Some(TAG_META) {
                    m
                } else {
                    match (name, lookup(e, seq![99u8, 111, 110, 116, 101, 110, 116])) {
                        (Some(n), Some(v)) => if meta_field_allowed(old(self).options, n) { meta_after(m, n, v) } else { m },
                        _ => m,
                    }
                }
            }),
    {
        if tag_id == Some(TAG_HEAD) {
            self.plugins.frontmatter_in_head = true;
            return;
        }
        if !self.plugins.frontmatter_in_head || tag_id != Some(TAG_META) {
            return;
        }
        let name_attr: [u8; 4] = [110, 97, 109, 101];
        let property: [u8; 8] = [112, 114, 111, 112, 101, 114, 116, 121];
        let content: [u8; 7] = [99, 111, 110, 116, 101, 110, 116];
        assert(name_attr@ =~= seq![110u8, 97, 109, 101]);
        assert(property@ =~= seq![112u8, 114, 111, 112, 101, 114, 116, 121]);
        assert(content@ =~= seq![99u8, 111, 110, 116, 101, 110, 116]);
        let name = match attributes.value_of(&name_attr) {
            Some(n) => {
                let c = copy_range(n.as_slice(), 0, n.len());
                assert(c@ =~= n@);
                c
            },
            None => match attributes.value_of(&property) {
                Some(n) => {
                    let c = copy_range(n.as_slice(), 0, n.len());
                    assert(c@ =~= n@);
                    c
                },
                None => {
                    return;
                },
            },
        };
        let value = match attributes.value_of(&content) {
            Some(c) => {
                let v = copy_range(c.as_slice(), 0, c.len());
                assert(v@ =~= c@);
                v
            },
            None => {
                return;
            },
        };
        if self.meta_allowed(name.as_slice()) {
            self.capture_frontmatter_meta(name.as_slice(), value.as_slice());
        }
    }

    /// Whether a `<meta>` name is kept: the standard description, keywords,
    /// author, date, Open Graph and Twitter title and description, or one
    /// listed in the frontmatter options.
    fn meta_allowed(&self, name: &[u8]) -> (r: bool)
        ensures
            r == meta_field_allowed(self.options, name@),
    {
        let description: [u8; 11] = [100, 101, 115, 99, 114, 105, 112, 116, 105, 111, 110];
        let keywords: [u8; 8] = [107, 101, 121, 119, 111, 114, 100, 115];
        let author: [u8; 6] = [97, 117, 116, 104, 111, 114];
        let date: [u8; 4] = [100, 97, 116, 101];
        let og_title: [u8; 8] = [111, 103, 58, 116, 105, 116, 108, 101];
        let og_description: [u8; 14] = [111, 103, 58, 100, 101, 115, 99, 114, 105, 112, 116, 105, 111, 110];
        let tw_title: [u8; 13] = [116, 119, 105, 116, 116, 101, 114, 58, 116, 105, 116, 108, 101];
        let tw_description: [u8; 19] = [116, 119, 105, 116, 116, 101, 114, 58, 100, 101, 115, 99, 114, 105, 112, 116, 105, 111, 110];
        if bytes_eq(name, &description) || bytes_eq(name, &keywords) || bytes_eq(name, &author)
            || bytes_eq(name, &date) || bytes_eq(name, &og_title) || bytes_eq(name, &og_description)
            || bytes_eq(name, &tw_title) || bytes_eq(name, &tw_description) {
            proof {
                assert(description@ =~= seq![100u8, 101, 115, 99, 114, 105, 112, 116, 105, 111, 110]);
                assert(keywords@ =~= seq![107u8, 101, 121, 119, 111, 114, 100, 115]);
                assert(author@ =~= seq![97u8, 117, 116, 104, 111, 114]);
                assert(date@ =~= seq![100u8, 97, 116, 101]);
                assert(og_title@ =~= seq![111u8, 103, 58, 116, 105, 116, 108, 101]);
                assert(og_description@ =~= seq![111u8, 103, 58, 100, 101, 115, 99, 114, 105, 112, 116, 105, 111, 110]);
                assert(tw_title@ =~= seq![116u8, 119, 105, 116, 116, 101, 114, 58, 116, 105, 116, 108, 101]);
                assert(tw_description@ =~= seq![116u8, 119, 105, 116, 116, 101, 114, 58, 100, 101, 115, 99, 114, 105, 112, 116, 105, 111, 110]);
            }
            return true;
        }
        proof {
            assert(description@ =~= seq![100u8, 101, 115, 99, 114, 105, 112, 116, 105, 111, 110]);
            assert(keywords@ =~= seq![107u8, 101, 121, 119, 111, 114, 100, 115]);
            assert(author@ =~= seq![97u8, 117, 116, 104, 111, 114]);
            assert(date@ =~= seq![100u8, 97, 116, 101]);
            assert(og_title@ =~= seq![111u8, 103, 58, 116, 105, 116, 108, 101]);
            assert(og_description@ =~= seq![111u8, 103, 58, 100, 101, 115, 99, 114, 105, 112, 116, 105, 111, 110]);
            assert(tw_title@ =~= seq![116u8, 119, 105, 116, 116, 101, 114, 58, 116, 105, 116, 108, 101]);
            assert(tw_description@ =~= seq![116u8, 119, 105, 116, 116, 101, 114, 58, 100, 101, 115, 99, 114, 105, 112, 116, 105, 111, 110]);
        }
        match &self.options.plugins {
            Some(p) => match &p.frontmatter {
                Some(f) => match &f.meta_fields {
                    Some(list) => {
                        let mut k: usize = 0;
                        while k < list.len()
                            invariant
                                k <= list@.len(),
                                self.options.plugins == Some(*p),
                                p.frontmatter == Some(*f),
                                f.meta_fields == Some(*list),
                                forall|j: int| 0 <= j < k ==> encode_utf8(list@[j]@) != name@,
                            decreases list@.len() - k,
                        {
                            if bytes_eq(list[k].as_str().as_bytes(), name) {
                                assert(0 <= k < list@.len() && encode_utf8(list@[k as int]@) == name@);
                                assert(listed_field(list@, name@));
                                return true;
                            }
                            k = k + 1;
                        }
                        false
                    },
                    None => false,
                },
                None => false,
            },
            None => false,
        }
    }

    /// How an element renders and reads its content, before plugins.
    fn classify(&self, tag_id: Option<u8>, attributes: &Attributes, ov: &Option<TagOverrideConfig>) -> (r: (Render, bool, bool, bool))
        ensures
            ({
                let (base_render, base_inline, excl, nn) = match tag_id {
                    Some(id) => (spec_render_of(id), spec_is_inline_tag(id), spec_excludes_text(id), spec_is_non_nesting(id)),
                    None => (Render::Plain, true, false, false),
                };
                let custom = match ov {
                    Some(c) => c.enter is Some || c.exit is Some,
                    None => false,
                };
                let render1 = if custom { Render::Custom } else { base_render };
                let inline = match ov {
                    Some(c) => match c.is_inline {
                        Some(b) => b,
                        None => base_inline,
                    },
                    None => base_inline,
                };
                let render = if render1 is Link {
                    match lookup(attributes@.entries, seq![104u8, 114, 101, 102]) {
                        Some(h) => if self.config.clean_empty_links && (h.len() == 0 || (h.len() == 1 && h[0] == 35)) { Render::Plain } else { render1 },
                        None => Render::Plain,
                    }
                } else {
                    render1
                };
                r == (render, inline, excl, nn)
            }),
    {
        let (mut render, mut inline, excl_text, non_nesting) = match tag_id {
            Some(id) => (render_of(id), is_inline_tag(id), excludes_text(id), is_non_nesting(id)),
            None => (Render::Plain, true, false, false),
        };
        match ov {
            Some(c) => {
                if c.enter.is_some() || c.exit.is_some() {
                    render = Render::Custom;
                }
                match c.is_inline {
                    Some(b) => {
                        inline = b;
                    },
                    None => {},
                }
            },
            None => {},
        }
        if let Render::Link = render {
            let href: [u8; 4] = [104, 114, 101, 102];
            assert(href@ =~= seq![104u8, 114, 101, 102]);
            match attributes.value_of(&href) {
                Some(h) => {
                    if self.config.clean_empty_links && (h.len() == 0 || (h.len() == 1 && h[0] == 35)) {
                        render = Render::Plain;
                    }
                },
                None => {
                    render = Render::Plain;
                },
            }
        }
        (render, inline, excl_text, non_nesting)
    }

    /// Plugins at a start tag: whether the element is skipped, and whether
    /// the filter excludes it.
    fn plugins_at_start(&mut self, name: &[u8], tag_id: Option<u8>, attributes: &Attributes, index: usize) -> (r: (bool, bool))
        requires
            old(self).wf(),
        ensures
            final(self).wf(),
            final(self).stack@ == old(self).stack@,
            final(self).config == old(self).config,
            final(self).handed_out() == old(self).handed_out(),
            ({
                let o = old(self);
                let in_template = o.depth_map@[TAG_TEMPLATE as int] > 0;
                let already = o.scan.hidden_since_depth is Some;
                let hidden = !already && hidden_by(attributes@.entries);
                let filtered = o.config.has_filter && (already || hidden || Self::filter_drops_spec(name@, attributes@.entries,
                    o.stack@, o.plugins.filter_exclude@, o.plugins.filter_include@, o.config.filter_process_children));
                let isolated = o.config.has_isolate_main && !in_template && Self::isolate_skips(o.plugins, o.depth_map@, tag_id,
                    if index == usize::MAX { usize::MAX } else { (index + 1) as usize });
                &&& r == (filtered || isolated, filtered || in_template)
                &&& final(self).scan.hidden_since_depth == (if o.config.has_filter && hidden { Some(index) } else { o.scan.hidden_since_depth })
            }),
    {
        let in_template = self.depth_at(TAG_TEMPLATE) > 0;
        let mut skip = false;
        let mut filter_excluded = false;
        if self.config.has_filter {
            if self.scan.hidden_since_depth.is_some() {
                skip = true;
                filter_excluded = true;
            } else if Self::is_hidden(attributes) {
                skip = true;
                filter_excluded = true;
                self.scan.hidden_since_depth = Some(index);
            }
            if !skip && self.filter_drops(name, attributes) {
                skip = true;
                filter_excluded = true;
            }
        }
        if self.config.has_isolate_main && !in_template {
            if self.isolate_start(tag_id, index.saturating_add(1)) {
                skip = true;
            }
        }
        if self.config.has_frontmatter && !in_template {
            self.frontmatter_start(tag_id, attributes);
        }
        (skip, filter_excluded || in_template)
    }

    /// Opens an element: updates the depth counts, applies overrides and
    /// plugins, pushes it and renders its start.
    fn open_element(
        &mut self,
        name: &[u8],
        tag_id: Option<u8>,
        builtin: Option<u8>,
        is_alias: bool,
        attributes: Attributes,
        ov: Option<TagOverrideConfig>,
        self_closing: bool,
    )
        requires
            old(self).wf(),
            old(self).stack@.len() < MAX_ELEMENT_DEPTH + 1,
        ensures
            final(self).wf(),
            0 < final(self).stack@.len() <= old(self).stack@.len() + 1,
            final(self).config == old(self).config,
            final(self).handed_out() == old(self).handed_out(),
            final(self).stack@.last().tag_id == tag_id,
            final(self).stack@.last().self_closing == self_closing,
            old(self).config.streaming_limit is None ==> final(self).stack@.drop_last() == old(self).stack@,
    {
        let index = self.stack.len();
        match tag_id {
            Some(id) => self.bump_depth(id, true),
            None => {},
        }
        let custom_name = if builtin.is_some() && !is_alias { None } else { Some(copy_range(name, 0, name.len())) };
        let (mut render, inline, excl_text, non_nesting) = self.classify(tag_id, &attributes, &ov);
        let (skip, dropped) = self.plugins_at_start(name, tag_id, &attributes, index);
        let excluded = dropped || (skip && (!self.config.has_isolate_main || self.plugins.isolate_main_found)) || excl_text;
        if skip && !excluded {
            render = Render::Plain;
        }
        let (enter, exit) = match ov {
            Some(c) => (
                match c.enter { Some(e) => Some(copy_range(e.as_str().as_bytes(), 0, e.as_str().len())), None => None },
                match c.exit { Some(e) => Some(copy_range(e.as_str().as_bytes(), 0, e.as_str().len())), None => None },
            ),
            None => (None, None),
        };
        let base = match tag_id {
            Some(id) => render_of(id),
            None => Render::Plain,
        };
        let marker = default_marker(base);
        let enter = if enter.is_none() && exit.is_some() { marker.clone() } else { enter };
        let exit = if exit.is_none() && enter.is_some() { marker } else { exit };
        let node = ElementNode {
            tag_id,
            custom_name,
            attributes,
            child_text_node_index: 0,
            is_inline: inline,
            excludes_text_nodes: excl_text,
            is_non_nesting: non_nesting,
            excluded_from_markdown: excluded,
            collapses_inner_white_space: false,
            render,
            opened: false,
            pushed_prefix: false,
            children_seen: 0,
            number: 0,
            enter,
            exit,
            self_closing,
        };
        let ctx = self.context_for(name, tag_id);
        if excluded {
            self.scan.excluded_depth = self.scan.excluded_depth.saturating_add(1);
        }
        self.push_element(node, ctx);
        self.finish_open(name, non_nesting, self_closing);
    }

    /// After an element is pushed: extraction, its rendered start, and the
    /// tokenizer flags.
    fn finish_open(&mut self, name: &[u8], non_nesting: bool, self_closing: bool)
        requires
            old(self).wf(),
        ensures
            final(self).wf(),
            final(self).stack@.len() == old(self).stack@.len(),
            final(self).stack@ == old(self).stack@,
            final(self).config == old(self).config,
            final(self).handed_out() == old(self).handed_out(),
            grows_from(old(self).written(), final(self).written()),
            final(self).scan.in_non_nesting ==> non_nesting && !self_closing,
            !self_closing ==> !final(self).scan.just_closed_tag,
            !final(self).scan.has_encoded_html_entity,
    {
        if self.config.has_extraction {
            self.start_extractions(name);
        }
        self.emit_enter_element();
        let integration = self.is_supported_svg_integration_point();
        let mut flags = self.scan;
        flags.in_non_nesting = non_nesting && !integration && !self_closing;
        if !self_closing {
            flags.just_closed_tag = false;
        }
        flags.has_encoded_html_entity = false;
        self.scan = flags;
    }

    /// Closes open elements that a start tag of `id` implies the end of;
    /// true when the start tag itself is dropped (a `select` inside a `select`).
    fn implied_end_recovery(&mut self, id: u8) -> (r: bool)
        requires
            old(self).wf(),
        ensures
            final(self).wf(),
            final(self).stack@.len() <= old(self).stack@.len(),
            final(self).config == old(self).config,
            final(self).handed_out() == old(self).handed_out(),
            r == (id == TAG_SELECT && old(self).depth_map@[TAG_SELECT as int] > 0
                && select_index(old(self).stack@, TAG_SELECT, old(self).stack@.len() as int) >= 0),
            r ==> final(self).stack@ == old(self).stack@.subrange(0, select_index(old(self).stack@, TAG_SELECT, old(self).stack@.len() as int)),
    {
        if id == TAG_SELECT {
            if self.depth_at(TAG_SELECT) > 0 && self.close_select_to(TAG_SELECT) {
                return true;
            }
            return false;
        }
        if id == TAG_OPTION {
            if self.depth_at(TAG_SELECT) > 0 {
                self.close_select_to(TAG_OPTION);
            } else {
                let n = self.stack.len();
                if n > 0 && self.stack[n - 1].tag_id == Some(TAG_OPTION) {
                    self.close_node();
                }
            }
            return false;
        }
        if id == TAG_OPTGROUP {
            if self.depth_at(TAG_SELECT) > 0 {
                self.close_select_to(TAG_OPTION);
                self.close_select_to(TAG_OPTGROUP);
            }
            return false;
        }
        if id == TAG_A {
            if self.depth_at(TAG_A) > 0 {
                self.close_implied_to(Implied::Anchor);
            }
            return false;
        }
        if id == TAG_TD || id == TAG_TH || id == TAG_TR || id == TAG_THEAD || id == TAG_TBODY || id == TAG_TFOOT {
            if self.depth_at(TAG_TABLE) > 0 {
                if id == TAG_TD || id == TAG_TH {
                    if self.depth_at(TAG_TD) > 0 || self.depth_at(TAG_TH) > 0 {
                        self.close_implied_to(Implied::Cell);
                    }
                } else if id == TAG_TR {
                    if self.depth_at(TAG_TR) > 0 {
                        self.close_table_context(false);
                    }
                } else {
                    self.close_table_context(true);
                }
            }
            return false;
        }
        if !closes_p(id) {
            return false;
        }
        if self.depth_at(TAG_P) > 0 {
            self.close_implied_to(Implied::Paragraph);
        }
        if id == TAG_H1 || id == TAG_H2 || id == TAG_H3 || id == TAG_H4 || id == TAG_H5 || id == TAG_H6 {
            let n = self.stack.len();
            if n > 0 {
                let top = self.stack[n - 1].tag_id;
                let heading = match top {
                    Some(t) => t == TAG_H1 || t == TAG_H2 || t == TAG_H3 || t == TAG_H4 || t == TAG_H5 || t == TAG_H6,
                    None => false,
                };
                if heading {
                    self.close_node();
                }
            }
        } else if id == TAG_LI {
            if self.depth_at(TAG_LI) > 0 {
                self.close_implied_to(Implied::ListItem);
            }
        } else if id == TAG_DT || id == TAG_DD {
            if self.depth_at(TAG_DT) > 0 || self.depth_at(TAG_DD) > 0 {
                self.close_implied_to(Implied::Definition);
            }
        }
        false
    }

    /// Closes an unclosed `<head>` (and what was wrongly opened inside it).
    fn close_open_head(&mut self)
        requires
            old(self).wf(),
        ensures
            final(self).wf(),
            final(self).stack@.len() <= old(self).stack@.len(),
            final(self).config == old(self).config,
            final(self).handed_out() == old(self).handed_out(),
            final(self).stack@ == old(self).stack@.subrange(0, head_kept(old(self).stack@, old(self).stack@.len() as int)),
    {
        let ghost st = self.stack@;
        assert(st.subrange(0, st.len() as int) =~= st);
        while self.stack.len() > 0 && self.stack[self.stack.len() - 1].tag_id != Some(TAG_HEAD)
            invariant
                self.wf(),
                self.stack@.len() <= old(self).stack@.len(),
                self.config == old(self).config,
                self.handed_out() == old(self).handed_out(),
                st == old(self).stack@,
                self.stack@ == st.subrange(0, self.stack@.len() as int),
                head_kept(st, st.len() as int) == head_kept(st, self.stack@.len() as int),
            decreases self.stack@.len(),
        {
            let ghost m = self.stack@.len() as int;
            self.close_node();
            assert(st.subrange(0, m).drop_last() =~= st.subrange(0, m - 1));
        }
        if self.stack.len() > 0 {
            let ghost m = self.stack@.len() as int;
            assert(st.subrange(0, m).drop_last() =~= st.subrange(0, m - 1));
        }
        if self.stack.len() > 0 && self.stack[self.stack.len() - 1].tag_id == Some(TAG_HEAD) {
            self.close_node();
        }
    }

    /// Handles a start tag whose name (ASCII-lowercased) is `name` and whose
    /// attribute area starts at `position`.
    pub fn process_opening_tag(
        &mut self,
        name: &[u8],
        tag_id: Option<u8>,
        builtin: Option<u8>,
        is_alias: bool,
        bytes: &[u8],
        position: usize,
    ) -> (r: OpeningTagResult)
        requires
            old(self).wf(),
            position <= bytes@.len(),
        ensures
            final(self).wf(),
            final(self).config == old(self).config,
            final(self).handed_out() == old(self).handed_out(),
            r.new_position <= bytes@.len(),
            !r.complete ==> r.new_position == position,
            r.complete && !r.skip ==> final(self).stack@.len() > 0,
            r.complete == (tag_close(bytes@, position as int, 0, 0) is Some),
            tag_close(bytes@, position as int, 0, 0) matches Some((e, n, sc)) ==> r.new_position == n,
            !r.complete ==> final(self).stack@ == old(self).stack@ && final(self).written() == old(self).written(),
            r.complete && !r.skip ==> final(self).stack@.last().tag_id == tag_id && final(self).stack@.last().self_closing == r.self_closing,
            r.complete && !r.skip && !r.self_closing ==> final(self).stack@.len() <= MAX_ELEMENT_DEPTH,
            r.skip ==> final(self).stack@.len() <= old(self).stack@.len(),
            r.complete && old(self).overflow is Some ==> r.skip && final(self).stack@ == old(self).stack@,
            r.complete && old(self).config.streaming_limit is None && old(self).overflow is None && tag_id != Some(TAG_SELECT)
                && old(self).stack@.len() < MAX_ELEMENT_DEPTH ==> !r.skip,
            r.complete && !r.skip ==> r.self_closing == ({
                let in_svg = old(self).tokenizer_contexts@.len() > 0 && old(self).tokenizer_contexts@.last().in_supported_svg;
                let sc = match tag_close(bytes@, position as int, 0, 0) { Some((e, n, c)) => c, None => false };
                let default_sc = (match builtin { Some(id) => spec_is_void(id), None => false } && !in_svg)
                    || (is_alias && match tag_id { Some(id) => spec_is_void(id), None => false });
                (match first_override(overrides_of(old(self).options), name@, 0) {
                    Some(c) => match c.is_self_closing { Some(b) => b, None => default_sc },
                    None => default_sc,
                }) || (sc && (in_svg || builtin == Some(crate::tags::TAG_SVG)))
            }),
    {
        proof { crate::scan::lemma_tag_close(bytes@, position as int, 0, 0); }
        let needs = match tag_id {
            Some(id) => needs_attributes(id),
            None => false,
        } || self.config.has_filter || self.config.has_extraction || self.config.has_tag_overrides
            || self.config.has_frontmatter;
        let (complete, new_position, attributes, syntactic_self_closing) = process_tag_attributes(bytes, position, !needs);
        if !complete || new_position > bytes.len() {
            return OpeningTagResult { complete: false, new_position: position, self_closing: false, skip: false };
        }
        if attributes.limit_exceeded() && self.config.streaming_limit.is_some() {
            self.fail_streaming(StreamingError::ParserLimitExceeded);
            return OpeningTagResult { complete: true, new_position, self_closing: false, skip: true };
        }
        let ov = self.find_override(name);
        let in_svg = self.in_supported_svg_content();
        let aliased_void = is_alias && match tag_id {
            Some(id) => is_void(id),
            None => false,
        };
        let foreign_self_close = syntactic_self_closing && (in_svg || builtin == Some(crate::tags::TAG_SVG));
        let default_self_closing = (match builtin {
            Some(id) => is_void(id),
            None => false,
        } && !in_svg) || aliased_void;
        let override_self_closing = match &ov {
            Some(c) => c.is_self_closing,
            None => None,
        };
        let self_closing = match override_self_closing {
            Some(b) => b,
            None => default_self_closing,
        } || foreign_self_close;
        if self.overflow.is_some() {
            if !self_closing {
                self.record_overflow_start(name, tag_id);
            }
            return OpeningTagResult { complete: true, new_position, self_closing, skip: true };
        }
        let is_head_tag = match tag_id {
            Some(id) => is_head_content(id),
            None => false,
        };
        if self.depth_at(TAG_HEAD) > 0 && self.depth_at(TAG_TEMPLATE) == 0 && !is_head_tag {
            self.close_open_head();
        }
        match tag_id {
            Some(id) => {
                if self.implied_end_recovery(id) {
                    return OpeningTagResult { complete: true, new_position, self_closing: false, skip: true };
                }
            },
            None => {},
        }
        if (!self_closing && self.stack.len() >= MAX_ELEMENT_DEPTH) || self.stack.len() >= MAX_ELEMENT_DEPTH + 1 {
            self.record_overflow_start(name, tag_id);
            return OpeningTagResult { complete: true, new_position, self_closing: false, skip: true };
        }
        self.open_element(name, tag_id, builtin, is_alias, attributes, ov, self_closing);
        OpeningTagResult { complete: true, new_position, self_closing, skip: false }
    }

    /// Whether the open element `node` is what an end tag named `name`
    /// (lower-case) with the given ids closes.
    fn closes(node: &ElementNode, name: &[u8], tag_id: Option<u8>, builtin: Option<u8>) -> (r: bool)
        ensures
            r == (node.tag_id == tag_id && match node.custom_name {
                Some(c) => c@ == name@,
                None => builtin is Some,
            }),
    {
        if node.tag_id != tag_id {
            return false;
        }
        match &node.custom_name {
            Some(c) => bytes_eq(c.as_slice(), name),
            None => builtin.is_some(),
        }
    }

    /// Handles an end tag at `position`.
    pub fn process_closing_tag(&mut self, bytes: &[u8], position: usize) -> (r: CloseTagResult)
        requires
            old(self).wf(),
            position + 2 <= bytes@.len(),
        ensures
            final(self).wf(),
            final(self).config == old(self).config,
            final(self).handed_out() == old(self).handed_out(),
            r.complete ==> position < r.new_position <= bytes@.len(),
            !r.complete ==> r.new_position == position,
            r.complete ==> r.new_position == end_tag_gt(bytes@, position + 2, false, 0) + 1,
            end_tag_gt(bytes@, position + 2, false, 0) < 0 ==> !r.complete,
            end_tag_gt(bytes@, position + 2, false, 0) >= 0 && (old(self).stack@.len() == 0 || !old(self).stack@.last().is_non_nesting)
                ==> r.complete,
            !r.complete ==> final(self).stack@ == old(self).stack@ && final(self).written() == old(self).written(),
            final(self).stack@.len() <= old(self).stack@.len(),
            old(self).stack@.len() <= MAX_ELEMENT_DEPTH ==> final(self).stack@.len() <= MAX_ELEMENT_DEPTH,
            ({
                let raw = bytes@.subrange(position + 2, end_tag_name_end(bytes@, position + 2));
                let builtin = tag_id_of(lower_seq(raw));
                let name = lower_seq(raw);
                let alias = match first_override(overrides_of(old(self).options), name, 0) {
                    Some(c) => match c.alias_tag_id {
                        Some(id) => if (id as int) < MAX_TAG_ID { Some(id) } else { None },
                        None => None,
                    },
                    None => None,
                };
                let tag_id = if alias is Some { alias } else { builtin };
                let top = old(self).stack@.last();
                let m = close_match_index(old(self).stack@, name, tag_id, builtin, old(self).stack@.len() as int);
                &&& r.complete && builtin != Some(TAG_BR) && old(self).stack@.len() > 0 && top.tag_id == tag_id
                    && (match top.custom_name { Some(c) => c@ == name, None => builtin is Some })
                    ==> final(self).stack@ == old(self).stack@.drop_last()
                &&& r.complete && builtin != Some(TAG_BR) && m >= 0 ==> final(self).stack@ == old(self).stack@.subrange(0, m)
                &&& r.complete && builtin != Some(TAG_BR) && m < 0 ==> final(self).stack@ == old(self).stack@
            }),
    {
        let n = bytes.len();
        let mut i = position + 2;
        let name_start = i;
        let mut name_end = n;
        let mut quote: u8 = 0;
        let mut found = false;
        while i < n
            invariant_except_break
                !found,
                end_tag_gt(bytes@, position + 2, false, 0) == end_tag_gt(bytes@, i as int, name_end != n, quote),
                name_end == n ==> end_tag_name_end(bytes@, name_start as int) == end_tag_name_end(bytes@, i as int),
            invariant
                name_start <= i <= n == bytes@.len(),
                name_start <= name_end <= n,
                position + 2 == name_start,
                found ==> i < n,
                name_end != n ==> name_end == end_tag_name_end(bytes@, name_start as int),
            ensures
                found ==> end_tag_gt(bytes@, position + 2, false, 0) == i,
                !found ==> end_tag_gt(bytes@, position + 2, false, 0) < 0,
                found ==> name_end == end_tag_name_end(bytes@, name_start as int),
            decreases n - i,
        {
            let c = bytes[i];
            if name_end == n && (is_whitespace(c) || c == 47 || c == 62) {
                name_end = i;
            }
            if quote != 0 {
                if c == quote {
                    quote = 0;
                }
            } else if name_end != n && (c == 34 || c == 39) {
                quote = c;
            } else if c == 62 {
                found = true;
                break;
            }
            i = i + 1;
        }
        if !found {
            return CloseTagResult { complete: false, new_position: position };
        }
        let end = i + 1;
        let raw = copy_range(bytes, name_start, name_end);
        let name = to_ascii_lowercase(raw.as_slice());
        let builtin = get_tag_id_ci_bytes(raw.as_slice());
        let alias = self.alias_of(name.as_slice());
        let tag_id = match alias {
            Some(a) => Some(a),
            None => builtin,
        };
        if builtin == Some(TAG_BR) {
            if self.stack.len() < MAX_ELEMENT_DEPTH + 1 && self.overflow.is_none() {
                let br: [u8; 2] = [98, 114];
                self.open_element(&br, tag_id, Some(TAG_BR), alias.is_some(), Attributes::new(), None, true);
                self.close_node();
            }
            self.scan.just_closed_tag = true;
            return CloseTagResult { complete: true, new_position: end };
        }
        let n_open = self.stack.len();
        if n_open > 0 && self.stack[n_open - 1].is_non_nesting && !self.is_supported_svg_integration_point()
            && self.stack[n_open - 1].tag_id != tag_id {
            return CloseTagResult { complete: false, new_position: position };
        }
        let ghost st = self.stack@;
        let ghost m = close_match_index(st, name@, tag_id, builtin, n_open as int);
        if n_open > 0 {
            if Self::closes(&self.stack[n_open - 1], name.as_slice(), tag_id, builtin) {
                self.close_node();
            } else {
                let mut pop_count: usize = 0;
                let mut found_match = false;
                let mut j = n_open;
                while j > 0
                    invariant_except_break
                        pop_count == n_open - j,
                        !found_match,
                        m == close_match_index(st, name@, tag_id, builtin, j as int),
                    invariant
                        j <= n_open == self.stack@.len(),
                        pop_count <= n_open,
                        self.stack@ == st,
                    ensures
                        found_match ==> m == j - 1 && pop_count == n_open - m,
                        !found_match ==> m < 0,
                    decreases j,
                {
                    if tag_id != Some(TAG_TEMPLATE) && self.stack[j - 1].tag_id == Some(TAG_TEMPLATE) {
                        break;
                    }
                    pop_count = pop_count + 1;
                    if Self::closes(&self.stack[j - 1], name.as_slice(), tag_id, builtin) {
                        found_match = true;
                        break;
                    }
                    j = j - 1;
                }
                if found_match {
                    let mut k: usize = 0;
                    assert(st.subrange(0, n_open as int) =~= st);
                    while k < pop_count
                        invariant
                            self.wf(),
                            self.config == old(self).config,
                            self.handed_out() == old(self).handed_out(),
                            self.stack@.len() <= old(self).stack@.len(),
                            k <= pop_count <= n_open == st.len(),
                            self.stack@ == st.subrange(0, n_open - k),
                        decreases pop_count - k,
                    {
                        self.close_node();
                        assert(st.subrange(0, n_open - k).drop_last() =~= st.subrange(0, n_open - k - 1));
                        k = k + 1;
                    }
                }
            }
        }
        self.scan.just_closed_tag = true;
        CloseTagResult { complete: true, new_position: end }
    }

    /// A CDATA section: dropped unless a `#cdata-section` override asks for
    /// it, which then renders its content like an element.
    fn process_cdata_section(&mut self, content: &[u8])
        requires
            old(self).wf(),
        ensures
            final(self).wf(),
            final(self).config == old(self).config,
            final(self).handed_out() == old(self).handed_out(),
            first_override(overrides_of(old(self).options), seq![35u8, 99, 100, 97, 116, 97, 45, 115, 101, 99, 116, 105, 111, 110], 0) is None
                || old(self).overflow is Some || old(self).stack@.len() >= MAX_ELEMENT_DEPTH
                ==> final(self).written() == old(self).written() && final(self).stack@ == old(self).stack@,
            old(self).stack@.len() <= MAX_ELEMENT_DEPTH ==> final(self).stack@.len() <= MAX_ELEMENT_DEPTH,
    {
        let name: [u8; 14] = [35, 99, 100, 97, 116, 97, 45, 115, 101, 99, 116, 105, 111, 110];
        assert(name@ =~= seq![35u8, 99, 100, 97, 116, 97, 45, 115, 101, 99, 116, 105, 111, 110]);
        let ov = match self.find_override(&name) {
            Some(c) => c,
            None => {
                return;
            },
        };
        let tag_id = match ov.alias_tag_id {
            Some(a) => if (a as usize) < MAX_TAG_ID { Some(a) } else { None },
            None => None,
        };
        let self_closing = match ov.is_self_closing {
            Some(b) => b,
            None => match tag_id {
                Some(id) => is_void(id),
                None => false,
            },
        };
        if self.overflow.is_some() || self.stack.len() >= MAX_ELEMENT_DEPTH {
            return;
        }
        let depth = self.stack.len();
        self.open_element(&name, tag_id, None, tag_id.is_some(), Attributes::new(), Some(ov), self_closing);
        if !self_closing && content.len() > 0 {
            self.emit_text(content);
        }
        if self.stack.len() > depth {
            self.close_node();
        }
    }

    /// Script data from `start`: finds its end tag, or where to carry from.
    pub fn process_script_chunk(&mut self, bytes: &[u8], start: usize) -> (r: ScriptChunk)
        requires
            old(self).wf(),
            start <= bytes@.len(),
        ensures
            final(self).wf(),
            final(self).keeps_parse(old(self)),
            final(self).written() == old(self).written(),
            r matches ScriptChunk::Closed(i) ==> start <= i && i + 2 <= bytes@.len() && bytes@[i as int] == 60 && bytes@[i + 1] == 47,
            r matches ScriptChunk::Carry(i) ==> start <= i <= bytes@.len() && (i == bytes@.len() || bytes@[i as int] == 60),
            old(self).stack@.len() <= MAX_ELEMENT_DEPTH ==> final(self).stack@.len() <= MAX_ELEMENT_DEPTH,
    {
        let (boundary, state) = find_script_end_tag(bytes, start, self.scan.script_data_state);
        match boundary {
            ScriptBoundary::Close(i) => {
                self.scan.script_data_state = SCRIPT_DATA;
                ScriptChunk::Closed(i)
            },
            ScriptBoundary::Pending(i) => {
                self.scan.script_data_state = state;
                ScriptChunk::Carry(i)
            },
            ScriptBoundary::Complete => {
                self.scan.script_data_state = state;
                ScriptChunk::Carry(bytes.len())
            },
        }
    }

    /// Text read at this point is written as it comes: an unbounded,
    /// non-incremental conversion, outside raw text, `pre`, excluded or
    /// isolated content, a `title` captured for frontmatter and a `script`,
    /// with no character reference pending.
    pub open spec fn renders_text_plainly(&self) -> bool {
        &&& self.config.streaming_limit is None
        &&& !self.config.incremental_lexing
        &&& !self.config.has_isolate_main
        &&& self.overflow is None
        &&& !self.scan.in_non_nesting
        &&& !self.scan.has_encoded_html_entity
        &&& self.scan.excluded_depth == 0
        &&& self.depth_map@[crate::tags::TAG_PRE as int] == 0
        &&& !(self.stack@.len() > 0 && self.stack@.last().tag_id == Some(TAG_SCRIPT))
        &&& !(self.config.has_frontmatter && self.plugins.frontmatter_in_head && self.stack@.len() > 0
            && self.stack@.last().tag_id == Some(TAG_TITLE))
    }

    /// Processes and empties the collected text.
    fn flush_text(&mut self, text: &mut Vec<u8>)
        requires
            old(self).wf(),
        ensures
            final(self).wf(),
            final(self).config == old(self).config,
            final(self).handed_out() == old(self).handed_out(),
            final(text)@.len() == 0,
            old(self).stack@.len() <= MAX_ELEMENT_DEPTH ==> final(self).stack@.len() <= MAX_ELEMENT_DEPTH,
            old(self).renders_text_plainly() && last_visible(old(text)@, old(text)@.len() as int) >= 0
                ==> final(self).written().len() > 0
                    && final(self).written().last() == old(text)@[last_visible(old(text)@, old(text)@.len() as int)],
            old(self).config.streaming_limit is None ==> final(self).releases_as(old(self))
                && final(self).stack@.len() == old(self).stack@.len(),
            old(text)@.len() == 0 ==> *final(self) == *old(self),
            old(self).renders_text_plainly() ==> embeds(visible_bytes(old(text)@),
                final(self).written().subrange(old(self).written().len() as int, final(self).written().len() as int)),
            old(self).renders_text_plainly() && old(self).config.plain_text ==> visible_bytes(
                final(self).written().subrange(old(self).written().len() as int, final(self).written().len() as int)) == visible_bytes(old(text)@),
    {
        proof {
            if old(text)@.len() == 0 {
                assert(visible_bytes(old(text)@) =~= Seq::<u8>::empty());
            }
        }
        if text.len() > 0 {
            self.process_text_buffer(text);
            text.clear();
        }
    }

    /// Appends a byte to the collected text.
    fn push_text(&mut self, text: &mut Vec<u8>, c: u8) -> (r: bool)
        requires
            old(self).wf(),
        ensures
            final(self).wf(),
            final(self).keeps_parse(old(self)),
            final(self).written() == old(self).written(),
            r ==> final(text)@ == old(text)@.push(c) && final(self).streaming_error == old(self).streaming_error,
            !r ==> final(text)@ == old(text)@ && final(self).streaming_error is Some,
            old(self).config.streaming_limit is None ==> r,
            final(self).scan == old(self).scan,
            old(self).config.streaming_limit is None ==> *final(self) == *old(self),
    {
        match self.config.streaming_limit {
            Some(limit) => {
                if text.len() >= limit {
                    self.fail_streaming(StreamingError::BufferLimitExceeded);
                    return false;
                }
            },
            None => {},
        }
        text.push(c);
        true
    }

    /// A byte of text other than `<` at `i`.
    fn text_step(&mut self, bytes: &[u8], i: usize, text: &mut Vec<u8>) -> (r: Step)
        requires
            old(self).wf(),
            i < bytes@.len(),
        ensures
            final(self).wf(),
            final(self).config == old(self).config,
            final(self).handed_out() == old(self).handed_out(),
            r matches Step::Carry(k) ==> k == i,
            old(self).stack@.len() <= MAX_ELEMENT_DEPTH ==> final(self).stack@.len() <= MAX_ELEMENT_DEPTH,
            old(self).config.streaming_limit is None && !old(self).config.incremental_lexing && old(self).overflow is None
                && !old(self).scan.in_non_nesting && bytes@[i as int] != 38 ==> {
                let c = bytes@[i as int];
                &&& r == Step::Next((i + 1) as usize)
                &&& *final(self) == (ConvertState { scan: final(self).scan, ..*old(self) })
                &&& final(self).scan == (ScanFlags {
                    last_char_was_whitespace: final(self).scan.last_char_was_whitespace,
                    just_closed_tag: final(self).scan.just_closed_tag,
                    text_buffer_contains_non_whitespace: final(self).scan.text_buffer_contains_non_whitespace,
                    text_buffer_contains_whitespace: final(self).scan.text_buffer_contains_whitespace,
                    ..old(self).scan
                })
                &&& (!spec_is_whitespace(c) ==> final(text)@ == old(text)@.push(c))
                &&& (spec_is_whitespace(c) ==> final(text)@ == old(text)@ || (final(text)@.len() == old(text)@.len() + 1
                    && final(text)@.drop_last() == old(text)@ && spec_is_whitespace(final(text)@.last())))
            },
    {
        let n = bytes.len();
        let c = bytes[i];
        let suppressed = match &self.overflow {
            Some(o) => o.suppressed_name.is_some(),
            None => false,
        };
        if suppressed || (self.scan.in_non_nesting && (self.depth_at(TAG_SCRIPT) > 0 || self.depth_at(crate::tags::TAG_STYLE) > 0)) {
            let mut j = i + 1;
            while j < n && bytes[j] != 60
                invariant
                    i < j <= n == bytes@.len(),
                decreases n - j,
            {
                j = j + 1;
            }
            return Step::Next(j);
        }
        if c == 38 {
            let mode = match &self.overflow {
                Some(o) => if o.raw_name.is_some() { o.raw_mode } else { self.text_mode() },
                None => self.text_mode(),
            };
            if mode != TextMode::RawText && mode != TextMode::PlainText {
                if incomplete_entity_at_end(bytes, i) {
                    self.flush_text(text);
                    return Step::Carry(i);
                }
                self.scan.has_encoded_html_entity = true;
            }
        }
        let in_pre = self.in_pre();
        let mut flags = self.scan;
        if is_whitespace(c) {
            if flags.just_closed_tag {
                flags.just_closed_tag = false;
                flags.last_char_was_whitespace = false;
            }
            if !in_pre && flags.last_char_was_whitespace {
                self.scan = flags;
                return Step::Next(i + 1);
            }
            let pushed = if in_pre { c } else { 32 };
            let push = in_pre || c == 32 || !flags.last_char_was_whitespace;
            flags.last_char_was_whitespace = true;
            flags.text_buffer_contains_whitespace = true;
            self.scan = flags;
            if push && !self.push_text(text, pushed) {
                return Step::Next(n);
            }
        } else {
            flags.text_buffer_contains_non_whitespace = true;
            flags.last_char_was_whitespace = false;
            flags.just_closed_tag = false;
            self.scan = flags;
            if !self.push_text(text, c) {
                return Step::Next(n);
            }
            if self.config.incremental_lexing && text.len() >= TEXT_LOOKBEHIND && is_stable_text_byte(c) && !in_pre
                && !self.scan.in_non_nesting && self.text_mode() == TextMode::Data && !recent_reference(text) {
                self.flush_text(text);
            }
        }
        Step::Next(i + 1)
    }

    /// Appends a literal `<` to the text.
    fn literal_lt(&mut self, text: &mut Vec<u8>, i: usize, n: usize) -> (r: Step)
        requires
            old(self).wf(),
            i < n,
        ensures
            final(self).wf(),
            final(self).config == old(self).config,
            final(self).handed_out() == old(self).handed_out(),
            r matches Step::Next(j) ==> j > i,
            !(r is Carry),
            r == Step::Next((i + 1) as usize) && final(text)@ == old(text)@.push(60)
                || r == Step::Next(n) && final(text)@ == old(text)@ && final(self).streaming_error is Some,
            final(self).scan.text_buffer_contains_non_whitespace && !final(self).scan.last_char_was_whitespace
                && !final(self).scan.just_closed_tag,
            old(self).stack@.len() <= MAX_ELEMENT_DEPTH ==> final(self).stack@.len() <= MAX_ELEMENT_DEPTH,
    {
        let mut flags = self.scan;
        flags.text_buffer_contains_non_whitespace = true;
        flags.last_char_was_whitespace = false;
        flags.just_closed_tag = false;
        self.scan = flags;
        if !self.push_text(text, 60) {
            return Step::Next(n);
        }
        Step::Next(i + 1)
    }

    /// `<` inside raw text, RCDATA or an overflowing raw element: only the
    /// matching end tag ends it; anything else is literal text.
    fn raw_lt_step(&mut self, bytes: &[u8], i: usize, text: &mut Vec<u8>) -> (r: Step)
        requires
            old(self).wf(),
            i + 1 < bytes@.len(),
        ensures
            final(self).wf(),
            final(self).config == old(self).config,
            final(self).handed_out() == old(self).handed_out(),
            r matches Step::Carry(k) ==> k == i,
            old(self).stack@.len() <= MAX_ELEMENT_DEPTH ==> final(self).stack@.len() <= MAX_ELEMENT_DEPTH,
    {
        let n = bytes.len();
        let (mode, raw_name, suppressed) = match &self.overflow {
            Some(o) => match &o.raw_name {
                Some(rn) => (o.raw_mode, Some(copy_range(rn.as_slice(), 0, rn.len())), o.suppressed_name.is_some()),
                None => (self.text_mode(), None, false),
            },
            None => (self.text_mode(), None, false),
        };
        if mode != TextMode::PlainText && bytes[i + 1] == 47 {
            let peek_start = i + 2;
            let mut peek_end = peek_start;
            while peek_end < n && !(bytes[peek_end] == 62 || bytes[peek_end] == 47 || is_whitespace(bytes[peek_end]))
                invariant
                    peek_start <= peek_end <= n == bytes@.len(),
                decreases n - peek_end,
            {
                peek_end = peek_end + 1;
            }
            let peek = to_ascii_lowercase(copy_range(bytes, peek_start, peek_end).as_slice());
            let raw_matches = match &raw_name {
                Some(rn) => {
                    if peek_end == n && starts_with_bytes(rn.as_slice(), peek.as_slice()) {
                        return Step::CarryRun;
                    }
                    bytes_eq(rn.as_slice(), peek.as_slice())
                },
                None => false,
            };
            let stack_matches = raw_name.is_none() && {
                let top = self.stack.len();
                top > 0 && match &self.stack[top - 1].custom_name {
                    Some(cn) => bytes_eq(cn.as_slice(), peek.as_slice()),
                    None => self.stack[top - 1].tag_id == get_tag_id_ci_bytes(peek.as_slice()),
                }
            };
            if raw_matches || stack_matches {
                self.flush_text(text);
                let result = if self.overflow.is_some() {
                    self.process_overflow_closing_tag(bytes, i)
                } else {
                    self.process_closing_tag(bytes, i)
                };
                if result.complete {
                    return Step::Next(result.new_position);
                }
                return Step::Carry(i);
            }
        }
        if suppressed {
            return Step::Next(i + 1);
        }
        self.literal_lt(text, i, n)
    }

    /// `<!` at `i`: a CDATA section where recognised, else a comment or doctype.
    fn bang_step(&mut self, bytes: &[u8], i: usize, text: &mut Vec<u8>) -> (r: Step)
        requires
            old(self).wf(),
            i + 1 < bytes@.len(),
        ensures
            final(self).wf(),
            final(self).config == old(self).config,
            final(self).handed_out() == old(self).handed_out(),
            r matches Step::Carry(k) ==> k == i,
            old(self).stack@.len() <= MAX_ELEMENT_DEPTH ==> final(self).stack@.len() <= MAX_ELEMENT_DEPTH,
    {
        let n = bytes.len();
        let cdata_name: [u8; 14] = [35, 99, 100, 97, 116, 97, 45, 115, 101, 99, 116, 105, 111, 110];
        let has_override = self.find_override(&cdata_name).is_some();
        let in_svg = self.in_supported_svg_content();
        let opener: [u8; 9] = [60, 33, 91, 67, 68, 65, 84, 65, 91];
        if has_override || in_svg {
            let rest = copy_range(bytes, i, n);
            if starts_with_bytes(rest.as_slice(), &opener) {
                let start = i + 9;
                let mut j = start;
                let mut close: Option<usize> = None;
                while n - j > 2
                    invariant
                        start <= j <= n == bytes@.len(),
                        close matches Some(c) ==> start <= c && c + 3 <= n,
                    decreases n - j,
                {
                    if bytes[j] == 93 && bytes[j + 1] == 93 && bytes[j + 2] == 62 {
                        close = Some(j);
                        break;
                    }
                    j = j + 1;
                }
                match close {
                    Some(c) => {
                        self.flush_text(text);
                        let content = copy_range(bytes, start, c);
                        if has_override {
                            self.process_cdata_section(content.as_slice());
                        } else if content.len() > 0 {
                            self.process_text_buffer(&content);
                            let last = content[content.len() - 1];
                            let mut flags = self.scan;
                            flags.last_char_was_whitespace = is_whitespace(last);
                            flags.just_closed_tag = false;
                            self.scan = flags;
                        }
                        return Step::Next(c + 3);
                    },
                    None => {
                        return Step::CarryRun;
                    },
                }
            }
            if rest.len() < 9 && starts_with_bytes(&opener, rest.as_slice()) {
                return Step::CarryRun;
            }
        }
        self.flush_text(text);
        let result = process_comment_or_doctype(bytes, i);
        if result.complete {
            Step::Next(result.new_position)
        } else {
            Step::Carry(i)
        }
    }

    /// `</` at `i`.
    fn end_tag_step(&mut self, bytes: &[u8], i: usize, text: &mut Vec<u8>) -> (r: Step)
        requires
            old(self).wf(),
            i + 1 < bytes@.len(),
        ensures
            final(self).wf(),
            final(self).config == old(self).config,
            final(self).handed_out() == old(self).handed_out(),
            r matches Step::Carry(k) ==> k == i,
            old(self).stack@.len() <= MAX_ELEMENT_DEPTH ==> final(self).stack@.len() <= MAX_ELEMENT_DEPTH,
    {
        let n = bytes.len();
        self.flush_text(text);
        if i + 2 >= n {
            return Step::Carry(i);
        }
        let c = bytes[i + 2];
        if c == 62 {
            return Step::Next(i + 3);
        }
        if !is_ascii_alpha(c) {
            let result = process_bogus_comment(bytes, i);
            if result.complete {
                return Step::Next(result.new_position);
            }
            return Step::Carry(i);
        }
        let result = if self.overflow.is_some() {
            self.process_overflow_closing_tag(bytes, i)
        } else {
            self.process_closing_tag(bytes, i)
        };
        if result.complete {
            Step::Next(result.new_position)
        } else {
            Step::Carry(i)
        }
    }

    /// `<` followed by a letter at `i`: a start tag.
    fn start_tag_step(&mut self, bytes: &[u8], i: usize, text: &mut Vec<u8>) -> (r: Step)
        requires
            old(self).wf(),
            i + 1 < bytes@.len(),
        ensures
            final(self).wf(),
            final(self).config == old(self).config,
            final(self).handed_out() == old(self).handed_out(),
            r matches Step::Carry(k) ==> k == i || (i < k <= bytes@.len() && (k == bytes@.len() || bytes@[k as int] == 60)),
            old(self).stack@.len() <= MAX_ELEMENT_DEPTH ==> final(self).stack@.len() <= MAX_ELEMENT_DEPTH,
            name_runs_to_end(bytes@, i + 1) && old(text)@.len() == 0 ==> r == Step::Carry(i) && *final(self) == *old(self),
    {
        let n = bytes.len();
        let mut end = i + 1;
        while end < n && !(is_whitespace(bytes[end]) || bytes[end] == 47 || bytes[end] == 62)
            invariant
                i + 1 <= end <= n == bytes@.len(),
            decreases n - end,
        {
            end = end + 1;
        }
        self.flush_text(text);
        if end == n {
            return Step::Carry(i);
        }
        let raw = copy_range(bytes, i + 1, end);
        let builtin = get_tag_id_ci_bytes(raw.as_slice());
        let name = to_ascii_lowercase(raw.as_slice());
        let alias = self.alias_of(name.as_slice());
        let tag_id = match alias {
            Some(a) => Some(a),
            None => builtin,
        };
        let is_alias = alias.is_some() && alias != builtin;
        let result = self.process_opening_tag(name.as_slice(), tag_id, builtin, is_alias, bytes, end);
        if !result.complete {
            return Step::Carry(i);
        }
        let next = result.new_position;
        if result.skip {
            return Step::Next(next);
        }
        if result.self_closing {
            self.close_node();
            self.scan.just_closed_tag = true;
            return Step::Next(next);
        }
        if builtin == Some(TAG_SCRIPT) && tag_id == Some(TAG_SCRIPT) && next > i && next <= n {
            match self.process_script_chunk(bytes, next) {
                ScriptChunk::Closed(ci) => {
                    return Step::Next(ci);
                },
                ScriptChunk::Carry(from) => {
                    return Step::Carry(from);
                },
            }
        }
        Step::Next(next)
    }

    /// `<` at `i`.
    fn lt_step(&mut self, bytes: &[u8], i: usize, text: &mut Vec<u8>) -> (r: Step)
        requires
            old(self).wf(),
            i < bytes@.len(),
            bytes@[i as int] == 60,
        ensures
            final(self).wf(),
            final(self).config == old(self).config,
            final(self).handed_out() == old(self).handed_out(),
            r matches Step::Carry(k) ==> k == i || (i < k <= bytes@.len() && (k == bytes@.len() || bytes@[k as int] == 60)),
            old(self).stack@.len() <= MAX_ELEMENT_DEPTH ==> final(self).stack@.len() <= MAX_ELEMENT_DEPTH,
            i + 1 < bytes@.len() && spec_is_ascii_alpha(bytes@[i + 1]) && name_runs_to_end(bytes@, i + 1) && old(text)@.len() == 0
                && !old(self).scan.in_non_nesting && old(self).overflow is None
                ==> r == Step::Carry(i) && *final(self) == *old(self),
    {
        let n = bytes.len();
        if i + 1 >= n {
            return Step::CarryRun;
        }
        let raw_overflow = match &self.overflow {
            Some(o) => o.raw_name.is_some(),
            None => false,
        };
        if self.scan.in_non_nesting || raw_overflow {
            return self.raw_lt_step(bytes, i, text);
        }
        let next = bytes[i + 1];
        if next == 33 {
            self.bang_step(bytes, i, text)
        } else if next == 63 {
            self.flush_text(text);
            let result = process_bogus_comment(bytes, i);
            if result.complete {
                Step::Next(result.new_position)
            } else {
                Step::Carry(i)
            }
        } else if next == 47 {
            self.end_tag_step(bytes, i, text)
        } else if is_ascii_alpha(next) {
            self.start_tag_step(bytes, i, text)
        } else {
            self.literal_lt(text, i, n)
        }
    }

    /// `bytes` is a start tag cut short, met in ordinary markup: not in raw
    /// text, an overflow or a `script`, with no error.
    pub open spec fn cut_short_at_start(o: ConvertState, bytes: Seq<u8>) -> bool {
        &&& unfinished_start_tag(bytes)
        &&& o.overflow is None
        &&& !o.scan.in_non_nesting
        &&& o.streaming_error is None
        &&& !(o.stack@.len() > 0 && o.stack@.last().tag_id == Some(TAG_SCRIPT))
    }

    /// Tokenizes `bytes` and returns where the unfinished tail starts: an
    /// incomplete tag, comment or reference, or (while streaming) trailing
    /// text that the next chunk may continue. Everything before it has been
    /// converted.
    pub fn process_bytes(&mut self, bytes: &[u8], incremental: bool) -> (k: usize)
        requires
            old(self).wf(),
        ensures
            final(self).wf(),
            final(self).config == old(self).config,
            final(self).handed_out() == old(self).handed_out(),
            k <= bytes@.len(),
            k == 0 || k == bytes@.len() || !is_continuation_byte(bytes@[k as int]),
            final(self).streaming_error is Some ==> k == bytes@.len(),
            bytes@.len() == 0 ==> k == 0,
            old(self).stack@.len() <= MAX_ELEMENT_DEPTH ==> final(self).stack@.len() <= MAX_ELEMENT_DEPTH,
            old(self).renders_text_plainly() && !incremental && plain_bytes(bytes@) ==> k == bytes@.len()
                && final(self).releases_as(old(self)) && final(self).stack@.len() == old(self).stack@.len(),
            Self::cut_short_at_start(*old(self), bytes@) ==> k == 0 && *final(self) == *old(self),
            old(self).renders_text_plainly() && !incremental && plain_bytes(bytes@) ==> embeds(visible_bytes(bytes@),
                final(self).written().subrange(old(self).written().len() as int, final(self).written().len() as int)),
            old(self).renders_text_plainly() && old(self).config.plain_text && !incremental && plain_bytes(bytes@) ==> visible_bytes(
                final(self).written().subrange(old(self).written().len() as int, final(self).written().len() as int)) == visible_bytes(bytes@),
            old(self).renders_text_plainly() && !incremental && plain_bytes(bytes@) && last_visible(bytes@, bytes@.len() as int) >= 0
                ==> final(self).written().len() > 0
                    && final(self).written().last() == bytes@[last_visible(bytes@, bytes@.len() as int)],
    {
        let ghost plain = old(self).renders_text_plainly() && !incremental && plain_bytes(bytes@);
        let ghost cut = Self::cut_short_at_start(*old(self), bytes@);
        let n = bytes.len();
        let mut text: Vec<u8> = Vec::new();
        let mut i: usize = 0;
        let mut run_start: usize = 0;
        let mut snap = self.scan;
        let mut carry: Option<usize> = None;
        let top = self.stack.len();
        if self.overflow.is_none() && top > 0 && self.stack[top - 1].tag_id == Some(TAG_SCRIPT)
            && self.stack[top - 1].custom_name.is_none() {
            match self.process_script_chunk(bytes, 0) {
                ScriptChunk::Closed(ci) => {
                    i = ci;
                },
                ScriptChunk::Carry(from) => {
                    carry = Some(from);
                    i = n;
                },
            }
        }
        while i < n && self.streaming_error.is_none() && carry.is_none()
            invariant
                self.wf(),
                i <= n == bytes@.len(),
                run_start <= n,
                carry matches Some(c) ==> c <= n,
                self.config == old(self).config,
                self.handed_out() == old(self).handed_out(),
                old(self).stack@.len() <= MAX_ELEMENT_DEPTH ==> self.stack@.len() <= MAX_ELEMENT_DEPTH,
                plain == (old(self).renders_text_plainly() && !incremental && plain_bytes(bytes@)),
                plain ==> carry is None && self.renders_text_plainly() && self.streaming_error is None
                    && same_last_visible(text@, bytes@, i as int) && self.releases_as(old(self))
                    && self.stack@.len() == old(self).stack@.len() && self.written() == old(self).written()
                    && visible_bytes(text@) == visible_bytes(bytes@.subrange(0, i as int)),
                cut == Self::cut_short_at_start(*old(self), bytes@),
                cut ==> *self == *old(self) && (i == 0 && carry is None && text@.len() == 0 || carry == Some(0usize)),
            ensures
                plain ==> i == n,
                cut ==> *self == *old(self) && carry == Some(0usize),
            decreases n - i, (if carry is None { 1int } else { 0int }),
        {
            if text.len() == 0 {
                run_start = i;
                snap = self.scan;
            }
            let raw_script = match &self.overflow {
                Some(o) => o.raw_is_script,
                None => false,
            };
            if raw_script {
                let (boundary, state) = find_script_end_tag(bytes, i, self.scan.script_data_state);
                self.scan.script_data_state = state;
                match boundary {
                    ScriptBoundary::Close(ci) => {
                        i = ci;
                    },
                    ScriptBoundary::Pending(p) => {
                        carry = Some(p);
                        break;
                    },
                    ScriptBoundary::Complete => {
                        i = n;
                        break;
                    },
                }
            }
            let ghost text0 = text@;
            let step = if bytes[i] == 60 {
                self.lt_step(bytes, i, &mut text)
            } else {
                self.text_step(bytes, i, &mut text)
            };
            proof {
                if plain {
                    lemma_same_last_visible_step(text0, text@, bytes@, i as int);
                    assert(bytes@.subrange(0, i + 1).drop_last() =~= bytes@.subrange(0, i as int));
                    if text@.len() > text0.len() {
                        assert(text@.drop_last() =~= text0);
                    }
                }
            }
            match step {
                Step::Next(j) => {
                    i = if j > i && j <= n { j } else { i + 1 };
                },
                Step::Carry(k) => {
                    text.clear();
                    carry = Some(if k <= n { k } else { n });
                },
                Step::CarryRun => {
                    text.clear();
                    self.scan = snap;
                    carry = Some(run_start);
                },
            }
        }
        if self.streaming_error.is_some() {
            return n;
        }
        if carry.is_none() && incremental && text.len() > 0 {
            text.clear();
            self.scan = snap;
            carry = Some(run_start);
        }
        proof {
            if plain {
                assert(i == n);
                assert(same_last_visible(text@, bytes@, n as int));
                assert(bytes@.subrange(0, n as int) =~= bytes@);
            }
        }
        let mut k = match carry {
            Some(c) => c,
            None => {
                self.flush_text(&mut text);
                n
            },
        };
        while k > 0 && k < n && 0x80 <= bytes[k] && bytes[k] <= 0xBF
            invariant
                k <= n == bytes@.len(),
                plain ==> k == n,
                cut ==> k == 0,
                self.streaming_error is Some ==> k == n,
                old(self).stack@.len() <= MAX_ELEMENT_DEPTH ==> self.stack@.len() <= MAX_ELEMENT_DEPTH,
            decreases k,
        {
            k = k - 1;
        }
        k
    }

    /// Converts a chunk of HTML and returns its unfinished tail, to be put
    /// in front of the next chunk (or handed to `finalize`).
    pub fn process_html(&mut self, chunk: &str) -> (r: String)
        requires
            old(self).wf(),
        ensures
            final(self).wf(),
            final(self).config == old(self).config,
            final(self).handed_out() == old(self).handed_out(),
            r@.len() <= chunk@.len(),
            r@ == chunk@.subrange(chunk@.len() - r@.len(), chunk@.len() as int),
            final(self).streaming_error is Some ==> r@.len() == 0,
            old(self).stack@.len() <= MAX_ELEMENT_DEPTH ==> final(self).stack@.len() <= MAX_ELEMENT_DEPTH,
            old(self).renders_text_plainly() && plain_bytes(chunk.spec_bytes()) ==> r@.len() == 0
                && final(self).releases_as(old(self)) && final(self).stack@.len() == old(self).stack@.len(),
            old(self).renders_text_plainly() && plain_bytes(chunk.spec_bytes()) ==> embeds(visible_bytes(chunk.spec_bytes()),
                final(self).written().subrange(old(self).written().len() as int, final(self).written().len() as int)),
            old(self).renders_text_plainly() && old(self).config.plain_text && plain_bytes(chunk.spec_bytes()) ==> visible_bytes(
                final(self).written().subrange(old(self).written().len() as int, final(self).written().len() as int))
                    == visible_bytes(chunk.spec_bytes()),
            old(self).renders_text_plainly() && plain_bytes(chunk.spec_bytes())
                && last_visible(chunk.spec_bytes(), chunk.spec_bytes().len() as int) >= 0
                ==> final(self).written().len() > 0
                    && final(self).written().last() == chunk.spec_bytes()[last_visible(chunk.spec_bytes(), chunk.spec_bytes().len() as int)],
    {
        let bytes = chunk.as_bytes();
        let k = self.process_bytes(bytes, self.config.incremental_lexing);
        proof {
            let b = chunk.spec_bytes();
            vstd::utf8::encode_utf8_valid_utf8(chunk@);
            vstd::utf8::is_char_boundary_start_end_of_seq(b);
            if k != 0 && k != b.len() {
                vstd::utf8::is_char_boundary_iff_not_is_continuation_byte(b, k as int);
            }
            assert(is_char_boundary(b, k as int));
        }
        let (head, tail) = chunk.split_at(k);
        let r = tail.to_owned();
        proof {
            let b = chunk.spec_bytes();
            vstd::utf8::decode_utf8_split(b, k as int);
            vstd::utf8::encode_utf8_decode_utf8(chunk@);
            vstd::utf8::encode_utf8_decode_utf8(tail@);
            vstd::utf8::encode_utf8_decode_utf8(head@);
            assert(decode_utf8(encode_utf8(chunk@)) == chunk@);
            assert(tail@ == decode_utf8(b.subrange(k as int, b.len() as int)));
            assert(head@ == decode_utf8(b.subrange(0, k as int)));
            assert(chunk@ == head@ + tail@);
            assert(chunk@.subrange(chunk@.len() - tail@.len(), chunk@.len() as int) =~= tail@);
        }
        r
    }

    /// Ends the input: converts what `leftover` still holds (an unfinished
    /// start tag at the very end is dropped, as a browser drops it; other
    /// unfinished constructs are text) and closes every open element.
    pub fn finalize(&mut self, leftover: &str)
        requires
            old(self).wf(),
        ensures
            final(self).wf(),
            final(self).config == old(self).config,
            final(self).handed_out() == old(self).handed_out(),
            final(self).streaming_error is None ==> final(self).stack@.len() == 0,
            Self::first_close_markup(*old(self), leftover@.len() == 0) matches Some(m)
                ==> grows_from(old(self).written() + m, final(self).written()),
            old(self).stack@.len() == 0 && (leftover@.len() == 0 || Self::cut_short_at_start(*old(self), leftover.spec_bytes()))
                ==> *final(self) == *old(self),
    {
        let ghost untouched = old(self).stack@.len() == 0
            && (leftover@.len() == 0 || Self::cut_short_at_start(*old(self), leftover.spec_bytes()));
        let bytes = leftover.as_bytes();
        let top = self.stack.len();
        let in_script = self.overflow.is_none() && top > 0 && self.stack[top - 1].tag_id == Some(TAG_SCRIPT)
            && self.stack[top - 1].custom_name.is_none();
        if in_script {
            self.scan.script_data_state = SCRIPT_DATA;
        } else if bytes.len() > 0 {
            let k = self.process_bytes(bytes, false);
            let rest = copy_range(bytes, k, bytes.len());
            let suppressed = match &self.overflow {
                Some(o) => o.suppressed_name.is_some(),
                None => false,
            };
            if rest.len() > 0 && !suppressed && self.rest_is_text(rest.as_slice()) {
                if rest[0] == 60 {
                    let mut flags = self.scan;
                    flags.text_buffer_contains_non_whitespace = true;
                    flags.last_char_was_whitespace = false;
                    self.scan = flags;
                }
                self.scan.has_encoded_html_entity = true;
                self.process_text_buffer(&rest);
            }
        }
        let ghost first = Self::first_close_markup(*old(self), leftover@.len() == 0);
        while self.stack.len() > 0 && self.streaming_error.is_none()
            invariant
                self.wf(),
                self.config == old(self).config,
                self.handed_out() == old(self).handed_out(),
                first == Self::first_close_markup(*old(self), leftover@.len() == 0),
                untouched == (old(self).stack@.len() == 0
                    && (leftover@.len() == 0 || Self::cut_short_at_start(*old(self), leftover.spec_bytes()))),
                untouched ==> *self == *old(self),
                first matches Some(m) ==> ({
                    ||| (self.stack@ == old(self).stack@ && self.written() == old(self).written() && self.lines == old(self).lines
                        && self.scan.excluded_depth == old(self).scan.excluded_depth && self.depth_map@ == old(self).depth_map@)
                    ||| grows_from(old(self).written() + m, self.written())
                }),
            decreases self.stack@.len(),
        {
            let ghost at_start = self.stack@ == old(self).stack@ && self.written() == old(self).written()
                && self.lines == old(self).lines && self.scan.excluded_depth == old(self).scan.excluded_depth
                && self.depth_map@ == old(self).depth_map@;
            let ghost before = self.depth_map@;
            self.close_node();
            proof {
                if first is Some && at_start {
                    let pre = crate::tags::TAG_PRE as int;
                    assert(pre < before.len());
                    assert(self.depth_map@[pre] == (if old(self).stack@.last().tag_id == Some(crate::tags::TAG_PRE) && before[pre] > 0 {
                        before[pre] - 1 } else { before[pre] as int }));
                }
            }
        }
    }

    /// What closing the innermost element `o` has open writes at the end of
    /// the input (`leftover_empty`: nothing left to convert), when that is
    /// known from the element alone: unbounded, the element rendered, and no
    /// frontmatter block due at a closing `head`.
    pub open spec fn first_close_markup(o: ConvertState, leftover_empty: bool) -> Option<Seq<u8>> {
        let n = o.stack@.len();
        let top = o.stack@.last();
        let pre = o.depth_map@[crate::tags::TAG_PRE as int];
        let pre_after = if top.tag_id == Some(crate::tags::TAG_PRE) && pre > 0 { pre - 1 } else { pre as int };
        if leftover_empty && o.config.streaming_limit is None && n > 0 && !top.excluded_from_markdown
            && o.scan.excluded_depth == 0 && !(o.config.has_frontmatter && top.tag_id == Some(TAG_HEAD)) {
            exit_markup(top, !(o.lines.pending_opens@.len() > 0 && o.lines.pending_opens@.last().0 == n - 1),
                o.config.plain_text, pre_after > 0, o.lines.line_prefix@)
        } else {
            None
        }
    }

    /// Whether an unfinished tail at the end of the input is text: anything
    /// not starting with `<`, or a `<` that cannot start a tag here.
    fn rest_is_text(&self, rest: &[u8]) -> (r: bool)
        requires
            rest@.len() > 0,
        ensures
            r == (rest@[0] != 60 || self.overflow is Some || self.scan.in_non_nesting
                || (self.tokenizer_contexts@.len() > 0 && self.tokenizer_contexts@.last().text_mode != TextMode::Data)
                || rest@.len() == 1 || (rest@.len() == 2 && rest@[1] == 47)
                || !(spec_is_ascii_alpha(rest@[1]) || rest@[1] == 33 || rest@[1] == 47 || rest@[1] == 63)),
    {
        if rest[0] != 60 || self.overflow.is_some() || self.scan.in_non_nesting {
            return true;
        }
        match self.text_mode() {
            TextMode::Data => {},
            _ => {
                return true;
            },
        }
        if rest.len() == 1 || (rest.len() == 2 && rest[1] == 47) {
            return true;
        }
        let next = rest[1];
        !is_ascii_alpha(next) && next != 33 && next != 47 && next != 63
    }
}

/// A byte after which collected text can be rendered without waiting for
/// what follows: printable ASCII that is neither `&` nor Markdown-sensitive.
fn is_stable_text_byte(c: u8) -> (r: bool)
    ensures
        r == (33 <= c < 128 && !spec_is_inline_gfm_hazard(c)),
{
    33 <= c && c < 128 && !is_inline_gfm_hazard(c)
}

/// Whether an `&` stands among the last bytes of `text`, close enough to the
/// end to begin a character reference that is still being read.
fn recent_reference(text: &Vec<u8>) -> (r: bool)
    ensures
        r == exists|k: int| text@.len() - 40 <= k < text@.len() && 0 <= k && text@[k] == 38,
{
    let n = text.len();
    let from = if n > 40 { n - 40 } else { 0 };
    let mut k = from;
    while k < n
        invariant
            from <= k <= n == text@.len(),
            from >= n - 40,
            from == 0 || from == n - 40,
            forall|j: int| from <= j < k ==> text@[j] != 38,
        decreases n - k,
    {
        if text[k] == 38 {
            assert(text@.len() - 40 <= k < text@.len() && 0 <= k && text@[k as int] == 38);
            return true;
        }
        k = k + 1;
    }
    false
}

/// The delimiter an emphasis element is written with by default: what a
/// tag override that sets only one side keeps for the other.
fn default_marker(render: Render) -> (r: Option<Vec<u8>>)
    ensures
        match render {
            Render::Emphasis(kind) => r is Some && r.unwrap()@ == (if kind == 1 { seq![42u8] }
                else if kind == 2 { seq![42u8, 42] } else { seq![126u8, 126] }),
            _ => r is None,
        },
{
    match render {
        Render::Emphasis(kind) => {
            let mut m: Vec<u8> = Vec::new();
            if kind == 1 {
                m.push(42);
            } else if kind == 2 {
                m.push(42);
                m.push(42);
            } else {
                m.push(126);
                m.push(126);
            }
            Some(m)
        },
        _ => None,
    }
}

/// The tag overrides the options configure, in order.
pub open spec fn overrides_of(o: HTMLToMarkdownOptions) -> Seq<(String, TagOverrideConfig)> {
    match o.plugins {
        Some(p) => match p.tag_overrides {
            Some(v) => v@,
            None => Seq::empty(),
        },
        None => Seq::empty(),
    }
}

/// The first override from position `k` on whose tag name is `name`.
pub open spec fn first_override(ovs: Seq<(String, TagOverrideConfig)>, name: Seq<u8>, k: int) -> Option<TagOverrideConfig>
    decreases ovs.len() - k,
{
    if k < 0 || k >= ovs.len() {
        None
    } else if encode_utf8(ovs[k].0@) == name {
        Some(ovs[k].1)
    } else {
        first_override(ovs, name, k + 1)
    }
}

fn copy_text(o: &Option<String>) -> (r: Option<String>)
    ensures
        r == *o,
{
    match o {
        Some(t) => Some(t.clone()),
        None => None,
    }
}

/// A copy of an override, field by field.
fn copy_override(c: &TagOverrideConfig) -> (r: TagOverrideConfig)
    ensures
        r == *c,
{
    TagOverrideConfig {
        enter: copy_text(&c.enter),
        exit: copy_text(&c.exit),
        spacing: c.spacing,
        is_inline: c.is_inline,
        is_self_closing: c.is_self_closing,
        collapses_inner_white_space: c.collapses_inner_white_space,
        alias_tag_id: c.alias_tag_id,
    }
}

/// Whether a `<meta>` field named `name` goes into the frontmatter: the
/// standard description, keywords, author, date and Open Graph and Twitter
/// title and description, and the fields the options add.
pub open spec fn meta_field_allowed(o: HTMLToMarkdownOptions, name: Seq<u8>) -> bool {
    name == seq![100u8, 101, 115, 99, 114, 105, 112, 116, 105, 111, 110]
        || name == seq![107u8, 101, 121, 119, 111, 114, 100, 115]
        || name == seq![97u8, 117, 116, 104, 111, 114]
        || name == seq![100u8, 97, 116, 101]
        || name == seq![111u8, 103, 58, 116, 105, 116, 108, 101]
        || name == seq![111u8, 103, 58, 100, 101, 115, 99, 114, 105, 112, 116, 105, 111, 110]
        || name == seq![116u8, 119, 105, 116, 116, 101, 114, 58, 116, 105, 116, 108, 101]
        || name == seq![116u8, 119, 105, 116, 116, 101, 114, 58, 100, 101, 115, 99, 114, 105, 112, 116, 105, 111, 110]
        || (o.plugins matches Some(p) && p.frontmatter matches Some(f) && f.meta_fields matches Some(list)
            && listed_field(list@, name))
}

/// Whether `name` is one of the field names in `list`.
pub open spec fn listed_field(list: Seq<String>, name: Seq<u8>) -> bool {
    exists|j: int| 0 <= j < list.len() && #[trigger] encode_utf8(list[j]@) == name
}

} // verus!
