//! Markdown (or plain text) for elements and text.
//!
//! Nothing written is ever taken back: a space between words, the line
//! breaks between blocks and the opening delimiter of an element are held
//! as pending until visible content follows, so empty elements leave no
//! trace and the output never ends in a separator that a later step would
//! have to remove.

use vstd::prelude::*;
use crate::attributes::{lookup, Attributes};
use crate::chars::{is_ascii_alnum, is_ascii_alpha, is_whitespace};
use crate::tags::{TAG_H1, TAG_H2, TAG_H3, TAG_H4, TAG_H5, TAG_H6, TAG_PRE, TAG_TD, TAG_TH};
use crate::types::StreamingError;
use super::{grows_from, ConvertState, Pen};
use super::handlers::is_inline_gfm_hazard;
use super::node::{ElementNode, Render};

verus! {

const HREF: [u8; 4] = [104, 114, 101, 102];
const TITLE: [u8; 5] = [116, 105, 116, 108, 101];
const ARIA_LABEL: [u8; 10] = [97, 114, 105, 97, 45, 108, 97, 98, 101, 108];
const SRC: [u8; 3] = [115, 114, 99];
const ALT: [u8; 3] = [97, 108, 116];

impl ConvertState {
    fn depth_of(&self, id: u8) -> (r: u16)
        requires
            self.wf(),
        ensures
            r == (if (id as int) < self.depth_map@.len() { self.depth_map@[id as int] } else { 0 }),
    {
        if (id as usize) < self.depth_map.len() {
            self.depth_map[id as usize]
        } else {
            0
        }
    }

    pub fn in_table_cell(&self) -> (r: bool)
        requires
            self.wf(),
        ensures
            r == (self.depth_map@[TAG_TD as int] > 0 || self.depth_map@[TAG_TH as int] > 0),
    {
        self.depth_of(TAG_TD) > 0 || self.depth_of(TAG_TH) > 0
    }

    pub fn in_heading(&self) -> (r: bool)
        requires
            self.wf(),
        ensures
            r == (self.depth_map@[TAG_H1 as int] > 0 || self.depth_map@[TAG_H2 as int] > 0 || self.depth_map@[TAG_H3 as int] > 0
                || self.depth_map@[TAG_H4 as int] > 0 || self.depth_map@[TAG_H5 as int] > 0 || self.depth_map@[TAG_H6 as int] > 0),
    {
        self.depth_of(TAG_H1) > 0 || self.depth_of(TAG_H2) > 0 || self.depth_of(TAG_H3) > 0
            || self.depth_of(TAG_H4) > 0 || self.depth_of(TAG_H5) > 0 || self.depth_of(TAG_H6) > 0
    }

    pub fn in_pre(&self) -> (r: bool)
        requires
            self.wf(),
        ensures
            r == (self.depth_map@[TAG_PRE as int] > 0),
    {
        self.depth_of(TAG_PRE) > 0
    }

    fn push_byte(&mut self, c: u8) -> (r: bool)
        requires
            old(self).wf(),
        ensures
            final(self).wf(),
            final(self).keeps_parse(old(self)),
            r ==> final(self).written() == old(self).written().push(c),
            !r ==> final(self).written() == old(self).written(),
            old(self).streaming_error is None && old(self).config.streaming_limit is None ==> r
                && final(self).streaming_error is None,
            final(self).pen == old(self).pen,
            final(self).lines == old(self).lines,
            grows_from(old(self).written(), final(self).written()),
    {
        let one: [u8; 1] = [c];
        assert(one@ =~= seq![c]);
        let r = self.push_output_bytes(&one);
        assert(old(self).written() + seq![c] =~= old(self).written().push(c));
        r
    }

    /// Whether the innermost pending opening belongs to a list item or a
    /// heading.
    pub open spec fn marker_pending(&self) -> bool {
        self.lines.pending_opens@.len() > 0 && {
            let idx = self.lines.pending_opens@.last().0;
            idx < self.stack@.len() && (self.stack@[idx as int].render is Item || self.stack@[idx as int].render is Heading)
        }
    }

    /// Whether the innermost pending opening belongs to a list item or a
    /// heading, whose own line starts where its first content goes.
    fn block_marker_pending(&self) -> (r: bool)
        requires
            self.wf(),
        ensures
            r == self.marker_pending(),
    {
        if self.lines.pending_opens.len() == 0 {
            return false;
        }
        let (idx, _) = self.lines.pending_opens[self.lines.pending_opens.len() - 1];
        if idx < self.stack.len() {
            match self.stack[idx].render {
                Render::Item => true,
                Render::Heading(_) => true,
                _ => false,
            }
        } else {
            false
        }
    }

    /// Asks for `n` line breaks before the next content. Inside a table cell
    /// or a heading, which stay on one line, a break becomes a space.
    pub fn request_break(&mut self, n: u8)
        requires
            old(self).wf(),
        ensures
            final(self).wf(),
            final(self).keeps_parse(old(self)),
            final(self).written() == old(self).written(),
            ({
                let d = old(self).depth_map@;
                let one_line = d[TAG_TD as int] > 0 || d[TAG_TH as int] > 0 || d[TAG_H1 as int] > 0 || d[TAG_H2 as int] > 0
                    || d[TAG_H3 as int] > 0 || d[TAG_H4 as int] > 0 || d[TAG_H5 as int] > 0 || d[TAG_H6 as int] > 0;
                final(self).pen == (if one_line {
                    if old(self).pen.wrote_any && !old(self).pen.at_line_start {
                        Pen { pending_space: true, ..old(self).pen }
                    } else {
                        old(self).pen
                    }
                } else if old(self).marker_pending() {
                    old(self).pen
                } else {
                    Pen {
                        pending_breaks: if n > old(self).pen.pending_breaks { n } else { old(self).pen.pending_breaks },
                        pending_space: false,
                        ..old(self).pen
                    }
                })
            }),
            final(self).lines == old(self).lines,
            final(self).streaming_error == old(self).streaming_error,
    {
        if self.in_table_cell() || self.in_heading() {
            if self.pen.wrote_any && !self.pen.at_line_start {
                self.pen.pending_space = true;
            }
            return;
        }
        if self.block_marker_pending() {
            return;
        }
        if n > self.pen.pending_breaks {
            self.pen.pending_breaks = n;
        }
        self.pen.pending_space = false;
    }

    /// The line prefix without its trailing spaces, for blank lines.
    fn push_trimmed_prefix(&mut self) -> (r: bool)
        requires
            old(self).wf(),
        ensures
            final(self).wf(),
            final(self).keeps_parse(old(self)),
            r ==> final(self).written() == old(self).written()
                + old(self).lines.line_prefix@.subrange(0, without_trailing_spaces(old(self).lines.line_prefix@, old(self).lines.line_prefix@.len() as int)),
            !r ==> final(self).written() == old(self).written(),
            old(self).streaming_error is None && old(self).config.streaming_limit is None ==> r
                && final(self).streaming_error is None,
            final(self).pen == old(self).pen,
            final(self).lines == old(self).lines,
            grows_from(old(self).written(), final(self).written()),
    {
        let mut end = self.lines.line_prefix.len();
        while end > 0 && self.lines.line_prefix[end - 1] == 32
            invariant
                end <= self.lines.line_prefix@.len(),
                without_trailing_spaces(self.lines.line_prefix@, self.lines.line_prefix@.len() as int)
                    == without_trailing_spaces(self.lines.line_prefix@, end as int),
            decreases end,
        {
            end = end - 1;
        }
        let p = crate::text::copy_range(self.lines.line_prefix.as_slice(), 0, end);
        self.push_output_bytes(p.as_slice())
    }

    fn push_line_prefix(&mut self) -> (r: bool)
        requires
            old(self).wf(),
        ensures
            final(self).wf(),
            final(self).keeps_parse(old(self)),
            r ==> final(self).written() == old(self).written() + old(self).lines.line_prefix@,
            !r ==> final(self).written() == old(self).written(),
            old(self).streaming_error is None && old(self).config.streaming_limit is None ==> r
                && final(self).streaming_error is None,
            final(self).pen == old(self).pen,
            final(self).lines == old(self).lines,
            grows_from(old(self).written(), final(self).written()),
    {
        let p = crate::text::copy_range(self.lines.line_prefix.as_slice(), 0, self.lines.line_prefix.len());
        assert(p@ =~= self.lines.line_prefix@);
        self.push_output_bytes(p.as_slice())
    }

    /// Writes the opening delimiter of the open element at `idx`; `number`
    /// is the number of an ordered list item (0 for a bullet).
    #[verifier::rlimit(50)]
    #[verifier::spinoff_prover]
    fn write_open(&mut self, idx: usize, number: usize) -> (r: bool)
        requires
            old(self).wf(),
        ensures
            final(self).wf(),
            final(self).keeps_parse(old(self)),
            final(self).lines.table_cells@ == old(self).lines.table_cells@,
            final(self).lines.list_counters@ == old(self).lines.list_counters@,
            final(self).lines.pending_opens@ == old(self).lines.pending_opens@,
            final(self).pen.pending_breaks == old(self).pen.pending_breaks,
            final(self).pen.pending_space == old(self).pen.pending_space,
            final(self).pen.at_line_start == old(self).pen.at_line_start,
            final(self).pen.wrote_any == old(self).pen.wrote_any,
            old(self).streaming_error is None && old(self).config.streaming_limit is None ==> r
                && final(self).streaming_error is None,
            grows_from(old(self).written(), final(self).written()),
            old(self).config.plain_text ==> final(self).written() == old(self).written() && final(self).lines == old(self).lines,
            r && !old(self).config.plain_text && idx < old(self).stack@.len() ==> (old(self).stack@[idx as int].render matches Render::Heading(level)
                ==> final(self).written() == old(self).written() + repeat_bytes(seq![35u8], level as nat) + seq![32u8]),
            r && !old(self).config.plain_text && idx < old(self).stack@.len() ==> final(self).written() == old(self).written() + (
                match old(self).stack@[idx as int].render {
                    Render::Emphasis(1) => seq![42u8],
                    Render::Emphasis(2) => seq![42u8, 42],
                    Render::Emphasis(_) => seq![126u8, 126],
                    Render::Code => seq![96u8],
                    Render::Link => seq![91u8],
                    Render::Pre => seq![96u8, 96, 96, 10] + old(self).lines.line_prefix@,
                    Render::Heading(level) => repeat_bytes(seq![35u8], level as nat) + seq![32u8],
                    _ => final(self).written().subrange(old(self).written().len() as int, final(self).written().len() as int),
                }),
    {
        if idx >= self.stack.len() {
            return true;
        }
        let render = self.stack[idx].render;
        if self.config.plain_text {
            if let Render::Pre = render {
                self.pen.pre_open = true;
            }
            return true;
        }
        match render {
            Render::Heading(level) => {
                assert(old(self).written() + repeat_bytes(seq![35u8], 0nat) =~= old(self).written());
                let mut k: u8 = 0;
                while k < level
                    invariant
                        !old(self).config.plain_text,
                        self.wf(),
                        self.keeps_parse(old(self)),
                        self.lines == old(self).lines,
                        self.pen == old(self).pen,
                        old(self).streaming_error is None && old(self).config.streaming_limit is None ==> self.streaming_error is None,
                        grows_from(old(self).written(), self.written()),
                        k <= level,
                        self.written() == old(self).written() + repeat_bytes(seq![35u8], k as nat),
                    decreases level - k,
                {
                    if !self.push_byte(35) {
                        return false;
                    }
                    assert(old(self).written() + repeat_bytes(seq![35u8], (k + 1) as nat)
                        =~= (old(self).written() + repeat_bytes(seq![35u8], k as nat)).push(35u8));
                    k = k + 1;
                }
                self.push_byte(32)
            },
            Render::Item => {
                let mut marker: Vec<u8> = Vec::new();
                if number > 0 {
                    crate::digits::push_digits(&mut marker, if number > 0xFFFF_FFFF { 0xFFFF_FFFFu32 } else { number as u32 }, false);
                    marker.push(46);
                    marker.push(32);
                } else {
                    marker.push(45);
                    marker.push(32);
                }
                if !self.push_output_bytes(marker.as_slice()) {
                    return false;
                }
                self.lines.prefix_lens.push(self.lines.line_prefix.len());
                let mut k: usize = 0;
                while k < marker.len()
                    invariant
                        !old(self).config.plain_text,
                        self.wf(),
                        self.keeps_parse(old(self)),
                        self.lines.table_cells@ == old(self).lines.table_cells@,
                        self.lines.list_counters@ == old(self).lines.list_counters@,
                        self.lines.pending_opens@ == old(self).lines.pending_opens@,
                        self.pen == old(self).pen,
                        old(self).streaming_error is None && old(self).config.streaming_limit is None ==> self.streaming_error is None,
                        grows_from(old(self).written(), self.written()),
                    decreases marker@.len() - k,
                {
                    self.lines.line_prefix.push(32);
                    k = k + 1;
                }
                true
            },
            Render::Pre => {
                let fence: [u8; 3] = [96, 96, 96];
                if !self.push_output_bytes(&fence) || !self.push_byte(10) {
                    return false;
                }
                self.pen.pre_open = true;
                self.pen.pre_newlines = 0;
                self.push_line_prefix()
            },
            Render::Code => self.push_byte(96),
            Render::Emphasis(kind) => {
                if kind == 1 {
                    self.push_byte(42)
                } else if kind == 2 {
                    let m: [u8; 2] = [42, 42];
                    self.push_output_bytes(&m)
                } else {
                    let m: [u8; 2] = [126, 126];
                    self.push_output_bytes(&m)
                }
            },
            Render::Link => self.push_byte(91),
            Render::Custom => {
                match &self.stack[idx].enter {
                    Some(e) => {
                        let e2 = e.clone();
                        self.push_output_bytes(e2.as_slice())
                    },
                    None => true,
                }
            },
            _ => true,
        }
    }

    /// Appending whitespace (a newline, a space or a blank line prefix) keeps
    /// everything written since `o` blank.
    proof fn lemma_blank_grow(w0: Seq<u8>, w1: Seq<u8>, o: int)
        requires
            0 <= o <= w0.len(),
            grows_from(w0, w1),
            all_blank(w0.subrange(o, w0.len() as int)),
            all_blank(w1.subrange(w0.len() as int, w1.len() as int)),
        ensures
            all_blank(w1.subrange(o, w1.len() as int)),
    {
        assert forall|k: int| 0 <= k < w1.len() - o implies is_whitespace(#[trigger] w1.subrange(o, w1.len() as int)[k]) by {
            if o + k < w0.len() {
                assert(w1[o + k] == w0[o + k]);
                assert(w0.subrange(o, w0.len() as int)[k] == w0[o + k]);
            } else {
                assert(w1.subrange(w0.len() as int, w1.len() as int)[o + k - w0.len()] == w1[o + k]);
            }
        }
    }

    /// Flushes what is pending before visible content: line breaks, the line
    /// prefix, a space (or a wrapped line), and opening delimiters.
    #[verifier::rlimit(60)]
    #[verifier::spinoff_prover]
    pub fn begin_content(&mut self) -> (r: bool)
        requires
            old(self).wf(),
        ensures
            final(self).wf(),
            final(self).keeps_parse(old(self)),
            final(self).lines.table_cells@ == old(self).lines.table_cells@,
            final(self).lines.list_counters@ == old(self).lines.list_counters@,
            r ==> final(self).pen.pending_breaks == 0 && !final(self).pen.pending_space && !final(self).pen.at_line_start
                && final(self).pen.wrote_any && final(self).lines.pending_opens@.len() == 0,
            old(self).streaming_error is None && old(self).config.streaming_limit is None ==> r
                && final(self).streaming_error is None,
            grows_from(old(self).written(), final(self).written()),
            old(self).config.plain_text && all_blank(old(self).lines.line_prefix@) ==> final(self).lines.line_prefix@ == old(self).lines.line_prefix@
                && all_blank(final(self).written().subrange(old(self).written().len() as int, final(self).written().len() as int)),
    {
        let ghost ok = old(self).streaming_error is None && old(self).config.streaming_limit is None;
        let ghost plain = old(self).config.plain_text && all_blank(old(self).lines.line_prefix@);
        let ghost o = old(self).written().len() as int;
        if self.pen.pending_breaks > 0 && self.pen.wrote_any {
            let n = self.pen.pending_breaks;
            let mut k: u8 = 0;
            while k < n
                invariant
                    self.wf(),
                    self.keeps_parse(old(self)),
                    self.lines == old(self).lines,
                    self.pen == old(self).pen,
                    ok == (old(self).streaming_error is None && old(self).config.streaming_limit is None),
                    ok ==> self.streaming_error is None,
                    grows_from(old(self).written(), self.written()),
                    plain == (old(self).config.plain_text && all_blank(old(self).lines.line_prefix@)),
                    o == old(self).written().len(),
                    plain ==> all_blank(self.written().subrange(o, self.written().len() as int)),
                decreases n - k,
            {
                let ghost w0 = self.written();
                if !self.push_byte(10) {
                    return false;
                }
                proof { if plain { Self::lemma_blank_grow(w0, self.written(), o); } }
                let ghost w1 = self.written();
                if k + 1 < n && !self.push_trimmed_prefix() {
                    return false;
                }
                proof {
                    if plain {
                        let pre = old(self).lines.line_prefix@;
                        let tail = self.written().subrange(w1.len() as int, self.written().len() as int);
                        if k + 1 < n {
                            let e = without_trailing_spaces(pre, pre.len() as int);
                            lemma_without_trailing_spaces_bound(pre, pre.len() as int);
                            assert(tail =~= pre.subrange(0, e));
                            assert forall|j: int| 0 <= j < tail.len() implies is_whitespace(#[trigger] tail[j]) by {
                                assert(tail[j] == pre[j]);
                            }
                        } else {
                            assert(tail.len() == 0);
                        }
                        Self::lemma_blank_grow(w1, self.written(), o);
                    }
                }
                k = k + 1;
            }
            self.pen.at_line_start = true;
        }
        self.pen.pending_breaks = 0;
        proof {
            if plain {
                assert(self.written().subrange(o, self.written().len() as int) =~= self.written().subrange(o, self.written().len() as int));
            }
        }
        if self.pen.at_line_start {
            let ghost w0 = self.written();
            if !self.push_line_prefix() {
                return false;
            }
            proof { if plain { Self::lemma_blank_grow(w0, self.written(), o); } }
            self.pen.at_line_start = false;
            self.pen.pending_space = false;
            self.pen.line_has_content = false;
        }
        if self.pen.pending_space {
            self.pen.pending_space = false;
            let wrap = self.config.wrap_width != 0 && self.output_column >= self.config.wrap_width && !self.in_pre()
                && !self.in_table_cell() && !self.in_heading();
            let ghost w0 = self.written();
            if wrap {
                if !self.push_byte(10) {
                    return false;
                }
                proof { if plain { Self::lemma_blank_grow(w0, self.written(), o); } }
                let ghost w1 = self.written();
                if !self.push_line_prefix() {
                    return false;
                }
                proof { if plain { Self::lemma_blank_grow(w1, self.written(), o); } }
                self.pen.line_has_content = false;
            } else {
                if !self.push_byte(32) {
                    return false;
                }
                proof { if plain { Self::lemma_blank_grow(w0, self.written(), o); } }
            }
        }
        if self.lines.pending_opens.len() > 0 {
            let opens = self.lines.pending_opens.clone();
            self.lines.pending_opens = Vec::new();
            let mut k: usize = 0;
            while k < opens.len()
                invariant
                    self.wf(),
                    self.keeps_parse(old(self)),
                    self.lines.table_cells@ == old(self).lines.table_cells@,
                    self.lines.list_counters@ == old(self).lines.list_counters@,
                    self.lines.pending_opens@.len() == 0,
                    self.pen.pending_breaks == 0 && !self.pen.pending_space && !self.pen.at_line_start,
                    ok == (old(self).streaming_error is None && old(self).config.streaming_limit is None),
                    ok ==> self.streaming_error is None,
                    grows_from(old(self).written(), self.written()),
                    plain == (old(self).config.plain_text && all_blank(old(self).lines.line_prefix@)),
                    o == old(self).written().len(),
                    plain ==> all_blank(self.written().subrange(o, self.written().len() as int))
                        && self.lines.line_prefix@ == old(self).lines.line_prefix@,
                decreases opens@.len() - k,
            {
                let (idx, number) = opens[k];
                if !self.write_open(idx, number) {
                    return false;
                }
                k = k + 1;
            }
        }
        self.pen.wrote_any = true;
        true
    }

    /// One byte of `pre` content: newlines are held until more content
    /// follows, whitespace before the fence opens is dropped.
    fn emit_pre_byte(&mut self, c: u8) -> (r: bool)
        requires
            old(self).wf(),
        ensures
            final(self).wf(),
            final(self).keeps_parse(old(self)),
            grows_from(old(self).written(), final(self).written()),
            c == 10 ==> r && final(self).written() == old(self).written() && final(self).pen == (Pen {
                pre_newlines: if old(self).pen.pre_open {
                    if old(self).pen.pre_newlines == usize::MAX { usize::MAX } else { (old(self).pen.pre_newlines + 1) as usize }
                } else {
                    old(self).pen.pre_newlines
                },
                ..old(self).pen
            }),
            c != 10 && (c == 13 || (!old(self).pen.pre_open && is_whitespace(c))) ==> r && final(self).written() == old(self).written()
                && final(self).pen == old(self).pen,
            c != 10 && c != 13 && (old(self).pen.pre_open || !is_whitespace(c)) ==> {
                &&& (old(self).streaming_error is None && old(self).config.streaming_limit is None ==> r)
                &&& (r ==> final(self).written().len() > 0 && final(self).written().last() == c
                    && final(self).pen.line_has_content && final(self).pen.pre_newlines == 0)
            },
    {
        if c == 10 {
            if self.pen.pre_open {
                self.pen.pre_newlines = self.pen.pre_newlines.saturating_add(1);
            }
            return true;
        }
        if c == 13 || (!self.pen.pre_open && is_whitespace(c)) {
            return true;
        }
        if !self.begin_content() {
            return false;
        }
        let mut lines = self.pen.pre_newlines;
        self.pen.pre_newlines = 0;
        while lines > 0
            invariant
                self.wf(),
                self.keeps_parse(old(self)),
                grows_from(old(self).written(), self.written()),
                c != 10 && c != 13 && (old(self).pen.pre_open || !is_whitespace(c)),
                old(self).streaming_error is None && old(self).config.streaming_limit is None ==> self.streaming_error is None,
                self.pen.pre_newlines == 0,
            decreases lines,
        {
            if !self.push_byte(10) || !self.push_line_prefix() {
                return false;
            }
            lines = lines - 1;
        }
        if !self.push_byte(c) {
            return false;
        }
        self.pen.line_has_content = true;
        true
    }

    /// One visible byte of text, escaped when `escape` asks for it.
    fn emit_visible_byte(&mut self, c: u8, next: u8, raw: bool, in_cell: bool, in_link: bool) -> (r: bool)
        requires
            old(self).wf(),
        ensures
            final(self).wf(),
            final(self).keeps_parse(old(self)),
            grows_from(old(self).written(), final(self).written()),
            old(self).streaming_error is None && old(self).config.streaming_limit is None ==> r,
            r ==> final(self).written().len() > 0 && final(self).written().last() == c && final(self).pen.line_has_content,
            r ==> final(self).written().len() > old(self).written().len(),
            r && !raw && always_escaped(c) ==> final(self).written().len() >= old(self).written().len() + 2
                && final(self).written()[final(self).written().len() - 2] == 92,
            r && raw && old(self).config.plain_text && all_blank(old(self).lines.line_prefix@) ==>
                final(self).lines.line_prefix@ == old(self).lines.line_prefix@
                && all_blank(final(self).written().subrange(old(self).written().len() as int, final(self).written().len() - 1)),
    {
        if !self.begin_content() {
            return false;
        }
        let ghost w1 = self.written();
        if !raw {
            let escape = if c == 38 {
                is_ascii_alnum(next) || next == 35
            } else if c == 60 {
                is_ascii_alpha(next) || next == 47 || next == 33 || next == 63
            } else if is_inline_gfm_hazard(c) {
                true
            } else if c == 124 {
                in_cell
            } else if c == 93 {
                in_link
            } else if c == 35 || c == 62 {
                !self.pen.line_has_content
            } else {
                false
            };
            if escape && !self.push_byte(92) {
                return false;
            }
        }
        if !self.push_byte(c) {
            return false;
        }
        proof {
            if raw {
                assert(self.written().subrange(old(self).written().len() as int, self.written().len() - 1)
                    =~= w1.subrange(old(self).written().len() as int, w1.len() as int));
            }
        }
        self.pen.line_has_content = true;
        true
    }

    /// Writes text: whitespace becomes a pending space, Markdown syntax
    /// characters are escaped outside code, and `pre` content keeps its
    /// spacing and lines.
    pub fn emit_text(&mut self, text: &[u8])
        requires
            old(self).wf(),
        ensures
            final(self).wf(),
            final(self).keeps_parse(old(self)),
            grows_from(old(self).written(), final(self).written()),
            old(self).scan.excluded_depth > 0 || old(self).streaming_error is Some ==> final(self).written() == old(self).written()
                && final(self).pen == old(self).pen && final(self).lines == old(self).lines,
            old(self).config.streaming_limit is None && old(self).scan.excluded_depth == 0 && old(self).depth_map@[TAG_PRE as int] == 0
                && last_visible(text@, text@.len() as int) >= 0 ==> final(self).written().len() > 0
                && final(self).written().last() == text@[last_visible(text@, text@.len() as int)],
            old(self).config.streaming_limit is None && old(self).scan.excluded_depth == 0 && old(self).depth_map@[TAG_PRE as int] == 0
                ==> embeds(visible_bytes(text@), final(self).written().subrange(old(self).written().len() as int, final(self).written().len() as int)),
            !old(self).config.plain_text && old(self).pen.code_depth == 0 && old(self).config.streaming_limit is None
                && old(self).scan.excluded_depth == 0 && old(self).depth_map@[TAG_PRE as int] == 0
                ==> embeds(escaped_visible(text@), final(self).written().subrange(old(self).written().len() as int, final(self).written().len() as int)),
            old(self).config.plain_text && old(self).config.streaming_limit is None && old(self).scan.excluded_depth == 0
                && old(self).depth_map@[TAG_PRE as int] == 0
                ==> visible_bytes(final(self).written().subrange(old(self).written().len() as int, final(self).written().len() as int))
                    == visible_bytes(text@),
    {
        if self.scan.excluded_depth > 0 || self.streaming_error.is_some() {
            return;
        }
        let in_pre = self.in_pre();
        let in_cell = self.in_table_cell();
        let in_link = self.depth_of(crate::tags::TAG_A) > 0;
        let raw = self.config.plain_text || in_pre || self.pen.code_depth > 0;
        let n = text.len();
        let mut i: usize = 0;
        while i < n
            invariant
                self.wf(),
                self.keeps_parse(old(self)),
                i <= n == text@.len(),
                grows_from(old(self).written(), self.written()),
                !(old(self).scan.excluded_depth > 0 || old(self).streaming_error is Some),
                in_pre == (old(self).depth_map@[TAG_PRE as int] > 0),
                old(self).config.streaming_limit is None && !in_pre && last_visible(text@, i as int) >= 0 ==> self.written().len() > 0
                    && self.written().last() == text@[last_visible(text@, i as int)],
                old(self).config.streaming_limit is None && !in_pre ==> embeds(visible_bytes(text@.subrange(0, i as int)),
                    self.written().subrange(old(self).written().len() as int, self.written().len() as int)),
                raw == (old(self).config.plain_text || in_pre || old(self).pen.code_depth > 0),
                old(self).config.streaming_limit is None && !raw ==> embeds(escaped_visible(text@.subrange(0, i as int)),
                    self.written().subrange(old(self).written().len() as int, self.written().len() as int)),
                old(self).config.plain_text && old(self).config.streaming_limit is None && !in_pre && all_blank(old(self).lines.line_prefix@)
                    ==> self.lines.line_prefix@ == old(self).lines.line_prefix@
                    && visible_bytes(self.written().subrange(old(self).written().len() as int, self.written().len() as int))
                        == visible_bytes(text@.subrange(0, i as int)),
            decreases n - i,
        {
            let ghost before = self.written();
            let c = text[i];
            let ok = if in_pre {
                self.emit_pre_byte(c)
            } else if is_whitespace(c) {
                self.pen.pending_space = true;
                true
            } else {
                let next = if i + 1 < n { text[i + 1] } else { 0 };
                self.emit_visible_byte(c, next, raw, in_cell, in_link)
            };
            if !ok {
                return;
            }
            proof {
                if old(self).config.streaming_limit is None && !in_pre {
                    let o = old(self).written().len() as int;
                    let w0 = before.subrange(o, before.len() as int);
                    let x = self.written().subrange(before.len() as int, self.written().len() as int);
                    assert(text@.subrange(0, i + 1).drop_last() =~= text@.subrange(0, i as int));
                    assert(self.written().subrange(o, self.written().len() as int) =~= w0 + x);
                    if !is_whitespace(c) {
                        lemma_embeds_append(visible_bytes(text@.subrange(0, i as int)), w0, x, c);
                    } else {
                        lemma_embeds_extend(visible_bytes(text@.subrange(0, i as int)), w0, x);
                    }
                    if !raw {
                        let ev = escaped_visible(text@.subrange(0, i as int));
                        if !is_whitespace(c) {
                            if always_escaped(c) {
                                assert(x.drop_last().last() == 92u8);
                                lemma_embeds_append(ev, w0, x.drop_last(), 92u8);
                                assert(w0 + x.drop_last() + x.subrange(x.len() - 1, x.len() as int) =~= w0 + x);
                                assert(x.subrange(x.len() - 1, x.len() as int).last() == c);
                                lemma_embeds_append(ev.push(92u8), w0 + x.drop_last(), x.subrange(x.len() - 1, x.len() as int), c);
                                assert((w0 + x.drop_last()) + x.subrange(x.len() - 1, x.len() as int) =~= w0 + x);
                            } else {
                                lemma_embeds_append(ev, w0, x, c);
                            }
                        } else {
                            lemma_embeds_extend(ev, w0, x);
                        }
                    }
                    if old(self).config.plain_text && all_blank(old(self).lines.line_prefix@) {
                        lemma_visible_bytes_concat(w0, x);
                        if !is_whitespace(c) {
                            assert(x.drop_last() =~= self.written().subrange(before.len() as int, self.written().len() - 1));
                            lemma_visible_bytes_blank(x.drop_last());
                            assert(visible_bytes(x) == visible_bytes(x.drop_last()).push(c));
                        } else {
                            assert(x.len() == 0);
                            assert(visible_bytes(x) =~= Seq::<u8>::empty());
                        }
                    }
                }
            }
            i = i + 1;
        }
        proof {
            assert(text@.subrange(0, n as int) =~= text@);
        }
    }

    /// The `start` attribute of an ordered list, as the count before its
    /// first item (1 when absent or unreadable).
    fn list_start(attributes: &Attributes) -> (r: usize)
        ensures
            r == (match lookup(attributes@.entries, seq![115u8, 116, 97, 114, 116]) {
                Some(v) => if leading_number(v, 0, 0) > 0 { leading_number(v, 0, 0) - 1 } else { 0 },
                None => 0,
            }),
    {
        let start: [u8; 5] = [115, 116, 97, 114, 116];
        assert(start@ =~= seq![115u8, 116, 97, 114, 116]);
        match attributes.value_of(&start) {
            Some(v) => {
                let mut value: usize = 0;
                let mut k: usize = 0;
                let mut any = false;
                while k < v.len() && v[k] >= 48 && v[k] <= 57 && value < 100_000_000
                    invariant
                        k <= v@.len(),
                        value < 1_000_000_000,
                        leading_number(v@, 0, 0) == leading_number(v@, k as int, value as int),
                        !any ==> value == 0,
                    decreases v@.len() - k,
                {
                    value = value * 10 + (v[k] - 48) as usize;
                    any = true;
                    k = k + 1;
                }
                if any && value > 0 { value - 1 } else { 0 }
            },
            None => 0,
        }
    }

    fn attribute_value(attributes: &Attributes, name: &[u8]) -> (r: Option<Vec<u8>>)
        ensures
            match r {
                Some(v) => lookup(attributes@.entries, name@) == Some(v@),
                None => lookup(attributes@.entries, name@) is None,
            },
    {
        match attributes.value_of(name) {
            Some(v) => Some(crate::text::copy_range(v.as_slice(), 0, v.len())),
            None => None,
        }
    }

    /// Resolves a URL against the configured origin: a path starting with a
    /// single `/` is appended to the origin without its trailing `/`.
    pub fn resolve_url(&self, url: &[u8]) -> (r: Vec<u8>)
        ensures
            r@ == (match self.options.origin {
                Some(o) => if is_rooted(url@) {
                    vstd::utf8::encode_utf8(o@).subrange(0, without_trailing_slashes(vstd::utf8::encode_utf8(o@), vstd::utf8::encode_utf8(o@).len() as int)) + url@
                } else {
                    url@
                },
                None => url@,
            }),
    {
        let mut out: Vec<u8> = Vec::new();
        let rooted = url.len() > 0 && url[0] == 47 && !(url.len() > 1 && url[1] == 47);
        if rooted {
            match &self.options.origin {
                Some(origin) => {
                    let o = origin.as_str().as_bytes();
                    let mut end = o.len();
                    while end > 0 && o[end - 1] == 47
                        invariant
                            end <= o@.len(),
                            without_trailing_slashes(o@, o@.len() as int) == without_trailing_slashes(o@, end as int),
                        decreases end,
                    {
                        end = end - 1;
                    }
                    crate::text::extend_range(&mut out, o, 0, end);
                },
                None => {},
            }
        }
        crate::text::extend_range(&mut out, url, 0, url.len());
        out
    }

    fn enter_list(&mut self, idx: usize, ordered: bool)
        requires
            old(self).wf(),
            idx < old(self).stack@.len(),
        ensures
            final(self).wf(),
            final(self).keeps_parse(old(self)),
            final(self).written() == old(self).written(),
            final(self).lines.list_counters@.len() == old(self).lines.list_counters@.len() + 1,
            final(self).lines.list_counters@.drop_last() == old(self).lines.list_counters@,
            final(self).lines.list_counters@.last().0 == ordered,
            !ordered ==> final(self).lines.list_counters@.last().1 == 0,
    {
        let nested = self.depth_of(crate::tags::TAG_LI) > 0;
        self.request_break(if nested { 1 } else { 2 });
        let start = if ordered { Self::list_start(&self.stack[idx].attributes) } else { 0 };
        self.lines.list_counters.push((ordered, start));
    }

    fn enter_item(&mut self, idx: usize)
        requires
            old(self).wf(),
        ensures
            final(self).wf(),
            final(self).keeps_parse(old(self)),
            final(self).written() == old(self).written(),
            ({
                let lc = old(self).lines.list_counters@;
                let next: usize = if lc.len() > 0 { if lc.last().1 == usize::MAX { usize::MAX } else { (lc.last().1 + 1) as usize } } else { 0 };
                &&& final(self).lines.list_counters@ == (if lc.len() > 0 { lc.drop_last().push((lc.last().0, next)) } else { lc })
                &&& final(self).lines.pending_opens@ == old(self).lines.pending_opens@.push(
                    (idx, if lc.len() > 0 && lc.last().0 { next } else { 0usize }))
            }),
    {
        let mut number: usize = 0;
        match self.lines.list_counters.pop() {
            Some((ordered, count)) => {
                let next = count.saturating_add(1);
                self.lines.list_counters.push((ordered, next));
                if ordered {
                    number = next;
                }
            },
            None => {},
        }
        self.request_break(1);
        self.lines.pending_opens.push((idx, number));
    }

    fn enter_blockquote(&mut self)
        requires
            old(self).wf(),
        ensures
            final(self).wf(),
            final(self).keeps_parse(old(self)),
            final(self).written() == old(self).written(),
            !old(self).config.plain_text ==> final(self).lines.line_prefix@ == old(self).lines.line_prefix@ + seq![62u8, 32]
                && final(self).lines.prefix_lens@ == old(self).lines.prefix_lens@.push(old(self).lines.line_prefix@.len() as usize),
            old(self).config.plain_text ==> final(self).lines == old(self).lines,
    {
        self.request_break(2);
        if !self.config.plain_text {
            let len = self.lines.line_prefix.len();
            self.lines.prefix_lens.push(len);
            self.lines.line_prefix.push(62);
            self.lines.line_prefix.push(32);
        }
    }

    fn enter_pre(&mut self, idx: usize)
        requires
            old(self).wf(),
        ensures
            final(self).wf(),
            final(self).keeps_parse(old(self)),
            final(self).written() == old(self).written(),
            !final(self).pen.pre_open && final(self).pen.pre_newlines == 0,
            final(self).lines.pending_opens@ == old(self).lines.pending_opens@.push((idx, 0usize)),
    {
        self.request_break(2);
        let mut p = self.pen;
        p.pre_open = false;
        p.pre_newlines = 0;
        self.pen = p;
        self.lines.pending_opens.push((idx, 0));
    }

    fn enter_code(&mut self, idx: usize)
        requires
            old(self).wf(),
        ensures
            final(self).wf(),
            final(self).keeps_parse(old(self)),
            final(self).written() == old(self).written(),
            final(self).pen.code_depth == (if old(self).pen.code_depth == usize::MAX { usize::MAX } else { (old(self).pen.code_depth + 1) as usize }),
            final(self).lines.pending_opens@ == (if old(self).depth_map@[TAG_PRE as int] == 0 {
                old(self).lines.pending_opens@.push((idx, 0usize)) } else { old(self).lines.pending_opens@ }),
    {
        self.pen.code_depth = self.pen.code_depth.saturating_add(1);
        if !self.in_pre() {
            self.lines.pending_opens.push((idx, 0));
        }
    }

    fn enter_image(&mut self, idx: usize)
        requires
            old(self).wf(),
            idx < old(self).stack@.len(),
        ensures
            final(self).wf(),
            final(self).keeps_parse(old(self)),
            grows_from(old(self).written(), final(self).written()),
            lookup(old(self).stack@[idx as int].attributes@.entries, seq![115u8, 114, 99]) is None ==> final(self).written() == old(self).written()
                && final(self).pen == old(self).pen,
            lookup(old(self).stack@[idx as int].attributes@.entries, seq![115u8, 114, 99]) is Some && !old(self).config.plain_text
                && old(self).streaming_error is None && old(self).config.streaming_limit is None ==> final(self).written().len() > 0 && final(self).written().last() == 41,
    {
        assert(SRC@ =~= seq![115u8, 114, 99]);
        let src = Self::attribute_value(&self.stack[idx].attributes, &SRC);
        let alt = Self::attribute_value(&self.stack[idx].attributes, &ALT);
        let src = match src {
            Some(s) => s,
            None => {
                return;
            },
        };
        if self.config.plain_text {
            match alt {
                Some(a) => self.emit_text(a.as_slice()),
                None => {},
            }
            return;
        }
        if !self.begin_content() {
            return;
        }
        let open: [u8; 2] = [33, 91];
        if !self.push_output_bytes(&open) {
            return;
        }
        match alt {
            Some(a) => self.emit_text(a.as_slice()),
            None => {},
        }
        let mid: [u8; 2] = [93, 40];
        if !self.push_output_bytes(&mid) {
            return;
        }
        let url = self.resolve_url(src.as_slice());
        if !self.push_output_bytes(url.as_slice()) {
            return;
        }
        self.push_byte(41);
    }

    fn enter_break(&mut self)
        requires
            old(self).wf(),
        ensures
            final(self).wf(),
            final(self).keeps_parse(old(self)),
            final(self).lines == old(self).lines,
            !old(self).pen.wrote_any ==> final(self).written() == old(self).written() && final(self).pen == old(self).pen,
            old(self).pen.wrote_any && old(self).streaming_error is None && old(self).config.streaming_limit is None ==> {
                &&& final(self).written() == old(self).written()
                    + (if old(self).config.plain_text { seq![10u8] } else { seq![92u8, 10] }) + old(self).lines.line_prefix@
                &&& final(self).pen == Pen { at_line_start: false, pending_space: false, line_has_content: false, ..old(self).pen }
            },
            grows_from(old(self).written(), final(self).written()),
    {
        if !self.pen.wrote_any {
            return;
        }
        if !self.config.plain_text && !self.push_byte(92) {
            return;
        }
        if !self.push_byte(10) || !self.push_line_prefix() {
            return;
        }
        proof {
            if !old(self).config.plain_text {
                assert(old(self).written().push(92).push(10) =~= old(self).written() + seq![92u8, 10]);
            } else {
                assert(old(self).written().push(10) =~= old(self).written() + seq![10u8]);
            }
        }
        let mut p = self.pen;
        p.at_line_start = false;
        p.pending_space = false;
        p.line_has_content = false;
        self.pen = p;
    }

    fn enter_rule(&mut self)
        requires
            old(self).wf(),
        ensures
            final(self).wf(),
            final(self).keeps_parse(old(self)),
            grows_from(old(self).written(), final(self).written()),
            old(self).config.plain_text ==> final(self).written() == old(self).written(),
            !old(self).config.plain_text && old(self).streaming_error is None && old(self).config.streaming_limit is None ==> {
                let w = final(self).written();
                w.len() >= old(self).written().len() + 3 && w.subrange(w.len() - 3, w.len() as int) == seq![45u8, 45, 45]
            },
    {
        self.request_break(2);
        if !self.config.plain_text {
            if !self.begin_content() {
                return;
            }
            let rule: [u8; 3] = [45, 45, 45];
            if !self.push_output_bytes(&rule) {
                return;
            }
        }
        self.request_break(2);
    }

    fn enter_row(&mut self)
        requires
            old(self).wf(),
        ensures
            final(self).wf(),
            final(self).keeps_parse(old(self)),
            final(self).written() == old(self).written(),
            final(self).lines.table_cells@ == (if old(self).lines.table_cells@.len() > 0 {
                old(self).lines.table_cells@.drop_last().push((old(self).lines.table_cells@.last().0, 0usize))
            } else { old(self).lines.table_cells@ }),
    {
        self.request_break(1);
        match self.lines.table_cells.pop() {
            Some((rows, _)) => self.lines.table_cells.push((rows, 0)),
            None => {},
        }
    }

    fn enter_cell(&mut self)
        requires
            old(self).wf(),
        ensures
            final(self).wf(),
            final(self).keeps_parse(old(self)),
            old(self).lines.table_cells@.len() == 0 ==> final(self).written() == old(self).written()
                && final(self).lines.table_cells@ == old(self).lines.table_cells@ && final(self).pen == old(self).pen,
            old(self).lines.table_cells@.len() > 0 ==> {
                let (rows, cells) = old(self).lines.table_cells@.last();
                &&& final(self).lines.table_cells@ == old(self).lines.table_cells@.drop_last().push(
                    (rows, if cells == usize::MAX { usize::MAX } else { (cells + 1) as usize }))
                &&& rows == 0 && cells >= super::MAX_TABLE_COLUMNS && old(self).config.streaming_limit is Some
                    ==> final(self).streaming_error is Some && final(self).written() == old(self).written()
            },
            grows_from(old(self).written(), final(self).written()),
    {
        let (rows, cells) = match self.lines.table_cells.pop() {
            Some(t) => t,
            None => {
                return;
            },
        };
        self.lines.table_cells.push((rows, cells.saturating_add(1)));
        if rows == 0 && cells >= super::MAX_TABLE_COLUMNS && self.config.streaming_limit.is_some() {
            self.fail_streaming(StreamingError::ParserLimitExceeded);
            return;
        }
        if !self.begin_content() {
            return;
        }
        if self.config.plain_text {
            if cells > 0 {
                self.push_byte(9);
            }
        } else if cells == 0 {
            let open: [u8; 2] = [124, 32];
            self.push_output_bytes(&open);
        } else {
            let sep: [u8; 3] = [32, 124, 32];
            self.push_output_bytes(&sep);
        }
    }

    /// Renders the element just pushed on top of the stack, at its start tag.
    pub fn emit_enter_element(&mut self)
        requires
            old(self).wf(),
        ensures
            final(self).wf(),
            final(self).keeps_parse(old(self)),
            grows_from(old(self).written(), final(self).written()),
            old(self).stack@.len() == 0 || old(self).streaming_error is Some ==> final(self).written() == old(self).written()
                && final(self).lines == old(self).lines,
    {
        if self.stack.len() == 0 || self.streaming_error.is_some() {
            return;
        }
        let idx = self.stack.len() - 1;
        if self.stack[idx].tag_id == Some(crate::tags::TAG_A) && self.depth_of(crate::tags::TAG_A) <= 1 {
            let mut pen = self.pen;
            pen.link_hold = self.buffer.len();
            self.pen = pen;
        }
        if self.stack[idx].excluded_from_markdown || self.scan.excluded_depth > 0 {
            return;
        }
        let render = self.stack[idx].render;
        match render {
            Render::Block => self.request_break(2),
            Render::Heading(_) => {
                self.request_break(2);
                self.lines.pending_opens.push((idx, 0));
            },
            Render::List(ordered) => self.enter_list(idx, ordered),
            Render::Item => self.enter_item(idx),
            Render::Blockquote => self.enter_blockquote(),
            Render::Pre => self.enter_pre(idx),
            Render::Code => self.enter_code(idx),
            Render::Emphasis(_) | Render::Link | Render::Custom => {
                self.lines.pending_opens.push((idx, 0));
            },
            Render::Image => self.enter_image(idx),
            Render::Break => self.enter_break(),
            Render::Rule => self.enter_rule(),
            Render::Table => {
                self.request_break(2);
                self.lines.table_cells.push((0, 0));
            },
            Render::Row => self.enter_row(),
            Render::Cell => self.enter_cell(),
            Render::Plain => {},
        }
    }

    fn exit_list(&mut self)
        requires
            old(self).wf(),
        ensures
            final(self).wf(),
            final(self).keeps_parse(old(self)),
            final(self).written() == old(self).written(),
            final(self).lines.list_counters@ == (if old(self).lines.list_counters@.len() > 0 {
                old(self).lines.list_counters@.drop_last() } else { old(self).lines.list_counters@ }),
    {
        self.lines.list_counters.pop();
        let nested = self.depth_of(crate::tags::TAG_LI) > 0;
        self.request_break(if nested { 1 } else { 2 });
    }

    fn exit_pre(&mut self, opened: bool)
        requires
            old(self).wf(),
        ensures
            final(self).wf(),
            final(self).keeps_parse(old(self)),
            final(self).lines == old(self).lines,
            !(opened && !old(self).config.plain_text) ==> final(self).written() == old(self).written()
                && !final(self).pen.pre_open && final(self).pen.pre_newlines == 0,
            opened && !old(self).config.plain_text && old(self).streaming_error is None && old(self).config.streaming_limit is None ==> {
                &&& final(self).written() == old(self).written() + seq![10u8] + old(self).lines.line_prefix@ + seq![96u8, 96, 96]
                &&& !final(self).pen.pre_open && final(self).pen.pre_newlines == 0
            },
            grows_from(old(self).written(), final(self).written()),
    {
        if opened && !self.config.plain_text {
            if !self.push_byte(10) || !self.push_line_prefix() {
                return;
            }
            let fence: [u8; 3] = [96, 96, 96];
            assert(fence@ =~= seq![96u8, 96, 96]);
            if !self.push_output_bytes(&fence) {
                return;
            }
            assert(old(self).written().push(10) =~= old(self).written() + seq![10u8]);
        }
        let mut p = self.pen;
        p.pre_open = false;
        p.pre_newlines = 0;
        self.pen = p;
        self.request_break(2);
    }

    fn exit_code(&mut self, opened: bool)
        requires
            old(self).wf(),
        ensures
            final(self).wf(),
            final(self).keeps_parse(old(self)),
            final(self).pen.code_depth == (if old(self).pen.code_depth == 0 { 0 } else { (old(self).pen.code_depth - 1) as usize }),
            !(opened && !old(self).config.plain_text && old(self).depth_map@[TAG_PRE as int] == 0) ==> final(self).written() == old(self).written(),
            opened && !old(self).config.plain_text && old(self).depth_map@[TAG_PRE as int] == 0 && old(self).streaming_error is None
                && old(self).config.streaming_limit is None ==> final(self).written() == old(self).written().push(96),
            grows_from(old(self).written(), final(self).written()),
    {
        self.pen.code_depth = self.pen.code_depth.saturating_sub(1);
        if opened && !self.config.plain_text && !self.in_pre() {
            self.push_byte(96);
        }
    }

    fn exit_emphasis(&mut self, opened: bool, kind: u8)
        requires
            old(self).wf(),
        ensures
            final(self).wf(),
            final(self).keeps_parse(old(self)),
            !(opened && !old(self).config.plain_text) ==> final(self).written() == old(self).written(),
            opened && !old(self).config.plain_text && old(self).streaming_error is None && old(self).config.streaming_limit is None
                ==> final(self).written() == old(self).written() + (if kind == 1 { seq![42u8] } else if kind == 2 { seq![42u8, 42] } else { seq![126u8, 126] }),
            grows_from(old(self).written(), final(self).written()),
    {
        if opened && !self.config.plain_text {
            if kind == 1 {
                self.push_byte(42);
            } else if kind == 2 {
                let m: [u8; 2] = [42, 42];
                self.push_output_bytes(&m);
            } else {
                let m: [u8; 2] = [126, 126];
                self.push_output_bytes(&m);
            }
        }
    }

    fn exit_link(&mut self, node: &ElementNode, idx: usize, opened: bool)
        requires
            old(self).wf(),
        ensures
            final(self).wf(),
            final(self).keeps_parse(old(self)),
            grows_from(old(self).written(), final(self).written()),
            !old(self).config.plain_text && old(self).streaming_error is None && old(self).config.streaming_limit is None ==> final(self).written().len() > 0 && final(self).written().last() == 41,
    {
        let mut opened = opened;
        if !opened {
            let label = match Self::attribute_value(&node.attributes, &TITLE) {
                Some(t) => Some(t),
                None => Self::attribute_value(&node.attributes, &ARIA_LABEL),
            };
            match label {
                Some(t) => {
                    self.lines.pending_opens.push((idx, 0));
                    self.emit_text(t.as_slice());
                    let n = self.lines.pending_opens.len();
                    if n > 0 && self.lines.pending_opens[n - 1].0 == idx {
                        self.lines.pending_opens.pop();
                    } else {
                        opened = true;
                    }
                },
                None => {},
            }
        }
        if self.config.plain_text {
            return;
        }
        let href = match Self::attribute_value(&node.attributes, &HREF) {
            Some(h) => h,
            None => Vec::new(),
        };
        if !self.begin_content() {
            return;
        }
        if !opened && !self.push_byte(91) {
            return;
        }
        let mid: [u8; 2] = [93, 40];
        if !self.push_output_bytes(&mid) {
            return;
        }
        let url = self.resolve_url(href.as_slice());
        if !self.push_output_bytes(url.as_slice()) {
            return;
        }
        self.push_byte(41);
    }

    fn exit_row(&mut self)
        requires
            old(self).wf(),
        ensures
            final(self).wf(),
            final(self).keeps_parse(old(self)),
            old(self).lines.table_cells@.len() == 0 ==> final(self).written() == old(self).written()
                && final(self).lines.table_cells@ == old(self).lines.table_cells@ && final(self).pen == old(self).pen,
            old(self).lines.table_cells@.len() > 0 ==> {
                let (rows, cells) = old(self).lines.table_cells@.last();
                &&& final(self).lines.table_cells@ == old(self).lines.table_cells@.drop_last().push(
                    (if rows == usize::MAX { usize::MAX } else { (rows + 1) as usize }, 0usize))
                &&& final(self).lines.line_prefix@ == old(self).lines.line_prefix@
                &&& (cells == 0 || old(self).config.plain_text) ==> final(self).written() == old(self).written()
                &&& (cells > 0 && !old(self).config.plain_text && old(self).streaming_error is None
                    && old(self).config.streaming_limit is None) ==> final(self).written() == old(self).written() + seq![32u8, 124]
                        + (if rows == 0 {
                            seq![10u8] + old(self).lines.line_prefix@ + seq![124u8] + repeat_bytes(seq![32u8, 45, 45, 45, 32, 124], cells as nat)
                        } else {
                            Seq::<u8>::empty()
                        })
            },
            grows_from(old(self).written(), final(self).written()),
    {
        let (rows, cells) = match self.lines.table_cells.pop() {
            Some(t) => t,
            None => {
                return;
            },
        };
        self.lines.table_cells.push((rows.saturating_add(1), 0));
        let ghost lines1 = self.lines;
        let ghost ok = old(self).streaming_error is None && old(self).config.streaming_limit is None;
        if cells > 0 && !self.config.plain_text {
            let close: [u8; 2] = [32, 124];
            assert(close@ =~= seq![32u8, 124]);
            if !self.push_output_bytes(&close) {
                return;
            }
            if rows == 0 {
                let ghost w1 = self.written();
                if !self.push_byte(10) || !self.push_line_prefix() || !self.push_byte(124) {
                    return;
                }
                assert(self.written() == w1.push(10) + old(self).lines.line_prefix@ + seq![124u8]) by {
                    assert(w1.push(10) + old(self).lines.line_prefix@ + seq![124u8]
                        =~= (w1.push(10) + old(self).lines.line_prefix@).push(124));
                }
                let ghost w2 = self.written();
                assert(repeat_bytes(seq![32u8, 45, 45, 45, 32, 124], 0) =~= Seq::<u8>::empty());
                let mut k: usize = 0;
                while k < cells
                    invariant
                        self.wf(),
                        self.keeps_parse(old(self)),
                        self.lines == lines1,
                        k <= cells,
                        old(self).lines.table_cells@.len() > 0,
                        old(self).lines.table_cells@.last() == (rows, cells),
                        cells > 0 && rows == 0 && !old(self).config.plain_text,
                        lines1.table_cells@ == old(self).lines.table_cells@.drop_last().push(
                            (if rows == usize::MAX { usize::MAX } else { (rows + 1) as usize }, 0usize)),
                        lines1.line_prefix@ == old(self).lines.line_prefix@,
                        grows_from(old(self).written(), self.written()),
                        ok ==> self.streaming_error is None && self.written() == w2 + repeat_bytes(seq![32u8, 45, 45, 45, 32, 124], k as nat),
                        ok == (old(self).streaming_error is None && old(self).config.streaming_limit is None),
                        self.config == old(self).config,
                    decreases cells - k,
                {
                    let sep: [u8; 6] = [32, 45, 45, 45, 32, 124];
                    assert(sep@ =~= seq![32u8, 45, 45, 45, 32, 124]);
                    if !self.push_output_bytes(&sep) {
                        return;
                    }
                    assert(w2 + repeat_bytes(seq![32u8, 45, 45, 45, 32, 124], (k + 1) as nat)
                        =~= w2 + repeat_bytes(seq![32u8, 45, 45, 45, 32, 124], k as nat) + seq![32u8, 45, 45, 45, 32, 124]);
                    k = k + 1;
                }
                proof {
                    if ok {
                        assert(self.written() =~= old(self).written() + seq![32u8, 124] + (seq![10u8] + old(self).lines.line_prefix@
                            + seq![124u8] + repeat_bytes(seq![32u8, 45, 45, 45, 32, 124], cells as nat)));
                    }
                }
            } else {
                assert(old(self).written() + seq![32u8, 124] =~= old(self).written() + seq![32u8, 124] + Seq::<u8>::empty());
            }
        }
        self.request_break(1);
    }

    /// Renders the end of `node`, which was at stack index `idx` and has just
    /// been popped.
    pub fn emit_exit_element(&mut self, node: &ElementNode, idx: usize)
        requires
            old(self).wf(),
        ensures
            final(self).wf(),
            final(self).keeps_parse(old(self)),
            grows_from(old(self).written(), final(self).written()),
            old(self).streaming_error is Some || node.excluded_from_markdown || old(self).scan.excluded_depth > 0
                ==> final(self).written() == old(self).written() && final(self).lines == old(self).lines
                && final(self).pen == old(self).pen,
            old(self).config.streaming_limit is None && !node.excluded_from_markdown && old(self).scan.excluded_depth == 0 ==>
                (exit_markup(*node, !(old(self).lines.pending_opens@.len() > 0 && old(self).lines.pending_opens@.last().0 == idx),
                    old(self).config.plain_text, old(self).depth_map@[TAG_PRE as int] > 0, old(self).lines.line_prefix@)
                    matches Some(m) ==> final(self).written() == old(self).written() + m),
    {
        if self.streaming_error.is_some() || node.excluded_from_markdown || self.scan.excluded_depth > 0 {
            return;
        }
        let mut opened = true;
        let n = self.lines.pending_opens.len();
        if n > 0 && self.lines.pending_opens[n - 1].0 == idx {
            self.lines.pending_opens.pop();
            opened = false;
        }
        match node.render {
            Render::Block | Render::Heading(_) => self.request_break(2),
            Render::List(_) => self.exit_list(),
            Render::Item => {
                if opened && !self.config.plain_text {
                    self.pop_prefix();
                }
                self.request_break(1);
            },
            Render::Blockquote => {
                if !self.config.plain_text {
                    self.pop_prefix();
                }
                self.request_break(2);
            },
            Render::Pre => self.exit_pre(opened),
            Render::Code => self.exit_code(opened),
            Render::Emphasis(kind) => self.exit_emphasis(opened, kind),
            Render::Link => self.exit_link(node, idx, opened),
            Render::Custom => {
                if !opened && node.self_closing {
                    if !self.begin_content() {
                        return;
                    }
                    match &node.enter {
                        Some(e) => {
                            if !self.push_output_bytes(e.as_slice()) {
                                return;
                            }
                        },
                        None => {},
                    }
                }
                if opened || node.self_closing {
                    match &node.exit {
                        Some(e) => {
                            self.push_output_bytes(e.as_slice());
                        },
                        None => {},
                    }
                }
            },
            Render::Table => {
                self.lines.table_cells.pop();
                self.request_break(2);
            },
            Render::Row => self.exit_row(),
            Render::Image | Render::Break | Render::Rule | Render::Cell | Render::Plain => {},
        }
    }

    fn pop_prefix(&mut self)
        requires
            old(self).wf(),
        ensures
            final(self).wf(),
            final(self).keeps_parse(old(self)),
            final(self).written() == old(self).written(),
            old(self).lines.prefix_lens@.len() > 0 ==> final(self).lines.prefix_lens@ == old(self).lines.prefix_lens@.drop_last()
                && final(self).lines.line_prefix@ == (if old(self).lines.prefix_lens@.last() <= old(self).lines.line_prefix@.len() {
                    old(self).lines.line_prefix@.subrange(0, old(self).lines.prefix_lens@.last() as int)
                } else {
                    old(self).lines.line_prefix@
                }),
    {
        match self.lines.prefix_lens.pop() {
            Some(len) => {
                if len <= self.lines.line_prefix.len() {
                    self.lines.line_prefix.truncate(len);
                }
            },
            None => {},
        }
    }
}

/// A path rooted at the site: one leading `/`, not two.
/// What the end of an open element writes, when that depends on the element
/// alone: nothing for blocks, lists, items, quotes, tables and the like; the
/// closing delimiter of emphasis, code and preformatted text that was opened
/// (outside plain text, and for code outside `pre`); an override's exit
/// string once opened. `None` for links, rows and unopened self-closing
/// overrides, whose end depends on more.
pub open spec fn exit_markup(node: ElementNode, opened: bool, plain: bool, in_pre: bool, prefix: Seq<u8>) -> Option<Seq<u8>> {
    match node.render {
        Render::Emphasis(kind) => Some(if opened && !plain {
            if kind == 1 { seq![42u8] } else if kind == 2 { seq![42u8, 42] } else { seq![126u8, 126] }
        } else {
            Seq::empty()
        }),
        Render::Code => Some(if opened && !plain && !in_pre { seq![96u8] } else { Seq::empty() }),
        Render::Pre => Some(if opened && !plain { seq![10u8] + prefix + seq![96u8, 96, 96] } else { Seq::empty() }),
        Render::Link | Render::Row => None,
        Render::Custom => if !opened && node.self_closing {
            None
        } else if opened {
            Some(match node.exit { Some(e) => e@, None => Seq::empty() })
        } else {
            Some(Seq::empty())
        },
        _ => Some(Seq::empty()),
    }
}

/// The bytes of `t` that are not whitespace, in order.
pub open spec fn visible_bytes(t: Seq<u8>) -> Seq<u8>
    decreases t.len(),
{
    if t.len() == 0 {
        Seq::empty()
    } else if is_whitespace(t.last()) {
        visible_bytes(t.drop_last())
    } else {
        visible_bytes(t.drop_last()).push(t.last())
    }
}

/// Dropping trailing spaces keeps a prefix of what there was.
pub proof fn lemma_without_trailing_spaces_bound(p: Seq<u8>, end: int)
    requires
        0 <= end <= p.len(),
    ensures
        0 <= without_trailing_spaces(p, end) <= end,
    decreases end,
{
    if end > 0 && p[end - 1] == 32 {
        lemma_without_trailing_spaces_bound(p, end - 1);
    }
}

/// Every byte of `s` is whitespace.
pub open spec fn all_blank(s: Seq<u8>) -> bool {
    forall|k: int| 0 <= k < s.len() ==> is_whitespace(#[trigger] s[k])
}

/// The visible bytes of two pieces are those of each, in order.
pub proof fn lemma_visible_bytes_concat(a: Seq<u8>, b: Seq<u8>)
    ensures
        visible_bytes(a + b) == visible_bytes(a) + visible_bytes(b),
    decreases b.len(),
{
    if b.len() == 0 {
        assert(a + b =~= a);
        assert(visible_bytes(a) + Seq::<u8>::empty() =~= visible_bytes(a));
    } else {
        lemma_visible_bytes_concat(a, b.drop_last());
        assert((a + b).drop_last() =~= a + b.drop_last());
        assert((a + b).last() == b.last());
        if !is_whitespace(b.last()) {
            assert((visible_bytes(a) + visible_bytes(b.drop_last())).push(b.last())
                =~= visible_bytes(a) + visible_bytes(b.drop_last()).push(b.last()));
        }
    }
}

/// Whitespace has no visible bytes.
pub proof fn lemma_visible_bytes_blank(s: Seq<u8>)
    requires
        all_blank(s),
    ensures
        visible_bytes(s) == Seq::<u8>::empty(),
    decreases s.len(),
{
    if s.len() > 0 {
        assert(all_blank(s.drop_last()));
        lemma_visible_bytes_blank(s.drop_last());
    }
}

/// The characters Markdown text always escapes: `*`, `[`, `\\`, `_`,
/// backquote and `~`.
pub open spec fn always_escaped(c: u8) -> bool {
    c == 42 || c == 91 || c == 92 || c == 95 || c == 96 || c == 126
}

/// The visible bytes of `t` as Markdown writes them: each of the always
/// escaped characters behind a backslash.
pub open spec fn escaped_visible(t: Seq<u8>) -> Seq<u8>
    decreases t.len(),
{
    if t.len() == 0 {
        Seq::empty()
    } else if is_whitespace(t.last()) {
        escaped_visible(t.drop_last())
    } else if always_escaped(t.last()) {
        escaped_visible(t.drop_last()).push(92u8).push(t.last())
    } else {
        escaped_visible(t.drop_last()).push(t.last())
    }
}

/// `v` occurs in `w` in order, possibly with other bytes in between.
pub open spec fn embeds(v: Seq<u8>, w: Seq<u8>) -> bool
    decreases w.len(),
{
    if v.len() == 0 {
        true
    } else if w.len() == 0 {
        false
    } else if v.last() == w.last() {
        embeds(v.drop_last(), w.drop_last())
    } else {
        embeds(v, w.drop_last())
    }
}

/// A byte more at the end of `w` keeps what it embeds.
pub proof fn lemma_embeds_push(v: Seq<u8>, w: Seq<u8>, x: u8)
    requires
        embeds(v, w),
    ensures
        embeds(v, w.push(x)),
    decreases w.len(), 1int,
{
    assert(w.push(x).drop_last() =~= w);
    if v.len() > 0 && v.last() == x {
        lemma_embeds_drop(v, w);
    }
}

/// What `w` embeds, it embeds without its last byte too.
pub proof fn lemma_embeds_drop(v: Seq<u8>, w: Seq<u8>)
    requires
        embeds(v, w),
        v.len() > 0,
    ensures
        embeds(v.drop_last(), w),
    decreases w.len(), 0int,
{
    let v2 = v.drop_last();
    let w2 = w.drop_last();
    assert(w2.push(w.last()) =~= w);
    if v.last() == w.last() {
        lemma_embeds_push(v2, w2, w.last());
    } else {
        lemma_embeds_drop(v, w2);
        lemma_embeds_push(v2, w2, w.last());
    }
}

/// More bytes at the end of `w` keep what it embeds.
pub proof fn lemma_embeds_extend(v: Seq<u8>, w: Seq<u8>, x: Seq<u8>)
    requires
        embeds(v, w),
    ensures
        embeds(v, w + x),
    decreases x.len(),
{
    if x.len() == 0 {
        assert(w + x =~= w);
    } else {
        lemma_embeds_extend(v, w, x.drop_last());
        assert((w + x.drop_last()).push(x.last()) =~= w + x);
        lemma_embeds_push(v, w + x.drop_last(), x.last());
    }
}

/// Bytes written after `w` that end with `c` embed one more `c`.
pub proof fn lemma_embeds_append(v: Seq<u8>, w: Seq<u8>, x: Seq<u8>, c: u8)
    requires
        embeds(v, w),
        x.len() > 0,
        x.last() == c,
    ensures
        embeds(v.push(c), w + x),
{
    lemma_embeds_extend(v, w, x.drop_last());
    assert((w + x).drop_last() =~= w + x.drop_last());
    assert(v.push(c).drop_last() =~= v);
}

/// The index of the last byte of `text` before `i` that is not
/// whitespace, or -1.
pub open spec fn last_visible(text: Seq<u8>, i: int) -> int
    decreases i,
{
    if i <= 0 || i > text.len() {
        -1
    } else if !is_whitespace(text[i - 1]) {
        i - 1
    } else {
        last_visible(text, i - 1)
    }
}

/// `n` copies of `s`, one after another.
pub open spec fn repeat_bytes(s: Seq<u8>, n: nat) -> Seq<u8>
    decreases n,
{
    if n == 0 {
        Seq::empty()
    } else {
        repeat_bytes(s, (n - 1) as nat) + s
    }
}

/// The number spelled by the decimal digits of `v` from `k` on, read onto
/// `value` while it stays below 10^8.
pub open spec fn leading_number(v: Seq<u8>, k: int, value: int) -> int
    decreases v.len() - k,
{
    if 0 <= k < v.len() && 48 <= v[k] <= 57 && value < 100_000_000 {
        leading_number(v, k + 1, value * 10 + (v[k] - 48))
    } else {
        value
    }
}

pub open spec fn is_rooted(u: Seq<u8>) -> bool {
    u.len() > 0 && u[0] == 47 && !(u.len() > 1 && u[1] == 47)
}

/// The length of `o[..end]` without its trailing `/` characters.
pub open spec fn without_trailing_slashes(o: Seq<u8>, end: int) -> int
    decreases end,
{
    if end > 0 && end <= o.len() && o[end - 1] == 47 {
        without_trailing_slashes(o, end - 1)
    } else {
        end
    }
}

/// The length of `p[..end]` without its trailing spaces.
pub open spec fn without_trailing_spaces(p: Seq<u8>, end: int) -> int
    decreases end,
{
    if end > 0 && end <= p.len() && p[end - 1] == 32 {
        without_trailing_spaces(p, end - 1)
    } else {
        end
    }
}

} // verus!
