//! The single-pass HTML-to-Markdown converter.
//!
//! The output buffer only ever grows at its end while a conversion runs, so
//! every byte handed out by `get_markdown_chunk` is final. The converter
//! keeps, as ghost state, the whole output written so far (`out`), how much
//! of its front has been released (`drained`), and the concatenation of all
//! chunks handed out (`streamed`). Its invariant ties the chunks to that
//! output: they are exactly the output from its first non-whitespace byte up
//! to the end of the last chunk, with blank-line runs squeezed when that
//! cleanup is on.

pub mod column;
pub mod node;
pub mod handlers;
pub mod selector;
pub mod render;
pub mod script;
pub mod parse;
pub mod plugins;

use vstd::prelude::*;
use vstd::string::StringSliceAdditionalSpecFns;
use crate::attributes::{attrs_retained_bytes, lemma_text_bytes_nonneg, Attributes};
use crate::scan::{leading_blank, trailing_blank, trim_bounds, trim_end_bound, trim_end_index, trim_start_index};
use crate::tags::{MAX_TAG_ID, TAG_A};
use crate::text::{copy_range, string_from_bytes};
use crate::budget::{saturated, reserve_accounted, reserve_vec_accounted, vec_capacity, vector_capacity_bytes};
use crate::types::{ExtractedElement, HTMLToMarkdownOptions, OutputFormat, StreamingError};
use self::column::{
    advance_column, column_after, lemma_column_after_concat, lemma_yield_filter_concat,
    squeeze_range, squeeze_run, yield_filter,
};
use self::node::{ElementNode, OverflowState, TokenizerContext};
use self::selector::{parse_selector, Selector};

verus! {

/// Elements nested deeper than this are summarised, not tracked one by one.
pub const MAX_ELEMENT_DEPTH: usize = 512;
/// Plain text a streaming conversion collects before it renders a stable prefix.
pub const TEXT_LOOKBEHIND: usize = 64;
/// Most columns a bounded conversion lays out for a table.
pub const MAX_TABLE_COLUMNS: usize = 256;
pub const MAX_EXTRACTION_SELECTORS: usize = 64;
pub const MAX_ACTIVE_EXTRACTIONS: usize = 64;
pub const MAX_EXTRACTION_RESULTS: usize = 256;
pub const MAX_EXTRACTION_RESULT_BYTES: usize = 65536;
pub const MAX_FRONTMATTER_FIELDS: usize = 64;
pub const MAX_FRONTMATTER_VALUE_BYTES: usize = 65536;
pub const MAX_FRONTMATTER_BYTES: usize = 262144;

/// Settings fixed when a conversion starts.
#[derive(Clone, Copy)]
pub struct Config {
    pub plain_text: bool,
    pub wrap_width: usize,
    pub clean_empty_links: bool,
    pub clean_fragments: bool,
    pub squeeze_blank_lines: bool,
    pub has_plugins: bool,
    pub has_isolate_main: bool,
    pub has_frontmatter: bool,
    pub has_filter: bool,
    pub has_extraction: bool,
    pub has_tag_overrides: bool,
    pub filter_process_children: bool,
    pub streaming_limit: Option<usize>,
    pub incremental_lexing: bool,
    pub drain_enabled: bool,
}

/// Flags of the tokenizer between bytes.
#[derive(Clone, Copy)]
pub struct ScanFlags {
    pub last_char_was_whitespace: bool,
    pub just_closed_tag: bool,
    pub in_non_nesting: bool,
    pub has_encoded_html_entity: bool,
    pub text_buffer_contains_non_whitespace: bool,
    pub text_buffer_contains_whitespace: bool,
    pub script_data_state: u8,
    pub excluded_depth: usize,
    pub hidden_since_depth: Option<usize>,
}

/// What is held back until visible content follows.
#[derive(Clone, Copy)]
pub struct Pen {
    pub pending_space: bool,
    pub pending_breaks: u8,
    pub at_line_start: bool,
    pub wrote_any: bool,
    pub line_has_content: bool,
    pub code_depth: usize,
    pub pre_open: bool,
    pub pre_newlines: usize,
    /// Where the output of the outermost open link begins in the buffer:
    /// nothing from there on is handed out until the link closes.
    pub link_hold: usize,
}

/// The line prefix (list indentation, quote markers) and the stacks of
/// opening delimiters, list counters and table rows.
pub struct LineState {
    pub line_prefix: Vec<u8>,
    pub prefix_lens: Vec<usize>,
    pub pending_opens: Vec<(usize, usize)>,
    pub list_counters: Vec<(bool, usize)>,
    pub table_cells: Vec<(usize, usize)>,
}

/// Plugin state: frontmatter, extraction, filtering and main isolation.
pub struct PluginState {
    pub frontmatter_in_head: bool,
    pub frontmatter_title: Option<Vec<u8>>,
    pub frontmatter_meta: Vec<(Vec<u8>, Vec<u8>)>,
    pub extraction_selectors: Vec<(String, Selector)>,
    pub extraction_tracked: Vec<TrackedExtraction>,
    pub extraction_results: Vec<ExtractedElement>,
    pub filter_include: Vec<Selector>,
    pub filter_exclude: Vec<Selector>,
    pub isolate_main_found: bool,
    pub isolate_main_closed: bool,
    pub isolate_first_header_depth: Option<usize>,
    pub isolate_fallback_output_start: Option<usize>,
    pub isolate_after_footer: bool,
}

/// An element being collected for extraction.
pub struct TrackedExtraction {
    pub selector: String,
    pub stack_depth: usize,
    pub text_content: Vec<u8>,
    pub tag_name: String,
    pub attributes: Vec<(String, String)>,
    pub limit_exceeded: bool,
}

/// The converter: parser state, the Markdown written so far, and the
/// bookkeeping of what has been handed out.
pub struct ConvertState {
    pub options: HTMLToMarkdownOptions,
    pub config: Config,
    pub streaming_error: Option<StreamingError>,

    // Parser.
    pub depth_map: Vec<u16>,
    pub stack: Vec<ElementNode>,
    pub tokenizer_contexts: Vec<TokenizerContext>,
    pub overflow: Option<OverflowState>,
    pub scan: ScanFlags,

    // Output.
    pub buffer: Vec<u8>,
    pub pen: Pen,
    pub lines: LineState,
    pub output_column: usize,
    pub buffer_start_column: usize,
    pub last_yielded_length: usize,
    pub has_streamed_output: bool,
    pub clean_newline_run: u8,

    pub plugins: PluginState,

    // Ghost bookkeeping of the output.
    pub out: Ghost<Seq<u8>>,
    pub drained: Ghost<int>,
    pub lead: Ghost<int>,
    pub streamed: Ghost<Seq<u8>>,
}

impl ConvertState {
    /// Absolute position, in the whole output, of the end of what was handed out.
    pub open spec fn yield_pos(&self) -> int {
        self.drained@ + self.last_yielded_length
    }

    /// What the chunks handed out so far must add up to: while nothing was
    /// handed out, nothing; afterwards, the output from `lead` to the end of
    /// the last chunk, blank-line runs squeezed when `squeeze` is set; the
    /// output before `lead` is whitespace, and nothing is released before
    /// anything is handed out.
    #[verifier::opaque]
    pub open spec fn stream_law(
        has_streamed: bool,
        lead: int,
        yield_pos: int,
        last_yielded: usize,
        streamed: Seq<u8>,
        out: Seq<u8>,
        squeeze: bool,
        run: u8,
        drained: int,
    ) -> bool {
        if has_streamed {
            &&& 0 <= lead <= yield_pos
            &&& streamed == yield_filter(squeeze, 0, out.subrange(lead, yield_pos))
            &&& (squeeze ==> run == squeeze_run(0, out.subrange(lead, yield_pos)))
            &&& leading_blank(out.subrange(0, lead))
        } else {
            &&& streamed == Seq::<u8>::empty()
            &&& last_yielded == 0
            &&& run == 0
            &&& drained == 0
        }
    }

    /// What a converter has handed out is a contiguous piece of its output,
    /// blank-line runs squeezed when that cleanup is on.
    pub proof fn lemma_handed_out_is_output_slice(&self)
        requires
            self.wf(),
            self.streaming_error is None,
        ensures
            exists|a: int, b: int| 0 <= a <= b <= self.written().len()
                && self.handed_out() == yield_filter(self.config.squeeze_blank_lines, 0, self.written().subrange(a, b)),
    {
        reveal(ConvertState::stream_law);
        if self.has_streamed_output {
            assert(0 <= self.lead@ <= self.yield_pos() <= self.written().len());
        } else {
            assert(self.written().subrange(0, 0) =~= Seq::<u8>::empty());
            assert(column::squeeze(0, Seq::<u8>::empty()) =~= Seq::<u8>::empty());
            assert(self.handed_out() == yield_filter(self.config.squeeze_blank_lines, 0, self.written().subrange(0, 0)));
        }
    }

    /// The law survives any change of the output that keeps its first
    /// `yield_pos` bytes.
    pub proof fn lemma_law_frozen_prefix(
        has_streamed: bool,
        lead: int,
        yield_pos: int,
        last_yielded: usize,
        streamed: Seq<u8>,
        out: Seq<u8>,
        squeeze: bool,
        run: u8,
        drained: int,
        out2: Seq<u8>,
    )
        requires
            Self::stream_law(has_streamed, lead, yield_pos, last_yielded, streamed, out, squeeze, run, drained),
            0 <= yield_pos <= out.len(),
            yield_pos <= out2.len(),
            out2.subrange(0, yield_pos) == out.subrange(0, yield_pos),
        ensures
            Self::stream_law(has_streamed, lead, yield_pos, last_yielded, streamed, out2, squeeze, run, drained),
    {
        reveal(ConvertState::stream_law);
        if has_streamed {
            assert(out2.subrange(lead, yield_pos) =~= out2.subrange(0, yield_pos).subrange(lead, yield_pos));
            assert(out.subrange(lead, yield_pos) =~= out.subrange(0, yield_pos).subrange(lead, yield_pos));
            assert(out2.subrange(0, lead) =~= out2.subrange(0, yield_pos).subrange(0, lead));
            assert(out.subrange(0, lead) =~= out.subrange(0, yield_pos).subrange(0, lead));
        }
    }

    /// The law does not read the end of the last chunk within the buffer
    /// once something was handed out.
    pub proof fn lemma_law_rebase(
        has_streamed: bool,
        lead: int,
        yield_pos: int,
        last_yielded: usize,
        last_yielded2: usize,
        streamed: Seq<u8>,
        out: Seq<u8>,
        squeeze: bool,
        run: u8,
        drained: int,
        drained2: int,
    )
        requires
            Self::stream_law(has_streamed, lead, yield_pos, last_yielded, streamed, out, squeeze, run, drained),
            last_yielded > 0,
        ensures
            has_streamed,
            Self::stream_law(has_streamed, lead, yield_pos, last_yielded2, streamed, out, squeeze, run, drained2),
    {
        reveal(ConvertState::stream_law);
    }

    /// Everything written has been handed out but whitespace at either end:
    /// what was handed out is `written[a..b]` (filtered as the law says),
    /// and `written[..a]` and `written[b..]` are whitespace.
    pub open spec fn handed_out_all(&self) -> bool {
        exists|a: int, b: int| 0 <= a <= b <= self.written().len()
            && self.handed_out() == yield_filter(self.config.squeeze_blank_lines, 0, self.written().subrange(a, b))
            && leading_blank(self.written().subrange(0, a))
            && trailing_blank(self.written().subrange(b, self.written().len() as int))
    }

    pub open spec fn law_holds(&self) -> bool {
        Self::stream_law(self.has_streamed_output, self.lead@, self.yield_pos(), self.last_yielded_length,
            self.streamed@, self.out@, self.config.squeeze_blank_lines, self.clean_newline_run, self.drained@)
    }

    pub open spec fn output_wf(&self) -> bool {
        &&& 0 <= self.drained@ <= self.out@.len()
        &&& self.buffer@ == self.out@.subrange(self.drained@, self.out@.len() as int)
        &&& self.last_yielded_length <= self.buffer@.len()
        &&& self.buffer_start_column <= usize::MAX
        &&& (self.config.wrap_width != 0 ==> self.output_column == column_after(self.buffer_start_column as nat, self.buffer@))
        &&& (self.streaming_error is None ==> self.law_holds())
    }

    /// What output-only operations leave alone: the parser state, the
    /// configuration, the error and what was handed out.
    pub open spec fn keeps_parse(&self, o: &Self) -> bool {
        &&& self.stack@ == o.stack@
        &&& self.tokenizer_contexts@ == o.tokenizer_contexts@
        &&& self.depth_map@ == o.depth_map@
        &&& self.config.streaming_limit == o.config.streaming_limit
        &&& self.config.incremental_lexing == o.config.incremental_lexing
        &&& self.config.plain_text == o.config.plain_text
        &&& self.config == o.config
        &&& self.handed_out() == o.handed_out()
        &&& (o.config.streaming_limit is None ==> self.releases_as(o))
    }

    /// Nothing more was handed out or released than in `o`.
    pub open spec fn releases_as(&self, o: &Self) -> bool {
        &&& self.has_streamed_output == o.has_streamed_output
        &&& self.drained@ == o.drained@
    }

    pub open spec fn wf(&self) -> bool {
        &&& (self.config.streaming_limit is None ==> self.streaming_error is None)
        &&& self.depth_map@.len() == MAX_TAG_ID
        &&& self.tokenizer_contexts@.len() == self.stack@.len()
        &&& self.stack@.len() <= MAX_ELEMENT_DEPTH + 1
        &&& self.output_wf()
        &&& (self.config.plain_text ==> render::all_blank(self.lines.line_prefix@))
    }

    /// The output written so far (since the whole output was last taken at
    /// once), including what was released.
    pub open spec fn written(&self) -> Seq<u8> {
        self.out@
    }

    /// Everything handed out by `get_markdown_chunk` so far.
    pub open spec fn handed_out(&self) -> Seq<u8> {
        self.streamed@
    }

    /// The parser state of a converter that has read nothing: no element
    /// open, no overflow, collapsing leading whitespace, no tag counted, no
    /// plugin triggered and nothing released.
    pub open spec fn starts_fresh(&self) -> bool {
        &&& self.stack@.len() == 0
        &&& self.overflow is None
        &&& self.scan.last_char_was_whitespace
        &&& !self.scan.just_closed_tag
        &&& !self.scan.in_non_nesting
        &&& !self.scan.has_encoded_html_entity
        &&& self.scan.excluded_depth == 0
        &&& self.scan.hidden_since_depth is None
        &&& (forall|i: int| 0 <= i < self.depth_map@.len() ==> self.depth_map@[i] == 0)
        &&& !self.config.incremental_lexing
        &&& !self.plugins.frontmatter_in_head
        &&& !self.plugins.isolate_main_found
        &&& self.plugins.extraction_tracked@.len() == 0
        &&& !self.has_streamed_output
        &&& self.drained@ == 0
    }

    pub fn new(options: HTMLToMarkdownOptions, capacity: usize, format: OutputFormat) -> (r: Self)
        ensures
            r.wf(),
            r.written() == Seq::<u8>::empty(),
            r.handed_out() == Seq::<u8>::empty(),
            r.stack@.len() == 0,
            r.config.streaming_limit is None,
            r.config.plain_text == (format == OutputFormat::Text),
            r.config.wrap_width == options.wrap_width,
            r.config.has_frontmatter == (options.plugins matches Some(p) && p.frontmatter is Some),
            r.config.has_extraction == (options.plugins matches Some(p) && p.extraction is Some),
            r.streaming_error is None,
            r.buffer@.len() == 0,
            r.options.clean_urls == (match options.clean { Some(c) => c.urls, None => options.clean_urls }),
            r.config.clean_empty_links == (match options.clean { Some(c) => c.empty_links, None => false }),
            r.config.clean_fragments == (match options.clean { Some(c) => c.fragments, None => false }),
            r.config.squeeze_blank_lines == (match options.clean { Some(c) => c.blank_lines && format != OutputFormat::Text, None => false }),
            r.config.has_isolate_main == (options.plugins matches Some(p) && p.isolate_main is Some),
            r.starts_fresh(),
    {
        Self::new_inner(options, capacity, format, None)
    }

    pub fn new_bounded(options: HTMLToMarkdownOptions, format: OutputFormat, max_buffered_bytes: usize) -> (r: Self)
        ensures
            r.wf(),
            r.written() == Seq::<u8>::empty(),
            r.handed_out() == Seq::<u8>::empty(),
            r.stack@.len() == 0,
            r.config.streaming_limit == Some(max_buffered_bytes),
            r.streaming_error is None,
            r.config.plain_text == (format == OutputFormat::Text),
    {
        Self::new_inner(options, 0, format, Some(max_buffered_bytes))
    }

    fn parse_selectors(list: &Vec<String>, max: usize, with_text: bool) -> (r: (Vec<Selector>, Vec<(String, Selector)>))
        ensures
            !with_text ==> r.1@.len() == 0 && r.0@.len() == list@.len(),
            with_text ==> r.0@.len() == 0 && r.1@.len() <= max && r.1@.len() <= list@.len(),
    {
        let mut plain: Vec<Selector> = Vec::new();
        let mut named: Vec<(String, Selector)> = Vec::new();
        let mut k: usize = 0;
        while k < list.len() && (named.len() < max || !with_text)
            invariant
                k <= list@.len(),
                !with_text ==> named@.len() == 0 && plain@.len() == k,
                with_text ==> plain@.len() == 0 && named@.len() <= max && named@.len() <= k,
            decreases list@.len() - k,
        {
            let text = &list[k];
            if text.as_str().len() <= MAX_EXTRACTION_RESULT_BYTES || !with_text {
                let sel = parse_selector(text.as_str().as_bytes());
                if with_text {
                    named.push((text.clone(), sel));
                } else {
                    plain.push(sel);
                }
            }
            k = k + 1;
        }
        (plain, named)
    }

    fn new_inner(options: HTMLToMarkdownOptions, capacity: usize, format: OutputFormat, streaming_limit: Option<usize>) -> (r: Self)
        ensures
            r.wf(),
            r.written() == Seq::<u8>::empty(),
            r.handed_out() == Seq::<u8>::empty(),
            r.stack@.len() == 0,
            r.config.streaming_limit == streaming_limit,
            r.streaming_error is None,
            r.config.plain_text == (format == OutputFormat::Text),
            r.config.wrap_width == options.wrap_width,
            r.config.has_frontmatter == (options.plugins matches Some(p) && p.frontmatter is Some),
            r.config.has_extraction == (options.plugins matches Some(p) && p.extraction is Some),
            r.options.clean_urls == (match options.clean { Some(c) => c.urls, None => options.clean_urls }),
            r.config.clean_empty_links == (match options.clean { Some(c) => c.empty_links, None => false }),
            r.config.clean_fragments == (match options.clean { Some(c) => c.fragments, None => false }),
            r.config.squeeze_blank_lines == (match options.clean { Some(c) => c.blank_lines && format != OutputFormat::Text, None => false }),
            r.config.has_isolate_main == (options.plugins matches Some(p) && p.isolate_main is Some),
            r.buffer@.len() == 0,
            r.starts_fresh(),
    {
        let plain_text = match format {
            OutputFormat::Text => true,
            OutputFormat::Markdown => false,
        };
        let mut options = options;
        let mut clean_empty_links = false;
        let mut clean_fragments = false;
        let mut squeeze_blank_lines = false;
        match &options.clean {
            Some(clean) => {
                clean_empty_links = clean.empty_links;
                clean_fragments = clean.fragments;
                squeeze_blank_lines = clean.blank_lines && !plain_text;
                options.clean_urls = clean.urls;
            },
            None => {},
        }
        let mut has_plugins = false;
        let mut has_isolate_main = false;
        let mut has_frontmatter = false;
        let mut has_filter = false;
        let mut has_extraction = false;
        let mut has_tag_overrides = false;
        let mut extraction_selectors: Vec<(String, Selector)> = Vec::new();
        let mut filter_include: Vec<Selector> = Vec::new();
        let mut filter_exclude: Vec<Selector> = Vec::new();
        let mut filter_process_children = true;
        match &options.plugins {
            Some(plugins) => {
                has_plugins = true;
                has_isolate_main = plugins.isolate_main.is_some();
                has_frontmatter = plugins.frontmatter.is_some();
                has_tag_overrides = plugins.tag_overrides.is_some();
                match &plugins.extraction {
                    Some(extraction) => {
                        has_extraction = true;
                        let (_, named) = Self::parse_selectors(&extraction.selectors, MAX_EXTRACTION_SELECTORS, true);
                        extraction_selectors = named;
                    },
                    None => {},
                }
                match &plugins.filter {
                    Some(filter) => {
                        has_filter = true;
                        match &filter.include_selectors {
                            Some(list) => {
                                let (plain, _) = Self::parse_selectors(list, 0, false);
                                filter_include = plain;
                            },
                            None => {},
                        }
                        match &filter.exclude {
                            Some(list) => {
                                let (plain, _) = Self::parse_selectors(list, 0, false);
                                filter_exclude = plain;
                            },
                            None => {},
                        }
                        filter_process_children = match filter.process_children {
                            Some(b) => b,
                            None => true,
                        };
                    },
                    None => {},
                }
            },
            None => {},
        }
        let wrap_width = options.wrap_width;
        let buffer: Vec<u8> = match streaming_limit {
            Some(_) => Vec::new(),
            None => Vec::with_capacity(if capacity < 1024 { 1024 } else { capacity }),
        };
        let config = Config {
            plain_text,
            wrap_width,
            clean_empty_links,
            clean_fragments,
            squeeze_blank_lines,
            has_plugins,
            has_isolate_main,
            has_frontmatter,
            has_filter,
            has_extraction,
            has_tag_overrides,
            filter_process_children,
            streaming_limit,
            incremental_lexing: false,
            drain_enabled: true,
        };
        let scan = ScanFlags {
            last_char_was_whitespace: true,
            just_closed_tag: false,
            in_non_nesting: false,
            has_encoded_html_entity: false,
            text_buffer_contains_non_whitespace: false,
            text_buffer_contains_whitespace: false,
            script_data_state: 0,
            excluded_depth: 0,
            hidden_since_depth: None,
        };
        let pen = Pen {
            pending_space: false,
            pending_breaks: 0,
            at_line_start: true,
            wrote_any: false,
            line_has_content: false,
            code_depth: 0,
            pre_open: false,
            pre_newlines: 0,
            link_hold: 0,
        };
        let lines = LineState {
            line_prefix: Vec::new(),
            prefix_lens: Vec::new(),
            pending_opens: Vec::new(),
            list_counters: Vec::new(),
            table_cells: Vec::new(),
        };
        let plugin_state = PluginState {
            frontmatter_in_head: false,
            frontmatter_title: None,
            frontmatter_meta: Vec::new(),
            extraction_selectors,
            extraction_tracked: Vec::new(),
            extraction_results: Vec::new(),
            filter_include,
            filter_exclude,
            isolate_main_found: false,
            isolate_main_closed: false,
            isolate_first_header_depth: None,
            isolate_fallback_output_start: None,
            isolate_after_footer: false,
        };
        let s = ConvertState {
            options,
            config,
            streaming_error: None,
            depth_map: vec![0u16; MAX_TAG_ID],
            stack: Vec::new(),
            tokenizer_contexts: Vec::new(),
            overflow: None,
            scan,
            buffer,
            pen,
            lines,
            output_column: 0,
            buffer_start_column: 0,
            last_yielded_length: 0,
            has_streamed_output: false,
            clean_newline_run: 0,
            plugins: plugin_state,
            out: Ghost(Seq::empty()),
            drained: Ghost(0),
            lead: Ghost(0),
            streamed: Ghost(Seq::empty()),
        };
        assert(s.buffer@ =~= s.out@.subrange(0, 0));
        proof {
            reveal(ConvertState::stream_law);
        }
        s
    }

    pub fn streaming_error(&self) -> (r: Option<StreamingError>)
        ensures
            r == self.streaming_error,
    {
        self.streaming_error
    }

    pub fn enable_incremental_lexing(&mut self)
        requires
            old(self).wf(),
        ensures
            final(self).wf(),
            final(self).config.incremental_lexing,
            final(self).written() == old(self).written(),
            final(self).handed_out() == old(self).handed_out(),
            final(self).config.streaming_limit == old(self).config.streaming_limit,
            final(self).streaming_error == old(self).streaming_error,
    {
        self.config.incremental_lexing = true;
    }

    /// Keeps every handed-out byte in the buffer; the output is the same
    /// either way, only memory use differs.
    pub fn disable_draining(&mut self)
        requires
            old(self).wf(),
        ensures
            final(self).wf(),
            !final(self).config.drain_enabled,
            final(self).written() == old(self).written(),
            final(self).handed_out() == old(self).handed_out(),
            final(self).config.streaming_limit == old(self).config.streaming_limit,
            final(self).streaming_error == old(self).streaming_error,
            final(self).config.incremental_lexing == old(self).config.incremental_lexing,
    {
        self.config.drain_enabled = false;
    }

    /// Bytes of output held in the buffer.
    pub fn buffered_output_len(&self) -> (r: usize)
        ensures
            r == self.buffer@.len(),
    {
        self.buffer.len()
    }

    /// Open elements.
    pub fn stack_len(&self) -> (r: usize)
        ensures
            r == self.stack@.len(),
    {
        self.stack.len()
    }

    /// Tokenizer contexts, one per open element.
    pub fn tokenizer_context_len(&self) -> (r: usize)
        ensures
            r == self.tokenizer_contexts@.len(),
    {
        self.tokenizer_contexts.len()
    }

    /// How many elements deep the current overflow summary is, if any.
    pub fn overflow_root_depth(&self) -> (r: Option<usize>)
        ensures
            r == (match self.overflow {
                Some(o) => Some(o.root_depth),
                None => None::<usize>,
            }),
    {
        match &self.overflow {
            Some(o) => Some(o.root_depth),
            None => None,
        }
    }

    /// The rendered column at the end of the output (tracked when wrapping).
    pub fn output_column(&self) -> (r: usize)
        ensures
            r == self.output_column,
    {
        self.output_column
    }

    /// Records the first error of a bounded conversion.
    pub fn fail_streaming(&mut self, error: StreamingError)
        requires
            old(self).wf(),
            old(self).config.streaming_limit is Some,
        ensures
            final(self).wf(),
            final(self).written() == old(self).written(),
            old(self).streaming_error is Some ==> final(self).streaming_error == old(self).streaming_error,
            old(self).streaming_error is None ==> final(self).streaming_error is Some,
            final(self).handed_out() == old(self).handed_out(),
            final(self).config == old(self).config,
            final(self).stack@ == old(self).stack@,
            final(self).tokenizer_contexts@ == old(self).tokenizer_contexts@,
            final(self).depth_map@ == old(self).depth_map@,
            final(self).config.streaming_limit == old(self).config.streaming_limit,
            final(self).config.incremental_lexing == old(self).config.incremental_lexing,
            final(self).config.plain_text == old(self).config.plain_text,
            final(self).scan == old(self).scan,
            final(self).pen == old(self).pen,
            final(self).lines == old(self).lines,
            final(self).buffer@ == old(self).buffer@,
    {
        if self.streaming_error.is_none() {
            self.streaming_error = Some(error);
        }
    }

    /// Capacity held by the buffers of the open elements: their
    /// attributes, custom names and override strings.
    fn stack_dynamic_capacity(&self) -> (r: usize)
        ensures
            r >= saturated(elements_bytes(self.stack@)),
    {
        let mut total: usize = 0;
        let mut k: usize = 0;
        assert(self.stack@.take(0) =~= Seq::<ElementNode>::empty());
        while k < self.stack.len()
            invariant
                k <= self.stack@.len(),
                total >= saturated(elements_bytes(self.stack@.take(k as int))),
            decreases self.stack@.len() - k,
        {
            proof {
                lemma_elements_bytes_nonneg(self.stack@.take(k as int));
                assert(self.stack@.take(k as int + 1).drop_last() =~= self.stack@.take(k as int));
            }
            total = total.saturating_add(element_dynamic_capacity(&self.stack[k]));
            k = k + 1;
        }
        assert(self.stack@.take(k as int) =~= self.stack@);
        total
    }

    /// Bytes held by the buffers of the open elements.
    fn stack_dynamic_bytes(&self) -> (r: usize)
        ensures
            r == saturated(elements_bytes(self.stack@)),
    {
        let mut total: usize = 0;
        let mut k: usize = 0;
        assert(self.stack@.take(0) =~= Seq::<ElementNode>::empty());
        while k < self.stack.len()
            invariant
                k <= self.stack@.len(),
                total == saturated(elements_bytes(self.stack@.take(k as int))),
            decreases self.stack@.len() - k,
        {
            proof {
                lemma_elements_bytes_nonneg(self.stack@.take(k as int));
                assert(self.stack@.take(k as int + 1).drop_last() =~= self.stack@.take(k as int));
            }
            total = total.saturating_add(element_dynamic_bytes(&self.stack[k]));
            k = k + 1;
        }
        assert(self.stack@.take(k as int) =~= self.stack@);
        total
    }

    /// Charges one more open element against the ceiling `limit`: a slot in
    /// the element stack and in the tokenizer stack, each reserved exactly,
    /// and the element's own buffers. When the ceiling refuses, an
    /// allocator's excess may have dropped both stacks.
    pub(crate) fn reserve_element_slot(&mut self, limit: usize, node: &ElementNode) -> (r: Result<(), StreamingError>)
        requires
            old(self).wf(),
        ensures
            final(self).wf(),
            final(self).written() == old(self).written(),
            final(self).handed_out() == old(self).handed_out(),
            final(self).config == old(self).config,
            final(self).streaming_error == old(self).streaming_error,
            final(self).depth_map@ == old(self).depth_map@,
            r is Ok ==> final(self).stack@ == old(self).stack@,
            final(self).stack@.len() <= old(self).stack@.len(),
    {
        let required = self.stack.len() + 1;
        let mut contexts: Vec<TokenizerContext> = Vec::new();
        std::mem::swap(&mut contexts, &mut self.tokenizer_contexts);
        let retained = self.retained_buffer_capacity().saturating_add(vector_capacity_bytes(&contexts));
        let first = reserve_vec_accounted(&mut contexts, required, retained, limit);
        if first.is_err() {
            let mut stack: Vec<ElementNode> = Vec::new();
            std::mem::swap(&mut stack, &mut self.stack);
            return first;
        }
        std::mem::swap(&mut contexts, &mut self.tokenizer_contexts);
        let mut stack: Vec<ElementNode> = Vec::new();
        std::mem::swap(&mut stack, &mut self.stack);
        let retained = self.retained_buffer_capacity().saturating_add(vector_capacity_bytes(&stack));
        let second = reserve_vec_accounted(&mut stack, required, retained, limit);
        if second.is_err() {
            self.tokenizer_contexts = Vec::new();
            return second;
        }
        std::mem::swap(&mut stack, &mut self.stack);
        let total = self.retained_buffer_capacity().checked_add(element_dynamic_capacity(node));
        match total {
            Some(t) => {
                if t > limit {
                    return Err(StreamingError::BufferLimitExceeded);
                }
            },
            None => {
                return Err(StreamingError::CapacityOverflow);
            },
        }
        Ok(())
    }

    /// Capacity charged against the ceiling of a bounded conversion: the
    /// output, the line prefix, the open-element and helper stacks.
    pub fn retained_buffer_capacity(&self) -> (r: usize)
        ensures
            r >= self.buffer@.len(),
    {
        let parts: [usize; 10] = [
            vector_capacity_bytes(&self.buffer),
            self.stack_dynamic_capacity(),
            vector_capacity_bytes(&self.lines.line_prefix),
            vector_capacity_bytes(&self.stack),
            vector_capacity_bytes(&self.tokenizer_contexts),
            vector_capacity_bytes(&self.lines.pending_opens),
            vector_capacity_bytes(&self.lines.prefix_lens),
            vector_capacity_bytes(&self.lines.list_counters),
            vector_capacity_bytes(&self.lines.table_cells),
            match &self.overflow {
                Some(o) => vector_capacity_bytes(&o.root_name),
                None => 0,
            },
        ];
        let mut total: usize = 0;
        let mut k: usize = 0;
        while k < 10
            invariant
                k <= 10,
                parts[0] >= self.buffer@.len(),
                k > 0 ==> total >= parts[0],
            decreases 10 - k,
        {
            total = total.saturating_add(parts[k]);
            k = k + 1;
        }
        total
    }

    /// Appends bytes to the output, keeping the column. A bounded conversion
    /// first charges the growth; when that fails it records the error and
    /// writes nothing.
    pub fn push_output_bytes(&mut self, v: &[u8]) -> (r: bool)
        requires
            old(self).wf(),
        ensures
            final(self).wf(),
            final(self).keeps_parse(old(self)),
            r ==> final(self).written() == old(self).written() + v@,
            !r ==> final(self).written() == old(self).written(),
            r ==> final(self).streaming_error is None,
            old(self).streaming_error is Some ==> !r && final(self).streaming_error == old(self).streaming_error,
            old(self).config.streaming_limit is None ==> r == (old(self).streaming_error is None) && final(self).streaming_error == old(self).streaming_error,
            final(self).streaming_error is None ==> r,
            final(self).pen == old(self).pen,
            final(self).lines == old(self).lines,
            grows_from(old(self).written(), final(self).written()),
    {
        if self.streaming_error.is_some() {
            return false;
        }
        match self.config.streaming_limit {
            Some(limit) => {
                let required = match self.buffer.len().checked_add(v.len()) {
                    Some(n) => n,
                    None => {
                        self.fail_streaming(StreamingError::CapacityOverflow);
                        return false;
                    },
                };
                let retained = self.retained_buffer_capacity();
                let before_len = self.buffer.len();
                match reserve_accounted(&mut self.buffer, required, retained, limit) {
                    Ok(()) => {},
                    Err(e) => {
                        if self.buffer.len() != before_len {
                            self.drained = Ghost(self.out@.len() as int);
                            self.last_yielded_length = 0;
                            self.buffer_start_column = 0;
                            self.output_column = 0;
                        }
                        self.streaming_error = Some(e);
                        assert(self.buffer@ =~= self.out@.subrange(self.drained@, self.out@.len() as int));
                        return false;
                    },
                }
            },
            None => {},
        }
        let ghost old_out = self.out@;
        let ghost old_buf = self.buffer@;
        self.buffer.extend_from_slice(v);
        self.out = Ghost(old_out + v@);
        assert(self.buffer@ =~= self.out@.subrange(self.drained@, self.out@.len() as int));
        proof {
            assert(self.out@.subrange(0, self.yield_pos()) =~= old_out.subrange(0, self.yield_pos()));
            Self::lemma_law_frozen_prefix(self.has_streamed_output, self.lead@, self.yield_pos(), self.last_yielded_length,
                self.streamed@, old_out, self.config.squeeze_blank_lines, self.clean_newline_run, self.drained@, self.out@);
        }
        if self.config.wrap_width != 0 {
            let n = v.len();
            self.output_column = advance_column(self.output_column, v, 0, n);
            proof {
                assert(v@.subrange(0, n as int) =~= v@);
                assert(self.buffer@ =~= old_buf + v@);
                lemma_column_after_concat(self.buffer_start_column as nat, old_buf, v@);
            }
        }
        true
    }

    /// Appends a string to the output.
    pub fn push_output_str(&mut self, value: &str) -> (r: bool)
        requires
            old(self).wf(),
        ensures
            final(self).wf(),
            final(self).keeps_parse(old(self)),
            r ==> final(self).written() == old(self).written() + value.spec_bytes(),
            !r ==> final(self).written() == old(self).written(),
            old(self).config.streaming_limit is None ==> r == (old(self).streaming_error is None),
    {
        self.push_output_bytes(value.as_bytes())
    }

    /// The rendered column at buffer offset `offset`.
    pub fn column_at(&self, offset: usize) -> (r: usize)
        requires
            offset <= self.buffer@.len(),
        ensures
            r == column_after(self.buffer_start_column as nat, self.buffer@.subrange(0, offset as int)),
    {
        let mut k = offset;
        while k > 0 && self.buffer[k - 1] != 10
            invariant
                k <= offset <= self.buffer@.len(),
            decreases k,
        {
            k = k - 1;
        }
        let base = if k == 0 { self.buffer_start_column } else { 0 };
        let r = advance_column(base, self.buffer.as_slice(), k, offset);
        proof {
            let p = self.buffer@.subrange(0, offset as int);
            let a = self.buffer@.subrange(0, k as int);
            let b = self.buffer@.subrange(k as int, offset as int);
            assert(p =~= a + b);
            lemma_column_after_concat(self.buffer_start_column as nat, a, b);
            if k > 0 {
                assert(a.last() == 10);
                assert(column_after(self.buffer_start_column as nat, a) == 0);
            } else {
                assert(a =~= Seq::<u8>::empty());
            }
        }
        r
    }

    /// Shortens the output to `new_len` bytes, keeping the column. Bytes
    /// already handed out are never taken back.
    pub fn truncate_output(&mut self, new_len: usize)
        requires
            old(self).wf(),
        ensures
            final(self).wf(),
            final(self).keeps_parse(old(self)),
            final(self).handed_out() == old(self).handed_out(),
            new_len < old(self).last_yielded_length || new_len >= old(self).buffer@.len()
                ==> final(self).written() == old(self).written(),
            old(self).last_yielded_length <= new_len < old(self).buffer@.len()
                ==> final(self).written() == old(self).written().subrange(0, old(self).drained@ + new_len),
            final(self).buffer@.len() == (if old(self).last_yielded_length <= new_len < old(self).buffer@.len() {
                new_len as int
            } else {
                old(self).buffer@.len() as int
            }),
            final(self).pen == old(self).pen,
            final(self).plugins == old(self).plugins,
            final(self).scan == old(self).scan,
            final(self).drained@ == old(self).drained@,
            final(self).buffer@ == (if old(self).last_yielded_length <= new_len < old(self).buffer@.len() {
                old(self).buffer@.subrange(0, new_len as int)
            } else {
                old(self).buffer@
            }),
            final(self).buffer_start_column == old(self).buffer_start_column,
            old(self).config.wrap_width != 0 ==> final(self).output_column == column_after(old(self).buffer_start_column as nat, final(self).buffer@),
    {
        if new_len >= self.buffer.len() || new_len < self.last_yielded_length {
            return;
        }
        let ghost old_out = self.out@;
        if self.config.wrap_width != 0 {
            self.output_column = self.column_at(new_len);
        }
        self.buffer.truncate(new_len);
        self.out = Ghost(old_out.subrange(0, self.drained@ + new_len));
        assert(self.buffer@ =~= self.out@.subrange(self.drained@, self.out@.len() as int));
        proof {
            if self.streaming_error is None {
                assert(self.out@.subrange(0, self.yield_pos()) =~= old_out.subrange(0, self.yield_pos()));
                Self::lemma_law_frozen_prefix(self.has_streamed_output, self.lead@, self.yield_pos(), self.last_yielded_length,
                    self.streamed@, old_out, self.config.squeeze_blank_lines, self.clean_newline_run, self.drained@, self.out@);
            }
        }
    }

    /// Replaces `buffer[start..end]` with `replacement`, keeping the column.
    /// Bytes already handed out are never rewritten.
    pub fn replace_output_range(&mut self, start: usize, end: usize, replacement: &[u8]) -> (r: bool)
        requires
            old(self).wf(),
        ensures
            final(self).wf(),
            final(self).keeps_parse(old(self)),
            final(self).handed_out() == old(self).handed_out(),
            r == (old(self).last_yielded_length <= start <= end <= old(self).buffer@.len() && old(self).streaming_error is None),
            r ==> final(self).written() == old(self).written().subrange(0, old(self).drained@ + start) + replacement@
                + old(self).written().subrange(old(self).drained@ + end, old(self).written().len() as int),
            !r ==> final(self).written() == old(self).written(),
            r ==> final(self).buffer@ == old(self).buffer@.subrange(0, start as int) + replacement@
                + old(self).buffer@.subrange(end as int, old(self).buffer@.len() as int),
            !r ==> final(self).buffer@ == old(self).buffer@,
            final(self).buffer_start_column == old(self).buffer_start_column,
            old(self).config.wrap_width != 0 ==> final(self).output_column == column_after(old(self).buffer_start_column as nat, final(self).buffer@),
    {
        if !(self.last_yielded_length <= start && start <= end && end <= self.buffer.len()) || self.streaming_error.is_some() {
            return false;
        }
        let ghost old_out = self.out@;
        let n = self.buffer.len();
        let mut rebuilt = copy_range(self.buffer.as_slice(), 0, start);
        rebuilt.extend_from_slice(replacement);
        let tail = copy_range(self.buffer.as_slice(), end, n);
        rebuilt.extend_from_slice(tail.as_slice());
        let ghost new_out = old_out.subrange(0, self.drained@ + start) + replacement@ + old_out.subrange(self.drained@ + end, old_out.len() as int);
        self.buffer = rebuilt;
        self.out = Ghost(new_out);
        assert(self.buffer@ =~= self.out@.subrange(self.drained@, self.out@.len() as int));
        if self.config.wrap_width != 0 {
            let c = self.column_at(start);
            let m = replacement.len();
            let c2 = advance_column(c, replacement, 0, m);
            self.output_column = advance_column(c2, tail.as_slice(), 0, tail.len());
            proof {
                let b = self.buffer@;
                let p = b.subrange(0, start as int);
                assert(replacement@.subrange(0, m as int) =~= replacement@);
                assert(tail@.subrange(0, tail@.len() as int) =~= tail@);
                assert(b =~= p + replacement@ + tail@);
                lemma_column_after_concat(self.buffer_start_column as nat, p, replacement@);
                lemma_column_after_concat(self.buffer_start_column as nat, p + replacement@, tail@);
            }
        }
        proof {
            if self.streaming_error is None {
                assert(self.out@.subrange(0, self.yield_pos()) =~= old_out.subrange(0, self.yield_pos()));
                Self::lemma_law_frozen_prefix(self.has_streamed_output, self.lead@, self.yield_pos(), self.last_yielded_length,
                    self.streamed@, old_out, self.config.squeeze_blank_lines, self.clean_newline_run, self.drained@, self.out@);
            }
        }
        true
    }

    /// Releases the first `end` bytes of the buffer, which must already have
    /// been handed out. The column at the new buffer start is kept.
    pub fn drain_output_prefix(&mut self, end: usize)
        requires
            old(self).wf(),
        ensures
            final(self).wf(),
            final(self).written() == old(self).written(),
            final(self).handed_out() == old(self).handed_out(),
            final(self).yield_pos() == old(self).yield_pos(),
            final(self).config == old(self).config,
            end <= old(self).last_yielded_length ==> final(self).buffer@.len() == old(self).buffer@.len() - end,
            final(self).streaming_error == old(self).streaming_error,
            final(self).stack@ == old(self).stack@,
            final(self).config.streaming_limit == old(self).config.streaming_limit,
            final(self).config.incremental_lexing == old(self).config.incremental_lexing,
    {
        if end > self.last_yielded_length || end == 0 {
            return;
        }
        proof {
            if self.streaming_error is None {
                Self::lemma_law_rebase(self.has_streamed_output, self.lead@, self.yield_pos(), self.last_yielded_length,
                    (self.last_yielded_length - end) as usize, self.streamed@, self.out@, self.config.squeeze_blank_lines, self.clean_newline_run,
                    self.drained@, self.drained@ + end);
            }
        }
        let start_column = if self.config.wrap_width != 0 { self.column_at(end) } else { self.buffer_start_column };
        let ghost old_buf = self.buffer@;
        let tail = self.buffer.split_off(end);
        self.buffer = tail;
        self.drained = Ghost(self.drained@ + end);
        self.last_yielded_length = self.last_yielded_length - end;
        self.buffer_start_column = start_column;
        let mut pen = self.pen;
        pen.link_hold = pen.link_hold.saturating_sub(end);
        self.pen = pen;
        assert(self.buffer@ =~= self.out@.subrange(self.drained@, self.out@.len() as int));
        proof {
            if self.config.wrap_width != 0 {
                let a = old_buf.subrange(0, end as int);
                assert(old_buf =~= a + self.buffer@);
                lemma_column_after_concat(self.buffer_start_column as nat, a, self.buffer@);
                lemma_column_after_concat(old(self).buffer_start_column as nat, a, self.buffer@);
            }
        }
    }

    /// Hands out the output that is final: everything after the previous
    /// chunk up to the last non-whitespace character (leading whitespace of
    /// the document is never handed out), with blank-line runs squeezed when
    /// that cleanup is on. Then releases what was handed out.
    #[verifier::rlimit(60)]
    #[verifier::spinoff_prover]
    pub fn take_markdown_chunk(&mut self) -> (r: Vec<u8>)
        requires
            old(self).wf(),
        ensures
            final(self).wf(),
            final(self).written() == old(self).written(),
            final(self).handed_out() == old(self).handed_out() + r@,
            final(self).streaming_error == old(self).streaming_error,
            old(self).streaming_error is Some ==> r@.len() == 0,
            final(self).stack@ == old(self).stack@,
            final(self).config.streaming_limit == old(self).config.streaming_limit,
            final(self).config.incremental_lexing == old(self).config.incremental_lexing,
            final(self).stack@.len() == 0 && final(self).streaming_error is None ==> final(self).handed_out_all(),
            final(self).buffer@.len() <= old(self).buffer@.len(),
            final(self).config == old(self).config,
            r@.len() > 0 ==> !(9 <= r@.last() <= 13 || r@.last() == 32),
    {
        reveal(ConvertState::stream_law);
        if self.streaming_error.is_some() {
            assert(self.streamed@ + Seq::<u8>::empty() =~= self.streamed@);
            return Vec::new();
        }
        let len = self.buffer.len();
        let start = if self.has_streamed_output {
            self.last_yielded_length
        } else {
            let (s, _) = trim_bounds(self.buffer.as_slice(), 0, len);
            s
        };
        let full_end = trim_end_bound(self.buffer.as_slice(), start, len);
        proof { crate::scan::lemma_trim_end_stops(self.buffer@, start as int, len as int); }
        let mut end = full_end;
        if self.stack.len() > 0 && self.depth_map[TAG_A as usize] > 0 && self.pen.link_hold < end {
            let hold = self.pen.link_hold;
            end = if hold > start { trim_end_bound(self.buffer.as_slice(), start, hold) } else { start };
            proof {
                if hold > start {
                    crate::scan::lemma_trim_end_stops(self.buffer@, start as int, hold as int);
                }
            }
        }
        if start >= end {
            proof {
                if self.stack@.len() == 0 {
                    crate::scan::lemma_trim_end_bounds(self.buffer@, start as int, len as int);
                    self.lemma_all_handed_out_at(start as int, start as int);
                }
            }
            self.release_yielded();
            assert(self.streamed@ + Seq::<u8>::empty() =~= self.streamed@);
            return Vec::new();
        }
        let ghost old_streamed = self.streamed@;
        let ghost piece = self.buffer@.subrange(start as int, end as int);
        let ghost out = self.out@;
        let (chunk, run) = if self.config.squeeze_blank_lines {
            squeeze_range(self.clean_newline_run, self.buffer.as_slice(), start, end)
        } else {
            (copy_range(self.buffer.as_slice(), start, end), self.clean_newline_run)
        };
        proof {
            let last = self.buffer@[end - 1];
            assert(!(9 <= last <= 13 || last == 32));
            assert(piece.last() == last);
            if self.config.squeeze_blank_lines {
                assert(column::squeeze_keeps(column::squeeze_run(self.clean_newline_run, piece.drop_last()), piece.last()));
                assert(chunk@ == column::squeeze(self.clean_newline_run, piece.drop_last()).push(piece.last()));
            }
        }
        proof {
            assert(piece =~= out.subrange(self.drained@ + start, self.drained@ + end));
            if self.has_streamed_output {
                let a = out.subrange(self.lead@, self.yield_pos());
                assert(out.subrange(self.lead@, self.drained@ + end) =~= a + piece);
                lemma_yield_filter_concat(self.config.squeeze_blank_lines, 0, a, piece);
                column::lemma_squeeze_concat(0, a, piece);
            } else {
                assert(self.drained@ + start >= 0);
            }
        }
        if !self.has_streamed_output {
            self.lead = Ghost(self.drained@ + start);
            proof {
                assert(out.subrange(self.lead@, self.drained@ + end) =~= piece);
                assert(self.drained@ == 0);
                assert(self.buffer@ =~= out);
                crate::scan::lemma_trim_start_prefix(self.buffer@, 0, start as int);
                assert(out.subrange(0, self.lead@) =~= self.buffer@.subrange(0, start as int));
            }
        }
        self.has_streamed_output = true;
        self.last_yielded_length = end;
        self.clean_newline_run = run;
        self.streamed = Ghost(old_streamed + chunk@);
        proof {
            if self.stack@.len() == 0 {
                self.lemma_all_handed_out_at(start as int, end as int);
            }
        }
        self.release_yielded();
        chunk
    }

    /// When the buffer from `k` on is whitespace and the yield position sits
    /// at `k` (or, before anything was handed out, the output before `k` is
    /// whitespace too), everything was handed out.
    proof fn lemma_all_handed_out_at(&self, lo: int, k: int)
        requires
            self.output_wf(),
            self.streaming_error is None,
            0 <= lo <= k <= self.buffer@.len(),
            trim_end_index(self.buffer@, lo, self.buffer@.len() as int) == k,
            self.has_streamed_output ==> self.last_yielded_length == k,
            !self.has_streamed_output ==> trim_start_index(self.buffer@, 0, self.buffer@.len() as int) == k,
        ensures
            self.handed_out_all(),
    {
        reveal(ConvertState::stream_law);
        let w = self.written();
        let n = self.buffer@.len() as int;
        crate::scan::lemma_trim_end_suffix(self.buffer@, lo, n, k);
        assert(w.subrange(self.drained@ + k, w.len() as int) =~= self.buffer@.subrange(k, n));
        if self.has_streamed_output {
            assert(0 <= self.lead@ <= self.yield_pos() <= w.len());
        } else {
            assert(self.drained@ == 0);
            assert(self.buffer@ =~= w);
            crate::scan::lemma_trim_start_prefix(self.buffer@, 0, k);
            assert(w.subrange(k, k) =~= Seq::<u8>::empty());
            assert(column::squeeze(0, Seq::<u8>::empty()) =~= Seq::<u8>::empty());
            assert(self.handed_out() == yield_filter(self.config.squeeze_blank_lines, 0, w.subrange(k, k)));
            assert(w.subrange(0, k) =~= self.buffer@.subrange(0, k));
        }
    }

    /// Releases the handed-out front of the buffer when draining is on.
    fn release_yielded(&mut self)
        requires
            old(self).wf(),
        ensures
            final(self).wf(),
            final(self).config == old(self).config,
            old(self).handed_out_all() ==> final(self).handed_out_all(),
            final(self).written() == old(self).written(),
            final(self).handed_out() == old(self).handed_out(),
            final(self).streaming_error == old(self).streaming_error,
            final(self).stack@ == old(self).stack@,
            final(self).config.streaming_limit == old(self).config.streaming_limit,
            final(self).config.incremental_lexing == old(self).config.incremental_lexing,
            final(self).buffer@.len() == (if old(self).config.drain_enabled && !old(self).config.clean_fragments {
                old(self).buffer@.len() - old(self).last_yielded_length
            } else {
                old(self).buffer@.len() as int
            }),
    {
        if self.config.drain_enabled && !self.config.clean_fragments && self.last_yielded_length > 0 {
            let end = self.last_yielded_length;
            self.drain_output_prefix(end);
        }
        proof {
            if old(self).handed_out_all() {
                let (a, b) = choose|a: int, b: int| 0 <= a <= b <= old(self).written().len()
                    && old(self).handed_out() == yield_filter(old(self).config.squeeze_blank_lines, 0, old(self).written().subrange(a, b))
                    && leading_blank(old(self).written().subrange(0, a))
                    && trailing_blank(old(self).written().subrange(b, old(self).written().len() as int));
                assert(0 <= a <= b <= self.written().len()
                    && self.handed_out() == yield_filter(self.config.squeeze_blank_lines, 0, self.written().subrange(a, b))
                    && leading_blank(self.written().subrange(0, a))
                    && trailing_blank(self.written().subrange(b, self.written().len() as int)));
            }
        }
    }

    /// `get_markdown_chunk` as a `String`.
    pub fn get_markdown_chunk(&mut self) -> (r: String)
        requires
            old(self).wf(),
        ensures
            final(self).wf(),
            final(self).written() == old(self).written(),
            exists|piece: Seq<u8>| final(self).handed_out() == old(self).handed_out() + piece
                && (vstd::utf8::valid_utf8(piece) ==> r@ == vstd::utf8::decode_utf8(piece))
                && (piece.len() > 0 ==> !(9 <= piece.last() <= 13 || piece.last() == 32)),
            old(self).streaming_error is Some ==> r@.len() == 0,
            final(self).streaming_error == old(self).streaming_error,
            final(self).stack@ == old(self).stack@,
            final(self).config.streaming_limit == old(self).config.streaming_limit,
            final(self).config.incremental_lexing == old(self).config.incremental_lexing,
            final(self).stack@.len() == 0 && final(self).streaming_error is None ==> final(self).handed_out_all(),
            final(self).buffer@.len() <= old(self).buffer@.len(),
            final(self).config == old(self).config,
    {
        let bytes = self.take_markdown_chunk();
        let r = string_from_bytes(bytes.as_slice());
        proof {
            if old(self).streaming_error is Some {
                assert(bytes@ =~= Seq::<u8>::empty());
                assert(vstd::utf8::decode_utf8(bytes@) =~= Seq::<char>::empty());
            }
        }
        r
    }

    /// The whole remaining output without leading and trailing whitespace,
    /// blank-line runs squeezed when that cleanup is on. Leaves the buffer
    /// empty.
    pub fn take_markdown(&mut self) -> (r: Vec<u8>)
        requires
            old(self).wf(),
        ensures
            final(self).wf(),
            ({
                let b = old(self).buffer@;
                let lo = trim_start_index(b, 0, b.len() as int);
                let hi = trim_end_index(b, lo, b.len() as int);
                r@ == yield_filter(old(self).config.squeeze_blank_lines, old(self).clean_newline_run, b.subrange(lo, hi))
            }),
            final(self).stack@ == old(self).stack@,
            final(self).streaming_error == old(self).streaming_error,
            final(self).config == old(self).config,
    {
        let len = self.buffer.len();
        let (lo, hi) = trim_bounds(self.buffer.as_slice(), 0, len);
        let (text, run) = if self.config.squeeze_blank_lines {
            squeeze_range(self.clean_newline_run, self.buffer.as_slice(), lo, hi)
        } else {
            (copy_range(self.buffer.as_slice(), lo, hi), self.clean_newline_run)
        };
        self.buffer = Vec::new();
        self.out = Ghost(Seq::empty());
        self.drained = Ghost(0);
        self.last_yielded_length = 0;
        self.has_streamed_output = false;
        self.streamed = Ghost(Seq::empty());
        self.clean_newline_run = 0;
        self.buffer_start_column = 0;
        self.output_column = 0;
        assert(self.buffer@ =~= self.out@.subrange(self.drained@, self.out@.len() as int));
        proof {
            reveal(ConvertState::stream_law);
        }
        text
    }

    /// `take_markdown` as a `String`.
    pub fn get_markdown(&mut self) -> (r: String)
        requires
            old(self).wf(),
        ensures
            final(self).wf(),
            ({
                let b = old(self).buffer@;
                let lo = trim_start_index(b, 0, b.len() as int);
                let hi = trim_end_index(b, lo, b.len() as int);
                let t = yield_filter(old(self).config.squeeze_blank_lines, old(self).clean_newline_run, b.subrange(lo, hi));
                &&& vstd::utf8::valid_utf8(t) ==> r@ == vstd::utf8::decode_utf8(t)
                &&& t.len() > 0 && t.last() < 0x80 ==> r@.len() > 0 && r@.last() == (t.last() as char)
            }),
            final(self).stack@ == old(self).stack@,
            final(self).streaming_error == old(self).streaming_error,
            final(self).config == old(self).config,
    {
        let bytes = self.take_markdown();
        string_from_bytes(bytes.as_slice())
    }

    /// Trimming and squeezing the output keep a final printable ASCII byte.
    pub proof fn lemma_markdown_keeps_final_ascii(b: Seq<u8>, squeeze: bool, run: u8)
        requires
            b.len() > 0,
            32 < b.last() < 0x80,
        ensures
            ({
                let lo = trim_start_index(b, 0, b.len() as int);
                let hi = trim_end_index(b, lo, b.len() as int);
                let t = yield_filter(squeeze, run, b.subrange(lo, hi));
                t.len() > 0 && t.last() == b.last()
            }),
    {
        crate::scan::lemma_trim_keeps_final_ascii(b, 0);
        let lo = trim_start_index(b, 0, b.len() as int);
        let s = b.subrange(lo, b.len() as int);
        assert(s.last() == b.last());
        if squeeze {
            assert(column::squeeze_keeps(column::squeeze_run(run, s.drop_last()), s.last()));
            assert(column::squeeze(run, s) == column::squeeze(run, s.drop_last()).push(s.last()));
        }
    }

    /// Bytes held by the buffers a bounded conversion is charged for.
    pub fn retained_buffered_bytes(&self) -> (r: usize)
        ensures
            r >= self.buffer@.len(),
            self.holds_nothing() ==> r == 0,
    {
        proof {
            if self.holds_nothing() {
                assert(self.stack@ =~= Seq::<ElementNode>::empty());
            }
        }
        let parts: [usize; 6] = [
            self.buffer.len(),
            self.stack_dynamic_bytes(),
            self.lines.line_prefix.len(),
            match self.stack.len().checked_mul(core::mem::size_of::<ElementNode>()) { Some(b) => b, None => usize::MAX },
            match self.tokenizer_contexts.len().checked_mul(core::mem::size_of::<TokenizerContext>()) { Some(b) => b, None => usize::MAX },
            match self.lines.pending_opens.len().checked_mul(16) { Some(b) => b, None => usize::MAX },
        ];
        proof {
            if self.holds_nothing() {
                assert(elements_bytes(self.stack@) == 0);
                let a = self.stack@.len() as int;
                let b = self.tokenizer_contexts@.len() as int;
                let c = self.lines.pending_opens@.len() as int;
                let sa = vstd::layout::size_of::<ElementNode>() as int;
                let sb = vstd::layout::size_of::<TokenizerContext>() as int;
                assert(a * sa == 0 && b * sb == 0 && c * 16 == 0) by (nonlinear_arith)
                    requires a == 0, b == 0, c == 0;
                assert(parts[0] == 0 && parts[1] == 0 && parts[2] == 0);
                assert(parts[3] == 0 && parts[4] == 0 && parts[5] == 0);
            }
        }
        let mut total: usize = 0;
        let mut k: usize = 0;
        while k < 6
            invariant
                k <= 6,
                parts[0] == self.buffer@.len(),
                k > 0 ==> total >= parts[0],
                self.holds_nothing() ==> total == 0 && (forall|i: int| 0 <= i < 6 ==> parts[i] == 0),
            decreases 6 - k,
        {
            total = total.saturating_add(parts[k]);
            k = k + 1;
        }
        total
    }

    /// No output, open element or line state is held.
    pub open spec fn holds_nothing(&self) -> bool {
        &&& self.buffer@.len() == 0
        &&& self.stack@.len() == 0
        &&& self.tokenizer_contexts@.len() == 0
        &&& self.lines.line_prefix@.len() == 0
        &&& self.lines.pending_opens@.len() == 0
    }

    /// After a failure: drops every retained buffer and open element.
    pub fn release_retained_buffers(&mut self)
        requires
            old(self).wf(),
            old(self).streaming_error is Some,
        ensures
            final(self).wf(),
            final(self).config == old(self).config,
            final(self).streaming_error == old(self).streaming_error,
            final(self).handed_out() == old(self).handed_out(),
            final(self).buffer@.len() == 0,
            final(self).stack@.len() == 0,
            final(self).holds_nothing(),
    {
        self.buffer = Vec::new();
        self.drained = Ghost(self.out@.len() as int);
        self.last_yielded_length = 0;
        self.buffer_start_column = 0;
        self.output_column = 0;
        self.stack = Vec::new();
        self.tokenizer_contexts = Vec::new();
        self.overflow = None;
        self.lines = LineState {
            line_prefix: Vec::new(),
            prefix_lens: Vec::new(),
            pending_opens: Vec::new(),
            list_counters: Vec::new(),
            table_cells: Vec::new(),
        };
        assert(self.buffer@ =~= self.out@.subrange(self.drained@, self.out@.len() as int));
    }

    /// In a bounded conversion, gives back the capacity of helper stacks that
    /// are empty and of an output buffer much larger than its content.
    pub fn release_closed_high_water(&mut self)
        requires
            old(self).wf(),
        ensures
            final(self).wf(),
            final(self).written() == old(self).written(),
            final(self).config == old(self).config,
            final(self).streaming_error == old(self).streaming_error,
            final(self).handed_out() == old(self).handed_out(),
            final(self).stack@ == old(self).stack@,
            final(self).tokenizer_contexts@ == old(self).tokenizer_contexts@,
            final(self).buffer@ == old(self).buffer@,
            final(self).lines.line_prefix@ == (if old(self).config.streaming_limit is Some && old(self).lines.prefix_lens@.len() == 0 {
                Seq::<u8>::empty()
            } else {
                old(self).lines.line_prefix@
            }),
            final(self).lines.prefix_lens@ == old(self).lines.prefix_lens@,
            final(self).lines.pending_opens@ == old(self).lines.pending_opens@,
    {
        if self.config.streaming_limit.is_none() {
            return;
        }
        if self.stack.len() == 0 {
            self.stack = Vec::new();
            self.tokenizer_contexts = Vec::new();
        }
        if self.lines.pending_opens.len() == 0 {
            self.lines.pending_opens = Vec::new();
        }
        if self.lines.prefix_lens.len() == 0 {
            self.lines.prefix_lens = Vec::new();
            self.lines.line_prefix = Vec::new();
        }
        let len = self.buffer.len();
        let cap = vec_capacity(&self.buffer);
        let four = match len.checked_mul(4) { Some(b) => b, None => usize::MAX };
        let threshold = if four > 256 { four } else { 256 };
        if cap > threshold {
            let copy = copy_range(self.buffer.as_slice(), 0, len);
            assert(copy@ =~= self.buffer@);
            self.buffer = copy;
        }
    }
}

/// Bytes of capacity an optional byte string holds.
fn option_capacity(v: &Option<Vec<u8>>) -> (r: usize)
    ensures
        match v {
            Some(b) => r >= b@.len(),
            None => r == 0,
        },
{
    match v {
        Some(b) => vec_capacity(b),
        None => 0,
    }
}

fn option_len(v: &Option<Vec<u8>>) -> (r: usize)
    ensures
        r == option_bytes(*v),
{
    match v {
        Some(b) => b.len(),
        None => 0,
    }
}

/// Whether `b` begins with all of `a`: output that was written stays.
pub open spec fn grows_from(a: Seq<u8>, b: Seq<u8>) -> bool {
    &&& a.len() <= b.len()
    &&& forall|i: int| 0 <= i < a.len() ==> #[trigger] b[i] == a[i]
}

/// The length of an optional byte string, 0 when absent.
pub open spec fn option_bytes(v: Option<Vec<u8>>) -> int {
    match v {
        Some(b) => b@.len() as int,
        None => 0,
    }
}

/// Bytes an open element's own buffers hold: its attributes, custom name
/// and override strings, capped at `usize::MAX`.
pub open spec fn element_bytes(node: ElementNode) -> int {
    saturated(attrs_retained_bytes(node.attributes@) + option_bytes(node.custom_name) + option_bytes(node.enter)
        + option_bytes(node.exit))
}

/// The sum of `element_bytes` over `s`.
pub open spec fn elements_bytes(s: Seq<ElementNode>) -> int
    decreases s.len(),
{
    if s.len() == 0 {
        0
    } else {
        elements_bytes(s.drop_last()) + element_bytes(s.last())
    }
}

proof fn lemma_elements_bytes_nonneg(s: Seq<ElementNode>)
    ensures
        elements_bytes(s) >= 0,
    decreases s.len(),
{
    if s.len() > 0 {
        lemma_elements_bytes_nonneg(s.drop_last());
        lemma_text_bytes_nonneg(s.last().attributes@.entries);
    }
}

/// Capacity held by an open element's own buffers.
fn element_dynamic_capacity(node: &ElementNode) -> (r: usize)
    ensures
        r >= element_bytes(*node),
{
    proof { lemma_text_bytes_nonneg(node.attributes@.entries); }
    node.attributes.retained_capacity()
        .saturating_add(option_capacity(&node.custom_name))
        .saturating_add(option_capacity(&node.enter))
        .saturating_add(option_capacity(&node.exit))
}

/// Bytes held by an open element's own buffers.
fn element_dynamic_bytes(node: &ElementNode) -> (r: usize)
    ensures
        r == element_bytes(*node),
{
    proof { lemma_text_bytes_nonneg(node.attributes@.entries); }
    node.attributes.retained_bytes()
        .saturating_add(option_len(&node.custom_name))
        .saturating_add(option_len(&node.enter))
        .saturating_add(option_len(&node.exit))
}

} // verus!
