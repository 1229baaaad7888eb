//! Streaming conversion: chunks in, Markdown out as soon as it is final.

use vstd::prelude::*;
use vstd::string::StringSliceAdditionalSpecFns;
use crate::carry::{lenient_value, numeric_reference, CarryScanner};
use crate::convert::ConvertState;
use crate::convert::column::yield_filter;
use crate::scan::{leading_blank, trailing_blank};
use crate::options::{normalize_options, options_error, requires_deferred_streaming, safe_options, streaming_conflict};
use crate::options::validate_options;
use crate::text::{copy_range, string_from_bytes};
use crate::types::{
    ConfigurationError, ConversionMode, HTMLToMarkdownOptions, OutputFormat, StreamingError, StreamingLimits,
};
use crate::budget::vec_capacity;

verus! {

/// The converter a stream runs: constructed, with every chunk of unfinished
/// input carried in `buffer` and scanned incrementally by `scanner`.
fn feed(state: &mut ConvertState, buffer: &mut Vec<u8>, scanner: &mut CarryScanner, chunk: &str)
    requires
        old(state).wf(),
    ensures
        final(state).wf(),
        final(state).config == old(state).config,
        final(state).handed_out() == old(state).handed_out(),
        carried_after(old(buffer)@ + chunk.spec_bytes(), final(buffer)@),
{
    let ghost input = buffer@ + chunk.spec_bytes();
    if buffer.len() == 0 {
        let bytes = chunk.as_bytes();
        let incremental = state.config.incremental_lexing;
        let k = state.process_bytes(bytes, incremental);
        *buffer = copy_range(bytes, k, bytes.len());
        assert(input =~= bytes@);
        assert(carried_taken(input, buffer@, k as int));
        scanner.reset(buffer.as_slice());
    } else {
        buffer.extend_from_slice(chunk.as_bytes());
        assert(buffer@ =~= input);
        if scanner.advance(buffer.as_slice()) {
            let incremental = state.config.incremental_lexing;
            let k = state.process_bytes(buffer.as_slice(), incremental);
            let rest = copy_range(buffer.as_slice(), k, buffer.len());
            *buffer = rest;
            assert(carried_taken(input, buffer@, k as int));
            scanner.reset(buffer.as_slice());
        } else {
            scanner.compact_numeric(buffer);
            proof {
                if buffer@ == input {
                    assert(input.subrange(0, input.len() as int) =~= input);
                    assert(carried_taken(input, buffer@, 0));
                }
            }
        }
    }
}

/// Whether `carried` is what is left of `input` from `k` on.
pub open spec fn carried_taken(input: Seq<u8>, carried: Seq<u8>, k: int) -> bool {
    0 <= k <= input.len() && carried == input.subrange(k, input.len() as int)
}

/// What a stream carries to its next chunk after it was given `input`
/// (its carry, then the chunk): the unfinished tail of `input`, or, for a
/// numeric character reference with too many digits, the short form of
/// its value.
pub open spec fn carried_after(input: Seq<u8>, carried: Seq<u8>) -> bool {
    ||| exists|k: int| #[trigger] carried_taken(input, carried, k)
    ||| carried == numeric_reference(lenient_value(input, 3, input.len() - 3, true), true)
    ||| carried == numeric_reference(lenient_value(input, 2, input.len() - 2, false), false)
}

/// Streaming HTML-to-Markdown converter: feed chunks with `process_chunk`,
/// then call `finish` for the rest of the output.
pub struct MarkdownStreamProcessor {
    state: ConvertState,
    buffer: Vec<u8>,
    carry_scanner: CarryScanner,
    defer_output: bool,
}

impl MarkdownStreamProcessor {
    pub closed spec fn wf(&self) -> bool {
        &&& self.state.wf()
        &&& self.state.config.streaming_limit is None
    }

    /// Everything handed out so far.
    pub closed spec fn handed_out(&self) -> Seq<u8> {
        self.state.handed_out()
    }

    /// Whether output is held back until `finish` (options that need the
    /// whole document).
    pub closed spec fn defers(&self) -> bool {
        self.defer_output
    }

    /// The output converted so far, including what was handed out.
    pub closed spec fn written(&self) -> Seq<u8> {
        self.state.written()
    }

    /// Whether blank-line runs are squeezed in what is handed out.
    pub closed spec fn squeezes(&self) -> bool {
        self.state.config.squeeze_blank_lines
    }

    /// What a stream has handed out is a contiguous piece of its converted
    /// output, in order, with blank-line runs squeezed when that cleanup is
    /// on: nothing handed out is ever taken back or skipped.
    pub proof fn lemma_handed_out_is_output(&self)
        requires
            self.wf(),
        ensures
            exists|a: int, b: int| 0 <= a <= b <= self.written().len()
                && self.handed_out() == yield_filter(self.squeezes(), 0, self.written().subrange(a, b)),
    {
        self.state.lemma_handed_out_is_output_slice();
        let (a, b) = choose|a: int, b: int| 0 <= a <= b <= self.state.written().len()
            && self.state.handed_out() == yield_filter(self.state.config.squeeze_blank_lines, 0, self.state.written().subrange(a, b));
        assert(0 <= a <= b <= self.written().len()
            && self.handed_out() == yield_filter(self.squeezes(), 0, self.written().subrange(a, b)));
    }

    pub fn new(options: HTMLToMarkdownOptions) -> (r: Self)
        ensures
            r.wf(),
            r.handed_out() == Seq::<u8>::empty(),
            r.defers() == crate::options::defers_output(options),
    {
        Self::new_with_format(options, OutputFormat::Markdown)
    }

    /// A strict streaming converter; fails on options it cannot honour.
    pub fn try_new(options: HTMLToMarkdownOptions) -> (r: Result<Self, ConfigurationError>)
        ensures
            r is Err <==> options_error(options, ConversionMode::Streaming) is Some,
            r matches Err(e) ==> options_error(options, ConversionMode::Streaming) == Some(e),
            r matches Ok(p) ==> p.wf() && p.handed_out() == Seq::<u8>::empty() && !p.defers(),
    {
        Self::try_new_with_format(options, OutputFormat::Markdown)
    }

    /// A streaming converter for the given format. Options that need the
    /// whole document make it hold all output back until `finish`.
    pub fn new_with_format(options: HTMLToMarkdownOptions, format: OutputFormat) -> (r: Self)
        ensures
            r.wf(),
            r.handed_out() == Seq::<u8>::empty(),
            r.defers() == crate::options::defers_output(options),
    {
        let defer_output = requires_deferred_streaming(&options);
        let options = safe_options(options);
        let mut state = ConvertState::new(options, 4096, format);
        state.enable_incremental_lexing();
        MarkdownStreamProcessor { state, buffer: Vec::new(), carry_scanner: CarryScanner::new(), defer_output }
    }

    /// A strict streaming converter for the given format.
    pub fn try_new_with_format(options: HTMLToMarkdownOptions, format: OutputFormat) -> (r: Result<Self, ConfigurationError>)
        ensures
            r is Err <==> options_error(options, ConversionMode::Streaming) is Some,
            r matches Err(e) ==> options_error(options, ConversionMode::Streaming) == Some(e),
            r matches Ok(p) ==> p.wf() && p.handed_out() == Seq::<u8>::empty() && !p.defers(),
    {
        match validate_options(&options, ConversionMode::Streaming) {
            Ok(()) => {},
            Err(e) => {
                return Err(e);
            },
        }
        let mut state = ConvertState::new(normalize_options(options), 4096, format);
        state.enable_incremental_lexing();
        Ok(MarkdownStreamProcessor { state, buffer: Vec::new(), carry_scanner: CarryScanner::new(), defer_output: false })
    }

    /// The same converter, keeping handed-out output in memory instead of
    /// releasing it; what it hands out is the same.
    pub fn without_draining(options: HTMLToMarkdownOptions) -> (r: Self)
        ensures
            r.wf(),
            r.handed_out() == Seq::<u8>::empty(),
    {
        let mut p = Self::new(options);
        p.state.disable_draining();
        p
    }

    /// How much of the converted output has been released from memory.
    /// The unfinished input carried to the next chunk.
    pub closed spec fn carried(&self) -> Seq<u8> {
        self.buffer@
    }

    pub closed spec fn released(&self) -> int {
        self.state.drained@
    }

    /// Bytes of converted output held in memory.
    pub fn buffered_output_len(&self) -> (r: usize)
        requires
            self.wf(),
        ensures
            r == self.written().len() - self.released(),
    {
        self.state.buffered_output_len()
    }

    /// Converts a chunk; returns the output that became final (nothing when
    /// output is deferred).
    pub fn process_chunk(&mut self, chunk: &str) -> (r: String)
        requires
            old(self).wf(),
        ensures
            final(self).wf(),
            final(self).defers() == old(self).defers(),
            old(self).defers() ==> r@.len() == 0 && final(self).handed_out() == old(self).handed_out(),
            exists|piece: Seq<u8>| final(self).handed_out() == old(self).handed_out() + piece
                && (vstd::utf8::valid_utf8(piece) ==> r@ == vstd::utf8::decode_utf8(piece))
                && (piece.len() > 0 ==> !(9 <= piece.last() <= 13 || piece.last() == 32)),
            carried_after(old(self).carried() + chunk.spec_bytes(), final(self).carried()),
    {
        feed(&mut self.state, &mut self.buffer, &mut self.carry_scanner, chunk);
        if self.defer_output {
            assert(self.state.handed_out() =~= self.state.handed_out() + Seq::<u8>::empty());
            assert(vstd::utf8::decode_utf8(Seq::<u8>::empty()) =~= Seq::<char>::empty());
            String::new()
        } else {
            self.state.get_markdown_chunk()
        }
    }

    /// Ends the input and returns the rest of the output (all of it when
    /// output is deferred). Then everything written has been handed out, but
    /// for whitespace at either end.
    pub fn finish(&mut self) -> (r: String)
        requires
            old(self).wf(),
        ensures
            final(self).wf(),
            !old(self).defers() ==> exists|piece: Seq<u8>| final(self).handed_out() == old(self).handed_out() + piece
                && (vstd::utf8::valid_utf8(piece) ==> r@ == vstd::utf8::decode_utf8(piece)),
            !old(self).defers() ==> exists|a: int, b: int| 0 <= a <= b <= final(self).written().len()
                && final(self).handed_out() == yield_filter(final(self).squeezes(), 0, final(self).written().subrange(a, b))
                && leading_blank(final(self).written().subrange(0, a))
                && trailing_blank(final(self).written().subrange(b, final(self).written().len() as int)),
    {
        let pending = string_from_bytes(self.buffer.as_slice());
        self.buffer = Vec::new();
        let leftover = if pending.as_str().len() == 0 { pending } else { self.state.process_html(pending.as_str()) };
        self.state.finalize(leftover.as_str());
        if self.defer_output {
            self.state.get_markdown()
        } else {
            let r = self.state.get_markdown_chunk();
            proof {
                assert(self.state.handed_out_all());
                let (a, b) = choose|a: int, b: int| 0 <= a <= b <= self.state.written().len()
                    && self.state.handed_out() == yield_filter(self.state.config.squeeze_blank_lines, 0, self.state.written().subrange(a, b))
                    && leading_blank(self.state.written().subrange(0, a))
                    && trailing_blank(self.state.written().subrange(b, self.state.written().len() as int));
                assert(0 <= a <= b <= self.written().len()
                    && self.handed_out() == yield_filter(self.squeezes(), 0, self.written().subrange(a, b))
                    && leading_blank(self.written().subrange(0, a))
                    && trailing_blank(self.written().subrange(b, self.written().len() as int)));
            }
            r
        }
    }
}

/// Streaming converter with an enforced ceiling on the capacity of the
/// buffers it retains between calls. The first error is final: every later
/// call returns it and produces nothing.
pub struct BoundedMarkdownStreamProcessor {
    state: ConvertState,
    buffer: Vec<u8>,
    carry_scanner: CarryScanner,
    terminal_error: Option<StreamingError>,
}

impl BoundedMarkdownStreamProcessor {
    pub closed spec fn wf(&self) -> bool {
        &&& self.state.wf()
        &&& self.state.config.streaming_limit is Some
        &&& (self.terminal_error is Some ==> self.buffer@.len() == 0 && self.state.holds_nothing())
    }

    /// The error that ended the stream, if any.
    pub closed spec fn failed(&self) -> Option<StreamingError> {
        self.terminal_error
    }

    /// Everything handed out so far.
    pub closed spec fn handed_out(&self) -> Seq<u8> {
        self.state.handed_out()
    }

    /// The output converted so far, including what was handed out.
    pub closed spec fn written(&self) -> Seq<u8> {
        self.state.written()
    }

    /// Whether blank-line runs are squeezed in what is handed out.
    pub closed spec fn squeezes(&self) -> bool {
        self.state.config.squeeze_blank_lines
    }

    pub fn new(options: HTMLToMarkdownOptions, limits: StreamingLimits) -> (r: Result<Self, StreamingError>)
        ensures
            r is Err <==> options_error(options, ConversionMode::Streaming) is Some,
            r matches Err(e) ==> (match options_error(options, ConversionMode::Streaming) {
                Some(ConfigurationError::UnsupportedStreamingOption(o)) => e == StreamingError::UnsupportedOption(o),
                _ => e == StreamingError::InvalidConfiguration,
            }),
            r matches Ok(p) ==> p.wf() && p.failed() is None && p.handed_out() == Seq::<u8>::empty(),
    {
        Self::new_with_format(options, OutputFormat::Markdown, limits)
    }

    /// A bounded streaming converter for the given format.
    pub fn new_with_format(options: HTMLToMarkdownOptions, format: OutputFormat, limits: StreamingLimits) -> (r: Result<Self, StreamingError>)
        ensures
            r is Err <==> options_error(options, ConversionMode::Streaming) is Some,
            r matches Err(e) ==> (match options_error(options, ConversionMode::Streaming) {
                Some(ConfigurationError::UnsupportedStreamingOption(o)) => e == StreamingError::UnsupportedOption(o),
                _ => e == StreamingError::InvalidConfiguration,
            }),
            r matches Ok(p) ==> p.wf() && p.failed() is None && p.handed_out() == Seq::<u8>::empty(),
    {
        match validate_options(&options, ConversionMode::Streaming) {
            Ok(()) => {},
            Err(e) => {
                return Err(match e {
                    ConfigurationError::UnsupportedStreamingOption(o) => StreamingError::UnsupportedOption(o),
                    _ => StreamingError::InvalidConfiguration,
                });
            },
        }
        let mut state = ConvertState::new_bounded(normalize_options(options), format, limits.max_buffered_bytes);
        state.enable_incremental_lexing();
        Ok(BoundedMarkdownStreamProcessor {
            state,
            buffer: Vec::new(),
            carry_scanner: CarryScanner::new(),
            terminal_error: None,
        })
    }

    /// Records the first error and releases every retained buffer.
    fn fail(&mut self, error: StreamingError) -> (r: StreamingError)
        requires
            old(self).wf(),
        ensures
            final(self).wf(),
            final(self).failed() is Some,
            final(self).failed() == Some(r),
            old(self).failed() is Some ==> final(self).failed() == old(self).failed(),
            final(self).handed_out() == old(self).handed_out(),
    {
        let e = match self.terminal_error {
            Some(t) => t,
            None => error,
        };
        self.terminal_error = Some(e);
        self.buffer = Vec::new();
        self.state.fail_streaming(e);
        self.state.release_retained_buffers();
        e
    }

    /// Fails when the stream or the converter has failed.
    fn check_error(&mut self) -> (r: Result<(), StreamingError>)
        requires
            old(self).wf(),
        ensures
            final(self).wf(),
            final(self).handed_out() == old(self).handed_out(),
            old(self).failed() is Some ==> r == Err::<(), StreamingError>(old(self).failed().unwrap()) && final(self).failed() == old(self).failed(),
            r matches Err(e) ==> final(self).failed() == Some(e),
            r is Ok ==> final(self).failed() is None && final(self).state.streaming_error is None,
            r is Ok ==> *final(self) == *old(self),
    {
        let error = match self.terminal_error {
            Some(t) => Some(t),
            None => self.state.streaming_error(),
        };
        match error {
            Some(e) => Err(self.fail(e)),
            None => Ok(()),
        }
    }

    /// Converts a chunk; returns the output that became final, or the error
    /// that ended the stream.
    pub fn process_chunk(&mut self, chunk: &str) -> (r: Result<String, StreamingError>)
        requires
            old(self).wf(),
        ensures
            final(self).wf(),
            old(self).failed() is Some ==> r == Err::<String, StreamingError>(old(self).failed().unwrap())
                && final(self).failed() == old(self).failed() && final(self).handed_out() == old(self).handed_out(),
            r matches Err(e) ==> final(self).failed() == Some(e),
            r is Ok ==> final(self).failed() is None,
            r matches Ok(s) ==> exists|piece: Seq<u8>| final(self).handed_out() == old(self).handed_out() + piece
                && (vstd::utf8::valid_utf8(piece) ==> s@ == vstd::utf8::decode_utf8(piece)),
            r is Ok ==> carried_after(old(self).carried() + chunk.spec_bytes(), final(self).carried()),
            r is Ok ==> final(self).held_output() + final(self).carried().len() <= final(self).limit(),
            r is Ok ==> final(self).limit() == old(self).limit(),
    {
        match self.check_error() {
            Ok(()) => {},
            Err(e) => {
                return Err(e);
            },
        }
        let limit = match self.state.config.streaming_limit {
            Some(l) => l,
            None => 0,
        };
        if self.buffer.len() > 0 {
            let required = match self.buffer.len().checked_add(chunk.len()) {
                Some(n) => n,
                None => {
                    return Err(self.fail(StreamingError::CapacityOverflow));
                },
            };
            let retained = self.state.retained_buffer_capacity();
            if required > limit || retained > limit - required {
                return Err(self.fail(StreamingError::BufferLimitExceeded));
            }
        }
        feed(&mut self.state, &mut self.buffer, &mut self.carry_scanner, chunk);
        match self.check_error() {
            Ok(()) => {},
            Err(e) => {
                return Err(e);
            },
        }
        let retained = self.state.retained_buffer_capacity();
        let carried = vec_capacity(&self.buffer);
        if retained > limit || carried > limit - retained {
            return Err(self.fail(StreamingError::BufferLimitExceeded));
        }
        let output = self.state.get_markdown_chunk();
        match self.check_error() {
            Ok(()) => {},
            Err(e) => {
                return Err(e);
            },
        }
        self.state.release_closed_high_water();
        Ok(output)
    }

    /// Ends the input; returns the rest of the output, or the error that
    /// ended the stream.
    pub fn finish(&mut self) -> (r: Result<String, StreamingError>)
        requires
            old(self).wf(),
        ensures
            final(self).wf(),
            old(self).failed() is Some ==> r == Err::<String, StreamingError>(old(self).failed().unwrap())
                && final(self).failed() == old(self).failed() && final(self).handed_out() == old(self).handed_out(),
            r matches Err(e) ==> final(self).failed() == Some(e),
            r is Ok ==> final(self).failed() is None,
            r matches Ok(s) ==> exists|piece: Seq<u8>| final(self).handed_out() == old(self).handed_out() + piece
                && (vstd::utf8::valid_utf8(piece) ==> s@ == vstd::utf8::decode_utf8(piece)),
            r is Ok ==> exists|a: int, b: int| 0 <= a <= b <= final(self).written().len()
                && final(self).handed_out() == yield_filter(final(self).squeezes(), 0, final(self).written().subrange(a, b))
                && leading_blank(final(self).written().subrange(0, a))
                && trailing_blank(final(self).written().subrange(b, final(self).written().len() as int)),
    {
        match self.check_error() {
            Ok(()) => {},
            Err(e) => {
                return Err(e);
            },
        }
        let pending = string_from_bytes(self.buffer.as_slice());
        self.buffer = Vec::new();
        let leftover = if pending.as_str().len() == 0 { pending } else { self.state.process_html(pending.as_str()) };
        match self.check_error() {
            Ok(()) => {},
            Err(e) => {
                return Err(e);
            },
        }
        self.state.finalize(leftover.as_str());
        match self.check_error() {
            Ok(()) => {},
            Err(e) => {
                return Err(e);
            },
        }
        let output = self.state.get_markdown_chunk();
        match self.check_error() {
            Ok(()) => {},
            Err(e) => {
                return Err(e);
            },
        }
        let ghost before = self.state;
        proof {
            assert(self.state.handed_out_all());
        }
        self.state.release_closed_high_water();
        proof {
            let (a, b) = choose|a: int, b: int| 0 <= a <= b <= before.written().len()
                && before.handed_out() == yield_filter(before.config.squeeze_blank_lines, 0, before.written().subrange(a, b))
                && leading_blank(before.written().subrange(0, a))
                && trailing_blank(before.written().subrange(b, before.written().len() as int));
            assert(0 <= a <= b <= self.written().len()
                && self.handed_out() == yield_filter(self.squeezes(), 0, self.written().subrange(a, b))
                && leading_blank(self.written().subrange(0, a))
                && trailing_blank(self.written().subrange(b, self.written().len() as int)));
        }
        Ok(output)
    }

    /// Output written and not yet released.
    /// The unfinished input carried to the next chunk.
    pub closed spec fn carried(&self) -> Seq<u8> {
        self.buffer@
    }

    /// The ceiling the stream was made with.
    pub closed spec fn limit(&self) -> int {
        self.state.config.streaming_limit.unwrap() as int
    }

    pub closed spec fn held_output(&self) -> int {
        self.state.written().len() - self.state.drained@
    }

    /// Bytes currently retained by the buffers this API charges.
    pub fn buffered_bytes(&self) -> (r: usize)
        requires
            self.wf(),
        ensures
            r >= self.held_output(),
            r >= self.carried().len(),
            self.failed() is Some ==> r == 0,
    {
        self.buffer.len().saturating_add(self.state.retained_buffered_bytes())
    }

    /// Capacity currently charged against the ceiling.
    pub fn buffered_capacity(&self) -> (r: usize)
        requires
            self.wf(),
        ensures
            r >= self.held_output(),
    {
        vec_capacity(&self.buffer).saturating_add(self.state.retained_buffer_capacity())
    }
}

} // verus!
