//! One-shot conversion entry points.

use vstd::prelude::*;
use vstd::string::StringSliceAdditionalSpecFns;
use crate::convert::ConvertState;
use crate::convert::parse::plain_bytes;
use crate::convert::render::last_visible;
use crate::options::{normalize_options, options_error, safe_options, validate_options};
use crate::types::{
    ConfigurationError, ConversionMode, ExtractedElement, HTMLToMarkdownOptions, MdreamResult, OutputFormat,
};

verus! {

/// Whether `options` configure a plugin's side data.
pub open spec fn wants_frontmatter(options: HTMLToMarkdownOptions) -> bool {
    options.plugins matches Some(p) && p.frontmatter is Some
}

pub open spec fn wants_extraction(options: HTMLToMarkdownOptions) -> bool {
    options.plugins matches Some(p) && p.extraction is Some
}

pub open spec fn wants_isolation(options: HTMLToMarkdownOptions) -> bool {
    options.plugins matches Some(p) && p.isolate_main is Some
}

/// `html` is text alone (no tag, no character reference) whose last
/// non-whitespace byte is a printable ASCII character.
pub open spec fn plain_text_html(html: Seq<u8>) -> bool {
    &&& plain_bytes(html)
    &&& last_visible(html, html.len() as int) >= 0
    &&& 32 < html[last_visible(html, html.len() as int)] < 0x80
}

/// The last non-whitespace character of such text.
pub open spec fn final_text_char(html: Seq<u8>) -> char {
    html[last_visible(html, html.len() as int)] as char
}

/// What a conversion of text alone gives: output that ends with the text's
/// last visible character (escaped or not, it comes last).
pub open spec fn keeps_final_text(html: Seq<u8>, options: HTMLToMarkdownOptions, out: Seq<char>) -> bool {
    plain_text_html(html) && !wants_isolation(options) ==> out.len() > 0 && out.last() == final_text_char(html)
}

/// Convert HTML to Markdown in a single pass.
pub fn html_to_markdown(html: &str, options: HTMLToMarkdownOptions) -> (r: String)
    ensures
        keeps_final_text(html.spec_bytes(), options, r@),
{
    html_to_format(html, options, OutputFormat::Markdown)
}

/// Convert HTML to Markdown after validating the complete configuration.
pub fn try_html_to_markdown(html: &str, options: HTMLToMarkdownOptions) -> (r: Result<String, ConfigurationError>)
    ensures
        r is Err <==> options_error(options, ConversionMode::OneShot) is Some,
        r matches Err(e) ==> options_error(options, ConversionMode::OneShot) == Some(e),
        r matches Ok(m) ==> keeps_final_text(html.spec_bytes(), options, m@),
{
    try_html_to_format(html, options, OutputFormat::Markdown)
}

/// Convert HTML to readable plain text in a single pass.
pub fn html_to_text(html: &str, options: HTMLToMarkdownOptions) -> (r: String)
    ensures
        keeps_final_text(html.spec_bytes(), options, r@),
{
    html_to_format(html, options, OutputFormat::Text)
}

/// Convert HTML to text after validating the complete configuration.
pub fn try_html_to_text(html: &str, options: HTMLToMarkdownOptions) -> (r: Result<String, ConfigurationError>)
    ensures
        r is Err <==> options_error(options, ConversionMode::OneShot) is Some,
        r matches Err(e) ==> options_error(options, ConversionMode::OneShot) == Some(e),
        r matches Ok(m) ==> keeps_final_text(html.spec_bytes(), options, m@),
{
    try_html_to_format(html, options, OutputFormat::Text)
}

/// Convert HTML to the requested output format in a single pass.
pub fn html_to_format(html: &str, options: HTMLToMarkdownOptions, format: OutputFormat) -> (r: String)
    ensures
        keeps_final_text(html.spec_bytes(), options, r@),
{
    html_to_format_result(html, options, format).markdown
}

/// Convert HTML to the requested format after validating the configuration.
pub fn try_html_to_format(html: &str, options: HTMLToMarkdownOptions, format: OutputFormat) -> (r: Result<String, ConfigurationError>)
    ensures
        r is Err <==> options_error(options, ConversionMode::OneShot) is Some,
        r matches Err(e) ==> options_error(options, ConversionMode::OneShot) == Some(e),
        r matches Ok(m) ==> keeps_final_text(html.spec_bytes(), options, m@),
{
    match try_html_to_format_result(html, options, format) {
        Ok(result) => Ok(result.markdown),
        Err(e) => Err(e),
    }
}

/// Convert HTML to Markdown with its side data (extraction, frontmatter).
pub fn html_to_markdown_result(html: &str, options: HTMLToMarkdownOptions) -> (r: MdreamResult)
    ensures
        r.frontmatter is Some <==> wants_frontmatter(options),
        r.extracted is Some ==> wants_extraction(options),
        keeps_final_text(html.spec_bytes(), options, r.markdown@),
{
    html_to_format_result(html, options, OutputFormat::Markdown)
}

/// Convert HTML to Markdown with side data after validating the configuration.
pub fn try_html_to_markdown_result(html: &str, options: HTMLToMarkdownOptions) -> (r: Result<MdreamResult, ConfigurationError>)
    ensures
        r is Err <==> options_error(options, ConversionMode::OneShot) is Some,
        r matches Err(e) ==> options_error(options, ConversionMode::OneShot) == Some(e),
        r matches Ok(m) ==> (m.frontmatter is Some <==> wants_frontmatter(options)),
        r matches Ok(m) ==> (m.extracted is Some ==> wants_extraction(options)),
        r matches Ok(m) ==> keeps_final_text(html.spec_bytes(), options, m.markdown@),
{
    try_html_to_format_result(html, options, OutputFormat::Markdown)
}

/// Convert HTML to plain text with its side data.
pub fn html_to_text_result(html: &str, options: HTMLToMarkdownOptions) -> (r: MdreamResult)
    ensures
        r.frontmatter is Some <==> wants_frontmatter(options),
        r.extracted is Some ==> wants_extraction(options),
        keeps_final_text(html.spec_bytes(), options, r.markdown@),
{
    html_to_format_result(html, options, OutputFormat::Text)
}

/// Convert HTML to text with side data after validating the configuration.
pub fn try_html_to_text_result(html: &str, options: HTMLToMarkdownOptions) -> (r: Result<MdreamResult, ConfigurationError>)
    ensures
        r is Err <==> options_error(options, ConversionMode::OneShot) is Some,
        r matches Err(e) ==> options_error(options, ConversionMode::OneShot) == Some(e),
        r matches Ok(m) ==> (m.frontmatter is Some <==> wants_frontmatter(options)),
        r matches Ok(m) ==> (m.extracted is Some ==> wants_extraction(options)),
        r matches Ok(m) ==> keeps_final_text(html.spec_bytes(), options, m.markdown@),
{
    try_html_to_format_result(html, options, OutputFormat::Text)
}

/// Convert HTML with side data after validating the configuration.
pub fn try_html_to_format_result(html: &str, options: HTMLToMarkdownOptions, format: OutputFormat) -> (r: Result<MdreamResult, ConfigurationError>)
    ensures
        r is Err <==> options_error(options, ConversionMode::OneShot) is Some,
        r matches Err(e) ==> options_error(options, ConversionMode::OneShot) == Some(e),
        r matches Ok(m) ==> (m.frontmatter is Some <==> wants_frontmatter(options)),
        r matches Ok(m) ==> (m.extracted is Some ==> wants_extraction(options)),
        r matches Ok(m) ==> keeps_final_text(html.spec_bytes(), options, m.markdown@),
{
    match validate_options(&options, ConversionMode::OneShot) {
        Ok(()) => {},
        Err(e) => {
            return Err(e);
        },
    }
    Ok(html_to_format_result(html, normalize_options(options), format))
}

/// Convert HTML to the requested format with its side data.
pub fn html_to_format_result(html: &str, options: HTMLToMarkdownOptions, format: OutputFormat) -> (r: MdreamResult)
    ensures
        r.frontmatter is Some <==> wants_frontmatter(options),
        r.extracted is Some ==> wants_extraction(options),
        r.extracted matches Some(v) ==> v@.len() > 0,
        keeps_final_text(html.spec_bytes(), options, r.markdown@),
{
    let ghost original = options;
    let options = safe_options(options);
    let third = html.len() / 3;
    let capacity = if third < 1024 { 1024 } else if third > 262144 { 262144 } else { third };
    let mut state = ConvertState::new(options, capacity, format);
    let ghost plain = plain_text_html(html.spec_bytes()) && !wants_isolation(original);
    proof {
        if plain {
            assert((crate::tags::TAG_PRE as int) < state.depth_map@.len());
            assert(state.renders_text_plainly());
        }
    }
    let leftover = state.process_html(html);
    state.finalize(leftover.as_str());
    let ghost done = state;
    proof {
        if plain {
            reveal(ConvertState::stream_law);
            assert(done.drained@ == 0);
            assert(done.buffer@ =~= done.written());
            ConvertState::lemma_markdown_keeps_final_ascii(done.buffer@, done.config.squeeze_blank_lines, done.clean_newline_run);
        }
    }
    let extracted = if state.config.has_extraction {
        let mut results: Vec<ExtractedElement> = Vec::new();
        std::mem::swap(&mut results, &mut state.plugins.extraction_results);
        if results.len() == 0 { None } else { Some(results) }
    } else {
        None
    };
    let frontmatter = state.frontmatter();
    let markdown = state.get_markdown();
    MdreamResult { markdown, extracted, frontmatter }
}

} // verus!
