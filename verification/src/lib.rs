//! Streaming HTML to Markdown conversion.

pub mod chars;
pub mod entities;
pub mod text;
pub mod attributes;
pub mod scan;
pub mod carry;
pub mod digits;
pub mod types;
pub mod budget;
pub mod tags;
pub mod options;
pub mod convert;
pub mod stream;
pub mod api;

pub use api::{
    html_to_format, html_to_format_result, html_to_markdown, html_to_markdown_result, html_to_text,
    html_to_text_result, try_html_to_format, try_html_to_format_result, try_html_to_markdown,
    try_html_to_markdown_result, try_html_to_text, try_html_to_text_result,
};
pub use convert::ConvertState;
pub use options::validate_options;
pub use stream::{BoundedMarkdownStreamProcessor, MarkdownStreamProcessor};
pub use tags::get_tag_id;
pub use types::{
    CleanConfig, ConfigurationError, ConversionMode, ExtractedElement, ExtractionConfig, FilterConfig,
    FrontmatterConfig, HTMLToMarkdownOptions, IsolateMainConfig, MdreamResult, OutputFormat, PluginConfig,
    StreamingError, StreamingLimits, TagOverrideConfig, TailwindConfig, UnsupportedStreamingOption, UrlPolicy,
};

use vstd::prelude::*;

verus! {

} // verus!
