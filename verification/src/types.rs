//! Configuration, errors and results of a conversion.

use vstd::prelude::*;
use crate::chars::lower_seq;
use vstd::string::StringSliceAdditionalSpecFns;
use crate::tags::{get_tag_id_ci_bytes, tag_id_of};

verus! {

/// What a relative or unsafe URL becomes; carried with the options (as is
/// `clean_urls`), while links are written with their `href` as given, a
/// rooted path prefixed with the configured origin.
#[derive(Clone, Copy, Debug, PartialEq, Eq, Structural)]
pub enum UrlPolicy {
    Preserve,
    Strict,
}

/// Output cleanup passes. `empty_links` renders links whose `href` is empty
/// or `#` as their text, and `blank_lines` squeezes runs of blank lines;
/// `fragments` needs the whole document, so streams hold their output back
/// when it is on. The remaining switches are carried with the options; no
/// rendering rule of this crate reads them.
#[derive(Clone, Debug, PartialEq, Eq)]
pub struct CleanConfig {
    pub urls: bool,
    pub fragments: bool,
    pub empty_links: bool,
    pub blank_lines: bool,
    pub redundant_links: bool,
    pub self_link_headings: bool,
    pub empty_images: bool,
    pub empty_link_text: bool,
}

impl Default for CleanConfig {
    fn default() -> (r: Self)
        ensures
            !r.urls && !r.fragments && !r.empty_links && !r.blank_lines && !r.redundant_links
                && !r.self_link_headings && !r.empty_images && !r.empty_link_text,
    {
        CleanConfig {
            urls: false,
            fragments: false,
            empty_links: false,
            blank_lines: false,
            redundant_links: false,
            self_link_headings: false,
            empty_images: false,
            empty_link_text: false,
        }
    }
}

/// Keeps or drops elements by selector.
#[derive(Clone, Debug, PartialEq, Eq)]
pub struct FilterConfig {
    pub include_selectors: Option<Vec<String>>,
    pub exclude: Option<Vec<String>>,
    pub process_children: Option<bool>,
}

/// Restricts output to the document's `<main>` (or the content after its first heading).
#[derive(Clone, Debug, PartialEq, Eq)]
pub struct IsolateMainConfig;

/// Tailwind utility-class handling; carried with the options, no rendering
/// rule of this crate reads it.
#[derive(Clone, Debug, PartialEq, Eq)]
pub struct TailwindConfig;

/// Collects title and meta fields of `<head>` as frontmatter.
#[derive(Clone, Debug, PartialEq, Eq)]
pub struct FrontmatterConfig {
    pub additional_fields: Option<Vec<(String, String)>>,
    pub meta_fields: Option<Vec<String>>,
}

impl Default for FrontmatterConfig {
    fn default() -> (r: Self)
        ensures
            r.additional_fields is None && r.meta_fields is None,
    {
        FrontmatterConfig { additional_fields: None, meta_fields: None }
    }
}

/// Collects the text and attributes of elements matching selectors.
#[derive(Clone, Debug, PartialEq, Eq)]
pub struct ExtractionConfig {
    pub selectors: Vec<String>,
}

impl ExtractionConfig {
    /// Extraction of the elements matching any of `selectors`, in order.
    pub fn new(selectors: &[&str]) -> (r: Self)
        ensures
            r.selectors@.len() == selectors@.len(),
            forall|i: int| 0 <= i < selectors@.len() ==> (#[trigger] r.selectors@[i])@ == selectors@[i]@,
    {
        let mut out: Vec<String> = Vec::new();
        let mut k: usize = 0;
        while k < selectors.len()
            invariant
                k <= selectors@.len(),
                out@.len() == k,
                forall|i: int| 0 <= i < k ==> (#[trigger] out@[i])@ == selectors@[i]@,
            decreases selectors@.len() - k,
        {
            out.push(selectors[k].to_owned());
            k = k + 1;
        }
        ExtractionConfig { selectors: out }
    }
}

/// How one tag is rendered instead of its built-in rule.
#[derive(Clone, Debug, PartialEq, Eq)]
pub struct TagOverrideConfig {
    pub enter: Option<String>,
    pub exit: Option<String>,
    pub spacing: Option<[u8; 2]>,
    pub is_inline: Option<bool>,
    pub is_self_closing: Option<bool>,
    pub collapses_inner_white_space: Option<bool>,
    pub alias_tag_id: Option<u8>,
}

impl Default for TagOverrideConfig {
    fn default() -> (r: Self)
        ensures
            r.enter is None && r.exit is None && r.spacing is None && r.is_inline is None
                && r.is_self_closing is None && r.collapses_inner_white_space is None
                && r.alias_tag_id is None,
    {
        TagOverrideConfig {
            enter: None,
            exit: None,
            spacing: None,
            is_inline: None,
            is_self_closing: None,
            collapses_inner_white_space: None,
            alias_tag_id: None,
        }
    }
}

impl TagOverrideConfig {
    /// The override that renders a tag as the built-in element named
    /// `target` (compared without regard to ASCII case).
    pub open spec fn alias_spec(id: u8) -> Self {
        TagOverrideConfig {
            enter: None,
            exit: None,
            spacing: None,
            is_inline: None,
            is_self_closing: None,
            collapses_inner_white_space: None,
            alias_tag_id: Some(id),
        }
    }

    /// An alias of the element `target`, or `UnknownTagAlias` where no
    /// built-in element has that name.
    pub fn try_alias(target: &str) -> (r: Result<Self, ConfigurationError>)
        ensures
            match tag_id_of(lower_seq(target.spec_bytes())) {
                Some(id) => r == Ok::<Self, ConfigurationError>(Self::alias_spec(id)),
                None => r matches Err(ConfigurationError::UnknownTagAlias { alias }) && alias@ == target@,
            },
    {
        match get_tag_id_ci_bytes(target.as_bytes()) {
            Some(id) => Ok(Self::alias_spec_exec(id)),
            None => Err(ConfigurationError::UnknownTagAlias { alias: target.to_owned() }),
        }
    }

    fn alias_spec_exec(id: u8) -> (r: Self)
        ensures
            r == Self::alias_spec(id),
    {
        TagOverrideConfig {
            enter: None,
            exit: None,
            spacing: None,
            is_inline: None,
            is_self_closing: None,
            collapses_inner_white_space: None,
            alias_tag_id: Some(id),
        }
    }

    /// An alias of the built-in element `target`, which must exist.
    pub fn alias(target: &str) -> (r: Self)
        requires
            tag_id_of(lower_seq(target.spec_bytes())) is Some,
        ensures
            r == Self::alias_spec(tag_id_of(lower_seq(target.spec_bytes())).unwrap()),
    {
        match get_tag_id_ci_bytes(target.as_bytes()) {
            Some(id) => Self::alias_spec_exec(id),
            None => vstd::pervasive::unreached(),
        }
    }
}

/// Optional processing stages.
#[derive(Clone, Debug, PartialEq, Eq)]
pub struct PluginConfig {
    pub filter: Option<FilterConfig>,
    pub isolate_main: Option<IsolateMainConfig>,
    pub frontmatter: Option<FrontmatterConfig>,
    pub tailwind: Option<TailwindConfig>,
    pub extraction: Option<ExtractionConfig>,
    pub tag_overrides: Option<Vec<(String, TagOverrideConfig)>>,
}

impl Default for PluginConfig {
    fn default() -> (r: Self)
        ensures
            r.filter is None && r.isolate_main is None && r.frontmatter is None && r.tailwind is None
                && r.extraction is None && r.tag_overrides is None,
    {
        PluginConfig {
            filter: None,
            isolate_main: None,
            frontmatter: None,
            tailwind: None,
            extraction: None,
            tag_overrides: None,
        }
    }
}

impl PluginConfig {
    /// Adds a tag override, after any already present.
    pub fn with_tag_override(self, tag: &str, config: TagOverrideConfig) -> (r: Self)
        ensures
            r.filter == self.filter,
            r.isolate_main == self.isolate_main,
            r.frontmatter == self.frontmatter,
            r.tailwind == self.tailwind,
            r.extraction == self.extraction,
            r.tag_overrides is Some,
            r.tag_overrides.unwrap()@.len() == (match self.tag_overrides {
                Some(v) => v@.len() + 1,
                None => 1,
            }),
            r.tag_overrides.unwrap()@.last().0@ == tag@,
            r.tag_overrides.unwrap()@.last().1 == config,
    {
        let mut s = self;
        let mut overrides = match s.tag_overrides {
            Some(v) => v,
            None => Vec::new(),
        };
        overrides.push((tag.to_owned(), config));
        s.tag_overrides = Some(overrides);
        s
    }
}

/// All conversion options.
#[derive(Clone, Debug, PartialEq, Eq)]
pub struct HTMLToMarkdownOptions {
    pub origin: Option<String>,
    pub url_policy: UrlPolicy,
    pub clean_urls: bool,
    pub clean: Option<CleanConfig>,
    pub plugins: Option<PluginConfig>,
    pub wrap_width: usize,
}

impl Default for HTMLToMarkdownOptions {
    fn default() -> (r: Self)
        ensures
            r.origin is None && r.url_policy == UrlPolicy::Preserve && !r.clean_urls && r.clean is None
                && r.plugins is None && r.wrap_width == 0,
    {
        HTMLToMarkdownOptions {
            origin: None,
            url_policy: UrlPolicy::Preserve,
            clean_urls: false,
            clean: None,
            plugins: None,
            wrap_width: 0,
        }
    }
}

impl HTMLToMarkdownOptions {
    /// The same options with the given hard-wrap width (0: no wrapping).
    pub fn with_wrap_width(self, width: usize) -> (r: Self)
        ensures
            r == (HTMLToMarkdownOptions { wrap_width: width, ..self }),
    {
        let mut s = self;
        s.wrap_width = width;
        s
    }
}

/// Options that need the whole document and therefore cannot stream.
#[derive(Clone, Copy, Debug, PartialEq, Eq, Structural)]
pub enum UnsupportedStreamingOption {
    CleanFragments,
    IsolateMain,
    Frontmatter,
    Extraction,
}

/// Whether options are checked for a single pass or for strict streaming.
#[derive(Clone, Copy, Debug, PartialEq, Eq, Structural)]
pub enum ConversionMode {
    OneShot,
    Streaming,
}

#[derive(Clone, Copy, Debug, PartialEq, Eq, Structural)]
pub enum OutputFormat {
    Markdown,
    Text,
}

/// A configuration that validation refuses.
#[derive(Clone, Debug, PartialEq, Eq)]
pub enum ConfigurationError {
    UnsupportedStreamingOption(UnsupportedStreamingOption),
    TagAliasOutOfRange { tag: String, alias_tag_id: u8 },
    TagAliasWithOverrides { tag: String },
    UnpairedTagOverride { tag: String },
    UnknownTagAlias { alias: String },
}

/// Why a bounded stream stopped.
#[derive(Clone, Copy, Debug, PartialEq, Eq, Structural)]
pub enum StreamingError {
    UnsupportedOption(UnsupportedStreamingOption),
    InvalidConfiguration,
    BufferLimitExceeded,
    ParserLimitExceeded,
    AllocationFailed,
    CapacityOverflow,
}

/// The retained-buffer ceiling of a bounded stream.
#[derive(Clone, Copy, Debug, PartialEq, Eq, Structural)]
pub struct StreamingLimits {
    pub max_buffered_bytes: usize,
}

impl StreamingLimits {
    pub fn new(max_buffered_bytes: usize) -> (r: Self)
        ensures
            r.max_buffered_bytes == max_buffered_bytes,
    {
        StreamingLimits { max_buffered_bytes }
    }
}

/// An element matched by an extraction selector.
#[derive(Clone, Debug, PartialEq, Eq)]
pub struct ExtractedElement {
    pub selector: String,
    pub tag_name: String,
    pub text_content: String,
    pub attributes: Vec<(String, String)>,
}

/// A conversion's output with its side data.
#[derive(Clone, Debug, PartialEq, Eq)]
pub struct MdreamResult {
    pub markdown: String,
    pub extracted: Option<Vec<ExtractedElement>>,
    pub frontmatter: Option<Vec<(String, String)>>,
}

} // verus!
