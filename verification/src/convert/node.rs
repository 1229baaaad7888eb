//! Open elements and tokenizer contexts.

use vstd::prelude::*;
use crate::attributes::Attributes;

verus! {

/// How the tokenizer reads the content of the current element.
#[derive(Clone, Copy, Debug, PartialEq, Eq, Structural)]
pub enum TextMode {
    Data,
    RawText,
    RcData,
    PlainText,
}

/// Tokenizer state pushed with every open element.
#[derive(Clone, Copy, Debug, PartialEq, Eq, Structural)]
pub struct TokenizerContext {
    pub text_mode: TextMode,
    pub in_supported_svg: bool,
    pub svg_integration_point: bool,
}

/// What stands for the elements opened beyond the depth limit: their root's
/// name and nesting, and the raw-text or suppressed element among them.
pub struct OverflowState {
    pub root_name: Vec<u8>,
    pub root_depth: usize,
    pub suppressed_name: Option<Vec<u8>>,
    pub suppressed_depth: usize,
    pub raw_name: Option<Vec<u8>>,
    pub raw_mode: TextMode,
    pub raw_is_script: bool,
}

/// How an element is rendered.
#[derive(Clone, Copy, Debug, PartialEq, Eq, Structural)]
pub enum Render {
    /// Contributes nothing of its own.
    Plain,
    /// A block: separated from its surroundings by a blank line.
    Block,
    /// A heading of the given level.
    Heading(u8),
    /// `ul` or `ol`.
    List(bool),
    /// A list item.
    Item,
    Blockquote,
    Pre,
    Code,
    /// Emphasis with the given delimiter: 1 `*`, 2 `**`, 3 `~~`.
    Emphasis(u8),
    Link,
    Image,
    Break,
    Rule,
    Table,
    Row,
    Cell,
    /// Delimited by the strings of a tag override.
    Custom,
}

/// An open element.
pub struct ElementNode {
    pub tag_id: Option<u8>,
    pub custom_name: Option<Vec<u8>>,
    pub attributes: Attributes,
    pub child_text_node_index: usize,
    pub is_inline: bool,
    pub excludes_text_nodes: bool,
    pub is_non_nesting: bool,
    pub excluded_from_markdown: bool,
    pub collapses_inner_white_space: bool,
    pub render: Render,
    /// Whether its opening delimiter has been written.
    pub opened: bool,
    /// Whether it added to the line prefix.
    pub pushed_prefix: bool,
    /// Items seen (lists), cells seen (rows), rows seen (tables).
    pub children_seen: usize,
    /// Its number, for an ordered list item.
    pub number: usize,
    pub enter: Option<Vec<u8>>,
    pub exit: Option<Vec<u8>>,
    /// Whether it was opened as a void element, closed by its start tag.
    pub self_closing: bool,
}

} // verus!
