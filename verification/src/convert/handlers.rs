//! What each known element is, for parsing and rendering.

use vstd::prelude::*;
use crate::tags::{
    TAG_A, TAG_ABBR, TAG_ADDRESS, TAG_AREA, TAG_ARTICLE, TAG_ASIDE, TAG_AUDIO, TAG_B, TAG_BASE, TAG_BDI, TAG_BDO, TAG_BIG, TAG_BLOCKQUOTE, TAG_BODY, TAG_BR, TAG_BUTTON, TAG_CANVAS, TAG_CAPTION, TAG_CENTER, TAG_CITE, TAG_CODE, TAG_COL, TAG_DATA, TAG_DATALIST, TAG_DD, TAG_DEL, TAG_DETAILS, TAG_DFN, TAG_DIALOG, TAG_DIV, TAG_DL, TAG_DT, TAG_EM, TAG_EMBED, TAG_FIELDSET, TAG_FIGCAPTION, TAG_FIGURE, TAG_FONT, TAG_FOOTER, TAG_FORM, TAG_H1, TAG_H2, TAG_H3, TAG_H4, TAG_H5, TAG_H6, TAG_HEAD, TAG_HEADER, TAG_HGROUP, TAG_HR, TAG_HTML, TAG_I, TAG_IFRAME, TAG_IMG, TAG_INPUT, TAG_INS, TAG_KBD, TAG_KEYGEN, TAG_LABEL, TAG_LEGEND, TAG_LI, TAG_LINK, TAG_MAIN, TAG_MAP, TAG_MARK, TAG_MENU, TAG_META, TAG_METER, TAG_NAV, TAG_NOBR, TAG_NOEMBED, TAG_NOFRAMES, TAG_NOSCRIPT, TAG_OBJECT, TAG_OL, TAG_OPTGROUP, TAG_OPTION, TAG_OUTPUT, TAG_P, TAG_PARAM, TAG_PICTURE, TAG_PLAINTEXT, TAG_PRE, TAG_PROGRESS, TAG_Q, TAG_RP, TAG_RT, TAG_RUBY, TAG_S, TAG_SAMP, TAG_SCRIPT, TAG_SEARCH, TAG_SECTION, TAG_SELECT, TAG_SMALL, TAG_SOURCE, TAG_SPAN, TAG_STRIKE, TAG_STRONG, TAG_STYLE, TAG_SUB, TAG_SUMMARY, TAG_SUP, TAG_SVG, TAG_TABLE, TAG_TBODY, TAG_TD, TAG_TEMPLATE, TAG_TEXTAREA, TAG_TFOOT, TAG_TH, TAG_THEAD, TAG_TIME, TAG_TITLE, TAG_TR, TAG_TRACK, TAG_TT, TAG_U, TAG_UL, TAG_VAR, TAG_VIDEO, TAG_WBR, TAG_XMP,
};
use super::node::{Render, TextMode};

verus! {

/// Elements that never have content.
pub open spec fn spec_is_void(id: u8) -> bool {
    id == TAG_AREA || id == TAG_BASE || id == TAG_BR || id == TAG_COL || id == TAG_EMBED || id == TAG_HR || id == TAG_IMG || id == TAG_INPUT || id == TAG_KEYGEN || id == TAG_LINK || id == TAG_META || id == TAG_PARAM || id == TAG_SOURCE || id == TAG_TRACK || id == TAG_WBR
}

#[verifier::when_used_as_spec(spec_is_void)]
pub fn is_void(id: u8) -> (r: bool)
    ensures
        r == spec_is_void(id),
{
    id == TAG_AREA || id == TAG_BASE || id == TAG_BR || id == TAG_COL || id == TAG_EMBED || id == TAG_HR || id == TAG_IMG || id == TAG_INPUT || id == TAG_KEYGEN || id == TAG_LINK || id == TAG_META || id == TAG_PARAM || id == TAG_SOURCE || id == TAG_TRACK || id == TAG_WBR
}

/// Elements allowed inside `head`; any other start tag ends an unclosed head.
pub open spec fn spec_is_head_content(id: u8) -> bool {
    id == TAG_TITLE || id == TAG_META || id == TAG_LINK || id == TAG_BASE || id == TAG_STYLE || id == TAG_SCRIPT || id == TAG_NOSCRIPT || id == TAG_TEMPLATE
}

#[verifier::when_used_as_spec(spec_is_head_content)]
pub fn is_head_content(id: u8) -> (r: bool)
    ensures
        r == spec_is_head_content(id),
{
    id == TAG_TITLE || id == TAG_META || id == TAG_LINK || id == TAG_BASE || id == TAG_STYLE || id == TAG_SCRIPT || id == TAG_NOSCRIPT || id == TAG_TEMPLATE
}

/// Start tags that end an open paragraph.
pub open spec fn spec_closes_p(id: u8) -> bool {
    id == TAG_DIV || id == TAG_P || id == TAG_UL || id == TAG_OL || id == TAG_DL || id == TAG_LI || id == TAG_DD || id == TAG_DT || id == TAG_TABLE || id == TAG_H1 || id == TAG_H2 || id == TAG_H3 || id == TAG_H4 || id == TAG_H5 || id == TAG_H6 || id == TAG_BLOCKQUOTE || id == TAG_SECTION || id == TAG_ARTICLE || id == TAG_HEADER || id == TAG_FOOTER || id == TAG_NAV || id == TAG_ASIDE || id == TAG_PRE || id == TAG_HR || id == TAG_FORM || id == TAG_FIELDSET || id == TAG_FIGURE || id == TAG_FIGCAPTION || id == TAG_ADDRESS || id == TAG_MAIN || id == TAG_CENTER || id == TAG_DETAILS || id == TAG_SUMMARY || id == TAG_DIALOG
}

#[verifier::when_used_as_spec(spec_closes_p)]
pub fn closes_p(id: u8) -> (r: bool)
    ensures
        r == spec_closes_p(id),
{
    id == TAG_DIV || id == TAG_P || id == TAG_UL || id == TAG_OL || id == TAG_DL || id == TAG_LI || id == TAG_DD || id == TAG_DT || id == TAG_TABLE || id == TAG_H1 || id == TAG_H2 || id == TAG_H3 || id == TAG_H4 || id == TAG_H5 || id == TAG_H6 || id == TAG_BLOCKQUOTE || id == TAG_SECTION || id == TAG_ARTICLE || id == TAG_HEADER || id == TAG_FOOTER || id == TAG_NAV || id == TAG_ASIDE || id == TAG_PRE || id == TAG_HR || id == TAG_FORM || id == TAG_FIELDSET || id == TAG_FIGURE || id == TAG_FIGCAPTION || id == TAG_ADDRESS || id == TAG_MAIN || id == TAG_CENTER || id == TAG_DETAILS || id == TAG_SUMMARY || id == TAG_DIALOG
}

/// Where the search for a paragraph to close stops.
pub open spec fn spec_is_p_scope_boundary(id: u8) -> bool {
    id == TAG_BUTTON || id == TAG_TD || id == TAG_TH || id == TAG_CAPTION || id == TAG_TABLE || id == TAG_TEMPLATE || id == TAG_HTML || id == TAG_UL || id == TAG_OL || id == TAG_DL || id == TAG_LI
}

#[verifier::when_used_as_spec(spec_is_p_scope_boundary)]
pub fn is_p_scope_boundary(id: u8) -> (r: bool)
    ensures
        r == spec_is_p_scope_boundary(id),
{
    id == TAG_BUTTON || id == TAG_TD || id == TAG_TH || id == TAG_CAPTION || id == TAG_TABLE || id == TAG_TEMPLATE || id == TAG_HTML || id == TAG_UL || id == TAG_OL || id == TAG_DL || id == TAG_LI
}

/// Where the search for a list item to close stops.
pub open spec fn spec_is_li_scope_boundary(id: u8) -> bool {
    id == TAG_UL || id == TAG_OL || id == TAG_TABLE || id == TAG_TD || id == TAG_TH || id == TAG_CAPTION || id == TAG_TEMPLATE || id == TAG_HTML
}

#[verifier::when_used_as_spec(spec_is_li_scope_boundary)]
pub fn is_li_scope_boundary(id: u8) -> (r: bool)
    ensures
        r == spec_is_li_scope_boundary(id),
{
    id == TAG_UL || id == TAG_OL || id == TAG_TABLE || id == TAG_TD || id == TAG_TH || id == TAG_CAPTION || id == TAG_TEMPLATE || id == TAG_HTML
}

/// Where the search for a `dt`/`dd` to close stops.
pub open spec fn spec_is_dl_scope_boundary(id: u8) -> bool {
    id == TAG_DL || id == TAG_UL || id == TAG_OL || id == TAG_LI || id == TAG_TABLE || id == TAG_TD || id == TAG_TH || id == TAG_CAPTION || id == TAG_TEMPLATE || id == TAG_HTML
}

#[verifier::when_used_as_spec(spec_is_dl_scope_boundary)]
pub fn is_dl_scope_boundary(id: u8) -> (r: bool)
    ensures
        r == spec_is_dl_scope_boundary(id),
{
    id == TAG_DL || id == TAG_UL || id == TAG_OL || id == TAG_LI || id == TAG_TABLE || id == TAG_TD || id == TAG_TH || id == TAG_CAPTION || id == TAG_TEMPLATE || id == TAG_HTML
}

/// Where the search for a table cell to close stops.
pub open spec fn spec_is_cell_scope_boundary(id: u8) -> bool {
    id == TAG_TR || id == TAG_THEAD || id == TAG_TBODY || id == TAG_TFOOT || id == TAG_TABLE || id == TAG_CAPTION || id == TAG_TEMPLATE || id == TAG_HTML
}

#[verifier::when_used_as_spec(spec_is_cell_scope_boundary)]
pub fn is_cell_scope_boundary(id: u8) -> (r: bool)
    ensures
        r == spec_is_cell_scope_boundary(id),
{
    id == TAG_TR || id == TAG_THEAD || id == TAG_TBODY || id == TAG_TFOOT || id == TAG_TABLE || id == TAG_CAPTION || id == TAG_TEMPLATE || id == TAG_HTML
}

/// Where the search for a link to close stops.
pub open spec fn spec_is_a_scope_boundary(id: u8) -> bool {
    id == TAG_P || id == TAG_DIV || id == TAG_LI || id == TAG_UL || id == TAG_OL || id == TAG_DL || id == TAG_DD || id == TAG_DT || id == TAG_TABLE || id == TAG_TD || id == TAG_TH || id == TAG_TR || id == TAG_CAPTION || id == TAG_BLOCKQUOTE || id == TAG_SECTION || id == TAG_ARTICLE || id == TAG_HEADER || id == TAG_FOOTER || id == TAG_NAV || id == TAG_ASIDE || id == TAG_MAIN || id == TAG_FORM || id == TAG_FIELDSET || id == TAG_FIGURE || id == TAG_BUTTON || id == TAG_H1 || id == TAG_H2 || id == TAG_H3 || id == TAG_H4 || id == TAG_H5 || id == TAG_H6 || id == TAG_TEMPLATE || id == TAG_HTML
}

#[verifier::when_used_as_spec(spec_is_a_scope_boundary)]
pub fn is_a_scope_boundary(id: u8) -> (r: bool)
    ensures
        r == spec_is_a_scope_boundary(id),
{
    id == TAG_P || id == TAG_DIV || id == TAG_LI || id == TAG_UL || id == TAG_OL || id == TAG_DL || id == TAG_DD || id == TAG_DT || id == TAG_TABLE || id == TAG_TD || id == TAG_TH || id == TAG_TR || id == TAG_CAPTION || id == TAG_BLOCKQUOTE || id == TAG_SECTION || id == TAG_ARTICLE || id == TAG_HEADER || id == TAG_FOOTER || id == TAG_NAV || id == TAG_ASIDE || id == TAG_MAIN || id == TAG_FORM || id == TAG_FIELDSET || id == TAG_FIGURE || id == TAG_BUTTON || id == TAG_H1 || id == TAG_H2 || id == TAG_H3 || id == TAG_H4 || id == TAG_H5 || id == TAG_H6 || id == TAG_TEMPLATE || id == TAG_HTML
}

/// Elements whose text never reaches the output.
pub open spec fn spec_excludes_text(id: u8) -> bool {
    id == TAG_HEAD || id == TAG_SCRIPT || id == TAG_STYLE || id == TAG_TEMPLATE || id == TAG_NOSCRIPT || id == TAG_IFRAME || id == TAG_NOEMBED || id == TAG_NOFRAMES || id == TAG_DATALIST
}

#[verifier::when_used_as_spec(spec_excludes_text)]
pub fn excludes_text(id: u8) -> (r: bool)
    ensures
        r == spec_excludes_text(id),
{
    id == TAG_HEAD || id == TAG_SCRIPT || id == TAG_STYLE || id == TAG_TEMPLATE || id == TAG_NOSCRIPT || id == TAG_IFRAME || id == TAG_NOEMBED || id == TAG_NOFRAMES || id == TAG_DATALIST
}

/// Elements whose content is read as text up to their own end tag.
pub open spec fn spec_is_non_nesting(id: u8) -> bool {
    id == TAG_SCRIPT || id == TAG_STYLE || id == TAG_TITLE || id == TAG_TEXTAREA || id == TAG_XMP || id == TAG_IFRAME || id == TAG_NOEMBED || id == TAG_NOFRAMES || id == TAG_PLAINTEXT
}

#[verifier::when_used_as_spec(spec_is_non_nesting)]
pub fn is_non_nesting(id: u8) -> (r: bool)
    ensures
        r == spec_is_non_nesting(id),
{
    id == TAG_SCRIPT || id == TAG_STYLE || id == TAG_TITLE || id == TAG_TEXTAREA || id == TAG_XMP || id == TAG_IFRAME || id == TAG_NOEMBED || id == TAG_NOFRAMES || id == TAG_PLAINTEXT
}

/// Elements whose subtree is dropped while beyond the depth limit.
pub open spec fn spec_suppresses_subtree(id: u8) -> bool {
    id == TAG_SCRIPT || id == TAG_STYLE || id == TAG_TEMPLATE || id == TAG_IFRAME || id == TAG_NOFRAMES || id == TAG_NOEMBED || id == TAG_NOSCRIPT || id == TAG_DATALIST
}

#[verifier::when_used_as_spec(spec_suppresses_subtree)]
pub fn suppresses_subtree(id: u8) -> (r: bool)
    ensures
        r == spec_suppresses_subtree(id),
{
    id == TAG_SCRIPT || id == TAG_STYLE || id == TAG_TEMPLATE || id == TAG_IFRAME || id == TAG_NOFRAMES || id == TAG_NOEMBED || id == TAG_NOSCRIPT || id == TAG_DATALIST
}

/// Elements rendered as a block separated by a blank line.
pub open spec fn spec_is_block(id: u8) -> bool {
    id == TAG_P || id == TAG_DIV || id == TAG_SECTION || id == TAG_ARTICLE || id == TAG_HEADER || id == TAG_FOOTER || id == TAG_NAV || id == TAG_ASIDE || id == TAG_MAIN || id == TAG_FIGURE || id == TAG_FIGCAPTION || id == TAG_ADDRESS || id == TAG_DETAILS || id == TAG_SUMMARY || id == TAG_DIALOG || id == TAG_FIELDSET || id == TAG_FORM || id == TAG_CENTER || id == TAG_DL || id == TAG_DD || id == TAG_DT || id == TAG_HGROUP || id == TAG_SEARCH || id == TAG_MENU || id == TAG_CAPTION || id == TAG_LEGEND || id == TAG_BODY || id == TAG_HTML
}

#[verifier::when_used_as_spec(spec_is_block)]
pub fn is_block(id: u8) -> (r: bool)
    ensures
        r == spec_is_block(id),
{
    id == TAG_P || id == TAG_DIV || id == TAG_SECTION || id == TAG_ARTICLE || id == TAG_HEADER || id == TAG_FOOTER || id == TAG_NAV || id == TAG_ASIDE || id == TAG_MAIN || id == TAG_FIGURE || id == TAG_FIGCAPTION || id == TAG_ADDRESS || id == TAG_DETAILS || id == TAG_SUMMARY || id == TAG_DIALOG || id == TAG_FIELDSET || id == TAG_FORM || id == TAG_CENTER || id == TAG_DL || id == TAG_DD || id == TAG_DT || id == TAG_HGROUP || id == TAG_SEARCH || id == TAG_MENU || id == TAG_CAPTION || id == TAG_LEGEND || id == TAG_BODY || id == TAG_HTML
}

/// Elements that flow within a line.
pub open spec fn spec_is_inline_tag(id: u8) -> bool {
    id == TAG_A || id == TAG_ABBR || id == TAG_B || id == TAG_BDI || id == TAG_BDO || id == TAG_BIG || id == TAG_BR || id == TAG_CITE || id == TAG_CODE || id == TAG_DATA || id == TAG_DEL || id == TAG_DFN || id == TAG_EM || id == TAG_FONT || id == TAG_I || id == TAG_IMG || id == TAG_INPUT || id == TAG_INS || id == TAG_KBD || id == TAG_LABEL || id == TAG_MARK || id == TAG_NOBR || id == TAG_Q || id == TAG_RP || id == TAG_RT || id == TAG_RUBY || id == TAG_S || id == TAG_SAMP || id == TAG_SMALL || id == TAG_SPAN || id == TAG_STRIKE || id == TAG_STRONG || id == TAG_SUB || id == TAG_SUP || id == TAG_TIME || id == TAG_TT || id == TAG_U || id == TAG_VAR || id == TAG_WBR || id == TAG_BUTTON || id == TAG_SELECT || id == TAG_OPTION || id == TAG_OPTGROUP || id == TAG_OUTPUT || id == TAG_METER || id == TAG_PROGRESS || id == TAG_TEXTAREA || id == TAG_AUDIO || id == TAG_VIDEO || id == TAG_CANVAS || id == TAG_PICTURE || id == TAG_SOURCE || id == TAG_TRACK || id == TAG_EMBED || id == TAG_OBJECT || id == TAG_MAP || id == TAG_AREA || id == TAG_SVG
}

#[verifier::when_used_as_spec(spec_is_inline_tag)]
pub fn is_inline_tag(id: u8) -> (r: bool)
    ensures
        r == spec_is_inline_tag(id),
{
    id == TAG_A || id == TAG_ABBR || id == TAG_B || id == TAG_BDI || id == TAG_BDO || id == TAG_BIG || id == TAG_BR || id == TAG_CITE || id == TAG_CODE || id == TAG_DATA || id == TAG_DEL || id == TAG_DFN || id == TAG_EM || id == TAG_FONT || id == TAG_I || id == TAG_IMG || id == TAG_INPUT || id == TAG_INS || id == TAG_KBD || id == TAG_LABEL || id == TAG_MARK || id == TAG_NOBR || id == TAG_Q || id == TAG_RP || id == TAG_RT || id == TAG_RUBY || id == TAG_S || id == TAG_SAMP || id == TAG_SMALL || id == TAG_SPAN || id == TAG_STRIKE || id == TAG_STRONG || id == TAG_SUB || id == TAG_SUP || id == TAG_TIME || id == TAG_TT || id == TAG_U || id == TAG_VAR || id == TAG_WBR || id == TAG_BUTTON || id == TAG_SELECT || id == TAG_OPTION || id == TAG_OPTGROUP || id == TAG_OUTPUT || id == TAG_METER || id == TAG_PROGRESS || id == TAG_TEXTAREA || id == TAG_AUDIO || id == TAG_VIDEO || id == TAG_CANVAS || id == TAG_PICTURE || id == TAG_SOURCE || id == TAG_TRACK || id == TAG_EMBED || id == TAG_OBJECT || id == TAG_MAP || id == TAG_AREA || id == TAG_SVG
}

/// Elements whose rendering reads attributes.
pub open spec fn spec_needs_attributes(id: u8) -> bool {
    id == TAG_A || id == TAG_IMG || id == TAG_META || id == TAG_OL || id == TAG_PRE || id == TAG_CODE
}

#[verifier::when_used_as_spec(spec_needs_attributes)]
pub fn needs_attributes(id: u8) -> (r: bool)
    ensures
        r == spec_needs_attributes(id),
{
    id == TAG_A || id == TAG_IMG || id == TAG_META || id == TAG_OL || id == TAG_PRE || id == TAG_CODE
}

/// How a known element is rendered.
pub open spec fn spec_render_of(id: u8) -> Render {
    if id == TAG_H1 { Render::Heading(1) }
    else if id == TAG_H2 { Render::Heading(2) }
    else if id == TAG_H3 { Render::Heading(3) }
    else if id == TAG_H4 { Render::Heading(4) }
    else if id == TAG_H5 { Render::Heading(5) }
    else if id == TAG_H6 { Render::Heading(6) }
    else if id == TAG_UL || id == TAG_MENU { Render::List(false) }
    else if id == TAG_OL { Render::List(true) }
    else if id == TAG_LI { Render::Item }
    else if id == TAG_BLOCKQUOTE { Render::Blockquote }
    else if id == TAG_PRE { Render::Pre }
    else if id == TAG_CODE || id == TAG_KBD || id == TAG_SAMP || id == TAG_TT { Render::Code }
    else if id == TAG_STRONG || id == TAG_B { Render::Emphasis(2) }
    else if id == TAG_EM || id == TAG_I || id == TAG_CITE || id == TAG_DFN || id == TAG_VAR { Render::Emphasis(1) }
    else if id == TAG_DEL || id == TAG_S || id == TAG_STRIKE { Render::Emphasis(3) }
    else if id == TAG_A { Render::Link }
    else if id == TAG_IMG { Render::Image }
    else if id == TAG_BR { Render::Break }
    else if id == TAG_HR { Render::Rule }
    else if id == TAG_TABLE { Render::Table }
    else if id == TAG_TR { Render::Row }
    else if id == TAG_TD || id == TAG_TH { Render::Cell }
    else if spec_is_block(id) { Render::Block }
    else { Render::Plain }
}

pub fn render_of(id: u8) -> (r: Render)
    ensures
        r == spec_render_of(id),
        r matches Render::Heading(level) ==> 1 <= level <= 6,
        r matches Render::Emphasis(kind) ==> 1 <= kind <= 3,
{
    if id == TAG_H1 {
        Render::Heading(1)
    } else if id == TAG_H2 {
        Render::Heading(2)
    } else if id == TAG_H3 {
        Render::Heading(3)
    } else if id == TAG_H4 {
        Render::Heading(4)
    } else if id == TAG_H5 {
        Render::Heading(5)
    } else if id == TAG_H6 {
        Render::Heading(6)
    } else if id == TAG_UL || id == TAG_MENU {
        Render::List(false)
    } else if id == TAG_OL {
        Render::List(true)
    } else if id == TAG_LI {
        Render::Item
    } else if id == TAG_BLOCKQUOTE {
        Render::Blockquote
    } else if id == TAG_PRE {
        Render::Pre
    } else if id == TAG_CODE || id == TAG_KBD || id == TAG_SAMP || id == TAG_TT {
        Render::Code
    } else if id == TAG_STRONG || id == TAG_B {
        Render::Emphasis(2)
    } else if id == TAG_EM || id == TAG_I || id == TAG_CITE || id == TAG_DFN || id == TAG_VAR {
        Render::Emphasis(1)
    } else if id == TAG_DEL || id == TAG_S || id == TAG_STRIKE {
        Render::Emphasis(3)
    } else if id == TAG_A {
        Render::Link
    } else if id == TAG_IMG {
        Render::Image
    } else if id == TAG_BR {
        Render::Break
    } else if id == TAG_HR {
        Render::Rule
    } else if id == TAG_TABLE {
        Render::Table
    } else if id == TAG_TR {
        Render::Row
    } else if id == TAG_TD || id == TAG_TH {
        Render::Cell
    } else if is_block(id) {
        Render::Block
    } else {
        Render::Plain
    }
}

/// The text mode an element's content is read in; a `title` inside an SVG
/// integration point holds ordinary markup.
pub open spec fn spec_text_mode_for(id: Option<u8>, svg_integration_point: bool) -> TextMode {
    match id {
        Some(t) => if t == TAG_STYLE || t == TAG_XMP || t == TAG_IFRAME || t == TAG_NOFRAMES || t == TAG_NOEMBED {
            TextMode::RawText
        } else if t == TAG_TITLE && svg_integration_point {
            TextMode::Data
        } else if t == TAG_TITLE || t == TAG_TEXTAREA {
            TextMode::RcData
        } else if t == TAG_PLAINTEXT {
            TextMode::PlainText
        } else {
            TextMode::Data
        },
        None => TextMode::Data,
    }
}

pub fn text_mode_for(id: Option<u8>, svg_integration_point: bool) -> (r: TextMode)
    ensures
        r == spec_text_mode_for(id, svg_integration_point),
{
    match id {
        Some(t) => {
            if t == TAG_STYLE || t == TAG_XMP || t == TAG_IFRAME || t == TAG_NOFRAMES || t == TAG_NOEMBED {
                TextMode::RawText
            } else if t == TAG_TITLE && svg_integration_point {
                TextMode::Data
            } else if t == TAG_TITLE || t == TAG_TEXTAREA {
                TextMode::RcData
            } else if t == TAG_PLAINTEXT {
                TextMode::PlainText
            } else {
                TextMode::Data
            }
        },
        None => TextMode::Data,
    }
}

/// Whether a byte can start Markdown inline syntax and is escaped in text.
pub open spec fn spec_is_inline_gfm_hazard(c: u8) -> bool {
    c == 38 || c == 42 || c == 60 || c == 91 || c == 92 || c == 95 || c == 96 || c == 126
}

pub fn is_inline_gfm_hazard(c: u8) -> (r: bool)
    ensures
        r == spec_is_inline_gfm_hazard(c),
{
    c == 38 || c == 42 || c == 60 || c == 91 || c == 92 || c == 95 || c == 96 || c == 126
}

} // verus!

verus! {

/// The elements `h1` to `h6`, by their names, render as headings of the
/// level their names give, and no other element renders as a heading.
pub proof fn lemma_heading_levels(id: u8, n: u8)
    requires
        1 <= n <= 6,
    ensures
        crate::tags::tag_name_spec(id) == seq![104u8, (48 + n) as u8] ==> spec_render_of(id) == Render::Heading(n),
        spec_render_of(id) == Render::Heading(n) ==> crate::tags::tag_name_spec(id) == seq![104u8, (48 + n) as u8],
{
    let name = crate::tags::tag_name_spec(id);
    if name == seq![104u8, (48 + n) as u8] {
        assert(name.len() == 2 && name[0] == 104u8 && name[1] == (48 + n) as u8);
        assert(43 <= id <= 48) by {
            if !(43 <= id <= 48) {
                assert(name.len() != 2 || name[0] != 104u8 || name[1] < 49u8 || name[1] > 54u8);
            }
        }
    }
}


/// How the common formatting elements render, by their names: `strong` and
/// `b` as strong emphasis, `em` and `i` as emphasis, `del` and `s` as
/// strikethrough, `code` as code, `a` as a link, `blockquote` as a quote,
/// `ul` and `ol` as bullet and numbered lists, `li` as an item, `pre` as a
/// code block.
pub proof fn lemma_named_renders(id: u8)
    ensures
        crate::tags::tag_name_spec(id) == seq![115u8, 116, 114, 111, 110, 103] ==> spec_render_of(id) == Render::Emphasis(2),
        crate::tags::tag_name_spec(id) == seq![98u8] ==> spec_render_of(id) == Render::Emphasis(2),
        crate::tags::tag_name_spec(id) == seq![101u8, 109] ==> spec_render_of(id) == Render::Emphasis(1),
        crate::tags::tag_name_spec(id) == seq![105u8] ==> spec_render_of(id) == Render::Emphasis(1),
        crate::tags::tag_name_spec(id) == seq![100u8, 101, 108] ==> spec_render_of(id) == Render::Emphasis(3),
        crate::tags::tag_name_spec(id) == seq![115u8] ==> spec_render_of(id) == Render::Emphasis(3),
        crate::tags::tag_name_spec(id) == seq![99u8, 111, 100, 101] ==> spec_render_of(id) == Render::Code,
        crate::tags::tag_name_spec(id) == seq![97u8] ==> spec_render_of(id) == Render::Link,
        crate::tags::tag_name_spec(id) == seq![98u8, 108, 111, 99, 107, 113, 117, 111, 116, 101] ==> spec_render_of(id) == Render::Blockquote,
        crate::tags::tag_name_spec(id) == seq![117u8, 108] ==> spec_render_of(id) == Render::List(false),
        crate::tags::tag_name_spec(id) == seq![111u8, 108] ==> spec_render_of(id) == Render::List(true),
        crate::tags::tag_name_spec(id) == seq![108u8, 105] ==> spec_render_of(id) == Render::Item,
        crate::tags::tag_name_spec(id) == seq![112u8, 114, 101] ==> spec_render_of(id) == Render::Pre,
{
    let name = crate::tags::tag_name_spec(id);
    if name.len() == 1 {
        assert(name[0] == 98u8 ==> id == TAG_B);
        assert(name[0] == 105u8 ==> id == TAG_I);
        assert(name[0] == 115u8 ==> id == TAG_S);
        assert(name[0] == 97u8 ==> id == TAG_A);
    } else if name.len() == 2 {
        assert(name[0] == 101u8 && name[1] == 109u8 ==> id == TAG_EM);
        assert(name[0] == 117u8 && name[1] == 108u8 ==> id == TAG_UL);
        assert(name[0] == 111u8 && name[1] == 108u8 ==> id == TAG_OL);
        assert(name[0] == 108u8 && name[1] == 105u8 ==> id == TAG_LI);
    } else if name.len() == 3 {
        assert(name[0] == 100u8 && name[1] == 101u8 && name[2] == 108u8 ==> id == TAG_DEL);
        assert(name[0] == 112u8 && name[1] == 114u8 && name[2] == 101u8 ==> id == TAG_PRE);
    } else if name.len() == 4 {
        assert(name[0] == 99u8 && name[1] == 111u8 && name[2] == 100u8 && name[3] == 101u8 ==> id == TAG_CODE);
    } else if name.len() == 6 {
        assert(name[0] == 115u8 && name[1] == 116u8 && name[2] == 114u8 && name[3] == 111u8 ==> id == TAG_STRONG);
    } else if name.len() == 10 {
        assert(name[0] == 98u8 && name[1] == 108u8 && name[2] == 111u8 ==> id == TAG_BLOCKQUOTE);
    }
}

} // verus!
