use mdream::convert::script::{find_script_end_tag, ScriptBoundary, SCRIPT_DATA};
use mdream::attributes::MAX_ATTRIBUTES_PER_ELEMENT;
use mdream::chars::is_whitespace;
use mdream::scan::{parse_attribute_str, process_comment_or_doctype, process_tag_attributes, MAX_ATTRIBUTE_BYTES};

fn parse_attributes(s: &str) -> mdream::attributes::Attributes {
    parse_attribute_str(s)
}

#[test]
fn whitespace_detection() {
    for c in *b" \t\n\r" {
        assert!(is_whitespace(c));
    }
    for c in [b'a', b'0', b'-', 0u8] {
        assert!(!is_whitespace(c));
    }
}

#[test]
fn parses_quoted_and_unquoted_attributes() {
    let a = parse_attributes("href=\"/x\" id=main");
    assert_eq!(a.get("href").as_deref(), Some("/x"));
    assert_eq!(a.get("id").as_deref(), Some("main"));
}

#[test]
fn parses_valueless_and_empty_attributes() {
    let a = parse_attributes("disabled checked");
    assert!(a.contains_key("disabled"));
    assert!(a.contains_key("checked"));
    let empty = parse_attributes("");
    assert!(empty.is_empty());
}

#[test]
fn attribute_names_lowercased_values_decoded() {
    let a = parse_attributes("DATA-X='a &amp; b'");
    assert_eq!(a.get("data-x").as_deref(), Some("a & b"));
}

#[test]
fn attribute_entities_follow_ambiguous_ampersand_rules() {
    let a = parse_attributes("title='&copycat &copy=1 &copy! &copy;cat'");
    assert_eq!(a.get("title").as_deref(), Some("&copycat &copy=1 ©! ©cat"));
}

#[test]
fn form_feed_is_whitespace() {
    assert!(is_whitespace(0x0C));
}

#[test]
fn valueless_equals_attribute_kept_as_empty() {
    let a = parse_attributes("href=");
    assert!(a.contains_key("href"));
    assert_eq!(a.get("href").as_deref(), Some(""));
}

#[test]
fn process_tag_attributes_finds_close() {
    let html = "a href=\"x\">rest";
    let (complete, new_pos, attrs, self_closing) = process_tag_attributes(html.as_bytes(), 1, false);
    assert!(complete);
    assert!(!self_closing);
    assert_eq!(&html[new_pos..], "rest");
    assert_eq!(attrs.get("href").as_deref(), Some("x"));
}

#[test]
fn solidus_in_unquoted_value_is_not_a_self_closing_marker() {
    let (complete, _, attrs, self_closing) = process_tag_attributes(" data=x/>".as_bytes(), 0, false);
    assert!(complete);
    assert!(!self_closing);
    assert_eq!(attrs.get("data").as_deref(), Some("x/"));

    let (complete, _, attrs, self_closing) = process_tag_attributes(" data=x=/>".as_bytes(), 0, false);
    assert!(complete);
    assert!(!self_closing);
    assert_eq!(attrs.get("data").as_deref(), Some("x=/"));

    let (complete, _, attrs, self_closing) = process_tag_attributes(" data=/>".as_bytes(), 0, false);
    assert!(complete);
    assert!(!self_closing);
    assert_eq!(attrs.get("data").as_deref(), Some("/"));

    let (complete, _, attrs, self_closing) = process_tag_attributes(" data=x />".as_bytes(), 0, false);
    assert!(complete);
    assert!(self_closing);
    assert_eq!(attrs.get("data").as_deref(), Some("x"));

    let (complete, _, _, self_closing) = process_tag_attributes(" href=/u =x/>".as_bytes(), 0, false);
    assert!(complete);
    assert!(self_closing);
}

#[test]
fn duplicate_attributes_keep_the_first_value() {
    let attrs = parse_attributes(
        "href=/first HREF=/second src=one SRC=two class=a CLASS=b id=one ID=two lang=js LANG=python __proto__=first __PROTO__=second Ä=upper ä=lower",
    );
    assert_eq!(attrs.get("href").as_deref(), Some("/first"));
    assert_eq!(attrs.get("src").as_deref(), Some("one"));
    assert_eq!(attrs.get("class").as_deref(), Some("a"));
    assert_eq!(attrs.get("id").as_deref(), Some("one"));
    assert_eq!(attrs.get("lang").as_deref(), Some("js"));
    assert_eq!(attrs.get("__proto__").as_deref(), Some("first"));
    assert_eq!(attrs.get("Ä").as_deref(), Some("upper"));
    assert_eq!(attrs.get("ä").as_deref(), Some("lower"));
}

#[test]
fn attribute_limits_are_reported() {
    let oversized = parse_attributes(&"x".repeat(MAX_ATTRIBUTE_BYTES + 1));
    assert!(oversized.limit_exceeded());
    assert!(oversized.is_empty());

    let input = (0..=MAX_ATTRIBUTES_PER_ELEMENT)
        .map(|index| format!("a{index}=x"))
        .collect::<Vec<_>>()
        .join(" ");
    let many = parse_attributes(&input);
    assert!(many.limit_exceeded());
    assert_eq!(many.len(), MAX_ATTRIBUTES_PER_ELEMENT);
}

#[test]
fn duplicate_storm_keeps_the_first_value_without_hitting_the_count_limit() {
    let input = std::iter::repeat_n("href=duplicate", MAX_ATTRIBUTES_PER_ELEMENT * 8)
        .collect::<Vec<_>>()
        .join(" ");
    let attrs = parse_attributes(&format!("href=first {input}"));
    assert!(!attrs.limit_exceeded());
    assert_eq!(attrs.len(), 1);
    assert_eq!(attrs.get("href").as_deref(), Some("first"));
}

#[test]
fn malformed_comments_follow_html_end_states() {
    for html in ["<!-->", "<!--->", "<!--x-->", "<!--x--!>", "<!--x--->"] {
        let result = process_comment_or_doctype(html.as_bytes(), 0);
        assert!(result.complete, "{html}");
        assert_eq!(result.new_position, html.len(), "{html}");
    }
    assert!(!process_comment_or_doctype("<!--x".as_bytes(), 0).complete);
}

#[test]
fn script_scanning_skips_end_tags_inside_double_escaped_runs() {
    let (b, st) = find_script_end_tag(b"<!--<script></script>--></script>", 0, SCRIPT_DATA);
    assert!(matches!(b, ScriptBoundary::Close(24)));
    assert_eq!(st, SCRIPT_DATA);
    let (b, _) = find_script_end_tag(b"abc</scr", 0, SCRIPT_DATA);
    assert!(matches!(b, ScriptBoundary::Pending(3)));
    let (b, _) = find_script_end_tag(b"let a = 1 < 2;", 0, SCRIPT_DATA);
    assert!(matches!(b, ScriptBoundary::Complete));
}
