use mdream::{
    html_to_markdown, CleanConfig, ConvertState, ExtractionConfig, FrontmatterConfig, HTMLToMarkdownOptions,
    MarkdownStreamProcessor, OutputFormat, PluginConfig,
};

#[test]
fn excessive_nesting_keeps_the_real_stacks_capped() {
    let html = "<div>".repeat(100_000);
    let mut state = ConvertState::new(HTMLToMarkdownOptions::default(), 0, OutputFormat::Markdown);
    state.process_html(&html);

    assert_eq!(state.stack_len(), 512);
    assert_eq!(state.tokenizer_context_len(), 512);
    assert_eq!(state.overflow_root_depth(), Some(100_000 - 512));
}

#[test]
fn rewrites_restore_columns_before_a_drained_newline() {
    let mut state = ConvertState::new(HTMLToMarkdownOptions::default().with_wrap_width(40), 64, OutputFormat::Markdown);
    assert!(state.push_output_str("abcdefghij"));
    // Hand the ten bytes out; they are released from the buffer, which now
    // starts at column 10.
    assert_eq!(state.get_markdown_chunk(), "abcdefghij");
    assert_eq!(state.buffered_output_len(), 0);

    assert!(state.push_output_str("abc\ndef"));
    state.truncate_output(3);
    assert_eq!(state.output_column(), 13);

    assert!(state.push_output_str("\nghi"));
    assert!(state.replace_output_range(3, 4, b""));
    assert_eq!(state.output_column(), 16);
}

const CORPUS: &[&str] = &[
    "<h1>Title</h1><p>Para one.</p><p>Para <strong>two</strong>.</p>",
    "<ul><li>a</li><li>b<ul><li>b1</li><li>b2</li></ul></li></ul>",
    r#"<p>See <a href="https://example.com">Example</a> and <a href="https://x.io">the X site</a>.</p>"#,
    r#"<p>See <a href="https://example.com" title="Example site">Example</a>.</p>"#,
    "<blockquote><p>quote</p><blockquote><p>nested</p></blockquote></blockquote><p>after</p>",
    "<pre><code>let x = 1;\nlet y = 2;</code></pre><p>done</p>",
    "<table><tr><th>A</th><th>B</th></tr><tr><td>1</td><td>2</td></tr></table>",
    r#"<h2>Section</h2><p>text with a <a href="/rel">relative</a> link</p>"#,
    r#"<p>Visit <a href="https://x.io">https://x.io</a> today.</p>"#,
    r##"<h2><a href="#section">Section</a></h2><p>body</p>"##,
    r#"<p>link <a href="https://example.com">https://example.com</a> end</p>"#,
];

fn stream(html: &str, chunk: usize, opts: HTMLToMarkdownOptions, disable_drain: bool) -> String {
    let mut p = if disable_drain {
        MarkdownStreamProcessor::without_draining(opts)
    } else {
        MarkdownStreamProcessor::new(opts)
    };
    let mut out = String::new();
    for c in html.as_bytes().chunks(chunk) {
        out.push_str(&p.process_chunk(std::str::from_utf8(c).unwrap()));
    }
    out.push_str(&p.finish());
    out
}

fn safe_clean() -> CleanConfig {
    CleanConfig {
        urls: true,
        fragments: false,
        empty_links: true,
        blank_lines: true,
        redundant_links: true,
        self_link_headings: true,
        empty_images: true,
        empty_link_text: true,
    }
}

#[test]
fn drain_is_byte_transparent() {
    for &html in CORPUS {
        for opts in [
            HTMLToMarkdownOptions::default(),
            HTMLToMarkdownOptions::default().with_wrap_width(12),
            HTMLToMarkdownOptions { clean: Some(safe_clean()), ..Default::default() },
        ] {
            for chunk in [1usize, 3, 7, 64, html.len().max(1)] {
                let drained = stream(html, chunk, opts.clone(), false);
                let undrained = stream(html, chunk, opts.clone(), true);
                assert_eq!(drained, undrained, "drain changed output: chunk={chunk} html={html:?}");
            }
        }
    }
}

#[test]
fn closing_a_skipped_link_releases_the_yielded_prefix() {
    let options = HTMLToMarkdownOptions { clean: Some(safe_clean()), ..Default::default() };
    let mut processor = MarkdownStreamProcessor::new(options);

    for _ in 0..10_000 {
        let _ = processor.process_chunk(r##"<a href="#">x<span></span>"##);
        let _ = processor.process_chunk("</a>");
    }

    assert!(
        processor.buffered_output_len() < 1024,
        "yielded skipped links accumulated {} buffered bytes",
        processor.buffered_output_len()
    );
}

#[test]
fn completed_links_do_not_retain_prior_output() {
    fn assert_released(html: &str, iterations: usize) {
        let mut processor = MarkdownStreamProcessor::new(HTMLToMarkdownOptions::default());

        for _ in 0..iterations {
            drop(processor.process_chunk(html));
        }

        assert!(
            processor.buffered_output_len() < 1024,
            "completed links accumulated {} buffered bytes",
            processor.buffered_output_len()
        );
        drop(processor.finish());
    }

    assert_released(r#"<a href="/x">x</a>"#, 350_000);
    assert_released(r#"<a href="https://example.com">https://example.com</a>"#, 512);
}

#[test]
fn plugin_side_data_does_not_disable_output_draining() {
    for plugins in [
        PluginConfig { frontmatter: Some(FrontmatterConfig::default()), ..Default::default() },
        PluginConfig { extraction: Some(ExtractionConfig::new(&["p"])), ..Default::default() },
    ] {
        let mut processor =
            MarkdownStreamProcessor::new(HTMLToMarkdownOptions { plugins: Some(plugins), ..Default::default() });
        drop(processor.process_chunk(
            r#"<head><title>Title</title><meta name="description" content="Summary"></head>"#,
        ));
        for _ in 0..10_000 {
            drop(processor.process_chunk("<p>body</p>"));
            assert!(
                processor.buffered_output_len() < 1024,
                "plugin retained {} bytes of drained body output",
                processor.buffered_output_len()
            );
        }
        drop(processor.finish());
    }
}

#[test]
fn smoke_conversions() {
    let cases: &[(&str, &str)] = &[
        ("<h1>Title</h1><p>Para one.</p>", "# Title\n\nPara one."),
        ("<p>a <strong>b</strong> c</p>", "a **b** c"),
        ("<ul><li>a</li><li>b</li></ul>", "- a\n- b"),
        ("<ol><li>a</li><li>b</li></ol>", "1. a\n2. b"),
        (r#"<p><a href="/x">link</a></p>"#, "[link](/x)"),
        ("<blockquote><p>q</p></blockquote>", "> q"),
        ("<pre><code>let x = 1;\nlet y = 2;</code></pre>", "```\nlet x = 1;\nlet y = 2;\n```"),
        ("<table><tr><th>A</th><th>B</th></tr><tr><td>1</td><td>2</td></tr></table>", "| A | B |\n| --- | --- |\n| 1 | 2 |"),
        ("before<br>after<img src=x>tail", "before\\\nafter![](x)tail"),
        ("<p>I <3 Rust</p>", "I <3 Rust"),
    ];
    for (html, expected) in cases {
        assert_eq!(html_to_markdown(html, HTMLToMarkdownOptions::default()), *expected, "{html}");
    }
}

#[test]
fn html_solidus_on_a_normal_element_is_ignored_by_the_start_tag() {
    let mut state = ConvertState::new(HTMLToMarkdownOptions::default(), 0, OutputFormat::Markdown);
    let id = mdream::tags::get_tag_id("strong");
    let r = state.process_opening_tag(b"strong", id, id, false, b"<strong/>inside", 7);
    assert!(r.complete);
    assert!(!r.self_closing);
    assert!(!r.skip);
    assert_eq!(r.new_position, 9);
    assert_eq!(state.stack_len(), 1);
}

#[test]
fn start_tags_past_the_depth_cap_are_skipped() {
    let mut state = ConvertState::new(HTMLToMarkdownOptions::default(), 0, OutputFormat::Markdown);
    state.process_html(&"<div>".repeat(512));
    assert_eq!(state.stack_len(), 512);
    let id = mdream::tags::get_tag_id("div");
    let r = state.process_opening_tag(b"div", id, id, false, b"<div>", 4);
    assert!(r.complete && r.skip && !r.self_closing);
    assert_eq!(r.new_position, 5);
    assert_eq!(state.stack_len(), 512);
}

#[test]
fn unfinished_start_and_end_tags_are_incomplete() {
    let mut state = ConvertState::new(HTMLToMarkdownOptions::default(), 0, OutputFormat::Markdown);
    let id = mdream::tags::get_tag_id("p");
    let r = state.process_opening_tag(b"p", id, id, false, b"<p class='a>'", 2);
    assert!(!r.complete);
    assert_eq!(r.new_position, 2);
    let c = state.process_closing_tag(b"</p x='>'", 0);
    assert!(!c.complete);
    let c = state.process_closing_tag(b"</p x='>'>", 0);
    assert!(c.complete);
    assert_eq!(c.new_position, 10);
}

#[test]
fn closing_an_emphasis_writes_its_delimiter() {
    let mut state = ConvertState::new(HTMLToMarkdownOptions::default(), 0, OutputFormat::Markdown);
    state.process_html("<p>x<em>a");
    assert_eq!(state.stack_len(), 2);
    state.close_node();
    state.close_node();
    assert_eq!(state.get_markdown(), "x*a*");
}

#[test]
fn an_end_tag_closes_the_innermost_matching_element() {
    let mut state = ConvertState::new(HTMLToMarkdownOptions::default(), 0, OutputFormat::Markdown);
    state.process_html("<p><em>a");
    assert_eq!(state.stack_len(), 2);
    let r = state.process_closing_tag(b"</em>", 0);
    assert!(r.complete);
    assert_eq!(r.new_position, 5);
    assert_eq!(state.stack_len(), 1);
}

#[test]
fn an_end_tag_closes_down_to_a_deeper_match() {
    let mut state = ConvertState::new(HTMLToMarkdownOptions::default(), 0, OutputFormat::Markdown);
    state.process_html("<div><p><em>a");
    assert_eq!(state.stack_len(), 3);
    let r = state.process_closing_tag(b"</div>", 0);
    assert!(r.complete);
    assert_eq!(r.new_position, 6);
    assert_eq!(state.stack_len(), 0);
}

#[test]
fn an_end_tag_without_a_match_leaves_the_stack() {
    let mut state = ConvertState::new(HTMLToMarkdownOptions::default(), 0, OutputFormat::Markdown);
    state.process_html("<div><em>a");
    let r = state.process_closing_tag(b"</section>", 0);
    assert!(r.complete);
    assert_eq!(state.stack_len(), 2);
}

#[test]
fn plain_text_is_consumed_and_written() {
    let mut state = ConvertState::new(HTMLToMarkdownOptions::default(), 0, OutputFormat::Markdown);
    let rest = state.process_html("  some plain   text  ");
    assert_eq!(rest, "");
    state.finalize(&rest);
    assert_eq!(state.get_markdown(), "some plain text");
}

#[test]
fn text_alone_ends_with_its_last_character() {
    let out = html_to_markdown("one two*", HTMLToMarkdownOptions::default());
    assert!(out.ends_with('*'));
    assert_eq!(mdream::html_to_text("  last words.  ", HTMLToMarkdownOptions::default()), "last words.");
    assert_eq!(
        mdream::try_html_to_markdown("x y z", HTMLToMarkdownOptions::default()).unwrap(),
        "x y z"
    );
}

#[test]
fn frontmatter_lists_the_title_first() {
    let options = HTMLToMarkdownOptions {
        plugins: Some(PluginConfig { frontmatter: Some(FrontmatterConfig::default()), ..Default::default() }),
        ..Default::default()
    };
    let html = r#"<html><head><meta name="description" content="d"><title>Hello</title></head><body><p>x</p></body></html>"#;
    let result = mdream::html_to_markdown_result(html, options);
    let fields = result.frontmatter.unwrap();
    assert!(fields.len() >= 1);
    assert_eq!(fields[0].0, "title");
    assert_eq!(fields[0].1, "Hello");
}

#[test]
fn finalize_drops_a_start_tag_cut_short() {
    let mut state = ConvertState::new(HTMLToMarkdownOptions::default(), 0, OutputFormat::Markdown);
    let rest = state.process_html("x");
    assert_eq!(rest, "");
    state.finalize("<a");
    assert_eq!(state.get_markdown(), "x");
    assert_eq!(html_to_markdown("hello <a", HTMLToMarkdownOptions::default()), "hello");
}

#[test]
fn streamed_chunks_hold_back_trailing_whitespace() {
    let mut p = MarkdownStreamProcessor::new(HTMLToMarkdownOptions::default());
    let mut out = String::new();
    for chunk in ["<p>hello world </p><p>", "next   ", "line</p>  "] {
        let piece = p.process_chunk(chunk);
        assert!(!piece.ends_with(|c: char| c == ' ' || c == '\n' || c == '\t'));
        out.push_str(&piece);
    }
    out.push_str(&p.finish());
    assert_eq!(out, html_to_markdown("<p>hello world </p><p>next   line</p>  ", HTMLToMarkdownOptions::default()));
}
