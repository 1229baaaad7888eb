use mdream::{
    html_to_markdown, html_to_text, BoundedMarkdownStreamProcessor, HTMLToMarkdownOptions, MarkdownStreamProcessor,
    OutputFormat, StreamingLimits,
};

const WIDTHS: [usize; 8] = [1, 2, 3, 5, 7, 13, 64, 4096];

const DOCUMENTS: &[&str] = &[
    "<h1>Title</h1><p>Para one.</p><p>Para <strong>two</strong>.</p>",
    "<ul><li>a</li><li>b<ul><li>b1</li><li>b2</li></ul></li></ul><ol start=3><li>x</li><li>y</li></ol>",
    "<p>caf\u{e9} \u{2014} \u{1f600} na\u{ef}ve</p><p>&amp; &lt; &gt; &copy; &#169; &#xA9; &notanentity;</p>",
    "<pre><code>fn main() {\n    println!(\"hi\");\n}</code></pre><p>after</p>",
    "<table><tr><th>A</th><th>B</th></tr><tr><td>1 | 2</td><td>[x]</td></tr></table>",
    "<blockquote><p>quote</p><blockquote><p>nested</p></blockquote></blockquote><hr><p>end</p>",
    "text <b>bold <i>both</i></b> <code>a`b</code> <del>gone</del> <a href=\"/x\" title=\"t\">link</a>",
    "<!-- comment --><!DOCTYPE html><script>if (a < b) { x = \"</p>\"; }</script><style>p { x: 1 }</style><p>shown</p>",
    "<div><p>one<p>two<li>three</div><span>  spaced   out  </span>",
    "<svg><title>t</title><text>svg text</text></svg><img src=\"/i.png\" alt=\"pic\"><br>line",
    "<p>I <3 Rust</p>< 3 <> <!foo> <?pi?> </3> before<a",
    "<textarea>A &amp; <b>x</b></textarea><xmp>&amp; <i>y</i></xmp><title>T &amp; U</title>",
    "<p>a long run of plain words that goes well past the lookbehind window used by the streaming lexer</p>",
    "",
];

fn stream_at_width(html: &str, width: usize, format: OutputFormat) -> String {
    let mut processor = MarkdownStreamProcessor::new_with_format(HTMLToMarkdownOptions::default(), format);
    let mut streamed = String::new();
    let mut start = 0;
    while start < html.len() {
        let mut end = (start + width).min(html.len());
        while end < html.len() && !html.is_char_boundary(end) {
            end += 1;
        }
        streamed.push_str(&processor.process_chunk(&html[start..end]));
        start = end;
    }
    streamed.push_str(&processor.finish());
    streamed
}

#[test]
fn streaming_matches_one_shot_at_every_width() {
    for &html in DOCUMENTS {
        let expected = html_to_markdown(html, HTMLToMarkdownOptions::default());
        for width in WIDTHS {
            assert_eq!(stream_at_width(html, width, OutputFormat::Markdown), expected, "width {width}: {html:?}");
        }
        let expected_text = html_to_text(html, HTMLToMarkdownOptions::default());
        for width in WIDTHS {
            assert_eq!(stream_at_width(html, width, OutputFormat::Text), expected_text, "text width {width}: {html:?}");
        }
    }
}

/// A small deterministic generator of HTML-like documents.
struct Lcg(u64);

impl Lcg {
    fn next(&mut self) -> u64 {
        self.0 = self.0.wrapping_mul(6364136223846793005).wrapping_add(1442695040888963407);
        self.0 >> 33
    }
}

const TOKENS: &[&str] = &[
    "<p>", "</p>", "<div>", "</div>", "<b>", "</b>", "<em>", "</em>", "<a href=\"/u\">", "</a>", "<ul>", "<li>",
    "</li>", "</ul>", "<h2>", "</h2>", "<pre>", "</pre>", "<code>", "</code>", "<br>", "<hr/>", "<script>",
    "</script>", "<!--", "-->", "&amp;", "&", "<", ">", " ", "\n", "word", "x", "*", "_", "[", "]", "|", "\u{e9}",
    "<table>", "<tr>", "<td>", "</td>", "</tr>", "</table>", "<blockquote>", "</blockquote>", "<img src=a>",
    "<![CDATA[c]]>", "<svg>", "</svg>", "<textarea>", "</textarea>", "&#169;", "&lt", "'", "\"", "=",
    "<style>", "</style>", "<title>", "</title>", "<xmp>", "</xmp>", "<!-", "<!--<script>", "</scr", "ipt>",
    "<a href=/a title='t'>", "<ol>", "</ol>", "<h1>", "</h1>", "<i>", "</i>", "<head>", "</head>", "<meta name=x content=y>",
    "<select>", "<option>", "</select>", "<dl>", "<dt>", "<dd>", "<th>", "</th>", "&nbsp;", "&#x1F600;", "\t", "  ",
    "<plaintext>", "<template>", "</template>", "<iframe>", "</iframe>", "<noscript>", "</noscript>", "<strong/>",
];

#[test]
fn streaming_matches_one_shot_for_generated_documents() {
    let mut rng = Lcg(0x5eed);
    for _ in 0..4000 {
        let len = (rng.next() % 40) as usize;
        let mut html = String::new();
        for _ in 0..len {
            html.push_str(TOKENS[(rng.next() as usize) % TOKENS.len()]);
        }
        let expected = html_to_markdown(&html, HTMLToMarkdownOptions::default());
        let mut processor = MarkdownStreamProcessor::new(HTMLToMarkdownOptions::default());
        let mut streamed = String::new();
        let mut start = 0;
        while start < html.len() {
            let mut end = (start + 1 + (rng.next() % 9) as usize).min(html.len());
            while end < html.len() && !html.is_char_boundary(end) {
                end += 1;
            }
            streamed.push_str(&processor.process_chunk(&html[start..end]));
            start = end;
        }
        streamed.push_str(&processor.finish());
        assert_eq!(streamed, expected, "{html:?}");
    }
}

#[test]
fn bounded_stream_with_room_matches_one_shot() {
    for &html in DOCUMENTS {
        let expected = html_to_markdown(html, HTMLToMarkdownOptions::default());
        for width in [1usize, 5, 4096] {
            let mut processor =
                BoundedMarkdownStreamProcessor::new(HTMLToMarkdownOptions::default(), StreamingLimits::new(1 << 20))
                    .unwrap();
            let mut streamed = String::new();
            let mut start = 0;
            while start < html.len() {
                let mut end = (start + width).min(html.len());
                while end < html.len() && !html.is_char_boundary(end) {
                    end += 1;
                }
                streamed.push_str(&processor.process_chunk(&html[start..end]).unwrap());
                start = end;
            }
            streamed.push_str(&processor.finish().unwrap());
            assert_eq!(streamed, expected, "width {width}: {html:?}");
        }
    }
}

#[test]
fn finished_stream_has_nothing_more_to_say() {
    let mut processor = MarkdownStreamProcessor::new(HTMLToMarkdownOptions::default());
    assert_eq!(processor.process_chunk("<p>a</p>"), "a");
    assert_eq!(processor.finish(), "");
    assert_eq!(processor.buffered_output_len(), 0);
}
