use mdream::{html_to_markdown, html_to_text, CleanConfig, HTMLToMarkdownOptions, MarkdownStreamProcessor, OutputFormat};

/// A small deterministic generator of HTML-like documents.
struct Lcg(u64);
impl Lcg {
    fn next(&mut self) -> u64 {
        self.0 = self.0.wrapping_mul(6364136223846793005).wrapping_add(1442695040888963407);
        self.0 >> 33
    }
}

const TOKENS: &[&str] = &[
    "<p>", "</p>", "<div>", "</div>", "<b>", "</b>", "<em>", "</em>", "<a href=\"/u\">", "</a>", "<ul>", "<li>",
    "</li>", "</ul>", "<h2>", "</h2>", "<pre>", "</pre>", "<code>", "</code>", "<br>", "<hr/>", "<script>",
    "</script>", "<!--", "-->", "&amp;", "&", "<", ">", " ", "\n", "word", "x", "*", "_", "[", "]", "|", "\u{e9}",
    "<table>", "<tr>", "<td>", "</td>", "</tr>", "</table>", "<blockquote>", "</blockquote>", "<img src=a>",
    "<![CDATA[c]]>", "<svg>", "</svg>", "<textarea>", "</textarea>", "&#169;", "&lt", "'", "\"", "=",
    "<style>", "</style>", "<title>", "</title>", "<xmp>", "</xmp>", "<!-", "<!--<script>", "</scr", "ipt>",
    "<a href=/a title='t'>", "<ol>", "</ol>", "<h1>", "</h1>", "<i>", "</i>", "<head>", "</head>", "<meta name=x content=y>",
    "<select>", "<option>", "</select>", "<dl>", "<dt>", "<dd>", "<th>", "</th>", "&nbsp;", "&#x1F600;", "\t", "  ",
    "<template>", "</template>", "<iframe>", "</iframe>", "<noscript>", "</noscript>", "<strong/>",
    "aaaaaaaaaaaaaaaaaaaaaaaaaaaaaaaaaaaaaaaaaaaaaaaaaaaaaaaaaaaaaaaaaaaaaaaaaaaaaaaa", "1. ", "# ", "- ", "+", "`", "~",
    "<a>", "<a href=\"#\">", "<a href=\"\">", "<img>", "<img alt=q src=''>", "<p>text with &amp;amp; inside</p>",
];

/// Streams `docs` generated documents in random chunks and compares each with
/// the one-shot conversion.
fn run(seed: u64, docs: usize, format: OutputFormat, opts: HTMLToMarkdownOptions) {
    let mut rng = Lcg(seed);
    for _ in 0..docs {
        let len = (rng.next() % 60) as usize;
        let mut html = String::new();
        for _ in 0..len {
            html.push_str(TOKENS[(rng.next() as usize) % TOKENS.len()]);
        }
        let expected = match format {
            OutputFormat::Markdown => html_to_markdown(&html, opts.clone()),
            OutputFormat::Text => html_to_text(&html, opts.clone()),
        };
        let mut processor = MarkdownStreamProcessor::new_with_format(opts.clone(), format);
        let mut streamed = String::new();
        let mut start = 0;
        while start < html.len() {
            let mut end = (start + 1 + (rng.next() % 12) as usize).min(html.len());
            while end < html.len() && !html.is_char_boundary(end) {
                end += 1;
            }
            streamed.push_str(&processor.process_chunk(&html[start..end]));
            start = end;
        }
        streamed.push_str(&processor.finish());
        assert_eq!(streamed, expected, "{html:?}");
    }
}

#[test]
fn generated_markdown_streams_as_one_shot() { run(1, 12000, OutputFormat::Markdown, HTMLToMarkdownOptions::default()); }
#[test]
fn generated_text_streams_as_one_shot() { run(2, 6000, OutputFormat::Text, HTMLToMarkdownOptions::default()); }
#[test]
fn generated_wrapped_output_streams_as_one_shot() { run(3, 6000, OutputFormat::Markdown, HTMLToMarkdownOptions::default().with_wrap_width(16)); }
#[test]
fn generated_cleaned_output_streams_as_one_shot() {
    let c = CleanConfig { urls: true, fragments: false, empty_links: true, blank_lines: true, redundant_links: true,
        self_link_headings: true, empty_images: true, empty_link_text: true };
    run(4, 6000, OutputFormat::Markdown, HTMLToMarkdownOptions { clean: Some(c), ..Default::default() });
}
