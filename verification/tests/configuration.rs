use mdream::tags::{TAG_EM, TAG_STRONG};
use mdream::{
    html_to_markdown, html_to_markdown_result, try_html_to_markdown, validate_options, BoundedMarkdownStreamProcessor,
    CleanConfig, ConfigurationError, ConversionMode, ExtractionConfig, FilterConfig, FrontmatterConfig,
    HTMLToMarkdownOptions, MarkdownStreamProcessor, PluginConfig, StreamingError, StreamingLimits, TagOverrideConfig,
    UnsupportedStreamingOption,
};

fn with_override(tag: &str, config: TagOverrideConfig) -> HTMLToMarkdownOptions {
    HTMLToMarkdownOptions {
        plugins: Some(PluginConfig::default().with_tag_override(tag, config)),
        ..Default::default()
    }
}

#[test]
fn each_configuration_error_has_an_input_that_gives_it() {
    let out_of_range = with_override("x", TagOverrideConfig { alias_tag_id: Some(u8::MAX), ..Default::default() });
    assert_eq!(
        validate_options(&out_of_range, ConversionMode::OneShot),
        Err(ConfigurationError::TagAliasOutOfRange { tag: "x".to_string(), alias_tag_id: u8::MAX })
    );

    let mixed = with_override(
        "x",
        TagOverrideConfig { alias_tag_id: Some(TAG_EM), is_inline: Some(true), ..Default::default() },
    );
    assert_eq!(
        validate_options(&mixed, ConversionMode::OneShot),
        Err(ConfigurationError::TagAliasWithOverrides { tag: "x".to_string() })
    );

    let unpaired = with_override("pre", TagOverrideConfig { exit: Some("]".into()), ..Default::default() });
    assert_eq!(
        validate_options(&unpaired, ConversionMode::OneShot),
        Err(ConfigurationError::UnpairedTagOverride { tag: "pre".to_string() })
    );

    assert_eq!(
        TagOverrideConfig::try_alias("no-such-element"),
        Err(ConfigurationError::UnknownTagAlias { alias: "no-such-element".to_string() })
    );

    let frontmatter = HTMLToMarkdownOptions {
        plugins: Some(PluginConfig { frontmatter: Some(FrontmatterConfig::default()), ..Default::default() }),
        ..Default::default()
    };
    assert_eq!(validate_options(&frontmatter, ConversionMode::OneShot), Ok(()));
    assert_eq!(
        validate_options(&frontmatter, ConversionMode::Streaming),
        Err(ConfigurationError::UnsupportedStreamingOption(UnsupportedStreamingOption::Frontmatter))
    );
}

#[test]
fn streaming_conflicts_are_reported_in_a_fixed_order() {
    let everything = HTMLToMarkdownOptions {
        clean: Some(CleanConfig { fragments: true, ..Default::default() }),
        plugins: Some(PluginConfig {
            frontmatter: Some(FrontmatterConfig::default()),
            extraction: Some(ExtractionConfig::new(&["p"])),
            ..Default::default()
        }),
        ..Default::default()
    };
    assert_eq!(
        MarkdownStreamProcessor::try_new(everything).err(),
        Some(ConfigurationError::UnsupportedStreamingOption(UnsupportedStreamingOption::CleanFragments))
    );
}

#[test]
fn bounded_stream_refuses_an_invalid_override() {
    let unpaired = with_override("a", TagOverrideConfig { enter: Some("[".into()), ..Default::default() });
    assert!(matches!(
        BoundedMarkdownStreamProcessor::new(unpaired, StreamingLimits::new(4096)),
        Err(StreamingError::InvalidConfiguration)
    ));
}

#[test]
fn tolerant_conversion_repairs_what_validation_refuses() {
    // An unpaired override of a pair-requiring tag gets an empty other half.
    let unpaired = with_override("a", TagOverrideConfig { enter: Some("<".into()), ..Default::default() });
    assert!(try_html_to_markdown(r#"<a href="/x">body</a>"#, unpaired.clone()).is_err());
    assert_eq!(html_to_markdown(r#"<a href="/x">body</a>"#, unpaired), "<body");

    // An alias combined with rendering fields loses the alias.
    let mixed = with_override(
        "x",
        TagOverrideConfig {
            enter: Some("(".into()),
            exit: Some(")".into()),
            alias_tag_id: Some(TAG_STRONG),
            ..Default::default()
        },
    );
    assert_eq!(html_to_markdown("<x>body</x>", mixed), "(body)");
}

#[test]
fn override_names_match_without_regard_to_case() {
    let upper = with_override(
        "STRONG",
        TagOverrideConfig { enter: Some("[".into()), exit: Some("]".into()), ..Default::default() },
    );
    assert_eq!(try_html_to_markdown("<strong>x</strong>", upper).unwrap(), "[x]");
}

#[test]
fn aliases_render_as_their_target() {
    let options = with_override("x", TagOverrideConfig::alias("STRONG"));
    assert_eq!(html_to_markdown("<x>bold</x>", options), "**bold**");
    assert_eq!(TagOverrideConfig::try_alias("em"), Ok(TagOverrideConfig::alias("em")));
    assert_eq!(TagOverrideConfig::alias("em").alias_tag_id, Some(TAG_EM));
}

#[test]
fn frontmatter_collects_title_and_description() {
    let options = HTMLToMarkdownOptions {
        plugins: Some(PluginConfig { frontmatter: Some(FrontmatterConfig::default()), ..Default::default() }),
        ..Default::default()
    };
    let result = html_to_markdown_result(
        r#"<html><head><title>Title</title><meta name="description" content="Summary"></head><body><p>body</p></body></html>"#,
        options,
    );
    let frontmatter = result.frontmatter.unwrap();
    assert_eq!(frontmatter[0], ("title".to_string(), "Title".to_string()));
    assert!(frontmatter.contains(&("description".to_string(), "Summary".to_string())));
    assert!(result.markdown.starts_with("---\n"), "{:?}", result.markdown);
    assert!(result.markdown.ends_with("body"), "{:?}", result.markdown);
}

#[test]
fn side_data_appears_only_when_asked_for() {
    let result = html_to_markdown_result("<p>plain</p>", HTMLToMarkdownOptions::default());
    assert_eq!(result.markdown, "plain");
    assert!(result.frontmatter.is_none());
    assert!(result.extracted.is_none());
}

#[test]
fn extraction_reports_matching_elements_with_their_text() {
    let options = HTMLToMarkdownOptions {
        plugins: Some(PluginConfig { extraction: Some(ExtractionConfig::new(&["h2", ".note"])), ..Default::default() }),
        ..Default::default()
    };
    let result = html_to_markdown_result(
        r#"<h2 id="a">First</h2><p class="note">Careful <b>now</b></p><h2>Second</h2>"#,
        options,
    );
    let extracted = result.extracted.unwrap();
    let texts: Vec<(&str, &str)> =
        extracted.iter().map(|e| (e.selector.as_str(), e.text_content.as_str())).collect();
    assert!(texts.contains(&("h2", "First")), "{texts:?}");
    assert!(texts.contains(&("h2", "Second")), "{texts:?}");
    assert!(texts.contains(&(".note", "Careful now")), "{texts:?}");
    let first = extracted.iter().find(|e| e.text_content == "First").unwrap();
    assert_eq!(first.tag_name, "h2");
    assert_eq!(first.attributes, vec![("id".to_string(), "a".to_string())]);
}

#[test]
fn filter_drops_excluded_subtrees() {
    let options = HTMLToMarkdownOptions {
        plugins: Some(PluginConfig {
            filter: Some(FilterConfig { include_selectors: None, exclude: Some(vec!["nav".to_string()]), process_children: None }),
            ..Default::default()
        }),
        ..Default::default()
    };
    assert_eq!(html_to_markdown("<nav><a href=\"/\">home</a></nav><p>kept</p>", options), "kept");
}

#[test]
fn origin_prefixes_rooted_links() {
    let options = HTMLToMarkdownOptions { origin: Some("https://example.com/".to_string()), ..Default::default() };
    assert_eq!(html_to_markdown(r#"<a href="/docs">docs</a>"#, options.clone()), "[docs](https://example.com/docs)");
    assert_eq!(html_to_markdown(r#"<a href="//cdn.io/x">cdn</a>"#, options.clone()), "[cdn](//cdn.io/x)");
    assert_eq!(html_to_markdown(r#"<a href="rel">rel</a>"#, options), "[rel](rel)");
}

#[test]
fn wrapped_output_breaks_at_the_first_space_past_the_width() {
    let out = html_to_markdown(
        "<p>one two three four five six seven eight nine ten</p>",
        HTMLToMarkdownOptions::default().with_wrap_width(20),
    );
    assert_eq!(out, "one two three four five\nsix seven eight nine\nten");
}
