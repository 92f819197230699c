use mdbook_svgdx::codeblock_parser;

fn render_config() -> svgdx::TransformConfig {
    svgdx::TransformConfig {
        svg_style: Some("min-width: 25%; max-width: 100%; height: auto;".to_string()),
        auto_style_mode: svgdx::AutoStyleMode::CssHtml,
        scale: 1.5,
        ..Default::default()
    }
}

#[test]
fn process_basic_svgdx() {
    let content = r##"
Some **markdown** text

```svgdx
<svg>
  <rect wh="20 5"/>
</svg>
```
"##;

    let expected1 = r##"Some **markdown** text

<div style="##;
    let expected2 = r##" class='svgdx'>

<svg "##;
    let expected3 = r##"
  <rect width="20" height="5"/>
</svg></div>"##;
    let result = codeblock_parser(content, &render_config()).unwrap();
    assert!(result.contains(expected1));
    assert!(result.contains(expected2));
    assert!(result.contains(expected3));
}

#[test]
fn process_with_crlf() {
    // crlf-separated text is parsed into multiple Text events; check the
    // fenced code block is still processed as a single unit.
    let content = [
        "Some **markdown** text",
        "",
        "```svgdx",
        "<svg>",
        r#"  <rect wh="20 5"/>"#,
        r#"  <rect xy="^|h" wh="20 5"/>"#,
        "</svg>",
        "```",
    ]
    .join("\r\n");

    let expected1 = r##"Some **markdown** text

<div style="##;
    let expected2 = r##" class='svgdx'>

<svg "##;
    let expected3 = r##"
  <rect x="20" y="0" width="20" height="5"/>
</svg></div>"##;
    let result = codeblock_parser(&content, &render_config()).unwrap();
    assert!(result.contains(expected1));
    assert!(result.contains(expected2));
    assert!(result.contains(expected3));
}

#[test]
fn source_before_precedes_rendered_output() {
    let content = "```xml-svgdx\n<svg>\n  <rect wh=\"20 5\"/>\n</svg>\n```\n";
    let result = codeblock_parser(content, &render_config()).unwrap();
    let source_pos = result.find("```xml").expect("raw-source display present");
    let rendered_pos = result.find("<svg ").expect("rendered output present");
    assert!(result.contains("class='xml-svgdx'"));
    assert!(result.contains("<rect wh=\"20 5\"/>"));
    assert!(source_pos < rendered_pos);
}

#[test]
fn source_after_follows_rendered_output() {
    let content = "```svgdx-xml\n<svg>\n  <rect wh=\"20 5\"/>\n</svg>\n```\n";
    let result = codeblock_parser(content, &render_config()).unwrap();
    let source_pos = result.find("```xml").expect("raw-source display present");
    let rendered_pos = result.find("<svg ").expect("rendered output present");
    assert!(rendered_pos < source_pos);
}

#[test]
fn render_failure_becomes_inline_error_box() {
    let content = "before text\n\n```svgdx\n<svg><rect wh=\"20 5\"/>\n```\n\nafter text\n";
    let result = codeblock_parser(content, &render_config()).unwrap();
    assert!(result.contains("color: red; border: 5px double red"));
    // processing continues past the failing block
    assert!(result.contains("before text"));
    assert!(result.contains("after text"));
}

#[test]
fn unterminated_block_processed_to_end_of_document() {
    let closed = "heading text\n\n```svgdx\n<svg>\n  <rect wh=\"20 5\"/>\n</svg>\n```";
    let open = "heading text\n\n```svgdx\n<svg>\n  <rect wh=\"20 5\"/>\n</svg>\n";
    let cfg = render_config();
    let closed_out = codeblock_parser(closed, &cfg).unwrap();
    let open_out = codeblock_parser(open, &cfg).unwrap();
    assert!(open_out.contains("<rect width=\"20\" height=\"5\"/>"));
    assert_eq!(closed_out, open_out);
}

#[test]
fn unrelated_fences_pass_through() {
    let content = "```rust\nfn main() {}\n```\n\nplain paragraph\n";
    let result = codeblock_parser(content, &render_config()).unwrap();
    assert!(result.contains("fn main() {}"));
    assert!(result.contains("plain paragraph"));
    assert!(!result.contains("<div"));
    assert!(!result.contains("<svg"));
}

#[test]
fn prefix_sharing_tag_is_not_special() {
    let content = "```svgdx-extra\n<svg>\n  <rect wh=\"20 5\"/>\n</svg>\n```\n";
    let result = codeblock_parser(content, &render_config()).unwrap();
    assert!(!result.contains("<div"));
    assert!(result.contains("<rect wh=\"20 5\"/>"));
}

#[test]
fn inline_variant_uses_side_by_side_layout() {
    let content = "```svgdx-xml-inline\n<svg>\n  <rect wh=\"20 5\"/>\n</svg>\n```\n";
    let result = codeblock_parser(content, &render_config()).unwrap();
    assert!(result.contains("flex-wrap: wrap"));
    assert!(result.contains("class='svgdx-xml-inline'"));
}
