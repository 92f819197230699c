use mdbook_svgdx::classify::{classify, BlockVariant, SourceDisplay};
use mdbook_svgdx::config::{
    is_decimal_str, validate_config, ConfigEntry, ConfigErrorKind, ConfigValue, NumValue,
};
use mdbook_svgdx::events::MdEvent;
use mdbook_svgdx::pipeline::rewrite_events;
use mdbook_svgdx::render::{error_markup, replace_newlines};
use mdbook_svgdx::sanitize::sanitize;
use mdbook_svgdx::SvgdxProc;

#[test]
fn preprocessor_name() {
    assert_eq!(SvgdxProc.name(), "svgdx");
}

#[test]
fn supported_renderers() {
    assert!(SvgdxProc.supports_renderer("html"));
    assert!(SvgdxProc.supports_renderer("markdown"));
    assert!(!SvgdxProc.supports_renderer("not-supported"));
}

#[test]
fn classify_recognized_tags() {
    assert_eq!(
        classify("svgdx"),
        Some(BlockVariant { source: SourceDisplay::Hidden, inline_layout: false })
    );
    assert_eq!(
        classify("svgdx-xml"),
        Some(BlockVariant { source: SourceDisplay::After, inline_layout: false })
    );
    assert_eq!(
        classify("xml-svgdx"),
        Some(BlockVariant { source: SourceDisplay::Before, inline_layout: false })
    );
    assert_eq!(
        classify("svgdx-xml-inline"),
        Some(BlockVariant { source: SourceDisplay::After, inline_layout: true })
    );
    assert_eq!(
        classify("xml-svgdx-inline"),
        Some(BlockVariant { source: SourceDisplay::Before, inline_layout: true })
    );
}

#[test]
fn classify_rejects_similar_tags() {
    assert_eq!(classify("svg"), None);
    assert_eq!(classify("svgdx2"), None);
    assert_eq!(classify("svgdx-xml-inline-x"), None);
    assert_eq!(classify("Svgdx"), None);
    assert_eq!(classify(""), None);
}

#[test]
fn sanitize_strips_blank_lines() {
    assert_eq!(sanitize("<svg>\n\n  \t\n<rect/>\n</svg>"), "<svg>\n<rect/>\n</svg>");
    assert_eq!(sanitize(""), "");
    assert_eq!(sanitize(" \t\r"), "");
    assert_eq!(sanitize("\n\n\n"), "");
    assert_eq!(sanitize("a\r\nb"), "a\r\nb");
}

#[test]
fn sanitize_is_idempotent_on_example() {
    let once = sanitize("x\n \ny\n\n");
    let twice = sanitize(&once);
    assert_eq!(once, "x\ny");
    assert_eq!(once, twice);
}

#[test]
fn newlines_become_inline_breaks() {
    assert_eq!(replace_newlines("one\ntwo\nthree"), "one<br/>two<br/>three");
    assert_eq!(replace_newlines("flat"), "flat");
    assert_eq!(replace_newlines("\n"), "<br/>");
}

#[test]
fn error_markup_wraps_message() {
    assert_eq!(
        error_markup("bad input\nline 2"),
        "<div style=\"color: red; border: 5px double red; padding: 1em;\">bad input<br/>line 2</div>"
    );
}

#[test]
fn rewrite_passes_unrecognized_events_through() {
    let cfg = svgdx::TransformConfig::default();
    let input = vec![
        MdEvent::Text("hello".to_string()),
        MdEvent::FenceStart("rust".to_string()),
        MdEvent::Text("fn main() {}".to_string()),
        MdEvent::FenceEnd,
        MdEvent::Html("<hr/>".to_string()),
    ];
    let out = rewrite_events(input, &cfg);
    let expected = vec![
        MdEvent::Text("hello".to_string()),
        MdEvent::FenceStart("rust".to_string()),
        MdEvent::Text("fn main() {}".to_string()),
        MdEvent::FenceEnd,
        MdEvent::Html("<hr/>".to_string()),
    ];
    assert_eq!(out, expected);
}

#[test]
fn rewrite_fragmented_block_matches_whole_block() {
    let cfg = svgdx::TransformConfig::default();
    let whole = vec![
        MdEvent::FenceStart("svgdx".to_string()),
        MdEvent::Text("<svg>\n  <rect wh=\"20 5\"/>\n</svg>\n".to_string()),
        MdEvent::FenceEnd,
    ];
    let fragmented = vec![
        MdEvent::FenceStart("svgdx".to_string()),
        MdEvent::Text("<svg>\n  <re".to_string()),
        MdEvent::Text("ct wh=\"20 5\"/>\n".to_string()),
        MdEvent::Text("</svg>\n".to_string()),
        MdEvent::FenceEnd,
    ];
    assert_eq!(rewrite_events(whole, &cfg), rewrite_events(fragmented, &cfg));
}

#[test]
fn unknown_config_key_is_fatal_and_named() {
    let entries = vec![
        ConfigEntry { key: "scale".to_string(), value: ConfigValue::VNum("2.5".to_string()) },
        ConfigEntry { key: "colour".to_string(), value: ConfigValue::VStr("red".to_string()) },
    ];
    let err = validate_config(&entries).err().expect("unknown key must fail");
    assert_eq!(err.kind, ConfigErrorKind::UnknownKey);
    assert_eq!(err.key, "colour");
    assert!(err.message().contains("colour"));
}

#[test]
fn mistyped_config_value_is_fatal_and_named() {
    let entries = vec![ConfigEntry {
        key: "seed".to_string(),
        value: ConfigValue::VStr("tomorrow".to_string()),
    }];
    let err = validate_config(&entries).err().expect("mistyped value must fail");
    assert_eq!(err.kind, ConfigErrorKind::InvalidValue);
    assert_eq!(err.key, "seed");
    assert!(err.message().contains("seed"));
}

#[test]
fn recognized_config_is_applied() {
    let entries = vec![
        ConfigEntry { key: "scale".to_string(), value: ConfigValue::VNum("2.5".to_string()) },
        ConfigEntry { key: "border".to_string(), value: ConfigValue::VInt(10) },
        ConfigEntry { key: "add-auto-styles".to_string(), value: ConfigValue::VBool(false) },
        ConfigEntry { key: "background".to_string(), value: ConfigValue::VStr("none".to_string()) },
        ConfigEntry { key: "seed".to_string(), value: ConfigValue::VInt(42) },
        ConfigEntry { key: "loop-limit".to_string(), value: ConfigValue::VInt(1000) },
        ConfigEntry { key: "var-limit".to_string(), value: ConfigValue::VInt(256) },
        ConfigEntry { key: "font-size".to_string(), value: ConfigValue::VStr("12".to_string()) },
        ConfigEntry {
            key: "font-family".to_string(),
            value: ConfigValue::VStr("serif".to_string()),
        },
        ConfigEntry { key: "theme".to_string(), value: ConfigValue::VStr("dark".to_string()) },
        ConfigEntry { key: "command".to_string(), value: ConfigValue::VStr("ignored".to_string()) },
    ];
    let cfg = validate_config(&entries).ok().expect("all entries recognized");
    assert!(matches!(cfg.scale, Some(NumValue::Decimal(ref s)) if s == "2.5"));
    assert!(matches!(cfg.border, Some(NumValue::Whole(10))));
    assert_eq!(cfg.add_auto_styles, Some(false));
    assert_eq!(cfg.background.as_deref(), Some("none"));
    assert_eq!(cfg.seed, Some(42));
    assert_eq!(cfg.loop_limit, Some(1000));
    assert_eq!(cfg.var_limit, Some(256));
    assert_eq!(cfg.font_size.as_deref(), Some("12"));
    assert_eq!(cfg.font_family.as_deref(), Some("serif"));
    assert_eq!(cfg.theme.as_deref(), Some("dark"));
}

#[test]
fn later_config_entries_override_earlier_ones() {
    let entries = vec![
        ConfigEntry { key: "seed".to_string(), value: ConfigValue::VInt(1) },
        ConfigEntry { key: "seed".to_string(), value: ConfigValue::VInt(2) },
    ];
    let cfg = validate_config(&entries).ok().unwrap();
    assert_eq!(cfg.seed, Some(2));
}

#[test]
fn out_of_range_limits_are_rejected() {
    let entries = vec![ConfigEntry { key: "loop-limit".to_string(), value: ConfigValue::VInt(-1) }];
    let err = validate_config(&entries).err().unwrap();
    assert_eq!(err.kind, ConfigErrorKind::InvalidValue);
    assert_eq!(err.key, "loop-limit");
    let entries = vec![ConfigEntry { key: "seed".to_string(), value: ConfigValue::VInt(-7) }];
    let err = validate_config(&entries).err().unwrap();
    assert_eq!(err.kind, ConfigErrorKind::InvalidValue);
}

#[test]
fn decimal_shapes_recognized() {
    assert!(is_decimal_str("2.5"));
    assert!(is_decimal_str("-3.25"));
    assert!(is_decimal_str("10"));
    assert!(is_decimal_str("-7"));
    assert!(!is_decimal_str(""));
    assert!(!is_decimal_str("-"));
    assert!(!is_decimal_str("2."));
    assert!(!is_decimal_str(".5"));
    assert!(!is_decimal_str("1.2.3"));
    assert!(!is_decimal_str("1e3"));
    assert!(!is_decimal_str("abc"));
}

#[test]
fn malformed_number_value_is_rejected() {
    let entries = vec![ConfigEntry {
        key: "scale".to_string(),
        value: ConfigValue::VNum("1.2.3".to_string()),
    }];
    let err = validate_config(&entries).err().unwrap();
    assert_eq!(err.kind, ConfigErrorKind::InvalidValue);
    assert_eq!(err.key, "scale");
}
