use castcodes::markdown::types::BlockType;
use castcodes::markdown::utils::{
    escape_code_block, escape_markdown, generate_id, indent, is_valid_block_type,
    is_valid_heading_level, normalize_line_endings, plain_content, plain_span, trim_blank_lines,
    unescape_markdown, DEFAULT_ID_LENGTH,
};

#[test]
fn generate_id_is_8_chars_alphanumeric() {
    let id = generate_id();
    assert_eq!(id.len(), DEFAULT_ID_LENGTH);
    assert!(id.chars().all(|c| c.is_ascii_alphanumeric()));
}

#[test]
fn generate_id_is_distinct_within_a_burst() {
    let mut seen = std::collections::HashSet::new();
    for _ in 0..256 {
        assert!(seen.insert(generate_id()));
    }
}

#[test]
fn escape_and_unescape_roundtrip() {
    let cases = [
        "plain",
        "has *asterisks* and _underscores_",
        "[link](url)",
        "back\\slash",
        "many|pipes|here",
    ];
    for case in cases {
        let escaped = escape_markdown(case);
        let back = unescape_markdown(&escaped);
        assert_eq!(back, case, "round-trip failed for {case:?}");
    }
}

#[test]
fn escape_markdown_escapes_js_charset_only() {
    // '>' and '~' are not escaped.
    let s = "tilde~angle>";
    assert_eq!(escape_markdown(s), "tilde~angle>");
}

#[test]
fn normalize_line_endings_handles_crlf_and_cr() {
    assert_eq!(normalize_line_endings("a\r\nb\rc\n"), "a\nb\nc\n");
}

#[test]
fn escape_code_block_replaces_triple_backticks() {
    assert_eq!(escape_code_block("```js"), "\\`\\`\\`js");
}

#[test]
fn trim_blank_lines_strips_leading_and_trailing() {
    assert_eq!(trim_blank_lines("\n\n  \nhi\nthere\n\n"), "hi\nthere");
}

#[test]
fn indent_skips_blank_lines() {
    assert_eq!(indent("a\n\nb", 2), "  a\n\n  b");
}

#[test]
fn plain_span_round_trips() {
    let s = plain_span("hi");
    assert_eq!(s.text, "hi");
    assert!(s.styles.is_plain());
}

#[test]
fn plain_content_is_single_span() {
    let c = plain_content("hi");
    assert_eq!(c.len(), 1);
    assert_eq!(c[0].text, "hi");
}

#[test]
fn is_valid_heading_level_bounds() {
    assert!(is_valid_heading_level(1));
    assert!(is_valid_heading_level(6));
    assert!(!is_valid_heading_level(0));
    assert!(!is_valid_heading_level(7));
}

#[test]
fn is_valid_block_type_known_strings() {
    for t in [
        "paragraph",
        "heading",
        "bulletList",
        "numberedList",
        "checkList",
        "codeBlock",
        "blockquote",
        "table",
        "image",
        "divider",
        "callout",
    ] {
        assert!(is_valid_block_type(t));
    }
    assert!(!is_valid_block_type("unknown"));
    assert!(!is_valid_block_type(""));
}

#[test]
fn block_type_str_matches() {
    for bt in [
        BlockType::Paragraph,
        BlockType::Heading,
        BlockType::BulletList,
        BlockType::NumberedList,
        BlockType::CheckList,
        BlockType::CodeBlock,
        BlockType::Blockquote,
        BlockType::Table,
        BlockType::Image,
        BlockType::Divider,
        BlockType::Callout,
    ] {
        assert!(is_valid_block_type(bt.as_str()));
    }
}
