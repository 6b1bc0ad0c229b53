use castcodes::markdown::inline::{extract_plain_text, merge_adjacent_spans, parse_inline};
use castcodes::markdown::types::{InlineStyle, TextSpan};

fn parse(text: &str) -> Vec<TextSpan> {
    parse_inline(text)
}

#[test]
fn empty_returns_empty() {
    assert!(parse("").is_empty());
}

#[test]
fn plain_text_passthrough() {
    let s = parse("hello world");
    assert_eq!(s.len(), 1);
    assert_eq!(s[0].text, "hello world");
    assert!(s[0].styles.is_plain());
}

#[test]
fn bold_with_asterisks() {
    let s = parse("**loud**");
    assert_eq!(s.len(), 1);
    assert!(s[0].styles.bold);
}

#[test]
fn bold_with_underscores() {
    let s = parse("__loud__");
    assert!(s[0].styles.bold);
}

#[test]
fn italic_with_asterisks() {
    let s = parse("*soft*");
    assert!(s[0].styles.italic);
}

#[test]
fn bold_italic_triple_marker() {
    let s = parse("***both***");
    assert!(s[0].styles.bold);
    assert!(s[0].styles.italic);
}

#[test]
fn inline_code_preserves_text() {
    let s = parse("here is `code` inline");
    assert_eq!(s.len(), 3);
    assert_eq!(s[1].text, "code");
    assert!(s[1].styles.code);
}

#[test]
fn strikethrough() {
    let s = parse("~~gone~~");
    assert!(s[0].styles.strikethrough);
}

#[test]
fn highlight() {
    let s = parse("==mark==");
    assert!(s[0].styles.highlight);
}

#[test]
fn link_basic() {
    let s = parse("[Anthropic](https://anthropic.com)");
    let link = s[0].styles.link.as_ref().unwrap();
    assert_eq!(link.url, "https://anthropic.com");
}

#[test]
fn link_with_title() {
    let s = parse("[A](https://a \"home\")");
    let link = s[0].styles.link.as_ref().unwrap();
    assert_eq!(link.url, "https://a");
    assert_eq!(link.title.as_deref(), Some("home"));
}

#[test]
fn image_renders_placeholder() {
    let s = parse("![alt](https://x)");
    assert_eq!(s[0].text, "[image: alt]");
}

#[test]
fn nested_bold_italic_via_children() {
    let s = parse("**bold _and italic_**");
    assert!(s.iter().any(|sp| sp.styles.bold && !sp.styles.italic));
    assert!(s.iter().any(|sp| sp.styles.bold && sp.styles.italic));
}

#[test]
fn escape_backslash_treats_next_char_literally() {
    let s = parse(r"\*not bold\*");
    assert_eq!(s[0].text, "*not bold*");
}

#[test]
fn unclosed_marker_treated_as_literal() {
    let s = parse("*just a star");
    assert_eq!(s[0].text, "*just a star");
}

#[test]
fn merge_unit_collapses_same_style_neighbors() {
    let style = InlineStyle {
        bold: true,
        ..Default::default()
    };
    let merged = merge_adjacent_spans(vec![
        TextSpan {
            text: "a".into(),
            styles: style.clone(),
        },
        TextSpan {
            text: "b".into(),
            styles: style.clone(),
        },
        TextSpan {
            text: "c".into(),
            styles: InlineStyle::default(),
        },
    ]);
    assert_eq!(merged.len(), 2);
    assert_eq!(merged[0].text, "ab");
}

#[test]
fn extract_plain_text_strips_styles() {
    assert_eq!(extract_plain_text("**bold** and `code`"), "bold and code");
}

#[test]
fn utf8_text_preserved() {
    let s = parse("héllo *wörld*");
    assert!(s.iter().any(|sp| sp.text == "wörld" && sp.styles.italic));
}
