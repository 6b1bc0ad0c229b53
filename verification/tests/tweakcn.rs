use castcodes::themes::tweakcn::{parse_css_blocks, CssBlocks, OklchDecl};

const SAMPLE: &str = r#"
/* tweakcn theme: midnight-ember */
:root {
  --background: oklch(1 0 0);
  --foreground: oklch(0.145 0 0);
}
.dark {
  --background: oklch(0.145 0 0);
  --foreground: oklch(0.985 0 0);
  --card: oklch(0.205 0 0);
}
"#;

fn find<'a>(decls: &'a [OklchDecl], name: &str) -> &'a OklchDecl {
    decls.iter().find(|d| d.name == name).expect("declaration present")
}

fn number(text: &str) -> f64 {
    text.parse::<f64>().unwrap_or(f64::NAN)
}

#[test]
fn extracts_both_blocks() {
    let blocks = parse_css_blocks(SAMPLE);
    assert_eq!(blocks.light.len(), 2);
    assert_eq!(blocks.dark.len(), 3);
}

#[test]
fn block_values_are_parsed() {
    let blocks = parse_css_blocks(SAMPLE);
    let card = find(&blocks.dark, "card");
    let value = card.value.as_ref().expect("three components");
    assert!((number(&value.lightness) - 0.205).abs() < 1e-9);
    assert!(!value.percent);
    assert_eq!(number(&value.chroma), 0.0);
    assert_eq!(number(&value.hue), 0.0);
    assert_eq!(card.raw, "oklch(0.205 0 0)");
}

#[test]
fn name_comment_extracted() {
    let blocks = parse_css_blocks(SAMPLE);
    assert_eq!(blocks.name_comment.as_deref(), Some("midnight-ember"));
}

#[test]
fn non_ascii_css_is_preserved_while_stripping_comments() {
    let css = r#"
/* tweakcn theme: café */
:root {
  --background: oklch(1 0 0);
  --foreground: oklch(0.145 0 0);
}
"#;
    let blocks = parse_css_blocks(css);
    assert_eq!(blocks.name_comment.as_deref(), Some("café"));
    assert_eq!(blocks.light.len(), 2);
}

#[test]
fn invalid_oklch_declaration_reports_the_variable() {
    let css = ":root { --background: oklch(not-a-number 0 0); }";
    let blocks = parse_css_blocks(css);
    assert_eq!(blocks.light.len(), 1);
    let decl = &blocks.light[0];
    assert_eq!(decl.name, "background");
    let value = decl.value.as_ref().expect("three components");
    assert!(value.lightness.parse::<f64>().is_err());
}

#[test]
fn no_blocks_errors() {
    let blocks = parse_css_blocks("body { color: red; }");
    assert!(blocks.is_empty());
    assert_eq!(blocks.name_comment, None);
}

#[test]
fn only_dark_block_ok() {
    let css = ".dark { --background: oklch(0 0 0); }";
    let blocks = parse_css_blocks(css);
    assert!(blocks.light.is_empty());
    assert_eq!(blocks.dark.len(), 1);
    assert!(!blocks.is_empty());
}

// Edge cases of the grammar.

#[test]
fn percent_lightness_and_degree_hue_are_split_off() {
    let blocks = parse_css_blocks(":root { --accent: oklch(62% 0.2 145deg / 0.5); }");
    let value = blocks.light[0].value.as_ref().expect("three components");
    assert_eq!(value.lightness, "62");
    assert!(value.percent);
    assert_eq!(value.chroma, "0.2");
    assert_eq!(value.hue, "145");
}

#[test]
fn short_oklch_value_has_no_components() {
    let blocks = parse_css_blocks(":root { --ring: oklch(0.5 0.1); }");
    assert_eq!(blocks.light.len(), 1);
    assert_eq!(blocks.light[0].name, "ring");
    assert_eq!(blocks.light[0].value, None);
    assert_eq!(blocks.light[0].raw, "oklch(0.5 0.1)");
}

#[test]
fn non_oklch_and_non_variable_declarations_are_skipped() {
    let css = ":root { color: red; --shadow: #000000; --radius 4px; --x: oklch(1 0 0) }";
    let blocks = parse_css_blocks(css);
    assert_eq!(blocks.light.len(), 1);
    assert_eq!(blocks.light[0].name, "x");
}

#[test]
fn nested_braces_stay_inside_the_block() {
    let css = ".dark { --a: oklch(1 0 0); x { y } ; --c: oklch(0.5 0 0); } :root { }";
    let blocks: CssBlocks = parse_css_blocks(css);
    assert_eq!(blocks.dark.len(), 2);
    assert_eq!(blocks.dark[0].name, "a");
    assert_eq!(blocks.dark[1].name, "c");
    assert!(blocks.light.is_empty());
}

#[test]
fn unclosed_block_has_an_empty_body() {
    let blocks = parse_css_blocks(":root { --a: oklch(1 0 0);");
    assert!(blocks.light.is_empty());
}

#[test]
fn single_word_comment_names_the_theme_and_first_hint_wins() {
    let blocks = parse_css_blocks("/* two words */ /*ocean*/ /* tweakcn theme: later */ :root { --a: oklch(1 0 0); }");
    assert_eq!(blocks.name_comment.as_deref(), Some("ocean"));
}

#[test]
fn comment_hides_a_block() {
    let blocks = parse_css_blocks("/* :root { --a: oklch(1 0 0); } */ .dark { --b: oklch(0 0 0); }");
    assert!(blocks.light.is_empty());
    assert_eq!(blocks.dark.len(), 1);
}
