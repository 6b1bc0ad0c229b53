#![allow(dead_code)]

use castcodes::markdown::serializer::{blocks_to_markdown, serialize_block};
use castcodes::markdown::types::{
    Block, BlockProps, BlockType, CalloutProps, CalloutType, CheckListProps, CodeBlockProps,
    CodeBlockStyle, EmphasisChar, HeadingProps, HeadingStyle, ImageProps, InlineStyle, LinkData,
    MarkdownSerializeOptions, TableAlignment, TableProps, TextSpan,
};
use castcodes::markdown::utils::{generate_id, plain_content};

// Block builders used by the tests below.

fn new_block(block_type: BlockType, content: Vec<TextSpan>, props: BlockProps, children: Vec<Block>) -> Block {
    Block { id: generate_id(), block_type, content, children, props }
}

trait IntoContent {
    fn into_content(self) -> Vec<TextSpan>;
}

impl IntoContent for &str {
    fn into_content(self) -> Vec<TextSpan> {
        plain_content(self)
    }
}

impl IntoContent for Vec<TextSpan> {
    fn into_content(self) -> Vec<TextSpan> {
        self
    }
}

fn paragraph<C: IntoContent>(content: C) -> Block {
    new_block(BlockType::Paragraph, content.into_content(), BlockProps::Empty, Vec::new())
}

fn heading<C: IntoContent>(level: u8, content: C) -> Block {
    new_block(BlockType::Heading, content.into_content(), BlockProps::Heading(HeadingProps { level }), Vec::new())
}

fn h1<C: IntoContent>(content: C) -> Block {
    heading(1, content)
}

fn h2<C: IntoContent>(content: C) -> Block {
    heading(2, content)
}

enum ListItem {
    Text(String),
    Block(Block),
}

impl From<&str> for ListItem {
    fn from(s: &str) -> Self {
        ListItem::Text(s.to_string())
    }
}

fn list_children<I, T>(items: I) -> Vec<Block>
where
    I: IntoIterator<Item = T>,
    T: Into<ListItem>,
{
    items
        .into_iter()
        .map(|i| match i.into() {
            ListItem::Text(t) => paragraph(t.as_str()),
            ListItem::Block(b) => b,
        })
        .collect()
}

fn bullet_list<I, T>(items: I) -> Block
where
    I: IntoIterator<Item = T>,
    T: Into<ListItem>,
{
    new_block(BlockType::BulletList, Vec::new(), BlockProps::Empty, list_children(items))
}

fn numbered_list<I, T>(items: I) -> Block
where
    I: IntoIterator<Item = T>,
    T: Into<ListItem>,
{
    new_block(BlockType::NumberedList, Vec::new(), BlockProps::Empty, list_children(items))
}

fn check_list<'a, I>(items: I) -> Vec<Block>
where
    I: IntoIterator<Item = (&'a str, bool)>,
{
    items
        .into_iter()
        .map(|(t, checked)| {
            new_block(BlockType::CheckList, plain_content(t), BlockProps::CheckList(CheckListProps { checked }), Vec::new())
        })
        .collect()
}

fn code_block(code: &str, language: Option<String>) -> Block {
    new_block(BlockType::CodeBlock, plain_content(code), BlockProps::CodeBlock(CodeBlockProps { language }), Vec::new())
}

fn block_quote(text: &str) -> Block {
    new_block(BlockType::Blockquote, plain_content(text), BlockProps::Empty, Vec::new())
}

fn divider() -> Block {
    new_block(BlockType::Divider, Vec::new(), BlockProps::Empty, Vec::new())
}

#[derive(Default)]
struct ImageOptions {
    title: Option<String>,
    width: Option<u32>,
    height: Option<u32>,
}

fn image(url: &str, alt: Option<String>, options: ImageOptions) -> Block {
    new_block(
        BlockType::Image,
        Vec::new(),
        BlockProps::Image(ImageProps { url: url.to_string(), alt, title: options.title, width: options.width, height: options.height }),
        Vec::new(),
    )
}

fn callout(callout_type: CalloutType, text: &str) -> Block {
    new_block(BlockType::Callout, plain_content(text), BlockProps::Callout(CalloutProps { callout_type }), Vec::new())
}

fn info_callout(text: &str) -> Block {
    callout(CalloutType::Info, text)
}

fn table(headers: Vec<String>, rows: Vec<Vec<String>>, alignments: Option<Vec<Option<TableAlignment>>>) -> Block {
    new_block(BlockType::Table, Vec::new(), BlockProps::Table(TableProps { headers, rows, alignments }), Vec::new())
}

fn styled(s: &str, styles: InlineStyle) -> TextSpan {
    TextSpan { text: s.to_string(), styles }
}

fn text(s: &str) -> TextSpan {
    styled(s, InlineStyle::default())
}

fn bold(s: &str) -> TextSpan {
    styled(s, InlineStyle { bold: true, ..Default::default() })
}

fn italic(s: &str) -> TextSpan {
    styled(s, InlineStyle { italic: true, ..Default::default() })
}

fn code(s: &str) -> TextSpan {
    styled(s, InlineStyle { code: true, ..Default::default() })
}

fn link(s: &str, url: &str, title: Option<String>) -> TextSpan {
    styled(s, InlineStyle { link: Some(LinkData { url: url.to_string(), title }), ..Default::default() })
}

fn opts() -> MarkdownSerializeOptions {
    MarkdownSerializeOptions::default()
}

#[test]
fn paragraph_serializes_inline_only() {
    let p = paragraph("hello");
    assert_eq!(blocks_to_markdown(&[p], &opts()), "hello");
}

#[test]
fn heading_atx_default() {
    assert_eq!(blocks_to_markdown(&[h1("Title")], &opts()), "# Title");
    assert_eq!(blocks_to_markdown(&[h2("Sub")], &opts()), "## Sub");
    assert_eq!(
        blocks_to_markdown(&[heading(6, "Deep")], &opts()),
        "###### Deep"
    );
}

#[test]
fn heading_setext_for_levels_1_and_2() {
    let mut o = opts();
    o.heading_style = HeadingStyle::Setext;
    assert_eq!(blocks_to_markdown(&[h1("Title")], &o), "Title\n=====");
    assert_eq!(blocks_to_markdown(&[h2("Sub")], &o), "Sub\n---");
    // Level 3+ falls back to ATX
    assert_eq!(blocks_to_markdown(&[heading(3, "x")], &o), "### x");
}

#[test]
fn blocks_joined_by_blank_line() {
    let md = blocks_to_markdown(&[h1("T"), paragraph("body")], &opts());
    assert_eq!(md, "# T\n\nbody");
}

#[test]
fn bullet_list_basic() {
    let list = bullet_list(["a", "b", "c"]);
    assert_eq!(blocks_to_markdown(&[list], &opts()), "- a\n- b\n- c");
}

#[test]
fn numbered_list_basic() {
    let list = numbered_list(["a", "b"]);
    assert_eq!(blocks_to_markdown(&[list], &opts()), "1. a\n2. b");
}

#[test]
fn check_list_renders_x_and_space() {
    let items = check_list([("done", true), ("todo", false)]);
    let md = blocks_to_markdown(&items, &opts());
    assert_eq!(md, "- [x] done\n\n- [ ] todo");
}

#[test]
fn code_block_fenced() {
    let cb = code_block("println!", Some("rust".into()));
    assert_eq!(blocks_to_markdown(&[cb], &opts()), "```rust\nprintln!\n```");
}

#[test]
fn code_block_indented() {
    let mut o = opts();
    o.code_block_style = CodeBlockStyle::Indented;
    let cb = code_block("a\nb", None);
    assert_eq!(blocks_to_markdown(&[cb], &o), "    a\n    b");
}

#[test]
fn blockquote_prefixes_each_line() {
    let bq = block_quote("one");
    assert_eq!(blocks_to_markdown(&[bq], &opts()), "> one");
}

#[test]
fn divider_renders_three_dashes() {
    assert_eq!(blocks_to_markdown(&[divider()], &opts()), "---");
}

#[test]
fn image_with_and_without_title() {
    let no_title = image(
        "https://x",
        Some("alt".into()),
        ImageOptions::default(),
    );
    assert_eq!(blocks_to_markdown(&[no_title], &opts()), "![alt](https://x)");
    let with_title = image(
        "https://x",
        Some("alt".into()),
        ImageOptions {
            title: Some("the title".into()),
            ..Default::default()
        },
    );
    assert_eq!(
        blocks_to_markdown(&[with_title], &opts()),
        "![alt](https://x \"the title\")"
    );
}

#[test]
fn callout_gfm_alert_syntax() {
    let c = info_callout("be careful");
    assert_eq!(blocks_to_markdown(&[c], &opts()), "> [!INFO]\n> be careful");
    let warning = callout(CalloutType::Warning, "danger");
    assert_eq!(
        blocks_to_markdown(&[warning], &opts()),
        "> [!WARNING]\n> danger"
    );
}

#[test]
fn table_with_alignments() {
    let t = table(
        vec!["A".into(), "B".into()],
        vec![vec!["1".into(), "2".into()], vec!["3".into(), "4".into()]],
        Some(vec![Some(TableAlignment::Left), Some(TableAlignment::Right)]),
    );
    let md = blocks_to_markdown(&[t], &opts());
    assert!(md.starts_with("| A   | B   |"));
    assert!(md.contains("| :-- | --: |"));
    assert!(md.contains("| 1   | 2   |"));
}

#[test]
fn span_bold_italic_combined() {
    let p = paragraph(vec![TextSpan {
        text: "both".into(),
        styles: InlineStyle {
            bold: true,
            italic: true,
            ..Default::default()
        },
    }]);
    assert_eq!(blocks_to_markdown(&[p], &opts()), "***both***");
}

#[test]
fn span_bold_only() {
    let p = paragraph(vec![bold("loud")]);
    assert_eq!(blocks_to_markdown(&[p], &opts()), "**loud**");
}

#[test]
fn span_italic_only() {
    let p = paragraph(vec![italic("soft")]);
    assert_eq!(blocks_to_markdown(&[p], &opts()), "*soft*");
}

#[test]
fn span_underscore_emphasis() {
    let mut o = opts();
    o.emphasis_char = EmphasisChar::Underscore;
    let p = paragraph(vec![bold("loud")]);
    assert_eq!(blocks_to_markdown(&[p], &o), "__loud__");
}

#[test]
fn span_code_link_strike_highlight() {
    let p = paragraph(vec![code("x"), text(" + "), link("Anth", "https://a", None)]);
    assert_eq!(
        blocks_to_markdown(&[p], &opts()),
        "`x` + [Anth](https://a)"
    );
}

#[test]
fn nested_bullet_list_indents_via_item_children() {
    // A list item is a block with `content` (its line) and `children` (its
    // nested blocks); a nested list lives in the item's `children`.
    let inner = bullet_list(["x", "y"]);
    let mut parent_item = paragraph("parent");
    parent_item.children = vec![inner];
    let outer = bullet_list(vec![ListItem::Block(parent_item)]);
    let md = blocks_to_markdown(&[outer], &opts());
    assert!(
        md.contains("- parent"),
        "expected outer bullet item; got: {md}"
    );
    assert!(md.contains("  - x"), "expected nested bullet x; got: {md}");
    assert!(md.contains("  - y"), "expected nested bullet y; got: {md}");
}

#[test]
fn code_block_with_backtick_fence_is_escaped() {
    let block = code_block("```js\nconsole.log(1)\n```", Some("md".to_string()));
    let siblings = [block.clone()];
    let md = serialize_block(&block, 0, &MarkdownSerializeOptions::default(), 0, &siblings);
    assert!(!md.contains("```js\nconsole.log(1)\n```"), "raw fence not escaped: {md}");
}

#[test]
fn inline_code_with_backtick_uses_double_delimiter() {
    let span = TextSpan {
        text: "foo`bar".to_string(),
        styles: InlineStyle { code: true, ..Default::default() },
    };
    let block = {
        let mut b = paragraph("");
        b.content = vec![span];
        b
    };
    let siblings = [block.clone()];
    let md = serialize_block(&block, 0, &MarkdownSerializeOptions::default(), 0, &siblings);
    assert!(md.contains("``foo`bar``"), "expected double-backtick delimiter; got: {md}");
}
