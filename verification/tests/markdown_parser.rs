use castcodes::markdown::block_parser::{markdown_to_document, parse, parse_inline_content};
use castcodes::markdown::serializer::blocks_to_markdown;
use castcodes::markdown::types::{
    Block, BlockProps, BlockType, CalloutType, MarkdownParseOptions, MarkdownSerializeOptions,
    TableAlignment,
};

fn parse_md(input: &str) -> Vec<Block> {
    parse(input)
}

#[test]
fn empty_input() {
    assert!(parse_md("").is_empty());
}

#[test]
fn heading_levels() {
    for level in 1..=6u8 {
        let line = format!("{} title", "#".repeat(level as usize));
        let blocks = parse_md(&line);
        assert_eq!(blocks.len(), 1);
        assert_eq!(blocks[0].block_type, BlockType::Heading);
        match blocks[0].props {
            BlockProps::Heading(p) => assert_eq!(p.level, level),
            _ => panic!(),
        }
        assert_eq!(blocks[0].content[0].text, "title");
    }
}

#[test]
fn paragraph_collects_multi_line() {
    let blocks = parse_md("line one\nline two");
    assert_eq!(blocks.len(), 1);
    assert_eq!(blocks[0].block_type, BlockType::Paragraph);
    assert_eq!(blocks[0].content[0].text, "line one line two");
}

#[test]
fn paragraph_inline_styles() {
    let blocks = parse_md("plain **bold** and *italic*");
    let bold = blocks[0].content.iter().any(|s| s.styles.bold);
    let italic = blocks[0].content.iter().any(|s| s.styles.italic);
    assert!(bold && italic);
}

#[test]
fn bullet_list_with_three_items() {
    let blocks = parse_md("- one\n- two\n- three");
    assert_eq!(blocks[0].block_type, BlockType::BulletList);
    assert_eq!(blocks[0].children.len(), 3);
    assert_eq!(blocks[0].children[0].content[0].text, "one");
}

#[test]
fn numbered_list_with_two_items() {
    let blocks = parse_md("1. first\n2. second");
    assert_eq!(blocks[0].block_type, BlockType::NumberedList);
    assert_eq!(blocks[0].children.len(), 2);
}

#[test]
fn check_list_item_carries_checked() {
    let blocks = parse_md("- [x] done");
    match blocks[0].props {
        BlockProps::CheckList(p) => assert!(p.checked),
        _ => panic!(),
    }
}

#[test]
fn fenced_code_block() {
    let blocks = parse_md("```rust\nlet x = 1;\nlet y = 2;\n```");
    assert_eq!(blocks[0].block_type, BlockType::CodeBlock);
    match &blocks[0].props {
        BlockProps::CodeBlock(p) => assert_eq!(p.language.as_deref(), Some("rust")),
        _ => panic!(),
    }
    assert_eq!(blocks[0].content[0].text, "let x = 1;\nlet y = 2;");
}

#[test]
fn blockquote_collects_lines() {
    let blocks = parse_md("> one\n> two");
    assert_eq!(blocks[0].block_type, BlockType::Blockquote);
}

#[test]
fn callout_with_body() {
    let blocks = parse_md("> [!INFO]\n> be careful");
    assert_eq!(blocks[0].block_type, BlockType::Callout);
    match blocks[0].props {
        BlockProps::Callout(p) => assert_eq!(p.callout_type, CalloutType::Info),
        _ => panic!(),
    }
    assert_eq!(blocks[0].content[0].text, "be careful");
}

#[test]
fn divider() {
    let blocks = parse_md("---");
    assert_eq!(blocks[0].block_type, BlockType::Divider);
}

#[test]
fn markdown_table_with_alignments() {
    let blocks = parse_md("| a | b |\n| :-- | --: |\n| 1 | 2 |");
    assert_eq!(blocks[0].block_type, BlockType::Table);
    match &blocks[0].props {
        BlockProps::Table(p) => {
            assert_eq!(p.headers, vec!["a", "b"]);
            assert_eq!(p.rows, vec![vec!["1".to_string(), "2".to_string()]]);
            let aligns = p.alignments.as_ref().unwrap();
            assert_eq!(aligns[0], Some(TableAlignment::Left));
            assert_eq!(aligns[1], Some(TableAlignment::Right));
        }
        _ => panic!(),
    }
}

#[test]
fn markdown_standalone_image() {
    let blocks = parse_md("![alt](https://x)");
    match &blocks[0].props {
        BlockProps::Image(p) => {
            assert_eq!(p.url, "https://x");
            assert_eq!(p.alt.as_deref(), Some("alt"));
        }
        _ => panic!(),
    }
}

#[test]
fn document_round_trip_through_serializer() {
    let md = "# Hello\n\nworld";
    let blocks = parse(md);
    let back = blocks_to_markdown(&blocks, &MarkdownSerializeOptions::default());
    assert_eq!(back, md);
}

#[test]
fn convenience_aliases_work() {
    let blocks = parse("paragraph");
    assert_eq!(blocks.len(), 1);
    let spans = parse_inline_content("**bold**");
    assert!(spans[0].styles.bold);
    let doc = markdown_to_document("# title", &MarkdownParseOptions::default());
    assert_eq!(doc.blocks.len(), 1);
}

#[test]
fn image_with_title_round_trips() {
    let blocks = parse(r#"![logo](https://example.com/logo.png "Brand Logo")"#);
    assert_eq!(blocks.len(), 1);
    match &blocks[0].props {
        BlockProps::Image(p) => {
            assert_eq!(p.url, "https://example.com/logo.png");
            assert_eq!(p.alt.as_deref(), Some("logo"));
            assert_eq!(p.title.as_deref(), Some("Brand Logo"));
        }
        _ => panic!("expected Image block"),
    }
    // The serializer writes the title back out.
    let back = blocks_to_markdown(&blocks, &MarkdownSerializeOptions::default());
    assert!(back.contains("\"Brand Logo\""), "serialized: {back}");
}

#[test]
fn table_preserves_empty_cells() {
    let md = "| a |  | c |\n|---|---|---|\n| 1 |  | 3 |";
    let blocks = parse(md);
    assert_eq!(blocks.len(), 1);
    match &blocks[0].props {
        BlockProps::Table(t) => {
            assert_eq!(t.headers.len(), 3, "headers: {:?}", t.headers);
            assert_eq!(t.rows[0].len(), 3, "row: {:?}", t.rows[0]);
            assert_eq!(t.headers[1], "", "middle header should be empty");
            assert_eq!(t.rows[0][1], "", "middle cell should be empty");
        }
        _ => panic!("expected Table block"),
    }
}

#[test]
fn nested_bullet_list_items_are_children_not_dropped() {
    let md = "- a\n  - b\n  - c\n- d";
    let blocks = parse(md);
    assert_eq!(blocks.len(), 1);
    let list = &blocks[0];
    // top-level: items for "a" and "d"
    assert_eq!(list.children.len(), 2, "top-level items: {}", list.children.len());
    // "a" item should have a nested list child
    let item_a = &list.children[0];
    assert_eq!(item_a.children.len(), 1, "item_a should have 1 nested list child");
}

#[test]
fn nested_numbered_list_items_are_children_not_dropped() {
    let md = "1. a\n   1. b\n1. c";
    let blocks = parse(md);
    assert_eq!(blocks.len(), 1);
    let list = &blocks[0];
    assert_eq!(list.children.len(), 2, "top-level items: {}", list.children.len());
    let item_a = &list.children[0];
    assert_eq!(item_a.children.len(), 1, "item_a should have 1 nested list child");
}
