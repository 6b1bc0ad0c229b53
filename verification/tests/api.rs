// Concrete checks of public functions that the other test files do not
// reach.

use castcodes::browser::model::BrowserModel;
use castcodes::browser::url_input::SearchEngine;
use castcodes::markdown::document::{
    append_block_content, clone_document, create_document, get_first_block, get_last_block,
    insert_blocks, remove_blocks, replace_block, update_meta,
};
use castcodes::markdown::serializer::{document_to_markdown, serialize_inline_content};
use castcodes::markdown::types::{
    Block, BlockProps, BlockType, DocumentMeta, DocumentOptions, InlineStyle, LineEnding,
    MarkdownSerializeOptions, MetaValue, TextSpan,
};
use castcodes::markdown::utils::{
    block_plain_text, convert_line_endings, deep_clone_block, deep_clone_blocks, has_children,
    has_content, plain_content, trim_trailing_whitespace,
};

fn para(id: &str, text: &str) -> Block {
    Block {
        id: id.to_string(),
        block_type: BlockType::Paragraph,
        content: plain_content(text),
        children: Vec::new(),
        props: BlockProps::Empty,
    }
}

fn ids(blocks: &[Block]) -> Vec<String> {
    blocks.iter().map(|b| b.id.clone()).collect()
}

#[test]
fn browser_title_loading_and_reload() {
    let mut m = BrowserModel::new("example.com");
    assert_eq!(m.display_title(), "https://example.com");
    assert!(!m.is_loading());
    assert_eq!(m.reload(), "https://example.com");
    assert!(m.is_loading());
    assert!(m.set_title("Example"));
    assert!(!m.is_loading());
    assert_eq!(m.display_title(), "Example");
    assert!(!m.set_title("Example"));
    assert!(m.set_title("   "));
    assert_eq!(m.display_title(), "https://example.com");
}

#[test]
fn search_engine_display_names() {
    assert_eq!(SearchEngine::Google.display_name(), "Google");
    assert_eq!(SearchEngine::DuckDuckGo.display_name(), "DuckDuckGo");
    assert_eq!(SearchEngine::Brave.display_name(), "Brave Search");
}

#[test]
fn clone_document_regenerates_ids_and_keeps_content() {
    let doc = create_document(&[para("a", "one"), para("b", "two")], DocumentOptions::default());
    let copy = clone_document(&doc);
    assert_eq!(copy.blocks.len(), 2);
    assert_ne!(copy.blocks[0].id, "a");
    assert_eq!(block_plain_text(&copy.blocks[1]), "two");
    assert_eq!(copy.version, doc.version);
}

#[test]
fn insert_blocks_at_index_and_clamped() {
    let doc = create_document(&[para("a", "1"), para("b", "2")], DocumentOptions::default());
    let d = insert_blocks(&doc, &[para("x", "x"), para("y", "y")], Some(1));
    assert_eq!(ids(&d.blocks), vec!["a", "x", "y", "b"]);
    let d = insert_blocks(&doc, &[para("z", "z")], Some(99));
    assert_eq!(ids(&d.blocks), vec!["a", "b", "z"]);
    let d = insert_blocks(&doc, &[para("w", "w")], None);
    assert_eq!(ids(&d.blocks), vec!["a", "b", "w"]);
}

#[test]
fn remove_blocks_drops_listed_ids() {
    let doc = create_document(&[para("a", "1"), para("b", "2"), para("c", "3")], DocumentOptions::default());
    let d = remove_blocks(&doc, &["a", "c", "missing"]);
    assert_eq!(ids(&d.blocks), vec!["b"]);
    let same = remove_blocks(&doc, &["nope"]);
    assert_eq!(ids(&same.blocks), ids(&doc.blocks));
    assert_eq!(same.meta.updated_at, doc.meta.updated_at);
}

#[test]
fn replace_and_append_content() {
    let doc = create_document(&[para("a", "1"), para("b", "2")], DocumentOptions::default());
    let d = replace_block(&doc, "b", &para("n", "new"));
    assert_eq!(ids(&d.blocks), vec!["a", "n"]);
    let unchanged = replace_block(&doc, "missing", &para("n", "new"));
    assert_eq!(ids(&unchanged.blocks), vec!["a", "b"]);
    let d = append_block_content(&doc, "a", plain_content(" more"));
    assert_eq!(block_plain_text(&d.blocks[0]), "1 more");
    assert_eq!(d.blocks[0].content.len(), 2);
}

#[test]
fn first_and_last_blocks() {
    let empty = create_document(&[], DocumentOptions::default());
    assert!(get_first_block(&empty).is_none());
    assert!(get_last_block(&empty).is_none());
    let doc = create_document(&[para("a", "1"), para("b", "2")], DocumentOptions::default());
    assert_eq!(get_first_block(&doc).map(|b| b.id.clone()), Some("a".to_string()));
    assert_eq!(get_last_block(&doc).map(|b| b.id.clone()), Some("b".to_string()));
}

#[test]
fn update_meta_merges_fields_and_extras() {
    let doc = create_document(&[], DocumentOptions::default());
    let mut first = DocumentMeta::default();
    first.title = Some("T".to_string());
    first.author = Some("Ada".to_string());
    first.extras = vec![("k".to_string(), MetaValue::Text("v".to_string()))];
    let d = update_meta(&doc, first);
    let mut second = DocumentMeta::default();
    second.title = Some("T2".to_string());
    second.extras = vec![
        ("k".to_string(), MetaValue::Text("w".to_string())),
        ("j".to_string(), MetaValue::Json("1".to_string())),
    ];
    let d = update_meta(&d, second);
    assert_eq!(d.meta.title.as_deref(), Some("T2"));
    assert_eq!(d.meta.author.as_deref(), Some("Ada"));
    assert_eq!(
        d.meta.extras,
        vec![
            ("k".to_string(), MetaValue::Text("w".to_string())),
            ("j".to_string(), MetaValue::Json("1".to_string())),
        ]
    );
    assert!(d.meta.updated_at.is_some());
}

#[test]
fn inline_content_and_document_serialization() {
    let mut bold = InlineStyle::default();
    bold.bold = true;
    let spans = vec![
        TextSpan { text: "a ".to_string(), styles: InlineStyle::default() },
        TextSpan { text: "b".to_string(), styles: bold },
    ];
    let options = MarkdownSerializeOptions::default();
    assert_eq!(serialize_inline_content(&spans, &options), "a **b**");
    let doc = create_document(&[para("a", "one"), para("b", "two")], DocumentOptions::default());
    assert_eq!(document_to_markdown(&doc, &options), "one\n\ntwo");
    let mut crlf = MarkdownSerializeOptions::default();
    crlf.line_ending = LineEnding::CrLf;
    assert_eq!(document_to_markdown(&doc, &crlf), "one\r\n\r\ntwo");
}

#[test]
fn deep_clones_keep_shape_with_fresh_ids() {
    let mut outer = para("o", "outer");
    outer.children = vec![para("c", "child")];
    let copy = deep_clone_block(&outer);
    assert_ne!(copy.id, "o");
    assert_ne!(copy.children[0].id, "c");
    assert_eq!(block_plain_text(&copy.children[0]), "child");
    let copies = deep_clone_blocks(&[para("a", "1"), para("b", "2")]);
    assert_eq!(copies.len(), 2);
    assert_eq!(block_plain_text(&copies[1]), "2");
    assert!(has_children(&outer));
    assert!(!has_children(&copy.children[0]));
}

#[test]
fn content_checks() {
    assert!(has_content(&para("a", "x")));
    assert!(!has_content(&para("a", "")));
    let empty = Block {
        id: "e".to_string(),
        block_type: BlockType::Divider,
        content: Vec::new(),
        children: Vec::new(),
        props: BlockProps::Empty,
    };
    assert!(!has_content(&empty));
    assert_eq!(block_plain_text(&empty), "");
}

#[test]
fn line_ending_and_whitespace_helpers() {
    assert_eq!(convert_line_endings("a\r\nb\rc\n", LineEnding::CrLf), "a\r\nb\r\nc\r\n");
    assert_eq!(convert_line_endings("a\r\nb", LineEnding::Lf), "a\nb");
    assert_eq!(trim_trailing_whitespace("a  \nb\t\n c "), "a\nb\n c");
}
