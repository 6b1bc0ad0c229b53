#![allow(dead_code)]

use castcodes::markdown::clock::{days_to_ymd, now_iso8601};
use castcodes::markdown::document::{
    append_block, clear_blocks, create_document, empty_document, filter_blocks, find_block,
    find_blocks_by_type, get_block_count, get_block_index, get_meta_field, has_block,
    insert_block, is_empty, map_blocks, move_block, prepend_block, remove_block, set_blocks,
    set_meta_field, swap_blocks, update_block, BlockUpdate, DOCUMENT_VERSION,
};
use castcodes::markdown::types::{
    Block, BlockProps, BlockType, DocumentOptions, HeadingProps, IdGenerator, MetaValue, TextSpan,
};
use castcodes::markdown::utils::{generate_id, id_from_seed_exec, normalize_line_endings, plain_content};
use std::sync::{Arc, Mutex};

// Block builders used by the tests below.

fn new_block(block_type: BlockType, content: Vec<TextSpan>, props: BlockProps, children: Vec<Block>) -> Block {
    Block { id: generate_id(), block_type, content, children, props }
}

trait IntoContent {
    fn into_content(self) -> Vec<TextSpan>;
}

impl IntoContent for &str {
    fn into_content(self) -> Vec<TextSpan> {
        plain_content(self)
    }
}

impl IntoContent for Vec<TextSpan> {
    fn into_content(self) -> Vec<TextSpan> {
        self
    }
}

fn paragraph<C: IntoContent>(content: C) -> Block {
    new_block(BlockType::Paragraph, content.into_content(), BlockProps::Empty, Vec::new())
}

fn heading<C: IntoContent>(level: u8, content: C) -> Block {
    new_block(BlockType::Heading, content.into_content(), BlockProps::Heading(HeadingProps { level }), Vec::new())
}

fn h1<C: IntoContent>(content: C) -> Block {
    heading(1, content)
}

fn h2<C: IntoContent>(content: C) -> Block {
    heading(2, content)
}

#[test]
fn create_document_initializes_meta_and_timestamps() {
    let doc = create_document(&[], DocumentOptions::default());
    assert_eq!(doc.version, DOCUMENT_VERSION);
    assert!(doc.blocks.is_empty());
    assert!(doc.meta.created_at.is_some());
    assert!(doc.meta.updated_at.is_some());
}

#[test]
fn empty_document_has_zero_blocks() {
    let doc = empty_document(DocumentOptions::default());
    assert!(is_empty(&doc));
    assert_eq!(get_block_count(&doc), 0);
}

#[test]
fn now_iso8601_format() {
    let s = now_iso8601();
    // Shape: 2026-05-17T07:43:45.123Z
    assert_eq!(s.len(), 24);
    assert!(s.ends_with('Z'));
    assert_eq!(&s[4..5], "-");
    assert_eq!(&s[7..8], "-");
    assert_eq!(&s[10..11], "T");
    assert_eq!(&s[19..20], ".");
}

#[test]
fn days_to_ymd_known_dates() {
    assert_eq!(days_to_ymd(0), (1970, 1, 1));
    assert_eq!(days_to_ymd(31), (1970, 2, 1));
    // Leap day 2000-02-29
    let leap = (2000 - 1970) * 365 + 8 + 31 + 28;
    let (y, _, _) = days_to_ymd(leap);
    assert_eq!(y, 2000);
}

#[test]
fn days_to_ymd_far_dates() {
    assert_eq!(days_to_ymd(10_000_000_001), (27_381_040, 1, 28));
    assert_eq!(days_to_ymd(784_351_559_304), (2_147_483_600, 2, 29));
    assert_eq!(days_to_ymd(-719_468), (0, 3, 1));
}

#[test]
fn insert_append_prepend() {
    let doc = empty_document(DocumentOptions::default());
    let p1 = paragraph("first");
    let p1_id = p1.id.clone();
    let p2 = paragraph("second");
    let p2_id = p2.id.clone();
    let p3 = paragraph("third");
    let p3_id = p3.id.clone();

    let d1 = append_block(&doc, &p1);
    let d2 = append_block(&d1, &p2);
    let d3 = prepend_block(&d2, &p3);

    assert_eq!(d3.blocks.len(), 3);
    assert_eq!(d3.blocks[0].id, p3_id);
    assert_eq!(d3.blocks[1].id, p1_id);
    assert_eq!(d3.blocks[2].id, p2_id);
}

#[test]
fn insert_block_clamps_oob_index() {
    let doc = empty_document(DocumentOptions::default());
    let p = paragraph("x");
    let d = insert_block(&doc, &p, Some(999));
    assert_eq!(d.blocks.len(), 1);
}

#[test]
fn remove_block_no_op_when_missing() {
    let doc = append_block(&empty_document(DocumentOptions::default()), &paragraph("x"));
    let before_count = doc.blocks.len();
    let after = remove_block(&doc, "nonexistent");
    assert_eq!(after.blocks.len(), before_count);
}

#[test]
fn remove_block_removes_match() {
    let p = paragraph("x");
    let id = p.id.clone();
    let doc = append_block(&empty_document(DocumentOptions::default()), &p);
    let after = remove_block(&doc, &id);
    assert!(after.blocks.is_empty());
}

#[test]
fn move_block_reorders() {
    let p1 = paragraph("a");
    let p2 = paragraph("b");
    let p3 = paragraph("c");
    let p1_id = p1.id.clone();
    let mut doc = empty_document(DocumentOptions::default());
    doc = append_block(&doc, &p1);
    doc = append_block(&doc, &p2);
    doc = append_block(&doc, &p3);

    let moved = move_block(&doc, &p1_id, 2);
    assert_eq!(moved.blocks[2].id, p1_id);
}

#[test]
fn swap_blocks_swaps_two() {
    let p1 = paragraph("a");
    let p2 = paragraph("b");
    let p1_id = p1.id.clone();
    let p2_id = p2.id.clone();
    let mut doc = empty_document(DocumentOptions::default());
    doc = append_block(&doc, &p1);
    doc = append_block(&doc, &p2);

    let swapped = swap_blocks(&doc, &p1_id, &p2_id);
    assert_eq!(swapped.blocks[0].id, p2_id);
    assert_eq!(swapped.blocks[1].id, p1_id);
}

#[test]
fn swapping_twice_restores_the_blocks() {
    let mut doc = empty_document(DocumentOptions::default());
    for t in ["a", "b", "c", "d"] {
        doc = append_block(&doc, &paragraph(t));
    }
    let ids: Vec<String> = doc.blocks.iter().map(|b| b.id.clone()).collect();
    let once = swap_blocks(&doc, &ids[3], &ids[1]);
    let once_ids: Vec<String> = once.blocks.iter().map(|b| b.id.clone()).collect();
    assert_eq!(once_ids, vec![ids[0].clone(), ids[3].clone(), ids[2].clone(), ids[1].clone()]);
    let twice = swap_blocks(&once, &ids[3], &ids[1]);
    let twice_ids: Vec<String> = twice.blocks.iter().map(|b| b.id.clone()).collect();
    assert_eq!(twice_ids, ids);
}

#[test]
fn normalizing_line_endings_twice_is_once() {
    let once = normalize_line_endings("a\r\nb\rc\n");
    assert_eq!(once, "a\nb\nc\n");
    assert_eq!(normalize_line_endings(&once), once);
    assert_eq!(normalize_line_endings("plain\ntext"), "plain\ntext");
}

#[test]
fn ids_from_a_seed_are_fixed() {
    assert_eq!(id_from_seed_exec(1, 8), "3NTbtfPb");
    assert_eq!(id_from_seed_exec(1, 3), "3NT");
    assert_eq!(id_from_seed_exec(42, 0), "");
}

#[test]
fn find_block_by_id() {
    let p = paragraph("x");
    let id = p.id.clone();
    let doc = append_block(&empty_document(DocumentOptions::default()), &p);
    assert!(find_block(&doc, &id).is_some());
    assert!(find_block(&doc, "missing").is_none());
    assert_eq!(get_block_index(&doc, &id), Some(0));
    assert!(has_block(&doc, &id));
}

#[test]
fn find_blocks_by_type_filters() {
    let mut doc = empty_document(DocumentOptions::default());
    doc = append_block(&doc, &h1("hello"));
    doc = append_block(&doc, &paragraph("world"));
    doc = append_block(&doc, &h1("goodbye"));
    let headings = find_blocks_by_type(&doc, BlockType::Heading);
    assert_eq!(headings.len(), 2);
}

#[test]
fn set_blocks_replaces_all() {
    let doc = append_block(&empty_document(DocumentOptions::default()), &paragraph("x"));
    let next = set_blocks(&doc, &[paragraph("y"), paragraph("z")]);
    assert_eq!(next.blocks.len(), 2);
    assert_eq!(next.blocks[0].content[0].text, "y");
}

#[test]
fn filter_and_map_blocks() {
    let mut doc = empty_document(DocumentOptions::default());
    doc = append_block(&doc, &h1("a"));
    doc = append_block(&doc, &paragraph("b"));
    doc = append_block(&doc, &h1("c"));
    let only_headings = filter_blocks(&doc, |b, _| b.block_type == BlockType::Heading);
    assert_eq!(only_headings.blocks.len(), 2);

    let upper = map_blocks(&doc, |mut b, _| {
        for s in &mut b.content {
            s.text = s.text.to_uppercase();
        }
        b
    });
    assert_eq!(upper.blocks[0].content[0].text, "A");
}

#[test]
fn meta_set_get_and_extras() {
    let doc = empty_document(DocumentOptions::default());
    let d1 = set_meta_field(&doc, "title", MetaValue::Text("My Doc".to_string()));
    assert_eq!(
        get_meta_field(&d1, "title"),
        Some(MetaValue::Text("My Doc".to_string()))
    );
    let d2 = set_meta_field(&d1, "custom_key", MetaValue::Json("{\"foo\":1}".to_string()));
    assert_eq!(
        get_meta_field(&d2, "custom_key"),
        Some(MetaValue::Json("{\"foo\":1}".to_string()))
    );
}

#[test]
fn clear_blocks_empties_doc() {
    let doc = append_block(&empty_document(DocumentOptions::default()), &paragraph("x"));
    let cleared = clear_blocks(&doc);
    assert!(cleared.blocks.is_empty());
}

#[test]
fn update_block_partial_fields() {
    let p = paragraph("x");
    let id = p.id.clone();
    let doc = append_block(&empty_document(DocumentOptions::default()), &p);
    let updated = update_block(
        &doc,
        &id,
        BlockUpdate {
            content: Some(plain_content("y")),
            ..Default::default()
        },
    );
    assert_eq!(updated.blocks[0].content[0].text, "y");
}

struct CountingIds {
    counter: Mutex<u32>,
}

impl IdGenerator for CountingIds {
    fn generate_id(&self) -> String {
        let mut c = self.counter.lock().unwrap();
        *c += 1;
        format!("custom-{}", *c)
    }
}

#[test]
fn create_document_with_generate_id_uses_custom_ids() {
    let options = DocumentOptions {
        generate_id: Some(Arc::new(CountingIds { counter: Mutex::new(0) })),
        meta: None,
    };
    let blocks = vec![paragraph("hello"), paragraph("world")];
    let doc = create_document(&blocks, options);
    assert_eq!(doc.blocks[0].id, "custom-1");
    assert_eq!(doc.blocks[1].id, "custom-2");
}

#[test]
fn create_document_with_generate_id_renames_nested_blocks() {
    let options = DocumentOptions {
        generate_id: Some(Arc::new(CountingIds { counter: Mutex::new(0) })),
        meta: None,
    };
    let mut list = paragraph("list");
    list.block_type = BlockType::BulletList;
    list.children = vec![paragraph("one"), paragraph("two")];
    let blocks = vec![list, paragraph("after")];
    let doc = create_document(&blocks, options);
    assert_eq!(doc.blocks[0].id, "custom-1");
    assert_eq!(doc.blocks[0].children[0].id, "custom-2");
    assert_eq!(doc.blocks[0].children[1].id, "custom-3");
    assert_eq!(doc.blocks[1].id, "custom-4");
    assert_eq!(doc.blocks[0].children[1].content[0].text, "two");
}

#[test]
fn document_version_constant_is_same_at_root_and_module() {
    // The module constant and its re-export never drift.
    assert_eq!(DOCUMENT_VERSION, castcodes::markdown::DOCUMENT_VERSION);
}
