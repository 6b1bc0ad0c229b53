use castcodes::markdown::tokenizer::{group_tokens, is_code_token, is_list_token, tokenize, Token, TokenType};

fn types(tokens: &[Token]) -> Vec<TokenType> {
    tokens.iter().map(|t| t.token_type).collect()
}

#[test]
fn atx_heading_levels_1_through_6() {
    for level in 1..=6u8 {
        let line = format!("{} title", "#".repeat(level as usize));
        let toks = tokenize(&line);
        assert_eq!(toks.len(), 1);
        assert_eq!(toks[0].token_type, TokenType::Heading);
        assert_eq!(toks[0].meta.level, Some(level));
        assert_eq!(toks[0].content, "title");
    }
}

#[test]
fn atx_seven_hashes_is_paragraph() {
    let toks = tokenize("####### too deep");
    assert_eq!(toks[0].token_type, TokenType::Paragraph);
}

#[test]
fn paragraph_defaults() {
    let toks = tokenize("just text");
    assert_eq!(toks.len(), 1);
    assert_eq!(toks[0].token_type, TokenType::Paragraph);
    assert_eq!(toks[0].content, "just text");
}

#[test]
fn blank_line_token() {
    let toks = tokenize("\n");
    assert_eq!(types(&toks), vec![TokenType::Blank, TokenType::Blank]);
}

#[test]
fn bullet_list_items_with_indent() {
    let toks = tokenize("- one\n  - two");
    assert_eq!(toks.len(), 2);
    assert_eq!(toks[0].token_type, TokenType::BulletListItem);
    assert_eq!(toks[0].indent, 0);
    assert_eq!(toks[0].content, "one");
    assert_eq!(toks[1].token_type, TokenType::BulletListItem);
    assert_eq!(toks[1].indent, 2);
}

#[test]
fn numbered_list_extracts_number() {
    let toks = tokenize("1. first\n2. second");
    assert_eq!(toks[0].token_type, TokenType::NumberedListItem);
    assert_eq!(toks[0].meta.list_index, Some(1));
    assert_eq!(toks[1].meta.list_index, Some(2));
}

#[test]
fn check_list_extracts_checked() {
    let toks = tokenize("- [x] done\n- [ ] todo");
    assert_eq!(toks[0].token_type, TokenType::CheckListItem);
    assert_eq!(toks[0].meta.checked, Some(true));
    assert_eq!(toks[1].meta.checked, Some(false));
}

#[test]
fn code_fence_round_trip() {
    let toks = tokenize("```rust\nlet x = 1;\n```");
    assert_eq!(toks.len(), 3);
    assert_eq!(toks[0].token_type, TokenType::CodeFenceStart);
    assert_eq!(toks[0].meta.language.as_deref(), Some("rust"));
    assert_eq!(toks[1].token_type, TokenType::CodeContent);
    assert_eq!(toks[1].content, "let x = 1;");
    assert_eq!(toks[2].token_type, TokenType::CodeFenceEnd);
}

#[test]
fn callout_before_blockquote() {
    let toks = tokenize("> [!INFO]\n> body");
    assert_eq!(toks[0].token_type, TokenType::Callout);
    assert_eq!(toks[0].meta.callout_type.as_deref(), Some("info"));
    assert_eq!(toks[1].token_type, TokenType::Blockquote);
    assert_eq!(toks[1].content, "body");
}

#[test]
fn divider_three_dashes() {
    let toks = tokenize("---");
    assert_eq!(toks[0].token_type, TokenType::Divider);
}

#[test]
fn setext_h1_promotes_previous_line() {
    let toks = tokenize("Title\n=====");
    // The first line is a paragraph; the second is a heading whose content
    // is the line before it.
    assert_eq!(toks[0].token_type, TokenType::Paragraph);
    assert_eq!(toks[1].token_type, TokenType::Heading);
    assert_eq!(toks[1].meta.level, Some(1));
    assert_eq!(toks[1].content, "Title");
}

#[test]
fn setext_h2_after_paragraph() {
    let toks = tokenize("Sub\n---");
    assert_eq!(toks[1].token_type, TokenType::Heading);
    assert_eq!(toks[1].meta.level, Some(2));
}

#[test]
fn table_row_and_separator() {
    let toks = tokenize("| a | b |\n| - | - |\n| 1 | 2 |");
    assert_eq!(toks[0].token_type, TokenType::TableRow);
    assert_eq!(toks[1].token_type, TokenType::TableSeparator);
    assert_eq!(toks[2].token_type, TokenType::TableRow);
}

#[test]
fn tokenizer_standalone_image() {
    let toks = tokenize("![alt](https://x)");
    assert_eq!(toks[0].token_type, TokenType::Image);
    assert_eq!(toks[0].content, "https://x");
    assert_eq!(toks[0].meta.image_alt.as_deref(), Some("alt"));
}

#[test]
fn crlf_normalized() {
    let toks = tokenize("a\r\nb");
    assert_eq!(toks.len(), 2);
    assert_eq!(toks[0].content, "a");
    assert_eq!(toks[1].content, "b");
}

#[test]
fn group_tokens_splits_on_blank() {
    let toks = tokenize("a\nb\n\nc");
    let groups = group_tokens(&toks);
    assert_eq!(groups.len(), 2);
    assert_eq!(groups[0].len(), 2);
    assert_eq!(groups[1].len(), 1);
}

#[test]
fn is_list_and_code_classifiers() {
    let toks = tokenize("- x\n```\nfoo\n```");
    assert!(is_list_token(&toks[0]));
    assert!(is_code_token(&toks[1]));
    assert!(is_code_token(&toks[2]));
    assert!(is_code_token(&toks[3]));
}
