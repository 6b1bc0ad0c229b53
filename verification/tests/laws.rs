// Concrete checks of the properties that the library proves for all inputs,
// and of the edge cases its functions handle.

use castcodes::browser::model::{normalize_url, webview_url_for, BrowserModel};
use castcodes::browser::url_input::{percent_encode_query, resolve_with_engine, Resolved, SearchEngine};
use castcodes::lsp::{
    actionable_missing_binary_message, resolve_lsp_binary_config, CustomBinaryConfig, LSPServerType,
    LanguageId, LspBinarySource, LspProgram,
};
use castcodes::markdown::block_parser::parse;
use castcodes::markdown::document::{
    append_block, create_document, find_block, get_block_index, get_meta_field, insert_block,
    remove_block, set_meta_field,
};
use castcodes::markdown::inline::{merge_adjacent_spans, parse_inline};
use castcodes::markdown::serializer::blocks_to_markdown;
use castcodes::markdown::tokenizer::tokenize;
use castcodes::markdown::types::{
    Block, BlockProps, BlockType, DocumentOptions, HeadingProps, HeadingStyle, InlineStyle,
    CheckListProps, CodeBlockProps, ImageProps, MarkdownSerializeOptions, MetaValue, TableAlignment, TableProps, TextSpan,
};
use castcodes::markdown::utils::{escape_markdown, plain_content, unescape_markdown};
use castcodes::substrate::{branch_from_head, gitdir_from_file, HostSubstrate, Substrate};
use castcodes::themes::sanitize_slug;

use std::path::PathBuf;

fn block(id: &str, block_type: BlockType, text: &str, props: BlockProps) -> Block {
    Block {
        id: id.to_string(),
        block_type,
        content: plain_content(text),
        children: Vec::new(),
        props,
    }
}

fn para(id: &str, text: &str) -> Block {
    block(id, BlockType::Paragraph, text, BlockProps::Empty)
}

fn head(id: &str, level: u8, text: &str) -> Block {
    block(id, BlockType::Heading, text, BlockProps::Heading(HeadingProps { level }))
}

fn span(text: &str, bold: bool) -> TextSpan {
    let mut styles = InlineStyle::default();
    styles.bold = bold;
    TextSpan { text: text.to_string(), styles }
}

fn ids(blocks: &[Block]) -> Vec<String> {
    blocks.iter().map(|b| b.id.clone()).collect()
}

fn shape(blocks: &[Block]) -> Vec<(BlockType, String)> {
    blocks
        .iter()
        .map(|b| (b.block_type, b.content.iter().map(|s| s.text.clone()).collect::<String>()))
        .collect()
}

// ---------------------------------------------------------------------------
// Documents
// ---------------------------------------------------------------------------

#[test]
fn meta_field_reads_back_what_was_written() {
    let doc = create_document(&[], DocumentOptions::default());
    let doc = set_meta_field(&doc, "title", MetaValue::Text("Notes".to_string()));
    let doc = set_meta_field(&doc, "mood", MetaValue::Json("{\"a\":1}".to_string()));
    assert_eq!(get_meta_field(&doc, "title"), Some(MetaValue::Text("Notes".to_string())));
    assert_eq!(get_meta_field(&doc, "mood"), Some(MetaValue::Json("{\"a\":1}".to_string())));
    // Overwriting one key leaves the other.
    let doc = set_meta_field(&doc, "mood", MetaValue::Text("calm".to_string()));
    assert_eq!(get_meta_field(&doc, "mood"), Some(MetaValue::Text("calm".to_string())));
    assert_eq!(get_meta_field(&doc, "title"), Some(MetaValue::Text("Notes".to_string())));
    assert_eq!(doc.meta.extras.len(), 1);
    assert_eq!(get_meta_field(&doc, "missing"), None);
}

#[test]
fn meta_typed_slot_cleared_by_non_text_value() {
    let doc = create_document(&[], DocumentOptions::default());
    let doc = set_meta_field(&doc, "author", MetaValue::Text("Ada".to_string()));
    let doc = set_meta_field(&doc, "author", MetaValue::Json("42".to_string()));
    assert_eq!(get_meta_field(&doc, "author"), None);
    assert!(doc.meta.extras.is_empty());
}

#[test]
fn removing_an_inserted_block_restores_the_blocks() {
    let doc = create_document(&[para("a", "one"), para("b", "two")], DocumentOptions::default());
    let inserted = insert_block(&doc, &para("n", "new"), Some(1));
    assert_eq!(get_block_index(&inserted, "n"), Some(1));
    assert_eq!(find_block(&inserted, "n").map(|b| b.id.clone()), Some("n".to_string()));
    let removed = remove_block(&inserted, "n");
    assert_eq!(ids(&removed.blocks), ids(&doc.blocks));
    assert_eq!(shape(&removed.blocks), shape(&doc.blocks));
}

#[test]
fn append_then_remove_restores_the_blocks() {
    let doc = create_document(&[para("a", "one")], DocumentOptions::default());
    let appended = append_block(&doc, &head("h", 2, "Title"));
    assert_eq!(get_block_index(&appended, "h"), Some(1));
    let removed = remove_block(&appended, "h");
    assert_eq!(ids(&removed.blocks), vec!["a".to_string()]);
}

// ---------------------------------------------------------------------------
// Markdown round trip
// ---------------------------------------------------------------------------

#[test]
fn plain_headings_and_paragraphs_round_trip() {
    let blocks = vec![head("x", 1, "Hello"), para("y", "plain words here"), head("z", 3, "Part 2")];
    let md = castcodes::markdown::serializer::stringify(&blocks);
    assert_eq!(md, "# Hello\n\nplain words here\n\n### Part 2");
    let back = parse(&md);
    assert_eq!(shape(&back), shape(&blocks));
    match back[2].props {
        BlockProps::Heading(HeadingProps { level }) => assert_eq!(level, 3),
        _ => panic!("expected a heading"),
    }
}

#[test]
fn plain_blocks_round_trip_with_crlf() {
    let mut options = MarkdownSerializeOptions::default();
    options.line_ending = castcodes::markdown::types::LineEnding::CrLf;
    let blocks = vec![head("x", 2, "Intro"), para("y", "text")];
    let md = blocks_to_markdown(&blocks, &options);
    assert_eq!(md, "## Intro\r\n\r\ntext");
    assert_eq!(shape(&parse(&md)), shape(&blocks));
}

fn strings(v: &[&str]) -> Vec<String> {
    v.iter().map(|s| s.to_string()).collect()
}

#[test]
fn plain_table_round_trips() {
    let props = TableProps {
        headers: strings(&["Name", "Qty", "Note"]),
        rows: vec![strings(&["apple", "", "red one"]), strings(&["kiwi fruit", "12", "x"])],
        alignments: Some(vec![Some(TableAlignment::Left), Some(TableAlignment::Right), None]),
    };
    let table = Block {
        id: "t".to_string(),
        block_type: BlockType::Table,
        content: Vec::new(),
        children: Vec::new(),
        props: BlockProps::Table(props.clone()),
    };
    let md = castcodes::markdown::serializer::stringify(&[table]);
    assert_eq!(
        md,
        "| Name       | Qty | Note    |\n| :--------- | --: | ------- |\n| apple      |     | red one |\n| kiwi fruit | 12  | x       |"
    );
    let back = parse(&md);
    assert_eq!(back.len(), 1);
    assert_eq!(back[0].block_type, BlockType::Table);
    match &back[0].props {
        BlockProps::Table(p) => assert_eq!(p, &props),
        _ => panic!("expected a table"),
    }
}

#[test]
fn mixed_document_round_trips() {
    let props = TableProps {
        headers: strings(&["k", "v"]),
        rows: vec![strings(&["a", "1"])],
        alignments: Some(vec![None, Some(TableAlignment::Center)]),
    };
    let blocks = vec![
        head("h", 2, "Data"),
        Block { id: "t".to_string(), block_type: BlockType::Table, content: Vec::new(), children: Vec::new(), props: BlockProps::Table(props.clone()) },
        para("p", "done"),
    ];
    let md = castcodes::markdown::serializer::stringify(&blocks);
    assert_eq!(md, "## Data\n\n| k   | v   |\n| --- | :-: |\n| a   | 1   |\n\ndone");
    let back = parse(&md);
    assert_eq!(shape(&back), shape(&blocks));
    match &back[1].props {
        BlockProps::Table(p) => assert_eq!(p, &props),
        _ => panic!("expected a table"),
    }
    assert_eq!(castcodes::markdown::serializer::stringify(&back), md);
}

fn image(id: &str, url: &str, alt: Option<&str>, title: Option<&str>) -> (Block, ImageProps) {
    let props = ImageProps {
        url: url.to_string(),
        alt: alt.map(|a| a.to_string()),
        title: title.map(|t| t.to_string()),
        width: None,
        height: None,
    };
    let b = Block {
        id: id.to_string(),
        block_type: BlockType::Image,
        content: Vec::new(),
        children: Vec::new(),
        props: BlockProps::Image(props.clone()),
    };
    (b, props)
}

#[test]
fn images_round_trip() {
    let (titled, titled_props) =
        image("i", "https://example.com/logo.png", Some("Brand logo"), Some("Brand Logo"));
    let (bare, bare_props) = image("j", "img/a_b-c.png?x=1", None, None);
    let blocks = vec![para("p", "intro"), titled, bare];
    let md = castcodes::markdown::serializer::stringify(&blocks);
    assert_eq!(
        md,
        "intro\n\n![Brand logo](https://example.com/logo.png \"Brand Logo\")\n\n![](img/a_b-c.png?x=1)"
    );
    let back = parse(&md);
    assert_eq!(shape(&back), shape(&blocks));
    match (&back[1].props, &back[2].props) {
        (BlockProps::Image(a), BlockProps::Image(b)) => {
            assert_eq!(a, &titled_props);
            assert_eq!(b, &bare_props);
        }
        _ => panic!("expected images"),
    }
    assert_eq!(castcodes::markdown::serializer::stringify(&back), md);
}

#[test]
fn dividers_round_trip() {
    let divider = Block {
        id: "d".to_string(),
        block_type: BlockType::Divider,
        content: Vec::new(),
        children: Vec::new(),
        props: BlockProps::Empty,
    };
    let blocks = vec![para("p", "above"), divider.clone(), divider, head("h", 1, "Below")];
    let md = castcodes::markdown::serializer::stringify(&blocks);
    assert_eq!(md, "above\n\n---\n\n---\n\n# Below");
    let back = parse(&md);
    assert_eq!(shape(&back), shape(&blocks));
    assert_eq!(castcodes::markdown::serializer::stringify(&back), md);
}

#[test]
fn code_blocks_round_trip() {
    let rust = block(
        "c",
        BlockType::CodeBlock,
        "let x = 1;\n\n  fn main() {}",
        BlockProps::CodeBlock(CodeBlockProps { language: Some("rust".to_string()) }),
    );
    let bare = block("d", BlockType::CodeBlock, "", BlockProps::CodeBlock(CodeBlockProps { language: None }));
    let blocks = vec![head("h", 1, "Code"), rust, bare, para("p", "end")];
    let md = castcodes::markdown::serializer::stringify(&blocks);
    assert_eq!(md, "# Code\n\n```rust\nlet x = 1;\n\n  fn main() {}\n```\n\n```\n\n```\n\nend");
    let back = parse(&md);
    assert_eq!(shape(&back), shape(&blocks));
    assert_eq!(back[1].props, BlockProps::CodeBlock(CodeBlockProps { language: Some("rust".to_string()) }));
    assert_eq!(back[2].props, BlockProps::CodeBlock(CodeBlockProps { language: None }));
    assert_eq!(castcodes::markdown::serializer::stringify(&back), md);
    let mut crlf = MarkdownSerializeOptions::default();
    crlf.line_ending = castcodes::markdown::types::LineEnding::CrLf;
    let md2 = blocks_to_markdown(&blocks, &crlf);
    assert_eq!(shape(&parse(&md2)), shape(&blocks));
}

#[test]
fn check_items_and_quotes_round_trip() {
    let done = block("a", BlockType::CheckList, "ship it", BlockProps::CheckList(CheckListProps { checked: true }));
    let todo = block("b", BlockType::CheckList, "write docs", BlockProps::CheckList(CheckListProps { checked: false }));
    let quote = block("q", BlockType::Blockquote, "quoted words", BlockProps::Empty);
    let blocks = vec![done, todo, quote, para("p", "after")];
    let md = castcodes::markdown::serializer::stringify(&blocks);
    assert_eq!(md, "- [x] ship it\n\n- [ ] write docs\n\n> quoted words\n\nafter");
    let back = parse(&md);
    assert_eq!(shape(&back), shape(&blocks));
    assert_eq!(back[0].props, BlockProps::CheckList(CheckListProps { checked: true }));
    assert_eq!(back[1].props, BlockProps::CheckList(CheckListProps { checked: false }));
    assert_eq!(castcodes::markdown::serializer::stringify(&back), md);
}

#[test]
fn bullet_lists_round_trip() {
    let list = Block {
        id: "l".to_string(),
        block_type: BlockType::BulletList,
        content: Vec::new(),
        children: vec![para("i1", "first item"), para("i2", "second")],
        props: BlockProps::Empty,
    };
    let blocks = vec![para("p", "before"), list];
    let md = castcodes::markdown::serializer::stringify(&blocks);
    assert_eq!(md, "before\n\n- first item\n- second");
    let back = parse(&md);
    assert_eq!(shape(&back), shape(&blocks));
    assert_eq!(shape(&back[1].children), shape(&blocks[1].children));
    assert_eq!(castcodes::markdown::serializer::stringify(&back), md);
    let mut star = MarkdownSerializeOptions::default();
    star.bullet_char = castcodes::markdown::types::BulletChar::Asterisk;
    let md2 = blocks_to_markdown(&blocks, &star);
    assert_eq!(md2, "before\n\n* first item\n* second");
    let back2 = parse(&md2);
    assert_eq!(shape(&back2[1].children), shape(&blocks[1].children));
    assert_eq!(blocks_to_markdown(&back2, &star), md2);
}

#[test]
fn numbered_lists_round_trip() {
    let items: Vec<Block> =
        (1..=11).map(|i| para(&format!("i{i}"), &format!("step {i}"))).collect();
    let list = Block {
        id: "n".to_string(),
        block_type: BlockType::NumberedList,
        content: Vec::new(),
        children: items,
        props: BlockProps::Empty,
    };
    let blocks = vec![list];
    let md = castcodes::markdown::serializer::stringify(&blocks);
    assert!(md.starts_with("1. step 1\n2. step 2\n"));
    assert!(md.ends_with("\n10. step 10\n11. step 11"));
    let back = parse(&md);
    assert_eq!(back.len(), 1);
    assert_eq!(back[0].block_type, BlockType::NumberedList);
    assert_eq!(shape(&back[0].children), shape(&blocks[0].children));
    assert_eq!(castcodes::markdown::serializer::stringify(&back), md);
}

#[test]
fn setext_heading_does_not_round_trip() {
    let mut options = MarkdownSerializeOptions::default();
    options.heading_style = HeadingStyle::Setext;
    let md = blocks_to_markdown(&[head("x", 1, "Title")], &options);
    assert_eq!(md, "Title\n=====");
    let back = parse(&md);
    assert_eq!(back.len(), 2);
    assert_eq!(back[0].block_type, BlockType::Paragraph);
}

#[test]
fn escape_then_unescape_gives_the_text_back() {
    for s in ["a*b_c", "\\", "[x](y)", "#1 `code` ~~s~~ ==h==", ""] {
        assert_eq!(unescape_markdown(&escape_markdown(s)), s);
    }
    assert_eq!(escape_markdown("a*b"), "a\\*b");
}

// ---------------------------------------------------------------------------
// Inline spans
// ---------------------------------------------------------------------------

#[test]
fn merging_joins_equal_styles_only() {
    let merged = merge_adjacent_spans(vec![span("a", false), span("b", false), span("c", true), span("d", true)]);
    assert_eq!(merged, vec![span("ab", false), span("cd", true)]);
    let again = merge_adjacent_spans(merged.clone());
    assert_eq!(again, merged);
}

#[test]
fn merging_keeps_the_text() {
    let spans = vec![span("x", true), span("", false), span("y", false), span("z", true)];
    let merged = merge_adjacent_spans(spans.clone());
    let before: String = spans.iter().map(|s| s.text.clone()).collect();
    let after: String = merged.iter().map(|s| s.text.clone()).collect();
    assert_eq!(before, after);
    for w in merged.windows(2) {
        assert_ne!(w[0].styles, w[1].styles);
    }
}

#[test]
fn escaped_markup_is_literal_text() {
    let spans = parse_inline(&escape_markdown("**not bold** and `not code`"));
    assert_eq!(spans.len(), 1);
    assert_eq!(spans[0].text, "**not bold** and `not code`");
    assert_eq!(spans[0].styles, InlineStyle::default());
}

#[test]
fn plain_words_are_one_unstyled_span() {
    let spans = parse_inline("just some words");
    assert_eq!(spans, vec![span("just some words", false)]);
    assert!(parse_inline("").is_empty());
}

// ---------------------------------------------------------------------------
// Tokenizer
// ---------------------------------------------------------------------------

#[test]
fn one_token_per_line() {
    assert_eq!(tokenize("a\nb\n\nc").len(), 4);
    assert_eq!(tokenize("").len(), 1);
    assert_eq!(tokenize("x\r\ny").len(), 2);
}

// ---------------------------------------------------------------------------
// Browser
// ---------------------------------------------------------------------------

#[test]
fn back_undoes_navigate_and_forward_undoes_back() {
    let mut model = BrowserModel::new("https://a.example");
    model.navigate("https://b.example");
    assert_eq!(model.go_back(), Some("https://a.example".to_string()));
    assert_eq!(model.current_url(), "https://a.example");
    assert_eq!(model.go_forward(), Some("https://b.example".to_string()));
    assert_eq!(model.current_url(), "https://b.example");
    assert_eq!(model.go_forward(), None);
}

#[test]
fn normalizing_twice_changes_nothing() {
    for raw in ["", "  ", "example.com", "https://x.y", "about:blank"] {
        let once = normalize_url(raw);
        assert_eq!(normalize_url(&once), once);
    }
}

#[test]
fn webview_loads_the_home_page_for_about_home() {
    assert_eq!(webview_url_for("about:home", "data:text/html,home"), "data:text/html,home");
    assert_eq!(webview_url_for("https://x.example", "data:text/html,home"), "https://x.example");
    assert_eq!(webview_url_for("about:home2", "data:text/html,home"), "about:home2");
}

#[test]
fn search_url_uses_the_engine_prefix() {
    match resolve_with_engine("hello world", SearchEngine::DuckDuckGo) {
        Resolved::Search(url) => {
            assert!(url.starts_with(SearchEngine::DuckDuckGo.query_url_prefix()));
            assert!(url.ends_with("hello%20world"));
        },
        _ => panic!("expected a search"),
    }
    assert_eq!(percent_encode_query("a b&c"), "a%20b%26c");
}

// ---------------------------------------------------------------------------
// Themes
// ---------------------------------------------------------------------------

#[test]
fn theme_names_become_safe_slugs() {
    assert_eq!(sanitize_slug("My Theme!!"), "my-theme");
    assert_eq!(sanitize_slug("--Dark   Mode--"), "dark-mode");
    assert_eq!(sanitize_slug("Ünïcode"), "n-code");
    assert_eq!(sanitize_slug("!!!"), "imported-theme");
    assert_eq!(sanitize_slug(""), "imported-theme");
    assert_eq!(sanitize_slug("ABC123"), "abc123");
}

// ---------------------------------------------------------------------------
// Language servers
// ---------------------------------------------------------------------------

#[test]
fn language_names_join_the_languages() {
    assert_eq!(LSPServerType::Clangd.language_name(), "C/Cpp");
    assert_eq!(LSPServerType::RustAnalyzer.language_name(), "Rust");
    assert_eq!(LSPServerType::TypeScriptLanguageServer.language_name(), "TypeScript/JavaScript");
    assert_eq!(LanguageId::Cpp.lsp_language_identifier(), "cpp");
}

#[test]
fn commands_for_path_and_custom_installs() {
    let cmd = LSPServerType::Pyright.create_command(None);
    assert_eq!(cmd.program, LspProgram::OnPath("pyright-langserver"));
    assert_eq!(cmd.args, vec!["--stdio".to_string()]);
    let cmd = LSPServerType::RustAnalyzer.create_command(None);
    assert_eq!(cmd.program, LspProgram::OnPath("rust-analyzer"));
    assert!(cmd.args.is_empty());
    let custom = CustomBinaryConfig {
        binary_path: PathBuf::from("/data/node"),
        prepend_args: vec!["/data/pyright/langserver.index.js".to_string()],
    };
    let cmd = LSPServerType::Pyright.create_command(Some(custom));
    assert_eq!(cmd.program, LspProgram::Installed(PathBuf::from("/data/node")));
    assert_eq!(cmd.args, vec!["/data/pyright/langserver.index.js".to_string(), "--stdio".to_string()]);
}

#[test]
fn resolution_order_and_missing_error() {
    let custom = CustomBinaryConfig { binary_path: PathBuf::from("/opt/gopls"), prepend_args: vec![] };
    let r = resolve_lsp_binary_config(LSPServerType::GoPls, None, None, Some(custom.clone()), true).unwrap();
    assert_eq!(r.source, LspBinarySource::Managed);
    assert_eq!(r.custom_config, Some(custom));
    let r = resolve_lsp_binary_config(LSPServerType::GoPls, None, None, None, true).unwrap();
    assert_eq!(r.source, LspBinarySource::Path);
    assert_eq!(r.custom_config, None);
    let e = resolve_lsp_binary_config(LSPServerType::GoPls, None, None, None, false).unwrap_err();
    assert_eq!(e.to_string(), actionable_missing_binary_message(LSPServerType::GoPls));
    assert!(e.to_string().starts_with("gopls is not available."));
}

// ---------------------------------------------------------------------------
// Workspace context
// ---------------------------------------------------------------------------

#[test]
fn branch_is_read_from_head() {
    assert_eq!(branch_from_head("ref: refs/heads/main\n"), Some("main".to_string()));
    assert_eq!(branch_from_head("  ref: refs/heads/feature/x  "), Some("feature/x".to_string()));
    assert_eq!(branch_from_head("3f2a9c0d1e\n"), None);
}

#[test]
fn gitdir_is_read_from_git_file() {
    assert_eq!(
        gitdir_from_file("gitdir: /repo/.git/worktrees/w\n"),
        Some("/repo/.git/worktrees/w".to_string())
    );
    assert_eq!(gitdir_from_file("x\ngitdir:../m\n"), Some("../m".to_string()));
    assert_eq!(gitdir_from_file("nothing here"), None);
}

#[test]
fn host_fields_overwrite_only_host_parts() {
    let mut s = Substrate::default();
    s.shell_cwd = PathBuf::from("/work");
    s.git_branch = Some("main".to_string());
    let host = HostSubstrate {
        active_file: Some(PathBuf::from("/work/src/lib.rs")),
        open_panes: Vec::new(),
        recent_errors: Vec::new(),
    };
    s.apply_host(host);
    assert_eq!(s.active_file, Some(PathBuf::from("/work/src/lib.rs")));
    assert_eq!(s.shell_cwd, PathBuf::from("/work"));
    assert_eq!(s.git_branch, Some("main".to_string()));
}

#[test]
fn back_history_follows_the_moves() {
    let mut m = BrowserModel::new("example.com");
    assert!(!m.can_go_back());
    assert!(m.navigate("a.com").is_some());
    assert!(m.navigate("a.com").is_none());
    assert!(m.navigate("b.com").is_some());
    assert!(m.go_back().is_some());
    m.reload();
    m.set_title("T");
    assert!(m.can_go_back());
    assert!(m.go_back().is_some());
    assert!(!m.can_go_back());
    assert!(m.go_back().is_none());
    assert!(m.go_forward().is_some());
    assert!(m.can_go_back());
}

#[test]
fn slugs_are_stable_and_lower_case() {
    assert_eq!(sanitize_slug("My Theme!"), "my-theme");
    assert_eq!(sanitize_slug("my-theme"), "my-theme");
    assert_eq!(sanitize_slug(&sanitize_slug("--Déjà  VU--")), sanitize_slug("--Déjà  VU--"));
    assert_eq!(sanitize_slug("--Déjà  VU--"), "d-j-vu");
    assert_eq!(sanitize_slug("!!! ¿?"), "imported-theme");
    assert_eq!(sanitize_slug("ÉCOLE"), "cole");
}
