//! Block-level markdown parser: the token stream of
//! [`crate::markdown::tokenizer`] to a list of blocks.
//!
//! Block identifiers come from [`MarkdownParseOptions::generate_id`] when it
//! is set, and are freshly generated otherwise; the contracts describe the
//! blocks up to their identifiers ([`erase_ids`]).

use vstd::prelude::*;
use crate::markdown::document::create_document;
use crate::markdown::inline::{inline_spans, parse_inline};
use crate::markdown::tokenizer::{tokenize, tokens_of, toks_view, Token, TokenType, TokenV};
use crate::markdown::types::{
    Block, BlockProps, BlockType, BlockV, CalloutProps, CalloutType, CheckListProps,
    CodeBlockProps, Document, DocumentOptions, HeadingProps, ImageProps, InlineStyle,
    MarkdownParseOptions,
    PropsV, SpanV, TableAlignment, TableProps, TextSpan, blocks_view, blocks_view_seq,
    lemma_blocks_view_seq, plain_style, spans_view, strs,
};
use crate::markdown::utils::{
    all_ids_generated, erase_all_ids, erase_ids, generate_id, ids_generated, is_generated_id,
    lemma_erase_all_push,
};
use crate::text::{chars_of_string, join, join_vec, lower_seq, split, split_vec, string_of, strip_both_vec, strip_end, strip_start, trim, trim_vec, to_ascii_lower_vec};

verus! {

// ============================================================================
// Specification
// ============================================================================

/// A block without an identifier.
pub open spec fn mk(
    t: BlockType,
    content: Seq<SpanV>,
    props: PropsV,
    children: Seq<BlockV>,
) -> BlockV {
    BlockV { id: Seq::empty(), block_type: t, content, children, props }
}

/// First position at or after `i` whose token is not of type `tt`.
pub open spec fn run_end(ts: Seq<TokenV>, i: int, tt: TokenType) -> int
    decreases ts.len() - i,
{
    if 0 <= i < ts.len() && ts[i].token_type == tt {
        run_end(ts, i + 1, tt)
    } else {
        i
    }
}

pub proof fn lemma_run_end(ts: Seq<TokenV>, i: int, tt: TokenType)
    requires
        0 <= i <= ts.len(),
    ensures
        i <= run_end(ts, i, tt) <= ts.len(),
        forall|k: int| i <= k < run_end(ts, i, tt) ==> #[trigger] ts[k].token_type == tt,
        run_end(ts, i, tt) < ts.len() ==> ts[run_end(ts, i, tt)].token_type != tt,
    decreases ts.len() - i,
{
    if i < ts.len() && ts[i].token_type == tt {
        lemma_run_end(ts, i + 1, tt);
    }
}

/// The contents of the tokens in `[i, j)`.
pub open spec fn contents(ts: Seq<TokenV>, i: int, j: int) -> Seq<Seq<char>> {
    Seq::new((j - i) as nat, |k: int| ts[i + k].content)
}

pub open spec fn clamp_level(o: Option<u8>) -> u8 {
    match o {
        Some(l) => if l < 1 {
            1
        } else if l > 6 {
            6
        } else {
            l
        },
        None => 1,
    }
}

/// `info`, `warning`, `tip`, `danger` in any case; anything else is a note.
pub open spec fn callout_kind(s: Seq<char>) -> CalloutType {
    let l = lower_seq(s);
    if l == seq!['i', 'n', 'f', 'o'] {
        CalloutType::Info
    } else if l == seq!['w', 'a', 'r', 'n', 'i', 'n', 'g'] {
        CalloutType::Warning
    } else if l == seq!['t', 'i', 'p'] {
        CalloutType::Tip
    } else if l == seq!['d', 'a', 'n', 'g', 'e', 'r'] {
        CalloutType::Danger
    } else {
        CalloutType::Note
    }
}

pub open spec fn nonempty(o: Option<Seq<char>>) -> Option<Seq<char>> {
    match o {
        Some(s) => if s.len() > 0 {
            Some(s)
        } else {
            None
        },
        None => None,
    }
}

pub open spec fn trim_all(parts: Seq<Seq<char>>) -> Seq<Seq<char>> {
    parts.map_values(|p: Seq<char>| trim(p))
}

/// The cells of a table row: the text between the outer pipes, split at
/// `|`, each cell trimmed; empty cells are kept.
pub open spec fn row_cells(content: Seq<char>) -> Seq<Seq<char>> {
    trim_all(split(strip_end(strip_start(trim(content), '|'), '|'), '|'))
}

/// `:--` left, `--:` right, `:-:` center, otherwise none.
pub open spec fn alignment_of(cell: Seq<char>) -> Option<TableAlignment> {
    let left = cell.len() > 0 && cell[0] == ':';
    let right = cell.len() > 0 && cell.last() == ':';
    if left && right {
        Some(TableAlignment::Center)
    } else if left {
        Some(TableAlignment::Left)
    } else if right {
        Some(TableAlignment::Right)
    } else {
        None
    }
}

/// The alignment of each non-blank cell of a separator row.
pub open spec fn alignments_from(parts: Seq<Seq<char>>) -> Seq<Option<TableAlignment>>
    decreases parts.len(),
{
    if parts.len() == 0 {
        Seq::empty()
    } else {
        let r = alignments_from(parts.drop_last());
        let c = trim(parts.last());
        if c.len() == 0 {
            r
        } else {
            r.push(alignment_of(c))
        }
    }
}

pub open spec fn alignments_of(sep: Seq<char>) -> Seq<Option<TableAlignment>> {
    alignments_from(split(sep, '|'))
}

/// What the table parser has gathered so far.
pub struct TableAcc {
    pub headers: Seq<Seq<char>>,
    pub rows: Seq<Seq<Seq<char>>>,
    pub aligns: Seq<Option<TableAlignment>>,
    pub is_first: bool,
    pub has_sep: bool,
}

pub open spec fn table_start() -> TableAcc {
    TableAcc {
        headers: Seq::empty(),
        rows: Seq::empty(),
        aligns: Seq::empty(),
        is_first: true,
        has_sep: false,
    }
}

/// The table rows and separators from `i` on: the first row before any
/// separator is the header, rows after a separator are body rows, other
/// rows before a separator are dropped.
pub open spec fn table_scan(ts: Seq<TokenV>, i: int, acc: TableAcc) -> (TableAcc, int)
    decreases ts.len() - i,
{
    if i < 0 || i >= ts.len() {
        (acc, i)
    } else if ts[i].token_type == TokenType::TableSeparator {
        table_scan(
            ts,
            i + 1,
            TableAcc { aligns: alignments_of(ts[i].content), has_sep: true, ..acc },
        )
    } else if ts[i].token_type == TokenType::TableRow {
        let cells = row_cells(ts[i].content);
        let next = if acc.is_first && !acc.has_sep {
            TableAcc { headers: cells, is_first: false, ..acc }
        } else if acc.has_sep {
            TableAcc { rows: acc.rows.push(cells), ..acc }
        } else {
            acc
        };
        table_scan(ts, i + 1, next)
    } else {
        (acc, i)
    }
}

/// A table starting at `i`; without a separator the header row becomes the
/// first body row.
pub open spec fn table_block(ts: Seq<TokenV>, i: int) -> (BlockV, int) {
    let (a, j) = table_scan(ts, i, table_start());
    let moved = !a.has_sep && a.headers.len() > 0;
    let headers = if moved {
        Seq::empty()
    } else {
        a.headers
    };
    let rows = if moved {
        seq![a.headers] + a.rows
    } else {
        a.rows
    };
    let alignments = if a.aligns.len() == 0 {
        None
    } else {
        Some(a.aligns)
    };
    (
        mk(BlockType::Table, Seq::empty(), PropsV::Table { headers, rows, alignments }, Seq::empty()),
        j,
    )
}

/// A fenced code block starting at `i`: the code lines joined by newlines,
/// the closing fence consumed when present.
pub open spec fn code_block(ts: Seq<TokenV>, i: int) -> (BlockV, int) {
    let e = run_end(ts, i + 1, TokenType::CodeContent);
    let j = if e < ts.len() && ts[e].token_type == TokenType::CodeFenceEnd {
        e + 1
    } else {
        e
    };
    let text = join(contents(ts, i + 1, e), seq!['\n']);
    (
        mk(
            BlockType::CodeBlock,
            seq![SpanV { text, styles: plain_style() }],
            PropsV::CodeBlock(nonempty(ts[i].meta.language)),
            Seq::empty(),
        ),
        j,
    )
}

pub open spec fn list_type(kind: TokenType) -> BlockType {
    if kind == TokenType::NumberedListItem {
        BlockType::NumberedList
    } else {
        BlockType::BulletList
    }
}

pub open spec fn item_of(t: TokenV) -> BlockV {
    mk(BlockType::Paragraph, inline_spans(t.content), PropsV::Empty, Seq::empty())
}

pub open spec fn deeper(ts: Seq<TokenV>, i: int, base: nat) -> bool {
    0 <= i < ts.len() && ts[i].indent > base
}

/// Items of a list of `kind` at indentation `base`, from `i` on, with items
/// `acc` gathered so far: a deeper item opens a nested list, appended to the
/// children of the last item.
pub open spec fn list_items(
    ts: Seq<TokenV>,
    kind: TokenType,
    base: nat,
    i: int,
    acc: Seq<BlockV>,
) -> (Seq<BlockV>, int)
    decreases ts.len() - i, if deeper(ts, i, base) {
        2int
    } else {
        0int
    },
{
    if i < 0 || i >= ts.len() || ts[i].token_type != kind || ts[i].indent < base {
        (acc, i)
    } else if ts[i].indent > base {
        if acc.len() == 0 {
            (acc, i)
        } else {
            let (nested, j) = list_block(ts, kind, i);
            let last = acc.last();
            let acc2 = acc.update(acc.len() - 1, BlockV { children: last.children.push(nested), ..last });
            if i < j <= ts.len() {
                list_items(ts, kind, base, j, acc2)
            } else {
                (acc2, j)
            }
        }
    } else {
        list_items(ts, kind, base, i + 1, acc.push(item_of(ts[i])))
    }
}

/// The list of `kind` whose first item is at `i`.
pub open spec fn list_block(ts: Seq<TokenV>, kind: TokenType, i: int) -> (BlockV, int)
    decreases ts.len() - i, 1int,
{
    if 0 <= i < ts.len() {
        let (items, j) = list_items(ts, kind, ts[i].indent, i, Seq::empty());
        (mk(list_type(kind), Seq::empty(), PropsV::Empty, items), j)
    } else {
        (mk(list_type(kind), Seq::empty(), PropsV::Empty, Seq::empty()), i)
    }
}

pub open spec fn heading_at(ts: Seq<TokenV>, i: int) -> (BlockV, int) {
    let t = ts[i];
    (
        mk(
            BlockType::Heading,
            inline_spans(t.content),
            PropsV::Heading(clamp_level(t.meta.level)),
            Seq::empty(),
        ),
        i + 1,
    )
}

/// Consecutive paragraph lines, joined by spaces.
pub open spec fn paragraph_at(ts: Seq<TokenV>, i: int) -> (BlockV, int) {
    let e = run_end(ts, i, TokenType::Paragraph);
    (
        mk(
            BlockType::Paragraph,
            inline_spans(join(contents(ts, i, e), seq![' '])),
            PropsV::Empty,
            Seq::empty(),
        ),
        e,
    )
}

pub open spec fn check_item_at(ts: Seq<TokenV>, i: int) -> (BlockV, int) {
    let t = ts[i];
    (
        mk(
            BlockType::CheckList,
            inline_spans(t.content),
            PropsV::CheckList(
                match t.meta.checked {
                    Some(c) => c,
                    None => false,
                },
            ),
            Seq::empty(),
        ),
        i + 1,
    )
}

/// Consecutive blockquote lines, joined by newlines.
pub open spec fn quote_at(ts: Seq<TokenV>, i: int) -> (BlockV, int) {
    let e = run_end(ts, i, TokenType::Blockquote);
    (
        mk(
            BlockType::Blockquote,
            inline_spans(join(contents(ts, i, e), seq!['\n'])),
            PropsV::Empty,
            Seq::empty(),
        ),
        e,
    )
}

/// A callout header and the blockquote lines after it.
pub open spec fn callout_at(ts: Seq<TokenV>, i: int) -> (BlockV, int) {
    let kind = match ts[i].meta.callout_type {
        Some(c) => callout_kind(c),
        None => CalloutType::Note,
    };
    let e = run_end(ts, i + 1, TokenType::Blockquote);
    (
        mk(
            BlockType::Callout,
            inline_spans(join(contents(ts, i + 1, e), seq!['\n'])),
            PropsV::Callout(kind),
            Seq::empty(),
        ),
        e,
    )
}

pub open spec fn image_at(ts: Seq<TokenV>, i: int) -> (BlockV, int) {
    let t = ts[i];
    (
        mk(
            BlockType::Image,
            Seq::empty(),
            PropsV::Image {
                url: t.content,
                alt: nonempty(t.meta.image_alt),
                title: t.meta.image_title,
                width: None,
                height: None,
            },
            Seq::empty(),
        ),
        i + 1,
    )
}

pub open spec fn divider_at(i: int) -> (BlockV, int) {
    (mk(BlockType::Divider, Seq::empty(), PropsV::Empty, Seq::empty()), i + 1)
}

pub open spec fn some_block(p: (BlockV, int)) -> (Option<BlockV>, int) {
    (Some(p.0), p.1)
}

/// The block that starts at token `i` (none for a stray token), and where
/// the next one starts.
pub open spec fn block_at(ts: Seq<TokenV>, i: int) -> (Option<BlockV>, int) {
    match ts[i].token_type {
        TokenType::Heading => some_block(heading_at(ts, i)),
        TokenType::Paragraph => some_block(paragraph_at(ts, i)),
        TokenType::BulletListItem => some_block(list_block(ts, TokenType::BulletListItem, i)),
        TokenType::NumberedListItem => some_block(list_block(ts, TokenType::NumberedListItem, i)),
        TokenType::CheckListItem => some_block(check_item_at(ts, i)),
        TokenType::CodeFenceStart => some_block(code_block(ts, i)),
        TokenType::Blockquote => some_block(quote_at(ts, i)),
        TokenType::Callout => some_block(callout_at(ts, i)),
        TokenType::Divider => some_block(divider_at(i)),
        TokenType::TableRow => some_block(table_block(ts, i)),
        TokenType::Image => some_block(image_at(ts, i)),
        _ => (None, i + 1),
    }
}

/// The blocks of the tokens from `i` on; blank lines separate blocks and
/// yield none.
pub open spec fn parse_from(ts: Seq<TokenV>, i: int) -> Seq<BlockV>
    decreases ts.len() - i,
{
    if i < 0 || i >= ts.len() {
        Seq::empty()
    } else if ts[i].token_type == TokenType::Blank {
        parse_from(ts, i + 1)
    } else {
        let (ob, j) = block_at(ts, i);
        let rest = if i < j <= ts.len() {
            parse_from(ts, j)
        } else {
            Seq::empty()
        };
        match ob {
            Some(b) => seq![b] + rest,
            None => rest,
        }
    }
}

/// The blocks of a markdown text, identifiers aside.
pub open spec fn md_blocks(md: Seq<char>) -> Seq<BlockV> {
    parse_from(tokens_of(md), 0)
}

// ============================================================================
// Blocks as built
// ============================================================================

/// `b` is `want` up to identifiers, and its identifiers are fresh when no
/// generator was given.
pub open spec fn built_as(b: BlockV, want: BlockV, fresh: bool) -> bool {
    &&& erase_ids(b) == want
    &&& fresh ==> ids_generated(b)
}

/// The blocks `bs` are `want` up to identifiers, with fresh identifiers when
/// no generator was given.
pub open spec fn all_built_as(bs: Seq<BlockV>, want: Seq<BlockV>, fresh: bool) -> bool {
    &&& erase_all_ids(bs) == want
    &&& fresh ==> all_ids_generated(bs)
}

pub proof fn lemma_built_push(bs: Seq<BlockV>, want: Seq<BlockV>, b: BlockV, w: BlockV, fresh: bool)
    requires
        all_built_as(bs, want, fresh),
        built_as(b, w, fresh),
    ensures
        all_built_as(bs.push(b), want.push(w), fresh),
{
    lemma_erase_all_push(bs, b);
    assert(bs.push(b).drop_last() =~= bs);
}

fn new_id(options: &MarkdownParseOptions) -> (r: String)
    ensures
        options.generate_id is None ==> is_generated_id(r@, 8),
{
    match &options.generate_id {
        Some(g) => g.generate_id(),
        None => generate_id(),
    }
}

/// A block with an identifier from `options`.
fn node(
    options: &MarkdownParseOptions,
    t: BlockType,
    content: Vec<TextSpan>,
    props: BlockProps,
    children: Vec<Block>,
) -> (r: Block)
    ensures
        r@.block_type == t,
        r@.content == spans_view(content@),
        r@.props == props@,
        r@.children == blocks_view(children@),
        options.generate_id is None ==> is_generated_id(r@.id, 8),
{
    let id = new_id(options);
    let r = Block { id, block_type: t, content, children, props };
    proof {
        lemma_blocks_view_seq(children@);
        assert(blocks_view_seq(children@) =~= blocks_view(children@));
    }
    r
}

/// A block built from `options` whose children are `want_children` up to
/// identifiers.
fn branch(
    options: &MarkdownParseOptions,
    t: BlockType,
    content: Vec<TextSpan>,
    props: BlockProps,
    children: Vec<Block>,
    Ghost(want_children): Ghost<Seq<BlockV>>,
) -> (r: Block)
    requires
        all_built_as(blocks_view(children@), want_children, options.generate_id is None),
    ensures
        built_as(
            r@,
            mk(t, spans_view(content@), props@, want_children),
            options.generate_id is None,
        ),
{
    let ghost cv = spans_view(content@);
    let ghost pv = props@;
    let r = node(options, t, content, props, children);
    assert(erase_ids(r@) == mk(t, cv, pv, want_children));
    r
}

/// A block without children built from `options`.
fn leaf(options: &MarkdownParseOptions, t: BlockType, content: Vec<TextSpan>, props: BlockProps) -> (r: Block)
    ensures
        built_as(r@, mk(t, spans_view(content@), props@, Seq::empty()), options.generate_id is None),
{
    let children: Vec<Block> = Vec::new();
    assert(blocks_view(children@) =~= Seq::<BlockV>::empty());
    assert(erase_all_ids(Seq::<BlockV>::empty()) =~= Seq::<BlockV>::empty());
    branch(options, t, content, props, children, Ghost(Seq::empty()))
}

/// Contents of the tokens of type `tt` from `i` on, and where they end.
fn collect_contents(ts: &Vec<Token>, i: usize, tt: TokenType) -> (r: (Vec<Vec<char>>, usize))
    requires
        i <= ts.len(),
    ensures
        r.1 == run_end(toks_view(ts@), i as int, tt),
        i <= r.1 <= ts.len(),
        r.0@.map_values(|v: Vec<char>| v@) == contents(toks_view(ts@), i as int, r.1 as int),
{
    let ghost tv = toks_view(ts@);
    let mut out: Vec<Vec<char>> = Vec::new();
    let mut k = i;
    while k < ts.len() && ts[k].token_type == tt
        invariant
            i <= k <= ts.len(),
            tv == toks_view(ts@),
            run_end(tv, i as int, tt) == run_end(tv, k as int, tt),
            out@.map_values(|v: Vec<char>| v@) == contents(tv, i as int, k as int),
        decreases ts.len() - k,
    {
        assert(tv[k as int] == ts@[k as int]@);
        let ghost o0 = out@.map_values(|v: Vec<char>| v@);
        let ghost kk = k as int;
        let c = chars_of_string(&ts[k].content);
        assert(c@ == tv[kk].content);
        out.push(c);
        k += 1;
        assert(out@.map_values(|v: Vec<char>| v@) =~= o0.push(tv[kk].content));
        assert(o0.push(tv[kk].content) =~= contents(tv, i as int, k as int));
    }
    proof {
        if k < ts.len() {
            assert(tv[k as int] == ts@[k as int]@);
        }
    }
    (out, k)
}

fn parse_text(v: &Vec<char>) -> (r: Vec<TextSpan>)
    ensures
        spans_view(r@) == inline_spans(v@),
{
    let s = string_of(v);
    parse_inline(s.as_str())
}

fn joined(parts: &Vec<Vec<char>>, sep: char) -> (r: Vec<char>)
    ensures
        r@ == join(parts@.map_values(|v: Vec<char>| v@), seq![sep]),
{
    let mut sv: Vec<char> = Vec::new();
    sv.push(sep);
    assert(sv@ =~= seq![sep]);
    join_vec(parts, &sv)
}

/// The block `r.0` and next position `r.1` are `want` as built.
pub open spec fn parsed_as(r: (Block, usize), want: (BlockV, int), fresh: bool) -> bool {
    built_as(r.0@, want.0, fresh) && r.1 == want.1
}

fn parse_heading(ts: &Vec<Token>, i: usize, options: &MarkdownParseOptions) -> (r: (Block, usize))
    requires
        i < ts.len(),
    ensures
        parsed_as(r, heading_at(toks_view(ts@), i as int), options.generate_id is None),
{
    let t = &ts[i];
    assert(toks_view(ts@)[i as int] == t@);
    let level: u8 = match t.meta.level {
        Some(l) => if l < 1 {
            1
        } else if l > 6 {
            6
        } else {
            l
        },
        None => 1,
    };
    let content = parse_inline(t.content.as_str());
    (leaf(options, BlockType::Heading, content, BlockProps::Heading(HeadingProps { level })), i + 1)
}

fn parse_paragraph(ts: &Vec<Token>, i: usize, options: &MarkdownParseOptions) -> (r: (Block, usize))
    requires
        i < ts.len(),
    ensures
        parsed_as(r, paragraph_at(toks_view(ts@), i as int), options.generate_id is None),
{
    let (lines, e) = collect_contents(ts, i, TokenType::Paragraph);
    let text = joined(&lines, ' ');
    let content = parse_text(&text);
    (leaf(options, BlockType::Paragraph, content, BlockProps::Empty), e)
}

fn parse_check_list_item(ts: &Vec<Token>, i: usize, options: &MarkdownParseOptions) -> (r: (Block, usize))
    requires
        i < ts.len(),
    ensures
        parsed_as(r, check_item_at(toks_view(ts@), i as int), options.generate_id is None),
{
    let t = &ts[i];
    assert(toks_view(ts@)[i as int] == t@);
    let checked = match t.meta.checked {
        Some(c) => c,
        None => false,
    };
    let content = parse_inline(t.content.as_str());
    (
        leaf(options, BlockType::CheckList, content, BlockProps::CheckList(CheckListProps { checked })),
        i + 1,
    )
}

fn parse_blockquote(ts: &Vec<Token>, i: usize, options: &MarkdownParseOptions) -> (r: (Block, usize))
    requires
        i < ts.len(),
    ensures
        parsed_as(r, quote_at(toks_view(ts@), i as int), options.generate_id is None),
{
    let (lines, e) = collect_contents(ts, i, TokenType::Blockquote);
    let text = joined(&lines, '\n');
    let content = parse_text(&text);
    (leaf(options, BlockType::Blockquote, content, BlockProps::Empty), e)
}

fn callout_type_from_str(s: &str) -> (r: CalloutType)
    ensures
        r == callout_kind(s@),
{
    let l = to_ascii_lower_vec(&crate::text::chars_of(s));
    let n = l.len();
    if n == 4 && l[0] == 'i' && l[1] == 'n' && l[2] == 'f' && l[3] == 'o' {
        assert(l@ =~= seq!['i', 'n', 'f', 'o']);
        CalloutType::Info
    } else if n == 7 && l[0] == 'w' && l[1] == 'a' && l[2] == 'r' && l[3] == 'n' && l[4] == 'i'
        && l[5] == 'n' && l[6] == 'g' {
        assert(l@ =~= seq!['w', 'a', 'r', 'n', 'i', 'n', 'g']);
        CalloutType::Warning
    } else if n == 3 && l[0] == 't' && l[1] == 'i' && l[2] == 'p' {
        assert(l@ =~= seq!['t', 'i', 'p']);
        CalloutType::Tip
    } else if n == 6 && l[0] == 'd' && l[1] == 'a' && l[2] == 'n' && l[3] == 'g' && l[4] == 'e'
        && l[5] == 'r' {
        assert(l@ =~= seq!['d', 'a', 'n', 'g', 'e', 'r']);
        CalloutType::Danger
    } else {
        CalloutType::Note
    }
}

fn parse_callout(ts: &Vec<Token>, i: usize, options: &MarkdownParseOptions) -> (r: (Block, usize))
    requires
        i < ts.len(),
    ensures
        parsed_as(r, callout_at(toks_view(ts@), i as int), options.generate_id is None),
{
    let t = &ts[i];
    assert(toks_view(ts@)[i as int] == t@);
    let kind = match &t.meta.callout_type {
        Some(c) => callout_type_from_str(c.as_str()),
        None => CalloutType::Note,
    };
    let (lines, e) = collect_contents(ts, i + 1, TokenType::Blockquote);
    let text = joined(&lines, '\n');
    let content = parse_text(&text);
    (
        leaf(options, BlockType::Callout, content, BlockProps::Callout(CalloutProps { callout_type: kind })),
        e,
    )
}

fn nonempty_string(o: &Option<String>) -> (r: Option<String>)
    ensures
        crate::markdown::types::opt_str(r) == nonempty(crate::markdown::tokenizer::ostr(*o)),
{
    match o {
        Some(x) => {
            if chars_of_string(x).len() > 0 {
                Some(x.clone())
            } else {
                None
            }
        },
        None => None,
    }
}

fn parse_code_block(ts: &Vec<Token>, i: usize, options: &MarkdownParseOptions) -> (r: (Block, usize))
    requires
        i < ts.len(),
    ensures
        parsed_as(r, code_block(toks_view(ts@), i as int), options.generate_id is None),
{
    let t = &ts[i];
    assert(toks_view(ts@)[i as int] == t@);
    let language = nonempty_string(&t.meta.language);
    let (lines, e) = collect_contents(ts, i + 1, TokenType::CodeContent);
    let j = if e < ts.len() && ts[e].token_type == TokenType::CodeFenceEnd {
        e + 1
    } else {
        e
    };
    proof {
        if e < ts.len() {
            assert(toks_view(ts@)[e as int] == ts@[e as int]@);
        }
    }
    let text = joined(&lines, '\n');
    let mut content: Vec<TextSpan> = Vec::new();
    content.push(TextSpan { text: string_of(&text), styles: InlineStyle::plain() });
    let ghost want = seq![SpanV { text: text@, styles: plain_style() }];
    assert(spans_view(content@) =~= want);
    (leaf(options, BlockType::CodeBlock, content, BlockProps::CodeBlock(CodeBlockProps { language })), j)
}

fn parse_image(ts: &Vec<Token>, i: usize, options: &MarkdownParseOptions) -> (r: (Block, usize))
    requires
        i < ts.len(),
    ensures
        parsed_as(r, image_at(toks_view(ts@), i as int), options.generate_id is None),
{
    let t = &ts[i];
    assert(toks_view(ts@)[i as int] == t@);
    let props = BlockProps::Image(
        ImageProps {
            url: t.content.clone(),
            alt: nonempty_string(&t.meta.image_alt),
            title: crate::markdown::utils::clone_opt_string(&t.meta.image_title),
            width: None,
            height: None,
        },
    );
    let content: Vec<TextSpan> = Vec::new();
    assert(spans_view(content@) =~= Seq::<SpanV>::empty());
    (leaf(options, BlockType::Image, content, props), i + 1)
}

fn parse_divider(i: usize, options: &MarkdownParseOptions) -> (r: (Block, usize))
    requires
        i < usize::MAX,
    ensures
        parsed_as(r, divider_at(i as int), options.generate_id is None),
{
    let content: Vec<TextSpan> = Vec::new();
    assert(spans_view(content@) =~= Seq::<SpanV>::empty());
    (leaf(options, BlockType::Divider, content, BlockProps::Empty), i + 1)
}

// ============================================================================
// Tables
// ============================================================================

fn trimmed_strings(parts: &Vec<Vec<char>>) -> (r: Vec<String>)
    ensures
        strs(r@) == trim_all(parts@.map_values(|v: Vec<char>| v@)),
{
    let ghost ps = parts@.map_values(|v: Vec<char>| v@);
    let mut r: Vec<String> = Vec::new();
    let mut k: usize = 0;
    while k < parts.len()
        invariant
            k <= parts.len(),
            ps == parts@.map_values(|v: Vec<char>| v@),
            strs(r@) == trim_all(ps.take(k as int)),
        decreases parts.len() - k,
    {
        let c = trim_vec(&parts[k]);
        let ghost r0 = strs(r@);
        r.push(string_of(&c));
        assert(strs(r@) =~= r0.push(trim(ps[k as int])));
        k += 1;
        assert(trim_all(ps.take(k as int)) =~= trim_all(ps.take(k - 1)).push(trim(ps[k - 1])));
    }
    assert(ps.take(parts.len() as int) =~= ps);
    r
}

fn row_cells_exec(content: &String) -> (r: Vec<String>)
    ensures
        strs(r@) == row_cells(content@),
{
    let t = trim_vec(&chars_of_string(content));
    let p = strip_both_vec(&t, '|');
    let parts = split_vec(&p, '|');
    trimmed_strings(&parts)
}

fn alignment_exec(c: &Vec<char>) -> (r: Option<TableAlignment>)
    ensures
        r == alignment_of(c@),
{
    let n = c.len();
    let left = n > 0 && c[0] == ':';
    let right = n > 0 && c[n - 1] == ':';
    if left && right {
        Some(TableAlignment::Center)
    } else if left {
        Some(TableAlignment::Left)
    } else if right {
        Some(TableAlignment::Right)
    } else {
        None
    }
}

fn parse_table_alignments(sep: &String) -> (r: Vec<Option<TableAlignment>>)
    ensures
        r@ == alignments_of(sep@),
{
    let parts = split_vec(&chars_of_string(sep), '|');
    let ghost ps = parts@.map_values(|v: Vec<char>| v@);
    let mut r: Vec<Option<TableAlignment>> = Vec::new();
    let mut k: usize = 0;
    assert(ps.take(0) =~= Seq::<Seq<char>>::empty());
    while k < parts.len()
        invariant
            k <= parts.len(),
            ps == parts@.map_values(|v: Vec<char>| v@),
            r@ == alignments_from(ps.take(k as int)),
        decreases parts.len() - k,
    {
        let c = trim_vec(&parts[k]);
        assert(ps.take(k + 1).drop_last() =~= ps.take(k as int));
        assert(ps.take(k + 1).last() == parts@[k as int]@);
        if c.len() > 0 {
            r.push(alignment_exec(&c));
        }
        k += 1;
    }
    assert(ps.take(parts.len() as int) =~= ps);
    r
}

pub open spec fn rows_view(rows: Seq<Vec<String>>) -> Seq<Seq<Seq<char>>> {
    rows.map_values(|r: Vec<String>| strs(r@))
}

pub proof fn lemma_table_scan_progress(ts: Seq<TokenV>, i: int, acc: TableAcc)
    requires
        0 <= i,
    ensures
        table_scan(ts, i, acc).1 >= i,
    decreases ts.len() - i,
{
    if i < ts.len() {
        if ts[i].token_type == TokenType::TableSeparator {
            lemma_table_scan_progress(
                ts,
                i + 1,
                TableAcc { aligns: alignments_of(ts[i].content), has_sep: true, ..acc },
            );
        } else if ts[i].token_type == TokenType::TableRow {
            let cells = row_cells(ts[i].content);
            let next = if acc.is_first && !acc.has_sep {
                TableAcc { headers: cells, is_first: false, ..acc }
            } else if acc.has_sep {
                TableAcc { rows: acc.rows.push(cells), ..acc }
            } else {
                acc
            };
            lemma_table_scan_progress(ts, i + 1, next);
        }
    }
}

fn parse_table(ts: &Vec<Token>, i: usize, options: &MarkdownParseOptions) -> (r: (Block, usize))
    requires
        i < ts.len(),
        ts@[i as int].token_type == TokenType::TableRow,
    ensures
        parsed_as(r, table_block(toks_view(ts@), i as int), options.generate_id is None),
        i < r.1 <= ts.len(),
{
    let ghost tv = toks_view(ts@);
    let mut headers: Vec<String> = Vec::new();
    let mut rows: Vec<Vec<String>> = Vec::new();
    let mut aligns: Vec<Option<TableAlignment>> = Vec::new();
    let mut is_first = true;
    let mut has_sep = false;
    let mut k = i;
    let ghost mut acc = table_start();
    assert(strs(headers@) =~= acc.headers);
    assert(rows_view(rows@) =~= acc.rows);
    while k < ts.len()
        invariant
            i <= k <= ts.len(),
            tv == toks_view(ts@),
            table_scan(tv, i as int, table_start()) == table_scan(tv, k as int, acc),
            strs(headers@) == acc.headers,
            rows_view(rows@) == acc.rows,
            aligns@ == acc.aligns,
            is_first == acc.is_first,
            has_sep == acc.has_sep,
        ensures
            table_scan(tv, k as int, acc) == (acc, k as int),
        decreases ts.len() - k,
    {
        let t = &ts[k];
        assert(tv[k as int] == t@);
        if t.token_type == TokenType::TableSeparator {
            aligns = parse_table_alignments(&t.content);
            has_sep = true;
            proof {
                acc = TableAcc { aligns: alignments_of(tv[k as int].content), has_sep: true, ..acc };
            }
        } else if t.token_type == TokenType::TableRow {
            let cells = row_cells_exec(&t.content);
            if is_first && !has_sep {
                headers = cells;
                is_first = false;
                proof {
                    acc = TableAcc { headers: row_cells(tv[k as int].content), is_first: false, ..acc };
                }
            } else if has_sep {
                let ghost r0 = rows_view(rows@);
                rows.push(cells);
                proof {
                    assert(rows_view(rows@) =~= r0.push(row_cells(tv[k as int].content)));
                    acc = TableAcc { rows: acc.rows.push(row_cells(tv[k as int].content)), ..acc };
                }
            }
        } else {
            break;
        }
        k += 1;
    }
    proof {
        if k == i {
            assert(tv[i as int] == ts@[i as int]@);
            let cells = row_cells(tv[i as int].content);
            lemma_table_scan_progress(
                tv,
                i + 1,
                TableAcc { headers: cells, is_first: false, ..table_start() },
            );
        }
    }
    let ghost a = acc;
    let moved = !has_sep && headers.len() > 0;
    if moved {
        let h = headers;
        headers = Vec::new();
        assert(strs(headers@) =~= Seq::<Seq<char>>::empty());
        let ghost r0 = rows_view(rows@);
        rows.insert(0, h);
        assert(rows_view(rows@) =~= seq![a.headers] + r0);
    }
    let alignments = if aligns.len() == 0 {
        None
    } else {
        Some(aligns)
    };
    let props = BlockProps::Table(TableProps { headers, rows, alignments });
    let content: Vec<TextSpan> = Vec::new();
    assert(spans_view(content@) =~= Seq::<SpanV>::empty());
    (leaf(options, BlockType::Table, content, props), k)
}

// ============================================================================
// Lists
// ============================================================================

fn list_type_exec(kind: TokenType) -> (r: BlockType)
    ensures
        r == list_type(kind),
{
    if kind == TokenType::NumberedListItem {
        BlockType::NumberedList
    } else {
        BlockType::BulletList
    }
}

fn parse_item(t: &Token, options: &MarkdownParseOptions) -> (r: Block)
    ensures
        built_as(r@, item_of(t@), options.generate_id is None),
{
    let content = parse_inline(t.content.as_str());
    leaf(options, BlockType::Paragraph, content, BlockProps::Empty)
}

/// Appending a nested list to the children of a built item keeps it built.
proof fn lemma_built_with_child(a: BlockV, w: BlockV, n: BlockV, nw: BlockV, fresh: bool)
    requires
        built_as(a, w, fresh),
        built_as(n, nw, fresh),
    ensures
        built_as(
            BlockV { children: a.children.push(n), ..a },
            BlockV { children: w.children.push(nw), ..w },
            fresh,
        ),
{
    lemma_erase_all_push(a.children, n);
    assert(a.children.push(n).drop_last() =~= a.children);
}

/// A bullet or numbered list whose first item is token `i`, with deeper
/// items nested under the item before them.
fn parse_list(ts: &Vec<Token>, i: usize, kind: TokenType, options: &MarkdownParseOptions) -> (r: (Block, usize))
    requires
        i < ts.len(),
        ts@[i as int].token_type == kind,
    ensures
        parsed_as(r, list_block(toks_view(ts@), kind, i as int), options.generate_id is None),
        i < r.1 <= ts.len(),
    decreases ts.len() - i,
{
    let ghost tv = toks_view(ts@);
    assert(tv[i as int] == ts@[i as int]@);
    let base = ts[i].indent;
    let mut items: Vec<Block> = Vec::new();
    let mut last: Block = parse_item(&ts[i], options);
    let mut k = i + 1;
    let ghost mut acc: Seq<BlockV> = seq![item_of(tv[i as int])];
    assert(!deeper(tv, i as int, base as nat));
    assert(list_items(tv, kind, base as nat, i as int, Seq::empty()) == list_items(
        tv,
        kind,
        base as nat,
        (i + 1) as int,
        Seq::<BlockV>::empty().push(item_of(tv[i as int])),
    ));
    assert(Seq::<BlockV>::empty().push(item_of(tv[i as int])) =~= acc);
    assert(blocks_view(items@) =~= Seq::<BlockV>::empty());
    assert(acc.drop_last() =~= Seq::<BlockV>::empty());
    assert(erase_all_ids(Seq::<BlockV>::empty()) =~= Seq::<BlockV>::empty());
    while k < ts.len()
        invariant
            i < k <= ts.len(),
            tv == toks_view(ts@),
            base == tv[i as int].indent,
            list_items(tv, kind, base as nat, i as int, Seq::empty()) == list_items(
                tv,
                kind,
                base as nat,
                k as int,
                acc,
            ),
            acc.len() >= 1,
            all_built_as(blocks_view(items@), acc.drop_last(), options.generate_id is None),
            built_as(last@, acc.last(), options.generate_id is None),
        ensures
            list_items(tv, kind, base as nat, k as int, acc) == (acc, k as int),
        decreases ts.len() - k,
    {
        let t = &ts[k];
        assert(tv[k as int] == t@);
        if t.token_type != kind || t.indent < base {
            break;
        }
        if t.indent > base {
            let (nested, j) = parse_list(ts, k, kind, options);
            let ghost w = list_block(tv, kind, k as int).0;
            let ghost l0 = acc.last();
            let ghost lv0 = last@;
            let ghost cs0 = last.children@;
            last.children.push(nested);
            proof {
                assert(last.children@ == cs0.push(nested));
                assert(last.children@.drop_last() =~= cs0);
                assert(last@ == BlockV { children: lv0.children.push(nested@), ..lv0 });
                lemma_built_with_child(lv0, l0, nested@, w, options.generate_id is None);
                let acc2 = acc.update(acc.len() - 1, BlockV { children: l0.children.push(w), ..l0 });
                assert(acc2.drop_last() =~= acc.drop_last());
                acc = acc2;
            }
            k = j;
        } else {
            let item = parse_item(t, options);
            let ghost iv0 = blocks_view(items@);
            let ghost lv = last@;
            items.push(last);
            proof {
                assert(blocks_view(items@) =~= iv0.push(lv));
                lemma_built_push(iv0, acc.drop_last(), lv, acc.last(), options.generate_id is None);
                assert(acc.drop_last().push(acc.last()) =~= acc);
                assert(acc.push(item_of(tv[k as int])).drop_last() =~= acc);
                acc = acc.push(item_of(tv[k as int]));
            }
            last = item;
            k += 1;
        }
    }
    let ghost iv0 = blocks_view(items@);
    let ghost lv = last@;
    items.push(last);
    proof {
        assert(blocks_view(items@) =~= iv0.push(lv));
        lemma_built_push(iv0, acc.drop_last(), lv, acc.last(), options.generate_id is None);
        assert(acc.drop_last().push(acc.last()) =~= acc);
    }
    let content: Vec<TextSpan> = Vec::new();
    assert(spans_view(content@) =~= Seq::<SpanV>::empty());
    let r = branch(options, list_type_exec(kind), content, BlockProps::Empty, items, Ghost(acc));
    (r, k)
}

// ============================================================================
// Whole token streams
// ============================================================================

/// The block at token `i` (none for a stray token) and where the next one
/// starts.
fn parse_block(ts: &Vec<Token>, i: usize, options: &MarkdownParseOptions) -> (r: (Option<Block>, usize))
    requires
        i < ts.len(),
    ensures
        r.1 == block_at(toks_view(ts@), i as int).1,
        i < r.1 <= ts.len(),
        match r.0 {
            Some(b) => block_at(toks_view(ts@), i as int).0 matches Some(w) && built_as(
                b@,
                w,
                options.generate_id is None,
            ),
            None => block_at(toks_view(ts@), i as int).0 is None,
        },
{
    let ghost tv = toks_view(ts@);
    assert(tv[i as int] == ts@[i as int]@);
    proof {
        lemma_run_end(tv, i + 1, TokenType::Paragraph);
        lemma_run_end(tv, i + 1, TokenType::Blockquote);
        lemma_run_end(tv, i + 1, TokenType::CodeContent);
    }
    let (b, j) = match ts[i].token_type {
        TokenType::Heading => parse_heading(ts, i, options),
        TokenType::Paragraph => parse_paragraph(ts, i, options),
        TokenType::BulletListItem => parse_list(ts, i, TokenType::BulletListItem, options),
        TokenType::NumberedListItem => parse_list(ts, i, TokenType::NumberedListItem, options),
        TokenType::CheckListItem => parse_check_list_item(ts, i, options),
        TokenType::CodeFenceStart => parse_code_block(ts, i, options),
        TokenType::Blockquote => parse_blockquote(ts, i, options),
        TokenType::Callout => parse_callout(ts, i, options),
        TokenType::Divider => parse_divider(i, options),
        TokenType::TableRow => parse_table(ts, i, options),
        TokenType::Image => parse_image(ts, i, options),
        _ => {
            return (None, i + 1);
        },
    };
    (Some(b), j)
}

fn parse_tokens(ts: &Vec<Token>, options: &MarkdownParseOptions) -> (r: Vec<Block>)
    ensures
        all_built_as(blocks_view(r@), parse_from(toks_view(ts@), 0), options.generate_id is None),
{
    let ghost tv = toks_view(ts@);
    let mut blocks: Vec<Block> = Vec::new();
    let mut i: usize = 0;
    let ghost mut acc: Seq<BlockV> = Seq::empty();
    assert(acc + parse_from(tv, 0) =~= parse_from(tv, 0));
    assert(blocks_view(blocks@) =~= Seq::<BlockV>::empty());
    assert(erase_all_ids(Seq::<BlockV>::empty()) =~= Seq::<BlockV>::empty());
    while i < ts.len()
        invariant
            i <= ts.len(),
            tv == toks_view(ts@),
            acc + parse_from(tv, i as int) == parse_from(tv, 0),
            all_built_as(blocks_view(blocks@), acc, options.generate_id is None),
        decreases ts.len() - i,
    {
        assert(tv[i as int] == ts@[i as int]@);
        if ts[i].token_type == TokenType::Blank {
            i += 1;
        } else {
            let ghost i0 = i as int;
            let (ob, j) = parse_block(ts, i, options);
            let ghost rest = parse_from(tv, j as int);
            match ob {
                Some(b) => {
                    let ghost w = block_at(tv, i0).0->0;
                    let ghost bv0 = blocks_view(blocks@);
                    let ghost bv = b@;
                    blocks.push(b);
                    proof {
                        assert(blocks_view(blocks@) =~= bv0.push(bv));
                        lemma_built_push(bv0, acc, bv, w, options.generate_id is None);
                        assert(acc.push(w) + rest =~= acc + (seq![w] + rest));
                        acc = acc.push(w);
                    }
                },
                None => {},
            }
            i = j;
        }
    }
    assert(parse_from(tv, i as int) =~= Seq::<BlockV>::empty());
    assert(acc + Seq::<BlockV>::empty() =~= acc);
    blocks
}

// ============================================================================
// Public entry points
// ============================================================================

/// Parses a markdown string into a flat vec of top-level blocks.
pub fn markdown_to_blocks(markdown: &str, options: &MarkdownParseOptions) -> (r: Vec<Block>)
    ensures
        erase_all_ids(blocks_view(r@)) == md_blocks(markdown@),
        options.generate_id is None ==> all_ids_generated(blocks_view(r@)),
{
    let tokens = tokenize(markdown);
    parse_tokens(&tokens, options)
}

/// Parses a markdown string into a [`Document`] whose metadata is stamped
/// with the current time.
pub fn markdown_to_document(markdown: &str, options: &MarkdownParseOptions) -> (r: Document)
    ensures
        erase_all_ids(r@.blocks) == md_blocks(markdown@),
        options.generate_id is None ==> all_ids_generated(r@.blocks),
        r@.version == crate::markdown::document::DOCUMENT_VERSION,
        r@.meta.updated_at matches Some(now) && crate::markdown::clock::is_timestamp(now)
            && r@.meta == (crate::markdown::types::MetaV {
            created_at: Some(now),
            updated_at: Some(now),
            ..crate::markdown::types::empty_meta()
        }),
{
    let blocks = markdown_to_blocks(markdown, options);
    create_document(&blocks, DocumentOptions::default())
}

/// Parses with default options: every block gets a fresh identifier.
pub fn parse(markdown: &str) -> (r: Vec<Block>)
    ensures
        erase_all_ids(blocks_view(r@)) == md_blocks(markdown@),
        all_ids_generated(blocks_view(r@)),
{
    markdown_to_blocks(markdown, &MarkdownParseOptions::default())
}

/// Parses a single line of inline markdown to spans.
pub fn parse_inline_content(text: &str) -> (r: Vec<TextSpan>)
    ensures
        spans_view(r@) == inline_spans(text@),
{
    parse_inline(text)
}


/// The kind of a callout survives writing and reading: the label the
/// serializer writes for each kind reads back as that kind, so different
/// kinds get different labels.
pub proof fn law_callout_label_round_trip(k: CalloutType)
    ensures
        callout_kind(crate::markdown::serializer::callout_label(k)) == k,
        forall|j: CalloutType| j != k ==> crate::markdown::serializer::callout_label(j)
            != crate::markdown::serializer::callout_label(k),
{
    assert forall|j: CalloutType| j != k implies crate::markdown::serializer::callout_label(j)
        != crate::markdown::serializer::callout_label(k) by {
        if crate::markdown::serializer::callout_label(j) == crate::markdown::serializer::callout_label(k) {
            lemma_callout_kind_of_label(j);
            lemma_callout_kind_of_label(k);
        }
    }
    lemma_callout_kind_of_label(k);
}

proof fn lemma_callout_kind_of_label(k: CalloutType)
    ensures
        callout_kind(crate::markdown::serializer::callout_label(k)) == k,
{
    let l = crate::markdown::serializer::callout_label(k);
    assert(lower_seq(l) =~= l.map_values(|c: char| crate::text::ascii_lower(c)));
    match k {
        CalloutType::Info => {
            assert(lower_seq(l) =~= seq!['i', 'n', 'f', 'o']);
        },
        CalloutType::Warning => {
            assert(lower_seq(l) =~= seq!['w', 'a', 'r', 'n', 'i', 'n', 'g']);
        },
        CalloutType::Tip => {
            assert(lower_seq(l) =~= seq!['t', 'i', 'p']);
        },
        CalloutType::Danger => {
            assert(lower_seq(l) =~= seq!['d', 'a', 'n', 'g', 'e', 'r']);
        },
        CalloutType::Note => {
            assert(lower_seq(l) =~= seq!['n', 'o', 't', 'e']);
            assert(lower_seq(l) != seq!['i', 'n', 'f', 'o']);
            assert(lower_seq(l) != seq!['t', 'i', 'p']);
        },
    }
}

/// Reading a callout's label ignores its case: `tip`, `Tip` and `TIP` are
/// all a tip, and likewise for info, warning and danger.
pub proof fn law_callout_kind_ignores_case(s: Seq<char>)
    ensures
        callout_kind(lower_seq(s)) == callout_kind(s),
{
    assert(lower_seq(lower_seq(s)) =~= lower_seq(s)) by {
        assert forall|i: int| 0 <= i < s.len() implies crate::text::ascii_lower(
            crate::text::ascii_lower(s[i]),
        ) == crate::text::ascii_lower(s[i]) by {
            if 'A' <= s[i] && s[i] <= 'Z' {
                assert((s[i] as u32) + 32 < 128);
            }
        }
    }
}

/// A callout's label, read without regard to case, names its kind: `tip`
/// is a tip, `info` an info, `warning` a warning, `danger` a danger, and
/// every other label a note.
pub proof fn law_callout_kind_by_label(s: Seq<char>)
    ensures
        callout_kind(s) == CalloutType::Tip <==> lower_seq(s) == "tip"@,
        callout_kind(s) == CalloutType::Info <==> lower_seq(s) == "info"@,
        callout_kind(s) == CalloutType::Warning <==> lower_seq(s) == "warning"@,
        callout_kind(s) == CalloutType::Danger <==> lower_seq(s) == "danger"@,
        callout_kind(s) == CalloutType::Note <==> (lower_seq(s) != "tip"@ && lower_seq(s) != "info"@
            && lower_seq(s) != "warning"@ && lower_seq(s) != "danger"@),
{
    reveal_strlit("tip");
    reveal_strlit("info");
    reveal_strlit("warning");
    reveal_strlit("danger");
    assert("tip"@ =~= seq!['t', 'i', 'p']);
    assert("info"@ =~= seq!['i', 'n', 'f', 'o']);
    assert("warning"@ =~= seq!['w', 'a', 'r', 'n', 'i', 'n', 'g']);
    assert("danger"@ =~= seq!['d', 'a', 'n', 'g', 'e', 'r']);
}

/// The serializer writes each kind's name in capitals: `NOTE`, `TIP`,
/// `INFO`, `WARNING` and `DANGER`.
pub proof fn law_callout_labels_are_kind_names()
    ensures
        crate::markdown::serializer::callout_label(CalloutType::Note) == "NOTE"@,
        crate::markdown::serializer::callout_label(CalloutType::Tip) == "TIP"@,
        crate::markdown::serializer::callout_label(CalloutType::Info) == "INFO"@,
        crate::markdown::serializer::callout_label(CalloutType::Warning) == "WARNING"@,
        crate::markdown::serializer::callout_label(CalloutType::Danger) == "DANGER"@,
{
    reveal_strlit("NOTE");
    reveal_strlit("TIP");
    reveal_strlit("INFO");
    reveal_strlit("WARNING");
    reveal_strlit("DANGER");
}

} // verus!
