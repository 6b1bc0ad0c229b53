//! Markdown serializer: blocks back to a markdown string, following
//! [`MarkdownSerializeOptions`] for line endings, list indent, heading
//! style, code block style, bullet character and emphasis character.

use vstd::prelude::*;
use crate::markdown::clock::{digits, digits_into};
use crate::markdown::types::{Block, BlockProps, BlockType, BlockV, CalloutType, CodeBlockStyle, Document, HeadingStyle, InlineStyle, LinkV, MarkdownSerializeOptions, PropsV, SpanV, StyleV, TableAlignment, TextSpan, blocks_view, bullet_of, default_serialize_options, emphasis_of, lemma_blocks_view_seq, line_ending_seq, spans_view, strs};
use crate::markdown::utils::{escape_fences, escape_fences_vec, plain_text, spans_plain_vec};
use crate::text::{
    append, chars_of, chars_of_string, join, join_vec, repeat, repeat_vec, split, split_vec,
    string_of,
};

verus! {

// ============================================================================
// Specification: spans
// ============================================================================

pub open spec fn le_of(o: MarkdownSerializeOptions) -> Seq<char> {
    line_ending_seq(o.line_ending)
}

/// Length of the current and of the longest run of backticks in `s`.
pub open spec fn backtick_runs(s: Seq<char>) -> (nat, nat)
    decreases s.len(),
{
    if s.len() == 0 {
        (0, 0)
    } else {
        let (cur, best) = backtick_runs(s.drop_last());
        if s.last() == '`' {
            let c = cur + 1;
            (c, if c > best {
                c
            } else {
                best
            })
        } else {
            (0, best)
        }
    }
}

/// Inline code: a delimiter one backtick longer than the longest run inside,
/// padded with spaces when the text starts or ends with a backtick.
pub open spec fn code_wrap(t: Seq<char>) -> Seq<char> {
    let d = repeat('`', backtick_runs(t).1 + 1);
    let sp = if t.len() > 0 && (t[0] == '`' || t.last() == '`') {
        seq![' ']
    } else {
        Seq::empty()
    };
    d + sp + t + sp + d
}

pub open spec fn has_styles(st: StyleV) -> bool {
    st.bold || st.italic || st.underline || st.strikethrough || st.code || st.highlight
        || st.link is Some
}

pub open spec fn around(open: Seq<char>, t: Seq<char>, close: Seq<char>) -> Seq<char> {
    open + t + close
}

/// Code, highlight and strikethrough markers around `t`.
pub open spec fn marked(t: Seq<char>, st: StyleV) -> Seq<char> {
    let t1 = if st.code {
        code_wrap(t)
    } else {
        t
    };
    let t2 = if st.highlight {
        around(seq!['=', '='], t1, seq!['=', '='])
    } else {
        t1
    };
    if st.strikethrough {
        around(seq!['~', '~'], t2, seq!['~', '~'])
    } else {
        t2
    }
}

/// Emphasis with marker `c` (three for bold italic, two for bold, one for
/// italic), then underline.
pub open spec fn emphasized(t: Seq<char>, st: StyleV, c: char) -> Seq<char> {
    let t4 = if st.bold && st.italic {
        around(repeat(c, 3), t, repeat(c, 3))
    } else if st.italic {
        around(seq![c], t, seq![c])
    } else if st.bold {
        around(repeat(c, 2), t, repeat(c, 2))
    } else {
        t
    };
    if st.underline {
        around(seq!['<', 'u', '>'], t4, seq!['<', '/', 'u', '>'])
    } else {
        t4
    }
}

/// `[t](url)` or `[t](url "title")`.
pub open spec fn linked(t: Seq<char>, link: Option<LinkV>) -> Seq<char> {
    match link {
        Some(l) => match l.title {
            Some(ti) => seq!['['] + t + seq![']', '('] + l.url + seq![' ', '"'] + ti + seq!['"', ')'],
            None => seq!['['] + t + seq![']', '('] + l.url + seq![')'],
        },
        None => t,
    }
}

/// A span with its styles applied inside out: code, highlight,
/// strikethrough, emphasis, underline, link.
pub open spec fn ser_span(sp: SpanV, o: MarkdownSerializeOptions) -> Seq<char> {
    if !has_styles(sp.styles) {
        sp.text
    } else {
        linked(
            emphasized(marked(sp.text, sp.styles), sp.styles, emphasis_of(o.emphasis_char)),
            sp.styles.link,
        )
    }
}

/// The spans one after the other.
pub open spec fn ser_inline(spans: Seq<SpanV>, o: MarkdownSerializeOptions) -> Seq<char>
    decreases spans.len(),
{
    if spans.len() == 0 {
        Seq::empty()
    } else {
        ser_inline(spans.drop_last(), o) + ser_span(spans.last(), o)
    }
}

// ============================================================================
// Specification: blocks
// ============================================================================

pub open spec fn heading_level(p: PropsV) -> u8 {
    match p {
        PropsV::Heading(l) => l,
        _ => 1,
    }
}

/// ATX (`## text`), or Setext (text underlined with `=` or `-` as long as
/// the text) for levels 1 and 2 when that style is chosen.
pub open spec fn ser_heading(b: BlockV, o: MarkdownSerializeOptions) -> Seq<char> {
    let level = heading_level(b.props);
    let c = ser_inline(b.content, o);
    if o.heading_style == HeadingStyle::Setext && (level == 1 || level == 2) {
        c + le_of(o) + repeat(
            if level == 1 {
                '='
            } else {
                '-'
            },
            c.len(),
        )
    } else {
        repeat('#', level as nat) + seq![' '] + c
    }
}

pub open spec fn pad(depth: nat, o: MarkdownSerializeOptions) -> Seq<char> {
    repeat(' ', depth * (o.list_indent as nat))
}

/// `- ` (with the chosen bullet) or `n. ` after the indentation.
pub open spec fn item_prefix(depth: nat, o: MarkdownSerializeOptions, numbered: bool, n: nat) -> Seq<
    char,
> {
    if numbered {
        pad(depth, o) + digits(n) + seq!['.', ' ']
    } else {
        pad(depth, o) + seq![bullet_of(o.bullet_char), ' ']
    }
}

/// One line per list item (an item with children spans several lines).
pub open spec fn item_lines(
    items: Seq<BlockV>,
    depth: nat,
    o: MarkdownSerializeOptions,
    numbered: bool,
) -> Seq<Seq<char>>
    decreases items,
{
    if items.len() == 0 {
        Seq::empty()
    } else {
        item_lines(items.drop_last(), depth, o, numbered).push(
            item_prefix(depth, o, numbered, items.len()) + item_text(items.last(), depth, o),
        )
    }
}

/// A list item's text; its children follow on their own lines, one level
/// deeper.
pub open spec fn item_text(item: BlockV, depth: nat, o: MarkdownSerializeOptions) -> Seq<char>
    decreases item,
{
    let c = ser_inline(item.content, o);
    if item.children.len() > 0 {
        c + le_of(o) + join(child_texts(item.children, depth + 1, o), le_of(o))
    } else {
        c
    }
}

pub open spec fn child_texts(cs: Seq<BlockV>, depth: nat, o: MarkdownSerializeOptions) -> Seq<
    Seq<char>,
>
    decreases cs,
{
    if cs.len() == 0 {
        Seq::empty()
    } else {
        child_texts(cs.drop_last(), depth, o).push(ser_block(cs.last(), depth, o))
    }
}

pub open spec fn is_checked(p: PropsV) -> bool {
    match p {
        PropsV::CheckList(c) => c,
        _ => false,
    }
}

pub open spec fn ser_check(b: BlockV, depth: nat, o: MarkdownSerializeOptions) -> Seq<char> {
    pad(depth, o) + seq!['-', ' ', '['] + seq![
        if is_checked(b.props) {
            'x'
        } else {
            ' '
        },
    ] + seq![']', ' '] + ser_inline(b.content, o)
}

pub open spec fn prefix_all(prefix: Seq<char>, lines: Seq<Seq<char>>) -> Seq<Seq<char>> {
    lines.map_values(|l: Seq<char>| prefix + l)
}

pub open spec fn code_language(p: PropsV) -> Seq<char> {
    match p {
        PropsV::CodeBlock(Some(l)) => l,
        _ => Seq::empty(),
    }
}

/// Indented: every line after four spaces. Fenced: between ``` fences,
/// with ``` inside escaped.
pub open spec fn ser_code(b: BlockV, o: MarkdownSerializeOptions) -> Seq<char> {
    let code = plain_text(b.content);
    if o.code_block_style == CodeBlockStyle::Indented {
        join(prefix_all(seq![' ', ' ', ' ', ' '], split(code, '\n')), le_of(o))
    } else {
        seq!['`', '`', '`'] + code_language(b.props) + le_of(o) + escape_fences(code) + le_of(o)
            + seq!['`', '`', '`']
    }
}

pub open spec fn ser_quote(b: BlockV, o: MarkdownSerializeOptions) -> Seq<char> {
    join(prefix_all(seq!['>', ' '], split(ser_inline(b.content, o), '\n')), le_of(o))
}

pub open spec fn ser_image(b: BlockV) -> Seq<char> {
    let (url, alt, title) = match b.props {
        PropsV::Image { url, alt, title, .. } => (
            url,
            match alt {
                Some(a) => a,
                None => Seq::empty(),
            },
            title,
        ),
        _ => (Seq::empty(), Seq::empty(), None),
    };
    match title {
        Some(t) => seq!['!', '['] + alt + seq![']', '('] + url + seq![' ', '"'] + t + seq!['"', ')'],
        None => seq!['!', '['] + alt + seq![']', '('] + url + seq![')'],
    }
}

pub open spec fn callout_label(c: CalloutType) -> Seq<char> {
    match c {
        CalloutType::Info => seq!['I', 'N', 'F', 'O'],
        CalloutType::Warning => seq!['W', 'A', 'R', 'N', 'I', 'N', 'G'],
        CalloutType::Tip => seq!['T', 'I', 'P'],
        CalloutType::Danger => seq!['D', 'A', 'N', 'G', 'E', 'R'],
        CalloutType::Note => seq!['N', 'O', 'T', 'E'],
    }
}

/// `> [!KIND]` and the content, every line after `> `.
pub open spec fn ser_callout(b: BlockV, o: MarkdownSerializeOptions) -> Seq<char> {
    let kind = match b.props {
        PropsV::Callout(c) => callout_label(c),
        _ => seq!['I', 'N', 'F', 'O'],
    };
    let body = join(split(ser_inline(b.content, o), '\n'), le_of(o) + seq!['>', ' ']);
    seq!['>', ' ', '[', '!'] + kind + seq![']'] + le_of(o) + seq!['>', ' '] + body
}

// ----------------------------------------------------------------------------
// Tables
// ----------------------------------------------------------------------------

pub open spec fn max_nat(a: nat, b: nat) -> nat {
    if a >= b {
        a
    } else {
        b
    }
}

pub open spec fn cell_len(row: Seq<Seq<char>>, i: int) -> nat {
    if 0 <= i < row.len() {
        row[i].len()
    } else {
        0
    }
}

/// The longest cell of column `i` over the rows.
pub open spec fn column_max(rows: Seq<Seq<Seq<char>>>, i: int) -> nat
    decreases rows.len(),
{
    if rows.len() == 0 {
        0
    } else {
        max_nat(column_max(rows.drop_last(), i), cell_len(rows.last(), i))
    }
}

/// Column width: the longest of header and cells, at least three.
pub open spec fn column_width(headers: Seq<Seq<char>>, rows: Seq<Seq<Seq<char>>>, i: int) -> nat {
    max_nat(max_nat(headers[i].len(), column_max(rows, i)), 3)
}

pub open spec fn pad_right(s: Seq<char>, width: nat) -> Seq<char> {
    if s.len() >= width {
        s
    } else {
        s + repeat(' ', (width - s.len()) as nat)
    }
}

pub open spec fn alignment_at(a: Option<Seq<Option<TableAlignment>>>, i: int) -> Option<
    TableAlignment,
> {
    match a {
        Some(v) => if 0 <= i < v.len() {
            v[i]
        } else {
            None
        },
        None => None,
    }
}

pub open spec fn sep_cell(width: nat, a: Option<TableAlignment>) -> Seq<char> {
    let w1: nat = if width >= 1 {
        (width - 1) as nat
    } else {
        0
    };
    let w2: nat = if width >= 2 {
        (width - 2) as nat
    } else {
        0
    };
    match a {
        Some(TableAlignment::Left) => seq![':'] + repeat('-', w1),
        Some(TableAlignment::Right) => repeat('-', w1) + seq![':'],
        Some(TableAlignment::Center) => seq![':'] + repeat('-', w2) + seq![':'],
        None => repeat('-', width),
    }
}

pub open spec fn bar() -> Seq<char> {
    seq![' ', '|', ' ']
}

pub open spec fn table_line(inner: Seq<char>) -> Seq<char> {
    seq!['|', ' '] + inner + seq![' ', '|']
}

pub open spec fn header_cells(headers: Seq<Seq<char>>, rows: Seq<Seq<Seq<char>>>) -> Seq<Seq<char>> {
    Seq::new(headers.len(), |i: int| pad_right(headers[i], column_width(headers, rows, i)))
}

pub open spec fn sep_cells(
    headers: Seq<Seq<char>>,
    rows: Seq<Seq<Seq<char>>>,
    a: Option<Seq<Option<TableAlignment>>>,
) -> Seq<Seq<char>> {
    Seq::new(headers.len(), |i: int| sep_cell(column_width(headers, rows, i), alignment_at(a, i)))
}

/// Cells beyond the header columns are padded to three.
pub open spec fn data_cells(headers: Seq<Seq<char>>, rows: Seq<Seq<Seq<char>>>, row: Seq<Seq<char>>) -> Seq<Seq<char>> {
    Seq::new(
        row.len(),
        |i: int|
            pad_right(
                row[i],
                if i < headers.len() {
                    column_width(headers, rows, i)
                } else {
                    3
                },
            ),
    )
}

pub open spec fn table_lines(
    headers: Seq<Seq<char>>,
    rows: Seq<Seq<Seq<char>>>,
    a: Option<Seq<Option<TableAlignment>>>,
) -> Seq<Seq<char>> {
    seq![
        table_line(join(header_cells(headers, rows), bar())),
        table_line(join(sep_cells(headers, rows, a), bar())),
    ] + rows.map_values(|r: Seq<Seq<char>>| table_line(join(data_cells(headers, rows, r), bar())))
}

pub open spec fn ser_table(b: BlockV, o: MarkdownSerializeOptions) -> Seq<char> {
    match b.props {
        PropsV::Table { headers, rows, alignments } => join(
            table_lines(headers, rows, alignments),
            le_of(o),
        ),
        _ => join(table_lines(Seq::empty(), Seq::empty(), None), le_of(o)),
    }
}

// ----------------------------------------------------------------------------
// Blocks
// ----------------------------------------------------------------------------

/// A block at list nesting `depth`.
pub open spec fn ser_block(b: BlockV, depth: nat, o: MarkdownSerializeOptions) -> Seq<char>
    decreases b,
{
    match b.block_type {
        BlockType::Paragraph => ser_inline(b.content, o),
        BlockType::Heading => ser_heading(b, o),
        BlockType::BulletList => join(item_lines(b.children, depth, o, false), le_of(o)),
        BlockType::NumberedList => join(item_lines(b.children, depth, o, true), le_of(o)),
        BlockType::CheckList => ser_check(b, depth, o),
        BlockType::CodeBlock => ser_code(b, o),
        BlockType::Blockquote => ser_quote(b, o),
        BlockType::Table => ser_table(b, o),
        BlockType::Image => ser_image(b),
        BlockType::Divider => seq!['-', '-', '-'],
        BlockType::Callout => ser_callout(b, o),
    }
}

/// Top-level blocks, separated by a blank line.
pub open spec fn ser_blocks(bs: Seq<BlockV>, o: MarkdownSerializeOptions) -> Seq<char> {
    join(Seq::new(bs.len(), |i: int| ser_block(bs[i], 0, o)), le_of(o) + le_of(o))
}

// ----------------------------------------------------------------------------
// Where the list indentation fits in a `usize`
// ----------------------------------------------------------------------------

pub open spec fn uses_pad(t: BlockType) -> bool {
    t == BlockType::BulletList || t == BlockType::NumberedList || t == BlockType::CheckList
}

pub open spec fn is_list(t: BlockType) -> bool {
    t == BlockType::BulletList || t == BlockType::NumberedList
}

/// Every indentation that serializing `b` at `depth` computes fits in a
/// `usize`.
pub open spec fn pad_fits(b: BlockV, depth: nat, ind: nat) -> bool
    decreases b,
{
    &&& uses_pad(b.block_type) ==> depth * ind <= usize::MAX
    &&& is_list(b.block_type) ==> items_fit(b.children, depth, ind)
}

pub open spec fn items_fit(items: Seq<BlockV>, depth: nat, ind: nat) -> bool
    decreases items,
{
    items.len() == 0 || (items_fit(items.drop_last(), depth, ind) && (items.last().children.len()
        > 0 ==> depth + 1 <= usize::MAX) && all_fit(items.last().children, depth + 1, ind))
}

pub open spec fn all_fit(cs: Seq<BlockV>, depth: nat, ind: nat) -> bool
    decreases cs,
{
    cs.len() == 0 || (all_fit(cs.drop_last(), depth, ind) && pad_fits(cs.last(), depth, ind))
}

// ============================================================================
// Spans
// ============================================================================

fn push_chars(out: &mut Vec<char>, cs: &[char])
    ensures
        final(out)@ == old(out)@ + cs@,
{
    let mut i: usize = 0;
    while i < cs.len()
        invariant
            i <= cs.len(),
            out@ == old(out)@ + cs@.take(i as int),
        decreases cs.len() - i,
    {
        out.push(cs[i]);
        i += 1;
        assert(out@ =~= old(out)@ + cs@.take(i as int));
    }
    assert(cs@.take(cs.len() as int) =~= cs@);
}

fn wrap(open: &[char], t: Vec<char>, close: &[char]) -> (r: Vec<char>)
    ensures
        r@ == around(open@, t@, close@),
{
    let mut r: Vec<char> = Vec::new();
    push_chars(&mut r, open);
    append(&mut r, &t);
    push_chars(&mut r, close);
    assert(r@ =~= around(open@, t@, close@));
    r
}

fn longest_backtick_run(t: &Vec<char>) -> (r: usize)
    ensures
        r == backtick_runs(t@).1,
{
    let mut cur: usize = 0;
    let mut best: usize = 0;
    let mut i: usize = 0;
    while i < t.len()
        invariant
            i <= t.len(),
            cur <= i,
            best <= i,
            (cur as nat, best as nat) == backtick_runs(t@.take(i as int)),
        decreases t.len() - i,
    {
        assert(t@.take(i + 1).drop_last() =~= t@.take(i as int));
        if t[i] == '`' {
            cur += 1;
            if cur > best {
                best = cur;
            }
        } else {
            cur = 0;
        }
        i += 1;
    }
    assert(t@.take(t.len() as int) =~= t@);
    best
}

fn code_wrap_exec(t: Vec<char>) -> (r: Vec<char>)
    ensures
        r@ == code_wrap(t@),
{
    let n = longest_backtick_run(&t);
    proof {
        lemma_backtick_runs_bound(t@);
    }
    let mut d = repeat_vec('`', n);
    d.push('`');
    assert(d@ =~= repeat('`', (n + 1) as nat));
    let spaced = t.len() > 0 && (t[0] == '`' || t[t.len() - 1] == '`');
    let mut r: Vec<char> = Vec::new();
    append(&mut r, &d);
    if spaced {
        r.push(' ');
    }
    append(&mut r, &t);
    if spaced {
        r.push(' ');
    }
    append(&mut r, &d);
    let ghost sp = if spaced {
        seq![' ']
    } else {
        Seq::<char>::empty()
    };
    assert(r@ =~= d@ + sp + t@ + sp + d@);
    r
}

pub proof fn lemma_backtick_runs_bound(s: Seq<char>)
    ensures
        backtick_runs(s).0 <= backtick_runs(s).1 <= s.len(),
    decreases s.len(),
{
    if s.len() > 0 {
        lemma_backtick_runs_bound(s.drop_last());
    }
}

fn marked_exec(t: Vec<char>, st: &InlineStyle) -> (r: Vec<char>)
    ensures
        r@ == marked(t@, st@),
{
    let t1 = if st.code {
        code_wrap_exec(t)
    } else {
        t
    };
    let t2 = if st.highlight {
        wrap(&['=', '='], t1, &['=', '='])
    } else {
        t1
    };
    if st.strikethrough {
        wrap(&['~', '~'], t2, &['~', '~'])
    } else {
        t2
    }
}

fn emphasized_exec(t: Vec<char>, st: &InlineStyle, c: char) -> (r: Vec<char>)
    ensures
        r@ == emphasized(t@, st@, c),
{
    let t4 = if st.bold && st.italic {
        let r = wrap(&[c, c, c], t, &[c, c, c]);
        assert(seq![c, c, c] =~= repeat(c, 3));
        r
    } else if st.italic {
        wrap(&[c], t, &[c])
    } else if st.bold {
        let r = wrap(&[c, c], t, &[c, c]);
        assert(seq![c, c] =~= repeat(c, 2));
        r
    } else {
        t
    };
    if st.underline {
        wrap(&['<', 'u', '>'], t4, &['<', '/', 'u', '>'])
    } else {
        t4
    }
}

fn linked_exec(t: Vec<char>, st: &InlineStyle) -> (r: Vec<char>)
    ensures
        r@ == linked(t@, st@.link),
{
    match &st.link {
        Some(l) => {
            let url = chars_of_string(&l.url);
            let mut r: Vec<char> = Vec::new();
            r.push('[');
            append(&mut r, &t);
            r.push(']');
            r.push('(');
            append(&mut r, &url);
            match &l.title {
                Some(ti) => {
                    let tv = chars_of_string(ti);
                    r.push(' ');
                    r.push('"');
                    append(&mut r, &tv);
                    r.push('"');
                    r.push(')');
                    assert(r@ =~= seq!['['] + t@ + seq![']', '('] + url@ + seq![' ', '"'] + tv@
                        + seq!['"', ')']);
                },
                None => {
                    r.push(')');
                    assert(r@ =~= seq!['['] + t@ + seq![']', '('] + url@ + seq![')']);
                },
            }
            r
        },
        None => t,
    }
}

/// Serialize a single [`TextSpan`] with its styles, applied inside out:
/// code innermost, link outermost.
pub fn serialize_span(span: &TextSpan, options: &MarkdownSerializeOptions) -> (r: String)
    ensures
        r@ == ser_span(span@, *options),
{
    let st = &span.styles;
    let t0 = chars_of_string(&span.text);
    if !(st.bold || st.italic || st.underline || st.strikethrough || st.code || st.highlight
        || st.link.is_some()) {
        return string_of(&t0);
    }
    let t3 = marked_exec(t0, st);
    let t5 = emphasized_exec(t3, st, options.emphasis_char.as_char());
    let t6 = linked_exec(t5, st);
    string_of(&t6)
}

fn inline_chars(spans: &[TextSpan], options: &MarkdownSerializeOptions) -> (r: Vec<char>)
    ensures
        r@ == ser_inline(spans_view(spans@), *options),
{
    let mut out: Vec<char> = Vec::new();
    let mut i: usize = 0;
    while i < spans.len()
        invariant
            i <= spans@.len(),
            out@ == ser_inline(spans_view(spans@.take(i as int)), *options),
        decreases spans@.len() - i,
    {
        let s = serialize_span(&spans[i], options);
        let sv = chars_of_string(&s);
        append(&mut out, &sv);
        assert(spans_view(spans@.take(i + 1)).drop_last() =~= spans_view(spans@.take(i as int)));
        i += 1;
    }
    assert(spans@.take(spans@.len() as int) =~= spans@);
    out
}

/// Serialize a slice of [`TextSpan`]s to markdown.
pub fn serialize_inline_content(spans: &[TextSpan], options: &MarkdownSerializeOptions) -> (r: String)
    ensures
        r@ == ser_inline(spans_view(spans@), *options),
{
    let v = inline_chars(spans, options);
    string_of(&v)
}

// ============================================================================
// Leaf blocks
// ============================================================================

pub open spec fn lines_view(v: Seq<Vec<char>>) -> Seq<Seq<char>> {
    v.map_values(|x: Vec<char>| x@)
}

fn le_vec(options: &MarkdownSerializeOptions) -> (r: Vec<char>)
    ensures
        r@ == le_of(*options),
{
    chars_of(options.line_ending.as_str())
}

fn prefix_lines(prefix: &Vec<char>, lines: &Vec<Vec<char>>) -> (r: Vec<Vec<char>>)
    ensures
        lines_view(r@) == prefix_all(prefix@, lines_view(lines@)),
{
    let mut r: Vec<Vec<char>> = Vec::new();
    let mut i: usize = 0;
    while i < lines.len()
        invariant
            i <= lines.len(),
            lines_view(r@) == prefix_all(prefix@, lines_view(lines@)).take(i as int),
        decreases lines.len() - i,
    {
        let mut l = prefix.clone();
        append(&mut l, &lines[i]);
        let ghost r0 = lines_view(r@);
        r.push(l);
        assert(lines_view(r@) =~= r0.push(prefix@ + lines@[i as int]@));
        i += 1;
        assert(prefix_all(prefix@, lines_view(lines@)).take(i as int) =~= r0.push(
            prefix@ + lines@[i - 1]@,
        ));
    }
    assert(prefix_all(prefix@, lines_view(lines@)).take(lines.len() as int) =~= prefix_all(
        prefix@,
        lines_view(lines@),
    ));
    r
}

fn serialize_heading(b: &Block, options: &MarkdownSerializeOptions) -> (r: Vec<char>)
    ensures
        r@ == ser_heading(b@, *options),
{
    let level: u8 = match &b.props {
        BlockProps::Heading(p) => p.level,
        _ => 1,
    };
    let c = inline_chars(b.content.as_slice(), options);
    if options.heading_style == HeadingStyle::Setext && (level == 1 || level == 2) {
        let under = if level == 1 {
            '='
        } else {
            '-'
        };
        let mut r = c.clone();
        append(&mut r, &le_vec(options));
        append(&mut r, &repeat_vec(under, c.len()));
        r
    } else {
        let mut r = repeat_vec('#', level as usize);
        r.push(' ');
        append(&mut r, &c);
        assert(r@ =~= repeat('#', level as nat) + seq![' '] + c@);
        r
    }
}

fn pad_exec(depth: usize, options: &MarkdownSerializeOptions) -> (r: Vec<char>)
    requires
        depth * options.list_indent <= usize::MAX,
    ensures
        r@ == pad(depth as nat, *options),
{
    repeat_vec(' ', depth * options.list_indent)
}

fn serialize_check_list(b: &Block, depth: usize, options: &MarkdownSerializeOptions) -> (r: Vec<char>)
    requires
        depth * options.list_indent <= usize::MAX,
    ensures
        r@ == ser_check(b@, depth as nat, *options),
{
    let checked = match &b.props {
        BlockProps::CheckList(p) => p.checked,
        _ => false,
    };
    let mut r = pad_exec(depth, options);
    r.push('-');
    r.push(' ');
    r.push('[');
    r.push(
        if checked {
            'x'
        } else {
            ' '
        },
    );
    r.push(']');
    r.push(' ');
    let c = inline_chars(b.content.as_slice(), options);
    append(&mut r, &c);
    assert(r@ =~= ser_check(b@, depth as nat, *options));
    r
}

fn serialize_code_block(b: &Block, options: &MarkdownSerializeOptions) -> (r: Vec<char>)
    ensures
        r@ == ser_code(b@, *options),
{
    let code = spans_plain_vec(b.content.as_slice());
    let le = le_vec(options);
    if options.code_block_style == CodeBlockStyle::Indented {
        let lines = split_vec(&code, '\n');
        let mut four: Vec<char> = Vec::new();
        four.push(' ');
        four.push(' ');
        four.push(' ');
        four.push(' ');
        assert(four@ =~= seq![' ', ' ', ' ', ' ']);
        let pre = prefix_lines(&four, &lines);
        return join_vec(&pre, &le);
    }
    let lang: Vec<char> = match &b.props {
        BlockProps::CodeBlock(p) => match &p.language {
            Some(l) => chars_of_string(l),
            None => Vec::new(),
        },
        _ => Vec::new(),
    };
    let mut r: Vec<char> = Vec::new();
    r.push('`');
    r.push('`');
    r.push('`');
    append(&mut r, &lang);
    append(&mut r, &le);
    append(&mut r, &escape_fences_vec(&code));
    append(&mut r, &le);
    r.push('`');
    r.push('`');
    r.push('`');
    assert(r@ =~= ser_code(b@, *options));
    r
}

fn serialize_blockquote(b: &Block, options: &MarkdownSerializeOptions) -> (r: Vec<char>)
    ensures
        r@ == ser_quote(b@, *options),
{
    let c = inline_chars(b.content.as_slice(), options);
    let lines = split_vec(&c, '\n');
    let mut pre: Vec<char> = Vec::new();
    pre.push('>');
    pre.push(' ');
    assert(pre@ =~= seq!['>', ' ']);
    let ls = prefix_lines(&pre, &lines);
    join_vec(&ls, &le_vec(options))
}

fn serialize_image(b: &Block) -> (r: Vec<char>)
    ensures
        r@ == ser_image(b@),
{
    let (url, alt, title): (Vec<char>, Vec<char>, Option<Vec<char>>) = match &b.props {
        BlockProps::Image(p) => (
            chars_of_string(&p.url),
            match &p.alt {
                Some(a) => chars_of_string(a),
                None => Vec::new(),
            },
            match &p.title {
                Some(t) => Some(chars_of_string(t)),
                None => None,
            },
        ),
        _ => (Vec::new(), Vec::new(), None),
    };
    let mut r: Vec<char> = Vec::new();
    r.push('!');
    r.push('[');
    append(&mut r, &alt);
    r.push(']');
    r.push('(');
    append(&mut r, &url);
    match &title {
        Some(t) => {
            r.push(' ');
            r.push('"');
            append(&mut r, t);
            r.push('"');
            r.push(')');
        },
        None => {
            r.push(')');
        },
    }
    assert(r@ =~= ser_image(b@));
    r
}

fn callout_label_exec(c: CalloutType) -> (r: Vec<char>)
    ensures
        r@ == callout_label(c),
{
    let mut r: Vec<char> = Vec::new();
    match c {
        CalloutType::Info => {
            r.push('I');
            r.push('N');
            r.push('F');
            r.push('O');
        },
        CalloutType::Warning => {
            r.push('W');
            r.push('A');
            r.push('R');
            r.push('N');
            r.push('I');
            r.push('N');
            r.push('G');
        },
        CalloutType::Tip => {
            r.push('T');
            r.push('I');
            r.push('P');
        },
        CalloutType::Danger => {
            r.push('D');
            r.push('A');
            r.push('N');
            r.push('G');
            r.push('E');
            r.push('R');
        },
        CalloutType::Note => {
            r.push('N');
            r.push('O');
            r.push('T');
            r.push('E');
        },
    }
    assert(r@ =~= callout_label(c));
    r
}

fn serialize_callout(b: &Block, options: &MarkdownSerializeOptions) -> (r: Vec<char>)
    ensures
        r@ == ser_callout(b@, *options),
{
    let kind = match &b.props {
        BlockProps::Callout(p) => callout_label_exec(p.callout_type),
        _ => callout_label_exec(CalloutType::Info),
    };
    let le = le_vec(options);
    let c = inline_chars(b.content.as_slice(), options);
    let lines = split_vec(&c, '\n');
    let mut sep = le.clone();
    sep.push('>');
    sep.push(' ');
    let body = join_vec(&lines, &sep);
    let mut r: Vec<char> = Vec::new();
    r.push('>');
    r.push(' ');
    r.push('[');
    r.push('!');
    append(&mut r, &kind);
    r.push(']');
    append(&mut r, &le);
    r.push('>');
    r.push(' ');
    append(&mut r, &body);
    assert(sep@ =~= le_of(*options) + seq!['>', ' ']);
    assert(r@ =~= ser_callout(b@, *options));
    r
}

// ============================================================================
// Tables
// ============================================================================

pub open spec fn rows_of(rows: Seq<Vec<String>>) -> Seq<Seq<Seq<char>>> {
    rows.map_values(|r: Vec<String>| strs(r@))
}

pub open spec fn aligns_of(a: Option<Vec<Option<TableAlignment>>>) -> Option<Seq<Option<TableAlignment>>> {
    match a {
        Some(v) => Some(v@),
        None => None,
    }
}

fn column_max_exec(rows: &Vec<Vec<String>>, i: usize) -> (r: usize)
    ensures
        r == column_max(rows_of(rows@), i as int),
{
    let ghost rs = rows_of(rows@);
    let mut cur: usize = 0;
    let mut k: usize = 0;
    while k < rows.len()
        invariant
            k <= rows.len(),
            rs == rows_of(rows@),
            cur == column_max(rs.take(k as int), i as int),
        decreases rows.len() - k,
    {
        assert(rs.take(k + 1).drop_last() =~= rs.take(k as int));
        assert(rs.take(k + 1).last() == strs(rows@[k as int]@));
        let row = &rows[k];
        let cl: usize = if i < row.len() {
            chars_of_string(&row[i]).len()
        } else {
            0
        };
        assert(cl == cell_len(strs(row@), i as int));
        if cl > cur {
            cur = cl;
        }
        k += 1;
    }
    assert(rs.take(rows.len() as int) =~= rs);
    cur
}

fn pad_right_exec(s: &Vec<char>, width: usize) -> (r: Vec<char>)
    ensures
        r@ == pad_right(s@, width as nat),
{
    if s.len() >= width {
        s.clone()
    } else {
        let mut r = s.clone();
        append(&mut r, &repeat_vec(' ', width - s.len()));
        r
    }
}

fn sep_cell_exec(width: usize, a: Option<TableAlignment>) -> (r: Vec<char>)
    ensures
        r@ == sep_cell(width as nat, a),
{
    let w1: usize = if width >= 1 {
        width - 1
    } else {
        0
    };
    let w2: usize = if width >= 2 {
        width - 2
    } else {
        0
    };
    match a {
        Some(TableAlignment::Left) => {
            let mut r: Vec<char> = Vec::new();
            r.push(':');
            append(&mut r, &repeat_vec('-', w1));
            r
        },
        Some(TableAlignment::Right) => {
            let mut r = repeat_vec('-', w1);
            r.push(':');
            r
        },
        Some(TableAlignment::Center) => {
            let mut r: Vec<char> = Vec::new();
            r.push(':');
            append(&mut r, &repeat_vec('-', w2));
            r.push(':');
            r
        },
        None => repeat_vec('-', width),
    }
}

fn bar_vec() -> (r: Vec<char>)
    ensures
        r@ == bar(),
{
    let mut r: Vec<char> = Vec::new();
    r.push(' ');
    r.push('|');
    r.push(' ');
    assert(r@ =~= bar());
    r
}

fn table_line_exec(inner: &Vec<char>) -> (r: Vec<char>)
    ensures
        r@ == table_line(inner@),
{
    let mut r: Vec<char> = Vec::new();
    r.push('|');
    r.push(' ');
    append(&mut r, inner);
    r.push(' ');
    r.push('|');
    assert(r@ =~= table_line(inner@));
    r
}

fn column_widths(headers: &Vec<String>, rows: &Vec<Vec<String>>) -> (r: Vec<usize>)
    ensures
        r@.len() == headers@.len(),
        forall|i: int|
            0 <= i < headers@.len() ==> #[trigger] r@[i] == column_width(
                strs(headers@),
                rows_of(rows@),
                i,
            ),
{
    let mut w: Vec<usize> = Vec::new();
    let mut i: usize = 0;
    while i < headers.len()
        invariant
            i <= headers.len(),
            w@.len() == i,
            forall|j: int|
                0 <= j < i ==> #[trigger] w@[j] == column_width(strs(headers@), rows_of(rows@), j),
        decreases headers.len() - i,
    {
        let h = chars_of_string(&headers[i]).len();
        let m = column_max_exec(rows, i);
        let a = if h >= m {
            h
        } else {
            m
        };
        let x = if a >= 3 {
            a
        } else {
            3
        };
        w.push(x);
        i += 1;
    }
    w
}

fn table_from(
    headers: &Vec<String>,
    rows: &Vec<Vec<String>>,
    aligns: &Option<Vec<Option<TableAlignment>>>,
    options: &MarkdownSerializeOptions,
) -> (r: Vec<char>)
    ensures
        r@ == join(table_lines(strs(headers@), rows_of(rows@), aligns_of(*aligns)), le_of(*options)),
{
    let ghost hs = strs(headers@);
    let ghost rs = rows_of(rows@);
    let ghost al = aligns_of(*aligns);
    let widths = column_widths(headers, rows);
    let bv = bar_vec();
    // header and separator cells
    let mut hcells: Vec<Vec<char>> = Vec::new();
    let mut scells: Vec<Vec<char>> = Vec::new();
    let mut i: usize = 0;
    while i < headers.len()
        invariant
            i <= headers.len(),
            widths@.len() == headers@.len(),
            forall|j: int| 0 <= j < headers@.len() ==> #[trigger] widths@[j] == column_width(hs, rs, j),
            hs == strs(headers@),
            rs == rows_of(rows@),
            al == aligns_of(*aligns),
            lines_view(hcells@) == header_cells(hs, rs).take(i as int),
            lines_view(scells@) == sep_cells(hs, rs, al).take(i as int),
        decreases headers.len() - i,
    {
        let h = chars_of_string(&headers[i]);
        let ghost h0 = lines_view(hcells@);
        let ghost s0 = lines_view(scells@);
        hcells.push(pad_right_exec(&h, widths[i]));
        let a: Option<TableAlignment> = match aligns {
            Some(v) => if i < v.len() {
                v[i]
            } else {
                None
            },
            None => None,
        };
        assert(a == alignment_at(al, i as int));
        scells.push(sep_cell_exec(widths[i], a));
        assert(lines_view(hcells@) =~= h0.push(pad_right(hs[i as int], column_width(hs, rs, i as int))));
        assert(lines_view(scells@) =~= s0.push(sep_cell(column_width(hs, rs, i as int), alignment_at(al, i as int))));
        i += 1;
        assert(header_cells(hs, rs).take(i as int) =~= h0.push(pad_right(hs[i - 1], column_width(hs, rs, i - 1))));
        assert(sep_cells(hs, rs, al).take(i as int) =~= s0.push(sep_cell(column_width(hs, rs, i - 1), alignment_at(al, i - 1))));
    }
    assert(header_cells(hs, rs).take(headers.len() as int) =~= header_cells(hs, rs));
    assert(sep_cells(hs, rs, al).take(headers.len() as int) =~= sep_cells(hs, rs, al));
    let mut lines: Vec<Vec<char>> = Vec::new();
    lines.push(table_line_exec(&join_vec(&hcells, &bv)));
    lines.push(table_line_exec(&join_vec(&scells, &bv)));
    let ghost first = seq![
        table_line(join(header_cells(hs, rs), bar())),
        table_line(join(sep_cells(hs, rs, al), bar())),
    ];
    let ghost rowl = rs.map_values(|r: Seq<Seq<char>>| table_line(join(data_cells(hs, rs, r), bar())));
    assert(lines_view(lines@) =~= first + rowl.take(0));
    let mut k: usize = 0;
    while k < rows.len()
        invariant
            k <= rows.len(),
            widths@.len() == headers@.len(),
            forall|j: int| 0 <= j < headers@.len() ==> #[trigger] widths@[j] == column_width(hs, rs, j),
            hs == strs(headers@),
            rs == rows_of(rows@),
            bv@ == bar(),
            rowl == rs.map_values(|r: Seq<Seq<char>>| table_line(join(data_cells(hs, rs, r), bar()))),
            lines_view(lines@) == first + rowl.take(k as int),
        decreases rows.len() - k,
    {
        let row = &rows[k];
        let ghost rv = strs(row@);
        assert(rs[k as int] == rv);
        let mut cells: Vec<Vec<char>> = Vec::new();
        let mut c: usize = 0;
        while c < row.len()
            invariant
                c <= row.len(),
                rv == strs(row@),
                widths@.len() == headers@.len(),
                forall|j: int| 0 <= j < headers@.len() ==> #[trigger] widths@[j] == column_width(hs, rs, j),
                hs == strs(headers@),
                lines_view(cells@) == data_cells(hs, rs, rv).take(c as int),
            decreases row.len() - c,
        {
            let x = chars_of_string(&row[c]);
            let w: usize = if c < widths.len() {
                widths[c]
            } else {
                3
            };
            let ghost c0 = lines_view(cells@);
            cells.push(pad_right_exec(&x, w));
            assert(lines_view(cells@) =~= c0.push(pad_right(rv[c as int], w as nat)));
            c += 1;
            assert(data_cells(hs, rs, rv).take(c as int) =~= c0.push(pad_right(rv[c - 1], w as nat)));
        }
        assert(data_cells(hs, rs, rv).take(row.len() as int) =~= data_cells(hs, rs, rv));
        let ghost l0 = lines_view(lines@);
        lines.push(table_line_exec(&join_vec(&cells, &bv)));
        assert(lines_view(lines@) =~= l0.push(rowl[k as int]));
        k += 1;
        assert(rowl.take(k as int) =~= rowl.take(k - 1).push(rowl[k - 1]));
        assert(first + rowl.take(k as int) =~= (first + rowl.take(k - 1)).push(rowl[k - 1]));
    }
    assert(rowl.take(rows.len() as int) =~= rowl);
    join_vec(&lines, &le_vec(options))
}

fn serialize_table(b: &Block, options: &MarkdownSerializeOptions) -> (r: Vec<char>)
    ensures
        r@ == ser_table(b@, *options),
{
    match &b.props {
        BlockProps::Table(p) => table_from(&p.headers, &p.rows, &p.alignments, options),
        _ => {
            let h: Vec<String> = Vec::new();
            let rws: Vec<Vec<String>> = Vec::new();
            assert(strs(h@) =~= Seq::<Seq<char>>::empty());
            assert(rows_of(rws@) =~= Seq::<Seq<Seq<char>>>::empty());
            table_from(&h, &rws, &None, options)
        },
    }
}

// ============================================================================
// Lists and blocks
// ============================================================================

pub proof fn lemma_items_fit(items: Seq<BlockV>, depth: nat, ind: nat)
    requires
        items_fit(items, depth, ind),
    ensures
        forall|k: int|
            0 <= k < items.len() ==> ((#[trigger] items[k]).children.len() > 0 ==> depth + 1
                <= usize::MAX) && all_fit(items[k].children, depth + 1, ind),
    decreases items.len(),
{
    if items.len() > 0 {
        lemma_items_fit(items.drop_last(), depth, ind);
        assert forall|k: int| 0 <= k < items.len() implies ((#[trigger] items[k]).children.len()
            > 0 ==> depth + 1 <= usize::MAX) && all_fit(items[k].children, depth + 1, ind) by {
            if k < items.len() - 1 {
                assert(items[k] == items.drop_last()[k]);
            }
        }
    }
}

pub proof fn lemma_all_fit(cs: Seq<BlockV>, depth: nat, ind: nat)
    requires
        all_fit(cs, depth, ind),
    ensures
        forall|k: int| 0 <= k < cs.len() ==> pad_fits(#[trigger] cs[k], depth, ind),
    decreases cs.len(),
{
    if cs.len() > 0 {
        lemma_all_fit(cs.drop_last(), depth, ind);
        assert forall|k: int| 0 <= k < cs.len() implies pad_fits(#[trigger] cs[k], depth, ind) by {
            if k < cs.len() - 1 {
                assert(cs[k] == cs.drop_last()[k]);
            }
        }
    }
}

fn serialize_list_item_content(item: &Block, depth: usize, options: &MarkdownSerializeOptions) -> (r: Vec<char>)
    requires
        item@.children.len() > 0 ==> depth + 1 <= usize::MAX,
        all_fit(item@.children, (depth + 1) as nat, options.list_indent as nat),
    ensures
        r@ == item_text(item@, depth as nat, *options),
    decreases item, 0nat,
{
    let c = inline_chars(item.content.as_slice(), options);
    proof {
        lemma_blocks_view_seq(item.children@);
    }
    if item.children.len() == 0 {
        return c;
    }
    let ghost cv = item@.children;
    proof {
        lemma_all_fit(cv, (depth + 1) as nat, options.list_indent as nat);
    }
    let mut texts: Vec<Vec<char>> = Vec::new();
    let mut k: usize = 0;
    assert(cv.take(0) =~= Seq::<BlockV>::empty());
    while k < item.children.len()
        invariant
            k <= item.children.len(),
            depth + 1 <= usize::MAX,
            cv == item@.children,
            cv.len() == item.children.len(),
            forall|j: int| 0 <= j < cv.len() ==> #[trigger] cv[j] == item.children@[j]@,
            forall|j: int| 0 <= j < cv.len() ==> pad_fits(#[trigger] cv[j], (depth + 1) as nat, options.list_indent as nat),
            lines_view(texts@) == child_texts(cv.take(k as int), (depth + 1) as nat, *options),
        decreases item.children.len() - k,
    {
        assert(cv[k as int] == item.children@[k as int]@);
        let t = ser_block_chars(&item.children[k], depth + 1, options);
        let ghost t0 = lines_view(texts@);
        texts.push(t);
        assert(lines_view(texts@) =~= t0.push(ser_block(cv[k as int], (depth + 1) as nat, *options)));
        assert(cv.take(k + 1).drop_last() =~= cv.take(k as int));
        k += 1;
    }
    assert(cv.take(cv.len() as int) =~= cv);
    let le = le_vec(options);
    let mut r = c;
    append(&mut r, &le);
    append(&mut r, &join_vec(&texts, &le));
    r
}

fn list_chars(b: &Block, depth: usize, options: &MarkdownSerializeOptions, numbered: bool) -> (r: Vec<char>)
    requires
        depth * options.list_indent <= usize::MAX,
        items_fit(b@.children, depth as nat, options.list_indent as nat),
    ensures
        r@ == join(item_lines(b@.children, depth as nat, *options, numbered), le_of(*options)),
    decreases b, 1nat,
{
    let ghost cv = b@.children;
    proof {
        lemma_blocks_view_seq(b.children@);
        lemma_items_fit(cv, depth as nat, options.list_indent as nat);
    }
    let pd = pad_exec(depth, options);
    let bullet = options.bullet_char.as_char();
    let mut lines: Vec<Vec<char>> = Vec::new();
    let mut k: usize = 0;
    assert(cv.take(0) =~= Seq::<BlockV>::empty());
    while k < b.children.len()
        invariant
            k <= b.children.len(),
            cv == b@.children,
            cv.len() == b.children.len(),
            forall|j: int| 0 <= j < cv.len() ==> #[trigger] cv[j] == b.children@[j]@,
            forall|j: int|
                0 <= j < cv.len() ==> ((#[trigger] cv[j]).children.len() > 0 ==> depth + 1
                    <= usize::MAX) && all_fit(cv[j].children, (depth + 1) as nat, options.list_indent as nat),
            pd@ == pad(depth as nat, *options),
            bullet == bullet_of(options.bullet_char),
            lines_view(lines@) == item_lines(cv.take(k as int), depth as nat, *options, numbered),
        decreases b.children.len() - k,
    {
        let item = &b.children[k];
        assert(cv[k as int] == item@);
        let mut line = pd.clone();
        if numbered {
            digits_into(&mut line, (k + 1) as u64);
            line.push('.');
            line.push(' ');
        } else {
            line.push(bullet);
            line.push(' ');
        }
        assert(line@ =~= item_prefix(depth as nat, *options, numbered, (k + 1) as nat));
        let ghost pre = line@;
        let t = serialize_list_item_content(item, depth, options);
        append(&mut line, &t);
        let ghost l0 = lines_view(lines@);
        lines.push(line);
        assert(lines_view(lines@) =~= l0.push(pre + item_text(cv[k as int], depth as nat, *options)));
        assert(cv.take(k + 1).drop_last() =~= cv.take(k as int));
        k += 1;
    }
    assert(cv.take(cv.len() as int) =~= cv);
    join_vec(&lines, &le_vec(options))
}

fn ser_block_chars(b: &Block, depth: usize, options: &MarkdownSerializeOptions) -> (r: Vec<char>)
    requires
        pad_fits(b@, depth as nat, options.list_indent as nat),
    ensures
        r@ == ser_block(b@, depth as nat, *options),
    decreases b, 2nat,
{
    match b.block_type {
        BlockType::Paragraph => inline_chars(b.content.as_slice(), options),
        BlockType::Heading => serialize_heading(b, options),
        BlockType::BulletList => list_chars(b, depth, options, false),
        BlockType::NumberedList => list_chars(b, depth, options, true),
        BlockType::CheckList => serialize_check_list(b, depth, options),
        BlockType::CodeBlock => serialize_code_block(b, options),
        BlockType::Blockquote => serialize_blockquote(b, options),
        BlockType::Table => serialize_table(b, options),
        BlockType::Image => serialize_image(b),
        BlockType::Divider => {
            let mut r: Vec<char> = Vec::new();
            r.push('-');
            r.push('-');
            r.push('-');
            assert(r@ =~= seq!['-', '-', '-']);
            r
        },
        BlockType::Callout => serialize_callout(b, options),
    }
}

/// Serializes a single block at list nesting `depth`. `_index` and
/// `_siblings` give the block's place among its siblings; no block type
/// uses them.
pub fn serialize_block(
    block: &Block,
    depth: usize,
    options: &MarkdownSerializeOptions,
    _index: usize,
    _siblings: &[Block],
) -> (r: String)
    requires
        pad_fits(block@, depth as nat, options.list_indent as nat),
    ensures
        r@ == ser_block(block@, depth as nat, *options),
{
    let v = ser_block_chars(block, depth, options);
    string_of(&v)
}

/// The list indentation of every block fits in a `usize`.
pub open spec fn blocks_fit(bs: Seq<BlockV>, ind: nat) -> bool {
    forall|i: int| 0 <= i < bs.len() ==> pad_fits(#[trigger] bs[i], 0, ind)
}

/// Converts blocks to a markdown string; top-level blocks are separated by
/// a blank line.
pub fn blocks_to_markdown(blocks: &[Block], options: &MarkdownSerializeOptions) -> (r: String)
    requires
        blocks_fit(blocks_view(blocks@), options.list_indent as nat),
    ensures
        r@ == ser_blocks(blocks_view(blocks@), *options),
{
    let ghost bs = blocks_view(blocks@);
    let ghost all = Seq::new(bs.len(), |i: int| ser_block(bs[i], 0, *options));
    let mut parts: Vec<Vec<char>> = Vec::new();
    let mut i: usize = 0;
    while i < blocks.len()
        invariant
            i <= blocks@.len(),
            bs == blocks_view(blocks@),
            all == Seq::new(bs.len(), |i: int| ser_block(bs[i], 0, *options)),
            blocks_fit(bs, options.list_indent as nat),
            lines_view(parts@) == all.take(i as int),
        decreases blocks@.len() - i,
    {
        assert(bs[i as int] == blocks@[i as int]@);
        let ghost p0 = lines_view(parts@);
        parts.push(ser_block_chars(&blocks[i], 0, options));
        assert(lines_view(parts@) =~= p0.push(all[i as int]));
        i += 1;
        assert(all.take(i as int) =~= p0.push(all[i - 1]));
    }
    assert(all.take(blocks@.len() as int) =~= all);
    let mut sep = le_vec(options);
    let le = le_vec(options);
    append(&mut sep, &le);
    let v = join_vec(&parts, &sep);
    string_of(&v)
}

/// Converts a document's blocks to a markdown string.
pub fn document_to_markdown(doc: &Document, options: &MarkdownSerializeOptions) -> (r: String)
    requires
        blocks_fit(doc@.blocks, options.list_indent as nat),
    ensures
        r@ == ser_blocks(doc@.blocks, *options),
{
    blocks_to_markdown(doc.blocks.as_slice(), options)
}

/// Converts blocks to markdown with the default options.
pub fn stringify(blocks: &[Block]) -> (r: String)
    requires
        blocks_fit(blocks_view(blocks@), 2),
    ensures
        r@ == ser_blocks(blocks_view(blocks@), default_serialize_options()),
{
    blocks_to_markdown(blocks, &MarkdownSerializeOptions::default())
}

} // verus!
