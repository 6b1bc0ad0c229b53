//! Serializing a document and parsing the text back gives the blocks again,
//! for documents of paragraphs and headings of plain text, tables of plain
//! cells, images, dividers, fenced code, check-list items, quotes and
//! bullet lists.

use vstd::prelude::*;
use crate::markdown::block_parser::{block_at, clamp_level, contents, md_blocks, parse_from, run_end};
use crate::markdown::inline::{is_literal_char, law_literal_text_is_one_span};
use crate::markdown::serializer::{heading_level, le_of, ser_block, ser_blocks, ser_inline, ser_span};
use crate::markdown::tokenizer::{initial_state, lex_line, lex_lines, md_lines, no_meta, tok, tokens_of, LexState, MetaTV, TokenType, TokenV};
use crate::markdown::types::{BlockType, BlockV, CodeBlockStyle, HeadingStyle, LineEnding, MarkdownSerializeOptions, PropsV, SpanV, TableAlignment, plain_style};
use crate::markdown::utils::normalize_le;
use crate::text::{is_ascii_alnum, join, repeat, split};

verus! {

// ============================================================================
// Line endings and lines
// ============================================================================

pub open spec fn no_cr(s: Seq<char>) -> bool {
    forall|i: int| 0 <= i < s.len() ==> s[i] != '\r'
}

pub open spec fn no_char(s: Seq<char>, c: char) -> bool {
    forall|i: int| 0 <= i < s.len() ==> s[i] != c
}

proof fn lemma_normalize_concat(a: Seq<char>, b: Seq<char>)
    requires
        a.len() == 0 || a.last() != '\r',
    ensures
        normalize_le(a + b) == normalize_le(a) + normalize_le(b),
    decreases a.len(),
{
    if a.len() == 0 {
        assert(a + b =~= b);
        assert(normalize_le(a) + normalize_le(b) =~= normalize_le(b));
    } else {
        let ab = a + b;
        assert(ab[0] == a[0]);
        if a[0] == '\r' && a.len() > 1 && a[1] == '\n' {
            assert(ab[1] == a[1]);
            assert(ab.skip(2) =~= a.skip(2) + b);
            lemma_normalize_concat(a.skip(2), b);
            assert(seq!['\n'] + (normalize_le(a.skip(2)) + normalize_le(b)) =~= (seq!['\n']
                + normalize_le(a.skip(2))) + normalize_le(b));
        } else if a[0] == '\r' {
            assert(a.len() > 1);
            assert(ab[1] == a[1]);
            assert(ab.skip(1) =~= a.skip(1) + b);
            lemma_normalize_concat(a.skip(1), b);
            assert(seq!['\n'] + (normalize_le(a.skip(1)) + normalize_le(b)) =~= (seq!['\n']
                + normalize_le(a.skip(1))) + normalize_le(b));
        } else {
            assert(ab.skip(1) =~= a.skip(1) + b);
            if a.len() > 1 {
                assert(a.skip(1).last() == a.last());
            }
            lemma_normalize_concat(a.skip(1), b);
            assert(seq![a[0]] + (normalize_le(a.skip(1)) + normalize_le(b)) =~= (seq![a[0]]
                + normalize_le(a.skip(1))) + normalize_le(b));
        }
    }
}

proof fn lemma_normalize_plain(s: Seq<char>)
    requires
        no_cr(s),
    ensures
        normalize_le(s) == s,
    decreases s.len(),
{
    if s.len() > 0 {
        assert(no_cr(s.skip(1))) by {
            assert forall|i: int| 0 <= i < s.skip(1).len() implies s.skip(1)[i] != '\r' by {
                assert(s.skip(1)[i] == s[i + 1]);
            }
        }
        lemma_normalize_plain(s.skip(1));
        assert(seq![s[0]] + s.skip(1) =~= s);
    }
}

/// A blank line of either kind reads as `\n\n`.
proof fn lemma_normalize_blank_line(o: MarkdownSerializeOptions)
    ensures
        normalize_le(le_of(o) + le_of(o)) == seq!['\n', '\n'],
{
    let le = le_of(o);
    if o.line_ending == LineEnding::Lf {
        assert(le + le =~= seq!['\n', '\n']);
        lemma_normalize_plain(seq!['\n', '\n']);
    } else {
        let x = le + le;
        assert(x =~= seq!['\r', '\n', '\r', '\n']);
        assert(x.skip(2) =~= seq!['\r', '\n']);
        assert(x.skip(2).skip(2) =~= Seq::<char>::empty());
        assert(normalize_le(x.skip(2)) == seq!['\n'] + normalize_le(x.skip(2).skip(2)));
        assert(normalize_le(x.skip(2)) =~= seq!['\n']);
        assert(normalize_le(x) == seq!['\n'] + normalize_le(x.skip(2)));
        assert(normalize_le(x) =~= seq!['\n', '\n']);
    }
}

proof fn lemma_split_concat(a: Seq<char>, b: Seq<char>, c: char)
    ensures
        split(a + seq![c] + b, c) == split(a, c) + split(b, c),
    decreases b.len(),
{
    crate::text::lemma_split_len(a, c);
    if b.len() == 0 {
        assert(a + seq![c] + b =~= a + seq![c]);
        assert((a + seq![c]).drop_last() =~= a);
        assert(split(a, c).push(Seq::<char>::empty()) =~= split(a, c) + seq![Seq::<char>::empty()]);
    } else {
        let s = a + seq![c] + b;
        let bd = b.drop_last();
        assert(s.drop_last() =~= a + seq![c] + bd);
        assert(s.last() == b.last());
        lemma_split_concat(a, bd, c);
        crate::text::lemma_split_len(bd, c);
        let pa = split(a, c);
        let pb = split(bd, c);
        if b.last() == c {
            assert((pa + pb).push(Seq::<char>::empty()) =~= pa + pb.push(Seq::<char>::empty()));
        } else {
            let q = pa + pb;
            assert(q.last() == pb.last());
            assert(q.update(q.len() - 1, q.last().push(b.last())) =~= pa + pb.update(
                pb.len() - 1,
                pb.last().push(b.last()),
            ));
        }
    }
}

proof fn lemma_split_single(s: Seq<char>, c: char)
    requires
        no_char(s, c),
    ensures
        split(s, c) == seq![s],
    decreases s.len(),
{
    if s.len() > 0 {
        let d = s.drop_last();
        assert(no_char(d, c)) by {
            assert forall|i: int| 0 <= i < d.len() implies d[i] != c by {
                assert(d[i] == s[i]);
            }
        }
        lemma_split_single(d, c);
        assert(s.last() != c);
        assert(d.push(s.last()) =~= s);
    } else {
        assert(s =~= Seq::<char>::empty());
    }
}

proof fn lemma_join_last(ls: Seq<Seq<char>>, sep: Seq<char>)
    requires
        ls.len() >= 1,
        forall|i: int| 0 <= i < ls.len() ==> (#[trigger] ls[i]).len() > 0 && no_cr(ls[i]),
    ensures
        join(ls, sep).len() > 0,
        join(ls, sep).last() == ls.last().last(),
        join(ls, sep).last() != '\r',
{
    let l = ls.last();
    assert(l.len() > 0 && no_cr(l));
    assert(l[l.len() - 1] != '\r');
    if ls.len() > 1 {
        assert(join(ls, sep) == join(ls.drop_last(), sep) + sep + l);
    }
}

// ============================================================================
// Plain blocks
// ============================================================================

/// Words of ASCII letters and digits separated by spaces.
pub open spec fn is_plain_words(t: Seq<char>) -> bool {
    &&& t.len() > 0
    &&& forall|i: int| 0 <= i < t.len() ==> is_ascii_alnum(#[trigger] t[i]) || t[i] == ' '
    &&& is_ascii_alnum(t[0])
    &&& is_ascii_alnum(t.last())
}

/// A paragraph, or a heading of level 1 to 6, whose content is one
/// unstyled span of plain words, without children.
pub open spec fn is_plain_block(b: BlockV) -> bool {
    &&& b.content.len() == 1
    &&& b.content[0].styles == plain_style()
    &&& is_plain_words(b.content[0].text)
    &&& b.children.len() == 0
    &&& ((b.block_type == BlockType::Paragraph && b.props == PropsV::Empty) || (b.block_type
        == BlockType::Heading && (b.props matches PropsV::Heading(l) && 1 <= l <= 6)))
}

pub open spec fn words_of(b: BlockV) -> Seq<char> {
    b.content[0].text
}

/// The line a plain block is written as (headings in ATX style).
pub open spec fn line_of(b: BlockV) -> Seq<char> {
    if b.block_type == BlockType::Paragraph {
        words_of(b)
    } else {
        repeat('#', heading_level(b.props) as nat) + seq![' '] + words_of(b)
    }
}

proof fn lemma_ser_plain(b: BlockV, o: MarkdownSerializeOptions)
    requires
        is_plain_block(b),
        o.heading_style == HeadingStyle::Atx,
        o.code_block_style == CodeBlockStyle::Fenced,
    ensures
        ser_block(b, 0, o) == line_of(b),
        line_of(b).len() > 0,
        no_cr(line_of(b)),
        no_char(line_of(b), '\n'),
{
    let t = words_of(b);
    let sp = b.content[0];
    assert(b.content.drop_last() =~= Seq::<SpanV>::empty());
    assert(ser_inline(b.content, o) == ser_inline(Seq::<SpanV>::empty(), o) + ser_span(sp, o));
    assert(ser_inline(b.content, o) =~= t);
    let l = line_of(b);
    assert forall|i: int| 0 <= i < l.len() implies l[i] != '\r' && l[i] != '\n' by {
        if b.block_type == BlockType::Heading {
            let n = heading_level(b.props) as nat;
            if i < n {
                assert(l[i] == '#');
            } else if i == n {
                assert(l[i] == ' ');
            } else {
                assert(l[i] == t[i - n - 1]);
                assert(is_ascii_alnum(t[i - n - 1]) || t[i - n - 1] == ' ');
            }
        } else {
            assert(is_ascii_alnum(t[i]) || t[i] == ' ');
        }
    }
}

// ============================================================================
// Tokens of the written lines
// ============================================================================

pub open spec fn plain_token(b: BlockV, n: nat) -> TokenV {
    if b.block_type == BlockType::Paragraph {
        tok(TokenType::Paragraph, words_of(b), words_of(b), 0, n, no_meta())
    } else {
        tok(
            TokenType::Heading,
            line_of(b),
            words_of(b),
            0,
            n,
            MetaTV { level: Some(heading_level(b.props)), ..no_meta() },
        )
    }
}

pub open spec fn blank_token(n: nat) -> TokenV {
    tok(TokenType::Blank, Seq::empty(), Seq::empty(), 0, n, no_meta())
}

proof fn lemma_words_trim(t: Seq<char>)
    requires
        is_plain_words(t),
    ensures
        crate::text::trim_start(t) == t,
        crate::text::trim_end(t) == t,
        crate::text::trim(t) == t,
        crate::text::trim_end_blank(t) == t,
        !crate::text::all_ws(t),
        crate::markdown::tokenizer::lws(t) == 0,
{
    assert(is_ascii_alnum(t[t.len() - 1]));
    assert(!crate::text::is_ws(t[0]));
}

proof fn lemma_lex_words(b: BlockV, prev: Seq<char>, n: nat)
    requires
        is_plain_block(b),
        b.block_type == BlockType::Paragraph,
    ensures
        lex_line(line_of(b), initial_state(), prev, n) == (plain_token(b, n), initial_state()),
{
    let t = words_of(b);
    lemma_words_trim(t);
    assert(t.skip(0) =~= t);
    assert(crate::markdown::tokenizer::match_fence(t) is None);
    assert(crate::markdown::tokenizer::match_divider(t) is None);
    assert(crate::markdown::tokenizer::char_run(t, '#') == 0);
    assert(crate::markdown::tokenizer::match_atx(t) is None);
    assert(crate::markdown::tokenizer::match_quote(t) is None);
    assert(crate::markdown::tokenizer::match_callout(t) is None);
    assert(crate::markdown::tokenizer::match_bullet(t) is None);
    assert(crate::markdown::tokenizer::match_check(t) is None);
    let nd = crate::markdown::tokenizer::run_len(
        t,
        |c: char| crate::markdown::tokenizer::is_ascii_digit_char(c),
    );
    if 0 < nd < t.len() {
        assert(is_ascii_alnum(t[nd as int]) || t[nd as int] == ' ');
    }
    assert(crate::markdown::tokenizer::match_numbered(t) is None);
    assert(crate::markdown::tokenizer::match_table_row(t) is None);
    assert(!crate::markdown::tokenizer::table_separator(t));
    assert(crate::markdown::tokenizer::match_image(t) is None);
    assert(!crate::markdown::tokenizer::all_eq(t, '='));
    assert(!crate::markdown::tokenizer::all_eq(t, '-'));
    assert(!crate::markdown::tokenizer::setext_h1(t));
    assert(!crate::markdown::tokenizer::setext_h2(t));
}

proof fn lemma_lex_heading(b: BlockV, prev: Seq<char>, n: nat)
    requires
        is_plain_block(b),
        b.block_type == BlockType::Heading,
    ensures
        lex_line(line_of(b), initial_state(), prev, n) == (plain_token(b, n), initial_state()),
{
    let t = words_of(b);
    lemma_words_trim(t);
    let lv = heading_level(b.props);
    let k = lv as nat;
    assert(1 <= k <= 6);
    let hs = repeat('#', k);
    let l = line_of(b);
    assert(l == hs + seq![' '] + t);
    assert(l.len() == k + 1 + t.len());
    assert(forall|j: int| 0 <= j < k ==> l[j] == '#');
    assert(l[k as int] == ' ');
    assert(l[0] == '#');
    assert(l.last() == t.last());
    assert(l.skip(0) =~= l);
    crate::markdown::tokenizer::lemma_char_run(l, '#', k as int);
    assert(crate::markdown::tokenizer::lws(l) == 0);
    assert(crate::markdown::tokenizer::match_fence(l) is None);
    assert(!crate::text::all_ws(l));
    assert(crate::text::trim_end_blank(l) == l);
    assert(crate::markdown::tokenizer::match_divider(l) is None);
    let rest = l.skip(k as int);
    assert(rest =~= seq![' '] + t);
    assert(rest.drop_first() =~= t);
    assert(crate::text::trim_start(rest) == crate::text::trim_start(t));
    assert(crate::markdown::tokenizer::match_atx(l) == Some((lv, t)));
}

proof fn lemma_lex_blank(prev: Seq<char>, n: nat)
    ensures
        lex_line(Seq::empty(), initial_state(), prev, n) == (blank_token(n), initial_state()),
{
    assert(Seq::<char>::empty().skip(0) =~= Seq::<char>::empty());
}

// ============================================================================
// Images
// ============================================================================

/// The characters of a URL the round trip covers: ASCII letters and digits
/// and `: / . - _ ? = & % ~ +`.
pub open spec fn is_url_char(c: char) -> bool {
    ||| is_ascii_alnum(c)
    ||| c == ':'
    ||| c == '/'
    ||| c == '.'
    ||| c == '-'
    ||| c == '_'
    ||| c == '?'
    ||| c == '='
    ||| c == '&'
    ||| c == '%'
    ||| c == '~'
    ||| c == '+'
}

pub open spec fn is_plain_url(u: Seq<char>) -> bool {
    &&& u.len() > 0
    &&& forall|i: int| 0 <= i < u.len() ==> is_url_char(#[trigger] u[i])
}

/// An image without content, children or size, whose URL is plain and whose
/// alternative text and title, where it has them, are plain words.
pub open spec fn is_plain_image(b: BlockV) -> bool {
    &&& b.block_type == BlockType::Image
    &&& b.content.len() == 0
    &&& b.children.len() == 0
    &&& b.props matches PropsV::Image { url, alt, title, width, height }
    &&& is_plain_url(url)
    &&& width is None
    &&& height is None
    &&& (alt matches Some(a) ==> is_plain_words(a))
    &&& (title matches Some(t) ==> is_plain_words(t))
}

pub open spec fn image_url(b: BlockV) -> Seq<char> {
    match b.props {
        PropsV::Image { url, .. } => url,
        _ => Seq::empty(),
    }
}

pub open spec fn image_alt_text(b: BlockV) -> Seq<char> {
    match b.props {
        PropsV::Image { alt, .. } => match alt {
            Some(a) => a,
            None => Seq::empty(),
        },
        _ => Seq::empty(),
    }
}

pub open spec fn image_title(b: BlockV) -> Option<Seq<char>> {
    match b.props {
        PropsV::Image { title, .. } => title,
        _ => None,
    }
}

/// What stands between the parentheses of an image's line.
pub open spec fn image_inner(b: BlockV) -> Seq<char> {
    match image_title(b) {
        Some(t) => image_url(b) + seq![' ', '"'] + t + seq!['"'],
        None => image_url(b),
    }
}

pub open spec fn image_token(b: BlockV, n: nat) -> TokenV {
    tok(
        TokenType::Image,
        crate::markdown::serializer::ser_image(b),
        image_url(b),
        0,
        n,
        MetaTV { image_alt: Some(image_alt_text(b)), image_title: image_title(b), ..no_meta() },
    )
}

proof fn lemma_rfind_char_at(s: Seq<char>, c: char, i: int)
    requires
        0 <= i < s.len(),
        s[i] == c,
        forall|j: int| i < j < s.len() ==> s[j] != c,
    ensures
        crate::markdown::tokenizer::rfind_char(s, c) == Some(i),
    decreases s.len(),
{
    if i < s.len() - 1 {
        assert(s.last() != c);
        lemma_rfind_char_at(s.drop_last(), c, i);
    }
}

/// An image is written as one clean line: `![alt](url "title")`.
proof fn lemma_image_line(b: BlockV)
    requires
        is_plain_image(b),
    ensures
        crate::markdown::serializer::ser_image(b) == seq!['!', '['] + image_alt_text(b) + seq![']', '(']
            + image_inner(b) + seq![')'],
        crate::markdown::serializer::ser_image(b).len() > 0,
        no_cr(crate::markdown::serializer::ser_image(b)),
        no_char(crate::markdown::serializer::ser_image(b), '\n'),
{
    let a = image_alt_text(b);
    let u = image_url(b);
    let inner = image_inner(b);
    let l = crate::markdown::serializer::ser_image(b);
    match image_title(b) {
        Some(t) => {
            assert(l =~= seq!['!', '['] + a + seq![']', '('] + inner + seq![')']);
        },
        None => {
            assert(l =~= seq!['!', '['] + a + seq![']', '('] + inner + seq![')']);
        },
    }
    assert forall|i: int| 0 <= i < l.len() implies l[i] != '\r' && l[i] != '\n' by {
        let k = i - 2;
        if 2 <= i < 2 + a.len() {
            assert(l[i] == a[k]);
            assert(is_ascii_alnum(a[k]) || a[k] == ' ');
        } else if 4 + a.len() <= i < 4 + a.len() + inner.len() {
            let m = i - 4 - a.len();
            assert(l[i] == inner[m]);
            if m < u.len() {
                assert(inner[m] == u[m]);
                assert(is_url_char(u[m]));
            } else if image_title(b) is Some {
                let t = image_title(b)->0;
                if u.len() + 2 <= m < u.len() + 2 + t.len() {
                    assert(inner[m] == t[m - u.len() - 2]);
                    assert(is_ascii_alnum(t[m - u.len() - 2]) || t[m - u.len() - 2] == ' ');
                }
            }
        }
    }
}

/// The URL and the title come back out of the parentheses.
proof fn lemma_url_and_title(b: BlockV)
    requires
        is_plain_image(b),
    ensures
        crate::markdown::tokenizer::url_and_title(image_inner(b)) == (image_url(b), image_title(b)),
{
    let u = image_url(b);
    let inner = image_inner(b);
    assert(is_url_char(u.last()));
    match image_title(b) {
        Some(t) => {
            let n: int = inner.len() as int;
            assert(n == u.len() + t.len() + 3);
            assert(inner.last() == '"');
            let open: int = u.len() as int + 1;
            let head = inner.take(n - 1);
            assert(head[open] == '"');
            assert forall|j: int| open < j < head.len() implies head[j] != '"' by {
                assert(head[j] == t[j - open - 1]);
                assert(is_ascii_alnum(t[j - open - 1]) || t[j - open - 1] == ' ');
            }
            lemma_rfind_char_at(head, '"', open);
            assert(inner[open - 1] == ' ');
            assert(inner.take(open) =~= u.push(' '));
            assert(u.push(' ').drop_last() =~= u);
            assert(crate::text::trim_end(u.push(' ')) == crate::text::trim_end(u));
            assert(!crate::text::is_ws(u.last()));
            assert(crate::text::trim_end(u) == u);
            assert(inner.subrange(open + 1, n - 1) =~= t);
        },
        None => {
            assert(inner == u);
        },
    }
}

/// An image's line is read as its image token, whatever line came before.
#[verifier::rlimit(40)]
#[verifier::spinoff_prover]
proof fn lemma_lex_image(b: BlockV, prev: Seq<char>, n: nat)
    requires
        is_plain_image(b),
    ensures
        lex_line(crate::markdown::serializer::ser_image(b), initial_state(), prev, n) == (
            image_token(b, n),
            initial_state(),
        ),
{
    let a = image_alt_text(b);
    let inner = image_inner(b);
    let l = crate::markdown::serializer::ser_image(b);
    lemma_image_line(b);
    lemma_url_and_title(b);
    assert(l[0] == '!');
    assert(l[1] == '[');
    assert(l.last() == ')');
    assert(l.skip(0) =~= l);
    assert(!crate::text::is_ws(l[0]));
    assert(!crate::text::is_ws(l.last()));
    crate::markdown::tokenizer::lemma_run_len(l, |c: char| crate::markdown::tokenizer::is_blank_char(c), 0);
    crate::markdown::tokenizer::lemma_run_len(
        l,
        |c: char| crate::markdown::tokenizer::is_ascii_digit_char(c),
        0,
    );
    crate::markdown::tokenizer::lemma_char_run(l, '#', 0);
    assert(crate::markdown::tokenizer::match_fence(l) is None);
    assert(!crate::text::all_ws(l));
    assert(crate::text::trim_end_blank(l) == l);
    assert(crate::markdown::tokenizer::match_divider(l) is None);
    assert(crate::markdown::tokenizer::match_atx(l) is None);
    assert(crate::markdown::tokenizer::match_quote(l) is None);
    assert(crate::markdown::tokenizer::match_callout(l) is None);
    assert(crate::markdown::tokenizer::match_bullet(l) is None);
    assert(crate::markdown::tokenizer::match_check(l) is None);
    assert(crate::markdown::tokenizer::match_numbered(l) is None);
    assert(crate::text::trim_end(l) == l);
    assert(crate::markdown::tokenizer::match_table_row(l) is None);
    assert(!crate::markdown::tokenizer::table_separator(l));
    assert(crate::text::trim_start(l) == l);
    assert(crate::text::trim(l) == l);
    let close: int = 2 + a.len() as int;
    assert(l[close] == ']');
    assert forall|j: int| 0 <= j < close implies l[j] != ']' by {
        if j >= 2 {
            assert(l[j] == a[j - 2]);
            assert(is_ascii_alnum(a[j - 2]) || a[j - 2] == ' ');
        }
    }
    crate::text::lemma_find_char_unique(l, ']', close);
    let after = l.skip(close + 1);
    assert(after =~= seq!['('] + inner + seq![')']);
    assert(after.subrange(1, after.len() - 1) =~= inner);
    assert(l.subrange(2, close) =~= a);
    assert(crate::markdown::tokenizer::match_image(l) == Some((a, image_url(b), image_title(b))));
}

/// An image's token parses back to the image.
proof fn lemma_block_at_image(ts: Seq<TokenV>, s: int, b: BlockV, n: nat)
    requires
        is_plain_image(b),
        0 <= s < ts.len(),
        ts[s] == image_token(b, n),
    ensures
        block_at(ts, s) == (Some(crate::markdown::utils::erase_ids(b)), s + 1),
{
    assert(crate::markdown::utils::erase_all_ids(b.children) =~= Seq::<BlockV>::empty());
    assert(b.content =~= Seq::<SpanV>::empty());
    assert(crate::markdown::block_parser::nonempty(Some(image_alt_text(b))) == match b.props {
        PropsV::Image { alt, .. } => alt,
        _ => None,
    });
}

// ============================================================================
// Dividers
// ============================================================================

/// A divider without content or children.
pub open spec fn is_plain_divider(b: BlockV) -> bool {
    &&& b.block_type == BlockType::Divider
    &&& b.content.len() == 0
    &&& b.children.len() == 0
    &&& b.props == PropsV::Empty
}

pub open spec fn divider_line() -> Seq<char> {
    seq!['-', '-', '-']
}

pub open spec fn divider_token(n: nat) -> TokenV {
    tok(TokenType::Divider, divider_line(), Seq::empty(), 0, n, no_meta())
}

/// `---` after an empty line is a divider.
proof fn lemma_lex_divider(n: nat)
    ensures
        lex_line(divider_line(), initial_state(), Seq::empty(), n) == (divider_token(n), initial_state()),
{
    let l = divider_line();
    assert(l.skip(0) =~= l);
    crate::markdown::tokenizer::lemma_run_len(l, |c: char| crate::markdown::tokenizer::is_blank_char(c), 0);
    assert(crate::markdown::tokenizer::match_fence(l) is None);
    assert(!crate::text::all_ws(l));
    assert(crate::text::trim_end_blank(l) == l);
    assert(crate::markdown::tokenizer::all_eq(l, '-'));
    assert(crate::markdown::tokenizer::match_divider(l) == Some(0nat));
    assert(crate::text::trim(Seq::<char>::empty()) =~= Seq::<char>::empty());
}

/// A divider's token parses back to the divider.
proof fn lemma_block_at_divider(ts: Seq<TokenV>, s: int, b: BlockV, n: nat)
    requires
        is_plain_divider(b),
        0 <= s < ts.len(),
        ts[s] == divider_token(n),
    ensures
        block_at(ts, s) == (Some(crate::markdown::utils::erase_ids(b)), s + 1),
{
    assert(crate::markdown::utils::erase_all_ids(b.children) =~= Seq::<BlockV>::empty());
    assert(b.content =~= Seq::<SpanV>::empty());
}

// ============================================================================
// Code blocks
// ============================================================================

/// A language name of a fence: word characters, none of them a backtick or
/// whitespace.
pub open spec fn is_lang_text(w: Seq<char>) -> bool {
    &&& w.len() > 0
    &&& forall|i: int|
        0 <= i < w.len() ==> crate::markdown::tokenizer::is_word(#[trigger] w[i]) && !crate::text::is_ws(w[i])
            && w[i] != '`'
}

/// A code block of one unstyled span, without children, whose code holds
/// no backtick and no `\r`, and whose language, if any, is a word.
pub open spec fn is_plain_code(b: BlockV) -> bool {
    &&& b.block_type == BlockType::CodeBlock
    &&& b.children.len() == 0
    &&& b.content.len() == 1
    &&& b.content[0].styles == plain_style()
    &&& no_cr(b.content[0].text)
    &&& no_char(b.content[0].text, '`')
    &&& b.props matches PropsV::CodeBlock(lang)
    &&& (lang matches Some(w) ==> is_lang_text(w))
}

pub open spec fn code_text(b: BlockV) -> Seq<char> {
    b.content[0].text
}

pub open spec fn fence_line() -> Seq<char> {
    seq!['`', '`', '`']
}

pub open spec fn fence_open(b: BlockV) -> Seq<char> {
    fence_line() + crate::markdown::serializer::code_language(b.props)
}

/// The lines a code block is written as: its fences around the lines of
/// its code.
pub open spec fn code_lines(b: BlockV) -> Seq<Seq<char>> {
    seq![fence_open(b)] + split(code_text(b), '\n') + seq![fence_line()]
}

/// Splitting keeps out the separator, and any character the text lacks.
proof fn lemma_split_avoids(s: Seq<char>, c: char, x: char)
    requires
        no_char(s, x),
    ensures
        forall|i: int| 0 <= i < split(s, c).len() ==> no_char(#[trigger] split(s, c)[i], x) && no_char(
            split(s, c)[i],
            c,
        ),
    decreases s.len(),
{
    if s.len() > 0 {
        let d = s.drop_last();
        assert(no_char(d, x)) by {
            assert forall|i: int| 0 <= i < d.len() implies d[i] != x by {
                assert(d[i] == s[i]);
            }
        }
        lemma_split_avoids(d, c, x);
        crate::text::lemma_split_len(d, c);
        let r = split(d, c);
        if s.last() == c {
            assert(split(s, c) == r.push(Seq::<char>::empty()));
        } else {
            let q = r.update(r.len() - 1, r.last().push(s.last()));
            assert(split(s, c) == q);
            assert(s.last() != x);
            assert forall|i: int| 0 <= i < q.len() implies no_char(#[trigger] q[i], x) && no_char(q[i], c) by {
                if i == r.len() - 1 {
                    assert(q[i] == r.last().push(s.last()));
                    assert(no_char(r[i], x) && no_char(r[i], c));
                } else {
                    assert(q[i] == r[i]);
                }
            }
        }
    }
}

proof fn lemma_escape_fences_plain(s: Seq<char>)
    requires
        no_char(s, '`'),
    ensures
        crate::markdown::utils::escape_fences(s) == s,
    decreases s.len(),
{
    if s.len() > 0 {
        assert(no_char(s.skip(1), '`')) by {
            assert forall|i: int| 0 <= i < s.skip(1).len() implies s.skip(1)[i] != '`' by {
                assert(s.skip(1)[i] == s[i + 1]);
            }
        }
        lemma_escape_fences_plain(s.skip(1));
        assert(s[0] != '`');
        assert(seq![s[0]] + s.skip(1) =~= s);
    }
}

proof fn lemma_run_len_le(s: Seq<char>, p: spec_fn(char) -> bool)
    ensures
        crate::markdown::tokenizer::run_len(s, p) <= s.len(),
    decreases s.len(),
{
    if s.len() > 0 {
        lemma_run_len_le(s.drop_first(), p);
    }
}

/// A code block is written as its lines; the text ends in a backtick.
proof fn lemma_code_text(b: BlockV, o: MarkdownSerializeOptions)
    requires
        is_plain_code(b),
        o.code_block_style == CodeBlockStyle::Fenced,
    ensures
        normalize_le(ser_block(b, 0, o)) == join(code_lines(b), seq!['\n']),
        ser_block(b, 0, o).len() > 0,
        ser_block(b, 0, o).last() == '`',
        forall|i: int| 0 <= i < code_lines(b).len() ==> no_cr(#[trigger] code_lines(b)[i]) && no_char(
            code_lines(b)[i],
            '\n',
        ),
        code_lines(b).len() >= 3,
{
    let code = code_text(b);
    let lang = crate::markdown::serializer::code_language(b.props);
    let le = le_of(o);
    let fo = fence_open(b);
    let fl = fence_line();
    let parts = split(code, '\n');
    crate::text::lemma_split_len(code, '\n');
    lemma_split_avoids(code, '\n', '\r');
    assert(b.content.drop_last() =~= Seq::<SpanV>::empty());
    assert(crate::markdown::utils::plain_text(b.content) == crate::markdown::utils::plain_text(
        Seq::<SpanV>::empty(),
    ) + code);
    assert(crate::markdown::utils::plain_text(b.content) =~= code);
    lemma_escape_fences_plain(code);
    let t = ser_block(b, 0, o);
    assert(t == fo + le + code + le + fl);
    assert(no_cr(lang) && no_char(lang, '\n')) by {
        if lang.len() > 0 {
            assert forall|i: int| 0 <= i < lang.len() implies lang[i] != '\r' && lang[i] != '\n' by {
                assert(!crate::text::is_ws(lang[i]));
            }
        }
    }
    assert(no_cr(fo) && no_char(fo, '\n')) by {
        assert forall|i: int| 0 <= i < fo.len() implies fo[i] != '\r' && fo[i] != '\n' by {
            if i >= 3 {
                assert(fo[i] == lang[i - 3]);
            }
        }
    }
    lemma_normalize_line_ending(o);
    lemma_normalize_plain(fo);
    lemma_normalize_plain(code);
    lemma_normalize_plain(fl);
    assert(fo.last() != '\r');
    lemma_normalize_concat(fo, le);
    let a1 = fo + le;
    assert(a1.last() == '\n');
    lemma_normalize_concat(a1, code);
    let a2 = a1 + code;
    assert(a2.len() == 0 || a2.last() != '\r') by {
        if code.len() > 0 {
            assert(a2.last() == code.last());
        }
    }
    lemma_normalize_concat(a2, le);
    let a3 = a2 + le;
    assert(a3.last() == '\n');
    lemma_normalize_concat(a3, fl);
    assert(normalize_le(t) =~= fo + seq!['\n'] + code + seq!['\n'] + fl);
    let cl = code_lines(b);
    let nl = seq!['\n'];
    lemma_join_concat(seq![fo], parts, nl);
    lemma_join_concat(seq![fo] + parts, seq![fl], nl);
    assert(cl == (seq![fo] + parts) + seq![fl]);
    crate::text::lemma_join_split(code, '\n');
    assert(join(seq![fo], nl) == fo);
    assert(join(seq![fl], nl) == fl);
    assert(join(cl, nl) =~= fo + seq!['\n'] + code + seq!['\n'] + fl);
    assert(t.last() == '`');
    assert forall|i: int| 0 <= i < cl.len() implies no_cr(#[trigger] cl[i]) && no_char(cl[i], '\n') by {
        if i == 0 {
            assert(cl[i] == fo);
        } else if i <= parts.len() {
            assert(cl[i] == parts[i - 1]);
        } else {
            assert(cl[i] == fl);
        }
    }
}

pub open spec fn fence_open_token(b: BlockV, n: nat) -> TokenV {
    tok(
        TokenType::CodeFenceStart,
        fence_open(b),
        Seq::empty(),
        0,
        n,
        MetaTV { language: Some(crate::markdown::serializer::code_language(b.props)), ..no_meta() },
    )
}

/// The opening fence enters the code block.
proof fn lemma_lex_fence_open(b: BlockV, prev: Seq<char>, n: nat)
    requires
        is_plain_code(b),
    ensures
        lex_line(fence_open(b), initial_state(), prev, n) == (fence_open_token(b, n), code_state()),
{
    let lang = crate::markdown::serializer::code_language(b.props);
    let l = fence_open(b);
    assert(l.skip(0) =~= l);
    crate::markdown::tokenizer::lemma_run_len(l, |c: char| crate::markdown::tokenizer::is_blank_char(c), 0);
    assert(l[0] == '`');
    if lang.len() > 0 {
        assert(l[3] == lang[0]);
    }
    crate::markdown::tokenizer::lemma_char_run(l, '`', 3);
    assert(l.skip(3) =~= lang);
    assert(crate::text::trim_end(lang) == lang) by {
        if lang.len() > 0 {
            assert(!crate::text::is_ws(lang.last()));
        }
    }
    crate::markdown::tokenizer::lemma_run_len(
        lang,
        |c: char| crate::markdown::tokenizer::is_word(c),
        lang.len() as int,
    );
    assert(lang.take(lang.len() as int) =~= lang);
    assert(lang.skip(lang.len() as int) =~= Seq::<char>::empty());
    assert(crate::markdown::tokenizer::match_fence(l) == Some((0nat, '`', 3nat, lang)));
}

pub open spec fn code_line_token(c: Seq<char>, n: nat) -> TokenV {
    tok(TokenType::CodeContent, c, c, 0, n, no_meta())
}

/// A line without a backtick is code inside the block.
proof fn lemma_lex_code_line(c: Seq<char>, prev: Seq<char>, n: nat)
    requires
        no_char(c, '`'),
    ensures
        lex_line(c, code_state(), prev, n) == (code_line_token(c, n), code_state()),
{
    let k = crate::markdown::tokenizer::lws(c);
    lemma_run_len_le(c, |x: char| crate::markdown::tokenizer::is_blank_char(x));
    match crate::markdown::tokenizer::match_fence(c) {
        Some((_, ch, _, _)) => {
            assert(c.skip(k as int)[0] == c[k as int]);
            assert(ch == c[k as int]);
        },
        None => {},
    }
}

pub open spec fn fence_close_token(n: nat) -> TokenV {
    tok(TokenType::CodeFenceEnd, fence_line(), Seq::empty(), 0, n, no_meta())
}

/// The closing fence leaves the code block.
proof fn lemma_lex_fence_close(prev: Seq<char>, n: nat)
    ensures
        lex_line(fence_line(), code_state(), prev, n) == (fence_close_token(n), initial_state()),
{
    let l = fence_line();
    assert(l.skip(0) =~= l);
    crate::markdown::tokenizer::lemma_run_len(l, |c: char| crate::markdown::tokenizer::is_blank_char(c), 0);
    crate::markdown::tokenizer::lemma_char_run(l, '`', 3);
    assert(l.skip(3) =~= Seq::<char>::empty());
    let e = Seq::<char>::empty();
    assert(crate::text::trim_end(e) == e);
    crate::markdown::tokenizer::lemma_run_len(e, |c: char| crate::markdown::tokenizer::is_word(c), 0);
    assert(e.take(0) =~= e);
    assert(e.skip(0) =~= e);
    assert(crate::markdown::tokenizer::match_fence(l) == Some((0nat, '`', 3nat, e)));
}

proof fn lemma_run_end_at(ts: Seq<TokenV>, i: int, e: int, tt: TokenType)
    requires
        0 <= i <= e <= ts.len(),
        forall|k: int| i <= k < e ==> (#[trigger] ts[k]).token_type == tt,
        e < ts.len() ==> ts[e].token_type != tt,
    ensures
        run_end(ts, i, tt) == e,
    decreases e - i,
{
    if i < e {
        lemma_run_end_at(ts, i + 1, e, tt);
    }
}

/// A code block's tokens parse back to the code block.
proof fn lemma_block_at_code(ts: Seq<TokenV>, s: int, b: BlockV)
    requires
        is_plain_code(b),
        0 <= s,
        s + code_lines(b).len() <= ts.len(),
        ts[s].token_type == TokenType::CodeFenceStart,
        ts[s].meta.language == Some(crate::markdown::serializer::code_language(b.props)),
        forall|k: int|
            0 <= k < split(code_text(b), '\n').len() ==> (#[trigger] ts[s + 1 + k]).token_type
                == TokenType::CodeContent && ts[s + 1 + k].content == split(code_text(b), '\n')[k],
        ts[s + 1 + split(code_text(b), '\n').len()].token_type == TokenType::CodeFenceEnd,
    ensures
        block_at(ts, s) == (Some(crate::markdown::utils::erase_ids(b)), s + code_lines(b).len()),
{
    let parts = split(code_text(b), '\n');
    let m = parts.len();
    let e = s + 1 + m;
    assert forall|k: int| s + 1 <= k < e implies (#[trigger] ts[k]).token_type == TokenType::CodeContent by {
        assert(ts[s + 1 + (k - s - 1)].token_type == TokenType::CodeContent);
    }
    lemma_run_end_at(ts, s + 1, e, TokenType::CodeContent);
    assert(contents(ts, s + 1, e) =~= parts) by {
        assert forall|k: int| 0 <= k < m implies contents(ts, s + 1, e)[k] == parts[k] by {
            assert(ts[s + 1 + k].content == parts[k]);
        }
    }
    crate::text::lemma_join_split(code_text(b), '\n');
    assert(crate::markdown::utils::erase_all_ids(b.children) =~= Seq::<BlockV>::empty());
    assert(b.content =~= seq![SpanV { text: code_text(b), styles: plain_style() }]);
}

// ============================================================================
// Check-list items and quotes
// ============================================================================

/// One unstyled span of plain words, and no children.
pub open spec fn has_plain_words(b: BlockV) -> bool {
    &&& b.content.len() == 1
    &&& b.content[0].styles == plain_style()
    &&& is_plain_words(b.content[0].text)
    &&& b.children.len() == 0
}

/// A check-list item of plain words.
pub open spec fn is_plain_check(b: BlockV) -> bool {
    &&& has_plain_words(b)
    &&& b.block_type == BlockType::CheckList
    &&& b.props matches PropsV::CheckList(_)
}

/// A quote of plain words on one line.
pub open spec fn is_plain_quote(b: BlockV) -> bool {
    &&& has_plain_words(b)
    &&& b.block_type == BlockType::Blockquote
    &&& b.props == PropsV::Empty
}

pub open spec fn check_mark(b: BlockV) -> char {
    if crate::markdown::serializer::is_checked(b.props) {
        'x'
    } else {
        ' '
    }
}

pub open spec fn check_line(b: BlockV) -> Seq<char> {
    seq!['-', ' ', '['] + seq![check_mark(b)] + seq![']', ' '] + words_of(b)
}

pub open spec fn quote_line(b: BlockV) -> Seq<char> {
    seq!['>', ' '] + words_of(b)
}

pub open spec fn check_token(b: BlockV, n: nat) -> TokenV {
    tok(
        TokenType::CheckListItem,
        check_line(b),
        words_of(b),
        0,
        n,
        MetaTV { checked: Some(crate::markdown::serializer::is_checked(b.props)), ..no_meta() },
    )
}

pub open spec fn quote_token(b: BlockV, n: nat) -> TokenV {
    tok(TokenType::Blockquote, quote_line(b), words_of(b), 0, n, no_meta())
}

proof fn lemma_plain_inline(b: BlockV, o: MarkdownSerializeOptions)
    requires
        has_plain_words(b),
    ensures
        ser_inline(b.content, o) == words_of(b),
{
    let sp = b.content[0];
    assert(b.content.drop_last() =~= Seq::<SpanV>::empty());
    assert(ser_inline(b.content, o) == ser_inline(Seq::<SpanV>::empty(), o) + ser_span(sp, o));
    assert(ser_inline(b.content, o) =~= words_of(b));
}

proof fn lemma_words_line(p: Seq<char>, t: Seq<char>)
    requires
        is_plain_words(t),
        no_cr(p),
        no_char(p, '\n'),
    ensures
        (p + t).len() > 0,
        no_cr(p + t),
        no_char(p + t, '\n'),
        (p + t).last() == t.last(),
{
    let l = p + t;
    assert forall|i: int| 0 <= i < l.len() implies l[i] != '\r' && l[i] != '\n' by {
        if i >= p.len() {
            assert(l[i] == t[i - p.len()]);
            assert(is_ascii_alnum(t[i - p.len()]) || t[i - p.len()] == ' ');
        }
    }
}

/// A check-list item and a quote are written as their one line.
proof fn lemma_ser_check_quote(b: BlockV, o: MarkdownSerializeOptions)
    requires
        is_plain_check(b) || is_plain_quote(b),
    ensures
        is_plain_check(b) ==> ser_block(b, 0, o) == check_line(b),
        is_plain_quote(b) ==> ser_block(b, 0, o) == quote_line(b),
        is_plain_check(b) ==> check_line(b).len() > 0 && no_cr(check_line(b)) && no_char(check_line(b), '\n'),
        is_plain_quote(b) ==> quote_line(b).len() > 0 && no_cr(quote_line(b)) && no_char(quote_line(b), '\n'),
{
    let t = words_of(b);
    lemma_plain_inline(b, o);
    if is_plain_check(b) {
        assert(crate::markdown::serializer::pad(0, o) =~= Seq::<char>::empty());
        assert(ser_block(b, 0, o) =~= check_line(b));
        let p = seq!['-', ' ', '['] + seq![check_mark(b)] + seq![']', ' '];
        assert(check_line(b) == p + t);
        lemma_words_line(p, t);
    } else {
        assert(no_char(t, '\n')) by {
            assert forall|i: int| 0 <= i < t.len() implies t[i] != '\n' by {
                assert(is_ascii_alnum(t[i]) || t[i] == ' ');
            }
        }
        lemma_split_single(t, '\n');
        assert(crate::markdown::serializer::prefix_all(seq!['>', ' '], seq![t]) =~= seq![quote_line(b)]);
        assert(join(seq![quote_line(b)], le_of(o)) == quote_line(b));
        lemma_words_line(seq!['>', ' '], t);
    }
}

proof fn lemma_lex_check(b: BlockV, n: nat)
    requires
        is_plain_check(b),
    ensures
        lex_line(check_line(b), initial_state(), Seq::empty(), n) == (check_token(b, n), initial_state()),
{
    let t = words_of(b);
    lemma_words_trim(t);
    let l = check_line(b);
    assert(l.skip(0) =~= l);
    crate::markdown::tokenizer::lemma_run_len(l, |c: char| crate::markdown::tokenizer::is_blank_char(c), 0);
    crate::markdown::tokenizer::lemma_char_run(l, '#', 0);
    assert(l[0] == '-' && l[1] == ' ' && l[2] == '[' && l[4] == ']' && l[5] == ' ');
    assert(l.last() == t.last());
    assert(!crate::text::is_ws(l.last()));
    assert(crate::markdown::tokenizer::match_fence(l) is None);
    assert(!crate::text::all_ws(l));
    assert(crate::text::trim_end_blank(l) == l);
    assert(!crate::markdown::tokenizer::all_eq(l, '-'));
    assert(crate::markdown::tokenizer::match_divider(l) is None);
    assert(crate::markdown::tokenizer::match_atx(l) is None);
    assert(crate::markdown::tokenizer::match_quote(l) is None);
    assert(crate::markdown::tokenizer::match_callout(l) is None);
    let rest = l.skip(2);
    assert(rest =~= seq!['['] + seq![check_mark(b)] + seq![']', ' '] + t);
    assert(crate::text::trim_start(rest) == rest);
    assert(crate::markdown::tokenizer::match_bullet(l) == Some((0nat, '-', rest)));
    assert(rest.skip(4) =~= t);
    assert(crate::markdown::tokenizer::match_check(l) == Some(
        (0nat, crate::markdown::serializer::is_checked(b.props), t),
    ));
}

proof fn lemma_lex_quote(b: BlockV, n: nat)
    requires
        is_plain_quote(b),
    ensures
        lex_line(quote_line(b), initial_state(), Seq::empty(), n) == (quote_token(b, n), initial_state()),
{
    let t = words_of(b);
    lemma_words_trim(t);
    let l = quote_line(b);
    assert(l.skip(0) =~= l);
    crate::markdown::tokenizer::lemma_run_len(l, |c: char| crate::markdown::tokenizer::is_blank_char(c), 0);
    crate::markdown::tokenizer::lemma_char_run(l, '#', 0);
    assert(l[0] == '>' && l[1] == ' ');
    assert(l.last() == t.last());
    assert(!crate::text::is_ws(l.last()));
    assert(crate::markdown::tokenizer::match_fence(l) is None);
    assert(!crate::text::all_ws(l));
    assert(crate::text::trim_end_blank(l) == l);
    assert(crate::markdown::tokenizer::match_divider(l) is None);
    assert(crate::markdown::tokenizer::match_atx(l) is None);
    assert(l.skip(1).skip(1) =~= t);
    assert(crate::markdown::tokenizer::match_quote(l) == Some(t));
    assert(t[0] != '[');
    assert(crate::markdown::tokenizer::match_callout(l) is None);
}

/// A check-list item's or a quote's token, followed by a blank line or the
/// end, parses back to it.
proof fn lemma_block_at_check_quote(ts: Seq<TokenV>, s: int, b: BlockV, n: nat)
    requires
        is_plain_check(b) || is_plain_quote(b),
        0 <= s < ts.len(),
        is_plain_check(b) ==> ts[s] == check_token(b, n),
        is_plain_quote(b) ==> ts[s] == quote_token(b, n),
        s + 1 == ts.len() || ts[s + 1].token_type == TokenType::Blank,
    ensures
        block_at(ts, s) == (Some(crate::markdown::utils::erase_ids(b)), s + 1),
{
    let t = words_of(b);
    assert forall|k: int| 0 <= k < t.len() implies is_literal_char(#[trigger] t[k]) by {
        assert(is_ascii_alnum(t[k]) || t[k] == ' ');
    }
    law_literal_text_is_one_span(t);
    assert(b.content =~= seq![SpanV { text: t, styles: plain_style() }]);
    assert(crate::markdown::utils::erase_all_ids(b.children) =~= Seq::<BlockV>::empty());
    if is_plain_quote(b) {
        assert(run_end(ts, s + 1, TokenType::Blockquote) == s + 1);
        assert(run_end(ts, s, TokenType::Blockquote) == s + 1);
        assert(contents(ts, s, s + 1) =~= seq![t]);
        assert(join(seq![t], seq!['\n']) == t);
    }
}

// ============================================================================
// Bullet lists
// ============================================================================

/// A list item of plain words.
pub open spec fn is_plain_item(c: BlockV) -> bool {
    &&& has_plain_words(c)
    &&& c.block_type == BlockType::Paragraph
    &&& c.props == PropsV::Empty
}

/// A bullet list of one or more items of plain words.
pub open spec fn is_plain_bullets(b: BlockV) -> bool {
    &&& b.block_type == BlockType::BulletList
    &&& b.content.len() == 0
    &&& b.props == PropsV::Empty
    &&& b.children.len() > 0
    &&& forall|i: int| 0 <= i < b.children.len() ==> is_plain_item(#[trigger] b.children[i])
}

pub open spec fn bullet_line(c: BlockV, o: MarkdownSerializeOptions) -> Seq<char> {
    seq![crate::markdown::types::bullet_of(o.bullet_char), ' '] + words_of(c)
}

/// The lines of a bullet list: one per item (a list without items is
/// written as an empty text, one empty line).
pub open spec fn bullet_lines(b: BlockV, o: MarkdownSerializeOptions) -> Seq<Seq<char>> {
    if b.children.len() == 0 {
        seq![Seq::<char>::empty()]
    } else {
        Seq::new(b.children.len(), |i: int| bullet_line(b.children[i], o))
    }
}

pub open spec fn bullet_token(c: BlockV, o: MarkdownSerializeOptions, n: nat) -> TokenV {
    tok(
        TokenType::BulletListItem,
        bullet_line(c, o),
        words_of(c),
        0,
        n,
        MetaTV { list_marker: Some(crate::markdown::types::bullet_of(o.bullet_char)), ..no_meta() },
    )
}

proof fn lemma_item_lines(items: Seq<BlockV>, o: MarkdownSerializeOptions)
    requires
        forall|i: int| 0 <= i < items.len() ==> is_plain_item(#[trigger] items[i]),
    ensures
        crate::markdown::serializer::item_lines(items, 0, o, false) == Seq::new(
            items.len(),
            |i: int| bullet_line(items[i], o),
        ),
    decreases items.len(),
{
    if items.len() > 0 {
        let d = items.drop_last();
        assert forall|i: int| 0 <= i < d.len() implies is_plain_item(#[trigger] d[i]) by {
            assert(d[i] == items[i]);
        }
        lemma_item_lines(d, o);
        let c = items.last();
        assert(is_plain_item(c));
        lemma_plain_inline(c, o);
        assert(crate::markdown::serializer::pad(0, o) =~= Seq::<char>::empty());
        assert(crate::markdown::serializer::item_text(c, 0, o) == words_of(c));
        assert(crate::markdown::serializer::item_prefix(0, o, false, items.len()) =~= seq![
            crate::markdown::types::bullet_of(o.bullet_char),
            ' ',
        ]);
        assert(Seq::new(items.len(), |i: int| bullet_line(items[i], o)) =~= Seq::new(
            d.len(),
            |i: int| bullet_line(d[i], o),
        ).push(bullet_line(c, o)));
    } else {
        assert(Seq::new(0, |i: int| bullet_line(items[i], o)) =~= Seq::<Seq<char>>::empty());
    }
}

/// A bullet item's line is read as its token, whatever line came before.
proof fn lemma_lex_bullet(c: BlockV, o: MarkdownSerializeOptions, prev: Seq<char>, n: nat)
    requires
        is_plain_item(c),
    ensures
        lex_line(bullet_line(c, o), initial_state(), prev, n) == (bullet_token(c, o, n), initial_state()),
        bullet_line(c, o).len() > 0,
        no_cr(bullet_line(c, o)),
        no_char(bullet_line(c, o), '\n'),
{
    let t = words_of(c);
    let bc = crate::markdown::types::bullet_of(o.bullet_char);
    lemma_words_trim(t);
    let l = bullet_line(c, o);
    lemma_words_line(seq![bc, ' '], t);
    assert(l.skip(0) =~= l);
    crate::markdown::tokenizer::lemma_run_len(l, |x: char| crate::markdown::tokenizer::is_blank_char(x), 0);
    crate::markdown::tokenizer::lemma_char_run(l, '#', 0);
    assert(l[0] == bc && l[1] == ' ');
    assert(bc == '-' || bc == '*' || bc == '+');
    assert(l.last() == t.last());
    assert(!crate::text::is_ws(l.last()));
    assert(crate::markdown::tokenizer::match_fence(l) is None);
    assert(!crate::text::all_ws(l));
    assert(crate::text::trim_end_blank(l) == l);
    assert(!crate::markdown::tokenizer::all_eq(l, l[0]));
    assert(crate::markdown::tokenizer::match_divider(l) is None);
    assert(crate::markdown::tokenizer::match_atx(l) is None);
    assert(crate::markdown::tokenizer::match_quote(l) is None);
    assert(crate::markdown::tokenizer::match_callout(l) is None);
    assert(l.skip(2) =~= t);
    assert(crate::markdown::tokenizer::match_bullet(l) == Some((0nat, bc, t)));
    assert(t[0] != '[');
    assert(crate::markdown::tokenizer::match_check(l) is None);
}

proof fn lemma_list_items_flat(ts: Seq<TokenV>, s: int, m: int, i: int, acc: Seq<BlockV>)
    requires
        0 <= s,
        0 <= i <= m,
        s + m <= ts.len(),
        forall|k: int| s <= k < s + m ==> (#[trigger] ts[k]).token_type == TokenType::BulletListItem
            && ts[k].indent == 0,
        s + m == ts.len() || ts[s + m].token_type != TokenType::BulletListItem,
    ensures
        crate::markdown::block_parser::list_items(ts, TokenType::BulletListItem, 0, s + i, acc) == (
            acc + Seq::new((m - i) as nat, |k: int| crate::markdown::block_parser::item_of(ts[s + i + k])),
            s + m,
        ),
    decreases m - i,
{
    let f = |k: int| crate::markdown::block_parser::item_of(ts[s + i + k]);
    if i < m {
        assert(ts[s + i].token_type == TokenType::BulletListItem && ts[s + i].indent == 0);
        let acc2 = acc.push(crate::markdown::block_parser::item_of(ts[s + i]));
        lemma_list_items_flat(ts, s, m, i + 1, acc2);
        assert(acc2 + Seq::new((m - (i + 1)) as nat, |k: int| crate::markdown::block_parser::item_of(
            ts[s + (i + 1) + k],
        )) =~= acc + Seq::new((m - i) as nat, f));
    } else {
        assert(acc + Seq::new(0, f) =~= acc);
    }
}

/// A bullet list's tokens, followed by a blank line or the end, parse back
/// to the list.
proof fn lemma_block_at_bullets(ts: Seq<TokenV>, s: int, b: BlockV, o: MarkdownSerializeOptions)
    requires
        is_plain_bullets(b),
        0 <= s,
        s + b.children.len() <= ts.len(),
        forall|k: int| 0 <= k < b.children.len() ==> #[trigger] ts[s + k] == bullet_token(
            b.children[k],
            o,
            ts[s + k].line,
        ),
        s + b.children.len() == ts.len() || ts[s + b.children.len()].token_type == TokenType::Blank,
    ensures
        block_at(ts, s) == (Some(crate::markdown::utils::erase_ids(b)), s + b.children.len()),
{
    let cs = b.children;
    let m = cs.len() as int;
    assert forall|k: int| s <= k < s + m implies (#[trigger] ts[k]).token_type == TokenType::BulletListItem
        && ts[k].indent == 0 by {
        assert(ts[s + (k - s)] == bullet_token(cs[k - s], o, ts[s + (k - s)].line));
    }
    lemma_list_items_flat(ts, s, m, 0, Seq::empty());
    let items = Seq::new(m as nat, |k: int| crate::markdown::block_parser::item_of(ts[s + 0 + k]));
    crate::markdown::utils::lemma_erase_all_ids(cs);
    assert(items =~= crate::markdown::utils::erase_all_ids(cs)) by {
        assert forall|k: int| 0 <= k < m implies items[k] == crate::markdown::utils::erase_all_ids(cs)[k] by {
            let c = cs[k];
            assert(is_plain_item(c));
            let t = words_of(c);
            assert(ts[s + k] == bullet_token(c, o, ts[s + k].line));
            assert(s + 0 + k == s + k);
            assert forall|q: int| 0 <= q < t.len() implies is_literal_char(#[trigger] t[q]) by {
                assert(is_ascii_alnum(t[q]) || t[q] == ' ');
            }
            law_literal_text_is_one_span(t);
            assert(c.content =~= seq![SpanV { text: t, styles: plain_style() }]);
            assert(crate::markdown::utils::erase_all_ids(c.children) =~= Seq::<BlockV>::empty());
        }
    }
    assert(Seq::<BlockV>::empty() + items =~= items);
    assert(b.content =~= Seq::<SpanV>::empty());
}

// ============================================================================
// Writing ignores identifiers
// ============================================================================

/// Writing blocks does not read their identifiers.
proof fn lemma_ser_ignores_ids(bs: Seq<BlockV>, o: MarkdownSerializeOptions)
    requires
        forall|k: int| 0 <= k < bs.len() ==> (#[trigger] bs[k]).children.len() == 0 || is_plain_bullets(bs[k]),
    ensures
        ser_blocks(crate::markdown::utils::erase_all_ids(bs), o) == ser_blocks(bs, o),
{
    let e = crate::markdown::utils::erase_all_ids(bs);
    crate::markdown::utils::lemma_erase_all_ids(bs);
    assert forall|i: int| 0 <= i < bs.len() implies ser_block(#[trigger] e[i], 0, o) == ser_block(
        bs[i],
        0,
        o,
    ) by {
        let b = bs[i];
        if b.children.len() == 0 {
            assert(crate::markdown::utils::erase_all_ids(b.children) =~= b.children);
            assert(e[i] =~= BlockV { id: Seq::empty(), ..b });
        } else {
            let cs = b.children;
            let ec = crate::markdown::utils::erase_all_ids(cs);
            crate::markdown::utils::lemma_erase_all_ids(cs);
            assert(e[i] == BlockV { id: Seq::empty(), children: ec, ..b });
            assert forall|k: int| 0 <= k < ec.len() implies is_plain_item(#[trigger] ec[k]) by {
                assert(is_plain_item(cs[k]));
                assert(ec[k] == crate::markdown::utils::erase_ids(cs[k]));
                assert(crate::markdown::utils::erase_all_ids(cs[k].children) =~= Seq::<BlockV>::empty());
            }
            lemma_item_lines(cs, o);
            lemma_item_lines(ec, o);
            assert(Seq::new(ec.len(), |q: int| bullet_line(ec[q], o)) =~= Seq::new(
                cs.len(),
                |q: int| bullet_line(cs[q], o),
            ));
        }
    }
    assert(Seq::new(e.len(), |i: int| ser_block(e[i], 0, o)) =~= Seq::new(
        bs.len(),
        |i: int| ser_block(bs[i], 0, o),
    ));
}

// ============================================================================
// Tables: cells
// ============================================================================

/// `p` is `c` padded on the right with spaces.
pub open spec fn padded_by(p: Seq<char>, c: Seq<char>) -> bool {
    p.len() >= c.len() && p == c + repeat(' ', (p.len() - c.len()) as nat)
}

/// A cell written and read back unchanged: empty, or plain words.
pub open spec fn is_plain_cell(c: Seq<char>) -> bool {
    c.len() == 0 || is_plain_words(c)
}

/// A row of plain cells whose first and last cells are not empty.
pub open spec fn is_plain_row(r: Seq<Seq<char>>) -> bool {
    &&& r.len() >= 1
    &&& is_plain_words(r[0])
    &&& is_plain_words(r.last())
    &&& forall|i: int| 0 <= i < r.len() ==> is_plain_cell(#[trigger] r[i])
}

proof fn lemma_pad_right(c: Seq<char>, w: nat)
    ensures
        padded_by(crate::markdown::serializer::pad_right(c, w), c),
{
    let p = crate::markdown::serializer::pad_right(c, w);
    if c.len() >= w {
        assert(repeat(' ', 0) =~= Seq::<char>::empty());
        assert(c + repeat(' ', 0) =~= c);
    }
}

proof fn lemma_join_ends(d: Seq<Seq<char>>, sep: Seq<char>)
    requires
        d.len() >= 1,
        d[0].len() > 0,
        d.last().len() > 0,
    ensures
        join(d, sep).len() > 0,
        join(d, sep)[0] == d[0][0],
        join(d, sep).last() == d.last().last(),
    decreases d.len(),
{
    if d.len() > 1 {
        let dd = d.drop_last();
        if dd.len() > 1 {
            assert(dd.last().len() >= 0);
        }
        if dd.len() == 1 {
            assert(join(dd, sep) == dd[0]);
        } else {
            lemma_join_first(dd, sep);
        }
        assert(join(d, sep) == join(dd, sep) + sep + d.last());
    }
}

proof fn lemma_join_first(d: Seq<Seq<char>>, sep: Seq<char>)
    requires
        d.len() >= 1,
        d[0].len() > 0,
    ensures
        join(d, sep).len() > 0,
        join(d, sep)[0] == d[0][0],
    decreases d.len(),
{
    if d.len() > 1 {
        let dd = d.drop_last();
        lemma_join_first(dd, sep);
        assert(join(d, sep) == join(dd, sep) + sep + d.last());
    }
}

pub open spec fn bar_sep() -> Seq<char> {
    seq![' ', '|', ' ']
}

/// Splitting `p + join(d, " | ") + e` at `|`: one piece per element, with
/// the spaces around the bars attached.
proof fn lemma_split_bar(p: Seq<char>, d: Seq<Seq<char>>, e: Seq<char>)
    requires
        d.len() >= 1,
        no_char(p, '|'),
        no_char(e, '|'),
        forall|i: int| 0 <= i < d.len() ==> no_char(#[trigger] d[i], '|'),
    ensures
        split(p + join(d, bar_sep()) + e, '|').len() == d.len(),
        forall|i: int|
            0 <= i < d.len() ==> #[trigger] split(p + join(d, bar_sep()) + e, '|')[i] == (if i == 0 {
                p
            } else {
                seq![' ']
            }) + d[i] + (if i == d.len() - 1 {
                e
            } else {
                seq![' ']
            }),
    decreases d.len(),
{
    let n = d.len();
    if n == 1 {
        let x = p + d[0] + e;
        assert(join(d, bar_sep()) == d[0]);
        assert(no_char(x, '|')) by {
            assert forall|k: int| 0 <= k < x.len() implies x[k] != '|' by {
                if k < p.len() {
                    assert(x[k] == p[k]);
                } else if k < p.len() + d[0].len() {
                    assert(x[k] == d[0][k - p.len()]);
                } else {
                    assert(x[k] == e[k - p.len() - d[0].len()]);
                }
            }
        }
        lemma_split_single(x, '|');
    } else {
        let dd = d.drop_last();
        let last = d.last();
        assert forall|i: int| 0 <= i < dd.len() implies no_char(#[trigger] dd[i], '|') by {
            assert(dd[i] == d[i]);
        }
        assert(no_char(seq![' '], '|'));
        lemma_split_bar(p, dd, seq![' ']);
        let a = p + join(dd, bar_sep()) + seq![' '];
        let b = seq![' '] + last + e;
        assert(join(d, bar_sep()) == join(dd, bar_sep()) + bar_sep() + last);
        assert(p + join(d, bar_sep()) + e =~= a + seq!['|'] + b);
        lemma_split_concat(a, b, '|');
        assert(no_char(b, '|')) by {
            assert forall|k: int| 0 <= k < b.len() implies b[k] != '|' by {
                if k == 0 {
                } else if k < 1 + last.len() {
                    assert(b[k] == last[k - 1]);
                    assert(last == d[n - 1]);
                } else {
                    assert(b[k] == e[k - 1 - last.len()]);
                }
            }
        }
        lemma_split_single(b, '|');
        let sa = split(a, '|');
        let whole = split(p + join(d, bar_sep()) + e, '|');
        assert(whole == sa + seq![b]);
        assert forall|i: int| 0 <= i < d.len() implies #[trigger] whole[i] == (if i == 0 {
            p
        } else {
            seq![' ']
        }) + d[i] + (if i == d.len() - 1 {
            e
        } else {
            seq![' ']
        }) by {
            if i < n - 1 {
                assert(whole[i] == sa[i]);
                assert(dd[i] == d[i]);
            } else {
                assert(whole[i] == b);
            }
        }
    }
}

/// A text wrapped in whitespace trims to the text, when it starts and ends
/// with non-whitespace.
proof fn lemma_trim_wrapped(a: Seq<char>, t: Seq<char>, b: Seq<char>)
    requires
        crate::text::all_ws(a),
        crate::text::all_ws(b),
        t.len() > 0,
        !crate::text::is_ws(t[0]),
        !crate::text::is_ws(t.last()),
    ensures
        crate::text::trim(a + t + b) == t,
{
    let s = a + t + b;
    crate::text::lemma_trim_start_at(s, a.len() as int);
    let u = s.skip(a.len() as int);
    assert(u =~= t + b);
    crate::text::lemma_trim_end_at(u, t.len() as int);
    assert(u.take(t.len() as int) =~= t);
}

proof fn lemma_spaces_ws(k: nat)
    ensures
        crate::text::all_ws(repeat(' ', k)),
        no_char(repeat(' ', k), '|'),
{
}

/// A plain cell with spaces around it trims to the cell.
proof fn lemma_trim_padded(a: Seq<char>, c: Seq<char>, b: Seq<char>)
    requires
        crate::text::all_ws(a),
        crate::text::all_ws(b),
        is_plain_cell(c),
    ensures
        crate::text::trim(a + c + b) == c,
{
    if c.len() == 0 {
        let s = a + c + b;
        assert(crate::text::all_ws(s)) by {
            assert forall|k: int| 0 <= k < s.len() implies crate::text::is_ws(s[k]) by {
                if k < a.len() {
                    assert(s[k] == a[k]);
                } else {
                    assert(s[k] == b[k - a.len()]);
                }
            }
        }
        crate::text::lemma_trim_all_ws(s);
    } else {
        assert(is_ascii_alnum(c.last()));
        lemma_trim_wrapped(a, c, b);
    }
}

/// The cells of a written row read back as the row: `| c1 | c2 |` with
/// each cell padded to its column width.
proof fn lemma_row_cells(cs: Seq<Seq<char>>, ps: Seq<Seq<char>>)
    requires
        is_plain_row(cs),
        ps.len() == cs.len(),
        forall|i: int| 0 <= i < cs.len() ==> padded_by(#[trigger] ps[i], cs[i]),
    ensures
        crate::markdown::block_parser::row_cells(seq![' '] + join(ps, bar_sep()) + seq![' ']) == cs,
{
    let n = cs.len();
    let last = cs.last();
    let k = (ps[n - 1].len() - last.len()) as nat;
    let d = ps.update(n - 1, last);
    // Every piece is free of bars and newlines.
    assert forall|i: int| 0 <= i < cs.len() implies no_char(#[trigger] cs[i], '|') by {
        assert(is_plain_cell(cs[i]));
        assert forall|j: int| 0 <= j < cs[i].len() implies cs[i][j] != '|' by {
            assert(is_ascii_alnum(cs[i][j]) || cs[i][j] == ' ');
        }
    }
    assert forall|i: int| 0 <= i < d.len() implies no_char(#[trigger] d[i], '|') by {
        if i == n - 1 {
            assert(d[i] == cs[i]);
        } else {
            assert(d[i] == ps[i]);
            assert(padded_by(ps[i], cs[i]));
            let sp = repeat(' ', (ps[i].len() - cs[i].len()) as nat);
            assert forall|j: int| 0 <= j < d[i].len() implies d[i][j] != '|' by {
                if j < cs[i].len() {
                    assert(d[i][j] == cs[i][j]);
                } else {
                    assert(d[i][j] == sp[j - cs[i].len()]);
                }
            }
        }
    }
    // join(ps) is join(d) followed by the last cell's padding.
    assert(padded_by(ps[n - 1], cs[n - 1]));
    assert(ps[n - 1] == last + repeat(' ', k));
    let jd = join(d, bar_sep());
    assert(join(ps, bar_sep()) == jd + repeat(' ', k)) by {
        if n == 1 {
            assert(join(ps, bar_sep()) == ps[0]);
            assert(jd == d[0]);
        } else {
            assert(ps.drop_last() =~= d.drop_last());
            assert(join(ps, bar_sep()) == join(ps.drop_last(), bar_sep()) + bar_sep() + ps.last());
            assert(jd == join(d.drop_last(), bar_sep()) + bar_sep() + d.last());
            assert(join(ps, bar_sep()) =~= jd + repeat(' ', k));
        }
    }
    let content = seq![' '] + join(ps, bar_sep()) + seq![' '];
    assert(content =~= seq![' '] + jd + (repeat(' ', k) + seq![' ']));
    // trimming leaves the joined cells, which start and end with a letter or digit
    assert(d[0].len() > 0) by {
        if n == 1 {
            assert(d[0] == last);
        } else {
            assert(d[0] == ps[0]);
            assert(padded_by(ps[0], cs[0]));
            assert(ps[0][0] == cs[0][0]);
        }
    }
    assert(d[0][0] == cs[0][0]) by {
        if n > 1 {
            assert(padded_by(ps[0], cs[0]));
        }
    }
    assert(d.last() == last);
    lemma_join_ends(d, bar_sep());
    assert(is_ascii_alnum(cs[0][0]));
    assert(is_ascii_alnum(last.last()));
    lemma_spaces_ws(k);
    assert(crate::text::all_ws(repeat(' ', k) + seq![' '])) by {
        let w = repeat(' ', k) + seq![' '];
        assert forall|j: int| 0 <= j < w.len() implies crate::text::is_ws(w[j]) by {
            if j < k {
                assert(w[j] == repeat(' ', k)[j]);
            }
        }
    }
    assert(crate::text::all_ws(seq![' ']));
    lemma_trim_wrapped(seq![' '], jd, repeat(' ', k) + seq![' ']);
    let t = crate::text::trim(content);
    assert(t == jd);
    assert(crate::text::strip_start(t, '|') == t);
    assert(crate::text::strip_end(t, '|') == t);
    // split into pieces, each trimming to its cell
    assert(Seq::<char>::empty() + jd + Seq::<char>::empty() =~= jd);
    lemma_split_bar(Seq::<char>::empty(), d, Seq::<char>::empty());
    let pieces = split(jd, '|');
    let cells = crate::markdown::block_parser::trim_all(pieces);
    assert forall|i: int| 0 <= i < n implies #[trigger] cells[i] == cs[i] by {
        let pre = if i == 0 {
            Seq::<char>::empty()
        } else {
            seq![' ']
        };
        let post = if i == n - 1 {
            Seq::<char>::empty()
        } else {
            seq![' ']
        };
        assert(pieces[i] == pre + d[i] + post);
        assert(is_plain_cell(cs[i]));
        if i == n - 1 {
            assert(d[i] == cs[i]);
            assert(pieces[i] =~= pre + cs[i] + post);
            lemma_trim_padded(pre, cs[i], post);
        } else {
            assert(d[i] == ps[i]);
            assert(padded_by(ps[i], cs[i]));
            let sp = repeat(' ', (ps[i].len() - cs[i].len()) as nat);
            lemma_spaces_ws((ps[i].len() - cs[i].len()) as nat);
            assert(pieces[i] =~= pre + cs[i] + (sp + post));
            assert(crate::text::all_ws(sp + post)) by {
                let w = sp + post;
                assert forall|j: int| 0 <= j < w.len() implies crate::text::is_ws(w[j]) by {
                    if j < sp.len() {
                        assert(w[j] == sp[j]);
                    } else {
                        assert(w[j] == post[j - sp.len()]);
                    }
                }
            }
            lemma_trim_padded(pre, cs[i], sp + post);
        }
    }
    assert(cells =~= cs);
}


// ============================================================================
// Tables: the separator row
// ============================================================================

proof fn lemma_sep_cell(w: nat, a: Option<TableAlignment>)
    requires
        w >= 3,
    ensures
        ({
            let c = crate::markdown::serializer::sep_cell(w, a);
            &&& c.len() > 0
            &&& forall|j: int| 0 <= j < c.len() ==> (#[trigger] c[j] == '-' || c[j] == ':')
            &&& crate::markdown::block_parser::alignment_of(c) == a
        }),
{
    let c = crate::markdown::serializer::sep_cell(w, a);
    let w1 = (w - 1) as nat;
    let w2 = (w - 2) as nat;
    match a {
        Some(TableAlignment::Left) => {
            assert(c == seq![':'] + repeat('-', w1));
            assert(c.last() == '-');
        },
        Some(TableAlignment::Right) => {
            assert(c == repeat('-', w1) + seq![':']);
            assert(c[0] == '-');
        },
        Some(TableAlignment::Center) => {
            assert(c == seq![':'] + repeat('-', w2) + seq![':']);
            assert forall|j: int| 0 <= j < c.len() implies (#[trigger] c[j] == '-' || c[j] == ':') by {
                if 0 < j < c.len() - 1 {
                    assert(c[j] == repeat('-', w2)[j - 1]);
                }
            }
        },
        None => {
            assert(c == repeat('-', w));
            assert(c[0] == '-' && c.last() == '-');
        },
    }
}

proof fn lemma_alignments_from_pieces(ps: Seq<Seq<char>>)
    requires
        forall|i: int| 0 <= i < ps.len() ==> crate::text::trim(#[trigger] ps[i]).len() > 0,
    ensures
        crate::markdown::block_parser::alignments_from(seq![Seq::<char>::empty()] + ps) == Seq::new(
            ps.len(),
            |i: int| crate::markdown::block_parser::alignment_of(crate::text::trim(ps[i])),
        ),
    decreases ps.len(),
{
    let q = seq![Seq::<char>::empty()] + ps;
    let want = Seq::new(
        ps.len(),
        |i: int| crate::markdown::block_parser::alignment_of(crate::text::trim(ps[i])),
    );
    crate::text::lemma_trim_all_ws(Seq::<char>::empty());
    if ps.len() == 0 {
        assert(q =~= seq![Seq::<char>::empty()]);
        assert(q.drop_last() =~= Seq::<Seq<char>>::empty());
        assert(crate::markdown::block_parser::alignments_from(q) == crate::markdown::block_parser::alignments_from(
            q.drop_last(),
        ));
        assert(want =~= Seq::<Option<TableAlignment>>::empty());
    } else {
        let pd = ps.drop_last();
        assert forall|i: int| 0 <= i < pd.len() implies crate::text::trim(#[trigger] pd[i]).len() > 0 by {
            assert(pd[i] == ps[i]);
        }
        lemma_alignments_from_pieces(pd);
        assert(q.drop_last() =~= seq![Seq::<char>::empty()] + pd);
        assert(q.last() == ps.last());
        let c = crate::text::trim(ps[ps.len() - 1]);
        assert(c.len() > 0);
        let prev = crate::markdown::block_parser::alignments_from(q.drop_last());
        assert(crate::markdown::block_parser::alignments_from(q) == prev.push(
            crate::markdown::block_parser::alignment_of(c),
        ));
        assert forall|i: int| 0 <= i < ps.len() implies #[trigger] prev.push(
            crate::markdown::block_parser::alignment_of(c),
        )[i] == want[i] by {
            if i < pd.len() {
                assert(pd[i] == ps[i]);
            }
        }
        assert(prev.push(crate::markdown::block_parser::alignment_of(c)) =~= want);
    }
}

/// The separator row reads back as the alignments it was written with.
proof fn lemma_sep_alignments(sc: Seq<Seq<char>>, al: Seq<Option<TableAlignment>>, ws: Seq<nat>)
    requires
        sc.len() >= 1,
        al.len() == sc.len(),
        ws.len() == sc.len(),
        forall|i: int| 0 <= i < sc.len() ==> #[trigger] ws[i] >= 3 && sc[i]
            == crate::markdown::serializer::sep_cell(ws[i], al[i]),
    ensures
        crate::markdown::block_parser::alignments_of(
            crate::markdown::serializer::table_line(join(sc, bar_sep())),
        ) == al,
        crate::markdown::tokenizer::all_sep(seq![' '] + join(sc, bar_sep()) + seq![' ']),
{
    let n = sc.len();
    let j = join(sc, bar_sep());
    let x = seq![' '] + j + seq![' '];
    assert forall|i: int| 0 <= i < n implies no_char(#[trigger] sc[i], '|') by {
        lemma_sep_cell(ws[i], al[i]);
    }
    lemma_split_bar(seq![' '], sc, seq![' ']);
    let line = crate::markdown::serializer::table_line(j);
    assert(line =~= Seq::<char>::empty() + seq!['|'] + (x + seq!['|'] + Seq::<char>::empty()));
    lemma_split_concat(Seq::<char>::empty(), x + seq!['|'] + Seq::<char>::empty(), '|');
    lemma_split_concat(x, Seq::<char>::empty(), '|');
    assert(split(Seq::<char>::empty(), '|') =~= seq![Seq::<char>::empty()]);
    let pieces = split(x, '|');
    assert(split(line, '|') =~= seq![Seq::<char>::empty()] + (pieces + seq![Seq::<char>::empty()]));
    assert forall|i: int| 0 <= i < n implies crate::text::trim(#[trigger] pieces[i]) == sc[i] && sc[i].len() > 0 by {
        lemma_sep_cell(ws[i], al[i]);
        assert(pieces[i] == seq![' '] + sc[i] + seq![' ']);
        assert(crate::text::all_ws(seq![' ']));
        let c = sc[i];
        assert(c[0] == '-' || c[0] == ':');
        assert(c.last() == '-' || c.last() == ':');
        lemma_trim_wrapped(seq![' '], c, seq![' ']);
    }
    // the empty piece after the last bar reads as nothing
    let q = seq![Seq::<char>::empty()] + (pieces + seq![Seq::<char>::empty()]);
    assert(q.drop_last() =~= seq![Seq::<char>::empty()] + pieces);
    crate::text::lemma_trim_all_ws(Seq::<char>::empty());
    assert(crate::markdown::block_parser::alignments_from(q) == crate::markdown::block_parser::alignments_from(
        seq![Seq::<char>::empty()] + pieces,
    ));
    lemma_alignments_from_pieces(pieces);
    assert forall|i: int| 0 <= i < n implies crate::markdown::block_parser::alignment_of(
        crate::text::trim(#[trigger] pieces[i]),
    ) == al[i] by {
        lemma_sep_cell(ws[i], al[i]);
    }
    assert(Seq::new(
        pieces.len(),
        |i: int| crate::markdown::block_parser::alignment_of(crate::text::trim(pieces[i])),
    ) =~= al);
    // every character of the separator row is a separator character
    assert forall|i: int| 0 <= i < n implies crate::markdown::tokenizer::all_sep(#[trigger] sc[i]) by {
        lemma_sep_cell(ws[i], al[i]);
    }
    lemma_all_sep_join(sc);
    assert forall|k: int| 0 <= k < x.len() implies crate::markdown::tokenizer::is_sep_char(#[trigger] x[k]) by {
        if 0 < k < x.len() - 1 {
            assert(x[k] == j[k - 1]);
        }
    }
}

proof fn lemma_all_sep_join(d: Seq<Seq<char>>)
    requires
        d.len() >= 1,
        forall|i: int| 0 <= i < d.len() ==> crate::markdown::tokenizer::all_sep(#[trigger] d[i]),
    ensures
        crate::markdown::tokenizer::all_sep(join(d, bar_sep())),
    decreases d.len(),
{
    let l = d.last();
    assert(crate::markdown::tokenizer::all_sep(l));
    if d.len() > 1 {
        let dd = d.drop_last();
        assert forall|i: int| 0 <= i < dd.len() implies crate::markdown::tokenizer::all_sep(#[trigger] dd[i]) by {
            assert(dd[i] == d[i]);
        }
        lemma_all_sep_join(dd);
        let jd = join(dd, bar_sep());
        let jj = join(d, bar_sep());
        assert(jj == jd + bar_sep() + l);
        assert forall|k: int| 0 <= k < jj.len() implies crate::markdown::tokenizer::is_sep_char(#[trigger] jj[k]) by {
            if k < jd.len() {
                assert(jj[k] == jd[k]);
            } else if k < jd.len() + 3 {
                assert(jj[k] == bar_sep()[k - jd.len()]);
            } else {
                assert(jj[k] == l[k - jd.len() - 3]);
            }
        }
    } else {
        assert(join(d, bar_sep()) == d[0]);
    }
}


// ============================================================================
// Tables: lines and tokens
// ============================================================================

/// The token of a written table line: a row, or the separator.
pub open spec fn table_token(l: Seq<char>, sep: bool, n: nat) -> TokenV {
    if sep {
        tok(TokenType::TableSeparator, l, l, 0, n, no_meta())
    } else {
        tok(TokenType::TableRow, l, l.subrange(1, l.len() - 1), 0, n, no_meta())
    }
}

/// A line written for a table is read as a row or as the separator.
proof fn lemma_lex_table_line(l: Seq<char>, sep: bool, prev: Seq<char>, n: nat)
    requires
        l.len() >= 3,
        l[0] == '|',
        l.last() == '|',
        sep ==> crate::markdown::tokenizer::all_sep(l.subrange(1, l.len() - 1)),
        !sep ==> !crate::markdown::tokenizer::all_sep(l.subrange(1, l.len() - 1)),
    ensures
        lex_line(l, initial_state(), prev, n) == (table_token(l, sep, n), initial_state()),
{
    assert(!crate::text::is_ws(l[0]));
    assert(!crate::text::is_ws(l.last()));
    assert(crate::markdown::tokenizer::lws(l) == 0);
    assert(l.skip(0) =~= l);
    assert(crate::markdown::tokenizer::match_fence(l) is None);
    assert(!crate::text::all_ws(l));
    assert(crate::text::trim_end_blank(l) == l);
    assert(crate::markdown::tokenizer::match_divider(l) is None);
    assert(crate::markdown::tokenizer::char_run(l, '#') == 0);
    assert(crate::markdown::tokenizer::match_atx(l) is None);
    assert(crate::markdown::tokenizer::match_quote(l) is None);
    assert(crate::markdown::tokenizer::match_callout(l) is None);
    assert(crate::markdown::tokenizer::match_bullet(l) is None);
    assert(crate::markdown::tokenizer::match_check(l) is None);
    assert(crate::markdown::tokenizer::run_len(
        l,
        |c: char| crate::markdown::tokenizer::is_ascii_digit_char(c),
    ) == 0);
    assert(crate::markdown::tokenizer::match_numbered(l) is None);
    assert(crate::text::trim_end(l) == l);
    assert(crate::markdown::tokenizer::match_table_row(l) == Some(l.subrange(1, l.len() - 1)));
}

/// A written row line: `| ` + cells + ` |`.
proof fn lemma_row_line(cs: Seq<Seq<char>>, ps: Seq<Seq<char>>)
    requires
        is_plain_row(cs),
        ps.len() == cs.len(),
        forall|i: int| 0 <= i < cs.len() ==> padded_by(#[trigger] ps[i], cs[i]),
    ensures
        ({
            let l = crate::markdown::serializer::table_line(join(ps, bar_sep()));
            &&& l.len() >= 3
            &&& l[0] == '|'
            &&& l.last() == '|'
            &&& l.subrange(1, l.len() - 1) == seq![' '] + join(ps, bar_sep()) + seq![' ']
            &&& !crate::markdown::tokenizer::all_sep(l.subrange(1, l.len() - 1))
            &&& no_cr(l)
            &&& no_char(l, '\n')
        }),
{
    let j = join(ps, bar_sep());
    let l = crate::markdown::serializer::table_line(j);
    assert(l =~= seq!['|', ' '] + j + seq![' ', '|']);
    let inner = l.subrange(1, l.len() - 1);
    assert(inner =~= seq![' '] + j + seq![' ']);
    assert(ps[0].len() > 0 && ps[0][0] == cs[0][0]) by {
        assert(padded_by(ps[0], cs[0]));
        assert(cs[0].len() > 0);
    }
    lemma_join_first(ps, bar_sep());
    assert(inner[1] == cs[0][0]);
    assert(is_ascii_alnum(cs[0][0]));
    assert(!crate::markdown::tokenizer::is_sep_char(inner[1]));
    // the characters of the cells, the bars and the padding
    assert forall|i: int| 0 <= i < ps.len() implies no_cr(#[trigger] ps[i]) && no_char(ps[i], '\n') by {
        assert(padded_by(ps[i], cs[i]));
        assert(is_plain_cell(cs[i]));
        let sp = repeat(' ', (ps[i].len() - cs[i].len()) as nat);
        assert forall|k: int| 0 <= k < ps[i].len() implies ps[i][k] != '\r' && ps[i][k] != '\n' by {
            if k < cs[i].len() {
                assert(ps[i][k] == cs[i][k]);
                assert(is_ascii_alnum(cs[i][k]) || cs[i][k] == ' ');
            } else {
                assert(ps[i][k] == sp[k - cs[i].len()]);
            }
        }
    }
    lemma_join_plain(ps);
    assert forall|k: int| 0 <= k < l.len() implies l[k] != '\r' && l[k] != '\n' by {
        if 2 <= k < l.len() - 2 {
            assert(l[k] == j[k - 2]);
        }
    }
}

/// Joining lines without `\r` or `\n` by ` | ` keeps them out.
proof fn lemma_join_plain(ps: Seq<Seq<char>>)
    requires
        forall|i: int| 0 <= i < ps.len() ==> no_cr(#[trigger] ps[i]) && no_char(ps[i], '\n'),
    ensures
        no_cr(join(ps, bar_sep())),
        no_char(join(ps, bar_sep()), '\n'),
    decreases ps.len(),
{
    if ps.len() == 1 {
        assert(join(ps, bar_sep()) == ps[0]);
    } else if ps.len() > 1 {
        let d = ps.drop_last();
        assert forall|i: int| 0 <= i < d.len() implies no_cr(#[trigger] d[i]) && no_char(d[i], '\n') by {
            assert(d[i] == ps[i]);
        }
        lemma_join_plain(d);
        let jd = join(d, bar_sep());
        let jj = join(ps, bar_sep());
        let l = ps.last();
        assert(no_cr(l) && no_char(l, '\n'));
        assert(jj == jd + bar_sep() + l);
        assert forall|k: int| 0 <= k < jj.len() implies jj[k] != '\r' && jj[k] != '\n' by {
            if k < jd.len() {
                assert(jj[k] == jd[k]);
            } else if k < jd.len() + 3 {
                assert(jj[k] == bar_sep()[k - jd.len()]);
            } else {
                assert(jj[k] == l[k - jd.len() - 3]);
            }
        }
    }
}


/// A line ending of either kind reads as `\n`.
proof fn lemma_normalize_line_ending(o: MarkdownSerializeOptions)
    ensures
        normalize_le(le_of(o)) == seq!['\n'],
        le_of(o).len() > 0,
        le_of(o).last() == '\n',
{
    let le = le_of(o);
    if o.line_ending == LineEnding::Lf {
        assert(le =~= seq!['\n']);
        lemma_normalize_plain(seq!['\n']);
    } else {
        assert(le =~= seq!['\r', '\n']);
        assert(le.skip(2) =~= Seq::<char>::empty());
        assert(normalize_le(le) == seq!['\n'] + normalize_le(le.skip(2)));
        assert(normalize_le(le) =~= seq!['\n']);
    }
}

/// The lines of a block written one per line read back as those lines.
proof fn lemma_lines_of_block(ls: Seq<Seq<char>>, o: MarkdownSerializeOptions)
    requires
        ls.len() >= 1,
        forall|i: int| 0 <= i < ls.len() ==> (#[trigger] ls[i]).len() > 0 && no_cr(ls[i]) && no_char(ls[i], '\n'),
    ensures
        md_lines(join(ls, le_of(o))) == ls,
        normalize_le(join(ls, le_of(o))) == join(ls, seq!['\n']),
    decreases ls.len(),
{
    let le = le_of(o);
    lemma_normalize_line_ending(o);
    if ls.len() == 1 {
        lemma_normalize_plain(ls[0]);
        lemma_split_single(ls[0], '\n');
        assert(join(ls, seq!['\n']) == ls[0]);
    } else {
        let d = ls.drop_last();
        let l = ls.last();
        assert forall|i: int| 0 <= i < d.len() implies (#[trigger] d[i]).len() > 0 && no_cr(d[i])
            && no_char(d[i], '\n') by {
            assert(d[i] == ls[i]);
        }
        lemma_lines_of_block(d, o);
        let jd = join(d, le);
        assert(join(ls, le) == jd + le + l);
        assert(jd.len() > 0 && jd.last() != '\r') by {
            lemma_join_last(d, le);
        }
        lemma_normalize_concat(jd, le + l);
        assert(jd + le + l =~= jd + (le + l));
        lemma_normalize_concat(le, l);
        lemma_normalize_plain(l);
        let nd = normalize_le(jd);
        assert(normalize_le(jd + le + l) =~= nd + seq!['\n'] + l);
        assert(join(ls, seq!['\n']) == join(d, seq!['\n']) + seq!['\n'] + l);
        lemma_split_concat(nd, l, '\n');
        lemma_split_single(l, '\n');
        assert(md_lines(join(ls, le)) == split(nd, '\n') + seq![l]);
        assert(split(nd, '\n') == d);
        assert(d + seq![l] =~= ls);
    }
}

// ============================================================================
// Tables: the written lines
// ============================================================================

/// A table whose header and body rows are plain rows, with one alignment
/// per column, and no content or children of its own.
pub open spec fn is_plain_table(b: BlockV) -> bool {
    &&& b.block_type == BlockType::Table
    &&& b.content.len() == 0
    &&& b.children.len() == 0
    &&& b.props matches PropsV::Table { headers, rows, alignments }
    &&& is_plain_row(headers)
    &&& forall|k: int| 0 <= k < rows.len() ==> is_plain_row(#[trigger] rows[k])
    &&& alignments matches Some(al)
    &&& al.len() == headers.len()
}

/// What the lines of a written table look like: rows and the separator
/// between `|`s, rows reading back as the table's cells, the separator as
/// its alignments.
pub open spec fn table_line_facts(
    ls: Seq<Seq<char>>,
    h: Seq<Seq<char>>,
    rs: Seq<Seq<Seq<char>>>,
    al: Seq<Option<TableAlignment>>,
) -> bool {
    &&& ls.len() == rs.len() + 2
    &&& forall|i: int|
        0 <= i < ls.len() ==> {
            let l = #[trigger] ls[i];
            &&& l.len() >= 3
            &&& l[0] == '|'
            &&& l.last() == '|'
            &&& no_cr(l)
            &&& no_char(l, '\n')
            &&& (i == 1 ==> crate::markdown::tokenizer::all_sep(l.subrange(1, l.len() - 1)))
            &&& (i != 1 ==> !crate::markdown::tokenizer::all_sep(l.subrange(1, l.len() - 1)))
            &&& (i == 0 ==> crate::markdown::block_parser::row_cells(l.subrange(1, l.len() - 1)) == h)
            &&& (i >= 2 ==> crate::markdown::block_parser::row_cells(l.subrange(1, l.len() - 1))
                == rs[i - 2])
        }
    &&& crate::markdown::block_parser::alignments_of(ls[1]) == al
}

proof fn lemma_table_lines(b: BlockV)
    requires
        is_plain_table(b),
    ensures
        ({
            let (h, rs, al) = match b.props {
                PropsV::Table { headers, rows, alignments } => (headers, rows, alignments->0),
                _ => arbitrary(),
            };
            table_line_facts(crate::markdown::serializer::table_lines(h, rs, Some(al)), h, rs, al)
        }),
{
    let (h, rs, al) = match b.props {
        PropsV::Table { headers, rows, alignments } => (headers, rows, alignments->0),
        _ => arbitrary(),
    };
    let a = Some(al);
    let n = h.len();
    let ls = crate::markdown::serializer::table_lines(h, rs, a);
    let hc = crate::markdown::serializer::header_cells(h, rs);
    let sc = crate::markdown::serializer::sep_cells(h, rs, a);
    let ws = Seq::new(n, |i: int| crate::markdown::serializer::column_width(h, rs, i));
    assert forall|i: int| 0 <= i < n implies padded_by(#[trigger] hc[i], h[i]) by {
        lemma_pad_right(h[i], crate::markdown::serializer::column_width(h, rs, i));
    }
    lemma_row_line(h, hc);
    lemma_row_cells(h, hc);
    assert forall|i: int| 0 <= i < n implies #[trigger] ws[i] >= 3 && sc[i]
        == crate::markdown::serializer::sep_cell(ws[i], al[i]) by {
        assert(crate::markdown::serializer::alignment_at(a, i) == al[i]);
    }
    lemma_sep_alignments(sc, al, ws);
    let sl = ls[1];
    assert(sl == crate::markdown::serializer::table_line(join(sc, bar_sep())));
    let x = seq![' '] + join(sc, bar_sep()) + seq![' '];
    assert(sl =~= seq!['|'] + x + seq!['|']);
    assert(sl.subrange(1, sl.len() - 1) =~= x);
    assert(no_cr(sl) && no_char(sl, '\n')) by {
        assert forall|k: int| 0 <= k < sl.len() implies sl[k] != '\r' && sl[k] != '\n' by {
            if 1 <= k < sl.len() - 1 {
                assert(sl[k] == x[k - 1]);
                assert(crate::markdown::tokenizer::is_sep_char(x[k - 1]));
            }
        }
    }
    assert forall|k: int| 0 <= k < rs.len() implies ({
        let l = #[trigger] ls[k + 2];
        &&& l.len() >= 3
        &&& l[0] == '|'
        &&& l.last() == '|'
        &&& no_cr(l)
        &&& no_char(l, '\n')
        &&& !crate::markdown::tokenizer::all_sep(l.subrange(1, l.len() - 1))
        &&& crate::markdown::block_parser::row_cells(l.subrange(1, l.len() - 1)) == rs[k]
    }) by {
        let r = rs[k];
        assert(is_plain_row(r));
        let dc = crate::markdown::serializer::data_cells(h, rs, r);
        assert forall|i: int| 0 <= i < r.len() implies padded_by(#[trigger] dc[i], r[i]) by {
            lemma_pad_right(
                r[i],
                if i < h.len() {
                    crate::markdown::serializer::column_width(h, rs, i)
                } else {
                    3
                },
            );
        }
        lemma_row_line(r, dc);
        lemma_row_cells(r, dc);
        assert(ls[k + 2] == crate::markdown::serializer::table_line(join(dc, bar_sep())));
    }
    assert forall|i: int| 0 <= i < ls.len() implies ({
        let l = #[trigger] ls[i];
        &&& l.len() >= 3
        &&& l[0] == '|'
        &&& l.last() == '|'
        &&& no_cr(l)
        &&& no_char(l, '\n')
        &&& (i == 1 ==> crate::markdown::tokenizer::all_sep(l.subrange(1, l.len() - 1)))
        &&& (i != 1 ==> !crate::markdown::tokenizer::all_sep(l.subrange(1, l.len() - 1)))
        &&& (i == 0 ==> crate::markdown::block_parser::row_cells(l.subrange(1, l.len() - 1)) == h)
        &&& (i >= 2 ==> crate::markdown::block_parser::row_cells(l.subrange(1, l.len() - 1))
            == rs[i - 2])
    }) by {
        if i >= 2 {
            assert(ls[(i - 2) + 2] == ls[i]);
        }
    }
}

// ============================================================================
// Documents of plain blocks and tables
// ============================================================================

/// Splitting lines joined by `c` gives the lines back.
proof fn lemma_split_join(ls: Seq<Seq<char>>, c: char)
    requires
        ls.len() >= 1,
        forall|i: int| 0 <= i < ls.len() ==> no_char(#[trigger] ls[i], c),
    ensures
        split(join(ls, seq![c]), c) == ls,
    decreases ls.len(),
{
    if ls.len() == 1 {
        assert(join(ls, seq![c]) == ls[0]);
        lemma_split_single(ls[0], c);
        assert(seq![ls[0]] =~= ls);
    } else {
        let d = ls.drop_last();
        assert forall|i: int| 0 <= i < d.len() implies no_char(#[trigger] d[i], c) by {
            assert(d[i] == ls[i]);
        }
        lemma_split_join(d, c);
        assert(join(ls, seq![c]) == join(d, seq![c]) + seq![c] + ls.last());
        lemma_split_concat(join(d, seq![c]), ls.last(), c);
        lemma_split_single(ls.last(), c);
        assert(d + seq![ls.last()] =~= ls);
    }
}

/// A block the document round trip covers.
#[verifier::opaque]
pub open spec fn is_doc_block(b: BlockV) -> bool {
    ||| is_plain_block(b)
    ||| is_plain_table(b)
    ||| is_plain_image(b)
    ||| is_plain_divider(b)
    ||| is_plain_code(b)
    ||| is_plain_check(b)
    ||| is_plain_quote(b)
    ||| is_plain_bullets(b)
}

/// The lines a block is written as.
pub open spec fn block_lines(b: BlockV, o: MarkdownSerializeOptions) -> Seq<Seq<char>> {
    match b.props {
        PropsV::Table { headers, rows, alignments } => crate::markdown::serializer::table_lines(
            headers,
            rows,
            alignments,
        ),
        PropsV::Image { .. } => seq![crate::markdown::serializer::ser_image(b)],
        PropsV::CodeBlock(_) => code_lines(b),
        PropsV::CheckList(_) => seq![check_line(b)],
        _ => if b.block_type == BlockType::Divider {
            seq![divider_line()]
        } else if b.block_type == BlockType::Blockquote {
            seq![quote_line(b)]
        } else if b.block_type == BlockType::BulletList {
            bullet_lines(b, o)
        } else {
            seq![line_of(b)]
        },
    }
}

/// The lines of a document: the lines of each block, an empty line between
/// neighbours.
pub open spec fn doc_lines(bs: Seq<BlockV>, o: MarkdownSerializeOptions) -> Seq<Seq<char>>
    decreases bs.len(),
{
    if bs.len() == 0 {
        Seq::empty()
    } else if bs.len() == 1 {
        block_lines(bs[0], o)
    } else {
        doc_lines(bs.drop_last(), o) + seq![Seq::<char>::empty()] + block_lines(bs.last(), o)
    }
}

/// Where block `j` starts among the document's lines.
pub open spec fn block_start(bs: Seq<BlockV>, j: int, o: MarkdownSerializeOptions) -> int
    decreases j,
{
    if j <= 0 {
        0
    } else {
        block_start(bs, j - 1, o) + block_lines(bs[j - 1], o).len() + 1
    }
}

proof fn lemma_block_start_prefix(bs: Seq<BlockV>, j: int, o: MarkdownSerializeOptions)
    requires
        0 <= j < bs.len(),
    ensures
        block_start(bs.drop_last(), j, o) == block_start(bs, j, o),
    decreases j,
{
    if j > 0 {
        lemma_block_start_prefix(bs, j - 1, o);
        assert(bs.drop_last()[j - 1] == bs[j - 1]);
    }
}

proof fn lemma_block_start_mono(bs: Seq<BlockV>, j: int, k: int, o: MarkdownSerializeOptions)
    requires
        0 <= j <= k,
    ensures
        block_start(bs, j, o) <= block_start(bs, k, o),
        j < k ==> block_start(bs, j, o) < block_start(bs, k, o),
    decreases k,
{
    if j < k {
        lemma_block_start_mono(bs, j, k - 1, o);
    }
}

/// Every block has at least one line.
proof fn lemma_block_lines_len(b: BlockV, o: MarkdownSerializeOptions)
    ensures
        block_lines(b, o).len() >= 1,
{
    match b.props {
        PropsV::Table { headers, rows, alignments } => {
            assert(crate::markdown::serializer::table_lines(headers, rows, alignments).len() == rows.len() + 2);
        },
        PropsV::CodeBlock(_) => {
            crate::text::lemma_split_len(code_text(b), '\n');
        },
        _ => {},
    }
}

/// Where each block's lines and the empty lines between blocks stand.
proof fn lemma_doc_lines(bs: Seq<BlockV>, o: MarkdownSerializeOptions)
    requires
        bs.len() >= 1,
    ensures
        doc_lines(bs, o).len() == block_start(bs, bs.len() - 1, o) + block_lines(bs.last(), o).len(),
        forall|j: int, k: int|
            0 <= j < bs.len() && 0 <= k < block_lines(bs[j], o).len() ==> #[trigger] doc_lines(bs, o)[block_start(bs, j, o) + k]
                == #[trigger] block_lines(bs[j], o)[k],
        forall|j: int|
            0 <= j < bs.len() - 1 ==> #[trigger] doc_lines(bs, o)[block_start(bs, j, o) + block_lines(bs[j], o).len()]
                == Seq::<char>::empty(),
    decreases bs.len(),
{
    let n = bs.len();
    lemma_block_lines_len(bs.last(), o);
    if n > 1 {
        let d = bs.drop_last();
        lemma_doc_lines(d, o);
        let dl = doc_lines(d, o);
        let lb = block_lines(bs.last(), o);
        assert(doc_lines(bs, o) == dl + seq![Seq::<char>::empty()] + lb);
        lemma_block_start_prefix(bs, n - 2, o);
        lemma_block_start_prefix(bs, n - 1, o);
        assert(d.last() == bs[n - 2]);
        assert(block_start(bs, n - 1, o) == block_start(bs, n - 2, o) + block_lines(bs[n - 2], o).len() + 1);
        assert(dl.len() + 1 == block_start(bs, n - 1, o));
        let full = dl + seq![Seq::<char>::empty()] + lb;
        assert(doc_lines(bs, o) == full);
        assert forall|j: int, k: int|
            0 <= j < bs.len() && 0 <= k < block_lines(bs[j], o).len() implies #[trigger] doc_lines(bs, o)[block_start(bs, j, o) + k]
                == #[trigger] block_lines(bs[j], o)[k] by {
            if j < n - 1 {
                lemma_block_start_prefix(bs, j, o);
                assert(d[j] == bs[j]);
                let i = block_start(d, j, o) + k;
                assert(0 <= i < dl.len()) by {
                    lemma_block_start_mono(d, 0, j, o);
                    if j < n - 2 {
                        lemma_block_start_mono(d, j + 1, n - 2, o);
                        lemma_block_lines_len(d.last(), o);
                        assert(block_start(d, j + 1, o) == block_start(d, j, o) + block_lines(d[j], o).len() + 1);
                    } else {
                        assert(d.last() == d[j]);
                    }
                }
                assert(full[i] == dl[i]);
                assert(dl[block_start(d, j, o) + k] == block_lines(d[j], o)[k]);
            } else {
                assert(full[block_start(bs, j, o) + k] == lb[k]);
            }
        }
        assert forall|j: int|
            0 <= j < bs.len() - 1 implies #[trigger] doc_lines(bs, o)[block_start(bs, j, o) + block_lines(bs[j], o).len()]
                == Seq::<char>::empty() by {
            lemma_block_start_prefix(bs, j, o);
            assert(d[j] == bs[j]);
            let i = block_start(d, j, o) + block_lines(d[j], o).len();
            if j < n - 2 {
                lemma_block_start_mono(d, 0, j, o);
                lemma_block_start_mono(d, j + 1, n - 2, o);
                lemma_block_lines_len(d.last(), o);
                assert(block_start(d, j + 1, o) == block_start(d, j, o) + block_lines(d[j], o).len() + 1);
                assert(0 <= i < dl.len());
                assert(full[i] == dl[i]);
                assert(dl[block_start(d, j, o) + block_lines(d[j], o).len()] == Seq::<char>::empty());
            } else {
                assert(d.last() == d[j]);
                assert(i == dl.len());
                assert(full[i] == Seq::<char>::empty());
            }
        }
    }
}


/// Lines without `\r` or `\n`, none empty.
pub open spec fn clean_lines(ls: Seq<Seq<char>>) -> bool {
    forall|i: int| 0 <= i < ls.len() ==> (#[trigger] ls[i]).len() > 0 && no_cr(ls[i]) && no_char(ls[i], '\n')
}

/// The text of a document (`ser_blocks`), kept folded in the proofs below.
#[verifier::opaque]
pub open spec fn doc_text(bs: Seq<BlockV>, o: MarkdownSerializeOptions) -> Seq<char> {
    ser_blocks(bs, o)
}

/// The text of one top-level block (`ser_block`), kept folded.
#[verifier::opaque]
pub open spec fn block_text(b: BlockV, o: MarkdownSerializeOptions) -> Seq<char> {
    ser_block(b, 0, o)
}

/// A block of the document is written as its lines: with line endings
/// normalized, its text is its lines joined by `\n`, and it ends in a
/// character other than `\r`.
proof fn lemma_block_text(b: BlockV, o: MarkdownSerializeOptions)
    requires
        is_doc_block(b),
        o.heading_style == HeadingStyle::Atx,
        o.code_block_style == CodeBlockStyle::Fenced,
    ensures
        normalize_le(block_text(b, o)) == join(block_lines(b, o), seq!['\n']),
        block_text(b, o).len() > 0,
        block_text(b, o).last() != '\r',
        block_lines(b, o).len() >= 1,
        forall|i: int| 0 <= i < block_lines(b, o).len() ==> no_cr(#[trigger] block_lines(b, o)[i]) && no_char(
            block_lines(b, o)[i],
            '\n',
        ),
{
    reveal(is_doc_block);
    reveal(block_text);
    if is_plain_code(b) {
        lemma_code_text(b, o);
        assert(block_lines(b, o) == code_lines(b));
    } else {
        let l = block_lines(b, o);
        assert(ser_block(b, 0, o) == join(l, le_of(o)) && clean_lines(l)) by {
            if is_plain_table(b) {
                lemma_table_lines(b);
                let (h, rs, al) = match b.props {
                    PropsV::Table { headers, rows, alignments } => (headers, rows, alignments->0),
                    _ => arbitrary(),
                };
                assert(l == crate::markdown::serializer::table_lines(h, rs, Some(al)));
                assert forall|i: int| 0 <= i < l.len() implies (#[trigger] l[i]).len() > 0 && no_cr(l[i])
                    && no_char(l[i], '\n') by {}
            } else if is_plain_image(b) {
                lemma_image_line(b);
                let x = crate::markdown::serializer::ser_image(b);
                assert(l == seq![x]);
                assert(join(seq![x], le_of(o)) == x);
            } else if is_plain_divider(b) {
                let x = divider_line();
                assert(l == seq![x]);
                assert(ser_block(b, 0, o) =~= x);
                assert(join(seq![x], le_of(o)) == x);
            } else if is_plain_check(b) {
                lemma_ser_check_quote(b, o);
                assert(l == seq![check_line(b)]);
                assert(join(seq![check_line(b)], le_of(o)) == check_line(b));
            } else if is_plain_quote(b) {
                lemma_ser_check_quote(b, o);
                assert(l == seq![quote_line(b)]);
                assert(join(seq![quote_line(b)], le_of(o)) == quote_line(b));
            } else if is_plain_bullets(b) {
                lemma_item_lines(b.children, o);
                assert(l == bullet_lines(b, o));
                assert forall|i: int| 0 <= i < l.len() implies (#[trigger] l[i]).len() > 0 && no_cr(l[i])
                    && no_char(l[i], '\n') by {
                    lemma_lex_bullet(b.children[i], o, Seq::empty(), 0);
                }
            } else {
                lemma_ser_plain(b, o);
                assert(l == seq![line_of(b)]);
                assert(join(seq![line_of(b)], le_of(o)) == line_of(b));
            }
        }
        lemma_block_lines_len(b, o);
        lemma_lines_of_block(l, o);
        lemma_join_last(l, le_of(o));
    }
}

proof fn lemma_join_concat(a: Seq<Seq<char>>, b: Seq<Seq<char>>, sep: Seq<char>)
    requires
        a.len() >= 1,
        b.len() >= 1,
    ensures
        join(a + b, sep) == join(a, sep) + sep + join(b, sep),
    decreases b.len(),
{
    if b.len() == 1 {
        assert((a + b).drop_last() =~= a);
        assert(join(b, sep) == b[0]);
    } else {
        let bd = b.drop_last();
        lemma_join_concat(a, bd, sep);
        assert((a + b).drop_last() =~= a + bd);
        assert(join(a + b, sep) == join(a + bd, sep) + sep + b.last());
        assert(join(b, sep) == join(bd, sep) + sep + b.last());
    }
}

proof fn lemma_ser_blocks_one(bs: Seq<BlockV>, o: MarkdownSerializeOptions)
    requires
        bs.len() == 1,
    ensures
        doc_text(bs, o) == block_text(bs[0], o),
{
    reveal(doc_text);
    reveal(block_text);
    let texts = Seq::new(1, |i: int| ser_block(bs[i], 0, o));
    assert(join(texts, le_of(o) + le_of(o)) == texts[0]);
}

proof fn lemma_ser_blocks_last(bs: Seq<BlockV>, o: MarkdownSerializeOptions)
    requires
        bs.len() >= 2,
    ensures
        doc_text(bs, o) == doc_text(bs.drop_last(), o) + (le_of(o) + le_of(o)) + block_text(
            bs.last(),
            o,
        ),
{
    reveal(doc_text);
    reveal(block_text);
    let d = bs.drop_last();
    let texts = Seq::new(bs.len(), |i: int| ser_block(bs[i], 0, o));
    let td = Seq::new(d.len(), |i: int| ser_block(d[i], 0, o));
    assert(texts.drop_last() =~= td);
    assert(join(texts, le_of(o) + le_of(o)) == join(td, le_of(o) + le_of(o)) + (le_of(o) + le_of(o))
        + texts.last());
}

/// The text of a document ends with the last character of its last line.
proof fn lemma_doc_text_end(bs: Seq<BlockV>, o: MarkdownSerializeOptions)
    requires
        bs.len() >= 1,
        o.heading_style == HeadingStyle::Atx,
        o.code_block_style == CodeBlockStyle::Fenced,
        is_doc_block(bs.last()),
    ensures
        doc_text(bs, o).len() > 0,
        doc_text(bs, o).last() != '\r',
{
    lemma_block_text(bs.last(), o);
    let t = block_text(bs.last(), o);
    assert(t.len() > 0 && t.last() != '\r');
    if bs.len() == 1 {
        lemma_ser_blocks_one(bs, o);
    } else {
        lemma_ser_blocks_last(bs, o);
    }
}

/// The lines of a document are free of `\r` and `\n`.
proof fn lemma_doc_lines_clean(bs: Seq<BlockV>, o: MarkdownSerializeOptions)
    requires
        bs.len() >= 1,
        o.heading_style == HeadingStyle::Atx,
        o.code_block_style == CodeBlockStyle::Fenced,
        forall|k: int| 0 <= k < bs.len() ==> is_doc_block(#[trigger] bs[k]),
    ensures
        doc_lines(bs, o).len() >= 1,
        forall|i: int| 0 <= i < doc_lines(bs, o).len() ==> no_cr(#[trigger] doc_lines(bs, o)[i]) && no_char(
            doc_lines(bs, o)[i],
            '\n',
        ),
    decreases bs.len(),
{
    let l = block_lines(bs.last(), o);
    lemma_block_text(bs.last(), o);
    if bs.len() == 1 {
        assert(doc_lines(bs, o) == l);
    } else {
        let d = bs.drop_last();
        assert forall|k: int| 0 <= k < d.len() implies is_doc_block(#[trigger] d[k]) by {
            assert(d[k] == bs[k]);
        }
        lemma_doc_lines_clean(d, o);
        let dl = doc_lines(d, o);
        let full = dl + seq![Seq::<char>::empty()] + l;
        assert(doc_lines(bs, o) == full);
        assert forall|i: int| 0 <= i < full.len() implies no_cr(#[trigger] full[i]) && no_char(full[i], '\n') by {
            if i < dl.len() {
                assert(full[i] == dl[i]);
            } else if i == dl.len() {
                assert(full[i] == Seq::<char>::empty());
            } else {
                assert(full[i] == l[i - dl.len() - 1]);
            }
        }
    }
}

/// The text of a document, with line endings normalized, is its lines
/// joined by `\n`.
proof fn lemma_doc_text(bs: Seq<BlockV>, o: MarkdownSerializeOptions)
    requires
        bs.len() >= 1,
        o.heading_style == HeadingStyle::Atx,
        o.code_block_style == CodeBlockStyle::Fenced,
        forall|k: int| 0 <= k < bs.len() ==> is_doc_block(#[trigger] bs[k]),
    ensures
        normalize_le(doc_text(bs, o)) == join(doc_lines(bs, o), seq!['\n']),
    decreases bs.len(),
{
    let n = bs.len();
    let le = le_of(o);
    let sep = le + le;
    let nl = seq!['\n'];
    let l = block_lines(bs.last(), o);
    lemma_block_text(bs.last(), o);
    let t = block_text(bs.last(), o);
    if n == 1 {
        lemma_ser_blocks_one(bs, o);
        assert(doc_lines(bs, o) == l);
    } else {
        let d = bs.drop_last();
        assert forall|k: int| 0 <= k < d.len() implies is_doc_block(#[trigger] d[k]) by {
            assert(d[k] == bs[k]);
        }
        lemma_doc_text(d, o);
        lemma_doc_text_end(d, o);
        lemma_ser_blocks_last(bs, o);
        let pd = doc_text(d, o);
        let dl = doc_lines(d, o);
        assert(normalize_le(pd + sep + t) == join(dl, nl) + seq!['\n', '\n'] + join(l, nl)) by {
            lemma_normalize_concat(pd, sep + t);
            assert(pd + sep + t =~= pd + (sep + t));
            lemma_normalize_line_ending(o);
            lemma_normalize_concat(sep, t);
            lemma_normalize_blank_line(o);
        }
        assert(join(doc_lines(bs, o), nl) == join(dl, nl) + seq!['\n', '\n'] + join(l, nl)) by {
            let a = dl + seq![Seq::<char>::empty()];
            assert(doc_lines(bs, o) == a + l);
            lemma_doc_lines_clean(d, o);
            lemma_join_concat(a, l, nl);
            assert(a.drop_last() =~= dl);
            assert(join(a, nl) == join(dl, nl) + nl + Seq::<char>::empty());
            assert(join(a, nl) + nl + join(l, nl) =~= join(dl, nl) + seq!['\n', '\n'] + join(l, nl));
        }
    }
}

/// The lines of the text of a document are the document's lines.
proof fn lemma_doc_md_lines(bs: Seq<BlockV>, o: MarkdownSerializeOptions)
    requires
        bs.len() >= 1,
        o.heading_style == HeadingStyle::Atx,
        o.code_block_style == CodeBlockStyle::Fenced,
        forall|k: int| 0 <= k < bs.len() ==> is_doc_block(#[trigger] bs[k]),
    ensures
        md_lines(doc_text(bs, o)) == doc_lines(bs, o),
{
    lemma_doc_text(bs, o);
    lemma_doc_lines_clean(bs, o);
    lemma_split_join(doc_lines(bs, o), '\n');
}


/// The token of a line read outside a code block.
pub open spec fn line_token(l: Seq<char>, n: nat) -> TokenV {
    lex_line(l, initial_state(), Seq::empty(), n).0
}

/// The token of a line read in a given state.
pub open spec fn line_token_in(l: Seq<char>, st: LexState, n: nat) -> TokenV {
    lex_line(l, st, Seq::empty(), n).0
}

/// Inside a fenced code block opened by three backticks.
pub open spec fn code_state() -> LexState {
    LexState { in_code_block: true, fence_char: '`', fence_len: 3 }
}

/// The tokenizer's state before line `k` of a block: inside the fence for
/// the lines of a code block after its opening fence, outside otherwise.
pub open spec fn line_state(b: BlockV, k: int) -> LexState {
    if b.block_type == BlockType::CodeBlock && k > 0 {
        code_state()
    } else {
        initial_state()
    }
}

pub open spec fn block_states(b: BlockV, o: MarkdownSerializeOptions) -> Seq<LexState> {
    Seq::new(block_lines(b, o).len(), |k: int| line_state(b, k))
}

/// The tokenizer's state before each line of a document.
pub open spec fn doc_states(bs: Seq<BlockV>, o: MarkdownSerializeOptions) -> Seq<LexState>
    decreases bs.len(),
{
    if bs.len() == 0 {
        Seq::empty()
    } else if bs.len() == 1 {
        block_states(bs[0], o)
    } else {
        doc_states(bs.drop_last(), o) + seq![initial_state()] + block_states(bs.last(), o)
    }
}

/// The state before line `i`, or after the last line.
pub open spec fn state_at(sts: Seq<LexState>, i: int) -> LexState {
    if 0 <= i < sts.len() {
        sts[i]
    } else {
        initial_state()
    }
}

/// A line whose token does not depend on the line before it, and after
/// which the tokenizer is still outside a code block.
pub open spec fn steady_line(l: Seq<char>) -> bool {
    forall|prev: Seq<char>, n: nat|
        #[trigger] lex_line(l, initial_state(), prev, n) == (line_token(l, n), initial_state())
}

/// The line before line `i` of a text, as the tokenizer sees it.
pub open spec fn prev_line(ls: Seq<Seq<char>>, i: int) -> Seq<char> {
    if i >= 1 {
        ls[i - 1]
    } else {
        Seq::empty()
    }
}

/// Line `i` of a text, read in its state after the line before it, gives
/// its own token and the state of the next line.
pub open spec fn steady_at(ls: Seq<Seq<char>>, sts: Seq<LexState>, i: int) -> bool {
    forall|n: nat|
        #[trigger] lex_line(ls[i], sts[i], prev_line(ls, i), n) == (
            line_token_in(ls[i], sts[i], n),
            state_at(sts, i + 1),
        )
}

proof fn lemma_lex_steady(ls: Seq<Seq<char>>, sts: Seq<LexState>, k: nat)
    requires
        k <= ls.len(),
        sts.len() == ls.len(),
        ls.len() > 0 ==> sts[0] == initial_state(),
        forall|i: int| 0 <= i < ls.len() ==> steady_at(ls, sts, i),
    ensures
        lex_lines(ls, k).1 == state_at(sts, k as int),
        lex_lines(ls, k).0 == Seq::new(k, |i: int| line_token_in(ls[i], sts[i], (i + 1) as nat)),
    decreases k,
{
    if k > 0 {
        lemma_lex_steady(ls, sts, (k - 1) as nat);
        assert(steady_at(ls, sts, k - 1));
        assert(lex_line(ls[k - 1], sts[k - 1], prev_line(ls, k - 1), k) == (
            line_token_in(ls[k - 1], sts[k - 1], k),
            state_at(sts, k as int),
        ));
        assert(Seq::new(k, |i: int| line_token_in(ls[i], sts[i], (i + 1) as nat)) =~= Seq::new(
            (k - 1) as nat,
            |i: int| line_token_in(ls[i], sts[i], (i + 1) as nat),
        ).push(line_token_in(ls[k - 1], sts[k - 1], k)));
    } else {
        assert(Seq::new(0, |i: int| line_token_in(ls[i], sts[i], (i + 1) as nat)) =~= Seq::<TokenV>::empty());
    }
}

/// Each line of a block, read in its state, gives its own token and the
/// state of the next line: the first line after an empty line, the others
/// after any line.
proof fn lemma_block_lines_steady(b: BlockV, o: MarkdownSerializeOptions)
    requires
        is_doc_block(b),
        o.heading_style == HeadingStyle::Atx,
        o.code_block_style == CodeBlockStyle::Fenced,
    ensures
        forall|n: nat| #[trigger] lex_line(block_lines(b, o)[0], initial_state(), Seq::empty(), n).1 == state_at(
            block_states(b, o),
            1,
        ),
        forall|k: int, prev: Seq<char>, n: nat|
            1 <= k < block_lines(b, o).len() ==> #[trigger] lex_line(block_lines(b, o)[k], line_state(b, k), prev, n)
                == (line_token_in(block_lines(b, o)[k], line_state(b, k), n), state_at(block_states(b, o), k + 1)),
{
    reveal(is_doc_block);
    lemma_block_lines_len(b, o);
    if is_plain_code(b) {
        let l = block_lines(b, o);
        let parts = split(code_text(b), '\n');
        let m = parts.len();
        lemma_split_avoids(code_text(b), '\n', '`');
        crate::text::lemma_split_len(code_text(b), '\n');
        assert(l == code_lines(b));
        assert(l.len() == m + 2);
        assert forall|n: nat| #[trigger] lex_line(l[0], initial_state(), Seq::empty(), n).1 == state_at(
            block_states(b, o),
            1,
        ) by {
            lemma_lex_fence_open(b, Seq::empty(), n);
            assert(l[0] == fence_open(b));
            assert(block_states(b, o)[1] == line_state(b, 1));
        }
        assert forall|k: int, prev: Seq<char>, n: nat| 1 <= k < l.len() implies #[trigger] lex_line(
            l[k],
            line_state(b, k),
            prev,
            n,
        ) == (line_token_in(l[k], line_state(b, k), n), state_at(block_states(b, o), k + 1)) by {
            assert(line_state(b, k) == code_state());
            if k <= m {
                assert(l[k] == parts[k - 1]);
                assert(no_char(parts[k - 1], '`'));
                lemma_lex_code_line(parts[k - 1], prev, n);
                lemma_lex_code_line(parts[k - 1], Seq::empty(), n);
                assert(block_states(b, o)[k + 1] == line_state(b, k + 1));
            } else {
                assert(l[k] == fence_line());
                lemma_lex_fence_close(prev, n);
                lemma_lex_fence_close(Seq::empty(), n);
            }
        }
    } else if is_plain_table(b) {
        lemma_table_lines(b);
        let ls = block_lines(b, o);
        assert forall|k: int, prev: Seq<char>, n: nat| 0 <= k < ls.len() implies #[trigger] lex_line(
            ls[k],
            initial_state(),
            prev,
            n,
        ) == (line_token(ls[k], n), initial_state()) by {
            lemma_lex_table_line(ls[k], k == 1, prev, n);
            lemma_lex_table_line(ls[k], k == 1, Seq::<char>::empty(), n);
        }
        assert(lex_line(ls[0], initial_state(), Seq::empty(), 0).1 == initial_state());
    } else if is_plain_image(b) {
        let l = crate::markdown::serializer::ser_image(b);
        assert(block_lines(b, o) == seq![l]);
        assert forall|n: nat| #[trigger] lex_line(l, initial_state(), Seq::empty(), n).1 == initial_state() by {
            lemma_lex_image(b, Seq::empty(), n);
        }
    } else if is_plain_divider(b) {
        assert(block_lines(b, o) == seq![divider_line()]);
        assert forall|n: nat| #[trigger] lex_line(divider_line(), initial_state(), Seq::empty(), n).1
            == initial_state() by {
            lemma_lex_divider(n);
        }
    } else if is_plain_check(b) {
        assert(block_lines(b, o) == seq![check_line(b)]);
        assert forall|n: nat| #[trigger] lex_line(check_line(b), initial_state(), Seq::empty(), n).1
            == initial_state() by {
            lemma_lex_check(b, n);
        }
    } else if is_plain_bullets(b) {
        let l = block_lines(b, o);
        assert(l == bullet_lines(b, o));
        assert forall|k: int, prev: Seq<char>, n: nat| 0 <= k < l.len() implies #[trigger] lex_line(
            l[k],
            initial_state(),
            prev,
            n,
        ) == (line_token(l[k], n), initial_state()) by {
            lemma_lex_bullet(b.children[k], o, prev, n);
            lemma_lex_bullet(b.children[k], o, Seq::empty(), n);
        }
        assert(lex_line(l[0], initial_state(), Seq::empty(), 0).1 == initial_state());
    } else if is_plain_quote(b) {
        assert(block_lines(b, o) == seq![quote_line(b)]);
        assert forall|n: nat| #[trigger] lex_line(quote_line(b), initial_state(), Seq::empty(), n).1
            == initial_state() by {
            lemma_lex_quote(b, n);
        }
    } else {
        let l = line_of(b);
        assert(block_lines(b, o) == seq![l]);
        assert forall|n: nat| #[trigger] lex_line(l, initial_state(), Seq::empty(), n).1 == initial_state() by {
            if b.block_type == BlockType::Paragraph {
                lemma_lex_words(b, Seq::empty(), n);
            } else {
                lemma_lex_heading(b, Seq::empty(), n);
            }
        }
    }
}

proof fn lemma_blank_steady()
    ensures
        steady_line(Seq::<char>::empty()),
{
    assert forall|prev: Seq<char>, n: nat| #[trigger] lex_line(Seq::<char>::empty(), initial_state(), prev, n) == (
        line_token(Seq::<char>::empty(), n),
        initial_state(),
    ) by {
        lemma_lex_blank(prev, n);
        lemma_lex_blank(Seq::<char>::empty(), n);
    }
}

/// Where each block's states and the states of the empty lines between
/// blocks stand.
proof fn lemma_doc_states(bs: Seq<BlockV>, o: MarkdownSerializeOptions)
    requires
        bs.len() >= 1,
    ensures
        doc_states(bs, o).len() == doc_lines(bs, o).len(),
        forall|j: int, k: int|
            0 <= j < bs.len() && 0 <= k < block_lines(bs[j], o).len() ==> #[trigger] doc_states(bs, o)[block_start(bs, j, o) + k]
                == line_state(bs[j], k),
        forall|j: int|
            0 <= j < bs.len() - 1 ==> #[trigger] doc_states(bs, o)[block_start(bs, j, o) + block_lines(bs[j], o).len()]
                == initial_state(),
    decreases bs.len(),
{
    let n = bs.len();
    lemma_doc_lines(bs, o);
    lemma_block_lines_len(bs.last(), o);
    if n == 1 {
        assert(doc_states(bs, o) == block_states(bs[0], o));
        assert(doc_lines(bs, o) == block_lines(bs[0], o));
        assert forall|j: int, k: int|
            0 <= j < bs.len() && 0 <= k < block_lines(bs[j], o).len() implies #[trigger] doc_states(bs, o)[block_start(bs, j, o) + k]
                == line_state(bs[j], k) by {
            assert(j == 0);
            assert(block_start(bs, 0, o) == 0);
        }
    } else {
        let d = bs.drop_last();
        lemma_doc_states(d, o);
        lemma_doc_lines(d, o);
        let ds = doc_states(d, o);
        let lb = block_states(bs.last(), o);
        let full = ds + seq![initial_state()] + lb;
        assert(doc_states(bs, o) == full);
        assert(doc_lines(bs, o) == doc_lines(d, o) + seq![Seq::<char>::empty()] + block_lines(bs.last(), o));
        lemma_block_start_prefix(bs, n - 2, o);
        lemma_block_start_prefix(bs, n - 1, o);
        assert(d.last() == bs[n - 2]);
        assert(block_start(bs, n - 1, o) == block_start(bs, n - 2, o) + block_lines(bs[n - 2], o).len() + 1);
        assert(ds.len() + 1 == block_start(bs, n - 1, o));
        assert forall|j: int, k: int|
            0 <= j < bs.len() && 0 <= k < block_lines(bs[j], o).len() implies #[trigger] doc_states(bs, o)[block_start(bs, j, o) + k]
                == line_state(bs[j], k) by {
            if j < n - 1 {
                lemma_block_start_prefix(bs, j, o);
                assert(d[j] == bs[j]);
                let i = block_start(d, j, o) + k;
                assert(0 <= i < ds.len()) by {
                    lemma_block_start_mono(d, 0, j, o);
                    if j < n - 2 {
                        lemma_block_start_mono(d, j + 1, n - 2, o);
                        lemma_block_lines_len(d.last(), o);
                        assert(block_start(d, j + 1, o) == block_start(d, j, o) + block_lines(d[j], o).len() + 1);
                    } else {
                        assert(d.last() == d[j]);
                    }
                }
                assert(full[i] == ds[i]);
                assert(ds[block_start(d, j, o) + k] == line_state(d[j], k));
            } else {
                assert(full[block_start(bs, j, o) + k] == lb[k]);
            }
        }
        assert forall|j: int|
            0 <= j < bs.len() - 1 implies #[trigger] doc_states(bs, o)[block_start(bs, j, o) + block_lines(bs[j], o).len()]
                == initial_state() by {
            lemma_block_start_prefix(bs, j, o);
            assert(d[j] == bs[j]);
            let i = block_start(d, j, o) + block_lines(d[j], o).len();
            if j < n - 2 {
                lemma_block_start_mono(d, 0, j, o);
                lemma_block_start_mono(d, j + 1, n - 2, o);
                lemma_block_lines_len(d.last(), o);
                assert(block_start(d, j + 1, o) == block_start(d, j, o) + block_lines(d[j], o).len() + 1);
                assert(0 <= i < ds.len());
                assert(full[i] == ds[i]);
                assert(ds[block_start(d, j, o) + block_lines(d[j], o).len()] == initial_state());
            } else {
                assert(d.last() == d[j]);
                assert(i == ds.len());
                assert(full[i] == initial_state());
            }
        }
    }
}

proof fn lemma_doc_lines_steady(bs: Seq<BlockV>, o: MarkdownSerializeOptions)
    requires
        o.heading_style == HeadingStyle::Atx,
        o.code_block_style == CodeBlockStyle::Fenced,
        forall|k: int| 0 <= k < bs.len() ==> is_doc_block(#[trigger] bs[k]),
    ensures
        doc_states(bs, o).len() == doc_lines(bs, o).len(),
        doc_lines(bs, o).len() > 0 ==> doc_states(bs, o)[0] == initial_state(),
        forall|i: int| 0 <= i < doc_lines(bs, o).len() ==> steady_at(doc_lines(bs, o), doc_states(bs, o), i),
    decreases bs.len(),
{
    if bs.len() >= 1 {
        let b = bs.last();
        let l = block_lines(b, o);
        let lb = block_states(b, o);
        lemma_block_lines_steady(b, o);
        lemma_block_lines_len(b, o);
        if bs.len() == 1 {
            assert(doc_lines(bs, o) == l);
            assert(doc_states(bs, o) == lb);
            assert(bs[0] == b);
            assert forall|i: int| 0 <= i < l.len() implies steady_at(l, lb, i) by {
                assert forall|n: nat| #[trigger] lex_line(l[i], lb[i], prev_line(l, i), n) == (
                    line_token_in(l[i], lb[i], n),
                    state_at(lb, i + 1),
                ) by {
                    if i == 0 {
                        assert(lex_line(l[0], initial_state(), Seq::empty(), n).1 == state_at(lb, 1));
                    } else {
                        assert(lex_line(l[i], line_state(b, i), prev_line(l, i), n) == (
                            line_token_in(l[i], line_state(b, i), n),
                            state_at(lb, i + 1),
                        ));
                    }
                }
            }
        } else {
            let d = bs.drop_last();
            assert forall|k: int| 0 <= k < d.len() implies is_doc_block(#[trigger] d[k]) by {
                assert(d[k] == bs[k]);
            }
            lemma_doc_lines_steady(d, o);
            let dl = doc_lines(d, o);
            let ds = doc_states(d, o);
            let full = dl + seq![Seq::<char>::empty()] + l;
            let fs = ds + seq![initial_state()] + lb;
            assert(doc_lines(bs, o) == full);
            assert(doc_states(bs, o) == fs);
            lemma_blank_steady();
            assert forall|i: int| 0 <= i < full.len() implies steady_at(full, fs, i) by {
                assert forall|n: nat| #[trigger] lex_line(full[i], fs[i], prev_line(full, i), n) == (
                    line_token_in(full[i], fs[i], n),
                    state_at(fs, i + 1),
                ) by {
                    if i < dl.len() {
                        assert(full[i] == dl[i]);
                        assert(fs[i] == ds[i]);
                        assert(prev_line(full, i) == prev_line(dl, i));
                        assert(steady_at(dl, ds, i));
                        assert(lex_line(dl[i], ds[i], prev_line(dl, i), n) == (
                            line_token_in(dl[i], ds[i], n),
                            state_at(ds, i + 1),
                        ));
                        assert(state_at(fs, i + 1) == state_at(ds, i + 1));
                    } else if i == dl.len() {
                        assert(full[i] == Seq::<char>::empty());
                        assert(fs[i] == initial_state());
                        assert(lex_line(Seq::<char>::empty(), initial_state(), prev_line(full, i), n) == (
                            line_token(Seq::<char>::empty(), n),
                            initial_state(),
                        ));
                        assert(fs[i + 1] == lb[0]);
                    } else if i == dl.len() + 1 {
                        assert(full[i] == l[0]);
                        assert(fs[i] == lb[0]);
                        assert(prev_line(full, i) == Seq::<char>::empty());
                        assert(lex_line(l[0], initial_state(), Seq::empty(), n).1 == state_at(lb, 1));
                        assert(state_at(fs, i + 1) == state_at(lb, 1));
                    } else {
                        let k = i - dl.len() - 1;
                        assert(full[i] == l[k]);
                        assert(fs[i] == lb[k]);
                        assert(lex_line(l[k], line_state(b, k), prev_line(full, i), n) == (
                            line_token_in(l[k], line_state(b, k), n),
                            state_at(lb, k + 1),
                        ));
                        assert(state_at(fs, i + 1) == state_at(lb, k + 1));
                    }
                }
            }
        }
    }
}

/// A plain block's token, followed by a blank line or the end, parses back
/// to the block.
proof fn lemma_block_at_plain(ts: Seq<TokenV>, s: int, b: BlockV, n: nat)
    requires
        is_plain_block(b),
        0 <= s < ts.len(),
        ts[s] == plain_token(b, n),
        s + 1 == ts.len() || ts[s + 1].token_type == TokenType::Blank,
    ensures
        block_at(ts, s) == (Some(crate::markdown::utils::erase_ids(b)), s + 1),
{
    let t = words_of(b);
    assert forall|k: int| 0 <= k < t.len() implies is_literal_char(#[trigger] t[k]) by {
        assert(is_ascii_alnum(t[k]) || t[k] == ' ');
    }
    law_literal_text_is_one_span(t);
    assert(b.content =~= seq![SpanV { text: t, styles: plain_style() }]);
    assert(crate::markdown::utils::erase_all_ids(b.children) =~= Seq::<BlockV>::empty());
    if b.block_type == BlockType::Paragraph {
        assert(run_end(ts, s + 1, TokenType::Paragraph) == s + 1);
        assert(run_end(ts, s, TokenType::Paragraph) == s + 1);
        assert(contents(ts, s, s + 1) =~= seq![t]);
        assert(join(seq![t], seq![' ']) == t);
    } else {
        let lv = heading_level(b.props);
        assert(clamp_level(Some(lv)) == lv);
    }
}

proof fn lemma_scan_rows_at(
    ts: Seq<TokenV>,
    s: int,
    i: int,
    e: int,
    acc: crate::markdown::block_parser::TableAcc,
    rs: Seq<Seq<Seq<char>>>,
)
    requires
        0 <= s,
        s + 2 <= i <= e <= ts.len(),
        rs.len() == e - s - 2,
        e == ts.len() || ts[e].token_type == TokenType::Blank,
        acc.has_sep,
        !acc.is_first,
        forall|k: int|
            s + 2 <= k < e ==> (#[trigger] ts[k]).token_type == TokenType::TableRow
                && crate::markdown::block_parser::row_cells(ts[k].content) == rs[k - s - 2],
    ensures
        crate::markdown::block_parser::table_scan(ts, i, acc) == (
            crate::markdown::block_parser::TableAcc {
                rows: acc.rows + rs.subrange(i - s - 2, rs.len() as int),
                ..acc
            },
            e,
        ),
    decreases e - i,
{
    if i == e {
        assert(acc.rows + rs.subrange(i - s - 2, rs.len() as int) =~= acc.rows);
    } else {
        let next = crate::markdown::block_parser::TableAcc { rows: acc.rows.push(rs[i - s - 2]), ..acc };
        lemma_scan_rows_at(ts, s, i + 1, e, next, rs);
        assert(acc.rows.push(rs[i - s - 2]) + rs.subrange(i + 1 - s - 2, rs.len() as int) =~= acc.rows
            + rs.subrange(i - s - 2, rs.len() as int));
    }
}

/// A table's tokens, followed by a blank line or the end, parse back to
/// the table.
proof fn lemma_block_at_table(ts: Seq<TokenV>, s: int, b: BlockV, o: MarkdownSerializeOptions)
    requires
        is_plain_table(b),
        0 <= s,
        s + block_lines(b, o).len() <= ts.len(),
        forall|k: int|
            0 <= k < block_lines(b, o).len() ==> #[trigger] ts[s + k] == table_token(
                block_lines(b, o)[k],
                k == 1,
                ts[s + k].line,
            ),
        s + block_lines(b, o).len() == ts.len() || ts[s + block_lines(b, o).len()].token_type
            == TokenType::Blank,
    ensures
        block_at(ts, s) == (Some(crate::markdown::utils::erase_ids(b)), s + block_lines(b, o).len()),
{
    let (h, rs, al) = match b.props {
        PropsV::Table { headers, rows, alignments } => (headers, rows, alignments->0),
        _ => arbitrary(),
    };
    lemma_table_lines(b);
    let ls = block_lines(b, o);
    assert(ls == crate::markdown::serializer::table_lines(h, rs, Some(al)));
    let e = s + ls.len();
    let start = crate::markdown::block_parser::table_start();
    assert(ts[s + 0] == table_token(ls[0], false, ts[s + 0].line));
    assert(ts[s + 1] == table_token(ls[1], true, ts[s + 1].line));
    let acc1 = crate::markdown::block_parser::TableAcc { headers: h, is_first: false, ..start };
    let acc2 = crate::markdown::block_parser::TableAcc { aligns: al, has_sep: true, ..acc1 };
    assert forall|k: int| s + 2 <= k < e implies (#[trigger] ts[k]).token_type == TokenType::TableRow
        && crate::markdown::block_parser::row_cells(ts[k].content) == rs[k - s - 2] by {
        assert(ts[s + (k - s)] == table_token(ls[k - s], false, ts[s + (k - s)].line));
    }
    lemma_scan_rows_at(ts, s, s + 2, e, acc2, rs);
    assert(Seq::<Seq<Seq<char>>>::empty() + rs.subrange(0, rs.len() as int) =~= rs);
    assert(crate::markdown::block_parser::table_scan(ts, s + 1, acc1) == crate::markdown::block_parser::table_scan(
        ts,
        s + 2,
        acc2,
    ));
    assert(crate::markdown::block_parser::table_scan(ts, s, start) == crate::markdown::block_parser::table_scan(
        ts,
        s + 1,
        acc1,
    ));
    let want = crate::markdown::block_parser::mk(
        BlockType::Table,
        Seq::empty(),
        PropsV::Table { headers: h, rows: rs, alignments: Some(al) },
        Seq::empty(),
    );
    assert(crate::markdown::block_parser::table_block(ts, s) == (want, e));
    assert(crate::markdown::utils::erase_all_ids(b.children) =~= Seq::<BlockV>::empty());
    assert(b.content =~= Seq::<SpanV>::empty());
    assert(b.props == PropsV::Table { headers: h, rows: rs, alignments: Some(al) });
    assert(crate::markdown::utils::erase_ids(b) =~= want);
}


/// The tokens of a document's lines.
pub open spec fn doc_tokens(bs: Seq<BlockV>, o: MarkdownSerializeOptions) -> Seq<TokenV> {
    Seq::new(
        doc_lines(bs, o).len(),
        |i: int| line_token_in(doc_lines(bs, o)[i], doc_states(bs, o)[i], (i + 1) as nat),
    )
}

/// Block `j` of the document parses back to itself, and the next block
/// starts after the blank line that follows it.
#[verifier::rlimit(40)]
#[verifier::spinoff_prover]
proof fn lemma_doc_block_at(bs: Seq<BlockV>, o: MarkdownSerializeOptions, j: int)
    requires
        o.heading_style == HeadingStyle::Atx,
        o.code_block_style == CodeBlockStyle::Fenced,
        forall|k: int| 0 <= k < bs.len() ==> is_doc_block(#[trigger] bs[k]),
        0 <= j < bs.len(),
    ensures
        ({
            let ts = doc_tokens(bs, o);
            let s = block_start(bs, j, o);
            let e = s + block_lines(bs[j], o).len();
            &&& s < e <= ts.len()
            &&& block_at(ts, s) == (Some(crate::markdown::utils::erase_ids(bs[j])), e)
            &&& (j < bs.len() - 1 ==> e < ts.len() && ts[e].token_type == TokenType::Blank && e + 1
                == block_start(bs, j + 1, o))
            &&& (j == bs.len() - 1 ==> e == ts.len())
        }),
{
    let n = bs.len();
    let b = bs[j];
    let ts = doc_tokens(bs, o);
    let dl = doc_lines(bs, o);
    let s = block_start(bs, j, o);
    let l = block_lines(b, o);
    let m = l.len();
    let e = s + m;
    lemma_doc_lines(bs, o);
    lemma_doc_states(bs, o);
    lemma_block_lines_len(b, o);
    lemma_block_start_mono(bs, 0, j, o);
    assert(e <= dl.len()) by {
        if j < n - 1 {
            lemma_block_start_mono(bs, j + 1, n - 1, o);
            lemma_block_lines_len(bs.last(), o);
        } else {
            assert(bs.last() == b);
        }
    }
    assert forall|k: int| 0 <= k < m implies #[trigger] ts[s + k] == line_token_in(
        l[k],
        line_state(b, k),
        (s + k + 1) as nat,
    ) by {
        assert(dl[block_start(bs, j, o) + k] == block_lines(bs[j], o)[k]);
        assert(doc_states(bs, o)[block_start(bs, j, o) + k] == line_state(bs[j], k));
    }
    if j < n - 1 {
        lemma_block_start_mono(bs, j + 1, n - 1, o);
        lemma_block_lines_len(bs.last(), o);
        assert(e < dl.len());
        assert(dl[block_start(bs, j, o) + block_lines(bs[j], o).len()] == Seq::<char>::empty());
        assert(doc_states(bs, o)[block_start(bs, j, o) + block_lines(bs[j], o).len()] == initial_state());
        lemma_lex_blank(Seq::<char>::empty(), (e + 1) as nat);
        assert(ts[e] == blank_token((e + 1) as nat));
    } else {
        assert(bs.last() == b);
    }
    reveal(is_doc_block);
    assert(is_doc_block(b));
    if is_plain_code(b) {
        let parts = split(code_text(b), '\n');
        let mm = parts.len();
        lemma_split_avoids(code_text(b), '\n', '`');
        assert(l == code_lines(b));
        assert(ts[s + 0] == line_token_in(l[0], line_state(b, 0), (s + 0 + 1) as nat));
        assert(l[0] == fence_open(b));
        lemma_lex_fence_open(b, Seq::empty(), (s + 1) as nat);
        assert forall|k: int| 0 <= k < mm implies (#[trigger] ts[s + 1 + k]).token_type
            == TokenType::CodeContent && ts[s + 1 + k].content == parts[k] by {
            let q = 1 + k;
            assert(ts[s + q] == line_token_in(l[q], line_state(b, q), (s + q + 1) as nat));
            assert(s + q == s + 1 + k);
            assert(l[q] == parts[k]);
            assert(line_state(b, q) == code_state());
            lemma_lex_code_line(parts[k], Seq::empty(), (s + q + 1) as nat);
        }
        let z: int = 1 + mm as int;
        assert(ts[s + z] == line_token_in(l[z], line_state(b, z), (s + z + 1) as nat));
        assert(l[z] == fence_line());
        assert(line_state(b, z) == code_state());
        lemma_lex_fence_close(Seq::empty(), (s + z + 1) as nat);
        lemma_block_at_code(ts, s, b);
    } else if is_plain_table(b) {
        lemma_table_lines(b);
        assert forall|k: int| 0 <= k < m implies #[trigger] ts[s + k] == table_token(l[k], k == 1, ts[s + k].line) by {
            lemma_lex_table_line(l[k], k == 1, Seq::<char>::empty(), (s + k + 1) as nat);
            assert(ts[s + k] == line_token(l[k], (s + k + 1) as nat));
        }
        lemma_block_at_table(ts, s, b, o);
    } else if is_plain_image(b) {
        assert(l == seq![crate::markdown::serializer::ser_image(b)]);
        assert(ts[s + 0] == line_token(l[0], (s + 1) as nat));
        lemma_lex_image(b, Seq::<char>::empty(), (s + 1) as nat);
        lemma_block_at_image(ts, s, b, (s + 1) as nat);
    } else if is_plain_divider(b) {
        assert(l == seq![divider_line()]);
        assert(ts[s + 0] == line_token(l[0], (s + 1) as nat));
        lemma_lex_divider((s + 1) as nat);
        lemma_block_at_divider(ts, s, b, (s + 1) as nat);
    } else if is_plain_check(b) {
        assert(l == seq![check_line(b)]);
        assert(ts[s + 0] == line_token(l[0], (s + 1) as nat));
        lemma_lex_check(b, (s + 1) as nat);
        lemma_block_at_check_quote(ts, s, b, (s + 1) as nat);
    } else if is_plain_bullets(b) {
        assert(l == bullet_lines(b, o));
        assert forall|k: int| 0 <= k < b.children.len() implies #[trigger] ts[s + k] == bullet_token(
            b.children[k],
            o,
            ts[s + k].line,
        ) by {
            assert(ts[s + k] == line_token_in(l[k], line_state(b, k), (s + k + 1) as nat));
            lemma_lex_bullet(b.children[k], o, Seq::empty(), (s + k + 1) as nat);
        }
        lemma_block_at_bullets(ts, s, b, o);
    } else if is_plain_quote(b) {
        assert(l == seq![quote_line(b)]);
        assert(ts[s + 0] == line_token(l[0], (s + 1) as nat));
        lemma_lex_quote(b, (s + 1) as nat);
        lemma_block_at_check_quote(ts, s, b, (s + 1) as nat);
    } else {
        assert(l == seq![line_of(b)]);
        assert(ts[s + 0] == line_token(l[0], (s + 1) as nat));
        if b.block_type == BlockType::Paragraph {
            lemma_lex_words(b, Seq::<char>::empty(), (s + 1) as nat);
        } else {
            lemma_lex_heading(b, Seq::<char>::empty(), (s + 1) as nat);
        }
        lemma_block_at_plain(ts, s, b, (s + 1) as nat);
    }
}

proof fn lemma_parse_doc(bs: Seq<BlockV>, o: MarkdownSerializeOptions, j: int)
    requires
        o.heading_style == HeadingStyle::Atx,
        o.code_block_style == CodeBlockStyle::Fenced,
        forall|k: int| 0 <= k < bs.len() ==> is_doc_block(#[trigger] bs[k]),
        0 <= j < bs.len(),
    ensures
        parse_from(doc_tokens(bs, o), block_start(bs, j, o)) == crate::markdown::utils::erase_all_ids(bs).skip(j),
    decreases bs.len() - j,
{
    let ts = doc_tokens(bs, o);
    let s = block_start(bs, j, o);
    let e = s + block_lines(bs[j], o).len();
    let er = crate::markdown::utils::erase_all_ids(bs);
    crate::markdown::utils::lemma_erase_all_ids(bs);
    lemma_doc_block_at(bs, o, j);
    lemma_block_start_mono(bs, 0, j, o);
    assert(ts[s].token_type != TokenType::Blank) by {
        let b = bs[j];
        reveal(is_doc_block);
        if is_plain_table(b) {
            assert(block_at(ts, s).0 is Some);
        } else {
            assert(block_at(ts, s).0 is Some);
        }
    }
    assert(parse_from(ts, s) == seq![er[j]] + parse_from(ts, e));
    if j < bs.len() - 1 {
        lemma_parse_doc(bs, o, j + 1);
        assert(parse_from(ts, e) == parse_from(ts, e + 1));
        assert(er.skip(j) =~= seq![er[j]] + er.skip(j + 1));
    } else {
        assert(parse_from(ts, e) == Seq::<BlockV>::empty());
        assert(er.skip(j) =~= seq![er[j]]);
    }
}


/// Writing a document of plain paragraphs, headings (ATX style), tables of
/// plain cells, images with plain URLs, alternative texts and titles,
/// dividers, fenced code blocks whose code holds no backtick, and
/// check-list items, one-line quotes and bullet lists of plain words, with
/// either line ending and any bullet, and parsing the text gives the same blocks
/// back, identifiers aside; writing those again gives the same text.
pub proof fn law_document_round_trip(bs: Seq<BlockV>, o: MarkdownSerializeOptions)
    requires
        o.heading_style == HeadingStyle::Atx,
        o.code_block_style == CodeBlockStyle::Fenced,
        forall|k: int| 0 <= k < bs.len() ==> is_plain_block(#[trigger] bs[k]) || is_plain_table(bs[k])
            || is_plain_image(bs[k]) || is_plain_divider(bs[k]) || is_plain_code(bs[k]) || is_plain_check(bs[k])
            || is_plain_quote(bs[k]) || is_plain_bullets(bs[k]),
    ensures
        md_blocks(ser_blocks(bs, o)) == crate::markdown::utils::erase_all_ids(bs),
        ser_blocks(md_blocks(ser_blocks(bs, o)), o) == ser_blocks(bs, o),
{
    lemma_doc_parse_back(bs, o);
    assert forall|k: int| 0 <= k < bs.len() implies (#[trigger] bs[k]).children.len() == 0 || is_plain_bullets(
        bs[k],
    ) by {
        assert(is_plain_block(bs[k]) || is_plain_table(bs[k]) || is_plain_image(bs[k]) || is_plain_divider(
            bs[k],
        ) || is_plain_code(bs[k]) || is_plain_check(bs[k]) || is_plain_quote(bs[k]) || is_plain_bullets(bs[k]));
    }
    lemma_ser_ignores_ids(bs, o);
}

proof fn lemma_doc_parse_back(bs: Seq<BlockV>, o: MarkdownSerializeOptions)
    requires
        o.heading_style == HeadingStyle::Atx,
        o.code_block_style == CodeBlockStyle::Fenced,
        forall|k: int| 0 <= k < bs.len() ==> is_plain_block(#[trigger] bs[k]) || is_plain_table(bs[k])
            || is_plain_image(bs[k]) || is_plain_divider(bs[k]) || is_plain_code(bs[k]) || is_plain_check(bs[k])
            || is_plain_quote(bs[k]) || is_plain_bullets(bs[k]),
    ensures
        md_blocks(ser_blocks(bs, o)) == crate::markdown::utils::erase_all_ids(bs),
{
    let text = ser_blocks(bs, o);
    if bs.len() == 0 {
        assert(Seq::new(0, |i: int| ser_block(bs[i], 0, o)) =~= Seq::<Seq<char>>::empty());
        assert(text =~= Seq::<char>::empty());
        assert(normalize_le(text) =~= Seq::<char>::empty());
        assert(md_lines(text) =~= seq![Seq::<char>::empty()]);
        lemma_lex_blank(Seq::<char>::empty(), 1);
        let ml = md_lines(text);
        assert(ml.len() == 1 && ml[0] == Seq::<char>::empty());
        assert(lex_lines(ml, 0).0 =~= Seq::<TokenV>::empty());
        assert(lex_lines(ml, 0).1 == initial_state());
        assert(lex_lines(ml, 1).0 =~= seq![blank_token(1)]);
        assert(tokens_of(text) =~= seq![blank_token(1)]);
        assert(parse_from(tokens_of(text), 1) == Seq::<BlockV>::empty());
        assert(crate::markdown::utils::erase_all_ids(bs) =~= Seq::<BlockV>::empty());
    } else {
        assert forall|k: int| 0 <= k < bs.len() implies is_doc_block(#[trigger] bs[k]) by {
            reveal(is_doc_block);
        }
        assert(doc_text(bs, o) == text) by {
            reveal(doc_text);
        }
        lemma_doc_md_lines(bs, o);
        let dl = doc_lines(bs, o);
        lemma_doc_lines_steady(bs, o);
        lemma_lex_steady(dl, doc_states(bs, o), dl.len() as nat);
        assert(tokens_of(text) == doc_tokens(bs, o));
        lemma_parse_doc(bs, o, 0);
        crate::markdown::utils::lemma_erase_all_ids(bs);
        assert(crate::markdown::utils::erase_all_ids(bs).skip(0) =~= crate::markdown::utils::erase_all_ids(bs));
    }
}

} // verus!
