//! Reading a tweakcn CSS export: comments are removed (the first usable one
//! names the theme), the `:root` (light) and `.dark` blocks are cut out, and
//! each `--var: oklch(L C H);` declaration is split into its parts. Turning
//! those parts into numbers is left to the caller.

use vstd::prelude::*;
use crate::text::{
    chars_of, contains_char, contains_char_exec, ends_with, ends_with_exec, find_char,
    find_char_exec, lemma_find_char, is_whitespace, is_ws, occurs_at, occurs_at_exec, slice_of, split, split_vec,
    starts_with, starts_with_exec, string_of, strip_end, trim, trim_vec,
};

verus! {

// ---------------------------------------------------------------------------
// Searching
// ---------------------------------------------------------------------------

/// `str::find(p)` on `s[i..]`: the first position at or after `i` where
/// `p` occurs.
pub open spec fn find_from(s: Seq<char>, p: Seq<char>, i: int) -> Option<int>
    decreases s.len() - i,
{
    if i < 0 || i + p.len() > s.len() {
        None
    } else if occurs_at(s, p, i) {
        Some(i)
    } else if i >= s.len() {
        None
    } else {
        find_from(s, p, i + 1)
    }
}

pub proof fn lemma_find_from(s: Seq<char>, p: Seq<char>, i: int)
    ensures
        match find_from(s, p, i) {
            Some(j) => i <= j && j + p.len() <= s.len() && occurs_at(s, p, j),
            None => true,
        },
    decreases s.len() - i,
{
    if !(i < 0 || i + p.len() > s.len()) && !occurs_at(s, p, i) && i < s.len() {
        lemma_find_from(s, p, i + 1);
    }
}

fn find_from_exec(s: &Vec<char>, p: &Vec<char>, i: usize) -> (r: Option<usize>)
    requires
        p.len() > 0,
    ensures
        match r {
            Some(j) => find_from(s@, p@, i as int) == Some(j as int),
            None => find_from(s@, p@, i as int) is None,
        },
{
    let mut j = i;
    while j < s.len() && p.len() <= s.len() - j
        invariant
            i <= j,
            find_from(s@, p@, i as int) == find_from(s@, p@, j as int),
        decreases s.len() - j,
    {
        if occurs_at_exec(s, p, j) {
            return Some(j);
        }
        j += 1;
    }
    None
}

// ---------------------------------------------------------------------------
// Comments
// ---------------------------------------------------------------------------

pub open spec fn comment_open() -> Seq<char> {
    seq!['/', '*']
}

pub open spec fn comment_close() -> Seq<char> {
    seq!['*', '/']
}

pub open spec fn hint_prefix() -> Seq<char> {
    "tweakcn theme:"@
}

/// The theme name a (trimmed) comment gives: the text after
/// `tweakcn theme:`, or the comment itself when it is one word.
pub open spec fn name_hint(comment: Seq<char>) -> Option<Seq<char>> {
    if starts_with(comment, hint_prefix()) {
        Some(trim(comment.skip(hint_prefix().len() as int)))
    } else if !contains_char(comment, ' ') && comment.len() > 0 {
        Some(comment)
    } else {
        None
    }
}

/// Where a comment whose text starts at `start` ends: at the next `*/`, or
/// at the end of the text.
pub open spec fn comment_end(s: Seq<char>, start: int) -> int {
    match find_from(s, comment_close(), start) {
        Some(j) => j,
        None => s.len() as int,
    }
}

/// `s[i..]` without its comments, and the first theme name its comments
/// give.
pub open spec fn uncomment_from(s: Seq<char>, i: int) -> (Seq<char>, Option<Seq<char>>)
    decreases s.len() - i,
{
    if i < 0 || i >= s.len() {
        (Seq::empty(), None)
    } else if occurs_at(s, comment_open(), i) {
        let end = comment_end(s, i + 2);
        let next = if end < s.len() {
            end + 2
        } else {
            s.len() as int
        };
        proof {
            lemma_find_from(s, comment_close(), i + 2);
        }
        let rest = uncomment_from(s, next);
        let here = name_hint(trim(s.subrange(i + 2, end)));
        (rest.0, if here is Some {
            here
        } else {
            rest.1
        })
    } else {
        let rest = uncomment_from(s, i + 1);
        (seq![s[i]] + rest.0, rest.1)
    }
}

fn name_hint_exec(comment: &Vec<char>) -> (r: Option<Vec<char>>)
    ensures
        match r {
            Some(h) => name_hint(comment@) == Some(h@),
            None => name_hint(comment@) is None,
        },
{
    let pre = chars_of("tweakcn theme:");
    if starts_with_exec(comment, &pre) {
        let rest = slice_of(comment, pre.len(), comment.len());
        assert(rest@ =~= comment@.skip(hint_prefix().len() as int));
        Some(trim_vec(&rest))
    } else if !contains_char_exec(comment, ' ') && comment.len() > 0 {
        let whole = slice_of(comment, 0, comment.len());
        assert(whole@ =~= comment@);
        Some(whole)
    } else {
        None
    }
}

/// The text without its `/* ... */` comments, and the theme name that the
/// first usable comment gives.
fn uncomment(s: &Vec<char>) -> (r: (Vec<char>, Option<Vec<char>>))
    ensures
        r.0@ == uncomment_from(s@, 0).0,
        match r.1 {
            Some(h) => uncomment_from(s@, 0).1 == Some(h@),
            None => uncomment_from(s@, 0).1 is None,
        },
{
    let open = vec!['/', '*'];
    let close = vec!['*', '/'];
    assert(open@ =~= comment_open());
    assert(close@ =~= comment_close());
    let mut cleaned: Vec<char> = Vec::new();
    let mut hint: Option<Vec<char>> = None;
    let mut i: usize = 0;
    while i < s.len()
        invariant
            i <= s.len(),
            open@ == comment_open(),
            close@ == comment_close(),
            uncomment_from(s@, 0).0 == cleaned@ + uncomment_from(s@, i as int).0,
            uncomment_from(s@, 0).1 == (match hint {
                Some(h) => Some(h@),
                None => uncomment_from(s@, i as int).1,
            }),
        decreases s.len() - i,
    {
        if occurs_at_exec(s, &open, i) {
            let start = i + 2;
            proof {
                lemma_find_from(s@, comment_close(), start as int);
            }
            let end = match find_from_exec(s, &close, start) {
                Some(j) => j,
                None => s.len(),
            };
            let comment = trim_vec(&slice_of(s, start, end));
            if hint.is_none() {
                hint = name_hint_exec(&comment);
            }
            i = if end < s.len() {
                end + 2
            } else {
                s.len()
            };
        } else {
            let ghost before = cleaned@;
            cleaned.push(s[i]);
            assert(cleaned@ + uncomment_from(s@, i + 1).0 =~= before + uncomment_from(
                s@,
                i as int,
            ).0);
            i += 1;
        }
    }
    assert(cleaned@ =~= cleaned@ + uncomment_from(s@, i as int).0);
    (cleaned, hint)
}


// ---------------------------------------------------------------------------
// Blocks
// ---------------------------------------------------------------------------

/// Where the block whose body runs from `i` closes, `depth` braces deep:
/// the `}` that brings the depth to zero.
pub open spec fn block_close(s: Seq<char>, i: int, depth: nat) -> Option<int>
    decreases s.len() - i,
{
    if i < 0 || i >= s.len() {
        None
    } else if s[i] == '{' {
        block_close(s, i + 1, depth + 1)
    } else if s[i] == '}' {
        if depth <= 1 {
            Some(i)
        } else {
            block_close(s, i + 1, (depth - 1) as nat)
        }
    } else {
        block_close(s, i + 1, depth)
    }
}

/// The body of the first block that `selector` introduces: from the first
/// `{` after the selector to its matching `}`; empty when it never closes.
pub open spec fn block_body(s: Seq<char>, selector: Seq<char>) -> Option<Seq<char>> {
    match find_from(s, selector, 0) {
        None => None,
        Some(at) => match find_from(s, seq!['{'], at + selector.len()) {
            None => None,
            Some(open) => {
                let body_start = open + 1;
                let end = match block_close(s, body_start, 1) {
                    Some(e) => e,
                    None => body_start,
                };
                Some(s.subrange(body_start, end))
            },
        },
    }
}

proof fn lemma_block_close(s: Seq<char>, i: int, depth: nat)
    requires
        0 <= i,
    ensures
        match block_close(s, i, depth) {
            Some(e) => i <= e < s.len(),
            None => true,
        },
    decreases s.len() - i,
{
    if 0 <= i < s.len() {
        if s[i] == '{' {
            lemma_block_close(s, i + 1, depth + 1);
        } else if s[i] == '}' {
            if depth > 1 {
                lemma_block_close(s, i + 1, (depth - 1) as nat);
            }
        } else {
            lemma_block_close(s, i + 1, depth);
        }
    }
}

fn extract_block(s: &Vec<char>, selector: &Vec<char>) -> (r: Option<Vec<char>>)
    requires
        selector.len() > 0,
    ensures
        match r {
            Some(b) => block_body(s@, selector@) == Some(b@),
            None => block_body(s@, selector@) is None,
        },
{
    let len = s.len();
    let sel_at = match find_from_exec(s, selector, 0) {
        Some(a) => a,
        None => {
            return None;
        },
    };
    proof {
        lemma_find_from(s@, selector@, 0);
        assert(sel_at + selector@.len() <= len);
    }
    let from = sel_at + selector.len();
    let brace = vec!['{'];
    assert(brace@ =~= seq!['{']);
    let brace_at = match find_from_exec(s, &brace, from) {
        Some(o) => o,
        None => {
            return None;
        },
    };
    proof {
        lemma_find_from(s@, seq!['{'], from as int);
        assert(brace_at < s@.len());
    }
    let body_start = brace_at + 1;
    let ghost want = block_body(s@, selector@);
    assert(want == Some(
        s@.subrange(
            body_start as int,
            match block_close(s@, body_start as int, 1) {
                Some(e) => e,
                None => body_start as int,
            },
        ),
    ));
    let mut depth: usize = 1;
    let mut j = body_start;
    while j < len
        invariant
            len == s.len(),
            1 <= body_start <= j <= s.len(),
            1 <= depth <= j - body_start + 1,
            want == Some(
                s@.subrange(
                    body_start as int,
                    match block_close(s@, body_start as int, 1) {
                        Some(e) => e,
                        None => body_start as int,
                    },
                ),
            ),
            want == block_body(s@, selector@),
            block_close(s@, body_start as int, 1) == block_close(s@, j as int, depth as nat),
        decreases s.len() - j,
    {
        if s[j] == '{' {
            depth += 1;
        } else if s[j] == '}' {
            if depth == 1 {
                assert(block_close(s@, j as int, 1) == Some(j as int));
                return Some(slice_of(s, body_start, j));
            }
            depth -= 1;
        }
        j += 1;
    }
    Some(slice_of(s, body_start, body_start))
}


// ---------------------------------------------------------------------------
// Declarations
// ---------------------------------------------------------------------------

/// `trim_start_matches(p)`: every leading copy of `p` removed.
pub open spec fn strip_prefix_all(s: Seq<char>, p: Seq<char>) -> Seq<char>
    decreases s.len(),
{
    if p.len() > 0 && starts_with(s, p) {
        strip_prefix_all(s.skip(p.len() as int), p)
    } else {
        s
    }
}

/// `trim_end_matches(p)`: every trailing copy of `p` removed.
pub open spec fn strip_suffix_all(s: Seq<char>, p: Seq<char>) -> Seq<char>
    decreases s.len(),
{
    if p.len() > 0 && ends_with(s, p) {
        strip_suffix_all(s.take(s.len() - p.len()), p)
    } else {
        s
    }
}

/// `str::split_whitespace`: the maximal runs of non-whitespace characters.
pub open spec fn words(s: Seq<char>) -> Seq<Seq<char>>
    decreases s.len(),
{
    if s.len() == 0 {
        Seq::empty()
    } else {
        let w = words(s.drop_last());
        let c = s.last();
        if is_ws(c) {
            w
        } else if s.len() >= 2 && !is_ws(s[s.len() - 2]) {
            w.update(w.len() - 1, w.last().push(c))
        } else {
            w.push(seq![c])
        }
    }
}

proof fn lemma_words_nonempty(s: Seq<char>)
    requires
        s.len() > 0,
        !is_ws(s.last()),
    ensures
        words(s).len() > 0,
    decreases s.len(),
{
    if s.len() >= 2 && !is_ws(s[s.len() - 2]) {
        lemma_words_nonempty(s.drop_last());
    }
}

pub open spec fn decl_marker() -> Seq<char> {
    "--"@
}

pub open spec fn oklch_open() -> Seq<char> {
    "oklch("@
}

pub open spec fn degrees() -> Seq<char> {
    "deg"@
}

/// The three components of an `oklch(L C H)` value, as text ready to be
/// read as numbers: `L` without a trailing `%` (and whether it had one),
/// `C`, and `H` without a trailing `deg`.
pub struct OklchTextV {
    pub lightness: Seq<char>,
    pub percent: bool,
    pub chroma: Seq<char>,
    pub hue: Seq<char>,
}

/// One `--name: oklch(...)` declaration: the variable's name, the value as
/// written, and its components when it has at least three.
pub struct DeclV {
    pub name: Seq<char>,
    pub raw: Seq<char>,
    pub value: Option<OklchTextV>,
}

/// The components of an `oklch` value from its words (only the first three
/// count).
pub open spec fn oklch_text(w: Seq<Seq<char>>) -> Option<OklchTextV> {
    if w.len() < 3 {
        None
    } else {
        Some(
            OklchTextV {
                lightness: strip_end(w[0], '%'),
                percent: ends_with(w[0], seq!['%']),
                chroma: w[1],
                hue: strip_suffix_all(w[2], degrees()),
            },
        )
    }
}

/// The declaration a `;`-separated piece of a block holds, if it is a
/// `--name: oklch(...)` one; every other piece is skipped.
pub open spec fn decl_of(piece: Seq<char>) -> Option<DeclV> {
    let d = trim(piece);
    if !starts_with(d, decl_marker()) {
        None
    } else {
        match find_char(d, ':') {
            None => None,
            Some(k) => {
                let name = strip_prefix_all(trim(d.take(k)), decl_marker());
                let value = trim(d.skip(k + 1));
                let inner = value.skip(oklch_open().len() as int);
                if starts_with(value, oklch_open()) && ends_with(inner, seq![')']) {
                    let args = inner.take(inner.len() - 1);
                    Some(DeclV { name: name, raw: value, value: oklch_text(words(args)) })
                } else {
                    None
                }
            },
        }
    }
}

/// The declarations of the pieces, in order.
pub open spec fn decls_from(pieces: Seq<Seq<char>>) -> Seq<DeclV>
    decreases pieces.len(),
{
    if pieces.len() == 0 {
        Seq::empty()
    } else {
        let rest = decls_from(pieces.drop_last());
        match decl_of(pieces.last()) {
            Some(d) => rest.push(d),
            None => rest,
        }
    }
}

/// The declarations of a block body.
pub open spec fn decls_of(body: Seq<char>) -> Seq<DeclV> {
    decls_from(split(body, ';'))
}

fn strip_prefix_all_exec(s: &Vec<char>, p: &Vec<char>) -> (r: Vec<char>)
    requires
        p.len() > 0,
    ensures
        r@ == strip_prefix_all(s@, p@),
{
    let mut i: usize = 0;
    assert(s@.skip(0) =~= s@);
    while i < s.len() && occurs_at_exec(s, p, i)
        invariant
            i <= s.len(),
            p.len() > 0,
            strip_prefix_all(s@, p@) == strip_prefix_all(s@.skip(i as int), p@),
        decreases s.len() - i,
    {
        proof {
            let t = s@.skip(i as int);
            assert(t.take(p@.len() as int) =~= s@.subrange(i as int, i + p@.len()));
            assert(t.skip(p@.len() as int) =~= s@.skip(i + p@.len()));
        }
        i += p.len();
    }
    proof {
        let t = s@.skip(i as int);
        if i < s.len() && starts_with(t, p@) {
            assert(t.take(p@.len() as int) =~= s@.subrange(i as int, i + p@.len()));
        }
    }
    slice_of(s, i, s.len())
}

fn strip_suffix_all_exec(s: &Vec<char>, p: &Vec<char>) -> (r: Vec<char>)
    requires
        p.len() > 0,
    ensures
        r@ == strip_suffix_all(s@, p@),
{
    let mut k: usize = s.len();
    assert(s@.take(k as int) =~= s@);
    while k >= p.len() && occurs_at_exec(s, p, k - p.len())
        invariant
            k <= s.len(),
            p.len() > 0,
            strip_suffix_all(s@, p@) == strip_suffix_all(s@.take(k as int), p@),
        decreases k,
    {
        proof {
            let t = s@.take(k as int);
            assert(t.skip(t.len() - p@.len()) =~= s@.subrange(k - p@.len(), k as int));
            assert(t.take(t.len() - p@.len()) =~= s@.take(k - p@.len()));
        }
        k -= p.len();
    }
    proof {
        let t = s@.take(k as int);
        if k >= p.len() {
            assert(t.skip(t.len() - p@.len()) =~= s@.subrange(k - p@.len(), k as int));
        }
    }
    let r = slice_of(s, 0, k);
    assert(r@ =~= s@.take(k as int));
    r
}

fn strip_end_exec(s: &Vec<char>, c: char) -> (r: Vec<char>)
    ensures
        r@ == strip_end(s@, c),
{
    let mut k: usize = s.len();
    assert(s@.take(k as int) =~= s@);
    while k > 0 && s[k - 1] == c
        invariant
            k <= s.len(),
            strip_end(s@, c) == strip_end(s@.take(k as int), c),
        decreases k,
    {
        assert(s@.take(k as int).drop_last() =~= s@.take(k - 1));
        k -= 1;
    }
    let r = slice_of(s, 0, k);
    assert(r@ =~= s@.take(k as int));
    r
}

fn words_exec(s: &Vec<char>) -> (r: Vec<Vec<char>>)
    ensures
        r@.map_values(|v: Vec<char>| v@) == words(s@),
{
    let mut r: Vec<Vec<char>> = Vec::new();
    let mut i: usize = 0;
    assert(s@.take(0) =~= Seq::<char>::empty());
    while i < s.len()
        invariant
            i <= s.len(),
            r@.map_values(|v: Vec<char>| v@) == words(s@.take(i as int)),
        decreases s.len() - i,
    {
        let c = s[i];
        let ghost prev = r@.map_values(|v: Vec<char>| v@);
        let ghost t = s@.take(i + 1);
        assert(t.drop_last() =~= s@.take(i as int));
        if is_whitespace(c) {
        } else if i >= 1 && !is_whitespace(s[i - 1]) {
            proof {
                assert(s@.take(i as int).last() == s@[i - 1]);
                lemma_words_nonempty(s@.take(i as int));
            }
            let mut last = r.pop().unwrap();
            last.push(c);
            r.push(last);
            assert(r@.map_values(|v: Vec<char>| v@) =~= prev.update(
                prev.len() - 1,
                prev.last().push(c),
            ));
        } else {
            let mut w: Vec<char> = Vec::new();
            w.push(c);
            r.push(w);
            assert(r@.map_values(|v: Vec<char>| v@) =~= prev.push(seq![c]));
        }
        i += 1;
    }
    assert(s@.take(s.len() as int) =~= s@);
    r
}


// ---------------------------------------------------------------------------
// The export
// ---------------------------------------------------------------------------

/// The three components of an `oklch(L C H)` value as text: `L` without a
/// trailing `%` (and whether it had one), `C`, and `H` without a trailing
/// `deg`.
#[derive(Debug, Clone, PartialEq, Eq)]
pub struct OklchText {
    pub lightness: String,
    pub percent: bool,
    pub chroma: String,
    pub hue: String,
}

/// A `--name: oklch(...)` declaration: the variable's name, the value as
/// written, and its components (none when fewer than three are given).
#[derive(Debug, Clone, PartialEq, Eq)]
pub struct OklchDecl {
    pub name: String,
    pub raw: String,
    pub value: Option<OklchText>,
}

/// What a tweakcn export holds: the theme name its comments give, and the
/// declarations of its light (`:root`) and dark (`.dark`) blocks in order.
#[derive(Debug, Clone, PartialEq, Eq)]
pub struct CssBlocks {
    pub name_comment: Option<String>,
    pub light: Vec<OklchDecl>,
    pub dark: Vec<OklchDecl>,
}

pub struct CssV {
    pub name_comment: Option<Seq<char>>,
    pub light: Seq<DeclV>,
    pub dark: Seq<DeclV>,
}

impl View for OklchText {
    type V = OklchTextV;

    open spec fn view(&self) -> OklchTextV {
        OklchTextV {
            lightness: self.lightness@,
            percent: self.percent,
            chroma: self.chroma@,
            hue: self.hue@,
        }
    }
}

impl View for OklchDecl {
    type V = DeclV;

    open spec fn view(&self) -> DeclV {
        DeclV {
            name: self.name@,
            raw: self.raw@,
            value: match self.value {
                Some(t) => Some(t@),
                None => None,
            },
        }
    }
}

pub open spec fn decls_view(v: Seq<OklchDecl>) -> Seq<DeclV> {
    v.map_values(|d: OklchDecl| d@)
}

impl View for CssBlocks {
    type V = CssV;

    open spec fn view(&self) -> CssV {
        CssV {
            name_comment: match self.name_comment {
                Some(n) => Some(n@),
                None => None,
            },
            light: decls_view(self.light@),
            dark: decls_view(self.dark@),
        }
    }
}

pub open spec fn root_selector() -> Seq<char> {
    ":root"@
}

pub open spec fn dark_selector() -> Seq<char> {
    ".dark"@
}

pub open spec fn body_decls(body: Option<Seq<char>>) -> Seq<DeclV> {
    match body {
        Some(b) => decls_of(b),
        None => Seq::empty(),
    }
}

/// The theme name and the declarations of the two blocks of an export,
/// read from the text with its comments removed.
pub open spec fn css_blocks_of(css: Seq<char>) -> CssV {
    let cleaned = uncomment_from(css, 0);
    CssV {
        name_comment: cleaned.1,
        light: body_decls(block_body(cleaned.0, root_selector())),
        dark: body_decls(block_body(cleaned.0, dark_selector())),
    }
}

fn decl_exec(piece: &Vec<char>) -> (r: Option<OklchDecl>)
    ensures
        match r {
            Some(d) => decl_of(piece@) == Some(d@),
            None => decl_of(piece@) is None,
        },
{
    let d = trim_vec(piece);
    let marker = chars_of("--");
    if !starts_with_exec(&d, &marker) {
        return None;
    }
    let k = match find_char_exec(&d, ':') {
        Some(k) => k,
        None => {
            return None;
        },
    };
    proof {
        lemma_find_char(d@, ':');
        reveal_strlit("--");
        reveal_strlit("deg");
    }
    let name_part = slice_of(&d, 0, k);
    assert(name_part@ =~= d@.take(k as int));
    let name = strip_prefix_all_exec(&trim_vec(&name_part), &marker);
    let value_part = slice_of(&d, k + 1, d.len());
    assert(value_part@ =~= d@.skip(k + 1));
    let value = trim_vec(&value_part);
    let open = chars_of("oklch(");
    if !starts_with_exec(&value, &open) {
        return None;
    }
    let inner = slice_of(&value, open.len(), value.len());
    assert(inner@ =~= value@.skip(oklch_open().len() as int));
    let close = vec![')'];
    assert(close@ =~= seq![')']);
    if !ends_with_exec(&inner, &close) {
        return None;
    }
    let args = slice_of(&inner, 0, inner.len() - 1);
    assert(args@ =~= inner@.take(inner@.len() - 1));
    let w = words_exec(&args);
    let ghost ws = w@.map_values(|v: Vec<char>| v@);
    let value_text = if w.len() < 3 {
        None
    } else {
        let pct = vec!['%'];
        assert(pct@ =~= seq!['%']);
        let deg = chars_of("deg");
        assert(ws[0] == w@[0]@ && ws[1] == w@[1]@ && ws[2] == w@[2]@);
        Some(
            OklchText {
                lightness: string_of(&strip_end_exec(&w[0], '%')),
                percent: ends_with_exec(&w[0], &pct),
                chroma: string_of(&w[1]),
                hue: string_of(&strip_suffix_all_exec(&w[2], &deg)),
            },
        )
    };
    Some(OklchDecl { name: string_of(&name), raw: string_of(&value), value: value_text })
}

fn parse_decls(body: &Vec<char>) -> (r: Vec<OklchDecl>)
    ensures
        decls_view(r@) == decls_of(body@),
{
    let pieces = split_vec(body, ';');
    let ghost ps = pieces@.map_values(|v: Vec<char>| v@);
    let mut out: Vec<OklchDecl> = Vec::new();
    let mut i: usize = 0;
    assert(ps.take(0) =~= Seq::<Seq<char>>::empty());
    assert(decls_view(out@) =~= Seq::<DeclV>::empty());
    while i < pieces.len()
        invariant
            i <= pieces.len(),
            ps == pieces@.map_values(|v: Vec<char>| v@),
            ps == split(body@, ';'),
            decls_view(out@) == decls_from(ps.take(i as int)),
        decreases pieces.len() - i,
    {
        let ghost before = out@;
        let found = decl_exec(&pieces[i]);
        assert(ps[i as int] == pieces@[i as int]@);
        match found {
            Some(d) => {
                out.push(d);
                assert(decls_view(out@) =~= decls_view(before).push(d@));
            },
            None => {},
        }
        i += 1;
        assert(ps.take(i as int).drop_last() =~= ps.take(i - 1));
        assert(ps.take(i as int).last() == ps[i - 1]);
    }
    assert(ps.take(pieces.len() as int) =~= ps);
    out
}

/// Reads the comments, the `:root` block and the `.dark` block of a
/// tweakcn export.
pub fn parse_css_blocks(css: &str) -> (r: CssBlocks)
    ensures
        r@ == css_blocks_of(css@),
{
    let v = chars_of(css);
    let (cleaned, hint) = uncomment(&v);
    let root = chars_of(":root");
    let dark = chars_of(".dark");
    proof {
        reveal_strlit(":root");
        reveal_strlit(".dark");
    }
    let light_decls = match extract_block(&cleaned, &root) {
        Some(b) => parse_decls(&b),
        None => Vec::new(),
    };
    let dark_decls = match extract_block(&cleaned, &dark) {
        Some(b) => parse_decls(&b),
        None => Vec::new(),
    };
    let name_comment = match hint {
        Some(h) => Some(string_of(&h)),
        None => None,
    };
    let r = CssBlocks { name_comment, light: light_decls, dark: dark_decls };
    assert(decls_view(Seq::<OklchDecl>::empty()) =~= Seq::<DeclV>::empty());
    r
}

impl CssBlocks {
    /// Whether neither block holds an `oklch` declaration.
    pub fn is_empty(&self) -> (r: bool)
        ensures
            r == (self@.light.len() == 0 && self@.dark.len() == 0),
    {
        self.light.len() == 0 && self.dark.len() == 0
    }
}


/// Whether a value is written `oklch(...)`.
pub open spec fn is_oklch(value: Seq<char>) -> bool {
    starts_with(value, oklch_open()) && ends_with(value.skip(oklch_open().len() as int), seq![')'])
}

proof fn lemma_decls_are_oklch(pieces: Seq<Seq<char>>)
    ensures
        forall|i: int| 0 <= i < decls_from(pieces).len() ==> is_oklch(#[trigger] decls_from(pieces)[i].raw),
    decreases pieces.len(),
{
    if pieces.len() > 0 {
        lemma_decls_are_oklch(pieces.drop_last());
    }
}

/// Only `oklch(...)` values are read: every declaration of either block is
/// written that way; anything else in the export is skipped.
pub proof fn law_only_oklch_declarations(css: Seq<char>)
    ensures
        forall|i: int|
            0 <= i < css_blocks_of(css).light.len() ==> is_oklch(
                #[trigger] css_blocks_of(css).light[i].raw,
            ),
        forall|i: int|
            0 <= i < css_blocks_of(css).dark.len() ==> is_oklch(
                #[trigger] css_blocks_of(css).dark[i].raw,
            ),
{
    let cleaned = uncomment_from(css, 0).0;
    match block_body(cleaned, root_selector()) {
        Some(b) => lemma_decls_are_oklch(split(b, ';')),
        None => {},
    }
    match block_body(cleaned, dark_selector()) {
        Some(b) => lemma_decls_are_oklch(split(b, ';')),
        None => {},
    }
}

} // verus!
