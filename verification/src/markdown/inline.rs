//! Inline markdown parser: one line of markdown text to styled spans.
//!
//! Recognizes inline code (`` `…` ``), links (`[text](url)`) and images
//! (`![alt](url)`), emphasis (`*…*`, `**…**`, `***…***` and the same with
//! `_`), strikethrough (`~~…~~`), highlight (`==…==`) and `\` escapes.
//! Every delimiter is an ASCII character, so the scan works on characters.

use vstd::prelude::*;
use crate::markdown::types::{InlineStyle, LinkData, LinkV, SpanV, StyleV, TextSpan, opt_str, plain_style, spans_view};
use crate::markdown::utils::{clone_span, clone_style, plain_text};
use crate::text::{
    chars_of, chars_of_string, concat, slice_of, string_of, trim, trim_end, trim_end_vec,
    trim_range,
};

verus! {

// ============================================================================
// Character runs and closing delimiters
// ============================================================================

/// Length of the run of `c` that starts at position `i`.
pub open spec fn run_at(s: Seq<char>, i: int, c: char) -> nat
    decreases s.len() - i,
{
    if 0 <= i < s.len() && s[i] == c {
        1 + run_at(s, i + 1, c)
    } else {
        0
    }
}

pub proof fn lemma_run_at(s: Seq<char>, i: int, c: char)
    requires
        0 <= i <= s.len(),
    ensures
        i + run_at(s, i, c) <= s.len(),
        forall|j: int| i <= j < i + run_at(s, i, c) ==> s[j] == c,
        i + run_at(s, i, c) < s.len() ==> s[i + run_at(s, i, c)] != c,
    decreases s.len() - i,
{
    if i < s.len() && s[i] == c {
        lemma_run_at(s, i + 1, c);
    }
}

fn run_at_exec(s: &Vec<char>, i: usize, c: char) -> (r: usize)
    requires
        i <= s.len(),
    ensures
        r == run_at(s@, i as int, c),
        i + r <= s.len(),
{
    let mut k = i;
    while k < s.len() && s[k] == c
        invariant
            i <= k <= s.len(),
            run_at(s@, i as int, c) == (k - i) + run_at(s@, k as int, c),
        decreases s.len() - k,
    {
        k += 1;
    }
    k - i
}

/// Start of the first maximal run of exactly `n` backticks at or after
/// `from`.
pub open spec fn code_close(s: Seq<char>, n: nat, from: int) -> Option<int>
    decreases s.len() - from,
{
    if from < 0 || from >= s.len() {
        None
    } else if s[from] == '`' && (from == 0 || s[from - 1] != '`') && run_at(s, from, '`') == n {
        Some(from)
    } else {
        code_close(s, n, from + 1)
    }
}

pub proof fn lemma_code_close(s: Seq<char>, n: nat, from: int)
    requires
        0 <= from,
    ensures
        code_close(s, n, from) matches Some(k) ==> from <= k && k + n <= s.len(),
    decreases s.len() - from,
{
    if from < s.len() {
        if s[from] == '`' && (from == 0 || s[from - 1] != '`') && run_at(s, from, '`') == n {
            lemma_run_at(s, from, '`');
        } else {
            lemma_code_close(s, n, from + 1);
        }
    }
}

/// Inline code at `i`: the trimmed text between an opening run of
/// backticks and the next run of the same length, and the position after
/// the closing run.
pub open spec fn code_at(s: Seq<char>, i: int) -> Option<(Seq<char>, int)> {
    let n = run_at(s, i, '`');
    if n == 0 {
        None
    } else {
        match code_close(s, n, i + n) {
            None => None,
            Some(c) => Some((trim(s.subrange(i + n, c)), c + n)),
        }
    }
}

pub proof fn lemma_code_at(s: Seq<char>, i: int)
    requires
        0 <= i < s.len(),
    ensures
        code_at(s, i) matches Some((t, end)) ==> i < end <= s.len(),
{
    lemma_run_at(s, i, '`');
    lemma_code_close(s, run_at(s, i, '`'), i + run_at(s, i, '`'));
}

fn code_at_exec(s: &Vec<char>, i: usize) -> (r: Option<(Vec<char>, usize)>)
    requires
        i < s.len(),
    ensures
        match r {
            Some((t, end)) => code_at(s@, i as int) == Some((t@, end as int)),
            None => code_at(s@, i as int) is None,
        },
{
    let n = run_at_exec(s, i, '`');
    if n == 0 {
        return None;
    }
    proof {
        lemma_run_at(s@, i as int, '`');
    }
    let mut p = i + n;
    while p < s.len()
        invariant
            i + n <= p <= s.len(),
            n == run_at(s@, i as int, '`'),
            code_close(s@, n as nat, (i + n) as int) == code_close(s@, n as nat, p as int),
        decreases s.len() - p,
    {
        if s[p] == '`' && (p == 0 || s[p - 1] != '`') {
            let r = run_at_exec(s, p, '`');
            if r == n {
                proof {
                    lemma_code_close(s@, n as nat, p as int);
                }
                let (a, b) = trim_range(s, i + n, p);
                return Some((slice_of(s, a, b), p + n));
            }
        }
        p += 1;
    }
    None
}

/// Position of the `close` that ends the bracket opened before `i` (at
/// nesting `depth`), with `open`/`close` being `[`/`]` or `(`/`)`; a `\`
/// skips the next character.
pub open spec fn nest_close(s: Seq<char>, i: int, depth: nat, open: char, close: char) -> Option<int>
    decreases s.len() - i,
{
    if i < 0 || i >= s.len() {
        None
    } else if s[i] == open {
        nest_close(s, i + 1, depth + 1, open, close)
    } else if s[i] == close {
        if depth <= 1 {
            Some(i)
        } else {
            nest_close(s, i + 1, (depth - 1) as nat, open, close)
        }
    } else if s[i] == '\\' {
        if i + 1 >= s.len() {
            None
        } else {
            nest_close(s, i + 2, depth, open, close)
        }
    } else {
        nest_close(s, i + 1, depth, open, close)
    }
}

pub proof fn lemma_nest_close(s: Seq<char>, i: int, depth: nat, open: char, close: char)
    requires
        0 <= i,
    ensures
        nest_close(s, i, depth, open, close) matches Some(k) ==> i <= k < s.len(),
    decreases s.len() - i,
{
    if i < s.len() {
        if s[i] == open {
            lemma_nest_close(s, i + 1, depth + 1, open, close);
        } else if s[i] == close {
            if depth > 1 {
                lemma_nest_close(s, i + 1, (depth - 1) as nat, open, close);
            }
        } else if s[i] == '\\' {
            if i + 1 < s.len() {
                lemma_nest_close(s, i + 2, depth, open, close);
            }
        } else {
            lemma_nest_close(s, i + 1, depth, open, close);
        }
    }
}

fn nest_close_exec(s: &Vec<char>, i: usize, open: char, close: char) -> (r: Option<usize>)
    requires
        1 <= i <= s.len(),
        open != close,
        open != '\\',
        close != '\\',
    ensures
        match r {
            Some(k) => nest_close(s@, i as int, 1, open, close) == Some(k as int),
            None => nest_close(s@, i as int, 1, open, close) is None,
        },
{
    let mut k = i;
    let mut depth: usize = 1;
    while k < s.len()
        invariant
            i <= k,
            1 <= depth <= k,
            nest_close(s@, i as int, 1, open, close) == nest_close(
                s@,
                k as int,
                depth as nat,
                open,
                close,
            ),
        decreases s.len() - k,
    {
        let c = s[k];
        if c == open {
            depth += 1;
            k += 1;
        } else if c == close {
            if depth <= 1 {
                return Some(k);
            }
            depth -= 1;
            k += 1;
        } else if c == '\\' {
            if k + 1 >= s.len() {
                return None;
            }
            k += 2;
        } else {
            k += 1;
        }
    }
    None
}

/// Scanning leftwards from `i`, the first quote `q` that follows a space or
/// tab.
pub open spec fn title_open(s: Seq<char>, q: char, i: int) -> Option<int>
    decreases i,
{
    if i <= 0 || i >= s.len() {
        None
    } else if s[i] == q && (s[i - 1] == ' ' || s[i - 1] == '\t') {
        Some(i)
    } else {
        title_open(s, q, i - 1)
    }
}

pub proof fn lemma_title_open(s: Seq<char>, q: char, i: int)
    ensures
        title_open(s, q, i) matches Some(k) ==> 1 <= k <= i && k < s.len(),
    decreases i,
{
    if 0 < i < s.len() && !(s[i] == q && (s[i - 1] == ' ' || s[i - 1] == '\t')) {
        lemma_title_open(s, q, i - 1);
    }
}

/// Split a link target `url "title"` (or with `'`) into URL and title.
pub open spec fn link_target(inner: Seq<char>) -> (Seq<char>, Option<Seq<char>>) {
    if inner.len() < 4 || !(inner.last() == '"' || inner.last() == '\'') {
        (inner, None)
    } else {
        match title_open(inner, inner.last(), inner.len() - 2) {
            Some(k) => (trim_end(inner.take(k)), Some(inner.subrange(k + 1, inner.len() - 1))),
            None => (inner, None),
        }
    }
}

fn link_target_exec(inner: &Vec<char>) -> (r: (Vec<char>, Option<Vec<char>>))
    ensures
        link_target(inner@) == (r.0@, match r.1 {
            Some(t) => Some(t@),
            None => None,
        }),
{
    let n = inner.len();
    if n < 4 || !(inner[n - 1] == '"' || inner[n - 1] == '\'') {
        return (inner.clone(), None);
    }
    let q = inner[n - 1];
    let mut k = n - 2;
    while k > 0
        invariant
            k <= n - 2,
            n == inner.len(),
            n >= 4,
            q == inner@.last(),
            q == '"' || q == '\'',
            title_open(inner@, q, (n - 2) as int) == title_open(inner@, q, k as int),
        decreases k,
    {
        if inner[k] == q && (inner[k - 1] == ' ' || inner[k - 1] == '\t') {
            let head = slice_of(inner, 0, k);
            assert(head@ =~= inner@.take(k as int));
            let url = trim_end_vec(&head);
            return (url, Some(slice_of(inner, k + 1, n - 1)));
        }
        k -= 1;
    }
    (inner.clone(), None)
}

/// A link `[text](target)` whose `[` is at `b`: the bracket text, URL,
/// title, and the position after the closing `)`.
pub open spec fn link_at(s: Seq<char>, b: int) -> Option<
    (Seq<char>, Seq<char>, Option<Seq<char>>, int),
> {
    if b < 0 || b >= s.len() || s[b] != '[' {
        None
    } else {
        match nest_close(s, b + 1, 1, '[', ']') {
            None => None,
            Some(close) => if close + 1 >= s.len() || s[close + 1] != '(' {
                None
            } else {
                match nest_close(s, close + 2, 1, '(', ')') {
                    None => None,
                    Some(ue) => {
                        let (url, title) = link_target(trim(s.subrange(close + 2, ue)));
                        Some((s.subrange(b + 1, close), url, title, ue + 1))
                    },
                }
            },
        }
    }
}

pub proof fn lemma_link_at(s: Seq<char>, b: int)
    requires
        0 <= b < s.len(),
    ensures
        link_at(s, b) matches Some((t, u, ti, end)) ==> b < end <= s.len() && t.len() < s.len(),
{
    lemma_nest_close(s, b + 1, 1, '[', ']');
    if let Some(close) = nest_close(s, b + 1, 1, '[', ']') {
        lemma_nest_close(s, close + 2, 1, '(', ')');
    }
}

fn link_at_exec(s: &Vec<char>, b: usize) -> (r: Option<(Vec<char>, Vec<char>, Option<Vec<char>>, usize)>)
    requires
        b < s.len(),
    ensures
        match r {
            Some((t, u, ti, end)) => link_at(s@, b as int) == Some(
                (
                    t@,
                    u@,
                    match ti {
                        Some(x) => Some(x@),
                        None => None,
                    },
                    end as int,
                ),
            ),
            None => link_at(s@, b as int) is None,
        },
{
    if s[b] != '[' {
        return None;
    }
    proof {
        lemma_nest_close(s@, b + 1, 1, '[', ']');
    }
    let close = match nest_close_exec(s, b + 1, '[', ']') {
        Some(c) => c,
        None => {
            return None;
        },
    };
    if close + 1 >= s.len() || s[close + 1] != '(' {
        return None;
    }
    proof {
        lemma_nest_close(s@, close + 2, 1, '(', ')');
    }
    let ue = match nest_close_exec(s, close + 2, '(', ')') {
        Some(u) => u,
        None => {
            return None;
        },
    };
    let (a, z) = trim_range(s, close + 2, ue);
    let inner = slice_of(s, a, z);
    let (url, title) = link_target_exec(&inner);
    Some((slice_of(s, b + 1, close), url, title, ue + 1))
}

/// Closing position of an emphasis opened by `count` markers `m`, whose
/// content starts at `lo`, searching from `from`: the first run of at least
/// `count` markers (a run starts at `lo` or after a non-marker) whose last
/// `count` markers neither follow a space nor close blank content.
pub open spec fn emph_close(s: Seq<char>, m: char, count: nat, lo: int, from: int) -> Option<int>
    decreases s.len() - from,
{
    if from < lo || from >= s.len() {
        None
    } else if s[from] == m && (from == lo || s[from - 1] != m) && run_at(s, from, m) >= count && {
        let close = from + run_at(s, from, m) - count;
        close != 0 && s[close - 1] != ' ' && trim(s.subrange(lo, close)).len() != 0
    } {
        Some(from + run_at(s, from, m) - count)
    } else {
        emph_close(s, m, count, lo, from + 1)
    }
}

pub proof fn lemma_emph_close(s: Seq<char>, m: char, count: nat, lo: int, from: int)
    requires
        0 <= lo <= from,
    ensures
        emph_close(s, m, count, lo, from) matches Some(c) ==> lo <= c && c + count <= s.len(),
    decreases s.len() - from,
{
    if from < s.len() {
        lemma_run_at(s, from, m);
        lemma_emph_close(s, m, count, lo, from + 1);
    }
}

pub open spec fn min3(n: nat) -> nat {
    if n < 3 {
        n
    } else {
        3
    }
}

/// Emphasis opened at `i`: the number of markers (at most three), the
/// content, and the position after the closing markers.
pub open spec fn emph_at(s: Seq<char>, i: int) -> Option<(nat, Seq<char>, int)> {
    let m = s[i];
    let count = min3(run_at(s, i, m));
    if !(m == '*' || m == '_') || count == 0 {
        None
    } else {
        match emph_close(s, m, count, i + count, i + count) {
            None => None,
            Some(c) => Some((count, s.subrange(i + count, c), c + count)),
        }
    }
}

pub proof fn lemma_emph_at(s: Seq<char>, i: int)
    requires
        0 <= i < s.len(),
    ensures
        emph_at(s, i) matches Some((n, t, end)) ==> i < end <= s.len() && t.len() < s.len() && 1
            <= n <= 3,
{
    let m = s[i];
    lemma_run_at(s, i, m);
    let count = min3(run_at(s, i, m));
    lemma_emph_close(s, m, count, i + count, i + count);
}

fn emph_at_exec(s: &Vec<char>, i: usize) -> (r: Option<(usize, Vec<char>, usize)>)
    requires
        i < s.len(),
    ensures
        match r {
            Some((n, t, end)) => emph_at(s@, i as int) == Some((n as nat, t@, end as int)),
            None => emph_at(s@, i as int) is None,
        },
{
    let m = s[i];
    if !(m == '*' || m == '_') {
        return None;
    }
    let run = run_at_exec(s, i, m);
    let count: usize = if run < 3 {
        run
    } else {
        3
    };
    if count == 0 {
        return None;
    }
    let lo = i + count;
    let mut p = lo;
    while p < s.len()
        invariant
            lo <= p <= s.len(),
            lo == i + count,
            i < s.len(),
            m == s@[i as int],
            m == '*' || m == '_',
            count == min3(run_at(s@, i as int, m)),
            count > 0,
            emph_close(s@, m, count as nat, lo as int, lo as int) == emph_close(
                s@,
                m,
                count as nat,
                lo as int,
                p as int,
            ),
        decreases s.len() - p,
    {
        if s[p] == m && (p == lo || s[p - 1] != m) {
            let r = run_at_exec(s, p, m);
            if r >= count {
                let close = p + r - count;
                if close != 0 && s[close - 1] != ' ' {
                    let (a, b) = trim_range(s, lo, close);
                    if a < b {
                        proof {
                            lemma_emph_close(s@, m, count as nat, lo as int, lo as int);
                        }
                        return Some((count, slice_of(s, lo, close), close + count));
                    }
                }
            }
        }
        p += 1;
    }
    None
}

/// The first doubled marker `m m` at or after `i` that closes non-blank
/// content starting at `lo`.
pub open spec fn double_close(s: Seq<char>, m: char, lo: int, i: int) -> Option<int>
    decreases s.len() - i,
{
    if i < lo || i + 1 >= s.len() {
        None
    } else if s[i] == m && s[i + 1] == m && trim(s.subrange(lo, i)).len() != 0 {
        Some(i)
    } else {
        double_close(s, m, lo, i + 1)
    }
}

pub proof fn lemma_double_close(s: Seq<char>, m: char, lo: int, i: int)
    requires
        0 <= lo <= i,
    ensures
        double_close(s, m, lo, i) matches Some(k) ==> i <= k && k + 2 <= s.len(),
    decreases s.len() - i,
{
    if i + 1 < s.len() {
        lemma_double_close(s, m, lo, i + 1);
    }
}

/// `~~…~~` or `==…==` (marker `m`) opened at `i`: its content and the
/// position after the closing pair.
pub open spec fn double_at(s: Seq<char>, i: int, m: char) -> Option<(Seq<char>, int)> {
    if i < 0 || i + 1 >= s.len() || s[i] != m || s[i + 1] != m {
        None
    } else {
        match double_close(s, m, i + 2, i + 2) {
            None => None,
            Some(k) => Some((s.subrange(i + 2, k), k + 2)),
        }
    }
}

pub proof fn lemma_double_at(s: Seq<char>, i: int, m: char)
    requires
        0 <= i,
    ensures
        double_at(s, i, m) matches Some((t, end)) ==> i < end <= s.len() && t.len() < s.len(),
{
    lemma_double_close(s, m, i + 2, i + 2);
}

fn double_at_exec(s: &Vec<char>, i: usize, m: char) -> (r: Option<(Vec<char>, usize)>)
    ensures
        match r {
            Some((t, end)) => double_at(s@, i as int, m) == Some((t@, end as int)),
            None => double_at(s@, i as int, m) is None,
        },
{
    if i >= s.len() || i + 1 >= s.len() || s[i] != m || s[i + 1] != m {
        return None;
    }
    let lo = i + 2;
    let mut k = lo;
    while k < s.len() - 1
        invariant
            lo <= k <= s.len(),
            lo == i + 2,
            i + 1 < s.len(),
            s@[i as int] == m,
            s@[i + 1] == m,
            double_close(s@, m, lo as int, lo as int) == double_close(s@, m, lo as int, k as int),
        decreases s.len() - k,
    {
        if s[k] == m && s[k + 1] == m {
            let (a, b) = trim_range(s, lo, k);
            if a < b {
                proof {
                    lemma_double_close(s@, m, lo as int, lo as int);
                }
                return Some((slice_of(s, lo, k), k + 2));
            }
        }
        k += 1;
    }
    None
}

// ============================================================================
// Styles
// ============================================================================

pub open spec fn code_style(st: StyleV) -> StyleV {
    StyleV { code: true, ..st }
}

pub open spec fn strike_style(st: StyleV) -> StyleV {
    StyleV { strikethrough: true, ..st }
}

pub open spec fn highlight_style(st: StyleV) -> StyleV {
    StyleV { highlight: true, ..st }
}

pub open spec fn link_style(st: StyleV, url: Seq<char>, title: Option<Seq<char>>) -> StyleV {
    StyleV { link: Some(LinkV { url, title }), ..st }
}

/// `***` gives bold italic, `**` bold, `*` italic.
pub open spec fn emph_style(st: StyleV, count: nat) -> StyleV {
    if count >= 3 {
        StyleV { bold: true, italic: true, ..st }
    } else if count == 2 {
        StyleV { bold: true, ..st }
    } else {
        StyleV { italic: true, ..st }
    }
}

/// The text shown in place of an image: `[image: alt]`.
pub open spec fn image_label(alt: Seq<char>) -> Seq<char> {
    seq!['[', 'i', 'm', 'a', 'g', 'e', ':', ' '] + alt + seq![']']
}

// ============================================================================
// The scan
// ============================================================================

/// Pending plain text `buf` as a span of style `st` (none when empty).
pub open spec fn flush(buf: Seq<char>, st: StyleV) -> Seq<SpanV> {
    if buf.len() > 0 {
        seq![SpanV { text: buf, styles: st }]
    } else {
        Seq::empty()
    }
}

/// The spans of `s` from position `i` on, with plain text `buf` pending and
/// every span carrying at least style `st`. At each position the first of
/// these that applies is taken: an escape, inline code, an image, a link,
/// emphasis, strikethrough, highlight, a literal character.
#[verifier::opaque]
pub open spec fn scan(s: Seq<char>, st: StyleV, i: int, buf: Seq<char>) -> Seq<SpanV>
    decreases s.len(), s.len() - i,
{
    if i < 0 || i >= s.len() {
        flush(buf, st)
    } else if s[i] == '\\' && i + 1 < s.len() {
        scan(s, st, i + 2, buf.push(s[i + 1]))
    } else if s[i] == '`' && code_at(s, i) is Some {
        proof {
            lemma_code_at(s, i);
        }
        let (t, end) = code_at(s, i)->0;
        flush(buf, st) + seq![SpanV { text: t, styles: code_style(st) }] + scan(
            s,
            st,
            end,
            Seq::empty(),
        )
    } else if s[i] == '!' && i + 1 < s.len() && s[i + 1] == '[' && link_at(s, i + 1) is Some {
        proof {
            lemma_link_at(s, i + 1);
        }
        let (alt, _url, _title, end) = link_at(s, i + 1)->0;
        flush(buf, st) + seq![SpanV { text: image_label(alt), styles: st }] + scan(
            s,
            st,
            end,
            Seq::empty(),
        )
    } else if s[i] == '[' && link_at(s, i) is Some {
        proof {
            lemma_link_at(s, i);
        }
        let (t, url, title, end) = link_at(s, i)->0;
        flush(buf, st) + scan(t, link_style(st, url, title), 0, Seq::empty()) + scan(s, st, end, Seq::empty())
    } else if (s[i] == '*' || s[i] == '_') && emph_at(s, i) is Some {
        proof {
            lemma_emph_at(s, i);
        }
        let (n, t, end) = emph_at(s, i)->0;
        flush(buf, st) + scan(t, emph_style(st, n), 0, Seq::empty()) + scan(s, st, end, Seq::empty())
    } else if s[i] == '~' && double_at(s, i, '~') is Some {
        proof {
            lemma_double_at(s, i, '~');
        }
        let (t, end) = double_at(s, i, '~')->0;
        flush(buf, st) + scan(t, strike_style(st), 0, Seq::empty()) + scan(s, st, end, Seq::empty())
    } else if s[i] == '=' && double_at(s, i, '=') is Some {
        proof {
            lemma_double_at(s, i, '=');
        }
        let (t, end) = double_at(s, i, '=')->0;
        flush(buf, st) + scan(t, highlight_style(st), 0, Seq::empty()) + scan(s, st, end, Seq::empty())
    } else {
        scan(s, st, i + 1, buf.push(s[i]))
    }
}


/// The spans of `s`, each carrying at least style `st`.
pub open spec fn spans_of(s: Seq<char>, st: StyleV) -> Seq<SpanV> {
    scan(s, st, 0, Seq::empty())
}

/// What `scan` is at a position where none of the constructs applies.
pub open spec fn no_construct_at(s: Seq<char>, i: int) -> bool {
    &&& !(s[i] == '\\' && i + 1 < s.len())
    &&& s[i] == '`' ==> code_at(s, i) is None
    &&& (s[i] == '!' && i + 1 < s.len() && s[i + 1] == '[') ==> link_at(s, i + 1) is None
    &&& s[i] == '[' ==> link_at(s, i) is None
    &&& (s[i] == '*' || s[i] == '_') ==> emph_at(s, i) is None
    &&& s[i] == '~' ==> double_at(s, i, '~') is None
    &&& s[i] == '=' ==> double_at(s, i, '=') is None
}

proof fn lemma_scan_end(s: Seq<char>, st: StyleV, i: int, buf: Seq<char>)
    requires
        i >= s.len(),
    ensures
        scan(s, st, i, buf) == flush(buf, st),
{
    reveal(scan);
}

proof fn lemma_scan_escape(s: Seq<char>, st: StyleV, i: int, buf: Seq<char>)
    requires
        0 <= i,
        i + 1 < s.len(),
        s[i] == '\\',
    ensures
        scan(s, st, i, buf) == scan(s, st, i + 2, buf.push(s[i + 1])),
{
    reveal(scan);
}

proof fn lemma_scan_char(s: Seq<char>, st: StyleV, i: int, buf: Seq<char>)
    requires
        0 <= i < s.len(),
        no_construct_at(s, i),
    ensures
        scan(s, st, i, buf) == scan(s, st, i + 1, buf.push(s[i])),
{
    reveal(scan);
}

proof fn lemma_scan_code(s: Seq<char>, st: StyleV, i: int, buf: Seq<char>)
    requires
        0 <= i < s.len(),
        s[i] == '`',
        code_at(s, i) is Some,
    ensures
        ({
            let (t, end) = code_at(s, i)->0;
            scan(s, st, i, buf) == flush(buf, st) + seq![SpanV { text: t, styles: code_style(st) }]
                + scan(s, st, end, Seq::empty())
        }),
{
    reveal(scan);
}

proof fn lemma_scan_image(s: Seq<char>, st: StyleV, i: int, buf: Seq<char>)
    requires
        0 <= i,
        i + 1 < s.len(),
        s[i] == '!',
        s[i + 1] == '[',
        link_at(s, i + 1) is Some,
    ensures
        ({
            let (alt, _url, _title, end) = link_at(s, i + 1)->0;
            scan(s, st, i, buf) == flush(buf, st) + seq![SpanV { text: image_label(alt), styles: st }]
                + scan(s, st, end, Seq::empty())
        }),
{
    reveal(scan);
}

proof fn lemma_scan_link(s: Seq<char>, st: StyleV, i: int, buf: Seq<char>)
    requires
        0 <= i < s.len(),
        s[i] == '[',
        link_at(s, i) is Some,
    ensures
        ({
            let (t, url, title, end) = link_at(s, i)->0;
            scan(s, st, i, buf) == flush(buf, st) + spans_of(t, link_style(st, url, title)) + scan(
                s,
                st,
                end,
                Seq::empty(),
            )
        }),
{
    reveal(scan);
}

proof fn lemma_scan_emph(s: Seq<char>, st: StyleV, i: int, buf: Seq<char>)
    requires
        0 <= i < s.len(),
        s[i] == '*' || s[i] == '_',
        emph_at(s, i) is Some,
    ensures
        ({
            let (n, t, end) = emph_at(s, i)->0;
            scan(s, st, i, buf) == flush(buf, st) + spans_of(t, emph_style(st, n)) + scan(
                s,
                st,
                end,
                Seq::empty(),
            )
        }),
{
    reveal(scan);
}

proof fn lemma_scan_double(s: Seq<char>, st: StyleV, i: int, buf: Seq<char>, m: char)
    requires
        0 <= i < s.len(),
        s[i] == m,
        m == '~' || m == '=',
        double_at(s, i, m) is Some,
    ensures
        ({
            let (t, end) = double_at(s, i, m)->0;
            scan(s, st, i, buf) == flush(buf, st) + spans_of(
                t,
                if m == '~' {
                    strike_style(st)
                } else {
                    highlight_style(st)
                },
            ) + scan(s, st, end, Seq::empty())
        }),
{
    reveal(scan);
}

fn flush_exec(out: &mut Vec<TextSpan>, buf: &mut Vec<char>, st: &InlineStyle)
    ensures
        spans_view(final(out)@) == spans_view(old(out)@) + flush(old(buf)@, st@),
        final(buf)@ == Seq::<char>::empty(),
{
    if buf.len() > 0 {
        let ghost o0 = spans_view(out@);
        out.push(TextSpan { text: string_of(buf), styles: clone_style(st) });
        assert(spans_view(out@) =~= o0 + flush(old(buf)@, st@));
    } else {
        assert(spans_view(out@) =~= spans_view(old(out)@) + flush(old(buf)@, st@));
    }
    *buf = Vec::new();
}

fn append_spans(out: &mut Vec<TextSpan>, more: Vec<TextSpan>)
    ensures
        spans_view(final(out)@) == spans_view(old(out)@) + spans_view(more@),
{
    let mut more = more;
    let ghost m0 = more@;
    out.append(&mut more);
    assert(spans_view(out@) =~= spans_view(old(out)@) + spans_view(m0));
}

fn image_label_exec(alt: &Vec<char>) -> (r: String)
    ensures
        r@ == image_label(alt@),
{
    let mut v: Vec<char> = Vec::new();
    v.push('[');
    v.push('i');
    v.push('m');
    v.push('a');
    v.push('g');
    v.push('e');
    v.push(':');
    v.push(' ');
    let mut w = concat(&v, alt);
    w.push(']');
    assert(w@ =~= image_label(alt@));
    string_of(&w)
}

/// One step of the scan moved the position from `i` to `e` and kept the
/// spans produced so far plus the spans still to come unchanged.
pub open spec fn stepped(
    s: Seq<char>,
    st: StyleV,
    i: int,
    e: int,
    out0: Seq<SpanV>,
    buf0: Seq<char>,
    out1: Seq<SpanV>,
    buf1: Seq<char>,
) -> bool {
    &&& i < e <= s.len()
    &&& out1 + scan(s, st, e, buf1) == out0 + scan(s, st, i, buf0)
}

fn take_code(s: &Vec<char>, st: &InlineStyle, i: usize, out: &mut Vec<TextSpan>, buf: &mut Vec<char>) -> (r: Option<usize>)
    requires
        i < s.len(),
        s@[i as int] == '`',
    ensures
        match r {
            Some(e) => stepped(s@, st@, i as int, e as int, spans_view(old(out)@), old(buf)@, spans_view(final(out)@), final(buf)@),
            None => code_at(s@, i as int) is None && final(out)@ == old(out)@ && final(buf)@ == old(buf)@,
        },
{
    match code_at_exec(s, i) {
        Some((t, end)) => {
            proof {
                lemma_code_at(s@, i as int);
                lemma_scan_code(s@, st@, i as int, buf@);
            }
            let ghost o0 = spans_view(out@);
            let ghost b0 = buf@;
            flush_exec(out, buf, st);
            let mut cs = clone_style(st);
            cs.code = true;
            let ghost o1 = spans_view(out@);
            out.push(TextSpan { text: string_of(&t), styles: cs });
            proof {
                assert(spans_view(out@) =~= o1.push(SpanV { text: t@, styles: code_style(st@) }));
                assert(o0 + (flush(b0, st@) + seq![SpanV { text: t@, styles: code_style(st@) }] + scan(s@, st@, end as int, Seq::empty())) =~= spans_view(out@) + scan(s@, st@, end as int, buf@));
            }
            Some(end)
        },
        None => None,
    }
}

fn take_image(s: &Vec<char>, st: &InlineStyle, i: usize, out: &mut Vec<TextSpan>, buf: &mut Vec<char>) -> (r: Option<usize>)
    requires
        i + 1 < s.len(),
        s@[i as int] == '!',
        s@[i + 1] == '[',
    ensures
        match r {
            Some(e) => stepped(s@, st@, i as int, e as int, spans_view(old(out)@), old(buf)@, spans_view(final(out)@), final(buf)@),
            None => link_at(s@, i + 1) is None && final(out)@ == old(out)@ && final(buf)@ == old(buf)@,
        },
{
    match link_at_exec(s, i + 1) {
        Some((alt, _url, _title, end)) => {
            proof {
                lemma_link_at(s@, i + 1);
                lemma_scan_image(s@, st@, i as int, buf@);
            }
            let ghost o0 = spans_view(out@);
            let ghost b0 = buf@;
            flush_exec(out, buf, st);
            let ghost o1 = spans_view(out@);
            out.push(TextSpan { text: image_label_exec(&alt), styles: clone_style(st) });
            proof {
                assert(spans_view(out@) =~= o1.push(SpanV { text: image_label(alt@), styles: st@ }));
                assert(o0 + (flush(b0, st@) + seq![SpanV { text: image_label(alt@), styles: st@ }] + scan(s@, st@, end as int, Seq::empty())) =~= spans_view(out@) + scan(s@, st@, end as int, buf@));
            }
            Some(end)
        },
        None => None,
    }
}

fn take_link(s: &Vec<char>, st: &InlineStyle, i: usize, out: &mut Vec<TextSpan>, buf: &mut Vec<char>) -> (r: Option<usize>)
    requires
        i < s.len(),
        s@[i as int] == '[',
    ensures
        match r {
            Some(e) => stepped(s@, st@, i as int, e as int, spans_view(old(out)@), old(buf)@, spans_view(final(out)@), final(buf)@),
            None => link_at(s@, i as int) is None && final(out)@ == old(out)@ && final(buf)@ == old(buf)@,
        },
    decreases s@.len(), 0nat,
{
    match link_at_exec(s, i) {
        Some((t, url, title, end)) => {
            proof {
                lemma_link_at(s@, i as int);
                lemma_scan_link(s@, st@, i as int, buf@);
            }
            let ghost o0 = spans_view(out@);
            let ghost b0 = buf@;
            flush_exec(out, buf, st);
            let mut ls = clone_style(st);
            let title_s = match &title {
                Some(x) => Some(string_of(x)),
                None => None,
            };
            let ghost tv = match title {
                Some(x) => Some(x@),
                None => None,
            };
            ls.link = Some(LinkData { url: string_of(&url), title: title_s });
            assert(ls@ == link_style(st@, url@, tv));
            let sub = parse_spans(&t, &ls);
            append_spans(out, sub);
            proof {
                assert(o0 + (flush(b0, st@) + spans_of(t@, link_style(st@, url@, tv)) + scan(s@, st@, end as int, Seq::empty())) =~= spans_view(out@) + scan(s@, st@, end as int, buf@));
            }
            Some(end)
        },
        None => None,
    }
}

fn take_emph(s: &Vec<char>, st: &InlineStyle, i: usize, out: &mut Vec<TextSpan>, buf: &mut Vec<char>) -> (r: Option<usize>)
    requires
        i < s.len(),
        s@[i as int] == '*' || s@[i as int] == '_',
    ensures
        match r {
            Some(e) => stepped(s@, st@, i as int, e as int, spans_view(old(out)@), old(buf)@, spans_view(final(out)@), final(buf)@),
            None => emph_at(s@, i as int) is None && final(out)@ == old(out)@ && final(buf)@ == old(buf)@,
        },
    decreases s@.len(), 0nat,
{
    match emph_at_exec(s, i) {
        Some((cnt, t, end)) => {
            proof {
                lemma_emph_at(s@, i as int);
                lemma_scan_emph(s@, st@, i as int, buf@);
            }
            let ghost o0 = spans_view(out@);
            let ghost b0 = buf@;
            flush_exec(out, buf, st);
            let mut es = clone_style(st);
            if cnt >= 3 {
                es.bold = true;
                es.italic = true;
            } else if cnt == 2 {
                es.bold = true;
            } else {
                es.italic = true;
            }
            assert(es@ == emph_style(st@, cnt as nat));
            let sub = parse_spans(&t, &es);
            append_spans(out, sub);
            proof {
                assert(o0 + (flush(b0, st@) + spans_of(t@, emph_style(st@, cnt as nat)) + scan(s@, st@, end as int, Seq::empty())) =~= spans_view(out@) + scan(s@, st@, end as int, buf@));
            }
            Some(end)
        },
        None => None,
    }
}

fn take_double(s: &Vec<char>, st: &InlineStyle, i: usize, m: char, out: &mut Vec<TextSpan>, buf: &mut Vec<char>) -> (r: Option<usize>)
    requires
        i < s.len(),
        s@[i as int] == m,
        m == '~' || m == '=',
    ensures
        match r {
            Some(e) => stepped(s@, st@, i as int, e as int, spans_view(old(out)@), old(buf)@, spans_view(final(out)@), final(buf)@),
            None => double_at(s@, i as int, m) is None && final(out)@ == old(out)@ && final(buf)@ == old(buf)@,
        },
    decreases s@.len(), 0nat,
{
    match double_at_exec(s, i, m) {
        Some((t, end)) => {
            proof {
                lemma_double_at(s@, i as int, m);
                lemma_scan_double(s@, st@, i as int, buf@, m);
            }
            let ghost o0 = spans_view(out@);
            let ghost b0 = buf@;
            flush_exec(out, buf, st);
            let mut ds = clone_style(st);
            if m == '~' {
                ds.strikethrough = true;
            } else {
                ds.highlight = true;
            }
            let ghost dv = if m == '~' {
                strike_style(st@)
            } else {
                highlight_style(st@)
            };
            assert(ds@ == dv);
            let sub = parse_spans(&t, &ds);
            append_spans(out, sub);
            proof {
                assert(o0 + (flush(b0, st@) + spans_of(t@, dv) + scan(s@, st@, end as int, Seq::empty())) =~= spans_view(out@) + scan(s@, st@, end as int, buf@));
            }
            Some(end)
        },
        None => None,
    }
}

/// One step of the scan at position `i`.
fn scan_step(s: &Vec<char>, st: &InlineStyle, i: usize, out: &mut Vec<TextSpan>, buf: &mut Vec<char>) -> (e: usize)
    requires
        i < s.len(),
    ensures
        stepped(s@, st@, i as int, e as int, spans_view(old(out)@), old(buf)@, spans_view(final(out)@), final(buf)@),
    decreases s@.len(), 1nat,
{
    let n = s.len();
    let c = s[i];
    if c == '\\' && i + 1 < n {
        proof {
            lemma_scan_escape(s@, st@, i as int, buf@);
        }
        buf.push(s[i + 1]);
        return i + 2;
    }
    if c == '`' {
        match take_code(s, st, i, out, buf) {
            Some(e) => {
                return e;
            },
            None => {},
        }
    }
    if c == '!' && i + 1 < n && s[i + 1] == '[' {
        match take_image(s, st, i, out, buf) {
            Some(e) => {
                return e;
            },
            None => {},
        }
    }
    if c == '[' {
        match take_link(s, st, i, out, buf) {
            Some(e) => {
                return e;
            },
            None => {},
        }
    }
    if c == '*' || c == '_' {
        match take_emph(s, st, i, out, buf) {
            Some(e) => {
                return e;
            },
            None => {},
        }
    }
    if c == '~' || c == '=' {
        match take_double(s, st, i, c, out, buf) {
            Some(e) => {
                return e;
            },
            None => {},
        }
    }
    proof {
        assert(no_construct_at(s@, i as int));
        lemma_scan_char(s@, st@, i as int, buf@);
    }
    buf.push(c);
    i + 1
}

/// The spans of `s`, each carrying at least style `st`, unmerged.
fn parse_spans(s: &Vec<char>, st: &InlineStyle) -> (r: Vec<TextSpan>)
    ensures
        spans_view(r@) == spans_of(s@, st@),
    decreases s@.len(), 2nat,
{
    let mut out: Vec<TextSpan> = Vec::new();
    let mut buf: Vec<char> = Vec::new();
    let n = s.len();
    let mut i: usize = 0;
    proof {
        assert(spans_view(out@) =~= Seq::<SpanV>::empty());
        assert(buf@ =~= Seq::<char>::empty());
        assert(spans_of(s@, st@) == scan(s@, st@, 0, Seq::empty()));
        assert(spans_view(out@) + scan(s@, st@, 0, buf@) =~= spans_of(s@, st@));
    }
    while i < n
        invariant
            n == s.len(),
            i <= n,
            spans_view(out@) + scan(s@, st@, i as int, buf@) == spans_of(s@, st@),
        decreases n - i,
    {
        i = scan_step(s, st, i, &mut out, &mut buf);
    }
    proof {
        lemma_scan_end(s@, st@, i as int, buf@);
    }
    let ghost o0 = spans_view(out@);
    let ghost b0 = buf@;
    flush_exec(&mut out, &mut buf, st);
    assert(spans_view(out@) =~= o0 + flush(b0, st@));
    out
}

// ============================================================================
// Merging neighbours
// ============================================================================

/// Spans with neighbours of equal style joined into one.
pub open spec fn merge_spans(v: Seq<SpanV>) -> Seq<SpanV>
    decreases v.len(),
{
    if v.len() == 0 {
        Seq::empty()
    } else {
        let m = merge_spans(v.drop_last());
        let x = v.last();
        if m.len() > 0 && m.last().styles == x.styles {
            m.update(m.len() - 1, SpanV { text: m.last().text + x.text, styles: m.last().styles })
        } else {
            m.push(x)
        }
    }
}

fn opt_strings_equal(a: &Option<String>, b: &Option<String>) -> (r: bool)
    ensures
        r == (opt_str(*a) == opt_str(*b)),
{
    match a {
        Some(x) => match b {
            Some(y) => x.eq(y),
            None => false,
        },
        None => b.is_none(),
    }
}

fn styles_equal(a: &InlineStyle, b: &InlineStyle) -> (r: bool)
    ensures
        r == (a@ == b@),
{
    let links = match &a.link {
        Some(x) => match &b.link {
            Some(y) => x.url.eq(&y.url) && opt_strings_equal(&x.title, &y.title),
            None => false,
        },
        None => b.link.is_none(),
    };
    a.bold == b.bold && a.italic == b.italic && a.underline == b.underline && a.strikethrough
        == b.strikethrough && a.code == b.code && a.highlight == b.highlight && links
}

/// Joins neighbouring spans whose styles are equal, concatenating their
/// text.
pub fn merge_adjacent_spans(spans: Vec<TextSpan>) -> (r: Vec<TextSpan>)
    ensures
        spans_view(r@) == merge_spans(spans_view(spans@)),
{
    let mut merged: Vec<TextSpan> = Vec::new();
    let mut i: usize = 0;
    assert(spans_view(spans@.take(0)) =~= Seq::<SpanV>::empty());
    assert(spans_view(merged@) =~= Seq::<SpanV>::empty());
    while i < spans.len()
        invariant
            i <= spans.len(),
            spans_view(merged@) == merge_spans(spans_view(spans@.take(i as int))),
        decreases spans.len() - i,
    {
        let ghost m0 = spans_view(merged@);
        let ghost v1 = spans_view(spans@.take(i + 1));
        assert(v1.drop_last() =~= spans_view(spans@.take(i as int)));
        assert(v1.last() == spans@[i as int]@);
        let sp = &spans[i];
        let n = merged.len();
        if n > 0 && styles_equal(&merged[n - 1].styles, &sp.styles) {
            let text = concat(&chars_of_string(&merged[n - 1].text), &chars_of_string(&sp.text));
            let joined = TextSpan { text: string_of(&text), styles: clone_style(&merged[n - 1].styles) };
            merged.set(n - 1, joined);
            assert(spans_view(merged@) =~= m0.update(
                n - 1,
                SpanV { text: m0.last().text + sp@.text, styles: m0.last().styles },
            ));
        } else {
            merged.push(clone_span(sp));
            assert(spans_view(merged@) =~= m0.push(sp@));
        }
        i += 1;
    }
    assert(spans@.take(spans.len() as int) =~= spans@);
    merged
}

// ============================================================================
// Public entry points
// ============================================================================

/// The spans that a line of inline markdown parses to.
pub open spec fn inline_spans(s: Seq<char>) -> Seq<SpanV> {
    if s.len() == 0 {
        Seq::empty()
    } else {
        merge_spans(spans_of(s, plain_style()))
    }
}

/// Parses inline markdown into [`TextSpan`]s with inline styles applied.
/// Empty input returns an empty vec.
pub fn parse_inline(text: &str) -> (r: Vec<TextSpan>)
    ensures
        spans_view(r@) == inline_spans(text@),
{
    let s = chars_of(text);
    if s.len() == 0 {
        return Vec::new();
    }
    let spans = parse_spans(&s, &InlineStyle::plain());
    merge_adjacent_spans(spans)
}

/// Strips inline formatting and returns the plain-text concatenation.
pub fn extract_plain_text(text: &str) -> (r: String)
    ensures
        r@ == plain_text(inline_spans(text@)),
{
    let spans = parse_inline(text);
    let mut out: Vec<char> = Vec::new();
    let mut i: usize = 0;
    while i < spans.len()
        invariant
            i <= spans.len(),
            spans_view(spans@) == inline_spans(text@),
            out@ == plain_text(spans_view(spans@).take(i as int)),
        decreases spans.len() - i,
    {
        let t = chars_of_string(&spans[i].text);
        let ghost o0 = out@;
        crate::text::append(&mut out, &t);
        assert(spans_view(spans@).take(i + 1).drop_last() =~= spans_view(spans@).take(i as int));
        i += 1;
    }
    assert(spans_view(spans@).take(spans.len() as int) =~= spans_view(spans@));
    string_of(&out)
}

// ============================================================================
// Laws
// ============================================================================

/// No two neighbouring spans have equal styles.
pub open spec fn styles_separated(v: Seq<SpanV>) -> bool {
    forall|i: int| 0 <= i < v.len() - 1 ==> #[trigger] v[i].styles != v[i + 1].styles
}

/// Merging keeps the text: the plain text of the merged spans is that of
/// the spans.
pub proof fn law_merge_keeps_text(v: Seq<SpanV>)
    ensures
        plain_text(merge_spans(v)) == plain_text(v),
    decreases v.len(),
{
    if v.len() > 0 {
        law_merge_keeps_text(v.drop_last());
        let m = merge_spans(v.drop_last());
        let x = v.last();
        if m.len() > 0 && m.last().styles == x.styles {
            let y = SpanV { text: m.last().text + x.text, styles: m.last().styles };
            let u = m.update(m.len() - 1, y);
            assert(u.drop_last() =~= m.drop_last());
            assert(plain_text(u) == plain_text(m.drop_last()) + y.text);
            assert(plain_text(m) == plain_text(m.drop_last()) + m.last().text);
            assert(plain_text(u) =~= plain_text(m) + x.text);
        } else {
            assert(m.push(x).drop_last() =~= m);
        }
    }
}

/// After merging, no two neighbouring spans have equal styles.
pub proof fn law_merge_separates_styles(v: Seq<SpanV>)
    ensures
        styles_separated(merge_spans(v)),
    decreases v.len(),
{
    if v.len() > 0 {
        law_merge_separates_styles(v.drop_last());
        let m = merge_spans(v.drop_last());
        let x = v.last();
        if m.len() > 0 && m.last().styles == x.styles {
            let u = m.update(m.len() - 1, SpanV { text: m.last().text + x.text, styles: m.last().styles });
            assert forall|i: int| 0 <= i < u.len() - 1 implies #[trigger] u[i].styles != u[i + 1].styles by {
                assert(m[i].styles != m[i + 1].styles);
            }
        } else {
            let u = m.push(x);
            assert forall|i: int| 0 <= i < u.len() - 1 implies #[trigger] u[i].styles != u[i + 1].styles by {
                if i < m.len() - 1 {
                    assert(m[i].styles != m[i + 1].styles);
                }
            }
        }
    }
}

/// Spans whose neighbours already differ in style are left as they are.
pub proof fn lemma_merge_separated(v: Seq<SpanV>)
    requires
        styles_separated(v),
    ensures
        merge_spans(v) == v,
    decreases v.len(),
{
    if v.len() > 0 {
        let d = v.drop_last();
        assert forall|i: int| 0 <= i < d.len() - 1 implies #[trigger] d[i].styles != d[i + 1].styles by {
            assert(v[i].styles != v[i + 1].styles);
        }
        lemma_merge_separated(d);
        if d.len() > 0 {
            assert(v[v.len() - 2].styles != v[v.len() - 1].styles);
        }
        assert(d.push(v.last()) =~= v);
    }
}

/// Merging twice is merging once.
pub proof fn law_merge_idempotent(v: Seq<SpanV>)
    ensures
        merge_spans(merge_spans(v)) == merge_spans(v),
{
    law_merge_separates_styles(v);
    lemma_merge_separated(merge_spans(v));
}

/// The spans of a parsed line never have neighbours of equal style, and
/// their text is the line with the markup taken out.
pub proof fn law_parse_inline_separated(s: Seq<char>)
    ensures
        styles_separated(inline_spans(s)),
        s.len() > 0 ==> plain_text(inline_spans(s)) == plain_text(spans_of(s, plain_style())),
{
    if s.len() > 0 {
        law_merge_separates_styles(spans_of(s, plain_style()));
        law_merge_keeps_text(spans_of(s, plain_style()));
    }
}

/// Does `s` hold no character that `escape_md` leaves unescaped but that
/// opens a construct (`~`, `=`)?
pub open spec fn no_tilde_or_equals(s: Seq<char>) -> bool {
    forall|i: int| 0 <= i < s.len() ==> s[i] != '~' && s[i] != '='
}

proof fn lemma_scan_escaped(x: Seq<char>, st: StyleV, i: int, buf: Seq<char>, t: Seq<char>)
    requires
        0 <= i <= x.len(),
        x.skip(i) == crate::markdown::utils::escape_md(t),
        no_tilde_or_equals(t),
    ensures
        scan(x, st, i, buf) == flush(buf + t, st),
    decreases t.len(),
{
    let e = crate::markdown::utils::escape_md(t);
    if t.len() == 0 {
        assert(e.len() == 0);
        lemma_scan_end(x, st, i, buf);
        assert(buf + t =~= buf);
    } else {
        let rest = t.skip(1);
        assert forall|k: int| 0 <= k < rest.len() implies rest[k] != '~' && rest[k] != '=' by {
            assert(rest[k] == t[k + 1]);
        }
        if crate::markdown::utils::is_md_special(t[0]) {
            assert(e == seq!['\\', t[0]] + crate::markdown::utils::escape_md(rest));
            assert(e.len() >= 2);
            assert(x.skip(i)[0] == x[i]);
            assert(x.skip(i)[1] == x[i + 1]);
            assert(x[i] == e[0]);
            assert(x[i + 1] == e[1]);
            assert(x.skip(i + 2) =~= e.skip(2));
            assert(e.skip(2) =~= crate::markdown::utils::escape_md(rest));
            lemma_scan_escape(x, st, i, buf);
            lemma_scan_escaped(x, st, i + 2, buf.push(t[0]), rest);
        } else {
            assert(e == seq![t[0]] + crate::markdown::utils::escape_md(rest));
            assert(x.skip(i)[0] == x[i]);
            assert(x[i] == e[0]);
            assert(x.skip(i + 1) =~= e.skip(1));
            assert(e.skip(1) =~= crate::markdown::utils::escape_md(rest));
            assert(t[0] != '~' && t[0] != '=');
            lemma_scan_char(x, st, i, buf);
            lemma_scan_escaped(x, st, i + 1, buf.push(t[0]), rest);
        }
        assert(buf.push(t[0]) + rest =~= buf + t);
    }
}

/// Escaped text is read back literally: `escape_markdown` of a text with no
/// `~` or `=` parses to that text as a single unstyled span.
pub proof fn law_escaped_text_is_literal(s: Seq<char>)
    requires
        no_tilde_or_equals(s),
    ensures
        inline_spans(crate::markdown::utils::escape_md(s)) == (if s.len() == 0 {
            Seq::<SpanV>::empty()
        } else {
            seq![SpanV { text: s, styles: plain_style() }]
        }),
{
    let e = crate::markdown::utils::escape_md(s);
    if s.len() > 0 {
        if crate::markdown::utils::is_md_special(s[0]) {
            assert(e.len() > 0);
        } else {
            assert(e.len() > 0);
        }
        assert(e.skip(0) =~= e);
        lemma_scan_escaped(e, plain_style(), 0, Seq::empty(), s);
        assert(Seq::<char>::empty() + s =~= s);
        let one = seq![SpanV { text: s, styles: plain_style() }];
        assert(one.drop_last() =~= Seq::<SpanV>::empty());
        assert(merge_spans(one) == merge_spans(Seq::<SpanV>::empty()).push(one.last()));
        assert(merge_spans(one) =~= one);
    }
}

/// A character that opens no inline construct.
pub open spec fn is_literal_char(c: char) -> bool {
    !(c == '\\' || c == '`' || c == '!' || c == '[' || c == '*' || c == '_' || c == '~' || c
        == '=')
}

proof fn lemma_scan_literal(s: Seq<char>, st: StyleV, i: int, buf: Seq<char>)
    requires
        0 <= i <= s.len(),
        forall|k: int| 0 <= k < s.len() ==> is_literal_char(#[trigger] s[k]),
    ensures
        scan(s, st, i, buf) == flush(buf + s.skip(i), st),
    decreases s.len() - i,
{
    if i == s.len() {
        lemma_scan_end(s, st, i, buf);
        assert(buf + s.skip(i) =~= buf);
    } else {
        assert(is_literal_char(s[i]));
        assert(no_construct_at(s, i));
        lemma_scan_char(s, st, i, buf);
        lemma_scan_literal(s, st, i + 1, buf.push(s[i]));
        assert(buf.push(s[i]) + s.skip(i + 1) =~= buf + s.skip(i));
    }
}

/// Text with no character that opens a construct parses to itself as one
/// unstyled span.
pub proof fn law_literal_text_is_one_span(s: Seq<char>)
    requires
        s.len() > 0,
        forall|k: int| 0 <= k < s.len() ==> is_literal_char(#[trigger] s[k]),
    ensures
        inline_spans(s) == seq![SpanV { text: s, styles: plain_style() }],
{
    lemma_scan_literal(s, plain_style(), 0, Seq::empty());
    assert(Seq::<char>::empty() + s.skip(0) =~= s);
    let one = seq![SpanV { text: s, styles: plain_style() }];
    assert(one.drop_last() =~= Seq::<SpanV>::empty());
    assert(merge_spans(one) == merge_spans(Seq::<SpanV>::empty()).push(one.last()));
    assert(merge_spans(one) =~= one);
}

} // verus!
