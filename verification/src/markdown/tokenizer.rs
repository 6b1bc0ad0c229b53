//! Line-based markdown tokenizer: one token per line, classified by the
//! first pattern (in a fixed order) that the line matches.

use vstd::prelude::*;
use crate::markdown::utils::{normalize_le, normalize_le_vec};
use crate::text::{
    all_ws, all_ws_exec, chars_of, find_char, find_char_exec, is_ascii_alnum, is_ws,
    is_whitespace, lower_seq, slice_of, split, split_vec, string_of, to_ascii_lower_vec, trim,
    trim_end, trim_end_blank, trim_end_vec, trim_start, trim_start_vec, trim_vec,
};

verus! {

// ============================================================================
// Token types
// ============================================================================

#[derive(Debug, Clone, Copy, PartialEq, Eq, Structural)]
pub enum TokenType {
    Heading,
    Paragraph,
    BulletListItem,
    NumberedListItem,
    CheckListItem,
    CodeFenceStart,
    CodeFenceEnd,
    CodeContent,
    Blockquote,
    Divider,
    TableRow,
    TableSeparator,
    Image,
    Callout,
    Blank,
}

/// Optional metadata carried by some tokens.
#[derive(Debug, Clone, PartialEq, Eq)]
pub struct TokenMeta {
    pub level: Option<u8>,
    pub list_marker: Option<char>,
    pub list_index: Option<u32>,
    pub checked: Option<bool>,
    pub language: Option<String>,
    pub callout_type: Option<String>,
    /// For standalone images, the alt text.
    pub image_alt: Option<String>,
    /// For standalone images, the optional title from `![alt](url "title")`.
    pub image_title: Option<String>,
}

/// A tokenized markdown line.
#[derive(Debug, Clone, PartialEq, Eq)]
pub struct Token {
    pub token_type: TokenType,
    /// Raw line as it appeared in the input.
    pub raw: String,
    /// Cleaned content for the token (e.g. heading text without `#`s).
    pub content: String,
    /// Number of leading whitespace characters before the syntax marker.
    pub indent: usize,
    /// 1-based line number.
    pub line: usize,
    /// Type-specific metadata.
    pub meta: TokenMeta,
}

pub struct MetaTV {
    pub level: Option<u8>,
    pub list_marker: Option<char>,
    pub list_index: Option<u32>,
    pub checked: Option<bool>,
    pub language: Option<Seq<char>>,
    pub callout_type: Option<Seq<char>>,
    pub image_alt: Option<Seq<char>>,
    pub image_title: Option<Seq<char>>,
}

pub struct TokenV {
    pub token_type: TokenType,
    pub raw: Seq<char>,
    pub content: Seq<char>,
    pub indent: nat,
    pub line: nat,
    pub meta: MetaTV,
}

pub open spec fn ostr(o: Option<String>) -> Option<Seq<char>> {
    match o {
        Some(s) => Some(s@),
        None => None,
    }
}

impl View for TokenMeta {
    type V = MetaTV;

    open spec fn view(&self) -> MetaTV {
        MetaTV {
            level: self.level,
            list_marker: self.list_marker,
            list_index: self.list_index,
            checked: self.checked,
            language: ostr(self.language),
            callout_type: ostr(self.callout_type),
            image_alt: ostr(self.image_alt),
            image_title: ostr(self.image_title),
        }
    }
}

impl View for Token {
    type V = TokenV;

    open spec fn view(&self) -> TokenV {
        TokenV {
            token_type: self.token_type,
            raw: self.raw@,
            content: self.content@,
            indent: self.indent as nat,
            line: self.line as nat,
            meta: self.meta@,
        }
    }
}

pub open spec fn no_meta() -> MetaTV {
    MetaTV {
        level: None,
        list_marker: None,
        list_index: None,
        checked: None,
        language: None,
        callout_type: None,
        image_alt: None,
        image_title: None,
    }
}

impl Default for TokenMeta {
    fn default() -> (r: TokenMeta)
        ensures
            r@ == no_meta(),
    {
        TokenMeta {
            level: None,
            list_marker: None,
            list_index: None,
            checked: None,
            language: None,
            callout_type: None,
            image_alt: None,
            image_title: None,
        }
    }
}

// ============================================================================
// Character classes
// ============================================================================

/// The result of `char::is_alphanumeric` (alphabetic or numeric in
/// Unicode).
pub uninterp spec fn char_is_alphanumeric(c: char) -> bool;

/// `char::is_alphanumeric`: its result is named; on ASCII it is exactly the
/// letters and digits.
#[verifier::external_body]
fn is_alphanumeric(c: char) -> (r: bool)
    ensures
        r == char_is_alphanumeric(c),
        (c as u32) < 128 ==> (r == is_ascii_alnum(c)),
{
    c.is_alphanumeric()
}

/// Regex `\w`: alphanumeric or underscore.
pub open spec fn is_word(c: char) -> bool {
    char_is_alphanumeric(c) || c == '_'
}

fn is_word_exec(c: char) -> (r: bool)
    ensures
        r == is_word(c),
{
    is_alphanumeric(c) || c == '_'
}

// ============================================================================
// Pattern helpers
// ============================================================================

/// Length of the leading run of characters satisfying `p`.
pub open spec fn run_len(s: Seq<char>, p: spec_fn(char) -> bool) -> nat
    decreases s.len(),
{
    if s.len() > 0 && p(s[0]) {
        1 + run_len(s.drop_first(), p)
    } else {
        0
    }
}

pub proof fn lemma_run_len(s: Seq<char>, p: spec_fn(char) -> bool, k: int)
    requires
        0 <= k <= s.len(),
        forall|j: int| 0 <= j < k ==> p(s[j]),
        k < s.len() ==> !p(s[k]),
    ensures
        run_len(s, p) == k,
    decreases k,
{
    if k > 0 {
        lemma_run_len(s.drop_first(), p, k - 1);
    }
}

pub open spec fn is_blank_char(c: char) -> bool {
    c == ' ' || c == '\t'
}

/// Number of leading spaces/tabs.
pub open spec fn lws(s: Seq<char>) -> nat {
    run_len(s, |c: char| is_blank_char(c))
}

fn lws_exec(s: &Vec<char>) -> (r: usize)
    ensures
        r == lws(s@),
        r <= s@.len(),
{
    let mut k: usize = 0;
    while k < s.len() && (s[k] == ' ' || s[k] == '\t')
        invariant
            k <= s.len(),
            forall|j: int| 0 <= j < k ==> is_blank_char(s@[j]),
        decreases s.len() - k,
    {
        k += 1;
    }
    proof {
        lemma_run_len(s@, |c: char| is_blank_char(c), k as int);
    }
    k
}

/// Length of the leading run of `c`.
pub open spec fn char_run(s: Seq<char>, c: char) -> nat
    decreases s.len(),
{
    if s.len() > 0 && s[0] == c {
        1 + char_run(s.drop_first(), c)
    } else {
        0
    }
}

pub proof fn lemma_char_run(s: Seq<char>, c: char, k: int)
    requires
        0 <= k <= s.len(),
        forall|j: int| 0 <= j < k ==> s[j] == c,
        k < s.len() ==> s[k] != c,
    ensures
        char_run(s, c) == k,
    decreases k,
{
    if k > 0 {
        lemma_char_run(s.drop_first(), c, k - 1);
    }
}

fn char_run_exec(s: &Vec<char>, from: usize, c: char) -> (r: usize)
    requires
        from <= s.len(),
    ensures
        r == char_run(s@.skip(from as int), c),
        from + r <= s.len(),
{
    let mut k: usize = from;
    while k < s.len() && s[k] == c
        invariant
            from <= k <= s.len(),
            forall|j: int| from <= j < k ==> s@[j] == c,
        decreases s.len() - k,
    {
        k += 1;
    }
    proof {
        let t = s@.skip(from as int);
        assert forall|j: int| 0 <= j < k - from implies t[j] == c by {
            assert(t[j] == s@[from + j]);
        }
        if k < s.len() {
            assert(t[k - from] == s@[k as int]);
        }
        lemma_char_run(t, c, k - from);
    }
    k - from
}

pub open spec fn is_ascii_digit_char(c: char) -> bool {
    '0' <= c && c <= '9'
}

/// Decimal value of a digit string.
pub open spec fn digits_value(s: Seq<char>) -> nat
    decreases s.len(),
{
    if s.len() == 0 {
        0
    } else {
        digits_value(s.drop_last()) * 10 + ((s.last() as u32) - ('0' as u32)) as nat
    }
}

/// `^(#{1,6})\s+(.*)$` — ATX heading: level and text.
pub open spec fn match_atx(l: Seq<char>) -> Option<(u8, Seq<char>)> {
    let level = char_run(l, '#');
    if level < 1 || level > 6 || level == l.len() {
        None
    } else if !is_ws(l[level as int]) {
        None
    } else {
        Some((level as u8, trim_start(l.skip(level as int))))
    }
}

fn match_atx_exec(l: &Vec<char>) -> (r: Option<(u8, Vec<char>)>)
    ensures
        match r {
            Some((lv, t)) => match_atx(l@) == Some((lv, t@)),
            None => match_atx(l@) is None,
        },
{
    let level = char_run_exec(l, 0, '#');
    assert(l@.skip(0) =~= l@);
    if level < 1 || level > 6 || level == l.len() {
        return None;
    }
    if !is_whitespace(l[level]) {
        return None;
    }
    let rest = slice_of(l, level, l.len());
    assert(rest@ =~= l@.skip(level as int));
    Some((level as u8, trim_start_vec(&rest)))
}

pub open spec fn all_eq(s: Seq<char>, c: char) -> bool {
    forall|i: int| 0 <= i < s.len() ==> s[i] == c
}

fn all_eq_exec(s: &Vec<char>, c: char) -> (r: bool)
    ensures
        r == all_eq(s@, c),
{
    let mut i: usize = 0;
    while i < s.len()
        invariant
            i <= s.len(),
            forall|j: int| 0 <= j < i ==> s@[j] == c,
        decreases s.len() - i,
    {
        if s[i] != c {
            return false;
        }
        i += 1;
    }
    true
}

fn trim_end_blank_exec(s: &Vec<char>) -> (r: Vec<char>)
    ensures
        r@ == trim_end_blank(s@),
{
    let mut k = s.len();
    assert(s@.take(k as int) =~= s@);
    while k > 0 && (s[k - 1] == ' ' || s[k - 1] == '\t')
        invariant
            k <= s.len(),
            trim_end_blank(s@) == trim_end_blank(s@.take(k as int)),
        decreases k,
    {
        assert(s@.take(k as int).drop_last() =~= s@.take(k - 1));
        k -= 1;
    }
    let r = slice_of(s, 0, k);
    assert(r@ =~= s@.take(k as int));
    r
}

pub proof fn lemma_trim_end_blank_full(s: Seq<char>)
    ensures
        s.take(s.len() as int) == s,
{
    assert(s.take(s.len() as int) =~= s);
}

/// `^=+\s*$` — Setext H1 underline (only spaces/tabs may follow).
pub open spec fn setext_h1(l: Seq<char>) -> bool {
    let t = trim_end_blank(l);
    t.len() > 0 && all_eq(t, '=')
}

/// `^-+\s*$` — Setext H2 underline.
pub open spec fn setext_h2(l: Seq<char>) -> bool {
    let t = trim_end_blank(l);
    t.len() > 0 && all_eq(t, '-')
}

fn setext_exec(l: &Vec<char>, c: char) -> (r: bool)
    ensures
        r == (trim_end_blank(l@).len() > 0 && all_eq(trim_end_blank(l@), c)),
{
    proof {
        lemma_trim_end_blank_full(l@);
    }
    let t = trim_end_blank_exec(l);
    t.len() > 0 && all_eq_exec(&t, c)
}

/// `^(\s*)([-*+])\s+(.*)$` — bullet list item: indent, marker, text.
pub open spec fn match_bullet(l: Seq<char>) -> Option<(nat, char, Seq<char>)> {
    let indent = lws(l);
    let after = l.skip(indent as int);
    if after.len() < 2 {
        None
    } else if !(after[0] == '-' || after[0] == '*' || after[0] == '+') {
        None
    } else if !is_ws(after[1]) {
        None
    } else {
        Some((indent, after[0], trim_start(after.skip(2))))
    }
}

fn match_bullet_exec(l: &Vec<char>) -> (r: Option<(usize, char, Vec<char>)>)
    ensures
        match r {
            Some((i, m, t)) => match_bullet(l@) == Some((i as nat, m, t@)),
            None => match_bullet(l@) is None,
        },
{
    let indent = lws_exec(l);
    if l.len() - indent < 2 {
        return None;
    }
    let marker = l[indent];
    if !(marker == '-' || marker == '*' || marker == '+') {
        return None;
    }
    if !is_whitespace(l[indent + 1]) {
        return None;
    }
    let rest = slice_of(l, indent + 2, l.len());
    assert(rest@ =~= l@.skip(indent as int).skip(2));
    Some((indent, marker, trim_start_vec(&rest)))
}

/// `^(\s*)(\d+)\.\s+(.*)$` — numbered list item: indent, number, text. The
/// number must fit in a `u32`.
pub open spec fn match_numbered(l: Seq<char>) -> Option<(nat, u32, Seq<char>)> {
    let indent = lws(l);
    let after = l.skip(indent as int);
    let nd = run_len(after, |c: char| is_ascii_digit_char(c));
    if nd == 0 || nd >= after.len() {
        None
    } else if after[nd as int] != '.' {
        None
    } else {
        let after_dot = after.skip(nd + 1 as int);
        if after_dot.len() == 0 || !is_ws(after_dot[0]) {
            None
        } else if digits_value(after.take(nd as int)) > u32::MAX {
            None
        } else {
            Some(
                (
                    indent,
                    digits_value(after.take(nd as int)) as u32,
                    trim_start(after_dot.skip(1)),
                ),
            )
        }
    }
}

fn parse_u32_digits(s: &Vec<char>, lo: usize, hi: usize) -> (r: Option<u32>)
    requires
        lo <= hi <= s.len(),
        forall|j: int| lo <= j < hi ==> is_ascii_digit_char(s@[j]),
    ensures
        match r {
            Some(v) => v == digits_value(s@.subrange(lo as int, hi as int)),
            None => digits_value(s@.subrange(lo as int, hi as int)) > u32::MAX,
        },
{
    let mut v: u64 = 0;
    let mut i = lo;
    while i < hi
        invariant
            lo <= i <= hi <= s.len(),
            forall|j: int| lo <= j < hi ==> is_ascii_digit_char(s@[j]),
            v == digits_value(s@.subrange(lo as int, i as int)),
            v <= u32::MAX,
        decreases hi - i,
    {
        let d = (s[i] as u32 - '0' as u32) as u64;
        assert(s@.subrange(lo as int, i + 1).drop_last() =~= s@.subrange(lo as int, i as int));
        if v > (u32::MAX as u64 - d) / 10 {
            proof {
                lemma_digits_value_grows(s@.subrange(lo as int, hi as int), (i + 1 - lo) as int);
                assert(s@.subrange(lo as int, hi as int).take(i + 1 - lo) =~= s@.subrange(
                    lo as int,
                    i + 1,
                ));
            }
            return None;
        }
        v = v * 10 + d;
        i += 1;
    }
    Some(v as u32)
}

/// A digit string's value is at least that of each of its prefixes.
pub proof fn lemma_digits_value_grows(s: Seq<char>, k: int)
    requires
        0 <= k <= s.len(),
        forall|j: int| 0 <= j < s.len() ==> is_ascii_digit_char(s[j]),
    ensures
        digits_value(s) >= digits_value(s.take(k)),
    decreases s.len() - k,
{
    if k < s.len() {
        lemma_digits_value_grows(s.drop_last(), k);
        assert(s.drop_last().take(k) =~= s.take(k));
    } else {
        assert(s.take(k) =~= s);
    }
}

fn match_numbered_exec(l: &Vec<char>) -> (r: Option<(usize, u32, Vec<char>)>)
    ensures
        match r {
            Some((i, n, t)) => match_numbered(l@) == Some((i as nat, n, t@)),
            None => match_numbered(l@) is None,
        },
{
    let indent = lws_exec(l);
    let ghost after = l@.skip(indent as int);
    let mut k = indent;
    while k < l.len() && '0' <= l[k] && l[k] <= '9'
        invariant
            indent <= k <= l.len(),
            forall|j: int| indent <= j < k ==> is_ascii_digit_char(l@[j]),
        decreases l.len() - k,
    {
        k += 1;
    }
    let nd = k - indent;
    proof {
        assert forall|j: int| 0 <= j < nd implies (|c: char| is_ascii_digit_char(c))(after[j]) by {
            assert(after[j] == l@[indent + j]);
        }
        if k < l.len() {
            assert(after[nd as int] == l@[k as int]);
        }
        lemma_run_len(after, |c: char| is_ascii_digit_char(c), nd as int);
    }
    if nd == 0 || nd >= l.len() - indent {
        return None;
    }
    if l[k] != '.' {
        return None;
    }
    if k + 1 >= l.len() || !is_whitespace(l[k + 1]) {
        proof {
            if k + 1 < l.len() {
                assert(after.skip(nd + 1 as int)[0] == l@[k + 1]);
            }
        }
        return None;
    }
    let n = match parse_u32_digits(l, indent, k) {
        Some(n) => n,
        None => {
            assert(after.take(nd as int) =~= l@.subrange(indent as int, k as int));
            return None;
        },
    };
    assert(after.take(nd as int) =~= l@.subrange(indent as int, k as int));
    assert(after.skip(nd + 1 as int)[0] == l@[k + 1]);
    let rest = slice_of(l, k + 2, l.len());
    assert(rest@ =~= after.skip(nd + 1 as int).skip(1));
    Some((indent, n, trim_start_vec(&rest)))
}

/// `^(\s*)[-*+]\s+\[([ xX])\]\s+(.*)$` — check list item.
pub open spec fn match_check(l: Seq<char>) -> Option<(nat, bool, Seq<char>)> {
    match match_bullet(l) {
        None => None,
        Some((indent, _m, rest)) => if rest.len() < 4 || rest[0] != '[' || rest[2] != ']' {
            None
        } else if !(rest[1] == 'x' || rest[1] == 'X' || rest[1] == ' ') {
            None
        } else if !is_ws(rest[3]) {
            None
        } else {
            Some((indent, rest[1] != ' ', trim_start(rest.skip(4))))
        },
    }
}

fn match_check_exec(l: &Vec<char>) -> (r: Option<(usize, bool, Vec<char>)>)
    ensures
        match r {
            Some((i, c, t)) => match_check(l@) == Some((i as nat, c, t@)),
            None => match_check(l@) is None,
        },
{
    let (indent, _m, rest) = match match_bullet_exec(l) {
        Some(x) => x,
        None => {
            return None;
        },
    };
    if rest.len() < 4 || rest[0] != '[' || rest[2] != ']' {
        return None;
    }
    let mark = rest[1];
    if !(mark == 'x' || mark == 'X' || mark == ' ') {
        return None;
    }
    if !is_whitespace(rest[3]) {
        return None;
    }
    let tail = slice_of(&rest, 4, rest.len());
    assert(tail@ =~= rest@.skip(4));
    Some((indent, mark != ' ', trim_start_vec(&tail)))
}

/// `^(\s*)(`{3,}|~{3,})(\w*)?\s*$` — fenced code block start/end: indent,
/// fence character, fence length, language.
pub open spec fn match_fence(l: Seq<char>) -> Option<(nat, char, nat, Seq<char>)> {
    let indent = lws(l);
    let after = l.skip(indent as int);
    if after.len() == 0 || !(after[0] == '`' || after[0] == '~') {
        None
    } else {
        let fc = after[0];
        let flen = char_run(after, fc);
        if flen < 3 {
            None
        } else {
            let trimmed = trim_end(after.skip(flen as int));
            let lang = trimmed.take(run_len(trimmed, |c: char| is_word(c)) as int);
            if !all_ws(trimmed.skip(lang.len() as int)) {
                None
            } else {
                Some((indent, fc, flen, lang))
            }
        }
    }
}

fn match_fence_exec(l: &Vec<char>) -> (r: Option<(usize, char, usize, Vec<char>)>)
    ensures
        match r {
            Some((i, c, n, lang)) => match_fence(l@) == Some((i as nat, c, n as nat, lang@)),
            None => match_fence(l@) is None,
        },
{
    let indent = lws_exec(l);
    let ghost after = l@.skip(indent as int);
    if indent == l.len() || !(l[indent] == '`' || l[indent] == '~') {
        return None;
    }
    let fc = l[indent];
    let flen = char_run_exec(l, indent, fc);
    if flen < 3 {
        return None;
    }
    let rest = slice_of(l, indent + flen, l.len());
    assert(rest@ =~= after.skip(flen as int));
    let trimmed = trim_end_vec(&rest);
    let mut k: usize = 0;
    while k < trimmed.len() && is_word_exec(trimmed[k])
        invariant
            k <= trimmed.len(),
            forall|j: int| 0 <= j < k ==> is_word(trimmed@[j]),
        decreases trimmed.len() - k,
    {
        k += 1;
    }
    proof {
        lemma_run_len(trimmed@, |c: char| is_word(c), k as int);
    }
    let lang = slice_of(&trimmed, 0, k);
    let tail = slice_of(&trimmed, k, trimmed.len());
    assert(lang@ =~= trimmed@.take(k as int));
    assert(tail@ =~= trimmed@.skip(k as int));
    if !all_ws_exec(&tail) {
        return None;
    }
    Some((indent, fc, flen, lang))
}

/// `^>\s?(.*)$` — blockquote: the text after `>` and one optional
/// whitespace character.
pub open spec fn match_quote(l: Seq<char>) -> Option<Seq<char>> {
    if l.len() == 0 || l[0] != '>' {
        None
    } else {
        let after = l.skip(1);
        if after.len() > 0 && is_ws(after[0]) {
            Some(after.skip(1))
        } else {
            Some(after)
        }
    }
}

fn match_quote_exec(l: &Vec<char>) -> (r: Option<Vec<char>>)
    ensures
        match r {
            Some(t) => match_quote(l@) == Some(t@),
            None => match_quote(l@) is None,
        },
{
    if l.len() == 0 || l[0] != '>' {
        return None;
    }
    if l.len() > 1 && is_whitespace(l[1]) {
        let t = slice_of(l, 2, l.len());
        assert(t@ =~= l@.skip(1).skip(1));
        Some(t)
    } else {
        let t = slice_of(l, 1, l.len());
        assert(t@ =~= l@.skip(1));
        Some(t)
    }
}

pub open spec fn all_word(s: Seq<char>) -> bool {
    forall|i: int| 0 <= i < s.len() ==> is_word(s[i])
}

fn all_word_exec(s: &Vec<char>) -> (r: bool)
    ensures
        r == all_word(s@),
{
    let mut i: usize = 0;
    while i < s.len()
        invariant
            i <= s.len(),
            forall|j: int| 0 <= j < i ==> is_word(s@[j]),
        decreases s.len() - i,
    {
        if !is_word_exec(s[i]) {
            assert(!is_word(s@[i as int]));
            return false;
        }
        i += 1;
    }
    true
}

/// `^>\s*\[!(\w+)\]\s*$` — GitHub-style callout header: its kind.
pub open spec fn match_callout(l: Seq<char>) -> Option<Seq<char>> {
    match match_quote(l) {
        None => None,
        Some(after) => {
            let t = trim(after);
            if t.len() < 4 || t[0] != '[' || t[1] != '!' {
                None
            } else {
                match find_char(t, ']') {
                    None => None,
                    Some(close) => if close <= 2 {
                        None
                    } else {
                        let kind = t.subrange(2, close);
                        if !all_word(kind) {
                            None
                        } else if trim(t.skip(close + 1)).len() != 0 {
                            None
                        } else {
                            Some(kind)
                        }
                    },
                }
            }
        },
    }
}

fn match_callout_exec(l: &Vec<char>) -> (r: Option<Vec<char>>)
    ensures
        match r {
            Some(k) => match_callout(l@) == Some(k@),
            None => match_callout(l@) is None,
        },
{
    let after = match match_quote_exec(l) {
        Some(a) => a,
        None => {
            return None;
        },
    };
    let t = trim_vec(&after);
    if t.len() < 4 || t[0] != '[' || t[1] != '!' {
        return None;
    }
    let close = match find_char_exec(&t, ']') {
        Some(c) => c,
        None => {
            return None;
        },
    };
    proof {
        crate::text::lemma_find_char(t@, ']');
    }
    if close <= 2 {
        return None;
    }
    let kind = slice_of(&t, 2, close);
    if !all_word_exec(&kind) {
        return None;
    }
    let tail = slice_of(&t, close + 1, t.len());
    assert(tail@ =~= t@.skip(close + 1));
    let tt = trim_vec(&tail);
    if tt.len() != 0 {
        return None;
    }
    Some(kind)
}

/// `^(\s*)(-{3,}|\*{3,}|_{3,})\s*$` — thematic break: its indent.
pub open spec fn match_divider(l: Seq<char>) -> Option<nat> {
    let indent = lws(l);
    let after = trim_end_blank(l.skip(indent as int));
    if after.len() < 3 {
        None
    } else if !(after[0] == '-' || after[0] == '*' || after[0] == '_') {
        None
    } else if !all_eq(after, after[0]) {
        None
    } else {
        Some(indent)
    }
}

fn match_divider_exec(l: &Vec<char>) -> (r: Option<usize>)
    ensures
        match r {
            Some(i) => match_divider(l@) == Some(i as nat),
            None => match_divider(l@) is None,
        },
{
    let indent = lws_exec(l);
    let rest = slice_of(l, indent, l.len());
    assert(rest@ =~= l@.skip(indent as int));
    let after = trim_end_blank_exec(&rest);
    if after.len() < 3 {
        return None;
    }
    let first = after[0];
    if !(first == '-' || first == '*' || first == '_') {
        return None;
    }
    if !all_eq_exec(&after, first) {
        return None;
    }
    Some(indent)
}

/// `^\|(.+)\|$` — table data row: the text between the outer pipes.
pub open spec fn match_table_row(l: Seq<char>) -> Option<Seq<char>> {
    let t = trim_end(l);
    if t.len() < 3 || t[0] != '|' || t.last() != '|' {
        None
    } else {
        Some(t.subrange(1, t.len() - 1))
    }
}

fn match_table_row_exec(l: &Vec<char>) -> (r: Option<Vec<char>>)
    ensures
        match r {
            Some(t) => match_table_row(l@) == Some(t@),
            None => match_table_row(l@) is None,
        },
{
    let t = trim_end_vec(l);
    if t.len() < 3 || t[0] != '|' || t[t.len() - 1] != '|' {
        return None;
    }
    Some(slice_of(&t, 1, t.len() - 1))
}

pub open spec fn is_sep_char(c: char) -> bool {
    c == ' ' || c == '\t' || c == '-' || c == ':' || c == '|'
}

pub open spec fn all_sep(s: Seq<char>) -> bool {
    forall|i: int| 0 <= i < s.len() ==> is_sep_char(s[i])
}

/// `^\|[\s\-:|]+\|$` — table separator row.
pub open spec fn table_separator(l: Seq<char>) -> bool {
    match match_table_row(l) {
        None => false,
        Some(inner) => all_sep(inner),
    }
}

fn table_separator_exec(l: &Vec<char>) -> (r: bool)
    ensures
        r == table_separator(l@),
{
    let inner = match match_table_row_exec(l) {
        Some(i) => i,
        None => {
            return false;
        },
    };
    all_sep_exec(&inner)
}

fn all_sep_exec(s: &Vec<char>) -> (r: bool)
    ensures
        r == all_sep(s@),
{
    let mut i: usize = 0;
    while i < s.len()
        invariant
            i <= s.len(),
            forall|j: int| 0 <= j < i ==> is_sep_char(s@[j]),
        decreases s.len() - i,
    {
        let c = s[i];
        if !(c == ' ' || c == '\t' || c == '-' || c == ':' || c == '|') {
            assert(!is_sep_char(s@[i as int]));
            return false;
        }
        i += 1;
    }
    true
}

/// Index of the last occurrence of `c` in `s`.
pub open spec fn rfind_char(s: Seq<char>, c: char) -> Option<int>
    decreases s.len(),
{
    if s.len() == 0 {
        None
    } else if s.last() == c {
        Some(s.len() - 1)
    } else {
        rfind_char(s.drop_last(), c)
    }
}

fn rfind_char_exec(s: &Vec<char>, hi: usize, c: char) -> (r: Option<usize>)
    requires
        hi <= s.len(),
    ensures
        match r {
            Some(i) => rfind_char(s@.take(hi as int), c) == Some(i as int) && i < hi,
            None => rfind_char(s@.take(hi as int), c) is None,
        },
{
    let mut k = hi;
    while k > 0
        invariant
            k <= hi <= s.len(),
            rfind_char(s@.take(hi as int), c) == rfind_char(s@.take(k as int), c),
        decreases k,
    {
        if s[k - 1] == c {
            return Some(k - 1);
        }
        assert(s@.take(k as int).drop_last() =~= s@.take(k - 1));
        k -= 1;
    }
    None
}

/// Split `url "title"` or `url 'title'` into the URL and the title: the
/// title's opening quote (the last one before the closing quote) must follow
/// a space or tab, and the URL before it must not be empty.
pub open spec fn url_and_title(inner: Seq<char>) -> (Seq<char>, Option<Seq<char>>) {
    let n = inner.len();
    if n > 0 && (inner.last() == '"' || inner.last() == '\'') {
        let q = inner.last();
        match rfind_char(inner.take(n - 1), q) {
            Some(open) => if open > 0 && is_blank_char(inner[open - 1]) && trim_end(
                inner.take(open),
            ).len() > 0 {
                (trim_end(inner.take(open)), Some(inner.subrange(open + 1, n - 1)))
            } else {
                (inner, None)
            },
            None => (inner, None),
        }
    } else {
        (inner, None)
    }
}

fn url_and_title_exec(inner: &Vec<char>) -> (r: (Vec<char>, Option<Vec<char>>))
    ensures
        url_and_title(inner@) == (r.0@, match r.1 {
            Some(t) => Some(t@),
            None => None,
        }),
{
    let n = inner.len();
    if n > 0 && (inner[n - 1] == '"' || inner[n - 1] == '\'') {
        let q = inner[n - 1];
        match rfind_char_exec(inner, n - 1, q) {
            Some(open) => {
                if open > 0 && (inner[open - 1] == ' ' || inner[open - 1] == '\t') {
                    let head = slice_of(inner, 0, open);
                    assert(head@ =~= inner@.take(open as int));
                    let url = trim_end_vec(&head);
                    if url.len() > 0 {
                        let title = slice_of(inner, open + 1, n - 1);
                        return (url, Some(title));
                    }
                }
                (inner.clone(), None)
            },
            None => (inner.clone(), None),
        }
    } else {
        (inner.clone(), None)
    }
}

/// `^!\[([^\]]*)\]\(([^)]+)\)$` — standalone image: alt, URL, title.
pub open spec fn match_image(l: Seq<char>) -> Option<(Seq<char>, Seq<char>, Option<Seq<char>>)> {
    let t = trim(l);
    if t.len() < 2 || t[0] != '!' || t[1] != '[' || t.last() != ')' {
        None
    } else {
        match find_char(t, ']') {
            None => None,
            Some(alt_end) => if alt_end <= 1 {
                None
            } else {
                let after = t.skip(alt_end + 1);
                if after.len() == 0 || after[0] != '(' {
                    None
                } else {
                    let inner = after.subrange(1, after.len() - 1);
                    if inner.len() == 0 {
                        None
                    } else {
                        let (url, title) = url_and_title(inner);
                        if url.len() == 0 {
                            None
                        } else {
                            Some((t.subrange(2, alt_end), url, title))
                        }
                    }
                }
            },
        }
    }
}

fn match_image_exec(l: &Vec<char>) -> (r: Option<(Vec<char>, Vec<char>, Option<Vec<char>>)>)
    ensures
        match r {
            Some((a, u, t)) => match_image(l@) == Some(
                (
                    a@,
                    u@,
                    match t {
                        Some(x) => Some(x@),
                        None => None,
                    },
                ),
            ),
            None => match_image(l@) is None,
        },
{
    let t = trim_vec(l);
    let n = t.len();
    if n < 2 || t[0] != '!' || t[1] != '[' || t[n - 1] != ')' {
        return None;
    }
    let alt_end = match find_char_exec(&t, ']') {
        Some(a) => a,
        None => {
            return None;
        },
    };
    proof {
        crate::text::lemma_find_char(t@, ']');
    }
    if alt_end <= 1 {
        return None;
    }
    let ghost after = t@.skip(alt_end + 1);
    if alt_end + 1 >= n || t[alt_end + 1] != '(' {
        return None;
    }
    // `t` ends with ')' and `after` starts with '(', so it has two characters.
    if alt_end + 2 > n - 1 {
        return None;
    }
    let inner = slice_of(&t, alt_end + 2, n - 1);
    assert(inner@ =~= after.subrange(1, after.len() - 1));
    if inner.len() == 0 {
        return None;
    }
    let (url, title) = url_and_title_exec(&inner);
    if url.len() == 0 {
        return None;
    }
    Some((slice_of(&t, 2, alt_end), url, title))
}

// ============================================================================
// Line classification
// ============================================================================

/// Tokenizer state between lines: inside a fence, and which fence.
pub struct LexState {
    pub in_code_block: bool,
    pub fence_char: char,
    pub fence_len: nat,
}

pub open spec fn tok(tt: TokenType, raw: Seq<char>, content: Seq<char>, indent: nat, line: nat, meta: MetaTV) -> TokenV {
    TokenV { token_type: tt, raw, content, indent, line, meta }
}

/// The token for `l` (line number `n`, previous line `prev`) and the state
/// after it, trying the patterns in order.
pub open spec fn lex_line(l: Seq<char>, st: LexState, prev: Seq<char>, n: nat) -> (TokenV, LexState) {
    if st.in_code_block {
        match match_fence(l) {
            Some((_, ch, len, _)) if ch == st.fence_char && len >= st.fence_len => (
                tok(TokenType::CodeFenceEnd, l, Seq::empty(), 0, n, no_meta()),
                LexState { in_code_block: false, fence_len: 0, ..st },
            ),
            _ => (tok(TokenType::CodeContent, l, l, 0, n, no_meta()), st),
        }
    } else if let Some((indent, ch, len, lang)) = match_fence(l) {
        (
            tok(TokenType::CodeFenceStart, l, Seq::empty(), indent, n, MetaTV { language: Some(lang), ..no_meta() }),
            LexState { in_code_block: true, fence_char: ch, fence_len: len },
        )
    } else {
        (lex_plain(l, prev, n), st)
    }
}

/// Classification of a line outside a fenced code block.
pub open spec fn lex_plain(l: Seq<char>, prev: Seq<char>, n: nat) -> TokenV {
    let prev_nonblank = trim(prev).len() != 0;
    if all_ws(l) {
        tok(TokenType::Blank, l, Seq::empty(), 0, n, no_meta())
    } else if match_divider(l) is Some && !(prev_nonblank && setext_h2(l)) {
        tok(TokenType::Divider, l, Seq::empty(), match_divider(l)->0, n, no_meta())
    } else if let Some((level, text)) = match_atx(l) {
        tok(TokenType::Heading, l, trim(text), 0, n, MetaTV { level: Some(level), ..no_meta() })
    } else if let Some(kind) = match_callout(l) {
        tok(TokenType::Callout, l, Seq::empty(), 0, n, MetaTV { callout_type: Some(lower_seq(kind)), ..no_meta() })
    } else if let Some(text) = match_quote(l) {
        tok(TokenType::Blockquote, l, text, 0, n, no_meta())
    } else if let Some((indent, checked, text)) = match_check(l) {
        tok(TokenType::CheckListItem, l, text, indent, n, MetaTV { checked: Some(checked), ..no_meta() })
    } else if let Some((indent, marker, text)) = match_bullet(l) {
        tok(TokenType::BulletListItem, l, text, indent, n, MetaTV { list_marker: Some(marker), ..no_meta() })
    } else if let Some((indent, number, text)) = match_numbered(l) {
        tok(TokenType::NumberedListItem, l, text, indent, n, MetaTV { list_index: Some(number), ..no_meta() })
    } else if table_separator(l) {
        tok(TokenType::TableSeparator, l, l, 0, n, no_meta())
    } else if let Some(inner) = match_table_row(l) {
        tok(TokenType::TableRow, l, inner, 0, n, no_meta())
    } else if let Some((alt, url, title)) = match_image(l) {
        tok(TokenType::Image, l, url, 0, n, MetaTV { image_alt: Some(alt), image_title: title, ..no_meta() })
    } else if setext_h1(l) || setext_h2(l) {
        if prev_nonblank {
            tok(TokenType::Heading, l, trim(prev), 0, n, MetaTV { level: Some(if setext_h1(l) { 1u8 } else { 2u8 }), ..no_meta() })
        } else {
            tok(TokenType::Divider, l, Seq::empty(), 0, n, no_meta())
        }
    } else {
        tok(TokenType::Paragraph, l, trim(l), lws(l), n, no_meta())
    }
}

fn opt_string(o: Option<Vec<char>>) -> (r: Option<String>)
    ensures
        ostr(r) == match o {
            Some(v) => Some(v@),
            None => None,
        },
{
    match o {
        Some(v) => Some(string_of(&v)),
        None => None,
    }
}

fn mk_token(tt: TokenType, raw: &Vec<char>, content: &Vec<char>, indent: usize, line: usize, meta: TokenMeta) -> (r: Token)
    ensures
        r@ == tok(tt, raw@, content@, indent as nat, line as nat, meta@),
{
    Token { token_type: tt, raw: string_of(raw), content: string_of(content), indent, line, meta }
}

fn tokenize_line(l: &Vec<char>, prev: &Vec<char>, n: usize) -> (r: Token)
    ensures
        r@ == lex_plain(l@, prev@, n as nat),
{
    let empty: Vec<char> = Vec::new();
    let prev_nonblank = trim_vec(prev).len() != 0;
    if all_ws_exec(l) {
        return mk_token(TokenType::Blank, l, &empty, 0, n, TokenMeta::default());
    }
    match match_divider_exec(l) {
        Some(indent) => {
            if !(prev_nonblank && setext_exec(l, '-')) {
                return mk_token(TokenType::Divider, l, &empty, indent, n, TokenMeta::default());
            }
        },
        None => {},
    }
    match match_atx_exec(l) {
        Some((level, text)) => {
            let mut m = TokenMeta::default();
            m.level = Some(level);
            return mk_token(TokenType::Heading, l, &trim_vec(&text), 0, n, m);
        },
        None => {},
    }
    match match_callout_exec(l) {
        Some(kind) => {
            let mut m = TokenMeta::default();
            m.callout_type = Some(string_of(&to_ascii_lower_vec(&kind)));
            return mk_token(TokenType::Callout, l, &empty, 0, n, m);
        },
        None => {},
    }
    match match_quote_exec(l) {
        Some(text) => {
            return mk_token(TokenType::Blockquote, l, &text, 0, n, TokenMeta::default());
        },
        None => {},
    }
    match match_check_exec(l) {
        Some((indent, checked, text)) => {
            let mut m = TokenMeta::default();
            m.checked = Some(checked);
            return mk_token(TokenType::CheckListItem, l, &text, indent, n, m);
        },
        None => {},
    }
    match match_bullet_exec(l) {
        Some((indent, marker, text)) => {
            let mut m = TokenMeta::default();
            m.list_marker = Some(marker);
            return mk_token(TokenType::BulletListItem, l, &text, indent, n, m);
        },
        None => {},
    }
    match match_numbered_exec(l) {
        Some((indent, number, text)) => {
            let mut m = TokenMeta::default();
            m.list_index = Some(number);
            return mk_token(TokenType::NumberedListItem, l, &text, indent, n, m);
        },
        None => {},
    }
    if table_separator_exec(l) {
        return mk_token(TokenType::TableSeparator, l, l, 0, n, TokenMeta::default());
    }
    match match_table_row_exec(l) {
        Some(inner) => {
            return mk_token(TokenType::TableRow, l, &inner, 0, n, TokenMeta::default());
        },
        None => {},
    }
    match match_image_exec(l) {
        Some((alt, url, title)) => {
            let mut m = TokenMeta::default();
            m.image_alt = Some(string_of(&alt));
            m.image_title = opt_string(title);
            return mk_token(TokenType::Image, l, &url, 0, n, m);
        },
        None => {},
    }
    let h1 = setext_exec(l, '=');
    let h2 = setext_exec(l, '-');
    if h1 || h2 {
        if prev_nonblank {
            let mut m = TokenMeta::default();
            m.level = Some(if h1 { 1u8 } else { 2u8 });
            return mk_token(TokenType::Heading, l, &trim_vec(prev), 0, n, m);
        }
        return mk_token(TokenType::Divider, l, &empty, 0, n, TokenMeta::default());
    }
    let indent = lws_exec(l);
    mk_token(TokenType::Paragraph, l, &trim_vec(l), indent, n, TokenMeta::default())
}

// ============================================================================
// Whole documents
// ============================================================================

pub open spec fn initial_state() -> LexState {
    LexState { in_code_block: false, fence_char: '`', fence_len: 0 }
}

/// Tokens of the first `k` lines, and the state after them.
pub open spec fn lex_lines(ls: Seq<Seq<char>>, k: nat) -> (Seq<TokenV>, LexState)
    decreases k,
{
    if k == 0 {
        (Seq::empty(), initial_state())
    } else {
        let (toks, st) = lex_lines(ls, (k - 1) as nat);
        let prev = if k >= 2 { ls[k - 2] } else { Seq::empty() };
        let (t, st2) = lex_line(ls[k - 1], st, prev, k);
        (toks.push(t), st2)
    }
}

/// The lines of a markdown text, with CRLF and CR normalized to LF.
pub open spec fn md_lines(md: Seq<char>) -> Seq<Seq<char>> {
    split(normalize_le(md), '\n')
}

pub open spec fn tokens_of(md: Seq<char>) -> Seq<TokenV> {
    lex_lines(md_lines(md), md_lines(md).len()).0
}

pub open spec fn toks_view(v: Seq<Token>) -> Seq<TokenV> {
    v.map_values(|t: Token| t@)
}

/// Tokenize a markdown string into one [`Token`] per line. CRLF and CR line
/// endings are normalized to LF before splitting.
pub fn tokenize(markdown: &str) -> (r: Vec<Token>)
    ensures
        toks_view(r@) == tokens_of(markdown@),
{
    let normalized = normalize_le_vec(&chars_of(markdown));
    let lines = split_vec(&normalized, '\n');
    let ghost ls = lines@.map_values(|v: Vec<char>| v@);
    let mut tokens: Vec<Token> = Vec::new();
    let mut in_code = false;
    let mut fence_char = '`';
    let mut fence_len: usize = 0;
    let empty: Vec<char> = Vec::new();
    let mut i: usize = 0;
    while i < lines.len()
        invariant
            i <= lines.len(),
            ls == lines@.map_values(|v: Vec<char>| v@),
            ls == md_lines(markdown@),
            empty@ == Seq::<char>::empty(),
            ({
                let (toks, st) = lex_lines(ls, i as nat);
                &&& toks_view(tokens@) == toks
                &&& st == LexState { in_code_block: in_code, fence_char, fence_len: fence_len as nat }
            }),
        decreases lines.len() - i,
    {
        let l = &lines[i];
        let prev = if i > 0 { &lines[i - 1] } else { &empty };
        let ghost old_toks = tokens@;
        let ghost st0 = lex_lines(ls, i as nat).1;
        proof {
            assert(l@ == ls[i as int]);
            if i >= 1 {
                assert(prev@ == ls[i - 1]);
            } else {
                assert(prev@ =~= Seq::<char>::empty());
            }
        }
        let ghost pv = if i + 1 >= 2 { ls[i - 1] } else { Seq::<char>::empty() };
        let t = if in_code {
            let closes = match match_fence_exec(l) {
                Some((_, ch, len, _)) => ch == fence_char && len >= fence_len,
                None => false,
            };
            if closes {
                in_code = false;
                fence_len = 0;
                let t = mk_token(TokenType::CodeFenceEnd, l, &empty, 0, i + 1, TokenMeta::default());
                assert(lex_line(ls[i as int], st0, pv, (i + 1) as nat) == (t@, LexState { in_code_block: in_code, fence_char, fence_len: fence_len as nat }));
                t
            } else {
                let t = mk_token(TokenType::CodeContent, l, l, 0, i + 1, TokenMeta::default());
                assert(lex_line(ls[i as int], st0, pv, (i + 1) as nat) == (t@, LexState { in_code_block: in_code, fence_char, fence_len: fence_len as nat }));
                t
            }
        } else {
            match match_fence_exec(l) {
                Some((indent, ch, len, lang)) => {
                    in_code = true;
                    fence_char = ch;
                    fence_len = len;
                    let mut m = TokenMeta::default();
                    m.language = Some(string_of(&lang));
                    let t = mk_token(TokenType::CodeFenceStart, l, &empty, indent, i + 1, m);
                    assert(lex_line(ls[i as int], st0, pv, (i + 1) as nat) == (t@, LexState { in_code_block: in_code, fence_char, fence_len: fence_len as nat }));
                    t
                },
                None => {
                    let t = tokenize_line(l, prev, i + 1);
                    assert(lex_line(ls[i as int], st0, pv, (i + 1) as nat) == (t@, LexState { in_code_block: in_code, fence_char, fence_len: fence_len as nat }));
                    t
                },
            }
        };
        tokens.push(t);
        i += 1;
        proof {
            assert(toks_view(tokens@) =~= toks_view(old_toks).push(t@));
        }
    }
    tokens
}

// ============================================================================
// Token utilities
// ============================================================================

/// Groups of consecutive tokens of one type, split at blank lines (which
/// belong to no group).
pub open spec fn groups_of(ts: Seq<TokenV>) -> (Seq<Seq<TokenV>>, Seq<TokenV>, Option<TokenType>)
    decreases ts.len(),
{
    if ts.len() == 0 {
        (Seq::empty(), Seq::empty(), None)
    } else {
        let (gs, cur, last) = groups_of(ts.drop_last());
        let t = ts.last();
        if t.token_type == TokenType::Blank {
            (if cur.len() > 0 { gs.push(cur) } else { gs }, Seq::empty(), None)
        } else if last == Some(t.token_type) {
            (gs, cur.push(t), last)
        } else {
            (if cur.len() > 0 { gs.push(cur) } else { gs }, seq![t], Some(t.token_type))
        }
    }
}

pub open spec fn grouped(ts: Seq<TokenV>) -> Seq<Seq<TokenV>> {
    let (gs, cur, _) = groups_of(ts);
    if cur.len() > 0 {
        gs.push(cur)
    } else {
        gs
    }
}

fn copy_opt_string(o: &Option<String>) -> (r: Option<String>)
    ensures
        ostr(r) == ostr(*o),
{
    match o {
        Some(s) => Some(s.clone()),
        None => None,
    }
}

fn copy_token(t: &Token) -> (r: Token)
    ensures
        r@ == t@,
{
    Token {
        token_type: t.token_type,
        raw: t.raw.clone(),
        content: t.content.clone(),
        indent: t.indent,
        line: t.line,
        meta: TokenMeta {
            level: t.meta.level,
            list_marker: t.meta.list_marker,
            list_index: t.meta.list_index,
            checked: t.meta.checked,
            language: copy_opt_string(&t.meta.language),
            callout_type: copy_opt_string(&t.meta.callout_type),
            image_alt: copy_opt_string(&t.meta.image_alt),
            image_title: copy_opt_string(&t.meta.image_title),
        },
    }
}

pub open spec fn groups_view(v: Seq<Vec<Token>>) -> Seq<Seq<TokenV>> {
    v.map_values(|g: Vec<Token>| toks_view(g@))
}

/// Groups consecutive tokens of the same type, splitting on blank lines.
pub fn group_tokens(tokens: &[Token]) -> (r: Vec<Vec<Token>>)
    ensures
        groups_view(r@) == grouped(toks_view(tokens@)),
{
    let mut groups: Vec<Vec<Token>> = Vec::new();
    let mut current: Vec<Token> = Vec::new();
    let mut last_type: Option<TokenType> = None;
    let mut i: usize = 0;
    while i < tokens.len()
        invariant
            i <= tokens@.len(),
            ({
                let (gs, cur, last) = groups_of(toks_view(tokens@.take(i as int)));
                &&& groups_view(groups@) == gs
                &&& toks_view(current@) == cur
                &&& last_type == last
            }),
        decreases tokens@.len() - i,
    {
        let tk = &tokens[i];
        let ghost g0 = groups_view(groups@);
        let ghost c0 = toks_view(current@);
        proof {
            assert(toks_view(tokens@.take(i + 1)).drop_last() =~= toks_view(tokens@.take(i as int)));
        }
        if tk.token_type == TokenType::Blank {
            if current.len() > 0 {
                let mut g: Vec<Token> = Vec::new();
                std::mem::swap(&mut g, &mut current);
                groups.push(g);
                assert(groups_view(groups@) =~= g0.push(c0));
            }
            assert(toks_view(current@) =~= Seq::<TokenV>::empty());
            last_type = None;
        } else if last_type == Some(tk.token_type) {
            current.push(copy_token(tk));
            assert(toks_view(current@) =~= c0.push(tk@));
        } else {
            if current.len() > 0 {
                let mut g: Vec<Token> = Vec::new();
                std::mem::swap(&mut g, &mut current);
                groups.push(g);
                assert(groups_view(groups@) =~= g0.push(c0));
            }
            current = Vec::new();
            current.push(copy_token(tk));
            assert(toks_view(current@) =~= seq![tk@]);
            last_type = Some(tk.token_type);
        }
        i += 1;
    }
    assert(tokens@.take(tokens@.len() as int) =~= tokens@);
    if current.len() > 0 {
        let ghost g0 = groups_view(groups@);
        let ghost c0 = toks_view(current@);
        groups.push(current);
        assert(groups_view(groups@) =~= g0.push(c0));
    }
    groups
}

pub open spec fn is_list_type(t: TokenType) -> bool {
    t == TokenType::BulletListItem || t == TokenType::NumberedListItem || t
        == TokenType::CheckListItem
}

pub open spec fn is_code_type(t: TokenType) -> bool {
    t == TokenType::CodeFenceStart || t == TokenType::CodeFenceEnd || t == TokenType::CodeContent
}

/// Returns `true` for any list-item token type.
pub fn is_list_token(token: &Token) -> (r: bool)
    ensures
        r == is_list_type(token.token_type),
{
    token.token_type == TokenType::BulletListItem || token.token_type
        == TokenType::NumberedListItem || token.token_type == TokenType::CheckListItem
}

/// Returns `true` for any code-block-related token type.
pub fn is_code_token(token: &Token) -> (r: bool)
    ensures
        r == is_code_type(token.token_type),
{
    token.token_type == TokenType::CodeFenceStart || token.token_type == TokenType::CodeFenceEnd
        || token.token_type == TokenType::CodeContent
}

// ============================================================================
// Laws
// ============================================================================

/// Every line yields exactly one token, numbered from 1, carrying the line
/// as its raw text.
pub proof fn law_one_token_per_line(ls: Seq<Seq<char>>, k: nat)
    requires
        k <= ls.len(),
    ensures
        lex_lines(ls, k).0.len() == k,
        forall|i: int|
            0 <= i < k ==> (#[trigger] lex_lines(ls, k).0[i]).line == i + 1 && lex_lines(
                ls,
                k,
            ).0[i].raw == ls[i],
    decreases k,
{
    if k > 0 {
        law_one_token_per_line(ls, (k - 1) as nat);
        let prev = lex_lines(ls, (k - 1) as nat).0;
        assert forall|i: int| 0 <= i < k implies (#[trigger] lex_lines(ls, k).0[i]).line == i + 1
            && lex_lines(ls, k).0[i].raw == ls[i] by {
            if i < k - 1 {
                assert(lex_lines(ls, k).0[i] == prev[i]);
            }
        }
    }
}

/// The tokens of a text are one per line of its normalized form.
pub proof fn law_tokenize_counts_lines(md: Seq<char>)
    ensures
        tokens_of(md).len() == md_lines(md).len(),
{
    law_one_token_per_line(md_lines(md), md_lines(md).len());
}


/// Inside a fenced code block, whatever the line before: a line that is a
/// fence of the block's character, at least as long as the opening one
/// (after leading blanks, with at most a word and whitespace after it),
/// closes the block and leaves the tokenizer outside it; any other line is
/// code, read as it stands, and the tokenizer stays in the block.
pub proof fn law_lines_inside_fence(l: Seq<char>, st: LexState, prev: Seq<char>, n: nat)
    requires
        st.in_code_block,
    ensures
        match match_fence(l) {
            Some((_, ch, len, _)) => if ch == st.fence_char && len >= st.fence_len {
                lex_line(l, st, prev, n) == (
                    tok(TokenType::CodeFenceEnd, l, Seq::empty(), 0, n, no_meta()),
                    LexState { in_code_block: false, fence_char: st.fence_char, fence_len: 0 },
                )
            } else {
                lex_line(l, st, prev, n) == (tok(TokenType::CodeContent, l, l, 0, n, no_meta()), st)
            },
            None => lex_line(l, st, prev, n) == (tok(TokenType::CodeContent, l, l, 0, n, no_meta()), st),
        },
        lex_line(l, st, prev, n) == lex_line(l, st, Seq::empty(), n),
{
}


/// In the tokens of a text (what `tokenize` returns), a line read while a
/// fenced code block is open is, as `law_lines_inside_fence` says, either
/// the closing fence or a code line carrying the line unchanged; the
/// tokenizer's state after the line is the one that law gives.
pub proof fn law_tokens_inside_fence(md: Seq<char>, k: nat)
    requires
        k < md_lines(md).len(),
        lex_lines(md_lines(md), k).1.in_code_block,
    ensures
        ({
            let ls = md_lines(md);
            let st = lex_lines(ls, k).1;
            let l = ls[k as int];
            let t = tokens_of(md)[k as int];
            &&& (lex_lines(ls, k + 1).1, t) == (lex_line(l, st, Seq::empty(), k + 1).1, lex_line(
                l,
                st,
                Seq::empty(),
                k + 1,
            ).0)
            &&& match match_fence(l) {
                Some((_, ch, len, _)) => if ch == st.fence_char && len >= st.fence_len {
                    t == tok(TokenType::CodeFenceEnd, l, Seq::empty(), 0, k + 1, no_meta())
                        && !lex_lines(ls, k + 1).1.in_code_block
                } else {
                    t == tok(TokenType::CodeContent, l, l, 0, k + 1, no_meta()) && lex_lines(ls, k + 1).1
                        == st
                },
                None => t == tok(TokenType::CodeContent, l, l, 0, k + 1, no_meta()) && lex_lines(
                    ls,
                    k + 1,
                ).1 == st,
            }
        }),
{
    let ls = md_lines(md);
    let n = ls.len();
    let st = lex_lines(ls, k).1;
    let prev = if k + 1 >= 2 { ls[k - 1] } else { Seq::<char>::empty() };
    law_lines_inside_fence(ls[k as int], st, prev, k + 1);
    law_lines_inside_fence(ls[k as int], st, Seq::empty(), k + 1);
    law_one_token_per_line(ls, k + 1);
    lemma_lex_prefix(ls, k + 1, n);
    assert(lex_lines(ls, k + 1).0[k as int] == lex_line(ls[k as int], st, prev, k + 1).0);
}

/// The tokens of the first `j` lines begin the tokens of the first `m`.
proof fn lemma_lex_prefix(ls: Seq<Seq<char>>, j: nat, m: nat)
    requires
        j <= m <= ls.len(),
    ensures
        forall|i: int| 0 <= i < j ==> #[trigger] lex_lines(ls, m).0[i] == lex_lines(ls, j).0[i],
        lex_lines(ls, j).0.len() == j,
    decreases m - j,
{
    law_one_token_per_line(ls, j);
    if j < m {
        lemma_lex_prefix(ls, j + 1, m);
        law_one_token_per_line(ls, j + 1);
        assert forall|i: int| 0 <= i < j implies #[trigger] lex_lines(ls, m).0[i] == lex_lines(ls, j).0[i] by {
            assert(lex_lines(ls, m).0[i] == lex_lines(ls, j + 1).0[i]);
            assert(lex_lines(ls, j + 1).0 == lex_lines(ls, j).0.push(
                lex_line(ls[j as int], lex_lines(ls, j).1, if j + 1 >= 2 { ls[j - 1] } else { Seq::empty() }, j + 1).0,
            ));
        }
    }
}

} // verus!
