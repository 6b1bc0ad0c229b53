//! Character-sequence toolkit shared by the markdown, browser and theme code.
//!
//! Text is processed as `Vec<char>`; every helper states its result over the
//! `Seq<char>` view, with the usual `str` operations (`trim`, `split`,
//! `join`, ...) written out as spec functions.

use vstd::prelude::*;

verus! {

/// `String::push` appends one character.
pub assume_specification[ String::push ](string: &mut String, ch: char)
    ensures
        final(string)@ == old(string)@.push(ch),
;

// ---------------------------------------------------------------------------
// Character classes
// ---------------------------------------------------------------------------

/// Unicode `White_Space`, the set that `char::is_whitespace` recognises.
pub open spec fn is_ws(c: char) -> bool {
    ||| c == ' '
    ||| c == '\t'
    ||| c == '\n'
    ||| c == '\x0B'
    ||| c == '\x0C'
    ||| c == '\r'
    ||| c == '\u{85}'
    ||| c == '\u{A0}'
    ||| c == '\u{1680}'
    ||| ('\u{2000}' <= c && c <= '\u{200A}')
    ||| c == '\u{2028}'
    ||| c == '\u{2029}'
    ||| c == '\u{202F}'
    ||| c == '\u{205F}'
    ||| c == '\u{3000}'
}

pub fn is_whitespace(c: char) -> (r: bool)
    ensures
        r == is_ws(c),
{
    c == ' ' || c == '\t' || c == '\n' || c == '\x0B' || c == '\x0C' || c == '\r' || c
        == '\u{85}' || c == '\u{A0}' || c == '\u{1680}' || ('\u{2000}' <= c && c <= '\u{200A}')
        || c == '\u{2028}' || c == '\u{2029}' || c == '\u{202F}' || c == '\u{205F}' || c
        == '\u{3000}'
}

pub open spec fn is_ascii_alnum(c: char) -> bool {
    ||| ('0' <= c && c <= '9')
    ||| ('a' <= c && c <= 'z')
    ||| ('A' <= c && c <= 'Z')
}

/// `char::to_ascii_lowercase`.
pub open spec fn ascii_lower(c: char) -> char {
    if 'A' <= c && c <= 'Z' {
        ((c as u32) + 32) as char
    } else {
        c
    }
}

pub fn to_ascii_lower(c: char) -> (r: char)
    ensures
        r == ascii_lower(c),
{
    if 'A' <= c && c <= 'Z' {
        let r = ((c as u8) + 32) as char;
        assert(r == ascii_lower(c)) by {
            assert((c as u32) < 256);
        }
        r
    } else {
        c
    }
}

pub open spec fn lower_seq(s: Seq<char>) -> Seq<char> {
    s.map_values(|c: char| ascii_lower(c))
}

pub fn to_ascii_lower_vec(s: &Vec<char>) -> (r: Vec<char>)
    ensures
        r@ == lower_seq(s@),
{
    let mut r: Vec<char> = Vec::new();
    let mut i: usize = 0;
    while i < s.len()
        invariant
            i <= s.len(),
            r@ == lower_seq(s@.take(i as int)),
        decreases s.len() - i,
    {
        r.push(to_ascii_lower(s[i]));
        i += 1;
        assert(lower_seq(s@.take(i as int)) =~= lower_seq(s@.take(i - 1)).push(ascii_lower(s@[i - 1])));
    }
    assert(s@.take(s.len() as int) =~= s@);
    r
}

// ---------------------------------------------------------------------------
// Conversions
// ---------------------------------------------------------------------------

pub fn chars_of(s: &str) -> (out: Vec<char>)
    ensures
        out@ == s@,
{
    let mut out: Vec<char> = Vec::new();
    for c in it: s.chars()
        invariant
            out@ == it.seq().take(it.index() as int),
            it.seq() == s@,
    {
        out.push(c);
    }
    out
}

pub fn string_of(v: &Vec<char>) -> (out: String)
    ensures
        out@ == v@,
{
    let mut out = String::new();
    let mut i: usize = 0;
    while i < v.len()
        invariant
            i <= v.len(),
            out@ == v@.take(i as int),
        decreases v.len() - i,
    {
        out.push(v[i]);
        i += 1;
        assert(out@ == v@.take(i as int));
    }
    assert(v@.take(v.len() as int) =~= v@);
    out
}

pub fn chars_of_string(s: &String) -> (out: Vec<char>)
    ensures
        out@ == s@,
{
    chars_of(s.as_str())
}

// ---------------------------------------------------------------------------
// Slicing, searching
// ---------------------------------------------------------------------------

pub fn slice_of(s: &Vec<char>, lo: usize, hi: usize) -> (r: Vec<char>)
    requires
        lo <= hi <= s.len(),
    ensures
        r@ == s@.subrange(lo as int, hi as int),
{
    let mut r: Vec<char> = Vec::new();
    let mut i = lo;
    while i < hi
        invariant
            lo <= i <= hi <= s.len(),
            r@ == s@.subrange(lo as int, i as int),
        decreases hi - i,
    {
        r.push(s[i]);
        i += 1;
        assert(r@ =~= s@.subrange(lo as int, i as int));
    }
    r
}

pub fn append(r: &mut Vec<char>, s: &Vec<char>)
    ensures
        final(r)@ == old(r)@ + s@,
{
    let mut i: usize = 0;
    while i < s.len()
        invariant
            i <= s.len(),
            r@ == old(r)@ + s@.take(i as int),
        decreases s.len() - i,
    {
        r.push(s[i]);
        i += 1;
        assert(r@ =~= old(r)@ + s@.take(i as int));
    }
    assert(s@.take(s.len() as int) =~= s@);
}

pub fn concat(a: &Vec<char>, b: &Vec<char>) -> (r: Vec<char>)
    ensures
        r@ == a@ + b@,
{
    let mut r = a.clone();
    append(&mut r, b);
    r
}

pub fn eq_chars(a: &Vec<char>, b: &Vec<char>) -> (r: bool)
    ensures
        r == (a@ == b@),
{
    if a.len() != b.len() {
        return false;
    }
    let mut i: usize = 0;
    while i < a.len()
        invariant
            i <= a.len() == b.len(),
            forall|j: int| 0 <= j < i ==> a@[j] == b@[j],
        decreases a.len() - i,
    {
        if a[i] != b[i] {
            return false;
        }
        i += 1;
    }
    assert(a@ =~= b@);
    true
}

pub open spec fn starts_with(s: Seq<char>, p: Seq<char>) -> bool {
    p.len() <= s.len() && s.take(p.len() as int) == p
}

pub open spec fn ends_with(s: Seq<char>, p: Seq<char>) -> bool {
    p.len() <= s.len() && s.skip(s.len() - p.len()) == p
}

/// Does `p` occur in `s` at position `at`?
pub open spec fn occurs_at(s: Seq<char>, p: Seq<char>, at: int) -> bool {
    0 <= at && at + p.len() <= s.len() && s.subrange(at, at + p.len()) == p
}

pub fn occurs_at_exec(s: &Vec<char>, p: &Vec<char>, at: usize) -> (r: bool)
    ensures
        r == occurs_at(s@, p@, at as int),
{
    if at > s.len() || p.len() > s.len() - at {
        return false;
    }
    let mut j: usize = 0;
    while j < p.len()
        invariant
            at + p.len() <= s.len(),
            j <= p.len(),
            forall|k: int| 0 <= k < j ==> s@[at + k] == p@[k],
        decreases p.len() - j,
    {
        if s[at + j] != p[j] {
            assert(s@.subrange(at as int, at + p.len())[j as int] != p@[j as int]);
            return false;
        }
        j += 1;
    }
    assert(s@.subrange(at as int, at + p.len()) =~= p@);
    true
}

pub fn starts_with_exec(s: &Vec<char>, p: &Vec<char>) -> (r: bool)
    ensures
        r == starts_with(s@, p@),
{
    let r = occurs_at_exec(s, p, 0);
    proof {
        if p@.len() <= s@.len() {
            assert(s@.subrange(0, p@.len() as int) =~= s@.take(p@.len() as int));
        }
    }
    r
}

pub fn ends_with_exec(s: &Vec<char>, p: &Vec<char>) -> (r: bool)
    ensures
        r == ends_with(s@, p@),
{
    if p.len() > s.len() {
        return false;
    }
    let r = occurs_at_exec(s, p, s.len() - p.len());
    proof {
        assert(s@.subrange(s@.len() - p@.len(), s@.len() as int) =~= s@.skip(
            s@.len() - p@.len(),
        ));
    }
    r
}

/// Index of the first occurrence of `c` in `s`, if any.
pub open spec fn find_char(s: Seq<char>, c: char) -> Option<int>
    decreases s.len(),
{
    if s.len() == 0 {
        None
    } else if s[0] == c {
        Some(0)
    } else {
        match find_char(s.drop_first(), c) {
            Some(i) => Some(i + 1),
            None => None,
        }
    }
}

pub proof fn lemma_find_char(s: Seq<char>, c: char)
    ensures
        match find_char(s, c) {
            Some(i) => 0 <= i < s.len() && s[i] == c && forall|j: int| 0 <= j < i ==> s[j] != c,
            None => forall|j: int| 0 <= j < s.len() ==> s[j] != c,
        },
    decreases s.len(),
{
    if s.len() > 0 && s[0] != c {
        lemma_find_char(s.drop_first(), c);
        match find_char(s.drop_first(), c) {
            Some(i) => {
                assert forall|j: int| 0 <= j < i + 1 implies s[j] != c by {
                    if j > 0 {
                        assert(s[j] == s.drop_first()[j - 1]);
                    }
                }
            },
            None => {
                assert forall|j: int| 0 <= j < s.len() implies s[j] != c by {
                    if j > 0 {
                        assert(s[j] == s.drop_first()[j - 1]);
                    }
                }
            },
        }
    }
}

/// A position `i` is the first occurrence of `c` iff it holds `c` and
/// nothing before it does.
pub proof fn lemma_find_char_unique(s: Seq<char>, c: char, i: int)
    requires
        0 <= i < s.len(),
        s[i] == c,
        forall|j: int| 0 <= j < i ==> s[j] != c,
    ensures
        find_char(s, c) == Some(i),
{
    lemma_find_char(s, c);
}

pub proof fn lemma_find_char_none(s: Seq<char>, c: char)
    requires
        forall|j: int| 0 <= j < s.len() ==> s[j] != c,
    ensures
        find_char(s, c) == None::<int>,
{
    lemma_find_char(s, c);
}

pub fn find_char_exec(s: &Vec<char>, c: char) -> (r: Option<usize>)
    ensures
        match r {
            Some(i) => find_char(s@, c) == Some(i as int),
            None => find_char(s@, c) == None::<int>,
        },
{
    let mut i: usize = 0;
    while i < s.len()
        invariant
            i <= s.len(),
            forall|j: int| 0 <= j < i ==> s@[j] != c,
        decreases s.len() - i,
    {
        if s[i] == c {
            proof {
                lemma_find_char_unique(s@, c, i as int);
            }
            return Some(i);
        }
        i += 1;
    }
    proof {
        lemma_find_char_none(s@, c);
    }
    None
}

pub open spec fn contains_char(s: Seq<char>, c: char) -> bool {
    exists|i: int| 0 <= i < s.len() && s[i] == c
}

pub fn contains_char_exec(s: &Vec<char>, c: char) -> (r: bool)
    ensures
        r == contains_char(s@, c),
{
    let mut i: usize = 0;
    while i < s.len()
        invariant
            i <= s.len(),
            forall|j: int| 0 <= j < i ==> s@[j] != c,
        decreases s.len() - i,
    {
        if s[i] == c {
            return true;
        }
        i += 1;
    }
    false
}

// ---------------------------------------------------------------------------
// Trimming
// ---------------------------------------------------------------------------

/// `str::trim_start`.
pub open spec fn trim_start(s: Seq<char>) -> Seq<char>
    decreases s.len(),
{
    if s.len() > 0 && is_ws(s[0]) {
        trim_start(s.drop_first())
    } else {
        s
    }
}

/// `str::trim_end`.
pub open spec fn trim_end(s: Seq<char>) -> Seq<char>
    decreases s.len(),
{
    if s.len() > 0 && is_ws(s.last()) {
        trim_end(s.drop_last())
    } else {
        s
    }
}

/// `str::trim`.
pub open spec fn trim(s: Seq<char>) -> Seq<char> {
    trim_end(trim_start(s))
}

/// `trim_end_matches([' ', '\t'])`.
pub open spec fn trim_end_blank(s: Seq<char>) -> Seq<char>
    decreases s.len(),
{
    if s.len() > 0 && (s.last() == ' ' || s.last() == '\t') {
        trim_end_blank(s.drop_last())
    } else {
        s
    }
}

/// Is every character whitespace (`str::chars().all(char::is_whitespace)`)?
pub open spec fn all_ws(s: Seq<char>) -> bool {
    forall|i: int| 0 <= i < s.len() ==> is_ws(s[i])
}

pub proof fn lemma_trim_start_skip(s: Seq<char>, i: int)
    requires
        0 <= i <= s.len(),
        forall|j: int| 0 <= j < i ==> is_ws(s[j]),
    ensures
        trim_start(s) == trim_start(s.skip(i)),
    decreases i,
{
    if i > 0 {
        assert(s.skip(1) =~= s.drop_first());
        lemma_trim_start_skip(s.drop_first(), i - 1);
        assert(s.drop_first().skip(i - 1) =~= s.skip(i));
    } else {
        assert(s.skip(0) =~= s);
    }
}

pub proof fn lemma_trim_end_take(s: Seq<char>, i: int)
    requires
        0 <= i <= s.len(),
        forall|j: int| i <= j < s.len() ==> is_ws(s[j]),
    ensures
        trim_end(s) == trim_end(s.take(i)),
    decreases s.len() - i,
{
    if i < s.len() {
        lemma_trim_end_take(s.drop_last(), i);
        assert(s.drop_last().take(i) =~= s.take(i));
    } else {
        assert(s.take(i) =~= s);
    }
}

pub proof fn lemma_trim_all_ws(s: Seq<char>)
    ensures
        trim_start(s).len() == 0 <==> all_ws(s),
        trim(s).len() == 0 <==> all_ws(s),
    decreases s.len(),
{
    if s.len() > 0 {
        lemma_trim_all_ws(s.drop_first());
        if is_ws(s[0]) {
            if all_ws(s.drop_first()) {
                assert forall|i: int| 0 <= i < s.len() implies is_ws(s[i]) by {
                    if i > 0 {
                        assert(s[i] == s.drop_first()[i - 1]);
                    }
                }
            } else {
                assert(!all_ws(s)) by {
                    let k = choose|k: int| 0 <= k < s.drop_first().len() && !is_ws(s.drop_first()[k]);
                    assert(s[k + 1] == s.drop_first()[k]);
                }
            }
        }
    }
    lemma_trim_end_empty(trim_start(s));
}

pub proof fn lemma_trim_end_empty(s: Seq<char>)
    ensures
        trim_end(s).len() == 0 <==> all_ws(s),
        trim_start(s).len() == 0 ==> trim_end(s).len() == 0,
    decreases s.len(),
{
    if s.len() > 0 {
        lemma_trim_end_empty(s.drop_last());
        lemma_trim_start_len(s);
        if is_ws(s.last()) {
            if all_ws(s.drop_last()) {
                assert forall|i: int| 0 <= i < s.len() implies is_ws(s[i]) by {
                    if i < s.len() - 1 {
                        assert(s[i] == s.drop_last()[i]);
                    }
                }
            } else {
                assert(!all_ws(s)) by {
                    let k = choose|k: int| 0 <= k < s.drop_last().len() && !is_ws(s.drop_last()[k]);
                    assert(s[k] == s.drop_last()[k]);
                }
            }
        }
        if trim_start(s).len() == 0 {
            lemma_trim_start_all(s);
        }
    }
}

pub proof fn lemma_trim_start_len(s: Seq<char>)
    ensures
        trim_start(s).len() <= s.len(),
        trim_start(s).len() == 0 || !is_ws(trim_start(s)[0]),
    decreases s.len(),
{
    if s.len() > 0 && is_ws(s[0]) {
        lemma_trim_start_len(s.drop_first());
    }
}

pub proof fn lemma_trim_start_all(s: Seq<char>)
    requires
        trim_start(s).len() == 0,
    ensures
        all_ws(s),
    decreases s.len(),
{
    if s.len() > 0 {
        assert(is_ws(s[0]));
        lemma_trim_start_all(s.drop_first());
        assert forall|i: int| 0 <= i < s.len() implies is_ws(s[i]) by {
            if i > 0 {
                assert(s[i] == s.drop_first()[i - 1]);
            }
        }
    }
}

pub proof fn lemma_trim_end_props(x: Seq<char>)
    ensures
        trim_end(x).len() <= x.len(),
        trim_end(x) == x.take(trim_end(x).len() as int),
        trim_end(x).len() > 0 ==> !is_ws(trim_end(x).last()),
    decreases x.len(),
{
    if x.len() > 0 && is_ws(x.last()) {
        lemma_trim_end_props(x.drop_last());
        assert(x.drop_last().take(trim_end(x).len() as int) =~= x.take(trim_end(x).len() as int));
    } else {
        assert(x.take(x.len() as int) =~= x);
    }
}

/// A non-empty trimmed text starts and ends with non-whitespace.
pub proof fn lemma_trim_bounds(s: Seq<char>)
    ensures
        trim(s).len() > 0 ==> !is_ws(trim(s)[0]) && !is_ws(trim(s).last()),
{
    lemma_trim_start_len(s);
    let x = trim_start(s);
    lemma_trim_end_props(x);
    if trim(s).len() > 0 {
        assert(trim(s)[0] == x[0]);
    }
}

/// Position of the first non-whitespace character (or `s.len()`).
pub fn ws_prefix_len(s: &Vec<char>, lo: usize, hi: usize) -> (k: usize)
    requires
        lo <= hi <= s.len(),
    ensures
        lo <= k <= hi,
        forall|j: int| lo <= j < k ==> is_ws(s@[j]),
        k < hi ==> !is_ws(s@[k as int]),
{
    let mut k = lo;
    while k < hi && is_whitespace(s[k])
        invariant
            lo <= k <= hi <= s.len(),
            forall|j: int| lo <= j < k ==> is_ws(s@[j]),
        decreases hi - k,
    {
        k += 1;
    }
    k
}

/// Position just after the last non-whitespace character in `[lo, hi)`.
pub fn ws_suffix_start(s: &Vec<char>, lo: usize, hi: usize) -> (k: usize)
    requires
        lo <= hi <= s.len(),
    ensures
        lo <= k <= hi,
        forall|j: int| k <= j < hi ==> is_ws(s@[j]),
        k > lo ==> !is_ws(s@[k - 1]),
{
    let mut k = hi;
    while k > lo && is_whitespace(s[k - 1])
        invariant
            lo <= k <= hi <= s.len(),
            forall|j: int| k <= j < hi ==> is_ws(s@[j]),
        decreases k - lo,
    {
        k -= 1;
    }
    k
}

pub proof fn lemma_trim_start_at(s: Seq<char>, k: int)
    requires
        0 <= k <= s.len(),
        forall|j: int| 0 <= j < k ==> is_ws(s[j]),
        k < s.len() ==> !is_ws(s[k]),
    ensures
        trim_start(s) == s.skip(k),
{
    lemma_trim_start_skip(s, k);
    if k < s.len() {
        assert(s.skip(k)[0] == s[k]);
    }
}

pub proof fn lemma_trim_end_at(s: Seq<char>, k: int)
    requires
        0 <= k <= s.len(),
        forall|j: int| k <= j < s.len() ==> is_ws(s[j]),
        k > 0 ==> !is_ws(s[k - 1]),
    ensures
        trim_end(s) == s.take(k),
{
    lemma_trim_end_take(s, k);
    if k > 0 {
        assert(s.take(k).last() == s[k - 1]);
    }
}

/// `trim` of a sub-range `[lo, hi)` of `s`, as positions.
pub fn trim_range(s: &Vec<char>, lo: usize, hi: usize) -> (r: (usize, usize))
    requires
        lo <= hi <= s.len(),
    ensures
        lo <= r.0 <= r.1 <= hi,
        s@.subrange(r.0 as int, r.1 as int) == trim(s@.subrange(lo as int, hi as int)),
        trim_start(s@.subrange(lo as int, hi as int)) == s@.subrange(r.0 as int, hi as int),
{
    let a = ws_prefix_len(s, lo, hi);
    let b = ws_suffix_start(s, a, hi);
    proof {
        let t = s@.subrange(lo as int, hi as int);
        lemma_trim_start_at(t, a - lo);
        assert(t.skip(a - lo) =~= s@.subrange(a as int, hi as int));
        let u = s@.subrange(a as int, hi as int);
        lemma_trim_end_at(u, b - a);
        assert(u.take(b - a) =~= s@.subrange(a as int, b as int));
    }
    (a, b)
}

pub fn trim_vec(s: &Vec<char>) -> (r: Vec<char>)
    ensures
        r@ == trim(s@),
{
    let (a, b) = trim_range(s, 0, s.len());
    assert(s@.subrange(0, s@.len() as int) =~= s@);
    slice_of(s, a, b)
}

pub fn trim_start_vec(s: &Vec<char>) -> (r: Vec<char>)
    ensures
        r@ == trim_start(s@),
{
    let (a, _b) = trim_range(s, 0, s.len());
    assert(s@.subrange(0, s@.len() as int) =~= s@);
    slice_of(s, a, s.len())
}

pub fn trim_end_vec(s: &Vec<char>) -> (r: Vec<char>)
    ensures
        r@ == trim_end(s@),
{
    let b = ws_suffix_start(s, 0, s.len());
    proof {
        lemma_trim_end_at(s@, b as int);
        assert(s@.take(b as int) =~= s@.subrange(0, b as int));
    }
    slice_of(s, 0, b)
}

pub fn all_ws_exec(s: &Vec<char>) -> (r: bool)
    ensures
        r == all_ws(s@),
{
    let k = ws_prefix_len(s, 0, s.len());
    k == s.len()
}

// ---------------------------------------------------------------------------
// split / join
// ---------------------------------------------------------------------------

/// `str::split(c)`: defined from the right so that a left-to-right scan
/// extends it one character at a time.
pub open spec fn split(s: Seq<char>, c: char) -> Seq<Seq<char>>
    decreases s.len(),
{
    if s.len() == 0 {
        seq![Seq::<char>::empty()]
    } else {
        let rest = split(s.drop_last(), c);
        if s.last() == c {
            rest.push(Seq::<char>::empty())
        } else {
            rest.update(rest.len() - 1, rest.last().push(s.last()))
        }
    }
}

pub proof fn lemma_split_len(s: Seq<char>, c: char)
    ensures
        split(s, c).len() >= 1,
    decreases s.len(),
{
    if s.len() > 0 {
        lemma_split_len(s.drop_last(), c);
    }
}

/// `[T]::join(sep)` on character sequences.
pub open spec fn join(parts: Seq<Seq<char>>, sep: Seq<char>) -> Seq<char>
    decreases parts.len(),
{
    if parts.len() == 0 {
        Seq::<char>::empty()
    } else if parts.len() == 1 {
        parts[0]
    } else {
        join(parts.drop_last(), sep) + sep + parts.last()
    }
}

/// Splitting on `c` and joining back with `c` gives the input back.
pub proof fn lemma_join_split(s: Seq<char>, c: char)
    ensures
        join(split(s, c), seq![c]) == s,
    decreases s.len(),
{
    if s.len() == 0 {
    } else {
        let p = s.drop_last();
        lemma_join_split(p, c);
        lemma_split_len(p, c);
        let rest = split(p, c);
        if s.last() == c {
            assert(split(s, c).drop_last() =~= rest);
            assert(join(split(s, c), seq![c]) =~= p + seq![c]);
        } else {
            lemma_join_update_last(rest, seq![c], s.last());
        }
        assert(p.push(s.last()) =~= s);
    }
}

/// Appending a character to the last part appends it to the join.
pub proof fn lemma_join_update_last(parts: Seq<Seq<char>>, sep: Seq<char>, x: char)
    requires
        parts.len() >= 1,
    ensures
        join(parts.update(parts.len() - 1, parts.last().push(x)), sep) == join(parts, sep).push(x),
{
    let q = parts.update(parts.len() - 1, parts.last().push(x));
    if parts.len() == 1 {
    } else {
        assert(q.drop_last() =~= parts.drop_last());
    }
}


pub fn split_vec(s: &Vec<char>, c: char) -> (r: Vec<Vec<char>>)
    ensures
        r@.map_values(|v: Vec<char>| v@) == split(s@, c),
{
    let mut r: Vec<Vec<char>> = Vec::new();
    r.push(Vec::new());
    let mut i: usize = 0;
    proof {
        assert(s@.take(0) =~= Seq::<char>::empty());
        assert(r@.map_values(|v: Vec<char>| v@) =~= split(s@.take(0), c));
    }
    while i < s.len()
        invariant
            i <= s.len(),
            r.len() >= 1,
            r@.map_values(|v: Vec<char>| v@) == split(s@.take(i as int), c),
        decreases s.len() - i,
    {
        let ch = s[i];
        let ghost prev = r@.map_values(|v: Vec<char>| v@);
        if ch == c {
            r.push(Vec::new());
        } else {
            let last = r.len() - 1;
            let mut tail = r.pop().unwrap();
            tail.push(ch);
            r.push(tail);
            assert(r@.map_values(|v: Vec<char>| v@) =~= prev.update(
                prev.len() - 1,
                prev.last().push(ch),
            ));
        }
        i += 1;
        assert(s@.take(i as int).drop_last() =~= s@.take(i - 1));
    }
    assert(s@.take(s.len() as int) =~= s@);
    r
}

pub fn join_vec(parts: &Vec<Vec<char>>, sep: &Vec<char>) -> (r: Vec<char>)
    ensures
        r@ == join(parts@.map_values(|v: Vec<char>| v@), sep@),
{
    let ghost ps = parts@.map_values(|v: Vec<char>| v@);
    if parts.len() == 0 {
        return Vec::new();
    }
    let mut r = parts[0].clone();
    let mut i: usize = 1;
    proof {
        assert(ps.take(1) =~= seq![ps[0]]);
    }
    while i < parts.len()
        invariant
            1 <= i <= parts.len(),
            ps == parts@.map_values(|v: Vec<char>| v@),
            r@ == join(ps.take(i as int), sep@),
        decreases parts.len() - i,
    {
        append(&mut r, sep);
        append(&mut r, &parts[i]);
        i += 1;
        assert(ps.take(i as int).drop_last() =~= ps.take(i - 1));
    }
    assert(ps.take(parts.len() as int) =~= ps);
    r
}

/// `"x".repeat(n)` for a single character.
pub open spec fn repeat(c: char, n: nat) -> Seq<char> {
    Seq::new(n, |i: int| c)
}

pub fn repeat_vec(c: char, n: usize) -> (r: Vec<char>)
    ensures
        r@ == repeat(c, n as nat),
{
    let mut r: Vec<char> = Vec::new();
    let mut i: usize = 0;
    while i < n
        invariant
            i <= n,
            r@ == repeat(c, i as nat),
        decreases n - i,
    {
        r.push(c);
        i += 1;
        assert(r@ =~= repeat(c, i as nat));
    }
    r
}

/// Push every character of `s` onto `r`.
pub fn push_str(r: &mut Vec<char>, s: &str)
    ensures
        final(r)@ == old(r)@ + s@,
{
    let v = chars_of(s);
    append(r, &v);
}

// ---------------------------------------------------------------------------
// Stripping one character
// ---------------------------------------------------------------------------

/// `trim_start_matches(c)`.
pub open spec fn strip_start(s: Seq<char>, c: char) -> Seq<char>
    decreases s.len(),
{
    if s.len() > 0 && s[0] == c {
        strip_start(s.drop_first(), c)
    } else {
        s
    }
}

/// `trim_end_matches(c)`.
pub open spec fn strip_end(s: Seq<char>, c: char) -> Seq<char>
    decreases s.len(),
{
    if s.len() > 0 && s.last() == c {
        strip_end(s.drop_last(), c)
    } else {
        s
    }
}

pub proof fn lemma_strip_start(s: Seq<char>, c: char, k: int)
    requires
        0 <= k <= s.len(),
        forall|j: int| 0 <= j < k ==> s[j] == c,
        k < s.len() ==> s[k] != c,
    ensures
        strip_start(s, c) == s.skip(k),
    decreases k,
{
    if k > 0 {
        lemma_strip_start(s.drop_first(), c, k - 1);
        assert(s.drop_first().skip(k - 1) =~= s.skip(k));
    } else {
        assert(s.skip(0) =~= s);
    }
}

pub proof fn lemma_strip_end(s: Seq<char>, c: char, k: int)
    requires
        0 <= k <= s.len(),
        forall|j: int| k <= j < s.len() ==> s[j] == c,
        k > 0 ==> s[k - 1] != c,
    ensures
        strip_end(s, c) == s.take(k),
    decreases s.len() - k,
{
    if k < s.len() {
        lemma_strip_end(s.drop_last(), c, k);
        assert(s.drop_last().take(k) =~= s.take(k));
    } else {
        assert(s.take(k) =~= s);
    }
}

/// `trim_matches(c)`: `v` without the leading and trailing `c`s.
pub fn strip_both_vec(v: &Vec<char>, c: char) -> (r: Vec<char>)
    ensures
        r@ == strip_end(strip_start(v@, c), c),
{
    let mut a: usize = 0;
    while a < v.len() && v[a] == c
        invariant
            a <= v.len(),
            forall|j: int| 0 <= j < a ==> v@[j] == c,
        decreases v.len() - a,
    {
        a += 1;
    }
    let mut b = v.len();
    while b > a && v[b - 1] == c
        invariant
            a <= b <= v.len(),
            forall|j: int| b <= j < v.len() ==> v@[j] == c,
        decreases b - a,
    {
        b -= 1;
    }
    proof {
        lemma_strip_start(v@, c, a as int);
        let x = v@.skip(a as int);
        assert forall|j: int| (b - a) <= j < x.len() implies x[j] == c by {
            assert(x[j] == v@[a + j]);
        }
        if b > a {
            assert(x[b - a - 1] == v@[b - 1]);
        }
        lemma_strip_end(x, c, (b - a) as int);
        assert(x.take((b - a) as int) =~= v@.subrange(a as int, b as int));
    }
    slice_of(v, a, b)
}

} // verus!
