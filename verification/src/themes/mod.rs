//! Helpers of the theme importer that do not touch colors: the theme modes
//! and gamut policies, the file name a theme is saved under, and the
//! dialog that drives an import.

pub mod tweakcn;
pub mod import_modal;

use vstd::prelude::*;
use crate::text::{
    ascii_lower, chars_of, is_ascii_alnum, lower_seq, string_of, strip_both_vec, strip_end,
    strip_start, to_ascii_lower,
};

verus! {

/// Which color block of an export a theme is made from.
#[derive(Clone, Copy, Debug, PartialEq, Eq, Structural)]
pub enum ThemeMode {
    Light,
    Dark,
}

/// What to do with a color outside the sRGB gamut: clamp it, or fail.
#[derive(Clone, Copy, Debug, PartialEq, Eq, Structural)]
pub enum GamutPolicy {
    Clamp,
    Strict,
}

/// The result of `str::to_lowercase` (Unicode lowercase mapping).
pub uninterp spec fn unicode_lowercase(s: Seq<char>) -> Seq<char>;

pub open spec fn all_ascii(s: Seq<char>) -> bool {
    forall|i: int| 0 <= i < s.len() ==> (s[i] as u32) < 128
}

/// Lower-case text as `str::to_lowercase` gives it: on ASCII text the
/// letters `A`-`Z` lowered and the rest kept; otherwise the Unicode mapping.
pub open spec fn lowercase_of(s: Seq<char>) -> Seq<char> {
    if all_ascii(s) {
        lower_seq(s)
    } else {
        unicode_lowercase(s)
    }
}

/// `str::to_lowercase`: on ASCII text it lowers the letters `A`-`Z` and
/// leaves the rest; on other text its result is named.
#[verifier::external_body]
fn to_lowercase(s: &str) -> (r: String)
    ensures
        all_ascii(s@) ==> r@ == lower_seq(s@),
        !all_ascii(s@) ==> r@ == unicode_lowercase(s@),
{
    s.to_lowercase()
}

/// ASCII letters and digits stay, in lower case; anything else becomes `-`.
pub open spec fn slug_char(c: char) -> char {
    if is_ascii_alnum(c) {
        ascii_lower(c)
    } else {
        '-'
    }
}

/// The text with every run of `-` reduced to one, a leading run dropped;
/// and whether it ends in a run of `-`.
pub open spec fn collapse_dashes(s: Seq<char>) -> (Seq<char>, bool)
    decreases s.len(),
{
    if s.len() == 0 {
        (Seq::empty(), true)
    } else {
        let (out, prev_dash) = collapse_dashes(s.drop_last());
        if s.last() == '-' {
            (
                if prev_dash {
                    out
                } else {
                    out.push('-')
                },
                true,
            )
        } else {
            (out.push(s.last()), false)
        }
    }
}

pub open spec fn fallback_slug() -> Seq<char> {
    seq!['i', 'm', 'p', 'o', 'r', 't', 'e', 'd', '-', 't', 'h', 'e', 'm', 'e']
}

/// The file-system-safe name for a theme called `s`.
pub open spec fn slug_of(s: Seq<char>) -> Seq<char> {
    let cleaned = lowercase_of(s).map_values(|c: char| slug_char(c));
    let out = strip_end(strip_start(collapse_dashes(cleaned).0, '-'), '-');
    if out.len() == 0 {
        fallback_slug()
    } else {
        out
    }
}

/// A theme name made file-system safe: lower case, every character other
/// than an ASCII letter or digit replaced by `-`, runs of `-` collapsed and
/// trimmed; `imported-theme` when nothing is left.
pub fn sanitize_slug(s: &str) -> (r: String)
    ensures
        r@ == slug_of(s@),
{
    let lowered = to_lowercase(s);
    let low = chars_of(lowered.as_str());
    let ghost cleaned = low@.map_values(|c: char| slug_char(c));
    let mut out: Vec<char> = Vec::new();
    let mut prev_dash = true;
    let mut i: usize = 0;
    assert(cleaned.take(0) =~= Seq::<char>::empty());
    while i < low.len()
        invariant
            i <= low.len(),
            cleaned == low@.map_values(|c: char| slug_char(c)),
            (out@, prev_dash) == collapse_dashes(cleaned.take(i as int)),
        decreases low.len() - i,
    {
        let x = low[i];
        let c = if ('a' <= x && x <= 'z') || ('A' <= x && x <= 'Z') || ('0' <= x && x <= '9') {
            to_ascii_lower(x)
        } else {
            '-'
        };
        assert(c == cleaned[i as int]);
        assert(cleaned.take(i + 1).drop_last() =~= cleaned.take(i as int));
        if c == '-' {
            if !prev_dash {
                out.push(c);
            }
            prev_dash = true;
        } else {
            out.push(c);
            prev_dash = false;
        }
        i += 1;
    }
    assert(cleaned.take(low.len() as int) =~= cleaned);
    let trimmed = strip_both_vec(&out, '-');
    if trimmed.len() == 0 {
        let f = chars_of("imported-theme");
        proof {
            reveal_strlit("imported-theme");
        }
        assert(f@ =~= fallback_slug());
        string_of(&f)
    } else {
        string_of(&trimmed)
    }
}

/// Safe for a file name: non-empty, only ASCII letters, digits and `-`,
/// no `-` at either end and never two in a row.
pub open spec fn is_safe_slug(s: Seq<char>) -> bool {
    &&& s.len() > 0
    &&& forall|i: int| 0 <= i < s.len() ==> is_ascii_alnum(#[trigger] s[i]) || s[i] == '-'
    &&& s[0] != '-'
    &&& s.last() != '-'
    &&& forall|i: int| 0 <= i < s.len() - 1 ==> !(#[trigger] s[i] == '-' && s[i + 1] == '-')
}

proof fn lemma_collapse(x: Seq<char>)
    requires
        forall|i: int| 0 <= i < x.len() ==> is_ascii_alnum(#[trigger] x[i]) || x[i] == '-',
    ensures
        ({
            let (o, pd) = collapse_dashes(x);
            &&& forall|i: int| 0 <= i < o.len() ==> is_ascii_alnum(#[trigger] o[i]) || o[i] == '-'
            &&& o.len() > 0 ==> o[0] != '-'
            &&& forall|i: int| 0 <= i < o.len() - 1 ==> !(#[trigger] o[i] == '-' && o[i + 1] == '-')
            &&& pd == (o.len() == 0 || o.last() == '-')
        }),
    decreases x.len(),
{
    if x.len() > 0 {
        let d = x.drop_last();
        assert forall|i: int| 0 <= i < d.len() implies is_ascii_alnum(#[trigger] d[i]) || d[i] == '-' by {
            assert(d[i] == x[i]);
        }
        lemma_collapse(d);
        let (o, pd) = collapse_dashes(d);
        let c = x.last();
        assert(is_ascii_alnum(x[x.len() - 1]) || x[x.len() - 1] == '-');
        if c == '-' {
            if !pd {
                let o2 = o.push('-');
                assert forall|i: int| 0 <= i < o2.len() - 1 implies !(#[trigger] o2[i] == '-'
                    && o2[i + 1] == '-') by {
                    if i < o.len() - 1 {
                        assert(o2[i] == o[i] && o2[i + 1] == o[i + 1]);
                    }
                }
                assert forall|i: int| 0 <= i < o2.len() implies is_ascii_alnum(#[trigger] o2[i])
                    || o2[i] == '-' by {
                    if i < o.len() {
                        assert(o2[i] == o[i]);
                    }
                }
            }
        } else {
            let o2 = o.push(c);
            assert forall|i: int| 0 <= i < o2.len() - 1 implies !(#[trigger] o2[i] == '-' && o2[i
                + 1] == '-') by {
                if i < o.len() - 1 {
                    assert(o2[i] == o[i] && o2[i + 1] == o[i + 1]);
                }
            }
            assert forall|i: int| 0 <= i < o2.len() implies is_ascii_alnum(#[trigger] o2[i])
                || o2[i] == '-' by {
                if i < o.len() {
                    assert(o2[i] == o[i]);
                }
            }
        }
    }
}

/// Every slug is safe for a file name: non-empty, made of ASCII letters,
/// digits and single `-`s between them.
pub proof fn law_slug_is_safe(s: Seq<char>)
    ensures
        is_safe_slug(slug_of(s)),
{
    let cleaned = lowercase_of(s).map_values(|c: char| slug_char(c));
    assert forall|i: int| 0 <= i < cleaned.len() implies is_ascii_alnum(#[trigger] cleaned[i])
        || cleaned[i] == '-' by {}
    lemma_collapse(cleaned);
    let o = collapse_dashes(cleaned).0;
    assert(strip_start(o, '-') == o);
    let out = strip_end(o, '-');
    if o.len() > 0 && o.last() == '-' {
        assert(o.len() >= 2);
        assert(!(o[o.len() - 2] == '-' && o[o.len() - 1] == '-'));
        assert(strip_end(o.drop_last(), '-') == o.drop_last());
        assert(out == o.drop_last());
        let d = o.drop_last();
        assert forall|i: int| 0 <= i < d.len() implies is_ascii_alnum(#[trigger] d[i]) || d[i] == '-' by {
            assert(d[i] == o[i]);
        }
        assert forall|i: int| 0 <= i < d.len() - 1 implies !(#[trigger] d[i] == '-' && d[i + 1] == '-') by {
            assert(d[i] == o[i] && d[i + 1] == o[i + 1]);
        }
    } else {
        assert(out == o);
    }
    if out.len() == 0 {
        let f = fallback_slug();
        assert forall|i: int| 0 <= i < f.len() implies is_ascii_alnum(#[trigger] f[i]) || f[i] == '-' by {}
        assert forall|i: int| 0 <= i < f.len() - 1 implies !(#[trigger] f[i] == '-' && f[i + 1] == '-') by {}
    }
}


/// No upper-case ASCII letter.
pub open spec fn no_ascii_upper(s: Seq<char>) -> bool {
    forall|i: int| 0 <= i < s.len() ==> !('A' <= #[trigger] s[i] && s[i] <= 'Z')
}

proof fn lemma_collapse_dashes_only(x: Seq<char>)
    requires
        forall|i: int| 0 <= i < x.len() ==> x[i] == '-',
    ensures
        collapse_dashes(x) == (Seq::<char>::empty(), true),
    decreases x.len(),
{
    if x.len() > 0 {
        lemma_collapse_dashes_only(x.drop_last());
    }
}

proof fn lemma_collapse_safe(x: Seq<char>)
    requires
        x.len() > 0 ==> x[0] != '-',
        forall|i: int| 0 <= i < x.len() - 1 ==> !(#[trigger] x[i] == '-' && x[i + 1] == '-'),
    ensures
        collapse_dashes(x) == (x, x.len() == 0 || x.last() == '-'),
    decreases x.len(),
{
    if x.len() > 0 {
        let d = x.drop_last();
        assert forall|i: int| 0 <= i < d.len() - 1 implies !(#[trigger] d[i] == '-' && d[i + 1] == '-') by {
            assert(d[i] == x[i] && d[i + 1] == x[i + 1]);
        }
        lemma_collapse_safe(d);
        if x.last() == '-' {
            assert(x.len() >= 2);
            assert(!(x[x.len() - 2] == '-' && x[x.len() - 1] == '-'));
            assert(d.last() == x[x.len() - 2]);
        }
        assert(d.push(x.last()) =~= x);
    } else {
        assert(x =~= Seq::<char>::empty());
    }
}

/// A slug is lower case and safe for a file name (non-empty, ASCII letters
/// and digits with single `-`s between them); making a slug of a slug gives
/// it back; and a name whose lower-case form has no ASCII letter or digit
/// becomes `imported-theme`.
pub proof fn law_slug_shape(s: Seq<char>)
    ensures
        is_safe_slug(slug_of(s)),
        no_ascii_upper(slug_of(s)),
        slug_of(slug_of(s)) == slug_of(s),
        (forall|i: int| 0 <= i < lowercase_of(s).len() ==> !is_ascii_alnum(#[trigger] lowercase_of(s)[i]))
            ==> slug_of(s) == fallback_slug(),
{
    law_slug_is_safe(s);
    let t = slug_of(s);
    let cleaned = lowercase_of(s).map_values(|c: char| slug_char(c));
    assert(no_ascii_upper(cleaned));
    lemma_collapse(cleaned);
    let o = collapse_dashes(cleaned).0;
    assert(no_ascii_upper(o)) by {
        lemma_collapse_keeps(cleaned);
    }
    assert(no_ascii_upper(t)) by {
        if t != fallback_slug() {
            lemma_strip_sub(o);
        }
    }
    // The slug of a slug.
    assert(all_ascii(t)) by {
        assert forall|i: int| 0 <= i < t.len() implies (t[i] as u32) < 128 by {
            assert(is_ascii_alnum(t[i]) || t[i] == '-');
        }
    }
    assert(lowercase_of(t) =~= t);
    let ct = t.map_values(|c: char| slug_char(c));
    assert(ct =~= t);
    lemma_collapse_safe(t);
    assert(strip_start(t, '-') == t);
    assert(strip_end(t, '-') == t);
    // No letter or digit at all.
    if forall|i: int| 0 <= i < lowercase_of(s).len() ==> !is_ascii_alnum(#[trigger] lowercase_of(s)[i]) {
        assert forall|i: int| 0 <= i < cleaned.len() implies cleaned[i] == '-' by {
            assert(!is_ascii_alnum(lowercase_of(s)[i]));
        }
        lemma_collapse_dashes_only(cleaned);
        assert(strip_end(strip_start(o, '-'), '-') =~= Seq::<char>::empty());
    }
}

/// Collapsing keeps out upper-case letters that the text lacks.
proof fn lemma_collapse_keeps(x: Seq<char>)
    requires
        no_ascii_upper(x),
    ensures
        no_ascii_upper(collapse_dashes(x).0),
    decreases x.len(),
{
    if x.len() > 0 {
        let d = x.drop_last();
        assert(no_ascii_upper(d)) by {
            assert forall|i: int| 0 <= i < d.len() implies !('A' <= #[trigger] d[i] && d[i] <= 'Z') by {
                assert(d[i] == x[i]);
            }
        }
        lemma_collapse_keeps(d);
        let o = collapse_dashes(d).0;
        assert(!('A' <= x.last() && x.last() <= 'Z'));
        assert forall|i: int| 0 <= i < o.push(x.last()).len() implies !('A' <= #[trigger] o.push(x.last())[i]
            && o.push(x.last())[i] <= 'Z') by {
            if i < o.len() {
                assert(o.push(x.last())[i] == o[i]);
            }
        }
        assert forall|i: int| 0 <= i < o.push('-').len() implies !('A' <= #[trigger] o.push('-')[i] && o.push(
            '-',
        )[i] <= 'Z') by {
            if i < o.len() {
                assert(o.push('-')[i] == o[i]);
            }
        }
    }
}

/// Stripping `-` from both ends keeps out what the text lacks.
proof fn lemma_strip_sub(o: Seq<char>)
    requires
        no_ascii_upper(o),
    ensures
        no_ascii_upper(strip_end(strip_start(o, '-'), '-')),
    decreases o.len(),
{
    if o.len() > 0 && o[0] == '-' {
        let r = o.drop_first();
        assert(no_ascii_upper(r)) by {
            assert forall|i: int| 0 <= i < r.len() implies !('A' <= #[trigger] r[i] && r[i] <= 'Z') by {
                assert(r[i] == o[i + 1]);
            }
        }
        lemma_strip_sub(r);
    } else {
        lemma_strip_end_sub(o);
    }
}

proof fn lemma_strip_end_sub(o: Seq<char>)
    requires
        no_ascii_upper(o),
    ensures
        no_ascii_upper(strip_end(o, '-')),
    decreases o.len(),
{
    if o.len() > 0 && o.last() == '-' {
        let r = o.drop_last();
        assert(no_ascii_upper(r)) by {
            assert forall|i: int| 0 <= i < r.len() implies !('A' <= #[trigger] r[i] && r[i] <= 'Z') by {
                assert(r[i] == o[i]);
            }
        }
        lemma_strip_end_sub(r);
    }
}

} // verus!
