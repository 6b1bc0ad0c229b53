//! The file tree: the order of its entries (directories before files,
//! each group alphabetical, with dotfiles first inside a group; entries
//! missing from the tree's map sort before present ones), and the
//! decisions of its inline editor.

pub mod editing;

use vstd::prelude::*;
use std::cmp::Ordering;
use crate::text::{chars_of_string, starts_with};

verus! {

/// What the ordering reads of a present entry: whether it is a directory,
/// and its file name (none for a path without one).
#[derive(Debug, Clone, PartialEq, Eq)]
pub struct TreeEntryKey {
    pub is_dir: bool,
    pub name: Option<String>,
}

pub struct TreeKeyV {
    pub is_dir: bool,
    pub name: Option<Seq<char>>,
}

impl View for TreeEntryKey {
    type V = TreeKeyV;

    open spec fn view(&self) -> TreeKeyV {
        TreeKeyV {
            is_dir: self.is_dir,
            name: match self.name {
                Some(n) => Some(n@),
                None => None,
            },
        }
    }
}

/// Lexicographic comparison of two names by character, as a sign: `-1`,
/// `0` or `1`. (On UTF-8 text this is the byte order `str::cmp` uses.)
pub open spec fn lex_sign(a: Seq<char>, b: Seq<char>) -> int
    decreases a.len(),
{
    if a.len() == 0 {
        if b.len() == 0 {
            0
        } else {
            -1
        }
    } else if b.len() == 0 {
        1
    } else if a[0] < b[0] {
        -1
    } else if b[0] < a[0] {
        1
    } else {
        lex_sign(a.drop_first(), b.drop_first())
    }
}

/// The comparison of two entries as a sign; `None` stands for an entry
/// missing from the map.
pub open spec fn tree_sign(e1: Option<TreeKeyV>, e2: Option<TreeKeyV>) -> int {
    match (e1, e2) {
        (None, None) => 0,
        (None, Some(_)) => -1,
        (Some(_), None) => 1,
        (Some(a), Some(b)) => if a.is_dir && !b.is_dir {
            -1
        } else if !a.is_dir && b.is_dir {
            1
        } else {
            match (a.name, b.name) {
                (None, None) => 0,
                (None, Some(_)) => -1,
                (Some(_), None) => 1,
                (Some(n1), Some(n2)) => {
                    let dot1 = starts_with(n1, seq!['.']);
                    let dot2 = starts_with(n2, seq!['.']);
                    if dot1 && !dot2 {
                        -1
                    } else if !dot1 && dot2 {
                        1
                    } else {
                        lex_sign(n1, n2)
                    }
                },
            }
        },
    }
}

pub open spec fn ordering_of(sign: int) -> Ordering {
    if sign < 0 {
        Ordering::Less
    } else if sign == 0 {
        Ordering::Equal
    } else {
        Ordering::Greater
    }
}

pub open spec fn key_view(e: Option<&TreeEntryKey>) -> Option<TreeKeyV> {
    match e {
        Some(k) => Some(k@),
        None => None,
    }
}

fn lex_sign_exec(a: &Vec<char>, b: &Vec<char>) -> (r: i8)
    ensures
        r == lex_sign(a@, b@),
{
    let mut i: usize = 0;
    assert(a@.skip(0) =~= a@ && b@.skip(0) =~= b@);
    while i < a.len() && i < b.len()
        invariant
            i <= a.len(),
            i <= b.len(),
            lex_sign(a@, b@) == lex_sign(a@.skip(i as int), b@.skip(i as int)),
        decreases a.len() - i,
    {
        if a[i] < b[i] {
            return -1;
        }
        if b[i] < a[i] {
            return 1;
        }
        assert(a@.skip(i as int).drop_first() =~= a@.skip(i + 1));
        assert(b@.skip(i as int).drop_first() =~= b@.skip(i + 1));
        i += 1;
    }
    if i == a.len() {
        if i == b.len() {
            0
        } else {
            -1
        }
    } else {
        1
    }
}

fn starts_with_dot(n: &Vec<char>) -> (r: bool)
    ensures
        r == starts_with(n@, seq!['.']),
{
    let r = n.len() > 0 && n[0] == '.';
    proof {
        if n.len() > 0 {
            assert(n@.take(1) =~= seq![n@[0]]);
            assert(seq!['.'][0] == '.');
            assert(n@.take(1)[0] == n@[0]);
        }
    }
    r
}

fn tree_sign_exec(entry_1: Option<&TreeEntryKey>, entry_2: Option<&TreeEntryKey>) -> (r: i8)
    ensures
        r == tree_sign(key_view(entry_1), key_view(entry_2)),
{
    let (a, b) = match (entry_1, entry_2) {
        (None, None) => {
            return 0;
        },
        (None, Some(_)) => {
            return -1;
        },
        (Some(_), None) => {
            return 1;
        },
        (Some(a), Some(b)) => (a, b),
    };
    if a.is_dir && !b.is_dir {
        return -1;
    }
    if !a.is_dir && b.is_dir {
        return 1;
    }
    let (n1, n2) = match (&a.name, &b.name) {
        (None, None) => {
            return 0;
        },
        (None, Some(_)) => {
            return -1;
        },
        (Some(_), None) => {
            return 1;
        },
        (Some(n1), Some(n2)) => (chars_of_string(n1), chars_of_string(n2)),
    };
    let dot1 = starts_with_dot(&n1);
    let dot2 = starts_with_dot(&n2);
    if dot1 && !dot2 {
        -1
    } else if !dot1 && dot2 {
        1
    } else {
        lex_sign_exec(&n1, &n2)
    }
}

/// Orders two entries of the file tree; `None` is an entry missing from the
/// tree's map. Directories come before files; within each group dotfiles
/// come first, then names in alphabetical order. Entries missing from the
/// map sort before present ones and equal to each other, and so do
/// entries without a file name among their group.
pub fn sort_entries_for_file_tree(
    entry_1: Option<&TreeEntryKey>,
    entry_2: Option<&TreeEntryKey>,
) -> (r: Ordering)
    ensures
        r == ordering_of(tree_sign(key_view(entry_1), key_view(entry_2))),
{
    let s = tree_sign_exec(entry_1, entry_2);
    if s < 0 {
        Ordering::Less
    } else if s == 0 {
        Ordering::Equal
    } else {
        Ordering::Greater
    }
}

// ---------------------------------------------------------------------------
// Laws
// ---------------------------------------------------------------------------

proof fn lemma_lex_antisymmetric(a: Seq<char>, b: Seq<char>)
    ensures
        lex_sign(a, b) == -lex_sign(b, a),
        lex_sign(a, b) == 0 <==> a == b,
    decreases a.len(),
{
    if a.len() > 0 && b.len() > 0 && a[0] == b[0] {
        lemma_lex_antisymmetric(a.drop_first(), b.drop_first());
        if a.drop_first() == b.drop_first() {
            assert(a =~= seq![a[0]] + a.drop_first());
            assert(b =~= seq![b[0]] + b.drop_first());
        }
    } else if a.len() > 0 && b.len() > 0 {
        assert(a[0] != b[0]);
    } else if a.len() == 0 && b.len() == 0 {
        assert(a =~= b);
    }
}

proof fn lemma_lex_transitive(a: Seq<char>, b: Seq<char>, c: Seq<char>)
    requires
        lex_sign(a, b) <= 0,
        lex_sign(b, c) <= 0,
    ensures
        lex_sign(a, c) <= 0,
        lex_sign(a, b) < 0 || lex_sign(b, c) < 0 ==> lex_sign(a, c) < 0,
    decreases a.len(),
{
    lemma_lex_antisymmetric(a, b);
    lemma_lex_antisymmetric(b, c);
    if a.len() > 0 && b.len() > 0 && c.len() > 0 && a[0] == b[0] && b[0] == c[0] {
        lemma_lex_transitive(a.drop_first(), b.drop_first(), c.drop_first());
    }
}

/// The file-tree order is antisymmetric: swapping the entries flips the
/// result, and only equal keys compare equal among named entries.
pub proof fn law_file_tree_order_antisymmetric(e1: Option<TreeKeyV>, e2: Option<TreeKeyV>)
    ensures
        tree_sign(e1, e2) == -tree_sign(e2, e1),
{
    match (e1, e2) {
        (Some(a), Some(b)) => match (a.name, b.name) {
            (Some(n1), Some(n2)) => lemma_lex_antisymmetric(n1, n2),
            _ => {},
        },
        _ => {},
    }
}

/// The file-tree order is transitive, so sorting with it is well defined.
pub proof fn law_file_tree_order_transitive(
    e1: Option<TreeKeyV>,
    e2: Option<TreeKeyV>,
    e3: Option<TreeKeyV>,
)
    requires
        tree_sign(e1, e2) <= 0,
        tree_sign(e2, e3) <= 0,
    ensures
        tree_sign(e1, e3) <= 0,
{
    match (e1, e2, e3) {
        (Some(a), Some(b), Some(c)) => match (a.name, b.name, c.name) {
            (Some(n1), Some(n2), Some(n3)) => {
                if a.is_dir == b.is_dir && b.is_dir == c.is_dir {
                    let d1 = starts_with(n1, seq!['.']);
                    let d2 = starts_with(n2, seq!['.']);
                    let d3 = starts_with(n3, seq!['.']);
                    if d1 == d2 && d2 == d3 {
                        lemma_lex_transitive(n1, n2, n3);
                    }
                }
            },
            _ => {},
        },
        _ => {},
    }
}

} // verus!
