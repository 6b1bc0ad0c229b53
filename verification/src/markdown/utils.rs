//! Identifier generation, deep cloning, escaping and text/span helpers.

use vstd::prelude::*;
use crate::markdown::types::{
    Block, BlockProps, BlockType, BlockV, CalloutProps, CheckListProps, CodeBlockProps,
    HeadingProps, ImageProps, InlineStyle, LineEnding, LinkData, SpanV, TableProps, TextSpan,
    block_type_name, block_view, blocks_view, blocks_view_seq, lemma_blocks_view_seq, opt_str,
    plain_style, spans_view, strs,
};
use crate::text::{
    all_ws, all_ws_exec, append, chars_of, chars_of_string, concat, eq_chars, is_ascii_alnum,
    join, join_vec, repeat, repeat_vec, split, split_vec, string_of, trim, trim_end, trim_end_vec,
    trim_vec,
};

verus! {

// ---------------------------------------------------------------------------
// Identifiers
// ---------------------------------------------------------------------------

pub const DEFAULT_ID_LENGTH: usize = 8;

/// The `i`-th character of `A-Z a-z 0-9`.
pub open spec fn id_char(i: int) -> char {
    if i < 26 {
        (('A' as u32) + i) as char
    } else if i < 52 {
        (('a' as u32) + (i - 26)) as char
    } else {
        (('0' as u32) + (i - 52)) as char
    }
}

pub fn id_char_exec(i: u64) -> (c: char)
    requires
        i < 62,
    ensures
        c == id_char(i as int),
        is_ascii_alnum(c),
{
    let b: u8 = if i < 26 {
        (65 + i) as u8
    } else if i < 52 {
        (97 + (i - 26)) as u8
    } else {
        (48 + (i - 52)) as u8
    };
    b as char
}

/// One step of the xorshift64 generator.
pub open spec fn xorshift64(x: u64) -> u64 {
    let a = x ^ ((x << 13u64) as u64);
    let b = a ^ (a >> 7u64);
    b ^ ((b << 17u64) as u64)
}

pub fn xorshift64_exec(x: u64) -> (r: u64)
    ensures
        r == xorshift64(x),
{
    let a = x ^ (x << 13u64);
    let b = a ^ (a >> 7u64);
    b ^ (b << 17u64)
}

/// The state of the generator after `n` steps from `seed`.
pub open spec fn xorshift_iter(seed: u64, n: nat) -> u64
    decreases n,
{
    if n == 0 {
        seed
    } else {
        xorshift64(xorshift_iter(seed, (n - 1) as nat))
    }
}

/// The identifier of `length` characters drawn from `seed`: character `i`
/// is picked by the generator's `i + 1`-th state modulo 62.
pub open spec fn id_from_seed(seed: u64, length: nat) -> Seq<char> {
    Seq::new(length, |i: int| id_char((xorshift_iter(seed, (i + 1) as nat) % 62) as int))
}

pub open spec fn is_generated_id(s: Seq<char>, length: nat) -> bool {
    exists|seed: u64| seed != 0 && s == id_from_seed(seed, length)
}

/// Generated identifiers have the requested length and are made of ASCII
/// letters and digits.
pub proof fn law_generated_id_is_alphanumeric(s: Seq<char>, length: nat)
    requires
        is_generated_id(s, length),
    ensures
        s.len() == length,
        forall|i: int| 0 <= i < s.len() ==> is_ascii_alnum(#[trigger] s[i]),
{
    let seed = choose|seed: u64| seed != 0 && s == id_from_seed(seed, length);
    assert forall|i: int| 0 <= i < s.len() implies is_ascii_alnum(#[trigger] s[i]) by {
        let k = (xorshift_iter(seed, (i + 1) as nat) % 62) as int;
        assert(0 <= k < 62);
    }
}

/// `RandomState::new`: a hasher builder with fresh random keys.
#[verifier::external_body]
fn fresh_random_state() -> std::collections::hash_map::RandomState {
    std::collections::hash_map::RandomState::new()
}

/// `BuildHasher::hash_one`: hashes `x` under the builder's random keys. The
/// result depends on those keys, so nothing is stated of it.
#[verifier::external_body]
fn hash_one_u64(state: &std::collections::hash_map::RandomState, x: u64) -> u64 {
    std::hash::BuildHasher::hash_one(state, x)
}

/// A fresh non-zero generator seed.
fn random_seed() -> (seed: u64)
    ensures
        seed != 0,
{
    let state = fresh_random_state();
    let h = hash_one_u64(&state, 0);
    if h == 0 {
        0x9E37_79B9_7F4A_7C15
    } else {
        h
    }
}

/// The identifier of `length` characters that the generator draws from a
/// non-zero `seed`.
pub fn id_from_seed_exec(seed: u64, length: usize) -> (r: String)
    requires
        seed != 0,
    ensures
        r@ == id_from_seed(seed, length as nat),
{
    let mut x = seed;
    let mut out: Vec<char> = Vec::new();
    let mut i: usize = 0;
    while i < length
        invariant
            i <= length,
            x == xorshift_iter(seed, i as nat),
            out@ == id_from_seed(seed, i as nat),
        decreases length - i,
    {
        x = xorshift64_exec(x);
        let c = id_char_exec(x % 62);
        out.push(c);
        i += 1;
        assert(out@ =~= id_from_seed(seed, i as nat));
    }
    string_of(&out)
}

/// Generates a random URL-safe ID of the given length.
pub fn generate_id_with_length(length: usize) -> (r: String)
    ensures
        is_generated_id(r@, length as nat),
        r@.len() == length,
{
    let seed = random_seed();
    let r = id_from_seed_exec(seed, length);
    assert(is_generated_id(r@, length as nat));
    r
}

/// Generates a unique 8-character URL-safe block ID.
pub fn generate_id() -> (r: String)
    ensures
        is_generated_id(r@, 8),
        r@.len() == 8,
{
    generate_id_with_length(DEFAULT_ID_LENGTH)
}

// ---------------------------------------------------------------------------
// Cloning
// ---------------------------------------------------------------------------

pub fn clone_opt_string(o: &Option<String>) -> (r: Option<String>)
    ensures
        opt_str(*o) == opt_str(r),
{
    match o {
        Some(s) => Some(s.clone()),
        None => None,
    }
}

pub fn clone_style(s: &InlineStyle) -> (r: InlineStyle)
    ensures
        r@ == s@,
{
    InlineStyle {
        bold: s.bold,
        italic: s.italic,
        underline: s.underline,
        strikethrough: s.strikethrough,
        code: s.code,
        highlight: s.highlight,
        link: match &s.link {
            Some(l) => Some(LinkData { url: l.url.clone(), title: clone_opt_string(&l.title) }),
            None => None,
        },
    }
}

pub fn clone_span(s: &TextSpan) -> (r: TextSpan)
    ensures
        r@ == s@,
{
    TextSpan { text: s.text.clone(), styles: clone_style(&s.styles) }
}

pub fn clone_spans(v: &Vec<TextSpan>) -> (r: Vec<TextSpan>)
    ensures
        spans_view(r@) == spans_view(v@),
{
    let mut r: Vec<TextSpan> = Vec::new();
    let mut i: usize = 0;
    while i < v.len()
        invariant
            i <= v.len(),
            r.len() == i,
            forall|k: int| 0 <= k < i ==> #[trigger] r@[k]@ == v@[k]@,
        decreases v.len() - i,
    {
        r.push(clone_span(&v[i]));
        i += 1;
    }
    assert(spans_view(r@) =~= spans_view(v@));
    r
}

pub fn clone_strings(v: &Vec<String>) -> (r: Vec<String>)
    ensures
        strs(r@) == strs(v@),
{
    let mut r: Vec<String> = Vec::new();
    let mut i: usize = 0;
    while i < v.len()
        invariant
            i <= v.len(),
            r.len() == i,
            forall|k: int| 0 <= k < i ==> #[trigger] r@[k]@ == v@[k]@,
        decreases v.len() - i,
    {
        r.push(v[i].clone());
        i += 1;
    }
    assert(strs(r@) =~= strs(v@));
    r
}

pub fn clone_props(p: &BlockProps) -> (r: BlockProps)
    ensures
        r@ == p@,
{
    match p {
        BlockProps::Empty => BlockProps::Empty,
        BlockProps::Heading(h) => BlockProps::Heading(HeadingProps { level: h.level }),
        BlockProps::CheckList(c) => BlockProps::CheckList(CheckListProps { checked: c.checked }),
        BlockProps::CodeBlock(c) => BlockProps::CodeBlock(
            CodeBlockProps { language: clone_opt_string(&c.language) },
        ),
        BlockProps::Table(t) => {
            let headers = clone_strings(&t.headers);
            let mut rows: Vec<Vec<String>> = Vec::new();
            let mut i: usize = 0;
            while i < t.rows.len()
                invariant
                    i <= t.rows.len(),
                    rows.len() == i,
                    forall|k: int| 0 <= k < i ==> strs(#[trigger] rows@[k]@) == strs(t.rows@[k]@),
                decreases t.rows.len() - i,
            {
                rows.push(clone_strings(&t.rows[i]));
                i += 1;
            }
            assert(rows@.map_values(|r: Vec<String>| strs(r@)) =~= t.rows@.map_values(
                |r: Vec<String>| strs(r@),
            ));
            let alignments = match &t.alignments {
                Some(a) => Some(a.clone()),
                None => None,
            };
            BlockProps::Table(TableProps { headers, rows, alignments })
        },
        BlockProps::Image(im) => BlockProps::Image(
            ImageProps {
                url: im.url.clone(),
                alt: clone_opt_string(&im.alt),
                title: clone_opt_string(&im.title),
                width: im.width,
                height: im.height,
            },
        ),
        BlockProps::Callout(c) => BlockProps::Callout(CalloutProps { callout_type: c.callout_type }),
    }
}

/// The block tree with every identifier emptied.
pub open spec fn erase_ids(b: BlockV) -> BlockV
    decreases b, 0nat,
{
    BlockV { id: Seq::empty(), children: erase_all_ids(b.children), ..b }
}

pub open spec fn erase_all_ids(s: Seq<BlockV>) -> Seq<BlockV>
    decreases s, 1nat,
{
    if s.len() == 0 {
        Seq::empty()
    } else {
        erase_all_ids(s.drop_last()).push(erase_ids(s.last()))
    }
}

pub proof fn lemma_erase_all_ids(s: Seq<BlockV>)
    ensures
        erase_all_ids(s).len() == s.len(),
        forall|i: int| 0 <= i < s.len() ==> #[trigger] erase_all_ids(s)[i] == erase_ids(s[i]),
    decreases s.len(),
{
    if s.len() > 0 {
        lemma_erase_all_ids(s.drop_last());
    }
}

/// Erasing identifiers sequence-wise is erasing them element-wise.
pub proof fn lemma_erase_all_push(s: Seq<BlockV>, b: BlockV)
    ensures
        erase_all_ids(s.push(b)) == erase_all_ids(s).push(erase_ids(b)),
{
    assert(s.push(b).drop_last() =~= s);
}

/// Two block trees agree in everything but their identifiers.
pub open spec fn same_shape(a: BlockV, b: BlockV) -> bool {
    erase_ids(a) == erase_ids(b)
}

/// Every identifier in the tree was freshly generated.
pub open spec fn ids_generated(a: BlockV) -> bool
    decreases a, 0nat,
{
    is_generated_id(a.id, 8) && all_ids_generated(a.children)
}

/// Every identifier in every tree of `s` was freshly generated.
pub open spec fn all_ids_generated(s: Seq<BlockV>) -> bool
    decreases s, 1nat,
{
    s.len() == 0 || (all_ids_generated(s.drop_last()) && ids_generated(s.last()))
}

pub proof fn lemma_all_ids_generated(s: Seq<BlockV>)
    ensures
        all_ids_generated(s) <==> forall|i: int| 0 <= i < s.len() ==> #[trigger] ids_generated(s[i]),
    decreases s.len(),
{
    if s.len() > 0 {
        lemma_all_ids_generated(s.drop_last());
        if forall|i: int| 0 <= i < s.len() ==> #[trigger] ids_generated(s[i]) {
            assert forall|i: int| 0 <= i < s.drop_last().len() implies #[trigger] ids_generated(
                s.drop_last()[i],
            ) by {
                assert(s.drop_last()[i] == s[i]);
            }
            assert(ids_generated(s[s.len() - 1]));
        }
        if all_ids_generated(s) {
            assert forall|i: int| 0 <= i < s.len() implies #[trigger] ids_generated(s[i]) by {
                if i < s.len() - 1 {
                    assert(s.drop_last()[i] == s[i]);
                }
            }
        }
    }
}

/// Deep-clones a block. If `regenerate_ids` is `false`, IDs are preserved.
pub fn deep_clone_block_with(block: &Block, regenerate_ids: bool) -> (r: Block)
    ensures
        !regenerate_ids ==> r@ == block@,
        regenerate_ids ==> same_shape(r@, block@) && ids_generated(r@),
    decreases block,
{
    let id = if regenerate_ids {
        generate_id()
    } else {
        block.id.clone()
    };
    let content = clone_spans(&block.content);
    let mut children: Vec<Block> = Vec::new();
    let mut i: usize = 0;
    proof {
        lemma_blocks_view_seq(block.children@);
    }
    while i < block.children.len()
        invariant
            i <= block.children.len(),
            children.len() == i,
            blocks_view_seq(block.children@).len() == block.children.len(),
            forall|k: int|
                0 <= k < block.children.len() ==> #[trigger] blocks_view_seq(block.children@)[k]
                    == block_view(block.children@[k]),
            forall|k: int|
                0 <= k < i ==> {
                    &&& !regenerate_ids ==> block_view(#[trigger] children@[k]) == block_view(
                        block.children@[k],
                    )
                    &&& regenerate_ids ==> same_shape(
                        block_view(children@[k]),
                        block_view(block.children@[k]),
                    ) && ids_generated(block_view(children@[k]))
                },
        decreases block.children.len() - i,
    {
        let c = deep_clone_block_with(&block.children[i], regenerate_ids);
        children.push(c);
        i += 1;
    }
    let r = Block {
        id,
        block_type: block.block_type,
        content,
        children,
        props: clone_props(&block.props),
    };
    proof {
        lemma_blocks_view_seq(r.children@);
        if !regenerate_ids {
            assert(blocks_view_seq(r.children@) =~= blocks_view_seq(block.children@));
        } else {
            let rc = r@.children;
            let bc = block@.children;
            lemma_erase_all_ids(rc);
            lemma_erase_all_ids(bc);
            assert forall|k: int| 0 <= k < rc.len() implies #[trigger] erase_all_ids(rc)[k]
                == erase_all_ids(bc)[k] by {
                assert(rc[k] == block_view(children@[k]));
            }
            assert(erase_all_ids(rc) =~= erase_all_ids(bc));
            lemma_all_ids_generated(rc);
            assert forall|k: int| 0 <= k < rc.len() implies #[trigger] ids_generated(rc[k]) by {
                assert(rc[k] == block_view(children@[k]));
            }
        }
    }
    r
}

impl Clone for Block {
    fn clone(&self) -> (r: Block)
        ensures
            r@ == self@,
    {
        deep_clone_block_with(self, false)
    }
}

/// Deep-clones a block (and all its children), regenerating IDs.
pub fn deep_clone(block: &Block) -> (r: Block)
    ensures
        same_shape(r@, block@),
        ids_generated(r@),
{
    deep_clone_block_with(block, true)
}

/// Deep-clones a block, regenerating IDs (alias of [`deep_clone`]).
pub fn deep_clone_block(block: &Block) -> (r: Block)
    ensures
        same_shape(r@, block@),
        ids_generated(r@),
{
    deep_clone(block)
}

/// Deep-clones a slice of blocks, regenerating IDs.
pub fn deep_clone_blocks(blocks: &[Block]) -> (r: Vec<Block>)
    ensures
        r@.len() == blocks@.len(),
        forall|i: int|
            0 <= i < r@.len() ==> same_shape(#[trigger] r@[i]@, blocks@[i]@) && ids_generated(
                r@[i]@,
            ),
{
    let mut r: Vec<Block> = Vec::new();
    let mut i: usize = 0;
    while i < blocks.len()
        invariant
            i <= blocks@.len(),
            r@.len() == i,
            forall|k: int|
                0 <= k < i ==> same_shape(#[trigger] r@[k]@, blocks@[k]@) && ids_generated(
                    r@[k]@,
                ),
        decreases blocks@.len() - i,
    {
        r.push(deep_clone(&blocks[i]));
        i += 1;
    }
    r
}

/// Copies blocks keeping their identifiers.
pub fn copy_blocks(blocks: &[Block]) -> (r: Vec<Block>)
    ensures
        blocks_view(r@) == blocks_view(blocks@),
{
    let mut r: Vec<Block> = Vec::new();
    let mut i: usize = 0;
    while i < blocks.len()
        invariant
            i <= blocks@.len(),
            r.len() == i,
            forall|k: int| 0 <= k < i ==> #[trigger] r@[k]@ == blocks@[k]@,
        decreases blocks@.len() - i,
    {
        r.push(deep_clone_block_with(&blocks[i], false));
        i += 1;
    }
    assert(blocks_view(r@) =~= blocks_view(blocks@));
    r
}

// ---------------------------------------------------------------------------
// Line endings
// ---------------------------------------------------------------------------

/// CRLF and bare CR become LF (left to right, CRLF first).
pub open spec fn normalize_le(s: Seq<char>) -> Seq<char>
    decreases s.len(),
{
    if s.len() == 0 {
        s
    } else if s[0] == '\r' && s.len() > 1 && s[1] == '\n' {
        seq!['\n'] + normalize_le(s.skip(2))
    } else if s[0] == '\r' {
        seq!['\n'] + normalize_le(s.skip(1))
    } else {
        seq![s[0]] + normalize_le(s.skip(1))
    }
}

proof fn lemma_normalize_le_no_cr(s: Seq<char>)
    ensures
        forall|i: int| 0 <= i < normalize_le(s).len() ==> normalize_le(s)[i] != '\r',
    decreases s.len(),
{
    if s.len() > 0 {
        if s[0] == '\r' && s.len() > 1 && s[1] == '\n' {
            lemma_normalize_le_no_cr(s.skip(2));
        } else {
            lemma_normalize_le_no_cr(s.skip(1));
        }
        let r = normalize_le(s);
        assert forall|i: int| 0 <= i < r.len() implies r[i] != '\r' by {
            if i > 0 {
                if s[0] == '\r' && s.len() > 1 && s[1] == '\n' {
                    assert(r[i] == normalize_le(s.skip(2))[i - 1]);
                } else {
                    assert(r[i] == normalize_le(s.skip(1))[i - 1]);
                }
            }
        }
    }
}

proof fn lemma_normalize_le_fixed(s: Seq<char>)
    requires
        forall|i: int| 0 <= i < s.len() ==> s[i] != '\r',
    ensures
        normalize_le(s) == s,
    decreases s.len(),
{
    if s.len() > 0 {
        assert forall|i: int| 0 <= i < s.skip(1).len() implies s.skip(1)[i] != '\r' by {
            assert(s.skip(1)[i] == s[i + 1]);
        }
        lemma_normalize_le_fixed(s.skip(1));
        assert(seq![s[0]] + s.skip(1) =~= s);
    }
}

/// Normalized text holds no `\r`; normalizing it again changes nothing; and
/// text without `\r` is already normalized.
pub proof fn law_normalize_line_endings(s: Seq<char>)
    ensures
        forall|i: int| 0 <= i < normalize_le(s).len() ==> normalize_le(s)[i] != '\r',
        normalize_le(normalize_le(s)) == normalize_le(s),
        (forall|i: int| 0 <= i < s.len() ==> s[i] != '\r') ==> normalize_le(s) == s,
{
    lemma_normalize_le_no_cr(s);
    lemma_normalize_le_fixed(normalize_le(s));
    if forall|i: int| 0 <= i < s.len() ==> s[i] != '\r' {
        lemma_normalize_le_fixed(s);
    }
}

pub fn normalize_le_vec(s: &Vec<char>) -> (r: Vec<char>)
    ensures
        r@ == normalize_le(s@),
{
    let mut r: Vec<char> = Vec::new();
    let mut i: usize = 0;
    assert(s@.skip(0) =~= s@);
    while i < s.len()
        invariant
            i <= s.len(),
            r@ + normalize_le(s@.skip(i as int)) == normalize_le(s@),
        decreases s.len() - i,
    {
        let ghost rest = s@.skip(i as int);
        if s[i] == '\r' && i + 1 < s.len() && s[i + 1] == '\n' {
            r.push('\n');
            i += 2;
            assert(rest.skip(2) =~= s@.skip(i as int));
        } else if s[i] == '\r' {
            r.push('\n');
            i += 1;
            assert(rest.skip(1) =~= s@.skip(i as int));
        } else {
            r.push(s[i]);
            i += 1;
            assert(rest.skip(1) =~= s@.skip(i as int));
        }
        assert(r@ + normalize_le(s@.skip(i as int)) =~= normalize_le(s@));
    }
    assert(normalize_le(s@.skip(i as int)) =~= Seq::<char>::empty());
    assert(r@ + Seq::<char>::empty() =~= r@);
    r
}

/// Normalize CRLF and bare CR line endings to LF.
pub fn normalize_line_endings(s: &str) -> (r: String)
    ensures
        r@ == normalize_le(s@),
{
    let v = chars_of(s);
    let n = normalize_le_vec(&v);
    string_of(&n)
}

/// Every LF becomes CRLF.
pub open spec fn lf_to_crlf(s: Seq<char>) -> Seq<char>
    decreases s.len(),
{
    if s.len() == 0 {
        s
    } else if s[0] == '\n' {
        seq!['\r', '\n'] + lf_to_crlf(s.skip(1))
    } else {
        seq![s[0]] + lf_to_crlf(s.skip(1))
    }
}

pub open spec fn convert_le(s: Seq<char>, target: LineEnding) -> Seq<char> {
    match target {
        LineEnding::Lf => normalize_le(s),
        LineEnding::CrLf => lf_to_crlf(normalize_le(s)),
    }
}

/// Convert line endings to a target style.
pub fn convert_line_endings(s: &str, target: LineEnding) -> (r: String)
    ensures
        r@ == convert_le(s@, target),
{
    let v = chars_of(s);
    let n = normalize_le_vec(&v);
    match target {
        LineEnding::Lf => string_of(&n),
        LineEnding::CrLf => {
            let mut r: Vec<char> = Vec::new();
            let mut i: usize = 0;
            assert(n@.skip(0) =~= n@);
            while i < n.len()
                invariant
                    i <= n.len(),
                    r@ + lf_to_crlf(n@.skip(i as int)) == lf_to_crlf(n@),
                decreases n.len() - i,
            {
                let ghost rest = n@.skip(i as int);
                if n[i] == '\n' {
                    r.push('\r');
                    r.push('\n');
                } else {
                    r.push(n[i]);
                }
                i += 1;
                assert(rest.skip(1) =~= n@.skip(i as int));
                assert(r@ + lf_to_crlf(n@.skip(i as int)) =~= lf_to_crlf(n@));
            }
            assert(lf_to_crlf(n@.skip(i as int)) =~= Seq::<char>::empty());
            assert(r@ + Seq::<char>::empty() =~= r@);
            string_of(&r)
        },
    }
}

// ---------------------------------------------------------------------------
// Escaping
// ---------------------------------------------------------------------------

/// The characters `\ ` * _ { } [ ] ( ) # + - . ! |`.
pub open spec fn is_md_special(c: char) -> bool {
    c == '\\' || c == '`' || c == '*' || c == '_' || c == '{' || c == '}' || c == '[' || c == ']'
        || c == '(' || c == ')' || c == '#' || c == '+' || c == '-' || c == '.' || c == '!'
        || c == '|'
}

pub fn md_special(c: char) -> (r: bool)
    ensures
        r == is_md_special(c),
{
    c == '\\' || c == '`' || c == '*' || c == '_' || c == '{' || c == '}' || c == '[' || c == ']'
        || c == '(' || c == ')' || c == '#' || c == '+' || c == '-' || c == '.' || c == '!'
        || c == '|'
}

pub open spec fn escape_md(s: Seq<char>) -> Seq<char>
    decreases s.len(),
{
    if s.len() == 0 {
        s
    } else if is_md_special(s[0]) {
        seq!['\\', s[0]] + escape_md(s.skip(1))
    } else {
        seq![s[0]] + escape_md(s.skip(1))
    }
}

pub open spec fn unescape_md(s: Seq<char>) -> Seq<char>
    decreases s.len(),
{
    if s.len() == 0 {
        s
    } else if s[0] == '\\' && s.len() > 1 && is_md_special(s[1]) {
        seq![s[1]] + unescape_md(s.skip(2))
    } else {
        seq![s[0]] + unescape_md(s.skip(1))
    }
}

/// Escapes special markdown characters in plain text so it can be embedded
/// in a markdown document without being interpreted as syntax.
pub fn escape_markdown(s: &str) -> (r: String)
    ensures
        r@ == escape_md(s@),
{
    let v = chars_of(s);
    let mut r: Vec<char> = Vec::new();
    let mut i: usize = 0;
    assert(v@.skip(0) =~= v@);
    while i < v.len()
        invariant
            i <= v.len(),
            r@ + escape_md(v@.skip(i as int)) == escape_md(v@),
        decreases v.len() - i,
    {
        let ghost rest = v@.skip(i as int);
        if md_special(v[i]) {
            r.push('\\');
        }
        r.push(v[i]);
        i += 1;
        assert(rest.skip(1) =~= v@.skip(i as int));
        assert(r@ + escape_md(v@.skip(i as int)) =~= escape_md(v@));
    }
    assert(escape_md(v@.skip(i as int)) =~= Seq::<char>::empty());
    assert(r@ + Seq::<char>::empty() =~= r@);
    string_of(&r)
}

/// Inverse of [`escape_markdown`]: unescapes any backslash-escaped markdown
/// special characters. Backslashes before non-special characters are left
/// alone.
pub fn unescape_markdown(s: &str) -> (r: String)
    ensures
        r@ == unescape_md(s@),
{
    let v = chars_of(s);
    let mut r: Vec<char> = Vec::new();
    let mut i: usize = 0;
    assert(v@.skip(0) =~= v@);
    while i < v.len()
        invariant
            i <= v.len(),
            r@ + unescape_md(v@.skip(i as int)) == unescape_md(v@),
        decreases v.len() - i,
    {
        let ghost rest = v@.skip(i as int);
        if v[i] == '\\' && i + 1 < v.len() && md_special(v[i + 1]) {
            r.push(v[i + 1]);
            i += 2;
            assert(rest.skip(2) =~= v@.skip(i as int));
        } else {
            r.push(v[i]);
            i += 1;
            assert(rest.skip(1) =~= v@.skip(i as int));
        }
        assert(r@ + unescape_md(v@.skip(i as int)) =~= unescape_md(v@));
    }
    assert(unescape_md(v@.skip(i as int)) =~= Seq::<char>::empty());
    assert(r@ + Seq::<char>::empty() =~= r@);
    string_of(&r)
}

/// Unescaping an escaped text gives the text back.
pub proof fn lemma_unescape_escape(s: Seq<char>)
    ensures
        unescape_md(escape_md(s)) == s,
    decreases s.len(),
{
    if s.len() > 0 {
        lemma_unescape_escape(s.skip(1));
        let e = escape_md(s);
        if is_md_special(s[0]) {
            assert(e.skip(2) =~= escape_md(s.skip(1)));
        } else {
            assert(e.skip(1) =~= escape_md(s.skip(1)));
        }
        assert(seq![s[0]] + s.skip(1) =~= s);
    }
}

/// Escaping and then unescaping text gives the text back.
pub proof fn law_escape_round_trip(s: Seq<char>)
    ensures
        unescape_md(escape_md(s)) == s,
{
    lemma_unescape_escape(s);
}

/// Replace every (non-overlapping, left-to-right) run of three backticks
/// by ``\`\`\` ``.
pub open spec fn escape_fences(s: Seq<char>) -> Seq<char>
    decreases s.len(),
{
    if s.len() >= 3 && s[0] == '`' && s[1] == '`' && s[2] == '`' {
        seq!['\\', '`', '\\', '`', '\\', '`'] + escape_fences(s.skip(3))
    } else if s.len() == 0 {
        s
    } else {
        seq![s[0]] + escape_fences(s.skip(1))
    }
}

pub fn escape_fences_vec(v: &Vec<char>) -> (r: Vec<char>)
    ensures
        r@ == escape_fences(v@),
{
    let mut r: Vec<char> = Vec::new();
    let mut i: usize = 0;
    assert(v@.skip(0) =~= v@);
    while i < v.len()
        invariant
            i <= v.len(),
            r@ + escape_fences(v@.skip(i as int)) == escape_fences(v@),
        decreases v.len() - i,
    {
        let ghost rest = v@.skip(i as int);
        if 3 <= v.len() - i && v[i] == '`' && v[i + 1] == '`' && v[i + 2] == '`' {
            r.push('\\');
            r.push('`');
            r.push('\\');
            r.push('`');
            r.push('\\');
            r.push('`');
            i += 3;
            assert(rest.skip(3) =~= v@.skip(i as int));
        } else {
            r.push(v[i]);
            i += 1;
            assert(rest.skip(1) =~= v@.skip(i as int));
        }
        assert(r@ + escape_fences(v@.skip(i as int)) =~= escape_fences(v@));
    }
    assert(escape_fences(v@.skip(i as int)) =~= Seq::<char>::empty());
    assert(r@ + Seq::<char>::empty() =~= r@);
    r
}

/// Escapes ``` sequences inside code-block content so they can't close the
/// fence.
pub fn escape_code_block(s: &str) -> (r: String)
    ensures
        r@ == escape_fences(s@),
{
    let v = chars_of(s);
    let r = escape_fences_vec(&v);
    string_of(&r)
}

// ---------------------------------------------------------------------------
// Line helpers
// ---------------------------------------------------------------------------

pub open spec fn lines(s: Seq<char>) -> Seq<Seq<char>> {
    split(s, '\n')
}

pub open spec fn nl() -> Seq<char> {
    seq!['\n']
}

pub open spec fn map_trim_end(ls: Seq<Seq<char>>) -> Seq<Seq<char>> {
    ls.map_values(|l: Seq<char>| trim_end(l))
}

/// Trim trailing whitespace from each line.
pub fn trim_trailing_whitespace(s: &str) -> (r: String)
    ensures
        r@ == join(map_trim_end(lines(s@)), nl()),
{
    let v = chars_of(s);
    let parts = split_vec(&v, '\n');
    let mut out: Vec<Vec<char>> = Vec::new();
    let mut i: usize = 0;
    let ghost ls = parts@.map_values(|x: Vec<char>| x@);
    while i < parts.len()
        invariant
            i <= parts.len(),
            ls == parts@.map_values(|x: Vec<char>| x@),
            out.len() == i,
            forall|k: int| 0 <= k < i ==> #[trigger] out@[k]@ == trim_end(parts@[k]@),
        decreases parts.len() - i,
    {
        out.push(trim_end_vec(&parts[i]));
        i += 1;
    }
    assert(out@.map_values(|x: Vec<char>| x@) =~= map_trim_end(ls));
    let mut sep: Vec<char> = Vec::new();
    sep.push('\n');
    assert(sep@ =~= nl());
    let j = join_vec(&out, &sep);
    string_of(&j)
}

/// Index of the first line that is not blank (or the number of lines).
pub open spec fn first_nonblank(ls: Seq<Seq<char>>, from: int) -> int
    decreases ls.len() - from,
{
    if from >= ls.len() || !all_ws(ls[from]) {
        from
    } else {
        first_nonblank(ls, from + 1)
    }
}

/// One past the last line (not before `lo`) that is not blank.
pub open spec fn last_nonblank_end(ls: Seq<Seq<char>>, lo: int, end: int) -> int
    decreases end - lo,
{
    if end <= lo || !all_ws(ls[end - 1]) {
        end
    } else {
        last_nonblank_end(ls, lo, end - 1)
    }
}

pub open spec fn trim_blank(s: Seq<char>) -> Seq<char> {
    let ls = lines(s);
    let start = first_nonblank(ls, 0);
    let end = last_nonblank_end(ls, start, ls.len() as int);
    join(ls.subrange(start, end), nl())
}

/// Remove leading and trailing blank lines.
pub fn trim_blank_lines(s: &str) -> (r: String)
    ensures
        r@ == trim_blank(s@),
{
    let v = chars_of(s);
    let parts = split_vec(&v, '\n');
    let ghost ls = parts@.map_values(|x: Vec<char>| x@);
    let mut start: usize = 0;
    while start < parts.len() && all_ws_exec(&parts[start])
        invariant
            start <= parts.len(),
            ls == parts@.map_values(|x: Vec<char>| x@),
            first_nonblank(ls, start as int) == first_nonblank(ls, 0),
        decreases parts.len() - start,
    {
        start += 1;
    }
    let mut end: usize = parts.len();
    while end > start && all_ws_exec(&parts[end - 1])
        invariant
            start <= end <= parts.len(),
            ls == parts@.map_values(|x: Vec<char>| x@),
            last_nonblank_end(ls, start as int, end as int) == last_nonblank_end(
                ls,
                start as int,
                parts.len() as int,
            ),
        decreases end - start,
    {
        end -= 1;
    }
    let mut kept: Vec<Vec<char>> = Vec::new();
    let mut i = start;
    while i < end
        invariant
            start <= i <= end <= parts.len(),
            ls == parts@.map_values(|x: Vec<char>| x@),
            kept.len() == i - start,
            forall|k: int| 0 <= k < i - start ==> #[trigger] kept@[k]@ == parts@[start + k]@,
        decreases end - i,
    {
        kept.push(parts[i].clone());
        i += 1;
    }
    assert(kept@.map_values(|x: Vec<char>| x@) =~= ls.subrange(start as int, end as int));
    let mut sep: Vec<char> = Vec::new();
    sep.push('\n');
    assert(sep@ =~= nl());
    let j = join_vec(&kept, &sep);
    string_of(&j)
}

pub open spec fn indent_line(l: Seq<char>, count: nat) -> Seq<char> {
    if trim(l).len() == 0 {
        l
    } else {
        repeat(' ', count) + l
    }
}

pub open spec fn indent_text(s: Seq<char>, count: nat) -> Seq<char> {
    join(lines(s).map_values(|l: Seq<char>| indent_line(l, count)), nl())
}

/// Indent every non-blank line of `s` by `count` spaces.
pub fn indent(s: &str, count: usize) -> (r: String)
    ensures
        r@ == indent_text(s@, count as nat),
{
    let v = chars_of(s);
    let parts = split_vec(&v, '\n');
    let pad = repeat_vec(' ', count);
    let ghost ls = parts@.map_values(|x: Vec<char>| x@);
    let mut out: Vec<Vec<char>> = Vec::new();
    let mut i: usize = 0;
    while i < parts.len()
        invariant
            i <= parts.len(),
            ls == parts@.map_values(|x: Vec<char>| x@),
            pad@ == repeat(' ', count as nat),
            out.len() == i,
            forall|k: int| 0 <= k < i ==> #[trigger] out@[k]@ == indent_line(parts@[k]@, count as nat),
        decreases parts.len() - i,
    {
        let t = trim_vec(&parts[i]);
        if t.len() == 0 {
            out.push(parts[i].clone());
        } else {
            out.push(concat(&pad, &parts[i]));
        }
        i += 1;
    }
    assert(out@.map_values(|x: Vec<char>| x@) =~= ls.map_values(
        |l: Seq<char>| indent_line(l, count as nat),
    ));
    let mut sep: Vec<char> = Vec::new();
    sep.push('\n');
    assert(sep@ =~= nl());
    let j = join_vec(&out, &sep);
    string_of(&j)
}

// ---------------------------------------------------------------------------
// Spans
// ---------------------------------------------------------------------------

/// Concatenation of the span texts.
pub open spec fn plain_text(spans: Seq<SpanV>) -> Seq<char>
    decreases spans.len(),
{
    if spans.len() == 0 {
        Seq::empty()
    } else {
        plain_text(spans.drop_last()) + spans.last().text
    }
}

pub fn spans_plain_vec(spans: &[TextSpan]) -> (r: Vec<char>)
    ensures
        r@ == plain_text(spans_view(spans@)),
{
    let mut r: Vec<char> = Vec::new();
    let mut i: usize = 0;
    while i < spans.len()
        invariant
            i <= spans@.len(),
            r@ == plain_text(spans_view(spans@.take(i as int))),
        decreases spans@.len() - i,
    {
        let t = chars_of_string(&spans[i].text);
        append(&mut r, &t);
        i += 1;
        assert(spans_view(spans@.take(i as int)).drop_last() =~= spans_view(
            spans@.take(i - 1),
        ));
    }
    assert(spans@.take(spans@.len() as int) =~= spans@);
    r
}

/// Concatenate the plain text of a slice of spans (styles dropped).
pub fn spans_to_plain_text(spans: &[TextSpan]) -> (r: String)
    ensures
        r@ == plain_text(spans_view(spans@)),
{
    let v = spans_plain_vec(spans);
    string_of(&v)
}

/// Creates a single text span with no styles.
pub fn plain_span(text: &str) -> (r: TextSpan)
    ensures
        r@ == (SpanV { text: text@, styles: plain_style() }),
{
    TextSpan { text: text.to_owned(), styles: InlineStyle::plain() }
}

/// Creates an inline-content array containing a single plain text span.
pub fn plain_content(text: &str) -> (r: Vec<TextSpan>)
    ensures
        spans_view(r@) == seq![SpanV { text: text@, styles: plain_style() }],
{
    let mut r: Vec<TextSpan> = Vec::new();
    r.push(plain_span(text));
    assert(spans_view(r@) =~= seq![SpanV { text: text@, styles: plain_style() }]);
    r
}

/// Returns the concatenated plain text of a block's inline content.
pub fn block_plain_text(block: &Block) -> (r: String)
    ensures
        r@ == plain_text(block@.content),
{
    spans_to_plain_text(block.content.as_slice())
}

/// Returns `true` if the block has any non-empty inline content.
pub fn has_content(block: &Block) -> (r: bool)
    ensures
        r == exists|i: int|
            0 <= i < block@.content.len() && #[trigger] block@.content[i].text.len() > 0,
{
    let mut i: usize = 0;
    while i < block.content.len()
        invariant
            i <= block.content.len(),
            forall|k: int| 0 <= k < i ==> #[trigger] block.content@[k].text@.len() == 0,
        decreases block.content.len() - i,
    {
        if !block.content[i].text.as_str().is_empty() {
            assert(block@.content[i as int].text.len() > 0);
            return true;
        }
        i += 1;
    }
    proof {
        assert forall|k: int| 0 <= k < block@.content.len() implies #[trigger] block@.content[
            k
        ].text.len() == 0 by {
            assert(block@.content[k] == block.content@[k]@);
        }
    }
    false
}

/// Returns `true` if the block has child blocks.
pub fn has_children(block: &Block) -> (r: bool)
    ensures
        r == (block@.children.len() > 0),
{
    proof {
        lemma_blocks_view_seq(block.children@);
    }
    !block.children.is_empty()
}

/// Returns `true` if `level` is a valid heading level (1..=6).
pub fn is_valid_heading_level(level: u8) -> (r: bool)
    ensures
        r == (1 <= level <= 6),
{
    1 <= level && level <= 6
}

pub open spec fn is_block_type_name(s: Seq<char>) -> bool {
    exists|t: BlockType| block_type_name(t) == s
}

/// Returns `true` if `s` is a valid block type string.
pub fn is_valid_block_type(s: &str) -> (r: bool)
    ensures
        r == is_block_type_name(s@),
{
    let v = chars_of(s);
    let all = [
        BlockType::Paragraph,
        BlockType::Heading,
        BlockType::BulletList,
        BlockType::NumberedList,
        BlockType::CheckList,
        BlockType::CodeBlock,
        BlockType::Blockquote,
        BlockType::Table,
        BlockType::Image,
        BlockType::Divider,
        BlockType::Callout,
    ];
    let mut i: usize = 0;
    while i < 11
        invariant
            i <= 11,
            v@ == s@,
            all@ == seq![
                BlockType::Paragraph,
                BlockType::Heading,
                BlockType::BulletList,
                BlockType::NumberedList,
                BlockType::CheckList,
                BlockType::CodeBlock,
                BlockType::Blockquote,
                BlockType::Table,
                BlockType::Image,
                BlockType::Divider,
                BlockType::Callout,
            ],
            forall|k: int| 0 <= k < i ==> block_type_name(#[trigger] all@[k]) != v@,
        decreases 11 - i,
    {
        let t = all[i];
        let tn = t.as_str();
        let name = chars_of(tn);
        if eq_chars(&name, &v) {
            assert(block_type_name(t) == s@);
            return true;
        }
        i += 1;
    }
    proof {
        assert forall|t: BlockType| block_type_name(t) != s@ by {
            match t {
                BlockType::Paragraph => assert(all@[0] == t),
                BlockType::Heading => assert(all@[1] == t),
                BlockType::BulletList => assert(all@[2] == t),
                BlockType::NumberedList => assert(all@[3] == t),
                BlockType::CheckList => assert(all@[4] == t),
                BlockType::CodeBlock => assert(all@[5] == t),
                BlockType::Blockquote => assert(all@[6] == t),
                BlockType::Table => assert(all@[7] == t),
                BlockType::Image => assert(all@[8] == t),
                BlockType::Divider => assert(all@[9] == t),
                BlockType::Callout => assert(all@[10] == t),
            }
        }
    }
    false
}

} // verus!
