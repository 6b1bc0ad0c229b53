//! Document creation, CRUD, query, and metadata operations.
//!
//! Every mutating function returns a new [`Document`] and refreshes
//! `meta.updated_at` to the current wall-clock time.

use vstd::prelude::*;
use crate::markdown::clock::{is_timestamp, now_iso8601};
use crate::markdown::types::{Block, BlockProps, BlockType, BlockV, Document, DocumentMeta, DocumentOptions, IdGenerator, MetaV, MetaValue, TextSpan, block_view, blocks_view, blocks_view_seq, empty_meta, extras_view, lemma_blocks_view_seq, meta_value_view, opt_str, spans_view};
use crate::markdown::utils::{
    clone_opt_string, clone_props, clone_spans, copy_blocks, deep_clone_block_with, erase_all_ids,
    ids_generated, lemma_erase_all_ids, same_shape,
};

verus! {

/// Current document schema version.
pub const DOCUMENT_VERSION: u32 = 1;

// ---------------------------------------------------------------------------
// Spec helpers
// ---------------------------------------------------------------------------

/// `new` is `old` with `updated_at` set to a timestamp.
pub open spec fn touched(old: MetaV, new: MetaV) -> bool {
    &&& new.updated_at matches Some(ts)
    &&& is_timestamp(ts)
    &&& new == MetaV { updated_at: new.updated_at, ..old }
}

/// Index of the first block with identifier `id`.
pub open spec fn index_of_id(blocks: Seq<BlockV>, id: Seq<char>) -> Option<int>
    decreases blocks.len(),
{
    if blocks.len() == 0 {
        None
    } else {
        match index_of_id(blocks.drop_last(), id) {
            Some(i) => Some(i),
            None => if blocks.last().id == id {
                Some(blocks.len() - 1)
            } else {
                None
            },
        }
    }
}

pub proof fn lemma_index_of_id(blocks: Seq<BlockV>, id: Seq<char>)
    ensures
        match index_of_id(blocks, id) {
            Some(i) => 0 <= i < blocks.len() && blocks[i].id == id && forall|j: int|
                0 <= j < i ==> blocks[j].id != id,
            None => forall|j: int| 0 <= j < blocks.len() ==> blocks[j].id != id,
        },
    decreases blocks.len(),
{
    if blocks.len() > 0 {
        let p = blocks.drop_last();
        lemma_index_of_id(p, id);
        match index_of_id(p, id) {
            Some(i) => {
                assert forall|j: int| 0 <= j < i implies blocks[j].id != id by {
                    assert(blocks[j] == p[j]);
                }
                assert(blocks[i] == p[i]);
            },
            None => {
                assert forall|j: int| 0 <= j < blocks.len() - 1 implies blocks[j].id != id by {
                    assert(blocks[j] == p[j]);
                }
            },
        }
    }
}

pub proof fn lemma_index_of_id_prefix(blocks: Seq<BlockV>, id: Seq<char>, n: int)
    requires
        0 <= n <= blocks.len(),
        forall|j: int| 0 <= j < n ==> blocks[j].id != id,
    ensures
        n < blocks.len() && blocks[n].id == id ==> index_of_id(blocks, id) == Some(n),
        n == blocks.len() ==> index_of_id(blocks, id) == None::<int>,
{
    lemma_index_of_id(blocks, id);
}

/// The blocks whose identifiers are not `id`.
pub open spec fn without_id(blocks: Seq<BlockV>, id: Seq<char>) -> Seq<BlockV> {
    blocks.filter(|b: BlockV| b.id != id)
}

/// The blocks whose identifiers are not among `ids`.
pub open spec fn without_ids(blocks: Seq<BlockV>, ids: Seq<Seq<char>>) -> Seq<BlockV> {
    blocks.filter(|b: BlockV| !ids.contains(b.id))
}

/// Clamp an optional insertion index to `[0, len]`, defaulting to `len`.
pub open spec fn insert_pos(index: Option<usize>, len: nat) -> int {
    match index {
        Some(i) => if i < len {
            i as int
        } else {
            len as int
        },
        None => len as int,
    }
}

fn position_of(doc: &Document, block_id: &str) -> (r: Option<usize>)
    ensures
        match r {
            Some(i) => index_of_id(doc@.blocks, block_id@) == Some(i as int) && i < doc.blocks@.len()
                && doc@.blocks[i as int].id == block_id@,
            None => index_of_id(doc@.blocks, block_id@) == None::<int>,
        },
{
    let id = block_id.to_owned();
    let mut i: usize = 0;
    while i < doc.blocks.len()
        invariant
            i <= doc.blocks.len(),
            id@ == block_id@,
            forall|j: int| 0 <= j < i ==> doc@.blocks[j].id != block_id@,
        decreases doc.blocks.len() - i,
    {
        if doc.blocks[i].id == id {
            proof {
                lemma_index_of_id_prefix(doc@.blocks, block_id@, i as int);
            }
            return Some(i);
        }
        i += 1;
    }
    proof {
        lemma_index_of_id_prefix(doc@.blocks, block_id@, i as int);
    }
    None
}

fn copy_meta(m: &DocumentMeta) -> (r: DocumentMeta)
    ensures
        r@ == m@,
{
    let mut extras: Vec<(String, MetaValue)> = Vec::new();
    let mut i: usize = 0;
    while i < m.extras.len()
        invariant
            i <= m.extras.len(),
            extras.len() == i,
            forall|k: int|
                0 <= k < i ==> extras_view(extras@)[k] == #[trigger] extras_view(m.extras@)[k],
        decreases m.extras.len() - i,
    {
        let (k, v) = &m.extras[i];
        extras.push((k.clone(), copy_meta_value(v)));
        proof {
            assert(extras_view(extras@)[i as int] == extras_view(m.extras@)[i as int]);
        }
        i += 1;
    }
    assert(extras_view(extras@) =~= extras_view(m.extras@));
    DocumentMeta {
        title: clone_opt_string(&m.title),
        description: clone_opt_string(&m.description),
        author: clone_opt_string(&m.author),
        created_at: clone_opt_string(&m.created_at),
        updated_at: clone_opt_string(&m.updated_at),
        extras,
    }
}

fn copy_meta_value(v: &MetaValue) -> (r: MetaValue)
    ensures
        meta_value_view(r) == meta_value_view(*v),
{
    match v {
        MetaValue::Text(s) => MetaValue::Text(s.clone()),
        MetaValue::Json(s) => MetaValue::Json(s.clone()),
    }
}

fn copy_document(doc: &Document) -> (r: Document)
    ensures
        r@ == doc@,
{
    Document {
        version: doc.version,
        blocks: copy_blocks(doc.blocks.as_slice()),
        meta: copy_meta(&doc.meta),
    }
}

fn touch(meta: &mut DocumentMeta)
    ensures
        touched(old(meta)@, final(meta)@),
{
    meta.updated_at = Some(now_iso8601());
}

// ---------------------------------------------------------------------------
// Creation
// ---------------------------------------------------------------------------

/// Deep-clones a block, giving it and every block nested in it a new
/// identifier from `generator`.
fn clone_with_generator(block: &Block, generator: &std::sync::Arc<dyn IdGenerator>) -> (r: Block)
    ensures
        same_shape(r@, block@),
    decreases block,
{
    let id = generator.generate_id();
    let content = clone_spans(&block.content);
    let mut children: Vec<Block> = Vec::new();
    let mut i: usize = 0;
    proof {
        lemma_blocks_view_seq(block.children@);
    }
    while i < block.children.len()
        invariant
            i <= block.children.len(),
            children.len() == i,
            blocks_view_seq(block.children@).len() == block.children.len(),
            forall|k: int|
                0 <= k < block.children.len() ==> #[trigger] blocks_view_seq(block.children@)[k]
                    == block_view(block.children@[k]),
            forall|k: int|
                0 <= k < i ==> same_shape(
                    block_view(#[trigger] children@[k]),
                    block_view(block.children@[k]),
                ),
        decreases block.children.len() - i,
    {
        let c = clone_with_generator(&block.children[i], generator);
        children.push(c);
        i += 1;
    }
    let r = Block {
        id,
        block_type: block.block_type,
        content,
        children,
        props: clone_props(&block.props),
    };
    proof {
        lemma_blocks_view_seq(r.children@);
        let rc = r@.children;
        let bc = block@.children;
        lemma_erase_all_ids(rc);
        lemma_erase_all_ids(bc);
        assert forall|k: int| 0 <= k < rc.len() implies #[trigger] erase_all_ids(rc)[k]
            == erase_all_ids(bc)[k] by {
            assert(rc[k] == block_view(children@[k]));
        }
        assert(erase_all_ids(rc) =~= erase_all_ids(bc));
    }
    r
}

/// Creates a new document seeded with the given blocks and metadata.
///
/// Blocks are deep-cloned. If `options.generate_id` is set, every block,
/// nested ones included, gets a new ID from the generator; otherwise the
/// blocks keep their IDs.
pub fn create_document(blocks: &[Block], options: DocumentOptions) -> (r: Document)
    ensures
        r@.version == DOCUMENT_VERSION,
        r@.blocks.len() == blocks@.len(),
        options.generate_id is None ==> r@.blocks == blocks_view(blocks@),
        options.generate_id is Some ==> forall|i: int|
            0 <= i < blocks@.len() ==> same_shape(#[trigger] r@.blocks[i], blocks@[i]@),
        ({
            let m = match options.meta {
                Some(m) => m@,
                None => empty_meta(),
            };
            &&& r@.meta.updated_at matches Some(now)
            &&& is_timestamp(now)
            &&& r@.meta == MetaV {
                created_at: match m.created_at {
                    Some(c) => Some(c),
                    None => Some(now),
                },
                updated_at: Some(now),
                ..m
            }
        }),
{
    let mut meta = match options.meta {
        Some(m) => m,
        None => DocumentMeta::default(),
    };
    let now = now_iso8601();
    if meta.created_at.is_none() {
        meta.created_at = Some(now.clone());
    }
    meta.updated_at = Some(now);
    let mut out: Vec<Block> = Vec::new();
    let mut i: usize = 0;
    while i < blocks.len()
        invariant
            i <= blocks@.len(),
            out.len() == i,
            options.generate_id is None ==> forall|k: int|
                0 <= k < i ==> #[trigger] out@[k]@ == blocks@[k]@,
            options.generate_id is Some ==> forall|k: int|
                0 <= k < i ==> same_shape(#[trigger] out@[k]@, blocks@[k]@),
        decreases blocks@.len() - i,
    {
        let cloned = match &options.generate_id {
            Some(g) => clone_with_generator(&blocks[i], g),
            None => deep_clone_block_with(&blocks[i], false),
        };
        out.push(cloned);
        i += 1;
    }
    let r = Document { version: DOCUMENT_VERSION, blocks: out, meta };
    proof {
        if options.generate_id is None {
            assert(r@.blocks =~= blocks_view(blocks@));
        }
    }
    r
}

/// Creates an empty document.
pub fn empty_document(options: DocumentOptions) -> (r: Document)
    ensures
        r@.version == DOCUMENT_VERSION,
        r@.blocks.len() == 0,
        ({
            let m = match options.meta {
                Some(m) => m@,
                None => empty_meta(),
            };
            &&& r@.meta.updated_at matches Some(now)
            &&& is_timestamp(now)
            &&& r@.meta == MetaV {
                created_at: match m.created_at {
                    Some(c) => Some(c),
                    None => Some(now),
                },
                updated_at: Some(now),
                ..m
            }
        }),
{
    let empty: Vec<Block> = Vec::new();
    create_document(empty.as_slice(), options)
}

/// Deep-clones a document, regenerating all block IDs and resetting
/// `created_at`/`updated_at` to the current time.
pub fn clone_document(doc: &Document) -> (r: Document)
    ensures
        r@.version == doc@.version,
        r@.blocks.len() == doc@.blocks.len(),
        forall|i: int|
            0 <= i < r@.blocks.len() ==> same_shape(#[trigger] r@.blocks[i], doc@.blocks[i])
                && ids_generated(r@.blocks[i]),
        ({
            &&& r@.meta.updated_at matches Some(now)
            &&& is_timestamp(now)
            &&& r@.meta == MetaV { created_at: Some(now), updated_at: Some(now), ..doc@.meta }
        }),
{
    let mut meta = copy_meta(&doc.meta);
    let now = now_iso8601();
    meta.created_at = Some(now.clone());
    meta.updated_at = Some(now);
    let mut out: Vec<Block> = Vec::new();
    let mut i: usize = 0;
    while i < doc.blocks.len()
        invariant
            i <= doc.blocks.len(),
            out.len() == i,
            forall|k: int|
                0 <= k < i ==> same_shape(#[trigger] out@[k]@, doc.blocks@[k]@) && ids_generated(
                    out@[k]@,
                ),
        decreases doc.blocks.len() - i,
    {
        out.push(deep_clone_block_with(&doc.blocks[i], true));
        i += 1;
    }
    Document { version: doc.version, blocks: out, meta }
}

// ---------------------------------------------------------------------------
// Insertion and removal
// ---------------------------------------------------------------------------

/// Inserts `block` at `index`. If `index` is `None`, appends to the end.
/// Index is clamped to `[0, doc.blocks.len()]`.
pub fn insert_block(doc: &Document, block: &Block, index: Option<usize>) -> (r: Document)
    ensures
        r@.version == doc@.version,
        r@.blocks == doc@.blocks.insert(insert_pos(index, doc@.blocks.len()), block@),
        touched(doc@.meta, r@.meta),
{
    let mut new_doc = copy_document(doc);
    let len = new_doc.blocks.len();
    let insert_at = match index {
        Some(i) => if i < len {
            i
        } else {
            len
        },
        None => len,
    };
    new_doc.blocks.insert(insert_at, deep_clone_block_with(block, false));
    touch(&mut new_doc.meta);
    assert(new_doc@.blocks =~= doc@.blocks.insert(insert_pos(index, doc@.blocks.len()), block@));
    new_doc
}

/// Appends `block` to the end.
pub fn append_block(doc: &Document, block: &Block) -> (r: Document)
    ensures
        r@.version == doc@.version,
        r@.blocks == doc@.blocks.push(block@),
        touched(doc@.meta, r@.meta),
{
    let r = insert_block(doc, block, None);
    assert(r@.blocks =~= doc@.blocks.push(block@));
    r
}

/// Prepends `block` to the start.
pub fn prepend_block(doc: &Document, block: &Block) -> (r: Document)
    ensures
        r@.version == doc@.version,
        r@.blocks == seq![block@] + doc@.blocks,
        touched(doc@.meta, r@.meta),
{
    let r = insert_block(doc, block, Some(0));
    assert(r@.blocks =~= seq![block@] + doc@.blocks);
    r
}

/// Inserts `blocks` at `index`. If `index` is `None`, appends.
pub fn insert_blocks(doc: &Document, blocks: &[Block], index: Option<usize>) -> (r: Document)
    ensures
        r@.version == doc@.version,
        ({
            let at = insert_pos(index, doc@.blocks.len());
            r@.blocks == doc@.blocks.take(at) + blocks_view(blocks@) + doc@.blocks.skip(at)
        }),
        touched(doc@.meta, r@.meta),
{
    let mut new_doc = copy_document(doc);
    let len = new_doc.blocks.len();
    let insert_at = match index {
        Some(i) => if i < len {
            i
        } else {
            len
        },
        None => len,
    };
    let ghost at = insert_at as int;
    let mut offset: usize = 0;
    while offset < blocks.len()
        invariant
            insert_at <= len == doc@.blocks.len(),
            offset <= blocks@.len(),
            at == insert_at,
            new_doc@.version == doc@.version,
            new_doc@.meta == doc@.meta,
            new_doc.blocks.len() == len + offset,
            new_doc@.blocks == doc@.blocks.take(at) + blocks_view(blocks@.take(offset as int))
                + doc@.blocks.skip(at),
        decreases blocks@.len() - offset,
    {
        let nb = deep_clone_block_with(&blocks[offset], false);
        let ghost prev = new_doc@.blocks;
        new_doc.blocks.insert(insert_at + offset, nb);
        assert(new_doc@.blocks =~= prev.insert(at + offset, blocks@[offset as int]@));
        offset += 1;
        assert(blocks_view(blocks@.take(offset as int)) =~= blocks_view(blocks@.take(offset - 1)).push(blocks@[offset - 1]@));
        assert(new_doc@.blocks =~= doc@.blocks.take(at) + blocks_view(blocks@.take(offset as int))
            + doc@.blocks.skip(at));
    }
    assert(blocks@.take(blocks@.len() as int) =~= blocks@);
    touch(&mut new_doc.meta);
    new_doc
}

/// Removes the top-level blocks with the given ID. No-op (returns a copy of
/// `doc`) if none is found.
pub fn remove_block(doc: &Document, block_id: &str) -> (r: Document)
    ensures
        r@.version == doc@.version,
        r@.blocks == without_id(doc@.blocks, block_id@),
        r@.blocks.len() == doc@.blocks.len() ==> r@.meta == doc@.meta,
        r@.blocks.len() != doc@.blocks.len() ==> touched(doc@.meta, r@.meta),
{
    let id = block_id.to_owned();
    let mut kept: Vec<Block> = Vec::new();
    let mut i: usize = 0;
    while i < doc.blocks.len()
        invariant
            i <= doc.blocks.len(),
            id@ == block_id@,
            blocks_view(kept@) == without_id(blocks_view(doc.blocks@.take(i as int)), block_id@),
        decreases doc.blocks.len() - i,
    {
        let ghost before = blocks_view(doc.blocks@.take(i as int));
        if doc.blocks[i].id != id {
            kept.push(deep_clone_block_with(&doc.blocks[i], false));
        }
        i += 1;
        proof {
            let now = blocks_view(doc.blocks@.take(i as int));
            assert(now.drop_last() =~= before);
            reveal_with_fuel(Seq::filter, 1);
            assert(blocks_view(kept@) =~= without_id(now, block_id@));
        }
    }
    assert(doc.blocks@.take(doc.blocks.len() as int) =~= doc.blocks@);
    let mut new_doc = Document { version: doc.version, blocks: kept, meta: copy_meta(&doc.meta) };
    if new_doc.blocks.len() != doc.blocks.len() {
        touch(&mut new_doc.meta);
    }
    new_doc
}

/// Removes all top-level blocks whose IDs appear in `block_ids`.
pub fn remove_blocks(doc: &Document, block_ids: &[&str]) -> (r: Document)
    ensures
        r@.version == doc@.version,
        r@.blocks == without_ids(doc@.blocks, block_ids@.map_values(|s: &str| s@)),
        r@.blocks.len() == doc@.blocks.len() ==> r@.meta == doc@.meta,
        r@.blocks.len() != doc@.blocks.len() ==> touched(doc@.meta, r@.meta),
{
    let ghost ids = block_ids@.map_values(|s: &str| s@);
    let mut kept: Vec<Block> = Vec::new();
    let mut i: usize = 0;
    while i < doc.blocks.len()
        invariant
            i <= doc.blocks.len(),
            ids == block_ids@.map_values(|s: &str| s@),
            blocks_view(kept@) == without_ids(blocks_view(doc.blocks@.take(i as int)), ids),
        decreases doc.blocks.len() - i,
    {
        let ghost before = blocks_view(doc.blocks@.take(i as int));
        // Is this block's id one of those to remove?
        let mut listed = false;
        let mut j: usize = 0;
        while j < block_ids.len()
            invariant
                j <= block_ids@.len(),
                i < doc.blocks.len(),
                ids == block_ids@.map_values(|s: &str| s@),
                listed == exists|k: int| 0 <= k < j && ids[k] == doc.blocks@[i as int].id@,
            decreases block_ids@.len() - j,
        {
            let cand = block_ids[j].to_owned();
            if cand == doc.blocks[i].id {
                listed = true;
                assert(ids[j as int] == doc.blocks@[i as int].id@);
            } else {
                assert(ids[j as int] != doc.blocks@[i as int].id@);
            }
            j += 1;
        }
        proof {
            assert(listed == ids.contains(doc.blocks@[i as int]@.id));
        }
        if !listed {
            kept.push(deep_clone_block_with(&doc.blocks[i], false));
        }
        i += 1;
        proof {
            let now = blocks_view(doc.blocks@.take(i as int));
            assert(now.drop_last() =~= before);
            reveal_with_fuel(Seq::filter, 1);
            assert(blocks_view(kept@) =~= without_ids(now, ids));
        }
    }
    assert(doc.blocks@.take(doc.blocks.len() as int) =~= doc.blocks@);
    let mut new_doc = Document { version: doc.version, blocks: kept, meta: copy_meta(&doc.meta) };
    if new_doc.blocks.len() != doc.blocks.len() {
        touch(&mut new_doc.meta);
    }
    new_doc
}

// ---------------------------------------------------------------------------
// Updates
// ---------------------------------------------------------------------------

/// Partial-update payload for [`update_block`]. Fields left as `None` keep
/// the existing block's values.
pub struct BlockUpdate {
    pub content: Option<Vec<TextSpan>>,
    pub children: Option<Vec<Block>>,
    pub props: Option<BlockProps>,
}

impl Default for BlockUpdate {
    fn default() -> (r: BlockUpdate)
        ensures
            r.content is None,
            r.children is None,
            r.props is None,
    {
        BlockUpdate { content: None, children: None, props: None }
    }
}

pub open spec fn apply_update(b: BlockV, u: BlockUpdate) -> BlockV {
    BlockV {
        content: match u.content {
            Some(c) => spans_view(c@),
            None => b.content,
        },
        children: match u.children {
            Some(c) => blocks_view(c@),
            None => b.children,
        },
        props: match u.props {
            Some(p) => p@,
            None => b.props,
        },
        ..b
    }
}

/// Updates the first top-level block with the ID. The block's `id` and
/// `type` are preserved. No-op if the block is not found.
pub fn update_block(doc: &Document, block_id: &str, updates: BlockUpdate) -> (r: Document)
    ensures
        r@.version == doc@.version,
        match index_of_id(doc@.blocks, block_id@) {
            Some(i) => r@.blocks == doc@.blocks.update(i, apply_update(doc@.blocks[i], updates))
                && touched(doc@.meta, r@.meta),
            None => r@ == doc@,
        },
{
    let mut new_doc = copy_document(doc);
    match position_of(doc, block_id) {
        Some(idx) => {
            let old_b = &doc.blocks[idx];
            let content = match updates.content {
                Some(c) => c,
                None => clone_spans(&old_b.content),
            };
            let children = match updates.children {
                Some(c) => c,
                None => copy_blocks(old_b.children.as_slice()),
            };
            let props = match updates.props {
                Some(p) => p,
                None => clone_props(&old_b.props),
            };
            let nb = Block {
                id: old_b.id.clone(),
                block_type: old_b.block_type,
                content,
                children,
                props,
            };
            proof {
                crate::markdown::types::lemma_blocks_view_seq_map(nb.children@);
                crate::markdown::types::lemma_blocks_view_seq_map(old_b.children@);
            }
            new_doc.blocks.set(idx, nb);
            touch(&mut new_doc.meta);
            assert(new_doc@.blocks =~= doc@.blocks.update(
                idx as int,
                apply_update(doc@.blocks[idx as int], updates),
            ));
        },
        None => {},
    }
    new_doc
}

/// Replaces the first block with `block_id` by `new_block` (which keeps its
/// own ID). No-op if none is found.
pub fn replace_block(doc: &Document, block_id: &str, new_block: &Block) -> (r: Document)
    ensures
        r@.version == doc@.version,
        match index_of_id(doc@.blocks, block_id@) {
            Some(i) => r@.blocks == doc@.blocks.update(i, new_block@) && touched(
                doc@.meta,
                r@.meta,
            ),
            None => r@ == doc@,
        },
{
    let mut new_doc = copy_document(doc);
    match position_of(doc, block_id) {
        Some(idx) => {
            new_doc.blocks.set(idx, deep_clone_block_with(new_block, false));
            touch(&mut new_doc.meta);
            assert(new_doc@.blocks =~= doc@.blocks.update(idx as int, new_block@));
        },
        None => {},
    }
    new_doc
}

/// Where [`move_block`] puts the block: `new_index` clamped to the last
/// position.
pub open spec fn move_target(len: nat, new_index: usize) -> int {
    let max_idx = if len == 0 {
        0
    } else {
        len - 1
    };
    if new_index < max_idx {
        new_index as int
    } else {
        max_idx as int
    }
}

/// The blocks after moving the first block with identifier `id` to
/// `new_index` (clamped to the last position); unchanged without such a
/// block.
pub open spec fn moved_blocks(bs: Seq<BlockV>, id: Seq<char>, new_index: usize) -> Seq<BlockV> {
    match index_of_id(bs, id) {
        Some(i) => {
            let t = move_target(bs.len(), new_index);
            if i == t {
                bs
            } else {
                bs.remove(i).insert(t, bs[i])
            }
        },
        None => bs,
    }
}

/// Moves a block to `new_index`. Index is clamped to a valid range.
pub fn move_block(doc: &Document, block_id: &str, new_index: usize) -> (r: Document)
    ensures
        r@.version == doc@.version,
        r@.blocks == moved_blocks(doc@.blocks, block_id@, new_index),
        match index_of_id(doc@.blocks, block_id@) {
            Some(i) => {
                let t = move_target(doc@.blocks.len(), new_index);
                if i == t {
                    r@ == doc@
                } else {
                    r@.blocks == doc@.blocks.remove(i).insert(t, doc@.blocks[i]) && touched(
                        doc@.meta,
                        r@.meta,
                    )
                }
            },
            None => r@ == doc@,
        },
{
    let mut new_doc = copy_document(doc);
    let current = position_of(doc, block_id);
    let current_idx = match current {
        Some(c) => c,
        None => {
            return new_doc;
        },
    };
    let len = new_doc.blocks.len();
    let max_idx = if len == 0 {
        0
    } else {
        len - 1
    };
    let target = if new_index < max_idx {
        new_index
    } else {
        max_idx
    };
    if current_idx == target {
        return new_doc;
    }
    let moved = new_doc.blocks.remove(current_idx);
    new_doc.blocks.insert(target, moved);
    touch(&mut new_doc.meta);
    assert(new_doc@.blocks =~= doc@.blocks.remove(current_idx as int).insert(
        target as int,
        doc@.blocks[current_idx as int],
    ));
    new_doc
}

/// The blocks after exchanging the first block with identifier `id_a` and
/// the first with identifier `id_b` (unchanged when either is missing or
/// both are the same block).
pub open spec fn swapped_blocks(bs: Seq<BlockV>, id_a: Seq<char>, id_b: Seq<char>) -> Seq<BlockV> {
    match (index_of_id(bs, id_a), index_of_id(bs, id_b)) {
        (Some(a), Some(b)) => if a != b {
            bs.update(a, bs[b]).update(b, bs[a])
        } else {
            bs
        },
        _ => bs,
    }
}

/// Swaps two blocks by ID. No-op if either is missing or both refer to the
/// same block.
pub fn swap_blocks(doc: &Document, id_a: &str, id_b: &str) -> (r: Document)
    ensures
        r@.version == doc@.version,
        r@.blocks == swapped_blocks(doc@.blocks, id_a@, id_b@),
        match (index_of_id(doc@.blocks, id_a@), index_of_id(doc@.blocks, id_b@)) {
            (Some(a), Some(b)) => if a != b {
                r@.blocks == doc@.blocks.update(a, doc@.blocks[b]).update(b, doc@.blocks[a])
                    && touched(doc@.meta, r@.meta)
            } else {
                r@ == doc@
            },
            _ => r@ == doc@,
        },
{
    let mut new_doc = copy_document(doc);
    let ia = position_of(doc, id_a);
    let ib = position_of(doc, id_b);
    match (ia, ib) {
        (Some(a), Some(b)) => {
            if a != b {
                let ba = deep_clone_block_with(&doc.blocks[a], false);
                let bb = deep_clone_block_with(&doc.blocks[b], false);
                new_doc.blocks.set(a, bb);
                new_doc.blocks.set(b, ba);
                touch(&mut new_doc.meta);
                assert(new_doc@.blocks =~= doc@.blocks.update(a as int, doc@.blocks[b as int]).update(
                    b as int,
                    doc@.blocks[a as int],
                ));
            }
        },
        _ => {},
    }
    new_doc
}

// ---------------------------------------------------------------------------
// Queries
// ---------------------------------------------------------------------------

/// Returns a reference to the first block with `block_id`, or `None`.
pub fn find_block<'a>(doc: &'a Document, block_id: &str) -> (r: Option<&'a Block>)
    ensures
        match index_of_id(doc@.blocks, block_id@) {
            Some(i) => r matches Some(b) && b@ == doc@.blocks[i],
            None => r is None,
        },
{
    match position_of(doc, block_id) {
        Some(i) => Some(&doc.blocks[i]),
        None => None,
    }
}

/// Returns the index of the first block with `block_id`, or `None`.
pub fn get_block_index(doc: &Document, block_id: &str) -> (r: Option<usize>)
    ensures
        match index_of_id(doc@.blocks, block_id@) {
            Some(i) => r == Some(i as usize),
            None => r is None,
        },
{
    position_of(doc, block_id)
}

/// Returns the block at `index`, or `None` if out of bounds.
pub fn get_block_at(doc: &Document, index: usize) -> (r: Option<&Block>)
    ensures
        index < doc@.blocks.len() ==> (r matches Some(b) && b@ == doc@.blocks[index as int]),
        index >= doc@.blocks.len() ==> r is None,
{
    if index < doc.blocks.len() {
        Some(&doc.blocks[index])
    } else {
        None
    }
}

/// Returns the first block, or `None` if the document is empty.
pub fn get_first_block(doc: &Document) -> (r: Option<&Block>)
    ensures
        doc@.blocks.len() > 0 ==> (r matches Some(b) && b@ == doc@.blocks[0]),
        doc@.blocks.len() == 0 ==> r is None,
{
    get_block_at(doc, 0)
}

/// Returns the last block, or `None` if the document is empty.
pub fn get_last_block(doc: &Document) -> (r: Option<&Block>)
    ensures
        doc@.blocks.len() > 0 ==> (r matches Some(b) && b@ == doc@.blocks.last()),
        doc@.blocks.len() == 0 ==> r is None,
{
    if doc.blocks.len() == 0 {
        None
    } else {
        Some(&doc.blocks[doc.blocks.len() - 1])
    }
}

/// Returns all top-level blocks with the given `block_type`.
pub fn find_blocks_by_type(doc: &Document, block_type: BlockType) -> (r: Vec<&Block>)
    ensures
        r@.map_values(|b: &Block| b@) == doc@.blocks.filter(|b: BlockV| b.block_type == block_type),
{
    let mut r: Vec<&Block> = Vec::new();
    let mut i: usize = 0;
    while i < doc.blocks.len()
        invariant
            i <= doc.blocks.len(),
            r@.map_values(|b: &Block| b@) == blocks_view(doc.blocks@.take(i as int)).filter(
                |b: BlockV| b.block_type == block_type,
            ),
        decreases doc.blocks.len() - i,
    {
        let ghost before = blocks_view(doc.blocks@.take(i as int));
        let ghost rb = r@.map_values(|b: &Block| b@);
        if doc.blocks[i].block_type == block_type {
            r.push(&doc.blocks[i]);
            assert(r@.map_values(|b: &Block| b@) =~= rb.push(doc.blocks@[i as int]@));
        } else {
            assert(r@.map_values(|b: &Block| b@) =~= rb);
        }
        i += 1;
        proof {
            let now = blocks_view(doc.blocks@.take(i as int));
            assert(now.drop_last() =~= before);
            reveal_with_fuel(Seq::filter, 1);
        }
    }
    assert(doc.blocks@.take(doc.blocks.len() as int) =~= doc.blocks@);
    r
}

/// Returns `true` if a top-level block with `block_id` exists.
pub fn has_block(doc: &Document, block_id: &str) -> (r: bool)
    ensures
        r == exists|i: int| 0 <= i < doc@.blocks.len() && doc@.blocks[i].id == block_id@,
{
    let p = position_of(doc, block_id);
    proof {
        lemma_index_of_id(doc@.blocks, block_id@);
    }
    p.is_some()
}

/// Returns the total number of top-level blocks.
pub fn get_block_count(doc: &Document) -> (r: usize)
    ensures
        r == doc@.blocks.len(),
{
    doc.blocks.len()
}

/// Returns `true` if the document has no blocks.
pub fn is_empty(doc: &Document) -> (r: bool)
    ensures
        r == (doc@.blocks.len() == 0),
{
    doc.blocks.len() == 0
}

/// Replaces the content of a specific block.
pub fn set_block_content(doc: &Document, block_id: &str, content: Vec<TextSpan>) -> (r: Document)
    ensures
        r@.version == doc@.version,
        match index_of_id(doc@.blocks, block_id@) {
            Some(i) => r@.blocks == doc@.blocks.update(
                i,
                BlockV { content: spans_view(content@), ..doc@.blocks[i] },
            ) && touched(doc@.meta, r@.meta),
            None => r@ == doc@,
        },
{
    update_block(doc, block_id, BlockUpdate { content: Some(content), children: None, props: None })
}

/// Appends spans to the content of a specific block.
pub fn append_block_content(doc: &Document, block_id: &str, spans: Vec<TextSpan>) -> (r: Document)
    ensures
        r@.version == doc@.version,
        match index_of_id(doc@.blocks, block_id@) {
            Some(i) => r@.blocks == doc@.blocks.update(
                i,
                BlockV { content: doc@.blocks[i].content + spans_view(spans@), ..doc@.blocks[i] },
            ) && touched(doc@.meta, r@.meta),
            None => r@ == doc@,
        },
{
    match find_block(doc, block_id) {
        Some(b) => {
            let mut combined = clone_spans(&b.content);
            let mut more = spans;
            let ghost c0 = spans_view(combined@);
            let ghost m0 = spans_view(more@);
            combined.append(&mut more);
            assert(spans_view(combined@) =~= c0 + m0);
            set_block_content(doc, block_id, combined)
        },
        None => copy_document(doc),
    }
}

// ---------------------------------------------------------------------------
// Metadata
// ---------------------------------------------------------------------------

/// Look a key up in an extras list.
pub open spec fn extras_get(e: Seq<(Seq<char>, (bool, Seq<char>))>, key: Seq<char>) -> Option<
    (bool, Seq<char>),
>
    decreases e.len(),
{
    if e.len() == 0 {
        None
    } else if e.last().0 == key {
        Some(e.last().1)
    } else {
        extras_get(e.drop_last(), key)
    }
}

/// Set `key` to `v`: replace its entry in place, or append one.
pub open spec fn extras_set(
    e: Seq<(Seq<char>, (bool, Seq<char>))>,
    key: Seq<char>,
    v: (bool, Seq<char>),
) -> Seq<(Seq<char>, (bool, Seq<char>))> {
    if exists|i: int| 0 <= i < e.len() && e[i].0 == key {
        e.update(key_pos(e, key), (key, v))
    } else {
        e.push((key, v))
    }
}

/// A position holding `key`.
pub open spec fn key_pos(e: Seq<(Seq<char>, (bool, Seq<char>))>, key: Seq<char>) -> int {
    choose|i: int| 0 <= i < e.len() && e[i].0 == key
}

/// Keys occur at most once.
pub open spec fn keys_unique(e: Seq<(Seq<char>, (bool, Seq<char>))>) -> bool {
    forall|i: int, j: int| 0 <= i < j < e.len() ==> e[i].0 != e[j].0
}

/// The text a typed metadata slot takes from a value: text is kept, any
/// other value clears the slot.
pub open spec fn slot_value(v: (bool, Seq<char>)) -> Option<Seq<char>> {
    if v.0 {
        Some(v.1)
    } else {
        None
    }
}

/// A typed slot read as a metadata value.
pub open spec fn slot_read(o: Option<Seq<char>>) -> Option<(bool, Seq<char>)> {
    match o {
        Some(t) => Some((true, t)),
        None => None,
    }
}

/// `m` with the field `key` set to `v`: the named keys go to their typed
/// slot, every other key to `extras`.
pub open spec fn field_set(m: MetaV, key: Seq<char>, v: (bool, Seq<char>)) -> MetaV {
    if key == "title"@ {
        MetaV { title: slot_value(v), ..m }
    } else if key == "description"@ {
        MetaV { description: slot_value(v), ..m }
    } else if key == "author"@ {
        MetaV { author: slot_value(v), ..m }
    } else if key == "createdAt"@ {
        MetaV { created_at: slot_value(v), ..m }
    } else if key == "updatedAt"@ {
        MetaV { updated_at: slot_value(v), ..m }
    } else {
        MetaV { extras: extras_set(m.extras, key, v), ..m }
    }
}

/// The value of the field `key` in `m`.
pub open spec fn field_get(m: MetaV, key: Seq<char>) -> Option<(bool, Seq<char>)> {
    if key == "title"@ {
        slot_read(m.title)
    } else if key == "description"@ {
        slot_read(m.description)
    } else if key == "author"@ {
        slot_read(m.author)
    } else if key == "createdAt"@ {
        slot_read(m.created_at)
    } else if key == "updatedAt"@ {
        slot_read(m.updated_at)
    } else {
        extras_get(m.extras, key)
    }
}

/// Whether `key` names one of the typed slots other than `updatedAt`.
pub open spec fn is_slot_key(key: Seq<char>) -> bool {
    key == "title"@ || key == "description"@ || key == "author"@ || key == "createdAt"@
}

fn extras_insert(extras: &mut Vec<(String, MetaValue)>, key: String, value: MetaValue)
    requires
        keys_unique(extras_view(old(extras)@)),
    ensures
        keys_unique(extras_view(final(extras)@)),
        extras_view(final(extras)@) == extras_set(
            extras_view(old(extras)@),
            key@,
            meta_value_view(value),
        ),
{
    let ghost e = extras_view(extras@);
    let mut i: usize = 0;
    while i < extras.len()
        invariant
            i <= extras.len(),
            e == extras_view(extras@),
            e == extras_view(old(extras)@),
            keys_unique(e),
            forall|j: int| 0 <= j < i ==> e[j].0 != key@,
        decreases extras.len() - i,
    {
        if extras[i].0 == key {
            let ghost kk = key@;
            let ghost mv = meta_value_view(value);
            let kv = (key, value);
            let ghost nv = (kv.0@, meta_value_view(kv.1));
            assert(nv == (kk, mv));
            extras.set(i, kv);
            proof {
                assert(exists|k: int| 0 <= k < e.len() && e[k].0 == key@) by {
                    assert(e[i as int].0 == key@);
                }
                let c = key_pos(e, key@);
                if c < i {
                    assert(e[c].0 != key@);
                } else if c > i {
                    assert(e[i as int].0 != e[c].0);
                }
                assert(c == i);
                assert(extras_view(extras@) =~= e.update(i as int, nv));
                assert(extras_set(e, kk, mv) == e.update(i as int, (kk, mv)));
                let f = extras_view(extras@);
                assert forall|a: int, b: int| 0 <= a < b < f.len() implies f[a].0 != f[b].0 by {
                    if a != i && b != i {
                        assert(f[a] == e[a] && f[b] == e[b]);
                    } else if a == i {
                        assert(f[b] == e[b]);
                        assert(e[a].0 != e[b].0);
                    } else {
                        assert(f[a] == e[a]);
                        assert(e[a].0 != e[b].0);
                    }
                }
            }
            return;
        }
        i += 1;
    }
    let ghost kv = (key@, meta_value_view(value));
    extras.push((key, value));
    assert(extras_view(extras@) =~= e.push(kv));
    proof {
        let f = extras_view(extras@);
        assert forall|a: int, b: int| 0 <= a < b < f.len() implies f[a].0 != f[b].0 by {
            if b == e.len() {
                assert(f[a] == e[a]);
            } else {
                assert(f[a] == e[a] && f[b] == e[b]);
            }
        }
    }
}

fn keep_or_take(new: Option<String>, old: &Option<String>) -> (r: Option<String>)
    ensures
        opt_str(r) == (if new is Some { opt_str(new) } else { opt_str(*old) }),
{
    match new {
        Some(t) => Some(t),
        None => clone_opt_string(old),
    }
}

/// Merges `meta` over the existing metadata. Named fields in `meta` that are
/// `Some(...)` overwrite; `None` fields leave the existing value. `extras`
/// keys are merged. `updated_at` is refreshed regardless.
pub fn update_meta(doc: &Document, meta: DocumentMeta) -> (r: Document)
    requires
        keys_unique(doc@.meta.extras),
    ensures
        r@.version == doc@.version,
        r@.blocks == doc@.blocks,
        keys_unique(r@.meta.extras),
        r@.meta.title == (if meta@.title is Some { meta@.title } else { doc@.meta.title }),
        r@.meta.description == (if meta@.description is Some {
            meta@.description
        } else {
            doc@.meta.description
        }),
        r@.meta.author == (if meta@.author is Some { meta@.author } else { doc@.meta.author }),
        r@.meta.created_at == (if meta@.created_at is Some {
            meta@.created_at
        } else {
            doc@.meta.created_at
        }),
        (r@.meta.updated_at matches Some(ts) && is_timestamp(ts)),
        r@.meta.extras == meta@.extras.fold_left(
            doc@.meta.extras,
            |acc: Seq<(Seq<char>, (bool, Seq<char>))>, kv: (Seq<char>, (bool, Seq<char>))|
                extras_set(acc, kv.0, kv.1),
        ),
{
    let DocumentMeta { title, description, author, created_at, updated_at: _, extras } = meta;
    let merged = DocumentMeta {
        title: keep_or_take(title, &doc.meta.title),
        description: keep_or_take(description, &doc.meta.description),
        author: keep_or_take(author, &doc.meta.author),
        created_at: keep_or_take(created_at, &doc.meta.created_at),
        updated_at: clone_opt_string(&doc.meta.updated_at),
        extras: copy_meta(&doc.meta).extras,
    };
    let mut new_doc = Document {
        version: doc.version,
        blocks: copy_blocks(doc.blocks.as_slice()),
        meta: merged,
    };
    let ghost ev = extras_view(extras@);
    let mut i: usize = 0;
    while i < extras.len()
        invariant
            i <= extras.len(),
            ev == extras_view(extras@),
            keys_unique(extras_view(new_doc.meta.extras@)),
            new_doc@.blocks == doc@.blocks,
            new_doc@.version == doc@.version,
            new_doc@.meta.title == (if meta@.title is Some { meta@.title } else { doc@.meta.title }),
            new_doc@.meta.description == (if meta@.description is Some {
                meta@.description
            } else {
                doc@.meta.description
            }),
            new_doc@.meta.author == (if meta@.author is Some { meta@.author } else { doc@.meta.author }),
            new_doc@.meta.created_at == (if meta@.created_at is Some {
                meta@.created_at
            } else {
                doc@.meta.created_at
            }),
            extras_view(new_doc.meta.extras@) == ev.take(i as int).fold_left(
                doc@.meta.extras,
                |acc: Seq<(Seq<char>, (bool, Seq<char>))>, kv: (Seq<char>, (bool, Seq<char>))|
                    extras_set(acc, kv.0, kv.1),
            ),
        decreases extras.len() - i,
    {
        let (k, v) = &extras[i];
        extras_insert(&mut new_doc.meta.extras, k.clone(), copy_meta_value(v));
        i += 1;
        proof {
            assert(ev.take(i as int).drop_last() =~= ev.take(i - 1));
        }
    }
    assert(ev.take(extras.len() as int) =~= ev);
    touch(&mut new_doc.meta);
    new_doc
}

/// Sets a single metadata field by key. Known fields (`title`,
/// `description`, `author`, `createdAt`, `updatedAt`) are placed in the
/// typed slot (a non-string value clears it); everything else goes into
/// `extras`. `updated_at` is refreshed afterwards.
pub fn set_meta_field(doc: &Document, key: &str, value: MetaValue) -> (r: Document)
    requires
        keys_unique(doc@.meta.extras),
    ensures
        r@.version == doc@.version,
        r@.blocks == doc@.blocks,
        keys_unique(r@.meta.extras),
        (r@.meta.updated_at matches Some(ts) && is_timestamp(ts)),
        r@.meta == (MetaV {
            updated_at: r@.meta.updated_at,
            ..field_set(doc@.meta, key@, meta_value_view(value))
        }),
{
    let mut new_doc = copy_document(doc);
    let s: Option<String> = match &value {
        MetaValue::Text(t) => Some(t.clone()),
        MetaValue::Json(_) => None,
    };
    let k = crate::text::chars_of(key);
    let title = crate::text::chars_of("title");
    let description = crate::text::chars_of("description");
    let author = crate::text::chars_of("author");
    let created = crate::text::chars_of("createdAt");
    let updated = crate::text::chars_of("updatedAt");
    if crate::text::eq_chars(&k, &title) {
        new_doc.meta.title = s;
    } else if crate::text::eq_chars(&k, &description) {
        new_doc.meta.description = s;
    } else if crate::text::eq_chars(&k, &author) {
        new_doc.meta.author = s;
    } else if crate::text::eq_chars(&k, &created) {
        new_doc.meta.created_at = s;
    } else if crate::text::eq_chars(&k, &updated) {
        new_doc.meta.updated_at = s;
    } else {
        extras_insert(&mut new_doc.meta.extras, key.to_owned(), value);
    }
    touch(&mut new_doc.meta);
    new_doc
}

/// Returns a metadata field by key. Returns `None` if the key isn't set.
pub fn get_meta_field(doc: &Document, key: &str) -> (r: Option<MetaValue>)
    ensures
        field_get(doc@.meta, key@) == (match r {
            Some(v) => Some(meta_value_view(v)),
            None => None,
        }),
{
    let k = crate::text::chars_of(key);
    let title = crate::text::chars_of("title");
    let description = crate::text::chars_of("description");
    let author = crate::text::chars_of("author");
    let created = crate::text::chars_of("createdAt");
    let updated = crate::text::chars_of("updatedAt");
    let m = &doc.meta;
    let typed = if crate::text::eq_chars(&k, &title) {
        Some(&m.title)
    } else if crate::text::eq_chars(&k, &description) {
        Some(&m.description)
    } else if crate::text::eq_chars(&k, &author) {
        Some(&m.author)
    } else if crate::text::eq_chars(&k, &created) {
        Some(&m.created_at)
    } else if crate::text::eq_chars(&k, &updated) {
        Some(&m.updated_at)
    } else {
        None
    };
    match typed {
        Some(o) => match o {
            Some(t) => Some(MetaValue::Text(t.clone())),
            None => None,
        },
        None => {
            let keystr = key.to_owned();
            let mut i = m.extras.len();
            let ghost e = extras_view(m.extras@);
            assert(e.take(i as int) =~= e);
            while i > 0
                invariant
                    i <= m.extras.len(),
                    e == doc@.meta.extras,
                    keystr@ == key@,
                    key@ != "title"@,
                    key@ != "description"@,
                    key@ != "author"@,
                    key@ != "createdAt"@,
                    key@ != "updatedAt"@,
                    e == extras_view(m.extras@),
                    extras_get(e, key@) == extras_get(e.take(i as int), key@),
                decreases i,
            {
                if m.extras[i - 1].0 == keystr {
                    let r = copy_meta_value(&m.extras[i - 1].1);
                    proof {
                        assert(e.take(i as int).last() == e[i - 1]);
                        assert(e[i - 1].0 == key@);
                        assert(extras_get(e.take(i as int), key@) == Some(e[i - 1].1));
                        assert(meta_value_view(r) == e[i - 1].1);
                        assert(e == doc@.meta.extras);
                        assert(extras_get(doc@.meta.extras, key@) == Some(meta_value_view(r)));
                    }
                    return Some(r);
                }
                proof {
                    assert(e.take(i as int).drop_last() =~= e.take(i - 1));
                }
                i -= 1;
            }
            None
        },
    }
}

// ---------------------------------------------------------------------------
// Bulk operations
// ---------------------------------------------------------------------------

/// Removes all blocks from the document.
pub fn clear_blocks(doc: &Document) -> (r: Document)
    ensures
        r@.version == doc@.version,
        r@.blocks.len() == 0,
        touched(doc@.meta, r@.meta),
{
    let mut new_doc = Document { version: doc.version, blocks: Vec::new(), meta: copy_meta(&doc.meta) };
    touch(&mut new_doc.meta);
    new_doc
}

/// Replaces all blocks in the document with `blocks` (IDs preserved).
pub fn set_blocks(doc: &Document, blocks: &[Block]) -> (r: Document)
    ensures
        r@.version == doc@.version,
        r@.blocks == blocks_view(blocks@),
        touched(doc@.meta, r@.meta),
{
    let mut new_doc = Document {
        version: doc.version,
        blocks: copy_blocks(blocks),
        meta: copy_meta(&doc.meta),
    };
    touch(&mut new_doc.meta);
    new_doc
}

/// The elements of `s` at the positions where `keep` holds.
pub open spec fn select<A>(s: Seq<A>, keep: Seq<bool>) -> Seq<A>
    decreases s.len(),
{
    if s.len() == 0 || keep.len() < s.len() {
        Seq::empty()
    } else {
        let rest = select(s.drop_last(), keep.take(s.len() - 1));
        if keep[s.len() - 1] {
            rest.push(s.last())
        } else {
            rest
        }
    }
}

/// Returns a new document keeping only blocks for which `predicate`
/// (given the block and its index) answered `true`.
pub fn filter_blocks<F>(doc: &Document, predicate: F) -> (r: Document) where
    F: Fn(&Block, usize) -> bool,

    requires
        forall|i: usize|
            i < doc.blocks@.len() ==> #[trigger] call_requires(predicate, (&doc.blocks@[i as int], i)),
    ensures
        r@.version == doc@.version,
        exists|keep: Seq<bool>|
            {
                &&& keep.len() == doc.blocks@.len()
                &&& forall|i: usize|
                    i < keep.len() ==> call_ensures(
                        predicate,
                        (&doc.blocks@[i as int], i),
                        #[trigger] keep[i as int],
                    )
                &&& r@.blocks == select(doc@.blocks, keep)
            },
        r@.blocks.len() == doc@.blocks.len() ==> r@ == doc@,
        r@.blocks.len() != doc@.blocks.len() ==> touched(doc@.meta, r@.meta),
{
    let mut kept: Vec<Block> = Vec::new();
    let ghost mut keep: Seq<bool> = Seq::empty();
    let mut i: usize = 0;
    while i < doc.blocks.len()
        invariant
            i <= doc.blocks.len(),
            forall|k: usize|
                k < doc.blocks@.len() ==> #[trigger] call_requires(predicate, (&doc.blocks@[k as int], k)),
            keep.len() == i,
            forall|k: usize|
                k < i ==> call_ensures(
                    predicate,
                    (&doc.blocks@[k as int], k),
                    #[trigger] keep[k as int],
                ),
            blocks_view(kept@) == select(blocks_view(doc.blocks@.take(i as int)), keep),
        decreases doc.blocks.len() - i,
    {
        let ghost before = blocks_view(doc.blocks@.take(i as int));
        let ghost keep0 = keep;
        let yes = predicate(&doc.blocks[i], i);
        if yes {
            kept.push(deep_clone_block_with(&doc.blocks[i], false));
        }
        proof {
            keep = keep.push(yes);
        }
        i += 1;
        proof {
            let now = blocks_view(doc.blocks@.take(i as int));
            assert(now =~= before.push(doc.blocks@[i - 1]@));
            lemma_select_push(before, keep0, doc.blocks@[i - 1]@, yes);
            assert(blocks_view(kept@) =~= select(now, keep));
        }
    }
    assert(doc.blocks@.take(doc.blocks.len() as int) =~= doc.blocks@);
    if kept.len() != doc.blocks.len() {
        let mut new_doc = Document { version: doc.version, blocks: kept, meta: copy_meta(&doc.meta) };
        touch(&mut new_doc.meta);
        assert(new_doc@.blocks == select(doc@.blocks, keep));
        new_doc
    } else {
        proof {
            lemma_select_all(blocks_view(doc.blocks@), keep);
        }
        let r = copy_document(doc);
        assert(r@.blocks == select(doc@.blocks, keep));
        r
    }
}

pub proof fn lemma_select_push<A>(s: Seq<A>, keep: Seq<bool>, x: A, b: bool)
    requires
        keep.len() == s.len(),
    ensures
        select(s.push(x), keep.push(b)) == (if b {
            select(s, keep).push(x)
        } else {
            select(s, keep)
        }),
{
    assert(s.push(x).drop_last() =~= s);
    assert(keep.push(b).take(s.len() as int) =~= keep);
}

/// Selecting as many elements as there are keeps them all.
pub proof fn lemma_select_all<A>(s: Seq<A>, keep: Seq<bool>)
    requires
        keep.len() == s.len(),
    ensures
        select(s, keep).len() <= s.len(),
        select(s, keep).len() == s.len() ==> select(s, keep) == s,
    decreases s.len(),
{
    if s.len() > 0 {
        lemma_select_all(s.drop_last(), keep.take(s.len() - 1));
        if select(s, keep).len() == s.len() {
            assert(select(s, keep) =~= s);
        }
    }
}

/// Maps over every block (given the block and its index) and transforms it.
pub fn map_blocks<F>(doc: &Document, transform: F) -> (r: Document) where
    F: Fn(Block, usize) -> Block,

    requires
        forall|i: usize, b: Block| i < doc.blocks@.len() ==> #[trigger] call_requires(transform, (b, i)),
    ensures
        r@.version == doc@.version,
        r.blocks@.len() == doc.blocks@.len(),
        exists|inputs: Seq<Block>| #[trigger] transformed_by(transform, doc@.blocks, inputs, r.blocks@),
        touched(doc@.meta, r@.meta),
{
    let mut out: Vec<Block> = Vec::new();
    let ghost mut inputs: Seq<Block> = Seq::empty();
    let mut i: usize = 0;
    while i < doc.blocks.len()
        invariant
            i <= doc.blocks.len(),
            forall|k: usize, b: Block| k < doc.blocks@.len() ==> #[trigger] call_requires(transform, (b, k)),
            out.len() == i,
            inputs.len() == i,
            forall|k: usize|
                k < i ==> (#[trigger] inputs[k as int])@ == doc@.blocks[k as int] && call_ensures(
                    transform,
                    (inputs[k as int], k),
                    out@[k as int],
                ),
        decreases doc.blocks.len() - i,
    {
        let b = deep_clone_block_with(&doc.blocks[i], false);
        let ghost bb = b;
        let t = transform(b, i);
        let ghost old_out = out@;
        let ghost old_inputs = inputs;
        out.push(t);
        proof {
            inputs = inputs.push(bb);
            assert forall|k: usize| k < i + 1 implies (#[trigger] inputs[k as int])@ == doc@.blocks[
                k as int
            ] && call_ensures(transform, (inputs[k as int], k), out@[k as int]) by {
                if k < i {
                    assert(out@[k as int] == old_out[k as int]);
                    assert(inputs[k as int] == old_inputs[k as int]);
                }
            }
        }
        i += 1;
    }
    assert(transformed_by(transform, doc@.blocks, inputs, out@));
    let mut new_doc = Document { version: doc.version, blocks: out, meta: copy_meta(&doc.meta) };
    touch(&mut new_doc.meta);
    new_doc
}

/// `out[i]` is a result of `f` on a copy of `src[i]` and its index.
pub open spec fn transformed_by<F: Fn(Block, usize) -> Block>(
    f: F,
    src: Seq<BlockV>,
    inputs: Seq<Block>,
    out: Seq<Block>,
) -> bool {
    &&& inputs.len() == src.len()
    &&& out.len() == src.len()
    &&& forall|i: usize|
        i < inputs.len() ==> (#[trigger] inputs[i as int])@ == src[i as int] && call_ensures(
            f,
            (inputs[i as int], i),
            out[i as int],
        )
}


// ---------------------------------------------------------------------------
// Laws
// ---------------------------------------------------------------------------

proof fn lemma_extras_get_at(e: Seq<(Seq<char>, (bool, Seq<char>))>, key: Seq<char>, i: int)
    requires
        keys_unique(e),
        0 <= i < e.len(),
        e[i].0 == key,
    ensures
        extras_get(e, key) == Some(e[i].1),
    decreases e.len(),
{
    if i < e.len() - 1 {
        assert(e.last().0 != key);
        let p = e.drop_last();
        assert(p[i] == e[i]);
        lemma_extras_get_at(p, key, i);
    }
}

proof fn lemma_extras_get_absent(e: Seq<(Seq<char>, (bool, Seq<char>))>, key: Seq<char>)
    requires
        forall|i: int| 0 <= i < e.len() ==> e[i].0 != key,
    ensures
        extras_get(e, key) is None,
    decreases e.len(),
{
    if e.len() > 0 {
        let p = e.drop_last();
        assert forall|i: int| 0 <= i < p.len() implies p[i].0 != key by {
            assert(p[i] == e[i]);
        }
        lemma_extras_get_absent(p, key);
    }
}

/// Lookup in `e` by the position of the key, when keys are unique.
proof fn lemma_extras_get(e: Seq<(Seq<char>, (bool, Seq<char>))>, key: Seq<char>)
    requires
        keys_unique(e),
    ensures
        (exists|i: int| 0 <= i < e.len() && e[i].0 == key) ==> extras_get(e, key) == Some(
            e[key_pos(e, key)].1,
        ),
        !(exists|i: int| 0 <= i < e.len() && e[i].0 == key) ==> extras_get(e, key) is None,
{
    if exists|i: int| 0 <= i < e.len() && e[i].0 == key {
        lemma_extras_get_at(e, key, key_pos(e, key));
    } else {
        lemma_extras_get_absent(e, key);
    }
}

/// Setting a key in an extras list and reading it back gives the value
/// written; every other key reads as before.
proof fn lemma_extras_read_after_write(
    e: Seq<(Seq<char>, (bool, Seq<char>))>,
    key: Seq<char>,
    v: (bool, Seq<char>),
    other: Seq<char>,
)
    requires
        keys_unique(e),
    ensures
        extras_get(extras_set(e, key, v), key) == Some(v),
        other != key ==> extras_get(extras_set(e, key, v), other) == extras_get(e, other),
{
    let f = extras_set(e, key, v);
    if exists|i: int| 0 <= i < e.len() && e[i].0 == key {
        let p = key_pos(e, key);
        assert(f == e.update(p, (key, v)));
        assert(keys_unique(f)) by {
            assert forall|a: int, b: int| 0 <= a < b < f.len() implies f[a].0 != f[b].0 by {
                assert(f[a].0 == e[a].0 && f[b].0 == e[b].0);
            }
        }
        lemma_extras_get_at(f, key, p);
        if other != key {
            lemma_extras_get(e, other);
            if exists|j: int| 0 <= j < e.len() && e[j].0 == other {
                let j = key_pos(e, other);
                assert(f[j] == e[j]);
                lemma_extras_get_at(f, other, j);
            } else {
                assert forall|j: int| 0 <= j < f.len() implies f[j].0 != other by {
                    assert(f[j].0 == e[j].0 || j == p);
                }
                lemma_extras_get_absent(f, other);
            }
        }
    } else {
        assert(f == e.push((key, v)));
        assert(f.drop_last() =~= e);
    }
}

/// Reading a metadata field right after setting it gives the value written,
/// and every other field reads as before. `updatedAt` is left out: every
/// write refreshes it. A typed slot holds text only, so for those keys the
/// value written is text.
pub proof fn law_meta_read_after_write(
    m: MetaV,
    key: Seq<char>,
    v: (bool, Seq<char>),
    stamp: Option<Seq<char>>,
    other: Seq<char>,
)
    requires
        keys_unique(m.extras),
        key != "updatedAt"@,
        is_slot_key(key) ==> v.0,
    ensures
        ({
            let w = MetaV { updated_at: stamp, ..field_set(m, key, v) };
            &&& field_get(w, key) == Some(v)
            &&& other != key && other != "updatedAt"@ ==> field_get(w, other) == field_get(
                m,
                other,
            )
        }),
{
    lemma_extras_read_after_write(m.extras, key, v, other);
}

proof fn lemma_filter_keeps_all(s: Seq<BlockV>, id: Seq<char>)
    requires
        forall|j: int| 0 <= j < s.len() ==> s[j].id != id,
    ensures
        without_id(s, id) == s,
    decreases s.len(),
{
    reveal_with_fuel(Seq::filter, 1);
    if s.len() > 0 {
        let p = s.drop_last();
        assert forall|j: int| 0 <= j < p.len() implies p[j].id != id by {
            assert(p[j] == s[j]);
        }
        lemma_filter_keeps_all(p, id);
        assert(without_id(s, id) =~= s);
    }
}

/// Swapping the same two identifiers twice gives the blocks back, unless a
/// second block with one of the two identifiers stands between them (then
/// the second swap finds that copy instead).
pub proof fn law_swap_twice_restores(bs: Seq<BlockV>, id_a: Seq<char>, id_b: Seq<char>)
    requires
        match (index_of_id(bs, id_a), index_of_id(bs, id_b)) {
            (Some(a), Some(b)) => forall|k: int|
                (a < k < b || b < k < a) ==> (#[trigger] bs[k]).id != id_a && bs[k].id != id_b,
            _ => true,
        },
    ensures
        swapped_blocks(swapped_blocks(bs, id_a, id_b), id_a, id_b) == bs,
{
    lemma_index_of_id(bs, id_a);
    lemma_index_of_id(bs, id_b);
    match (index_of_id(bs, id_a), index_of_id(bs, id_b)) {
        (Some(a), Some(b)) => {
            if a != b {
                let s1 = bs.update(a, bs[b]).update(b, bs[a]);
                assert(id_a != id_b);
                assert forall|j: int| 0 <= j < b implies s1[j].id != id_a by {
                    if j == a {
                        assert(s1[j] == bs[b]);
                    } else {
                        assert(s1[j] == bs[j]);
                    }
                }
                assert forall|j: int| 0 <= j < a implies s1[j].id != id_b by {
                    if j == b {
                        assert(s1[j] == bs[a]);
                    } else {
                        assert(s1[j] == bs[j]);
                    }
                }
                lemma_index_of_id_prefix(s1, id_a, b);
                lemma_index_of_id_prefix(s1, id_b, a);
                assert(swapped_blocks(bs, id_a, id_b) == s1);
                assert(s1.update(b, s1[a]).update(a, s1[b]) =~= bs);
            }
        },
        _ => {},
    }
}


/// A block whose identifier is new to the document is found where it was
/// inserted, and removing that identifier gives back the blocks as they
/// were before the insertion.
pub proof fn law_remove_undoes_insert(blocks: Seq<BlockV>, b: BlockV, at: int)
    requires
        0 <= at <= blocks.len(),
        forall|j: int| 0 <= j < blocks.len() ==> blocks[j].id != b.id,
    ensures
        index_of_id(blocks.insert(at, b), b.id) == Some(at),
        without_id(blocks.insert(at, b), b.id) == blocks,
{
    let f = blocks.insert(at, b);
    let front = blocks.take(at);
    let back = blocks.skip(at);
    assert(f =~= front + seq![b] + back);
    lemma_index_of_id_prefix(f, b.id, at);
    let pred = |x: BlockV| x.id != b.id;
    Seq::filter_distributes_over_add(front + seq![b], back, pred);
    Seq::filter_distributes_over_add(front, seq![b], pred);
    lemma_filter_keeps_all(front, b.id);
    lemma_filter_keeps_all(back, b.id);
    reveal_with_fuel(Seq::filter, 2);
    assert(seq![b].filter(pred) =~= Seq::<BlockV>::empty());
    assert(without_id(f, b.id) =~= front + back);
    assert(front + back =~= blocks);
}


/// Moving a block puts it at the requested index, or last when the index is
/// past the end; the other blocks keep their order; and a missing id moves
/// nothing.
pub proof fn law_move_block_places(bs: Seq<BlockV>, id: Seq<char>, new_index: usize)
    ensures
        moved_blocks(bs, id, new_index).len() == bs.len(),
        index_of_id(bs, id) is None ==> moved_blocks(bs, id, new_index) == bs,
        index_of_id(bs, id) matches Some(i) ==> {
            let pos = if (new_index as int) < bs.len() - 1 {
                new_index as int
            } else {
                bs.len() - 1
            };
            &&& moved_blocks(bs, id, new_index)[pos] == bs[i]
            &&& moved_blocks(bs, id, new_index)[pos].id == id
            &&& moved_blocks(bs, id, new_index).remove(pos) == bs.remove(i)
        },
{
    lemma_index_of_id(bs, id);
    match index_of_id(bs, id) {
        Some(i) => {
            let t = move_target(bs.len(), new_index);
            if i != t {
                let r = bs.remove(i).insert(t, bs[i]);
                assert(r.remove(t) =~= bs.remove(i));
            }
        },
        None => {},
    }
}

/// Inserting a block puts it at the requested index, or last when no index
/// is given or the index is past the end, and leaves the other blocks in
/// their order.
pub proof fn law_insert_block_places(bs: Seq<BlockV>, b: BlockV, index: Option<usize>)
    ensures
        ({
            let pos = match index {
                Some(i) => if (i as int) <= bs.len() {
                    i as int
                } else {
                    bs.len() as int
                },
                None => bs.len() as int,
            };
            let r = bs.insert(insert_pos(index, bs.len()), b);
            &&& r.len() == bs.len() + 1
            &&& r[pos] == b
            &&& r.remove(pos) == bs
        }),
{
    let t = insert_pos(index, bs.len());
    assert(bs.insert(t, b).remove(t) =~= bs);
}

} // verus!
