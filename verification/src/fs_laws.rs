//! Properties of the filesystem requests that span requests: what a read
//! returns after a write, that a created entry can be looked up, and that
//! an unlinked one cannot.
use vstd::prelude::*;
use crate::database::laws::{
    active_is_top, law_copy_on_write_keeps_the_inode, law_tombstone_hides, lemma_active_top_priority, lemma_copy_on_write_wf,
    lemma_layer_priority_at, lemma_top_last_max, lemma_top_strict_max,
};
use crate::database::models::{BlockView, InodeView};
use crate::database::reads::{child_rank, lemma_max_inode_id, listed_child, spec_get_next_inode_id};
use crate::database::writes::{
    layer_exists, lemma_upsert_block_wf, lemma_upsert_inode_wf, spec_copy_on_write, spec_delete_active_blocks, unlimited,
    spec_insert_inode, upsert_block_rows,
};
use crate::database::{
    active_id, block_rank, block_same_key, inode_id_rank, inode_name_rank, inode_same_key, inode_storable, layer_priority, lemma_top_ext, lemma_top_props, spec_get_block, spec_get_inode, spec_get_inode_by_name,
    tombstone_kind, top, DbError, DbView,
};
use crate::engine::{read_slice, spec_create, spec_unlink, spec_write, tombstone_row, write_bytes};

verus! {

/// Reading back the bytes just written at an offset gives those bytes.
pub proof fn lemma_read_written_bytes(old: Seq<u8>, offset: i64, data: Seq<u8>)
    requires
        0 <= offset,
        offset + data.len() <= usize::MAX,
        data.len() <= u32::MAX,
    ensures
        read_slice(write_bytes(old, offset as int, data), offset, data.len() as u32) == data,
{
    let w = write_bytes(old, offset as int, data);
    assert((offset as usize) as int == offset as int);
    if offset < w.len() {
        assert(w.subrange(offset as int, offset + data.len()) =~= data);
    } else {
        assert(data.len() == 0);
    }
}

/// Read after write: with no time-travel limit and the active layer on
/// top, a read of a file right after a successful write at an offset
/// returns exactly the bytes written.
pub proof fn law_write_then_read(v: DbView, ino: u64, offset: i64, data: Seq<u8>, t1: Seq<char>, t2: Seq<char>)
    requires
        v.wf(),
        v.head_priority is None,
        active_is_top(v),
        0 <= offset,
        offset + data.len() <= usize::MAX,
        data.len() <= u32::MAX,
        spec_write(v, ino, offset, data, t1, t2).1 is Ok,
    ensures
        spec_get_block(spec_write(v, ino, offset, data, t1, t2).0, ino, 0) matches Ok(b)
            && read_slice(b.data, offset, data.len() as u32) == data,
{
    let (v1, r) = spec_copy_on_write(v, ino, t1);
    lemma_copy_on_write_wf(v, ino, t1);
    assert(v1.layers == v.layers && v1.head_priority == v.head_priority && v1.schema);
    assert(ino <= crate::database::i64_max());
    let b = match spec_get_block(v1, ino, 0) {
        Ok(b) => b,
        Err(_) => BlockView { inode_id: ino, layer_id: active_id(), block_index: 0, data: Seq::empty() },
    };
    let nb = BlockView { inode_id: ino, layer_id: active_id(), block_index: 0, data: write_bytes(b.data, offset as int, data) };
    lemma_upsert_block_wf(v1, nb);
    let v2 = DbView { blocks: upsert_block_rows(v1.blocks, nb), ..v1 };
    let k = if exists|c: int| 0 <= c < v1.blocks.len() && block_same_key(v1.blocks[c], nb) {
        choose|c: int| 0 <= c < v1.blocks.len() && block_same_key(v1.blocks[c], nb)
    } else {
        v1.blocks.len() as int
    };
    assert(v2.blocks[k] == nb);
    let la = choose|l: int| 0 <= l < v.layers.len() && v.layers[l].layer_id == active_id();
    lemma_layer_priority_at(v.layers, la);
    let rank = block_rank(v2, ino, 0);
    assert forall|j: int| 0 <= j < v2.blocks.len() && j != k && #[trigger] rank(j) is Some implies
        rank(j).unwrap() < rank(k).unwrap() by {
        assert(!block_same_key(v2.blocks[j], v2.blocks[k]));
        let lj = choose|l: int| 0 <= l < v2.layers.len() && v2.layers[l].layer_id == v2.blocks[j].layer_id;
        lemma_layer_priority_at(v.layers, lj);
    }
    lemma_top_strict_max(rank, v2.blocks.len() as int, k);
    let w = spec_write(v, ino, offset, data, t1, t2).0;
    assert(w.blocks == v2.blocks && w.layers == v2.layers && w.head_priority == v2.head_priority && w.schema);
    lemma_top_ext(block_rank(w, ino, 0), rank, v2.blocks.len() as int);
    lemma_read_written_bytes(b.data, offset, data);
}

/// Truncation: with the active layer on top, after a size change to `s`
/// succeeds, block 0 of the file reads as at most `s` bytes; when it was
/// longer, it reads as its first `s` bytes.
pub proof fn law_setattr_truncates(
    v: DbView,
    ino: u64,
    mode: Option<u32>,
    s: u64,
    mtime: Option<Seq<char>>,
    now: Seq<char>,
)
    requires
        v.wf(),
        active_is_top(v),
        crate::engine::spec_setattr(v, ino, mode, Some(s), mtime, now).1 is Ok,
    ensures
        ({
            let w = crate::engine::spec_setattr(v, ino, mode, Some(s), mtime, now).0;
            let (v1, r) = spec_copy_on_write(v, ino, now);
            &&& spec_get_block(w, ino, 0) is Ok ==> spec_get_block(w, ino, 0).unwrap().data.len() <= s
            &&& spec_get_block(v1, ino, 0) is Ok && s < spec_get_block(v1, ino, 0).unwrap().data.len()
                ==> (spec_get_block(w, ino, 0) matches Ok(b)
                    && b.data == spec_get_block(v1, ino, 0).unwrap().data.take(s as int))
        }),
{
    let (v1, r) = spec_copy_on_write(v, ino, now);
    lemma_copy_on_write_wf(v, ino, now);
    assert(v1.layers == v.layers && v1.head_priority == v.head_priority && v1.schema);
    let i = r.unwrap();
    let i2 = crate::engine::with_attrs(i, mode, Some(s), mtime);
    let (v2, r2) = crate::database::writes::spec_update_inode(v1, i2);
    lemma_update_inode_wf(v1, i2);
    assert(v2.blocks == v1.blocks && v2.layers == v1.layers && v2.head_priority == v1.head_priority && v2.schema);
    lemma_top_ext(block_rank(v2, ino, 0), block_rank(v1, ino, 0), v1.blocks.len() as int);
    assert(spec_get_block(v2, ino, 0) == spec_get_block(v1, ino, 0));
    if spec_get_block(v2, ino, 0) is Ok && s < spec_get_block(v2, ino, 0).unwrap().data.len() {
        let b0 = spec_get_block(v2, ino, 0).unwrap();
        assert(ino <= crate::database::i64_max());
        let nb = crate::engine::truncated_block(ino, b0, s);
        lemma_upsert_block_wf(v2, nb);
        let v3 = DbView { blocks: upsert_block_rows(v2.blocks, nb), ..v2 };
        let k = if exists|c: int| 0 <= c < v2.blocks.len() && block_same_key(v2.blocks[c], nb) {
            choose|c: int| 0 <= c < v2.blocks.len() && block_same_key(v2.blocks[c], nb)
        } else {
            v2.blocks.len() as int
        };
        assert(v3.blocks[k] == nb);
        let la = choose|l: int| 0 <= l < v.layers.len() && v.layers[l].layer_id == active_id();
        lemma_layer_priority_at(v.layers, la);
        let rank = block_rank(v3, ino, 0);
        assert forall|j: int| 0 <= j < v3.blocks.len() && j != k && #[trigger] rank(j) is Some implies
            rank(j).unwrap() < rank(k).unwrap() by {
            assert(!block_same_key(v3.blocks[j], v3.blocks[k]));
            let lj = choose|l: int| 0 <= l < v3.layers.len() && v3.layers[l].layer_id == v3.blocks[j].layer_id;
            lemma_layer_priority_at(v.layers, lj);
        }
        lemma_top_strict_max(rank, v3.blocks.len() as int, k);
        let w = crate::engine::spec_setattr(v, ino, mode, Some(s), mtime, now).0;
        assert(w == v3);
    }
}

/// A created entry can be looked up: when a fresh inode id can be had and
/// reads may see the active layer, the entry that `mkdir` or `mknod` writes
/// is what a lookup of its id returns.
pub proof fn law_created_entry_visible(
    v: DbView,
    parent: u64,
    name: Seq<char>,
    kind: Seq<char>,
    size: u64,
    mode: u32,
    now: Seq<char>,
)
    requires
        v.wf(),
        crate::database::visible_priority(v, active_id()) is Some,
        spec_get_next_inode_id(v) is Ok,
        kind != tombstone_kind(),
        spec_create(v, parent, name, kind, size, mode, now).1 is Ok,
    ensures
        spec_get_inode(spec_create(v, parent, name, kind, size, mode, now).0,
            spec_create(v, parent, name, kind, size, mode, now).1.unwrap().inode_id)
            == Ok::<InodeView, DbError>(spec_create(v, parent, name, kind, size, mode, now).1.unwrap()),
{
    let e = spec_create(v, parent, name, kind, size, mode, now).1.unwrap();
    let w = spec_create(v, parent, name, kind, size, mode, now).0;
    lemma_max_inode_id(v.inodes);
    assert forall|c: int| 0 <= c < v.inodes.len() implies !inode_same_key(v.inodes[c], e) by {
        assert(v.inodes[c].inode_id < e.inode_id);
    }
    let n = v.inodes.len() as int;
    assert(w.inodes == v.inodes.push(e));
    let la = choose|l: int| 0 <= l < v.layers.len() && v.layers[l].layer_id == active_id();
    lemma_layer_priority_at(v.layers, la);
    let rank = inode_id_rank(w, e.inode_id);
    assert forall|j: int| 0 <= j < w.inodes.len() && j != n && #[trigger] rank(j) is Some implies
        rank(j).unwrap() < rank(n).unwrap() by {
        assert(w.inodes[j] == v.inodes[j]);
        assert(v.inodes[j].inode_id < e.inode_id);
    }
    lemma_top_strict_max(rank, w.inodes.len() as int, n);
}

/// A created entry can be looked up by name: with the active layer on top,
/// the entry that `mkdir` or `mknod` writes is what a lookup of its name in
/// its directory returns.
pub proof fn law_created_entry_found_by_name(
    v: DbView,
    parent: u64,
    name: Seq<char>,
    kind: Seq<char>,
    size: u64,
    mode: u32,
    now: Seq<char>,
)
    requires
        v.wf(),
        active_is_top(v),
        spec_get_next_inode_id(v) is Ok,
        kind != tombstone_kind(),
        spec_create(v, parent, name, kind, size, mode, now).1 is Ok,
    ensures
        spec_get_inode_by_name(spec_create(v, parent, name, kind, size, mode, now).0, parent, name)
            == Ok::<InodeView, DbError>(spec_create(v, parent, name, kind, size, mode, now).1.unwrap()),
{
    let e = spec_create(v, parent, name, kind, size, mode, now).1.unwrap();
    let w = spec_create(v, parent, name, kind, size, mode, now).0;
    lemma_max_inode_id(v.inodes);
    assert forall|c: int| 0 <= c < v.inodes.len() implies !inode_same_key(v.inodes[c], e) by {
        assert(v.inodes[c].inode_id < e.inode_id);
    }
    let n = v.inodes.len() as int;
    assert(w.inodes == v.inodes.push(e));
    let la = choose|l: int| 0 <= l < v.layers.len() && v.layers[l].layer_id == active_id();
    lemma_layer_priority_at(v.layers, la);
    let rank = inode_name_rank(w, parent, name);
    assert forall|j: int| 0 <= j < w.inodes.len() && #[trigger] rank(j) is Some implies
        rank(j).unwrap() <= rank(n).unwrap() by {
        lemma_active_top_priority(v, w.inodes[j].layer_id);
    }
    lemma_top_last_max(rank, w.inodes.len() as int, n);
}

/// Unlinking keeps the store well formed.
pub proof fn lemma_unlink_wf(v: DbView, parent: u64, name: Seq<char>, now: Seq<char>)
    requires
        v.wf(),
    ensures
        spec_unlink(v, parent, name, now).0.wf(),
{
    if let Ok(i) = spec_get_inode_by_name(v, parent, name) {
        let t = tombstone_row(i.inode_id, parent, name, now);
        if inode_storable(t) {
            lemma_upsert_inode_wf(v, t);
            let v1 = spec_insert_inode(v, t).0;
            let p = crate::database::writes::not_active_block_of(i.inode_id);
            crate::database::writes::lemma_keep_blocks(v1.blocks, p);
            let kept = v1.blocks.filter_map(crate::database::writes::keep_blocks_where(p));
            assert forall|a: int| 0 <= a < kept.len() implies crate::database::block_storable(#[trigger] kept[a]) by {
                let b = choose|b: int| 0 <= b < v1.blocks.len() && v1.blocks[b] == kept[a];
                assert(crate::database::block_storable(v1.blocks[b]));
            }
        }
    }
}

/// Deleting a file and creating one of the same name: with the active
/// layer on top, the creation succeeds with a new inode id, and a lookup of
/// the name finds the new entry.
pub proof fn law_recreate_after_unlink(
    v: DbView,
    parent: u64,
    name: Seq<char>,
    kind: Seq<char>,
    size: u64,
    mode: u32,
    t1: Seq<char>,
    t2: Seq<char>,
)
    requires
        v.wf(),
        active_is_top(v),
        spec_unlink(v, parent, name, t1).1 is Ok,
        spec_get_next_inode_id(spec_unlink(v, parent, name, t1).0) is Ok,
        kind != tombstone_kind(),
        size <= crate::database::i64_max(),
    ensures
        ({
            let w1 = spec_unlink(v, parent, name, t1).0;
            let (w2, r) = spec_create(w1, parent, name, kind, size, mode, t2);
            &&& r is Ok
            &&& r.unwrap().inode_id != spec_get_inode_by_name(v, parent, name).unwrap().inode_id
            &&& spec_get_inode_by_name(w2, parent, name) == Ok::<InodeView, DbError>(r.unwrap())
        }),
{
    let i = spec_get_inode_by_name(v, parent, name).unwrap();
    let w1 = spec_unlink(v, parent, name, t1).0;
    law_unlink_hides(v, parent, name, t1);
    lemma_unlink_wf(v, parent, name, t1);
    assert(w1.layers == v.layers && w1.head_priority == v.head_priority && w1.schema);
    let e = crate::engine::new_entry(w1, parent, name, kind, size, mode, t2);
    lemma_max_inode_id(w1.inodes);
    let a = choose|a: int| 0 <= a < w1.inodes.len() && w1.inodes[a] == tombstone_row(i.inode_id, parent, name, t1);
    assert(w1.inodes[a].inode_id < e.inode_id);
    assert(inode_storable(e));
    law_created_entry_found_by_name(w1, parent, name, kind, size, mode, t2);
}

/// Unlinking deletes exactly the active layer's blocks of the unlinked
/// inode: every block of another file, and every block of another layer,
/// stays as it was, and no active block of the unlinked inode remains.
pub proof fn law_unlink_drops_only_its_active_blocks(v: DbView, parent: u64, name: Seq<char>, now: Seq<char>)
    requires
        v.wf(),
        spec_unlink(v, parent, name, now).1 is Ok,
    ensures
        forall|b: BlockView| #[trigger] spec_unlink(v, parent, name, now).0.blocks.contains(b)
            <==> (v.blocks.contains(b) && !(b.inode_id == spec_get_inode_by_name(v, parent, name).unwrap().inode_id
                && b.layer_id == active_id())),
{
    let i = spec_get_inode_by_name(v, parent, name).unwrap();
    let t = tombstone_row(i.inode_id, parent, name, now);
    let v1 = spec_insert_inode(v, t).0;
    assert(v1.blocks == v.blocks);
    let p = crate::database::writes::not_active_block_of(i.inode_id);
    crate::database::writes::lemma_keep_blocks(v1.blocks, p);
    let kept = v1.blocks.filter_map(crate::database::writes::keep_blocks_where(p));
    let w = spec_unlink(v, parent, name, now).0;
    assert(w.blocks == kept);
    assert forall|b: BlockView| #[trigger] w.blocks.contains(b)
        <==> (v.blocks.contains(b) && !(b.inode_id == i.inode_id && b.layer_id == active_id())) by {
        if w.blocks.contains(b) {
            let a = choose|a: int| 0 <= a < kept.len() && kept[a] == b;
            assert(v.blocks.contains(kept[a]) && p(kept[a]));
        }
        if v.blocks.contains(b) && !(b.inode_id == i.inode_id && b.layer_id == active_id()) {
            let a = choose|a: int| 0 <= a < v.blocks.len() && v.blocks[a] == b;
            assert(p(v.blocks[a]));
            assert(kept.contains(v.blocks[a]));
        }
    }
}

/// The row that `top` selects among `rows` when a row is ranked by its
/// contents alone.
pub open spec fn top_block(rows: Seq<BlockView>, rank: spec_fn(BlockView) -> Option<i32>) -> Option<BlockView>
    decreases rows.len(),
{
    if rows.len() == 0 {
        None
    } else {
        let t = top_block(rows.drop_last(), rank);
        match rank(rows.last()) {
            None => t,
            Some(p) => match t {
                None => Some(rows.last()),
                Some(b) => if p >= rank(b).unwrap() {
                    Some(rows.last())
                } else {
                    Some(b)
                },
            },
        }
    }
}

proof fn lemma_top_block(rows: Seq<BlockView>, rank: spec_fn(BlockView) -> Option<i32>)
    ensures
        top_block(rows, rank) == match top(|k: int| rank(rows[k]), rows.len() as int) {
            Some(k) => Some(rows[k]),
            None => None::<BlockView>,
        },
    decreases rows.len(),
{
    if rows.len() > 0 {
        let d = rows.drop_last();
        lemma_top_block(d, rank);
        lemma_top_ext(|k: int| rank(rows[k]), |k: int| rank(d[k]), d.len() as int);
        lemma_top_props(|k: int| rank(rows[k]), d.len() as int);
    }
}

/// Dropping rows that no ranking admits leaves the selected row as it was.
proof fn lemma_top_block_filter(rows: Seq<BlockView>, rank: spec_fn(BlockView) -> Option<i32>, p: spec_fn(BlockView) -> bool)
    requires
        forall|k: int| 0 <= k < rows.len() && #[trigger] rank(rows[k]) is Some ==> p(rows[k]),
    ensures
        top_block(rows.filter_map(crate::database::writes::keep_blocks_where(p)), rank) == top_block(rows, rank),
    decreases rows.len(),
{
    if rows.len() > 0 {
        let d = rows.drop_last();
        assert forall|k: int| 0 <= k < d.len() && #[trigger] rank(d[k]) is Some implies p(d[k]) by {
            assert(rows[k] == d[k]);
        }
        lemma_top_block_filter(d, rank, p);
        let fd = d.filter_map(crate::database::writes::keep_blocks_where(p));
        let f = rows.filter_map(crate::database::writes::keep_blocks_where(p));
        if p(rows.last()) {
            assert(f == fd + seq![rows.last()]);
            assert(f.drop_last() =~= fd);
            assert(f.last() == rows.last());
        } else {
            assert(rows[rows.len() - 1] == rows.last());
            assert(f == fd);
        }
    }
}

/// Unlinking leaves every other file's content as it reads: each block of
/// a file with another inode id reads as before.
pub proof fn law_unlink_keeps_other_files(v: DbView, parent: u64, name: Seq<char>, now: Seq<char>, j: u64, index: i64)
    requires
        v.wf(),
        spec_unlink(v, parent, name, now).1 is Ok,
        j != spec_get_inode_by_name(v, parent, name).unwrap().inode_id,
    ensures
        spec_get_block(spec_unlink(v, parent, name, now).0, j, index) == spec_get_block(v, j, index),
{
    let i = spec_get_inode_by_name(v, parent, name).unwrap();
    let t = tombstone_row(i.inode_id, parent, name, now);
    let v1 = spec_insert_inode(v, t).0;
    let p = crate::database::writes::not_active_block_of(i.inode_id);
    let w = spec_unlink(v, parent, name, now).0;
    assert(w.blocks == v.blocks.filter_map(crate::database::writes::keep_blocks_where(p)));
    assert(w.layers == v.layers && w.head_priority == v.head_priority && w.schema == v.schema);
    let rank = |b: BlockView| if b.inode_id == j && b.block_index == index {
        crate::database::visible_priority(v, b.layer_id)
    } else {
        None
    };
    lemma_top_block(v.blocks, rank);
    lemma_top_block(w.blocks, rank);
    lemma_top_ext(block_rank(v, j, index), |k: int| rank(v.blocks[k]), v.blocks.len() as int);
    lemma_top_ext(block_rank(w, j, index), |k: int| rank(w.blocks[k]), w.blocks.len() as int);
    lemma_top_block_filter(v.blocks, rank, p);
}

/// A size, mode or mtime change touches only what was asked: the inode it
/// returns, and that the active layer now holds, is the newest version of
/// the file with the size, the permissions and the mtime replaced where a
/// new one was given, and kept otherwise (a copy into the active layer
/// stamps the mtime `now_cow`).
pub proof fn law_setattr_changes_only_what_is_asked(
    v: DbView,
    ino: u64,
    mode: Option<u32>,
    size: Option<u64>,
    mtime: Option<Seq<char>>,
    now_cow: Seq<char>,
)
    requires
        v.wf(),
        crate::engine::spec_setattr(v, ino, mode, size, mtime, now_cow).1 is Ok,
    ensures
        ({
            let old = spec_get_inode(unlimited(v), ino).unwrap();
            let (w, r) = crate::engine::spec_setattr(v, ino, mode, size, mtime, now_cow);
            let i = r.unwrap();
            &&& i.inode_id == ino
            &&& i.parent_id == old.parent_id
            &&& i.name == old.name
            &&& i.file_type == old.file_type
            &&& i.semantic_summary == old.semantic_summary
            &&& i.layer_id == active_id()
            &&& i.size == match size {
                Some(s) => s,
                None => old.size,
            }
            &&& i.permissions == match mode {
                Some(m) => m as u16,
                None => old.permissions,
            }
            &&& i.mtime == match mtime {
                Some(t) => t,
                None => if old.layer_id == active_id() { old.mtime } else { now_cow },
            }
            &&& w.inodes.contains(i)
        }),
{
    law_copy_on_write_keeps_the_inode(v, ino, now_cow);
    let (v1, r) = spec_copy_on_write(v, ino, now_cow);
    let i = r.unwrap();
    let i2 = crate::engine::with_attrs(i, mode, size, mtime);
    let (v2, r2) = crate::database::writes::spec_update_inode(v1, i2);
    let c = choose|c: int| 0 <= c < v1.inodes.len() && v1.inodes[c] == i;
    assert(v2.inodes[c] == crate::database::writes::updated_inode(v1.inodes[c], i2));
    assert(v2.inodes[c] == i2);
    let w = crate::engine::spec_setattr(v, ino, mode, size, mtime, now_cow).0;
    assert(w.inodes == v2.inodes);
}

/// A write changes the file's inode only in size and mtime: afterwards the
/// active layer holds the file with the id, directory, name, type,
/// permissions and summary of its newest version, and a size that grew to
/// the end of the write when the write reached past the old end.
pub proof fn law_write_keeps_the_inode(v: DbView, ino: u64, offset: i64, data: Seq<u8>, t1: Seq<char>, t2: Seq<char>)
    requires
        v.wf(),
        spec_write(v, ino, offset, data, t1, t2).1 is Ok,
    ensures
        ({
            let old = spec_get_inode(unlimited(v), ino).unwrap();
            let w = spec_write(v, ino, offset, data, t1, t2).0;
            &&& spec_write(v, ino, offset, data, t1, t2).1 == Ok::<u32, crate::engine::FsError>(data.len() as u32)
            &&& exists|i: InodeView| #[trigger] w.inodes.contains(i)
                && i.inode_id == ino
                && i.layer_id == active_id()
                && i.parent_id == old.parent_id
                && i.name == old.name
                && i.file_type == old.file_type
                && i.permissions == old.permissions
                && i.semantic_summary == old.semantic_summary
                && i.size == if offset + data.len() > old.size { (offset + data.len()) as u64 } else { old.size }
        }),
{
    law_copy_on_write_keeps_the_inode(v, ino, t1);
    let (v1, r) = spec_copy_on_write(v, ino, t1);
    let i = r.unwrap();
    let c = choose|c: int| 0 <= c < v1.inodes.len() && v1.inodes[c] == i;
    let b = match spec_get_block(v1, ino, 0) {
        Ok(b) => b,
        Err(_) => BlockView { inode_id: ino, layer_id: active_id(), block_index: 0, data: Seq::empty() },
    };
    let nb = BlockView { inode_id: ino, layer_id: active_id(), block_index: 0, data: write_bytes(b.data, offset as int, data) };
    let v2 = crate::database::writes::spec_upsert_block(v1, nb).0;
    assert(v2.inodes == v1.inodes);
    let w = spec_write(v, ino, offset, data, t1, t2).0;
    let end = offset + data.len();
    if end > i.size {
        let i3 = InodeView { size: end as u64, mtime: t2, ..i };
        let v3 = crate::database::writes::spec_update_inode(v2, i3).0;
        assert(v3.inodes[c] == crate::database::writes::updated_inode(v2.inodes[c], i3));
        assert(w.inodes[c] == i3);
        assert(w.inodes.contains(i3));
    } else {
        assert(w.inodes[c] == i);
        assert(w.inodes.contains(i));
    }
}

/// A directory listing opens with `.`, the directory itself, and `..`,
/// the directory's parent, both directories, before the entries.
pub proof fn law_listing_opens_with_dot_entries(v: DbView, ino: u64, s: Seq<InodeView>, es: Seq<crate::engine::DirEntryView>)
    requires
        spec_get_inode(v, ino) is Ok,
        es == crate::engine::dot_entries(ino, spec_get_inode(v, ino).unwrap().parent_id)
            + s.map_values(|i: InodeView| crate::engine::entry_of(i)),
    ensures
        es.len() == s.len() + 2,
        es[0].ino == ino,
        es[0].name == seq!['.'],
        es[0].kind == crate::engine::EntryKind::Directory,
        es[1].ino == spec_get_inode(v, ino).unwrap().parent_id,
        es[1].name == seq!['.', '.'],
        es[1].kind == crate::engine::EntryKind::Directory,
        forall|k: int| 0 <= k < s.len() ==> (#[trigger] es[k + 2]).ino == s[k].inode_id && es[k + 2].name == s[k].name,
{
}

/// Unlinking hides: after `unlink` succeeds, with the active layer on top,
/// the active layer holds a tombstone with the entry's inode id, directory
/// and name, and the entry can no longer be looked up by id or by name;
/// nor, unless the entry is the directory itself, is its name listed in
/// the directory.
pub proof fn law_unlink_hides(v: DbView, parent: u64, name: Seq<char>, now: Seq<char>)
    requires
        v.wf(),
        active_is_top(v),
        spec_unlink(v, parent, name, now).1 is Ok,
    ensures
        ({
            let i = spec_get_inode_by_name(v, parent, name).unwrap();
            let w = spec_unlink(v, parent, name, now).0;
            &&& w.inodes.contains(tombstone_row(i.inode_id, parent, name, now))
            &&& spec_get_inode(w, i.inode_id) == Err::<InodeView, DbError>(DbError::QueryReturnedNoRows)
            &&& spec_get_inode_by_name(w, parent, name) == Err::<InodeView, DbError>(DbError::QueryReturnedNoRows)
            &&& i.inode_id != parent ==> forall|k: int| #[trigger] listed_child(w, parent, k) ==> w.inodes[k].name != name
        }),
{
    let i = spec_get_inode_by_name(v, parent, name).unwrap();
    let n = v.inodes.len() as int;
    let nr = inode_name_rank(v, parent, name);
    lemma_top_props(nr, n);
    let k = top(nr, n).unwrap();
    assert(v.inodes[k] == i);
    assert(inode_storable(v.inodes[k]));
    let t = tombstone_row(i.inode_id, parent, name, now);
    law_tombstone_hides(v, t);
    lemma_upsert_inode_wf(v, t);
    let v1 = spec_insert_inode(v, t).0;
    let w = spec_unlink(v, parent, name, now).0;
    assert(w == spec_delete_active_blocks(v1, i.inode_id).0);
    assert(w.inodes == v1.inodes && w.layers == v.layers && w.schema && w.head_priority == v.head_priority);
    lemma_top_ext(inode_id_rank(w, i.inode_id), inode_id_rank(v1, i.inode_id), w.inodes.len() as int);
    let found = exists|c: int| 0 <= c < n && inode_same_key(v.inodes[c], t);
    let c = if found {
        choose|c: int| 0 <= c < n && inode_same_key(v.inodes[c], t)
    } else {
        n
    };
    assert(w.inodes[c] == t);
    assert(w.inodes.len() == if found { n } else { n + 1 });
    let la = choose|l: int| 0 <= l < v.layers.len() && v.layers[l].layer_id == active_id();
    lemma_layer_priority_at(v.layers, la);
    let pa = layer_priority(v.layers, active_id()).unwrap();
    let wr = inode_name_rank(w, parent, name);
    assert(wr(c) == Some(pa));
    assert forall|j: int| 0 <= j < w.inodes.len() && #[trigger] wr(j) is Some implies wr(j).unwrap() <= pa by {
        if j != c {
            assert(w.inodes[j] == v.inodes[j]);
            lemma_active_top_priority(v, v.inodes[j].layer_id);
        }
    }
    assert forall|j: int| c < j < w.inodes.len() && #[trigger] wr(j) is Some implies wr(j).unwrap() < pa by {
        assert(j < n);
        assert(w.inodes[j] == v.inodes[j]);
        lemma_active_top_priority(v, v.inodes[j].layer_id);
        if wr(j).unwrap() == pa {
            assert(nr(j) == Some(pa));
            lemma_active_top_priority(v, v.inodes[k].layer_id);
            assert(v.inodes[k].layer_id == active_id());
            assert(inode_same_key(v.inodes[k], t));
            if c != k {
                assert(!inode_same_key(v.inodes[c], v.inodes[k]));
            }
            assert(c == k);
        }
    }
    lemma_top_last_max(wr, w.inodes.len() as int, c);
    assert(w.inodes.contains(t));
    assert(spec_get_inode_by_name(w, parent, name) == Err::<InodeView, DbError>(DbError::QueryReturnedNoRows));
    if i.inode_id != parent {
        assert forall|k2: int| #[trigger] listed_child(w, parent, k2) implies w.inodes[k2].name != name by {
            if w.inodes[k2].name == name {
                let cr = child_rank(w, parent, name);
                assert forall|j: int| 0 <= j < w.inodes.len() && #[trigger] cr(j) is Some implies
                    cr(j).unwrap() <= cr(c).unwrap() by {
                    assert(wr(j) is Some);
                }
                assert forall|j: int| c < j < w.inodes.len() && #[trigger] cr(j) is Some implies
                    cr(j).unwrap() < cr(c).unwrap() by {
                    assert(wr(j) is Some);
                }
                lemma_top_last_max(cr, w.inodes.len() as int, c);
            }
        }
    }
}

} // verus!

verus! {

/// `w` has the same layers as `v` and the same rows outside the active
/// layer: the committed past is unchanged.
pub open spec fn same_history(v: DbView, w: DbView) -> bool {
    &&& w.layers == v.layers
    &&& forall|r: InodeView| r.layer_id != active_id() ==> (v.inodes.contains(r) <==> w.inodes.contains(r))
    &&& forall|b: BlockView| b.layer_id != active_id() ==> (v.blocks.contains(b) <==> w.blocks.contains(b))
}

proof fn lemma_upsert_inode_active(v: DbView, i: InodeView)
    requires
        v.wf(),
        i.layer_id == active_id(),
    ensures
        forall|r: InodeView| r.layer_id != active_id() ==> (v.inodes.contains(r) <==> crate::database::writes::upsert_inode_rows(v.inodes, i).contains(r)),
{
    let u = crate::database::writes::upsert_inode_rows(v.inodes, i);
    let k = if exists|c: int| 0 <= c < v.inodes.len() && inode_same_key(v.inodes[c], i) {
        choose|c: int| 0 <= c < v.inodes.len() && inode_same_key(v.inodes[c], i)
    } else {
        v.inodes.len() as int
    };
    assert forall|r: InodeView| r.layer_id != active_id() implies (v.inodes.contains(r) <==> u.contains(r)) by {
        if v.inodes.contains(r) {
            let a = choose|a: int| 0 <= a < v.inodes.len() && v.inodes[a] == r;
            assert(a != k);
            assert(u[a] == r);
        }
        if u.contains(r) {
            let a = choose|a: int| 0 <= a < u.len() && u[a] == r;
            assert(a != k);
            assert(v.inodes[a] == r);
        }
    }
}

proof fn lemma_upsert_block_active(v: DbView, b: BlockView)
    requires
        v.wf(),
        b.layer_id == active_id(),
    ensures
        forall|x: BlockView| x.layer_id != active_id() ==> (v.blocks.contains(x) <==> upsert_block_rows(v.blocks, b).contains(x)),
{
    let u = upsert_block_rows(v.blocks, b);
    let k = if exists|c: int| 0 <= c < v.blocks.len() && block_same_key(v.blocks[c], b) {
        choose|c: int| 0 <= c < v.blocks.len() && block_same_key(v.blocks[c], b)
    } else {
        v.blocks.len() as int
    };
    assert forall|x: BlockView| x.layer_id != active_id() implies (v.blocks.contains(x) <==> u.contains(x)) by {
        if v.blocks.contains(x) {
            let a = choose|a: int| 0 <= a < v.blocks.len() && v.blocks[a] == x;
            assert(a != k);
            assert(u[a] == x);
        }
        if u.contains(x) {
            let a = choose|a: int| 0 <= a < u.len() && u[a] == x;
            assert(a != k);
            assert(v.blocks[a] == x);
        }
    }
}

proof fn lemma_update_inode_active(v: DbView, i: InodeView)
    requires
        i.layer_id == active_id(),
    ensures
        forall|r: InodeView| r.layer_id != active_id() ==> (v.inodes.contains(r) <==>
            v.inodes.map_values(|x: InodeView| crate::database::writes::updated_inode(x, i)).contains(r)),
{
    let m = v.inodes.map_values(|x: InodeView| crate::database::writes::updated_inode(x, i));
    assert forall|r: InodeView| r.layer_id != active_id() implies (v.inodes.contains(r) <==> m.contains(r)) by {
        if v.inodes.contains(r) {
            let a = choose|a: int| 0 <= a < v.inodes.len() && v.inodes[a] == r;
            assert(m[a] == r);
        }
        if m.contains(r) {
            let a = choose|a: int| 0 <= a < m.len() && m[a] == r;
            assert(v.inodes[a] == r);
        }
    }
}

/// Writing to a file never changes the committed past: every layer and
/// every row outside the active layer is as it was.
pub proof fn law_write_keeps_history(v: DbView, ino: u64, offset: i64, data: Seq<u8>, t1: Seq<char>, t2: Seq<char>)
    requires
        v.wf(),
    ensures
        same_history(v, spec_write(v, ino, offset, data, t1, t2).0),
{
    let (v1, r) = spec_copy_on_write(v, ino, t1);
    crate::database::laws::law_copy_on_write_keeps_other_layers(v, ino, t1);
    lemma_copy_on_write_wf(v, ino, t1);
    if let Ok(i) = r {
        let b = match spec_get_block(v1, ino, 0) {
            Ok(b) => b,
            Err(_) => BlockView { inode_id: ino, layer_id: active_id(), block_index: 0, data: Seq::empty() },
        };
        let nb = BlockView { inode_id: ino, layer_id: active_id(), block_index: 0, data: write_bytes(b.data, offset as int, data) };
        lemma_upsert_block_active(v1, nb);
        assert(i.layer_id == active_id());
        let i2 = InodeView { size: (offset + data.len()) as u64, mtime: t2, ..i };
        let v2 = DbView { blocks: upsert_block_rows(v1.blocks, nb), ..v1 };
        lemma_update_inode_active(v2, i2);
    }
}

/// Changing attributes never changes the committed past.
pub proof fn law_setattr_keeps_history(v: DbView, ino: u64, mode: Option<u32>, size: Option<u64>, mtime: Option<Seq<char>>, now: Seq<char>)
    requires
        v.wf(),
    ensures
        same_history(v, crate::engine::spec_setattr(v, ino, mode, size, mtime, now).0),
{
    let (v1, r) = spec_copy_on_write(v, ino, now);
    crate::database::laws::law_copy_on_write_keeps_other_layers(v, ino, now);
    lemma_copy_on_write_wf(v, ino, now);
    if let Ok(i) = r {
        assert(i.layer_id == active_id());
        let i2 = crate::engine::with_attrs(i, mode, size, mtime);
        lemma_update_inode_active(v1, i2);
        let (v2, r2) = crate::database::writes::spec_update_inode(v1, i2);
        if r2 is Ok {
            lemma_update_inode_wf(v1, i2);
            if size is Some && spec_get_block(v2, ino, 0) is Ok {
                lemma_upsert_block_active(v2, crate::engine::truncated_block(ino, spec_get_block(v2, ino, 0).unwrap(), size.unwrap()));
            }
        }
    }
}

/// An update of size, permissions and mtime keeps the store well formed.
pub proof fn lemma_update_inode_wf(v: DbView, i: InodeView)
    requires
        v.wf(),
        crate::database::writes::spec_update_inode(v, i).1 is Ok,
    ensures
        crate::database::writes::spec_update_inode(v, i).0.wf(),
{
    let w = crate::database::writes::spec_update_inode(v, i).0;
    assert forall|a: int, b: int| 0 <= a < w.inodes.len() && 0 <= b < w.inodes.len() && a != b
        implies !inode_same_key(w.inodes[a], w.inodes[b]) by {
        assert(!inode_same_key(v.inodes[a], v.inodes[b]));
    }
    assert forall|a: int| 0 <= a < w.inodes.len() implies crate::database::inode_storable(#[trigger] w.inodes[a]) by {
        assert(crate::database::inode_storable(v.inodes[a]));
    }
}

/// Deleting a file never changes the committed past: the tombstone and the
/// deleted blocks are all in the active layer.
pub proof fn law_unlink_keeps_history(v: DbView, parent: u64, name: Seq<char>, now: Seq<char>)
    requires
        v.wf(),
    ensures
        same_history(v, spec_unlink(v, parent, name, now).0),
{
    if let Ok(i) = spec_get_inode_by_name(v, parent, name) {
        let t = tombstone_row(i.inode_id, parent, name, now);
        lemma_upsert_inode_active(v, t);
        let v1 = spec_insert_inode(v, t).0;
        let p = crate::database::writes::not_active_block_of(i.inode_id);
        crate::database::writes::lemma_keep_blocks(v1.blocks, p);
        let kept = v1.blocks.filter_map(crate::database::writes::keep_blocks_where(p));
        assert forall|x: BlockView| x.layer_id != active_id() implies (v1.blocks.contains(x) <==> kept.contains(x)) by {
            if v1.blocks.contains(x) {
                let a = choose|a: int| 0 <= a < v1.blocks.len() && v1.blocks[a] == x;
                assert(kept.contains(v1.blocks[a]));
            }
            if kept.contains(x) {
                let a = choose|a: int| 0 <= a < kept.len() && kept[a] == x;
                assert(v1.blocks.contains(kept[a]));
            }
        }
    }
}

/// Creating an entry never changes the committed past.
pub proof fn law_create_keeps_history(v: DbView, parent: u64, name: Seq<char>, kind: Seq<char>, size: u64, mode: u32, now: Seq<char>)
    requires
        v.wf(),
    ensures
        same_history(v, spec_create(v, parent, name, kind, size, mode, now).0),
{
    lemma_upsert_inode_active(v, crate::engine::new_entry(v, parent, name, kind, size, mode, now));
}

} // verus!
