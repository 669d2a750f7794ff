//! Properties of the layered store that span operations: what a read gives
//! back after a write, what a commit, a revert or a time-travel keeps, and
//! how the store is seeded.
use vstd::prelude::*;
use crate::database::models::{BlockView, InodeView, LayerView};
use crate::database::reads::{lemma_max_inode_id, spec_get_next_inode_id};
use crate::database::writes::{
    commit_priority_ok, layer_exists, lemma_upsert_inode_wf, new_active_layer, rename_block_row,
    rename_inode_row, rename_layer_row, spec_commit, spec_copy_on_write, spec_insert_inode,
    upsert_inode_rows,
};
use crate::database::{
    active_id, block_rank, block_same_key, head_limit, inode_id_rank, inode_name_rank,
    inode_same_key, inode_storable, layer_priority, lemma_top_ext, lemma_top_props,
    spec_get_block, spec_get_inode, spec_get_inode_by_name, tombstone_kind, top, DbError, DbView,
};

verus! {

/// The row that a ranking ranks strictly above every other row is selected.
pub proof fn lemma_top_strict_max(rank: spec_fn(int) -> Option<i32>, n: int, k: int)
    requires
        0 <= k < n,
        rank(k) is Some,
        forall|j: int| 0 <= j < n && j != k && #[trigger] rank(j) is Some ==> rank(j).unwrap() < rank(k).unwrap(),
    ensures
        top(rank, n) == Some(k),
{
    lemma_top_props(rank, n);
    let t = top(rank, n).unwrap();
    if t != k {
        assert(rank(t).unwrap() < rank(k).unwrap());
    }
}

/// The row that ranks at least as high as every row, and strictly above
/// every later one, is selected.
pub proof fn lemma_top_last_max(rank: spec_fn(int) -> Option<i32>, n: int, k: int)
    requires
        0 <= k < n,
        rank(k) is Some,
        forall|j: int| 0 <= j < n && #[trigger] rank(j) is Some ==> rank(j).unwrap() <= rank(k).unwrap(),
        forall|j: int| k < j < n && #[trigger] rank(j) is Some ==> rank(j).unwrap() < rank(k).unwrap(),
    ensures
        top(rank, n) == Some(k),
{
    lemma_top_props(rank, n);
    let t = top(rank, n).unwrap();
    assert(rank(t) is Some && rank(t).unwrap() <= rank(k).unwrap());
    assert(rank(k).unwrap() <= rank(t).unwrap());
}

/// With unique layer ids, the priority of a layer is read off its row.
pub proof fn lemma_layer_priority_at(layers: Seq<LayerView>, l: int)
    requires
        0 <= l < layers.len(),
        forall|i: int, j: int| 0 <= i < layers.len() && 0 <= j < layers.len() && i != j
            ==> layers[i].layer_id != layers[j].layer_id,
    ensures
        layer_priority(layers, layers[l].layer_id) == Some(layers[l].priority),
{
    let c = choose|c: int| 0 <= c < layers.len() && layers[c].layer_id == layers[l].layer_id;
    assert(c == l);
}

/// The layer named `id` has the priority `p` whenever every row of that
/// name has it and one exists.
pub proof fn lemma_layer_priority_all(layers: Seq<LayerView>, id: Seq<char>, p: i32)
    requires
        exists|l: int| 0 <= l < layers.len() && layers[l].layer_id == id,
        forall|l: int| 0 <= l < layers.len() && layers[l].layer_id == id ==> layers[l].priority == p,
    ensures
        layer_priority(layers, id) == Some(p),
{
}

/// The active layer exists, reads may see it, and every other layer has a
/// lower priority.
pub open spec fn active_is_top(v: DbView) -> bool {
    &&& layer_exists(v, active_id())
    &&& layer_priority(v.layers, active_id()).unwrap() <= head_limit(v)
    &&& forall|l: int| 0 <= l < v.layers.len() && v.layers[l].layer_id != active_id()
        ==> v.layers[l].priority < layer_priority(v.layers, active_id()).unwrap()
}

/// With the active layer on top, no visible layer has a higher priority
/// than the active one, and only the active layer has its priority.
pub proof fn lemma_active_top_priority(v: DbView, id: Seq<char>)
    requires
        v.wf(),
        active_is_top(v),
        crate::database::visible_priority(v, id) is Some,
    ensures
        crate::database::visible_priority(v, active_id()) == layer_priority(v.layers, active_id()),
        crate::database::visible_priority(v, id).unwrap() <= layer_priority(v.layers, active_id()).unwrap(),
        crate::database::visible_priority(v, id).unwrap() == layer_priority(v.layers, active_id()).unwrap()
            ==> id == active_id(),
{
    let la = choose|l: int| 0 <= l < v.layers.len() && v.layers[l].layer_id == active_id();
    lemma_layer_priority_at(v.layers, la);
    let li = choose|l: int| 0 <= l < v.layers.len() && v.layers[l].layer_id == id;
    lemma_layer_priority_at(v.layers, li);
}

/// Read after write: an inode written to the visible layer of highest
/// priority is what a lookup of its id returns, unless it is a tombstone,
/// which hides it.
pub proof fn law_insert_inode_then_get(v: DbView, i: InodeView)
    requires
        v.wf(),
        v.schema,
        inode_storable(i),
        layer_exists(v, i.layer_id),
        layer_priority(v.layers, i.layer_id).unwrap() <= head_limit(v),
        forall|l: int| 0 <= l < v.layers.len() && v.layers[l].layer_id != i.layer_id
            ==> v.layers[l].priority < layer_priority(v.layers, i.layer_id).unwrap(),
    ensures
        spec_get_inode(spec_insert_inode(v, i).0, i.inode_id) == if i.file_type == tombstone_kind() {
            Err::<InodeView, DbError>(DbError::QueryReturnedNoRows)
        } else {
            Ok(i)
        },
{
    let w = spec_insert_inode(v, i).0;
    lemma_upsert_inode_wf(v, i);
    let k = if exists|c: int| 0 <= c < v.inodes.len() && inode_same_key(v.inodes[c], i) {
        choose|c: int| 0 <= c < v.inodes.len() && inode_same_key(v.inodes[c], i)
    } else {
        v.inodes.len() as int
    };
    assert(w.inodes[k] == i);
    let li = choose|l: int| 0 <= l < v.layers.len() && v.layers[l].layer_id == i.layer_id;
    lemma_layer_priority_at(v.layers, li);
    let rank = inode_id_rank(w, i.inode_id);
    assert forall|j: int| 0 <= j < w.inodes.len() && j != k && #[trigger] rank(j) is Some implies
        rank(j).unwrap() < rank(k).unwrap() by {
        assert(!inode_same_key(w.inodes[j], w.inodes[k]));
        let lj = choose|l: int| 0 <= l < w.layers.len() && w.layers[l].layer_id == w.inodes[j].layer_id;
        lemma_layer_priority_at(v.layers, lj);
    }
    lemma_top_strict_max(rank, w.inodes.len() as int, k);
}

/// Deleting hides: after the tombstone for an entry is written to the
/// active layer, the entry's inode can no longer be looked up, by id or,
/// when no other active row has its name, by name.
pub proof fn law_tombstone_hides(v: DbView, i: InodeView)
    requires
        v.wf(),
        v.schema,
        active_is_top(v),
        inode_storable(i),
        i.layer_id == active_id(),
        i.file_type == tombstone_kind(),
    ensures
        spec_get_inode(spec_insert_inode(v, i).0, i.inode_id) == Err::<InodeView, DbError>(DbError::QueryReturnedNoRows),
        (forall|r: int| 0 <= r < v.inodes.len() && v.inodes[r].layer_id == active_id()
            && v.inodes[r].parent_id == i.parent_id && v.inodes[r].name == i.name
            ==> v.inodes[r].inode_id == i.inode_id)
            ==> spec_get_inode_by_name(spec_insert_inode(v, i).0, i.parent_id, i.name)
                == Err::<InodeView, DbError>(DbError::QueryReturnedNoRows),
{
    law_insert_inode_then_get(v, i);
    let w = spec_insert_inode(v, i).0;
    if forall|r: int| 0 <= r < v.inodes.len() && v.inodes[r].layer_id == active_id()
        && v.inodes[r].parent_id == i.parent_id && v.inodes[r].name == i.name
        ==> v.inodes[r].inode_id == i.inode_id {
        lemma_upsert_inode_wf(v, i);
        let k = if exists|c: int| 0 <= c < v.inodes.len() && inode_same_key(v.inodes[c], i) {
            choose|c: int| 0 <= c < v.inodes.len() && inode_same_key(v.inodes[c], i)
        } else {
            v.inodes.len() as int
        };
        assert(w.inodes[k] == i);
        let la = choose|l: int| 0 <= l < v.layers.len() && v.layers[l].layer_id == active_id();
        lemma_layer_priority_at(v.layers, la);
        let rank = inode_name_rank(w, i.parent_id, i.name);
        assert forall|j: int| 0 <= j < w.inodes.len() && j != k && #[trigger] rank(j) is Some implies
            rank(j).unwrap() < rank(k).unwrap() by {
            assert(!inode_same_key(w.inodes[j], w.inodes[k]));
            if j < v.inodes.len() {
                assert(w.inodes[j] == v.inodes[j]);
            }
            let lj = choose|l: int| 0 <= l < w.layers.len() && w.layers[l].layer_id == w.inodes[j].layer_id;
            lemma_layer_priority_at(v.layers, lj);
        }
        lemma_top_strict_max(rank, w.inodes.len() as int, k);
    }
}

/// Copy-on-write leaves every layer but the active one as it was: the rows
/// outside the active layer are the same before and after, and no layer is
/// added or changed.
pub proof fn law_copy_on_write_keeps_other_layers(v: DbView, id: u64, now: Seq<char>)
    requires
        v.wf(),
    ensures
        ({
            let w = spec_copy_on_write(v, id, now).0;
            &&& w.layers == v.layers
            &&& forall|r: InodeView| r.layer_id != active_id() ==> (v.inodes.contains(r) <==> w.inodes.contains(r))
            &&& forall|b: BlockView| b.layer_id != active_id() ==> (v.blocks.contains(b) <==> w.blocks.contains(b))
        }),
{
    let w = spec_copy_on_write(v, id, now).0;
    match spec_get_inode(crate::database::writes::unlimited(v), id) {
        Err(_) => {},
        Ok(i) => {
            if i.layer_id != active_id() {
                let ni = InodeView { layer_id: active_id(), mtime: now, ..i };
                let found = exists|c: int| 0 <= c < v.inodes.len() && inode_same_key(v.inodes[c], ni);
                let k = if found {
                    choose|c: int| 0 <= c < v.inodes.len() && inode_same_key(v.inodes[c], ni)
                } else {
                    v.inodes.len() as int
                };
                let ui = upsert_inode_rows(v.inodes, ni);
                assert forall|r: InodeView| r.layer_id != active_id() implies (v.inodes.contains(r) <==> ui.contains(r)) by {
                    if v.inodes.contains(r) {
                        let a = choose|a: int| 0 <= a < v.inodes.len() && v.inodes[a] == r;
                        assert(a != k);
                        assert(ui[a] == r);
                    }
                    if ui.contains(r) {
                        let a = choose|a: int| 0 <= a < ui.len() && ui[a] == r;
                        assert(a != k);
                        assert(v.inodes[a] == r);
                    }
                }
                crate::database::writes::lemma_layer_copies(v.blocks, id, i.layer_id);
                let copies = v.blocks.filter_map(crate::database::writes::layer_copy(id, i.layer_id));
                let nb = v.blocks + copies;
                assert forall|b: BlockView| b.layer_id != active_id() implies (v.blocks.contains(b) <==> nb.contains(b)) by {
                    if v.blocks.contains(b) {
                        let a = choose|a: int| 0 <= a < v.blocks.len() && v.blocks[a] == b;
                        assert(nb[a] == b);
                    }
                    if nb.contains(b) {
                        let a = choose|a: int| 0 <= a < nb.len() && nb[a] == b;
                        if a >= v.blocks.len() {
                            assert(copies[a - v.blocks.len()] == b);
                        } else {
                            assert(v.blocks[a] == b);
                        }
                    }
                }
            }
        },
    }
}

/// Copy-on-write keeps the file as it is: the inode it returns, and that
/// the active layer now holds, is the newest version of the file with only
/// its layer (now the active one) and, when it was copied, its mtime (now
/// `now`) changed; id, directory, name, type, size, permissions and summary
/// are those of the newest version.
pub proof fn law_copy_on_write_keeps_the_inode(v: DbView, id: u64, now: Seq<char>)
    requires
        v.wf(),
        spec_copy_on_write(v, id, now).1 is Ok,
    ensures
        ({
            let old = spec_get_inode(crate::database::writes::unlimited(v), id).unwrap();
            let (w, r) = spec_copy_on_write(v, id, now);
            let i = r.unwrap();
            &&& spec_get_inode(crate::database::writes::unlimited(v), id) is Ok
            &&& i.inode_id == id
            &&& i.inode_id == old.inode_id
            &&& i.parent_id == old.parent_id
            &&& i.name == old.name
            &&& i.file_type == old.file_type
            &&& i.size == old.size
            &&& i.permissions == old.permissions
            &&& i.semantic_summary == old.semantic_summary
            &&& i.layer_id == active_id()
            &&& i.mtime == if old.layer_id == active_id() { old.mtime } else { now }
            &&& w.inodes.contains(i)
        }),
{
    let u = crate::database::writes::unlimited(v);
    let old = spec_get_inode(u, id).unwrap();
    lemma_top_props(inode_id_rank(u, id), u.inodes.len() as int);
    let k = top(inode_id_rank(u, id), u.inodes.len() as int).unwrap();
    assert(v.inodes[k] == old);
    assert(old.inode_id == id);
    if old.layer_id != active_id() {
        let ni = InodeView { layer_id: active_id(), mtime: now, ..old };
        let c = if exists|c: int| 0 <= c < v.inodes.len() && inode_same_key(v.inodes[c], ni) {
            choose|c: int| 0 <= c < v.inodes.len() && inode_same_key(v.inodes[c], ni)
        } else {
            v.inodes.len() as int
        };
        assert(upsert_inode_rows(v.inodes, ni)[c] == ni);
    }
}

/// A lookup result with the active layer renamed `name`.
pub open spec fn renamed_inode_result(r: Result<InodeView, DbError>, name: Seq<char>) -> Result<InodeView, DbError> {
    match r {
        Ok(i) => Ok(rename_inode_row(i, name)),
        Err(e) => Err(e),
    }
}

pub open spec fn renamed_block_result(r: Result<BlockView, DbError>, name: Seq<char>) -> Result<BlockView, DbError> {
    match r {
        Ok(b) => Ok(rename_block_row(b, name)),
        Err(e) => Err(e),
    }
}

/// After a commit, the layer that a row of layer `l` now names has the
/// priority that `l` had.
proof fn lemma_commit_layer_priority(v: DbView, name: Seq<char>, now: Seq<char>, l: Seq<char>)
    requires
        v.wf(),
        v.schema,
        commit_priority_ok(v),
        spec_commit(v, name, now).1 is Ok,
        l != name,
    ensures
        layer_priority(spec_commit(v, name, now).0.layers, if l == active_id() { name } else { l })
            == layer_priority(v.layers, l),
{
    let w = spec_commit(v, name, now).0;
    let p = layer_priority(v.layers, active_id()).unwrap();
    if name == active_id() {
        let la = choose|c: int| 0 <= c < v.layers.len() && v.layers[c].layer_id == active_id();
        let renamed = v.layers.map_values(|x: LayerView| rename_layer_row(x, name));
        assert(renamed[la].layer_id == active_id());
        assert(false);
    }
    assert(!layer_exists(v, name));
    let renamed = v.layers.map_values(|x: LayerView| rename_layer_row(x, name));
    assert(w.layers == renamed.push(new_active_layer(name, (p + 1) as i32, now)));
    let target = if l == active_id() { name } else { l };
    if exists|c: int| 0 <= c < v.layers.len() && v.layers[c].layer_id == l {
        let c = choose|c: int| 0 <= c < v.layers.len() && v.layers[c].layer_id == l;
        lemma_layer_priority_at(v.layers, c);
        assert(w.layers[c].layer_id == target);
        assert forall|x: int| 0 <= x < w.layers.len() && w.layers[x].layer_id == target implies
            w.layers[x].priority == v.layers[c].priority by {
            if x < v.layers.len() {
                if v.layers[x].layer_id == active_id() {
                    assert(l == active_id());
                } else {
                    assert(v.layers[x].layer_id == l);
                }
                assert(x == c);
            }
        }
        lemma_layer_priority_all(w.layers, target, v.layers[c].priority);
    } else {
        assert forall|x: int| 0 <= x < w.layers.len() implies w.layers[x].layer_id != target by {
            if x < v.layers.len() {
                if v.layers[x].layer_id == active_id() && l == active_id() {
                    assert(v.layers[x].layer_id == l);
                }
            }
        }
    }
}

/// A commit changes nothing that can be read: every inode and every block
/// reads as before, only with the active layer's name replaced by the
/// commit's — given that no row already carries that name.
pub proof fn law_commit_preserves_view(v: DbView, name: Seq<char>, now: Seq<char>, id: u64, index: i64)
    requires
        v.wf(),
        commit_priority_ok(v),
        spec_commit(v, name, now).1 is Ok,
        forall|k: int| 0 <= k < v.inodes.len() ==> #[trigger] v.inodes[k].layer_id != name,
        forall|k: int| 0 <= k < v.blocks.len() ==> #[trigger] v.blocks[k].layer_id != name,
    ensures
        spec_get_inode(spec_commit(v, name, now).0, id) == renamed_inode_result(spec_get_inode(v, id), name),
        spec_get_block(spec_commit(v, name, now).0, id, index) == renamed_block_result(spec_get_block(v, id, index), name),
{
    let w = spec_commit(v, name, now).0;
    assert(v.schema);
    assert(w.schema == v.schema && w.head_priority == v.head_priority);
    assert(w.inodes == v.inodes.map_values(|x: InodeView| rename_inode_row(x, name)));
    assert(w.blocks == v.blocks.map_values(|x: BlockView| rename_block_row(x, name)));
    let r1 = inode_id_rank(v, id);
    let r2 = inode_id_rank(w, id);
    assert forall|j: int| 0 <= j < v.inodes.len() implies #[trigger] r1(j) == r2(j) by {
        lemma_commit_layer_priority(v, name, now, v.inodes[j].layer_id);
    }
    lemma_top_ext(r1, r2, v.inodes.len() as int);
    lemma_top_props(r1, v.inodes.len() as int);
    let b1 = block_rank(v, id, index);
    let b2 = block_rank(w, id, index);
    assert(head_limit(v) == head_limit(w));
    assert forall|j: int| 0 <= j < v.blocks.len() implies #[trigger] b1(j) == b2(j) by {
        lemma_commit_layer_priority(v, name, now, v.blocks[j].layer_id);
    }
    lemma_top_ext(b1, b2, v.blocks.len() as int);
    lemma_top_props(b1, v.blocks.len() as int);
}

/// A commit changes no lookup by name: the entry named `entry` in directory
/// `parent` reads as before, only with the active layer's name replaced by
/// the commit's — given that no row already carries that name.
pub proof fn law_commit_preserves_lookup_by_name(v: DbView, name: Seq<char>, now: Seq<char>, parent: u64, entry: Seq<char>)
    requires
        v.wf(),
        commit_priority_ok(v),
        spec_commit(v, name, now).1 is Ok,
        forall|k: int| 0 <= k < v.inodes.len() ==> #[trigger] v.inodes[k].layer_id != name,
    ensures
        spec_get_inode_by_name(spec_commit(v, name, now).0, parent, entry)
            == renamed_inode_result(spec_get_inode_by_name(v, parent, entry), name),
{
    let w = spec_commit(v, name, now).0;
    assert(v.schema);
    assert(w.schema == v.schema && w.head_priority == v.head_priority);
    assert(w.inodes == v.inodes.map_values(|x: InodeView| rename_inode_row(x, name)));
    let n1 = inode_name_rank(v, parent, entry);
    let n2 = inode_name_rank(w, parent, entry);
    assert forall|j: int| 0 <= j < v.inodes.len() implies #[trigger] n1(j) == n2(j) by {
        lemma_commit_layer_priority(v, name, now, v.inodes[j].layer_id);
    }
    lemma_top_ext(n1, n2, v.inodes.len() as int);
    lemma_top_props(n1, v.inodes.len() as int);
}

/// The priorities of `layers` are pairwise distinct.
pub open spec fn distinct_priorities(layers: Seq<LayerView>) -> bool {
    forall|a: int, b: int| 0 <= a < layers.len() && 0 <= b < layers.len() && a != b
        ==> layers[a].priority != layers[b].priority
}

/// The active layer exists and every other layer has a lower priority.
pub open spec fn active_highest(layers: Seq<LayerView>) -> bool {
    &&& exists|l: int| 0 <= l < layers.len() && layers[l].layer_id == active_id()
    &&& forall|l: int| 0 <= l < layers.len() && layers[l].layer_id != active_id()
        ==> layers[l].priority < layer_priority(layers, active_id()).unwrap()
}

/// A commit keeps the active layer uniquely on top: the new active layer
/// has the old one's priority plus one, above every other layer, and
/// distinct priorities stay distinct; with no time-travel limit, reads see
/// the new active layer above all others.
pub proof fn law_commit_keeps_active_on_top(v: DbView, name: Seq<char>, now: Seq<char>)
    requires
        v.wf(),
        commit_priority_ok(v),
        spec_commit(v, name, now).1 is Ok,
        active_highest(v.layers),
    ensures
        layer_priority(spec_commit(v, name, now).0.layers, active_id())
            == Some((layer_priority(v.layers, active_id()).unwrap() + 1) as i32),
        active_highest(spec_commit(v, name, now).0.layers),
        distinct_priorities(v.layers) ==> distinct_priorities(spec_commit(v, name, now).0.layers),
        v.head_priority is None ==> active_is_top(spec_commit(v, name, now).0),
{
    let w = spec_commit(v, name, now).0;
    let p = layer_priority(v.layers, active_id()).unwrap();
    let la = choose|l: int| 0 <= l < v.layers.len() && v.layers[l].layer_id == active_id();
    lemma_layer_priority_at(v.layers, la);
    if name == active_id() {
        let renamed = v.layers.map_values(|x: LayerView| rename_layer_row(x, name));
        assert(renamed[la].layer_id == active_id());
        assert(false);
    }
    let renamed = v.layers.map_values(|x: LayerView| rename_layer_row(x, name));
    let na = new_active_layer(name, (p + 1) as i32, now);
    assert(w.layers == renamed.push(na));
    let m = v.layers.len() as int;
    assert forall|l: int| 0 <= l < m implies #[trigger] w.layers[l].priority <= p by {
        assert(w.layers[l].priority == v.layers[l].priority);
    }
    assert forall|l: int| 0 <= l < m implies #[trigger] w.layers[l].layer_id != active_id() by {
        assert(w.layers[l] == rename_layer_row(v.layers[l], name));
    }
    assert forall|x: int| 0 <= x < w.layers.len() && w.layers[x].layer_id == active_id() implies
        w.layers[x].priority == (p + 1) as i32 by {
        if x < m {
            assert(w.layers[x].layer_id != active_id());
        }
    }
    assert(w.layers[m] == na);
    lemma_layer_priority_all(w.layers, active_id(), (p + 1) as i32);
    if distinct_priorities(v.layers) {
        assert forall|a: int, b: int| 0 <= a < w.layers.len() && 0 <= b < w.layers.len() && a != b
            implies w.layers[a].priority != w.layers[b].priority by {
            if a < m && b < m {
                assert(w.layers[a].priority == v.layers[a].priority);
                assert(w.layers[b].priority == v.layers[b].priority);
            }
        }
    }
}

/// The next inode id is fresh: larger than every id in use.
pub proof fn law_next_inode_id_is_fresh(v: DbView)
    requires
        v.wf(),
    ensures
        spec_get_next_inode_id(v) matches Ok(n) ==> forall|k: int| 0 <= k < v.inodes.len()
            ==> #[trigger] v.inodes[k].inode_id < n,
{
    lemma_max_inode_id(v.inodes);
}

} // verus!

verus! {

/// Reverting discards exactly the uncommitted changes: no row of the active
/// layer is left, every row of every other layer is kept, and the layers
/// themselves are untouched.
pub proof fn law_revert_discards_active_rows(v: DbView)
    requires
        v.wf(),
        v.schema,
    ensures
        ({
            let w = crate::database::history::spec_revert(v).0;
            &&& w.layers == v.layers
            &&& forall|r: InodeView| w.inodes.contains(r) <==> (v.inodes.contains(r) && r.layer_id != active_id())
            &&& forall|b: BlockView| w.blocks.contains(b) <==> (v.blocks.contains(b) && b.layer_id != active_id())
        }),
{
    let w = crate::database::history::spec_revert(v).0;
    crate::database::writes::lemma_keep_inodes(v.inodes, |i: InodeView| i.layer_id != active_id());
    crate::database::writes::lemma_keep_blocks(v.blocks, |b: BlockView| b.layer_id != active_id());
    assert forall|r: InodeView| w.inodes.contains(r) <==> (v.inodes.contains(r) && r.layer_id != active_id()) by {
        if w.inodes.contains(r) {
            let a = choose|a: int| 0 <= a < w.inodes.len() && w.inodes[a] == r;
            assert(v.inodes.contains(w.inodes[a]));
        }
        if v.inodes.contains(r) && r.layer_id != active_id() {
            let a = choose|a: int| 0 <= a < v.inodes.len() && v.inodes[a] == r;
            assert(w.inodes.contains(v.inodes[a]));
        }
    }
    assert forall|b: BlockView| w.blocks.contains(b) <==> (v.blocks.contains(b) && b.layer_id != active_id()) by {
        if w.blocks.contains(b) {
            let a = choose|a: int| 0 <= a < w.blocks.len() && w.blocks[a] == b;
            assert(v.blocks.contains(w.blocks[a]));
        }
        if v.blocks.contains(b) && b.layer_id != active_id() {
            let a = choose|a: int| 0 <= a < v.blocks.len() && v.blocks[a] == b;
            assert(w.blocks.contains(v.blocks[a]));
        }
    }
}

/// Time travel: after checking out a layer, reads only ever return rows
/// from layers at or below the checked-out layer's priority.
pub proof fn law_checkout_limits_reads(v: DbView, name: Seq<char>, id: u64, index: i64)
    requires
        v.wf(),
        name != crate::database::history::latest_name(),
        crate::database::history::spec_checkout(v, name).1 is Ok,
    ensures
        ({
            let w = crate::database::history::spec_checkout(v, name).0;
            let limit = layer_priority(v.layers, name).unwrap();
            &&& spec_get_block(w, id, index) matches Ok(b) ==> {
                &&& layer_priority(w.layers, b.layer_id) is Some
                &&& layer_priority(w.layers, b.layer_id).unwrap() <= limit
            }
            &&& spec_get_inode(w, id) matches Ok(i) ==> {
                &&& layer_priority(w.layers, i.layer_id) is Some
                &&& layer_priority(w.layers, i.layer_id).unwrap() <= limit
            }
        }),
{
    let w = crate::database::history::spec_checkout(v, name).0;
    lemma_top_props(block_rank(w, id, index), w.blocks.len() as int);
    lemma_top_props(inode_id_rank(w, id), w.inodes.len() as int);
}

/// Checking out `latest` after any checkout returns to the present: the
/// store is as it was before, when it had no time-travel limit.
pub proof fn law_checkout_latest_returns(v: DbView, name: Seq<char>)
    requires
        v.wf(),
        v.head_priority is None,
    ensures
        crate::database::history::spec_checkout(
            crate::database::history::spec_checkout(v, name).0,
            crate::database::history::latest_name(),
        ).0 == v,
{
}

/// Seeding is idempotent: once seeding has succeeded, seeding again (at
/// any time) succeeds and changes nothing.
pub proof fn law_bootstrap_idempotent(v: DbView, t1: Seq<char>, t2: Seq<char>, t3: Seq<char>, t4: Seq<char>)
    requires
        v.wf(),
        crate::database::setup::spec_bootstrap(v, t1, t2).1 is Ok,
    ensures
        crate::database::setup::spec_bootstrap(crate::database::setup::spec_bootstrap(v, t1, t2).0, t3, t4)
            == (crate::database::setup::spec_bootstrap(v, t1, t2).0, Ok::<(), DbError>(())),
{
    let w = crate::database::setup::spec_bootstrap(v, t1, t2).0;
    let v0 = crate::database::setup::spec_init_schema(v);
    if !layer_exists(v0, crate::database::base_id()) {
        let (v1, r1) = crate::database::writes::spec_insert_layer(v0, crate::database::setup::seed_base_layer(t1));
        assert(v1.layers[v0.layers.len() as int].layer_id == crate::database::base_id());
        assert(w.layers.len() >= v1.layers.len());
        assert(w.layers[v0.layers.len() as int] == v1.layers[v0.layers.len() as int]);
    }
    assert(layer_exists(w, crate::database::base_id()));
    assert(w.schema);
    assert(crate::database::setup::spec_init_schema(w) == w);
}

/// Resetting gives the factory state: after the tables are wiped and the
/// store is seeded again, it holds exactly the base and active layers, the
/// root directory and the greeting file with its block.
pub proof fn law_reset_gives_factory_state(v: DbView, t1: Seq<char>, t2: Seq<char>)
    requires
        v.wf(),
    ensures
        crate::database::setup::spec_bootstrap(crate::database::setup::spec_wipe(v), t1, t2) == (
            crate::database::setup::factory_state(v.head_priority, t1, t2),
            Ok::<(), DbError>(()),
        ),
{
    let v0 = crate::database::setup::spec_init_schema(crate::database::setup::spec_wipe(v));
    assert(!layer_exists(v0, crate::database::base_id()));
    let (v1, r1) = crate::database::writes::spec_insert_layer(v0, crate::database::setup::seed_base_layer(t1));
    assert(!layer_exists(v1, active_id())) by {
        assert(v1.layers.len() == 1);
        assert(v1.layers[0].layer_id == crate::database::base_id());
        assert(crate::database::base_id()[0] != active_id()[0]);
    }
    let (v2, r2) = crate::database::writes::spec_insert_layer(v1, crate::database::setup::seed_active_layer(t1));
    let (v3, r3) = spec_insert_inode(v2, crate::database::setup::seed_root(t1));
    assert(v3.inodes =~= seq![crate::database::setup::seed_root(t1)]);
    let (v4, r4) = spec_insert_inode(v3, crate::database::setup::seed_greeting(t2));
    assert(!inode_same_key(v3.inodes[0], crate::database::setup::seed_greeting(t2)));
    assert(v4.inodes =~= seq![crate::database::setup::seed_root(t1), crate::database::setup::seed_greeting(t2)]);
    assert(v4.blocks.len() == 0);
    assert(v1.layers =~= seq![crate::database::setup::seed_base_layer(t1)]);
    assert(v2.layers =~= seq![crate::database::setup::seed_base_layer(t1), crate::database::setup::seed_active_layer(t1)]);
    let (v5, r5) = crate::database::writes::spec_insert_block(v4, crate::database::setup::seed_greeting_block());
    assert(v5.blocks =~= seq![crate::database::setup::seed_greeting_block()]);
}

} // verus!

verus! {

/// Copy-on-write keeps the store well formed.
pub proof fn lemma_copy_on_write_wf(v: DbView, id: u64, now: Seq<char>)
    requires
        v.wf(),
    ensures
        spec_copy_on_write(v, id, now).0.wf(),
{
    match spec_get_inode(crate::database::writes::unlimited(v), id) {
        Err(_) => {},
        Ok(i) => {
            if i.layer_id != active_id() {
                let ni = InodeView { layer_id: active_id(), mtime: now, ..i };
                let u = crate::database::writes::unlimited(v);
                lemma_top_props(inode_id_rank(u, id), u.inodes.len() as int);
                let k = top(inode_id_rank(u, id), u.inodes.len() as int).unwrap();
                assert(inode_storable(v.inodes[k]));
                lemma_upsert_inode_wf(v, ni);
                let v1 = DbView { inodes: upsert_inode_rows(v.inodes, ni), ..v };
                let copies = v.blocks.filter_map(crate::database::writes::layer_copy(id, i.layer_id));
                crate::database::writes::lemma_layer_copies(v.blocks, id, i.layer_id);
                if crate::database::writes::blocks_fresh(v.blocks, copies) {
                    let nb = v.blocks + copies;
                    assert forall|a: int, b: int| 0 <= a < nb.len() && 0 <= b < nb.len() && a != b
                        implies !block_same_key(nb[a], nb[b]) by {
                        let n = v.blocks.len() as int;
                        if a < n && b >= n {
                            assert(!block_same_key(v.blocks[a], copies[b - n]));
                        } else if b < n && a >= n {
                            assert(!block_same_key(v.blocks[b], copies[a - n]));
                        } else if a >= n && b >= n {
                            if a < b {
                                assert(!block_same_key(copies[a - n], copies[b - n]));
                            } else {
                                assert(!block_same_key(copies[b - n], copies[a - n]));
                            }
                        }
                    }
                    assert forall|a: int| 0 <= a < nb.len() implies crate::database::block_storable(#[trigger] nb[a]) by {
                        if a >= v.blocks.len() {
                            assert(copies[a - v.blocks.len()].inode_id == id);
                        }
                    }
                }
            }
        },
    }
}

} // verus!

verus! {

/// A commit leaves every directory listing as it was, with the active
/// layer's name replaced by the commit's — given that no row already
/// carries that name.
pub proof fn law_commit_preserves_listing(v: DbView, name: Seq<char>, now: Seq<char>, parent: u64, s: Seq<InodeView>)
    requires
        v.wf(),
        commit_priority_ok(v),
        spec_commit(v, name, now).1 is Ok,
        forall|k: int| 0 <= k < v.inodes.len() ==> #[trigger] v.inodes[k].layer_id != name,
        crate::database::reads::children_listing(v, parent, s),
    ensures
        crate::database::reads::children_listing(
            spec_commit(v, name, now).0,
            parent,
            s.map_values(|i: InodeView| rename_inode_row(i, name)),
        ),
{
    let w = spec_commit(v, name, now).0;
    assert(v.schema);
    assert(w.inodes == v.inodes.map_values(|x: InodeView| rename_inode_row(x, name)));
    let s2 = s.map_values(|i: InodeView| rename_inode_row(i, name));
    assert forall|nm: Seq<char>| #[trigger] top(crate::database::reads::child_rank(w, parent, nm), w.inodes.len() as int)
        == top(crate::database::reads::child_rank(v, parent, nm), v.inodes.len() as int) by {
        let r1 = crate::database::reads::child_rank(v, parent, nm);
        let r2 = crate::database::reads::child_rank(w, parent, nm);
        assert forall|j: int| 0 <= j < v.inodes.len() implies #[trigger] r1(j) == r2(j) by {
            lemma_commit_layer_priority(v, name, now, v.inodes[j].layer_id);
        }
        lemma_top_ext(r1, r2, v.inodes.len() as int);
    }
    assert forall|k: int| crate::database::reads::listed_child(w, parent, k)
        <==> #[trigger] crate::database::reads::listed_child(v, parent, k) by {
        if 0 <= k < v.inodes.len() {
            assert(w.inodes[k].name == v.inodes[k].name);
            assert(top(crate::database::reads::child_rank(w, parent, w.inodes[k].name), w.inodes.len() as int)
                == top(crate::database::reads::child_rank(v, parent, v.inodes[k].name), v.inodes.len() as int));
        }
    }
    assert forall|a: int, b: int| 0 <= a < b < s2.len() implies
        crate::text::name_lt(#[trigger] s2[a].name, #[trigger] s2[b].name) by {
        assert(s2[a].name == s[a].name && s2[b].name == s[b].name);
    }
    assert forall|x: InodeView| s2.contains(x) <==>
        exists|k: int| crate::database::reads::listed_child(w, parent, k) && w.inodes[k] == x by {
        if s2.contains(x) {
            let a = choose|a: int| 0 <= a < s2.len() && s2[a] == x;
            assert(s.contains(s[a]));
            let k = choose|k: int| crate::database::reads::listed_child(v, parent, k) && v.inodes[k] == s[a];
            assert(crate::database::reads::listed_child(w, parent, k));
            assert(w.inodes[k] == x);
        }
        if exists|k: int| crate::database::reads::listed_child(w, parent, k) && w.inodes[k] == x {
            let k = choose|k: int| crate::database::reads::listed_child(w, parent, k) && w.inodes[k] == x;
            assert(crate::database::reads::listed_child(v, parent, k));
            assert(s.contains(v.inodes[k]));
            let a = choose|a: int| 0 <= a < s.len() && s[a] == v.inodes[k];
            assert(s2[a] == x);
        }
    }
}

} // verus!
