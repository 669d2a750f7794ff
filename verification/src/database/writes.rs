//! Row writes: inserts that keep primary keys unique, replacing writes, and
//! field updates.
use vstd::prelude::*;
use crate::database::models::{Block, BlockView, Inode, InodeView, Layer, LayerView};
use crate::database::{
    active_id, base_id, block_same_key, block_storable, blocks_view, i64_max, inode_id_rank,
    inode_result_view, inode_same_key, inode_storable, inodes_view, layer_priority, layers_view,
    lemma_top_props, spec_get_inode, top,
    DbError, DbView, LayeredDb,
};
use crate::clock::{clock_reading, now_rfc3339};
use crate::text::{owned, str_eq};

verus! {

/// `rows` with `row` written under its key: it replaces the row with the
/// same key, or is appended when there is none.
pub open spec fn upsert_inode_rows(rows: Seq<InodeView>, row: InodeView) -> Seq<InodeView> {
    if exists|k: int| 0 <= k < rows.len() && inode_same_key(rows[k], row) {
        rows.update(choose|k: int| 0 <= k < rows.len() && inode_same_key(rows[k], row), row)
    } else {
        rows.push(row)
    }
}

pub open spec fn upsert_block_rows(rows: Seq<BlockView>, row: BlockView) -> Seq<BlockView> {
    if exists|k: int| 0 <= k < rows.len() && block_same_key(rows[k], row) {
        rows.update(choose|k: int| 0 <= k < rows.len() && block_same_key(rows[k], row), row)
    } else {
        rows.push(row)
    }
}

pub open spec fn layer_exists(v: DbView, id: Seq<char>) -> bool {
    exists|k: int| 0 <= k < v.layers.len() && v.layers[k].layer_id == id
}

/// What `insert_layer` does: a new layer, unless its id is taken.
pub open spec fn spec_insert_layer(v: DbView, l: LayerView) -> (DbView, Result<(), DbError>) {
    if !v.schema {
        (v, Err(DbError::NoSuchTable))
    } else if layer_exists(v, l.layer_id) {
        (v, Err(DbError::ConstraintViolation))
    } else {
        (DbView { layers: v.layers.push(l), ..v }, Ok(()))
    }
}

/// What `insert_inode` does: the row replaces any row with its key.
pub open spec fn spec_insert_inode(v: DbView, i: InodeView) -> (DbView, Result<(), DbError>) {
    if !v.schema {
        (v, Err(DbError::NoSuchTable))
    } else if !inode_storable(i) {
        (v, Err(DbError::ParameterOutOfRange))
    } else {
        (DbView { inodes: upsert_inode_rows(v.inodes, i), ..v }, Ok(()))
    }
}

/// What `insert_block` does: a new block, unless its key is taken.
pub open spec fn spec_insert_block(v: DbView, b: BlockView) -> (DbView, Result<(), DbError>) {
    if !v.schema {
        (v, Err(DbError::NoSuchTable))
    } else if !block_storable(b) {
        (v, Err(DbError::ParameterOutOfRange))
    } else if exists|k: int| 0 <= k < v.blocks.len() && block_same_key(v.blocks[k], b) {
        (v, Err(DbError::ConstraintViolation))
    } else {
        (DbView { blocks: v.blocks.push(b), ..v }, Ok(()))
    }
}

/// What `upsert_block` does: the block replaces any block with its key.
pub open spec fn spec_upsert_block(v: DbView, b: BlockView) -> (DbView, Result<(), DbError>) {
    if !v.schema {
        (v, Err(DbError::NoSuchTable))
    } else if !block_storable(b) {
        (v, Err(DbError::ParameterOutOfRange))
    } else {
        (DbView { blocks: upsert_block_rows(v.blocks, b), ..v }, Ok(()))
    }
}

/// Row `r` after an update that copies size, permissions and mtime from `i`
/// into the row with `i`'s key.
pub open spec fn updated_inode(r: InodeView, i: InodeView) -> InodeView {
    if inode_same_key(r, i) {
        InodeView { size: i.size, permissions: i.permissions, mtime: i.mtime, ..r }
    } else {
        r
    }
}

/// What `update_inode` does.
pub open spec fn spec_update_inode(v: DbView, i: InodeView) -> (DbView, Result<(), DbError>) {
    if !v.schema {
        (v, Err(DbError::NoSuchTable))
    } else if i.size > i64_max() || i.inode_id > i64_max() {
        (v, Err(DbError::ParameterOutOfRange))
    } else {
        (DbView { inodes: v.inodes.map_values(|r: InodeView| updated_inode(r, i)), ..v }, Ok(()))
    }
}

pub proof fn lemma_upsert_inode_wf(v: DbView, i: InodeView)
    requires
        v.wf(),
        v.schema,
        inode_storable(i),
    ensures
        (DbView { inodes: upsert_inode_rows(v.inodes, i), ..v }).wf(),
{
    let rows = upsert_inode_rows(v.inodes, i);
    if exists|k: int| 0 <= k < v.inodes.len() && inode_same_key(v.inodes[k], i) {
        let k = choose|k: int| 0 <= k < v.inodes.len() && inode_same_key(v.inodes[k], i);
        assert forall|a: int, b: int| 0 <= a < rows.len() && 0 <= b < rows.len() && a != b
            implies !inode_same_key(rows[a], rows[b]) by {
            if a == k {
                assert(!inode_same_key(v.inodes[k], v.inodes[b]));
            } else if b == k {
                assert(!inode_same_key(v.inodes[a], v.inodes[k]));
            }
        }
    }
    assert forall|a: int| 0 <= a < rows.len() implies inode_storable(#[trigger] rows[a]) by {
        if a < v.inodes.len() && rows[a] != i {
            assert(rows[a] == v.inodes[a]);
        }
    }
}

pub proof fn lemma_upsert_block_wf(v: DbView, b: BlockView)
    requires
        v.wf(),
        v.schema,
        block_storable(b),
    ensures
        (DbView { blocks: upsert_block_rows(v.blocks, b), ..v }).wf(),
{
    let rows = upsert_block_rows(v.blocks, b);
    if exists|k: int| 0 <= k < v.blocks.len() && block_same_key(v.blocks[k], b) {
        let k = choose|k: int| 0 <= k < v.blocks.len() && block_same_key(v.blocks[k], b);
        assert forall|x: int, y: int| 0 <= x < rows.len() && 0 <= y < rows.len() && x != y
            implies !block_same_key(rows[x], rows[y]) by {
            if x == k {
                assert(!block_same_key(v.blocks[k], v.blocks[y]));
            } else if y == k {
                assert(!block_same_key(v.blocks[x], v.blocks[k]));
            }
        }
    }
    assert forall|x: int| 0 <= x < rows.len() implies block_storable(#[trigger] rows[x]) by {
        if x < v.blocks.len() && rows[x] != b {
            assert(rows[x] == v.blocks[x]);
        }
    }
}

impl LayeredDb {
    /// The index of the inode row with this key.
    pub(crate) fn find_inode_key(&self, inode_id: u64, layer_id: &String) -> (r: Option<usize>)
        requires
            self.wf(),
        ensures
            match r {
                Some(k) => k < self@.inodes.len() && self@.inodes[k as int].inode_id == inode_id
                    && self@.inodes[k as int].layer_id == layer_id@,
                None => forall|k: int| 0 <= k < self@.inodes.len() ==>
                    !(#[trigger] self@.inodes[k].inode_id == inode_id && self@.inodes[k].layer_id == layer_id@),
            },
    {
        let mut i: usize = 0;
        while i < self.inodes.len()
            invariant
                self.wf(),
                i <= self.inodes.len(),
                forall|k: int| 0 <= k < i ==>
                    !(#[trigger] self@.inodes[k].inode_id == inode_id && self@.inodes[k].layer_id == layer_id@),
            decreases self.inodes.len() - i,
        {
            if self.inodes[i].inode_id == inode_id && self.inodes[i].layer_id == *layer_id {
                return Some(i);
            }
            i = i + 1;
        }
        None
    }

    /// The index of the block row with this key.
    pub(crate) fn find_block_key(&self, inode_id: u64, layer_id: &String, block_index: i64) -> (r: Option<usize>)
        requires
            self.wf(),
        ensures
            match r {
                Some(k) => k < self@.blocks.len() && self@.blocks[k as int].inode_id == inode_id
                    && self@.blocks[k as int].layer_id == layer_id@
                    && self@.blocks[k as int].block_index == block_index,
                None => forall|k: int| 0 <= k < self@.blocks.len() ==>
                    !(#[trigger] self@.blocks[k].inode_id == inode_id && self@.blocks[k].layer_id == layer_id@
                        && self@.blocks[k].block_index == block_index),
            },
    {
        let mut i: usize = 0;
        while i < self.blocks.len()
            invariant
                self.wf(),
                i <= self.blocks.len(),
                forall|k: int| 0 <= k < i ==>
                    !(#[trigger] self@.blocks[k].inode_id == inode_id && self@.blocks[k].layer_id == layer_id@
                        && self@.blocks[k].block_index == block_index),
            decreases self.blocks.len() - i,
        {
            if self.blocks[i].inode_id == inode_id && self.blocks[i].block_index == block_index
                && self.blocks[i].layer_id == *layer_id {
                return Some(i);
            }
            i = i + 1;
        }
        None
    }

    /// Whether a layer named `layer_id` exists.
    pub(crate) fn has_layer(&self, layer_id: &String) -> (r: bool)
        requires
            self.wf(),
        ensures
            r == layer_exists(self@, layer_id@),
    {
        let mut i: usize = 0;
        while i < self.layers.len()
            invariant
                self.wf(),
                i <= self.layers.len(),
                forall|k: int| 0 <= k < i ==> #[trigger] self@.layers[k].layer_id != layer_id@,
            decreases self.layers.len() - i,
        {
            if self.layers[i].layer_id == *layer_id {
                assert(self@.layers[i as int].layer_id == layer_id@);
                return true;
            }
            i = i + 1;
        }
        false
    }

    /// Adds a layer; fails when a layer with its id exists.
    pub fn insert_layer(&mut self, layer: &Layer) -> (r: Result<(), DbError>)
        requires
            old(self).wf(),
        ensures
            final(self).wf(),
            (final(self)@, r) == spec_insert_layer(old(self)@, layer@),
    {
        if !self.schema {
            return Err(DbError::NoSuchTable);
        }
        if self.has_layer(&layer.layer_id) {
            return Err(DbError::ConstraintViolation);
        }
        let ghost old_v = self@;
        self.layers.push(layer.copy());
        proof {
            assert(self@.layers =~= old_v.layers.push(layer@));
            assert(self@ == (DbView { layers: old_v.layers.push(layer@), ..old_v }));
        }
        Ok(())
    }

    /// Writes an inode row, replacing the row with the same id and layer.
    pub fn insert_inode(&mut self, inode: &Inode) -> (r: Result<(), DbError>)
        requires
            old(self).wf(),
        ensures
            final(self).wf(),
            (final(self)@, r) == spec_insert_inode(old(self)@, inode@),
    {
        if !self.schema {
            return Err(DbError::NoSuchTable);
        }
        if inode.inode_id > 0x7fff_ffff_ffff_ffff || inode.parent_id > 0x7fff_ffff_ffff_ffff
            || inode.size > 0x7fff_ffff_ffff_ffff {
            return Err(DbError::ParameterOutOfRange);
        }
        let ghost old_v = self@;
        match self.find_inode_key(inode.inode_id, &inode.layer_id) {
            Some(k) => {
                self.inodes.set(k, inode.copy());
                proof {
                    assert(inode_same_key(old_v.inodes[k as int], inode@));
                    let c = choose|c: int| 0 <= c < old_v.inodes.len() && inode_same_key(old_v.inodes[c], inode@);
                    if c != k {
                        assert(inode_same_key(old_v.inodes[c], old_v.inodes[k as int]));
                    }
                    assert(self@.inodes =~= old_v.inodes.update(k as int, inode@));
                }
            },
            None => {
                self.inodes.push(inode.copy());
                proof {
                    assert(self@.inodes =~= old_v.inodes.push(inode@));
                }
            },
        }
        proof {
            lemma_upsert_inode_wf(old_v, inode@);
            assert(self@ == (DbView { inodes: upsert_inode_rows(old_v.inodes, inode@), ..old_v }));
        }
        Ok(())
    }

    /// Adds a block; fails when a block with its key exists.
    pub fn insert_block(&mut self, block: &Block) -> (r: Result<(), DbError>)
        requires
            old(self).wf(),
        ensures
            final(self).wf(),
            (final(self)@, r) == spec_insert_block(old(self)@, block@),
    {
        if !self.schema {
            return Err(DbError::NoSuchTable);
        }
        if block.inode_id > 0x7fff_ffff_ffff_ffff {
            return Err(DbError::ParameterOutOfRange);
        }
        let ghost old_v = self@;
        match self.find_block_key(block.inode_id, &block.layer_id, block.block_index) {
            Some(k) => {
                assert(block_same_key(old_v.blocks[k as int], block@));
                Err(DbError::ConstraintViolation)
            },
            None => {
                self.blocks.push(block.copy());
                proof {
                    assert(self@.blocks =~= old_v.blocks.push(block@));
                    lemma_upsert_block_wf(old_v, block@);
                    assert(upsert_block_rows(old_v.blocks, block@) == old_v.blocks.push(block@));
                    assert(self@ == (DbView { blocks: old_v.blocks.push(block@), ..old_v }));
                }
                Ok(())
            },
        }
    }

    /// Writes a block, replacing the block with the same key.
    pub fn upsert_block(&mut self, block: &Block) -> (r: Result<(), DbError>)
        requires
            old(self).wf(),
        ensures
            final(self).wf(),
            (final(self)@, r) == spec_upsert_block(old(self)@, block@),
    {
        if !self.schema {
            return Err(DbError::NoSuchTable);
        }
        if block.inode_id > 0x7fff_ffff_ffff_ffff {
            return Err(DbError::ParameterOutOfRange);
        }
        let ghost old_v = self@;
        match self.find_block_key(block.inode_id, &block.layer_id, block.block_index) {
            Some(k) => {
                self.blocks.set(k, block.copy());
                proof {
                    assert(block_same_key(old_v.blocks[k as int], block@));
                    let c = choose|c: int| 0 <= c < old_v.blocks.len() && block_same_key(old_v.blocks[c], block@);
                    if c != k {
                        assert(block_same_key(old_v.blocks[c], old_v.blocks[k as int]));
                    }
                    assert(self@.blocks =~= old_v.blocks.update(k as int, block@));
                }
            },
            None => {
                self.blocks.push(block.copy());
                proof {
                    assert(self@.blocks =~= old_v.blocks.push(block@));
                }
            },
        }
        proof {
            lemma_upsert_block_wf(old_v, block@);
            assert(self@ == (DbView { blocks: upsert_block_rows(old_v.blocks, block@), ..old_v }));
        }
        Ok(())
    }

    /// Sets size, permissions and mtime of the row with `inode`'s id and
    /// layer; no row changes when there is none.
    pub fn update_inode(&mut self, inode: &Inode) -> (r: Result<(), DbError>)
        requires
            old(self).wf(),
        ensures
            final(self).wf(),
            (final(self)@, r) == spec_update_inode(old(self)@, inode@),
    {
        if !self.schema {
            return Err(DbError::NoSuchTable);
        }
        if inode.size > 0x7fff_ffff_ffff_ffff || inode.inode_id > 0x7fff_ffff_ffff_ffff {
            return Err(DbError::ParameterOutOfRange);
        }
        let ghost old_v = self@;
        let ghost target = old_v.inodes.map_values(|r: InodeView| updated_inode(r, inode@));
        match self.find_inode_key(inode.inode_id, &inode.layer_id) {
            Some(k) => {
                let mut row = self.inodes[k].copy();
                row.size = inode.size;
                row.permissions = inode.permissions;
                row.mtime = inode.mtime.clone();
                self.inodes.set(k, row);
                proof {
                    assert forall|j: int| 0 <= j < old_v.inodes.len() && j != k implies
                        !inode_same_key(#[trigger] old_v.inodes[j], inode@) by {
                        assert(!inode_same_key(old_v.inodes[j], old_v.inodes[k as int]));
                    }
                    assert(self@.inodes =~= target);
                }
            },
            None => {
                proof {
                    assert(old_v.inodes =~= target);
                }
            },
        }
        proof {
            assert(self@ == (DbView { inodes: target, ..old_v }));
            assert forall|a: int| 0 <= a < target.len() implies inode_storable(#[trigger] target[a]) by {
                assert(inode_storable(old_v.inodes[a]));
            }
        }
        Ok(())
    }
}

} // verus!

verus! {

/// A block of inode `id` in layer `source`, moved to the active layer.
pub open spec fn layer_copy(id: u64, source: Seq<char>) -> spec_fn(BlockView) -> Option<BlockView> {
    |b: BlockView|
        if b.inode_id == id && b.layer_id == source {
            Some(BlockView { layer_id: active_id(), ..b })
        } else {
            None
        }
}

/// Appending `rows` to `blocks` one by one meets no key already present.
pub open spec fn blocks_fresh(blocks: Seq<BlockView>, rows: Seq<BlockView>) -> bool {
    &&& forall|i: int, j: int| 0 <= i < blocks.len() && 0 <= j < rows.len()
        ==> !block_same_key(#[trigger] blocks[i], #[trigger] rows[j])
    &&& forall|i: int, j: int| 0 <= i < j < rows.len() ==> !block_same_key(#[trigger] rows[i], #[trigger] rows[j])
}

/// The store with no time-travel limit: every layer is seen.
pub open spec fn unlimited(v: DbView) -> DbView {
    DbView { head_priority: None, ..v }
}

/// What `copy_on_write` does when the clock reads `now`: the newest version
/// of the inode, whatever the time-travel limit, is copied to the active
/// layer with mtime `now`, and the blocks that its layer holds for it are
/// copied there too; the layer it came from is left as it was.
pub open spec fn spec_copy_on_write(v: DbView, id: u64, now: Seq<char>) -> (DbView, Result<InodeView, DbError>) {
    match spec_get_inode(unlimited(v), id) {
        Err(e) => (v, Err(e)),
        Ok(i) => if i.layer_id == active_id() {
            (v, Ok(i))
        } else {
            let ni = InodeView { layer_id: active_id(), mtime: now, ..i };
            let v1 = DbView { inodes: upsert_inode_rows(v.inodes, ni), ..v };
            let copies = v.blocks.filter_map(layer_copy(id, i.layer_id));
            if !blocks_fresh(v.blocks, copies) {
                (v1, Err(DbError::ConstraintViolation))
            } else {
                (DbView { blocks: v.blocks + copies, ..v1 }, Ok(ni))
            }
        },
    }
}

/// Whether a layer id names the active layer.
pub fn is_active(layer_id: &String) -> (r: bool)
    ensures
        r == (layer_id@ == active_id()),
{
    let lit = "active";
    proof {
        reveal_strlit("active");
        assert(lit@ =~= active_id());
    }
    str_eq(layer_id.as_str(), lit)
}

/// The id of the active layer, as a string.
pub fn active_name() -> (r: String)
    ensures
        r@ == active_id(),
{
    let lit = "active";
    proof {
        reveal_strlit("active");
        assert(lit@ =~= active_id());
    }
    owned(lit)
}

/// The id of the base layer, as a string.
pub fn base_name() -> (r: String)
    ensures
        r@ == base_id(),
{
    let lit = "base";
    proof {
        reveal_strlit("base");
        assert(lit@ =~= base_id());
    }
    owned(lit)
}

pub fn same_block_key(a: &Block, b: &Block) -> (r: bool)
    ensures
        r == block_same_key(a@, b@),
{
    a.inode_id == b.inode_id && a.block_index == b.block_index && a.layer_id == b.layer_id
}

/// Whether `rows` can be appended to `blocks` without a key conflict.
pub fn rows_fresh(blocks: &Vec<Block>, rows: &Vec<Block>) -> (r: bool)
    ensures
        r == blocks_fresh(blocks_view(blocks@), blocks_view(rows@)),
{
    let ghost bv = blocks_view(blocks@);
    let ghost rv = blocks_view(rows@);
    let mut j: usize = 0;
    while j < rows.len()
        invariant
            bv == blocks_view(blocks@),
            rv == blocks_view(rows@),
            j <= rows.len(),
            forall|i: int, j2: int| 0 <= i < bv.len() && 0 <= j2 < j
                ==> !block_same_key(#[trigger] bv[i], #[trigger] rv[j2]),
            forall|i: int, j2: int| 0 <= i < j2 < j ==> !block_same_key(#[trigger] rv[i], #[trigger] rv[j2]),
        decreases rows.len() - j,
    {
        let mut i: usize = 0;
        while i < blocks.len()
            invariant
                bv == blocks_view(blocks@),
                rv == blocks_view(rows@),
                j < rows.len(),
                i <= blocks.len(),
                forall|i2: int| 0 <= i2 < i ==> !block_same_key(#[trigger] bv[i2], rv[j as int]),
            decreases blocks.len() - i,
        {
            if same_block_key(&blocks[i], &rows[j]) {
                proof {
                    assert(block_same_key(bv[i as int], rv[j as int]));
                }
                return false;
            }
            i = i + 1;
        }
        let mut i: usize = 0;
        while i < j
            invariant
                bv == blocks_view(blocks@),
                rv == blocks_view(rows@),
                j < rows.len(),
                i <= j,
                forall|i2: int| 0 <= i2 < i ==> !block_same_key(#[trigger] rv[i2], rv[j as int]),
            decreases j - i,
        {
            if same_block_key(&rows[i], &rows[j]) {
                proof {
                    assert(block_same_key(rv[i as int], rv[j as int]));
                }
                return false;
            }
            i = i + 1;
        }
        j = j + 1;
    }
    true
}

pub proof fn lemma_layer_copies(s: Seq<BlockView>, id: u64, source: Seq<char>)
    ensures
        forall|a: int| 0 <= a < s.filter_map(layer_copy(id, source)).len() ==>
            (#[trigger] s.filter_map(layer_copy(id, source))[a]).inode_id == id
            && s.filter_map(layer_copy(id, source))[a].layer_id == active_id(),
    decreases s.len(),
{
    if s.len() > 0 {
        let rest = s.drop_last().filter_map(layer_copy(id, source));
        lemma_layer_copies(s.drop_last(), id, source);
        let all = s.filter_map(layer_copy(id, source));
        assert forall|a: int| 0 <= a < all.len() implies
            (#[trigger] all[a]).inode_id == id && all[a].layer_id == active_id() by {
            if a < rest.len() {
                assert(all[a] == rest[a]);
            }
        }
    }
}

impl LayeredDb {
    /// The blocks of inode `id` in layer `source`, moved to the active layer.
    fn layer_copies(&self, id: u64, source: &String) -> (r: Vec<Block>)
        requires
            self.wf(),
        ensures
            blocks_view(r@) == self@.blocks.filter_map(layer_copy(id, source@)),
    {
        let ghost rows = self@.blocks;
        let mut out: Vec<Block> = Vec::new();
        let mut i: usize = 0;
        proof {
            assert(rows.take(0) =~= Seq::<BlockView>::empty());
            assert(blocks_view(out@) =~= Seq::<BlockView>::empty());
        }
        while i < self.blocks.len()
            invariant
                self.wf(),
                rows == self@.blocks,
                i <= self.blocks.len(),
                blocks_view(out@) == rows.take(i as int).filter_map(layer_copy(id, source@)),
            decreases self.blocks.len() - i,
        {
            let ghost before = blocks_view(out@);
            proof {
                assert(rows.take(i + 1).drop_last() =~= rows.take(i as int));
                assert(rows.take(i + 1).last() == rows[i as int]);
            }
            let b = &self.blocks[i];
            if b.inode_id == id && b.layer_id == *source {
                let mut c = b.copy();
                c.layer_id = active_name();
                out.push(c);
                proof {
                    assert(blocks_view(out@) =~= before + seq![BlockView { layer_id: active_id(), ..rows[i as int] }]);
                }
            }
            i = i + 1;
        }
        proof {
            assert(rows.take(i as int) =~= rows);
        }
        out
    }

    /// The newest version of inode `inode_id`, whatever the time-travel
    /// limit: the row of the highest-priority layer that holds it, unless
    /// that row is a tombstone. The store is left as it was.
    pub fn get_latest_inode(&mut self, inode_id: u64) -> (r: Result<Inode, DbError>)
        requires
            old(self).wf(),
        ensures
            *final(self) == *old(self),
            inode_result_view(r) == spec_get_inode(unlimited(old(self)@), inode_id),
    {
        let head = self.head_priority;
        self.head_priority = None;
        let found = self.get_inode(inode_id);
        self.head_priority = head;
        found
    }

    /// Copies the newest version of inode `inode_id`, whatever the
    /// time-travel limit, into the active layer, stamped `now`, with the
    /// blocks its layer holds for it; an inode already in the active layer
    /// is returned unchanged.
    pub fn copy_on_write_at(&mut self, inode_id: u64, now: String) -> (r: Result<Inode, DbError>)
        requires
            old(self).wf(),
        ensures
            final(self).wf(),
            (final(self)@, inode_result_view(r)) == spec_copy_on_write(old(self)@, inode_id, now@),
    {
        let ghost v = self@;
        let mut inode = match self.get_latest_inode(inode_id) {
            Ok(i) => i,
            Err(e) => return Err(e),
        };
        if is_active(&inode.layer_id) {
            return Ok(inode);
        }
        proof {
            let u = unlimited(v);
            lemma_top_props(inode_id_rank(u, inode_id), u.inodes.len() as int);
            let k = top(inode_id_rank(u, inode_id), u.inodes.len() as int).unwrap();
            assert(inode_storable(v.inodes[k]));
        }
        let source = inode.layer_id.clone();
        inode.layer_id = active_name();
        inode.mtime = now;
        match self.insert_inode(&inode) {
            Ok(()) => {},
            Err(e) => return Err(e),
        }
        let copies = self.layer_copies(inode_id, &source);
        if !rows_fresh(&self.blocks, &copies) {
            return Err(DbError::ConstraintViolation);
        }
        let ghost v1 = self@;
        let ghost cv = blocks_view(copies@);
        proof {
            lemma_layer_copies(v.blocks, inode_id, source@);
            assert(v1.blocks == v.blocks);
            assert(cv.take(0) =~= Seq::<BlockView>::empty());
            assert(v1.blocks + cv.take(0) =~= v1.blocks);
        }
        let mut j: usize = 0;
        while j < copies.len()
            invariant
                v1.wf(),
                v1.schema,
                blocks_fresh(v1.blocks, cv),
                cv == blocks_view(copies@),
                j <= copies.len(),
                self@ == (DbView { blocks: v1.blocks + cv.take(j as int), ..v1 }),
                forall|a: int| 0 <= a < cv.len() ==> (#[trigger] cv[a]).inode_id == inode_id,
                inode_id <= i64_max(),
            decreases copies.len() - j,
        {
            let ghost before = self@;
            self.blocks.push(copies[j].copy());
            proof {
                assert(self@.blocks =~= before.blocks.push(cv[j as int]));
                assert(cv.take(j + 1) =~= cv.take(j as int).push(cv[j as int]));
                assert(self@.blocks =~= v1.blocks + cv.take(j + 1));
            }
            j = j + 1;
        }
        proof {
            assert(cv.take(j as int) =~= cv);
            let nb = v1.blocks + cv;
            assert forall|a: int, b: int| 0 <= a < nb.len() && 0 <= b < nb.len() && a != b
                implies !block_same_key(nb[a], nb[b]) by {
                if a < v1.blocks.len() && b >= v1.blocks.len() {
                    assert(!block_same_key(v1.blocks[a], cv[b - v1.blocks.len()]));
                } else if b < v1.blocks.len() && a >= v1.blocks.len() {
                    assert(!block_same_key(v1.blocks[b], cv[a - v1.blocks.len()]));
                    assert(!block_same_key(nb[b], nb[a]));
                } else if a >= v1.blocks.len() && b >= v1.blocks.len() {
                    if a < b {
                        assert(!block_same_key(cv[a - v1.blocks.len()], cv[b - v1.blocks.len()]));
                    } else {
                        assert(!block_same_key(cv[b - v1.blocks.len()], cv[a - v1.blocks.len()]));
                    }
                }
            }
            assert forall|a: int| 0 <= a < nb.len() implies block_storable(#[trigger] nb[a]) by {
                if a >= v1.blocks.len() {
                    assert(cv[a - v1.blocks.len()].inode_id == inode_id);
                }
            }
        }
        Ok(inode)
    }

    /// Moves inode `inode_id` into the active layer, stamped with the
    /// current time; see `copy_on_write_at`.
    pub fn copy_on_write(&mut self, inode_id: u64) -> (r: Result<Inode, DbError>)
        requires
            old(self).wf(),
        ensures
            final(self).wf(),
            exists|now: Seq<char>| clock_reading(now)
                && (final(self)@, inode_result_view(r)) == spec_copy_on_write(old(self)@, inode_id, now),
    {
        let now = now_rfc3339();
        self.copy_on_write_at(inode_id, now)
    }
}

} // verus!

verus! {

pub open spec fn rename_layer_row(l: LayerView, to: Seq<char>) -> LayerView {
    if l.layer_id == active_id() {
        LayerView { layer_id: to, is_readonly: true, ..l }
    } else {
        l
    }
}

pub open spec fn rename_inode_row(i: InodeView, to: Seq<char>) -> InodeView {
    if i.layer_id == active_id() {
        InodeView { layer_id: to, ..i }
    } else {
        i
    }
}

pub open spec fn rename_block_row(b: BlockView, to: Seq<char>) -> BlockView {
    if b.layer_id == active_id() {
        BlockView { layer_id: to, ..b }
    } else {
        b
    }
}

/// Moving the active inode rows to layer `to` would meet a row already there.
pub open spec fn inode_rename_conflict(rows: Seq<InodeView>, to: Seq<char>) -> bool {
    exists|i: int, j: int|
        0 <= i < rows.len() && 0 <= j < rows.len() && rows[i].layer_id == active_id()
            && rows[j].layer_id == to && rows[j].inode_id == rows[i].inode_id
}

/// Moving the active block rows to layer `to` would meet a row already there.
pub open spec fn block_rename_conflict(rows: Seq<BlockView>, to: Seq<char>) -> bool {
    exists|i: int, j: int|
        0 <= i < rows.len() && 0 <= j < rows.len() && rows[i].layer_id == active_id()
            && rows[j].layer_id == to && rows[j].inode_id == rows[i].inode_id
            && rows[j].block_index == rows[i].block_index
}

/// The fresh active layer that a commit stacks on top of commit `name`.
pub open spec fn new_active_layer(name: Seq<char>, priority: i32, now: Seq<char>) -> LayerView {
    LayerView {
        layer_id: active_id(),
        parent_layer_id: Some(name),
        priority,
        is_readonly: false,
        created_at: now,
    }
}

/// A commit can stack a new layer above the active one without the
/// priority overflowing.
pub open spec fn commit_priority_ok(v: DbView) -> bool {
    match layer_priority(v.layers, active_id()) {
        Some(p) => p < 0x7fff_ffffi32,
        None => true,
    }
}

/// What `commit` does when the clock reads `now`: the active layer, with
/// its inodes and blocks, is renamed `name` and made read-only, and a new
/// empty active layer one priority higher is stacked on it. The steps run
/// in this order, and a step that fails leaves the earlier ones done.
pub open spec fn spec_commit(v: DbView, name: Seq<char>, now: Seq<char>) -> (DbView, Result<(), DbError>) {
    if !v.schema {
        (v, Err(DbError::NoSuchTable))
    } else {
        match layer_priority(v.layers, active_id()) {
            None => (v, Err(DbError::QueryReturnedNoRows)),
            Some(p) => if name != active_id() && layer_exists(v, name) {
                (v, Err(DbError::ConstraintViolation))
            } else {
                let v2 = DbView { layers: v.layers.map_values(|l: LayerView| rename_layer_row(l, name)), ..v };
                if name != active_id() && inode_rename_conflict(v.inodes, name) {
                    (v2, Err(DbError::ConstraintViolation))
                } else {
                    let v3 = DbView { inodes: v.inodes.map_values(|i: InodeView| rename_inode_row(i, name)), ..v2 };
                    if name != active_id() && block_rename_conflict(v.blocks, name) {
                        (v3, Err(DbError::ConstraintViolation))
                    } else {
                        let v4 = DbView { blocks: v.blocks.map_values(|b: BlockView| rename_block_row(b, name)), ..v3 };
                        spec_insert_layer(v4, new_active_layer(name, (p + 1) as i32, now))
                    }
                }
            },
        }
    }
}

impl LayeredDb {
    /// Whether moving the active inode rows to `to` meets a row there.
    fn inodes_rename_conflict(&self, to: &String) -> (r: bool)
        requires
            self.wf(),
        ensures
            r == inode_rename_conflict(self@.inodes, to@),
    {
        let ghost rows = self@.inodes;
        let mut i: usize = 0;
        while i < self.inodes.len()
            invariant
                self.wf(),
                rows == self@.inodes,
                i <= self.inodes.len(),
                forall|a: int, b: int| 0 <= a < i && 0 <= b < rows.len() ==>
                    !(#[trigger] rows[a].layer_id == active_id() && #[trigger] rows[b].layer_id == to@
                        && rows[b].inode_id == rows[a].inode_id),
            decreases self.inodes.len() - i,
        {
            if is_active(&self.inodes[i].layer_id) {
                let mut j: usize = 0;
                while j < self.inodes.len()
                    invariant
                        self.wf(),
                        rows == self@.inodes,
                        i < self.inodes.len(),
                        j <= self.inodes.len(),
                        rows[i as int].layer_id == active_id(),
                        forall|b: int| 0 <= b < j ==>
                            !(#[trigger] rows[b].layer_id == to@ && rows[b].inode_id == rows[i as int].inode_id),
                    decreases self.inodes.len() - j,
                {
                    if self.inodes[j].layer_id == *to && self.inodes[j].inode_id == self.inodes[i].inode_id {
                        proof {
                            assert(rows[j as int].layer_id == to@);
                        }
                        return true;
                    }
                    j = j + 1;
                }
            }
            i = i + 1;
        }
        false
    }

    /// Whether moving the active block rows to `to` meets a row there.
    fn blocks_rename_conflict(&self, to: &String) -> (r: bool)
        requires
            self.wf(),
        ensures
            r == block_rename_conflict(self@.blocks, to@),
    {
        let ghost rows = self@.blocks;
        let mut i: usize = 0;
        while i < self.blocks.len()
            invariant
                self.wf(),
                rows == self@.blocks,
                i <= self.blocks.len(),
                forall|a: int, b: int| 0 <= a < i && 0 <= b < rows.len() ==>
                    !(#[trigger] rows[a].layer_id == active_id() && #[trigger] rows[b].layer_id == to@
                        && rows[b].inode_id == rows[a].inode_id && rows[b].block_index == rows[a].block_index),
            decreases self.blocks.len() - i,
        {
            if is_active(&self.blocks[i].layer_id) {
                let mut j: usize = 0;
                while j < self.blocks.len()
                    invariant
                        self.wf(),
                        rows == self@.blocks,
                        i < self.blocks.len(),
                        j <= self.blocks.len(),
                        rows[i as int].layer_id == active_id(),
                        forall|b: int| 0 <= b < j ==>
                            !(#[trigger] rows[b].layer_id == to@ && rows[b].inode_id == rows[i as int].inode_id
                                && rows[b].block_index == rows[i as int].block_index),
                    decreases self.blocks.len() - j,
                {
                    if self.blocks[j].layer_id == *to && self.blocks[j].inode_id == self.blocks[i].inode_id
                        && self.blocks[j].block_index == self.blocks[i].block_index {
                        proof {
                            assert(rows[j as int].layer_id == to@);
                        }
                        return true;
                    }
                    j = j + 1;
                }
            }
            i = i + 1;
        }
        false
    }

    /// The priority of the layer named `layer_id`.
    pub fn get_layer_priority(&self, layer_id: &str) -> (r: Result<i32, DbError>)
        requires
            self.wf(),
        ensures
            r == (if !self@.schema {
                Err(DbError::NoSuchTable)
            } else {
                match layer_priority(self@.layers, layer_id@) {
                    Some(p) => Ok(p),
                    None => Err(DbError::QueryReturnedNoRows),
                }
            }),
    {
        if !self.schema {
            return Err(DbError::NoSuchTable);
        }
        match self.layer_priority_of(&owned(layer_id)) {
            Some(p) => Ok(p),
            None => Err(DbError::QueryReturnedNoRows),
        }
    }

    /// Freezes the active layer as commit `commit_name`, stamped `now`, and
    /// stacks a new empty active layer on it.
    pub fn commit_at(&mut self, commit_name: &str, now: String) -> (r: Result<(), DbError>)
        requires
            old(self).wf(),
            commit_priority_ok(old(self)@),
        ensures
            final(self).wf(),
            (final(self)@, r) == spec_commit(old(self)@, commit_name@, now@),
    {
        let ghost v = self@;
        let ghost name = commit_name@;
        if !self.schema {
            return Err(DbError::NoSuchTable);
        }
        let active = active_name();
        let current = match self.layer_priority_of(&active) {
            Some(p) => p,
            None => return Err(DbError::QueryReturnedNoRows),
        };
        let to = owned(commit_name);
        let to_is_active = is_active(&to);
        if !to_is_active && self.has_layer(&to) {
            return Err(DbError::ConstraintViolation);
        }
        // Rename the layer.
        let mut layers: Vec<Layer> = Vec::new();
        let mut i: usize = 0;
        while i < self.layers.len()
            invariant
                self.wf(),
                v == self@,
                to@ == name,
                i <= self.layers.len(),
                layers_view(layers@) == v.layers.take(i as int).map_values(|l: LayerView| rename_layer_row(l, name)),
            decreases self.layers.len() - i,
        {
            let mut l = self.layers[i].copy();
            if is_active(&l.layer_id) {
                l.layer_id = to.clone();
                l.is_readonly = true;
            }
            let ghost before = layers_view(layers@);
            layers.push(l);
            proof {
                assert(layers_view(layers@) =~= before.push(rename_layer_row(v.layers[i as int], name)));
                assert(v.layers.take(i + 1).map_values(|l: LayerView| rename_layer_row(l, name))
                    =~= v.layers.take(i as int).map_values(|l: LayerView| rename_layer_row(l, name))
                        .push(rename_layer_row(v.layers[i as int], name)));
            }
            i = i + 1;
        }
        proof {
            assert(v.layers.take(i as int) =~= v.layers);
        }
        let ghost v2 = DbView { layers: v.layers.map_values(|l: LayerView| rename_layer_row(l, name)), ..v };
        self.layers = layers;
        proof {
            assert(self@ == v2);
            assert forall|a: int, b: int| 0 <= a < v2.layers.len() && 0 <= b < v2.layers.len() && a != b
                implies v2.layers[a].layer_id != v2.layers[b].layer_id by {
                if v.layers[a].layer_id == active_id() && v.layers[b].layer_id != active_id() && !to_is_active {
                    assert(v.layers[b].layer_id != name);
                }
                if v.layers[b].layer_id == active_id() && v.layers[a].layer_id != active_id() && !to_is_active {
                    assert(v.layers[a].layer_id != name);
                }
            }
        }
        // Rename the inode rows.
        if !to_is_active && self.inodes_rename_conflict(&to) {
            return Err(DbError::ConstraintViolation);
        }
        let mut inodes: Vec<Inode> = Vec::new();
        let mut i: usize = 0;
        while i < self.inodes.len()
            invariant
                self.wf(),
                v2 == self@,
                v.inodes == self@.inodes,
                to@ == name,
                i <= self.inodes.len(),
                inodes_view(inodes@) == v.inodes.take(i as int).map_values(|r: InodeView| rename_inode_row(r, name)),
            decreases self.inodes.len() - i,
        {
            let mut r = self.inodes[i].copy();
            if is_active(&r.layer_id) {
                r.layer_id = to.clone();
            }
            let ghost before = inodes_view(inodes@);
            inodes.push(r);
            proof {
                assert(inodes_view(inodes@) =~= before.push(rename_inode_row(v.inodes[i as int], name)));
                assert(v.inodes.take(i + 1).map_values(|r: InodeView| rename_inode_row(r, name))
                    =~= v.inodes.take(i as int).map_values(|r: InodeView| rename_inode_row(r, name))
                        .push(rename_inode_row(v.inodes[i as int], name)));
            }
            i = i + 1;
        }
        proof {
            assert(v.inodes.take(i as int) =~= v.inodes);
        }
        let ghost v3 = DbView { inodes: v.inodes.map_values(|r: InodeView| rename_inode_row(r, name)), ..v2 };
        self.inodes = inodes;
        proof {
            assert(self@ == v3);
            assert forall|a: int, b: int| 0 <= a < v3.inodes.len() && 0 <= b < v3.inodes.len() && a != b
                implies !inode_same_key(v3.inodes[a], v3.inodes[b]) by {
                assert(!inode_same_key(v.inodes[a], v.inodes[b]));
                if !to_is_active && v.inodes[a].layer_id == active_id() && v.inodes[b].layer_id == name {
                    assert(v.inodes[b].inode_id != v.inodes[a].inode_id);
                }
                if !to_is_active && v.inodes[b].layer_id == active_id() && v.inodes[a].layer_id == name {
                    assert(v.inodes[a].inode_id != v.inodes[b].inode_id);
                }
            }
            assert forall|a: int| 0 <= a < v3.inodes.len() implies inode_storable(#[trigger] v3.inodes[a]) by {
                assert(inode_storable(v.inodes[a]));
            }
        }
        // Rename the block rows.
        if !to_is_active && self.blocks_rename_conflict(&to) {
            return Err(DbError::ConstraintViolation);
        }
        let mut blocks: Vec<Block> = Vec::new();
        let mut i: usize = 0;
        while i < self.blocks.len()
            invariant
                self.wf(),
                v3 == self@,
                v.blocks == self@.blocks,
                to@ == name,
                i <= self.blocks.len(),
                blocks_view(blocks@) == v.blocks.take(i as int).map_values(|b: BlockView| rename_block_row(b, name)),
            decreases self.blocks.len() - i,
        {
            let mut b = self.blocks[i].copy();
            if is_active(&b.layer_id) {
                b.layer_id = to.clone();
            }
            let ghost before = blocks_view(blocks@);
            blocks.push(b);
            proof {
                assert(blocks_view(blocks@) =~= before.push(rename_block_row(v.blocks[i as int], name)));
                assert(v.blocks.take(i + 1).map_values(|b: BlockView| rename_block_row(b, name))
                    =~= v.blocks.take(i as int).map_values(|b: BlockView| rename_block_row(b, name))
                        .push(rename_block_row(v.blocks[i as int], name)));
            }
            i = i + 1;
        }
        proof {
            assert(v.blocks.take(i as int) =~= v.blocks);
        }
        let ghost v4 = DbView { blocks: v.blocks.map_values(|b: BlockView| rename_block_row(b, name)), ..v3 };
        self.blocks = blocks;
        proof {
            assert(self@ == v4);
            assert forall|a: int, b: int| 0 <= a < v4.blocks.len() && 0 <= b < v4.blocks.len() && a != b
                implies !block_same_key(v4.blocks[a], v4.blocks[b]) by {
                assert(!block_same_key(v.blocks[a], v.blocks[b]));
                if !to_is_active && v.blocks[a].layer_id == active_id() && v.blocks[b].layer_id == name {
                    assert(!(v.blocks[b].inode_id == v.blocks[a].inode_id
                        && v.blocks[b].block_index == v.blocks[a].block_index));
                }
                if !to_is_active && v.blocks[b].layer_id == active_id() && v.blocks[a].layer_id == name {
                    assert(!(v.blocks[a].inode_id == v.blocks[b].inode_id
                        && v.blocks[a].block_index == v.blocks[b].block_index));
                }
            }
            assert forall|a: int| 0 <= a < v4.blocks.len() implies block_storable(#[trigger] v4.blocks[a]) by {
                assert(block_storable(v.blocks[a]));
            }
        }
        // Stack a new active layer on the commit.
        let new_active = Layer {
            layer_id: active_name(),
            parent_layer_id: Some(owned(commit_name)),
            priority: current + 1,
            is_readonly: false,
            created_at: now,
        };
        self.insert_layer(&new_active)
    }

    /// Freezes the active layer as commit `commit_name`, stamped with the
    /// current time; see `commit_at`.
    pub fn commit(&mut self, commit_name: &str) -> (r: Result<(), DbError>)
        requires
            old(self).wf(),
            commit_priority_ok(old(self)@),
        ensures
            final(self).wf(),
            exists|now: Seq<char>| clock_reading(now) && (final(self)@, r) == spec_commit(old(self)@, commit_name@, now),
    {
        let now = now_rfc3339();
        self.commit_at(commit_name, now)
    }
}

} // verus!

verus! {

/// Keeps the inode rows that satisfy `p`.
pub open spec fn keep_inodes_where(p: spec_fn(InodeView) -> bool) -> spec_fn(InodeView) -> Option<InodeView> {
    |i: InodeView| if p(i) {
        Some(i)
    } else {
        None
    }
}

/// Keeps the block rows that satisfy `p`.
pub open spec fn keep_blocks_where(p: spec_fn(BlockView) -> bool) -> spec_fn(BlockView) -> Option<BlockView> {
    |b: BlockView| if p(b) {
        Some(b)
    } else {
        None
    }
}

pub proof fn lemma_keep_inodes(s: Seq<InodeView>, p: spec_fn(InodeView) -> bool)
    ensures
        forall|a: int| 0 <= a < s.filter_map(keep_inodes_where(p)).len() ==>
            s.contains(#[trigger] s.filter_map(keep_inodes_where(p))[a])
            && p(s.filter_map(keep_inodes_where(p))[a]),
        (forall|i: int, j: int| 0 <= i < s.len() && 0 <= j < s.len() && i != j
            ==> !inode_same_key(s[i], s[j])) ==> (forall|i: int, j: int|
            0 <= i < s.filter_map(keep_inodes_where(p)).len() && 0 <= j < s.filter_map(keep_inodes_where(p)).len() && i != j
            ==> !inode_same_key(s.filter_map(keep_inodes_where(p))[i], s.filter_map(keep_inodes_where(p))[j])),
        forall|a: int| 0 <= a < s.len() && p(s[a]) ==>
            s.filter_map(keep_inodes_where(p)).contains(#[trigger] s[a]),
    decreases s.len(),
{
    if s.len() > 0 {
        let rest = s.drop_last();
        lemma_keep_inodes(rest, p);
        let all = s.filter_map(keep_inodes_where(p));
        let fr = rest.filter_map(keep_inodes_where(p));
        assert forall|a: int| 0 <= a < all.len() implies s.contains(#[trigger] all[a])
            && p(all[a]) by {
            if a < fr.len() {
                assert(all[a] == fr[a]);
                let w = choose|w: int| 0 <= w < rest.len() && rest[w] == fr[a];
                assert(s[w] == fr[a]);
            } else {
                assert(all[a] == s.last());
                assert(s[s.len() - 1] == s.last());
            }
        }
        if forall|i: int, j: int| 0 <= i < s.len() && 0 <= j < s.len() && i != j ==> !inode_same_key(s[i], s[j]) {
            assert forall|i: int, j: int| 0 <= i < rest.len() && 0 <= j < rest.len() && i != j
                implies !inode_same_key(rest[i], rest[j]) by {
                assert(rest[i] == s[i] && rest[j] == s[j]);
            }
            assert forall|i: int, j: int| 0 <= i < all.len() && 0 <= j < all.len() && i != j
                implies !inode_same_key(all[i], all[j]) by {
                if i < fr.len() && j < fr.len() {
                    assert(all[i] == fr[i] && all[j] == fr[j]);
                } else if i < fr.len() {
                    assert(all[i] == fr[i]);
                    let w = choose|w: int| 0 <= w < rest.len() && rest[w] == fr[i];
                    assert(s[w] == all[i]);
                    assert(all[j] == s[s.len() - 1]);
                } else if j < fr.len() {
                    assert(all[j] == fr[j]);
                    let w = choose|w: int| 0 <= w < rest.len() && rest[w] == fr[j];
                    assert(s[w] == all[j]);
                    assert(all[i] == s[s.len() - 1]);
                }
            }
        }
        assert forall|a: int| 0 <= a < s.len() && p(s[a]) implies
            all.contains(#[trigger] s[a]) by {
            if a < rest.len() {
                assert(rest[a] == s[a]);
                assert(fr.contains(rest[a]));
                let w = choose|w: int| 0 <= w < fr.len() && fr[w] == rest[a];
                assert(all[w] == fr[w]);
            } else {
                assert(all[all.len() - 1] == s[a]);
            }
        }
    }
}

pub proof fn lemma_keep_blocks(s: Seq<BlockView>, p: spec_fn(BlockView) -> bool)
    ensures
        forall|a: int| 0 <= a < s.filter_map(keep_blocks_where(p)).len() ==>
            s.contains(#[trigger] s.filter_map(keep_blocks_where(p))[a])
            && p(s.filter_map(keep_blocks_where(p))[a]),
        (forall|i: int, j: int| 0 <= i < s.len() && 0 <= j < s.len() && i != j
            ==> !block_same_key(s[i], s[j])) ==> (forall|i: int, j: int|
            0 <= i < s.filter_map(keep_blocks_where(p)).len() && 0 <= j < s.filter_map(keep_blocks_where(p)).len() && i != j
            ==> !block_same_key(s.filter_map(keep_blocks_where(p))[i], s.filter_map(keep_blocks_where(p))[j])),
        forall|a: int| 0 <= a < s.len() && p(s[a]) ==>
            s.filter_map(keep_blocks_where(p)).contains(#[trigger] s[a]),
    decreases s.len(),
{
    if s.len() > 0 {
        let rest = s.drop_last();
        lemma_keep_blocks(rest, p);
        let all = s.filter_map(keep_blocks_where(p));
        let fr = rest.filter_map(keep_blocks_where(p));
        assert forall|a: int| 0 <= a < all.len() implies s.contains(#[trigger] all[a])
            && p(all[a]) by {
            if a < fr.len() {
                assert(all[a] == fr[a]);
                let w = choose|w: int| 0 <= w < rest.len() && rest[w] == fr[a];
                assert(s[w] == fr[a]);
            } else {
                assert(all[a] == s.last());
                assert(s[s.len() - 1] == s.last());
            }
        }
        if forall|i: int, j: int| 0 <= i < s.len() && 0 <= j < s.len() && i != j ==> !block_same_key(s[i], s[j]) {
            assert forall|i: int, j: int| 0 <= i < rest.len() && 0 <= j < rest.len() && i != j
                implies !block_same_key(rest[i], rest[j]) by {
                assert(rest[i] == s[i] && rest[j] == s[j]);
            }
            assert forall|i: int, j: int| 0 <= i < all.len() && 0 <= j < all.len() && i != j
                implies !block_same_key(all[i], all[j]) by {
                if i < fr.len() && j < fr.len() {
                    assert(all[i] == fr[i] && all[j] == fr[j]);
                } else if i < fr.len() {
                    assert(all[i] == fr[i]);
                    let w = choose|w: int| 0 <= w < rest.len() && rest[w] == fr[i];
                    assert(s[w] == all[i]);
                    assert(all[j] == s[s.len() - 1]);
                } else if j < fr.len() {
                    assert(all[j] == fr[j]);
                    let w = choose|w: int| 0 <= w < rest.len() && rest[w] == fr[j];
                    assert(s[w] == all[j]);
                    assert(all[i] == s[s.len() - 1]);
                }
            }
        }
        assert forall|a: int| 0 <= a < s.len() && p(s[a]) implies
            all.contains(#[trigger] s[a]) by {
            if a < rest.len() {
                assert(rest[a] == s[a]);
                assert(fr.contains(rest[a]));
                let w = choose|w: int| 0 <= w < fr.len() && fr[w] == rest[a];
                assert(all[w] == fr[w]);
            } else {
                assert(all[all.len() - 1] == s[a]);
            }
        }
    }
}


} // verus!

verus! {

/// Block rows other than the active layer's rows of inode `id`.
pub open spec fn not_active_block_of(id: u64) -> spec_fn(BlockView) -> bool {
    |b: BlockView| !(b.inode_id == id && b.layer_id == active_id())
}

/// What `delete_active_blocks` does: the active layer's blocks of inode
/// `id` are deleted.
pub open spec fn spec_delete_active_blocks(v: DbView, id: u64) -> (DbView, Result<(), DbError>) {
    if !v.schema {
        (v, Err(DbError::NoSuchTable))
    } else if id > i64_max() {
        (v, Err(DbError::ParameterOutOfRange))
    } else {
        (DbView { blocks: v.blocks.filter_map(keep_blocks_where(not_active_block_of(id))), ..v }, Ok(()))
    }
}

impl LayeredDb {
    /// Deletes the active layer's blocks of inode `inode_id`.
    pub fn delete_active_blocks(&mut self, inode_id: u64) -> (r: Result<(), DbError>)
        requires
            old(self).wf(),
        ensures
            final(self).wf(),
            (final(self)@, r) == spec_delete_active_blocks(old(self)@, inode_id),
    {
        if !self.schema {
            return Err(DbError::NoSuchTable);
        }
        if inode_id > 0x7fff_ffff_ffff_ffff {
            return Err(DbError::ParameterOutOfRange);
        }
        let ghost v = self@;
        let ghost keep = keep_blocks_where(not_active_block_of(inode_id));
        let mut blocks: Vec<Block> = Vec::new();
        let mut i: usize = 0;
        proof {
            assert(v.blocks.take(0) =~= Seq::<BlockView>::empty());
            assert(blocks_view(blocks@) =~= Seq::<BlockView>::empty());
        }
        while i < self.blocks.len()
            invariant
                v == self@,
                keep == keep_blocks_where(not_active_block_of(inode_id)),
                i <= self.blocks.len(),
                blocks_view(blocks@) == v.blocks.take(i as int).filter_map(keep),
            decreases self.blocks.len() - i,
        {
            proof {
                assert(v.blocks.take(i + 1).drop_last() =~= v.blocks.take(i as int));
                assert(v.blocks.take(i + 1).last() == v.blocks[i as int]);
            }
            let ghost before = blocks_view(blocks@);
            if !(self.blocks[i].inode_id == inode_id && is_active(&self.blocks[i].layer_id)) {
                blocks.push(self.blocks[i].copy());
                proof {
                    assert(blocks_view(blocks@) =~= before + seq![v.blocks[i as int]]);
                }
            }
            i = i + 1;
        }
        proof {
            assert(v.blocks.take(self.blocks.len() as int) =~= v.blocks);
        }
        self.blocks = blocks;
        proof {
            lemma_keep_blocks(v.blocks, not_active_block_of(inode_id));
            let nb = v.blocks.filter_map(keep);
            assert(forall|i: int, j: int| 0 <= i < v.blocks.len() && 0 <= j < v.blocks.len() && i != j
                ==> !block_same_key(v.blocks[i], v.blocks[j]));
            assert(forall|i: int, j: int| 0 <= i < nb.len() && 0 <= j < nb.len() && i != j
                ==> !block_same_key(nb[i], nb[j]));
            assert(self@.blocks == nb);
            assert(self@ == (DbView { blocks: nb, ..v }));
            assert forall|a: int| 0 <= a < nb.len() implies block_storable(#[trigger] nb[a]) by {
                assert(v.blocks.contains(nb[a]));
            }
        }
        Ok(())
    }
}

} // verus!
