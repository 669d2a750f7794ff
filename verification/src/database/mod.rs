//! The store of a layered filesystem: three tables and the rules by which
//! layers stack into one view.
pub mod models;
pub mod reads;
pub mod writes;
pub mod history;
pub mod setup;
pub mod laws;

use vstd::prelude::*;
use crate::database::models::{Block, BlockView, Inode, InodeView, Layer, LayerView};

verus! {

/// What a table operation can fail with.
#[derive(Debug, Clone, Copy, PartialEq, Eq, Structural)]
pub enum DbError {
    /// The tables have not been created, or have been dropped.
    NoSuchTable,
    /// A query that needs a row found none.
    QueryReturnedNoRows,
    /// A write would give two rows the same primary key.
    ConstraintViolation,
    /// A `u64` parameter does not fit the store's signed 64-bit integers.
    ParameterOutOfRange,
    /// A computed integer does not fit the store's signed 64-bit integers.
    ResultOutOfRange,
}

/// The in-memory state of a layered filesystem: whether its tables exist,
/// the time-travel limit, and the rows of its three tables.
pub struct LayeredDb {
    /// The highest layer priority that reads may see; `None` sees all.
    pub head_priority: Option<i32>,
    schema: bool,
    layers: Vec<Layer>,
    inodes: Vec<Inode>,
    blocks: Vec<Block>,
}

/// The mathematical view of a `LayeredDb`.
pub struct DbView {
    pub schema: bool,
    pub head_priority: Option<i32>,
    pub layers: Seq<LayerView>,
    pub inodes: Seq<InodeView>,
    pub blocks: Seq<BlockView>,
}

impl View for LayeredDb {
    type V = DbView;

    closed spec fn view(&self) -> DbView {
        DbView {
            schema: self.schema,
            head_priority: self.head_priority,
            layers: layers_view(self.layers@),
            inodes: inodes_view(self.inodes@),
            blocks: blocks_view(self.blocks@),
        }
    }
}

pub open spec fn layers_view(s: Seq<Layer>) -> Seq<LayerView> {
    s.map_values(|l: Layer| l@)
}

pub open spec fn inodes_view(s: Seq<Inode>) -> Seq<InodeView> {
    s.map_values(|i: Inode| i@)
}

pub open spec fn blocks_view(s: Seq<Block>) -> Seq<BlockView> {
    s.map_values(|b: Block| b@)
}

pub open spec fn i64_max() -> int {
    0x7fff_ffff_ffff_ffff
}

pub open spec fn active_id() -> Seq<char> {
    seq!['a', 'c', 't', 'i', 'v', 'e']
}

pub open spec fn base_id() -> Seq<char> {
    seq!['b', 'a', 's', 'e']
}

pub open spec fn tombstone_kind() -> Seq<char> {
    seq!['t', 'o', 'm', 'b', 's', 't', 'o', 'n', 'e']
}

pub open spec fn dir_kind() -> Seq<char> {
    seq!['d', 'i', 'r']
}

pub open spec fn file_kind() -> Seq<char> {
    seq!['f', 'i', 'l', 'e']
}

/// Every integer of an inode row fits a signed 64-bit column.
pub open spec fn inode_storable(i: InodeView) -> bool {
    &&& i.inode_id <= i64_max()
    &&& i.parent_id <= i64_max()
    &&& i.size <= i64_max()
}

pub open spec fn block_storable(b: BlockView) -> bool {
    b.inode_id <= i64_max()
}

pub open spec fn inode_same_key(a: InodeView, b: InodeView) -> bool {
    a.inode_id == b.inode_id && a.layer_id == b.layer_id
}

pub open spec fn block_same_key(a: BlockView, b: BlockView) -> bool {
    a.inode_id == b.inode_id && a.layer_id == b.layer_id && a.block_index == b.block_index
}

impl DbView {
    /// Primary keys are unique, every stored integer fits its column, and
    /// tables that do not exist hold no rows.
    pub open spec fn wf(self) -> bool {
        &&& forall|i: int, j: int|
            0 <= i < self.layers.len() && 0 <= j < self.layers.len() && i != j
                ==> self.layers[i].layer_id != self.layers[j].layer_id
        &&& forall|i: int, j: int|
            0 <= i < self.inodes.len() && 0 <= j < self.inodes.len() && i != j
                ==> !inode_same_key(self.inodes[i], self.inodes[j])
        &&& forall|i: int, j: int|
            0 <= i < self.blocks.len() && 0 <= j < self.blocks.len() && i != j
                ==> !block_same_key(self.blocks[i], self.blocks[j])
        &&& forall|i: int| 0 <= i < self.inodes.len() ==> inode_storable(#[trigger] self.inodes[i])
        &&& forall|i: int| 0 <= i < self.blocks.len() ==> block_storable(#[trigger] self.blocks[i])
        &&& !self.schema ==> (self.layers.len() == 0 && self.inodes.len() == 0
            && self.blocks.len() == 0)
    }
}

/// The priority of the layer named `id`, if there is one.
pub open spec fn layer_priority(layers: Seq<LayerView>, id: Seq<char>) -> Option<i32> {
    if exists|l: int| 0 <= l < layers.len() && layers[l].layer_id == id {
        Some(layers[choose|l: int| 0 <= l < layers.len() && layers[l].layer_id == id].priority)
    } else {
        None
    }
}

/// Of the rows `0..n` that `rank` admits (with the priority of their layer),
/// the one of highest priority; among rows of equal priority, the last, the
/// latest written.
pub open spec fn top(rank: spec_fn(int) -> Option<i32>, n: int) -> Option<int>
    decreases n,
{
    if n <= 0 {
        None
    } else {
        let t = top(rank, n - 1);
        match rank(n - 1) {
            None => t,
            Some(p) => match t {
                None => Some(n - 1),
                Some(k) => if p >= rank(k).unwrap() {
                    Some(n - 1)
                } else {
                    Some(k)
                },
            },
        }
    }
}

pub proof fn lemma_top_props(rank: spec_fn(int) -> Option<i32>, n: int)
    ensures
        match top(rank, n) {
            Some(k) => {
                &&& 0 <= k < n
                &&& rank(k) is Some
                &&& forall|j: int| 0 <= j < n && #[trigger] rank(j) is Some ==> rank(j).unwrap() <= rank(k).unwrap()
                &&& forall|j: int| k < j < n && #[trigger] rank(j) is Some ==> rank(j).unwrap() < rank(k).unwrap()
            },
            None => forall|j: int| 0 <= j < n ==> #[trigger] rank(j) is None,
        },
    decreases n,
{
    if n > 0 {
        lemma_top_props(rank, n - 1);
    }
}

/// Two rankings that agree on `0..n` select the same row.
pub proof fn lemma_top_ext(r1: spec_fn(int) -> Option<i32>, r2: spec_fn(int) -> Option<i32>, n: int)
    requires
        forall|j: int| 0 <= j < n ==> #[trigger] r1(j) == r2(j),
    ensures
        top(r1, n) == top(r2, n),
    decreases n,
{
    if n > 0 {
        lemma_top_ext(r1, r2, n - 1);
        lemma_top_props(r1, n - 1);
    }
}

/// The priority limit of reads: the checked-out layer's priority, or no
/// limit.
pub open spec fn head_limit(v: DbView) -> i32 {
    match v.head_priority {
        Some(p) => p,
        None => 0x7fff_ffffi32,
    }
}

/// The priority of layer `id` when reads may see it: the layer exists and
/// is at or below the time-travel limit.
pub open spec fn visible_priority(v: DbView, id: Seq<char>) -> Option<i32> {
    match layer_priority(v.layers, id) {
        Some(p) => if p <= head_limit(v) {
            Some(p)
        } else {
            None
        },
        None => None,
    }
}

pub open spec fn inode_id_rank(v: DbView, id: u64) -> spec_fn(int) -> Option<i32> {
    |k: int|
        if v.inodes[k].inode_id == id {
            visible_priority(v, v.inodes[k].layer_id)
        } else {
            None
        }
}

pub open spec fn inode_name_rank(v: DbView, parent: u64, name: Seq<char>) -> spec_fn(int) -> Option<i32> {
    |k: int|
        if v.inodes[k].parent_id == parent && v.inodes[k].name == name {
            visible_priority(v, v.inodes[k].layer_id)
        } else {
            None
        }
}

pub open spec fn block_rank(v: DbView, id: u64, index: i64) -> spec_fn(int) -> Option<i32> {
    |k: int|
        if v.blocks[k].inode_id == id && v.blocks[k].block_index == index {
            visible_priority(v, v.blocks[k].layer_id)
        } else {
            None
        }
}

/// The visible version of a row found by `rank`: tombstones hide it.
pub open spec fn visible_inode(v: DbView, rank: spec_fn(int) -> Option<i32>) -> Result<InodeView, DbError> {
    match top(rank, v.inodes.len() as int) {
        None => Err(DbError::QueryReturnedNoRows),
        Some(k) => if v.inodes[k].file_type == tombstone_kind() {
            Err(DbError::QueryReturnedNoRows)
        } else {
            Ok(v.inodes[k])
        },
    }
}

/// What `get_inode` answers.
pub open spec fn spec_get_inode(v: DbView, id: u64) -> Result<InodeView, DbError> {
    if !v.schema {
        Err(DbError::NoSuchTable)
    } else if id > i64_max() {
        Err(DbError::ParameterOutOfRange)
    } else {
        visible_inode(v, inode_id_rank(v, id))
    }
}

/// What `get_inode_by_name` answers.
pub open spec fn spec_get_inode_by_name(v: DbView, parent: u64, name: Seq<char>) -> Result<InodeView, DbError> {
    if !v.schema {
        Err(DbError::NoSuchTable)
    } else if parent > i64_max() {
        Err(DbError::ParameterOutOfRange)
    } else {
        visible_inode(v, inode_name_rank(v, parent, name))
    }
}

/// What `get_block` answers.
pub open spec fn spec_get_block(v: DbView, id: u64, index: i64) -> Result<BlockView, DbError> {
    if !v.schema {
        Err(DbError::NoSuchTable)
    } else if id > i64_max() {
        Err(DbError::ParameterOutOfRange)
    } else {
        match top(block_rank(v, id, index), v.blocks.len() as int) {
            None => Err(DbError::QueryReturnedNoRows),
            Some(k) => Ok(v.blocks[k]),
        }
    }
}

pub open spec fn inode_result_view(r: Result<Inode, DbError>) -> Result<InodeView, DbError> {
    match r {
        Ok(i) => Ok(i@),
        Err(e) => Err(e),
    }
}

pub open spec fn block_result_view(r: Result<Block, DbError>) -> Result<BlockView, DbError> {
    match r {
        Ok(b) => Ok(b@),
        Err(e) => Err(e),
    }
}

impl LayeredDb {
    /// The store is well formed: see `DbView::wf`.
    pub open spec fn wf(&self) -> bool {
        self@.wf()
    }

    /// An empty store whose tables do not exist yet.
    pub fn new() -> (r: LayeredDb)
        ensures
            r.wf(),
            !r@.schema,
            r@.head_priority is None,
            r@.layers.len() == 0,
            r@.inodes.len() == 0,
            r@.blocks.len() == 0,
    {
        let r = LayeredDb {
            head_priority: None,
            schema: false,
            layers: Vec::new(),
            inodes: Vec::new(),
            blocks: Vec::new(),
        };
        proof {
            assert(r@.layers =~= Seq::<LayerView>::empty());
            assert(r@.inodes =~= Seq::<InodeView>::empty());
            assert(r@.blocks =~= Seq::<BlockView>::empty());
        }
        r
    }
}

} // verus!
