//! Creating and dropping the tables, and seeding a fresh filesystem.
use vstd::prelude::*;
use crate::clock::{clock_reading, epoch_stamp, now_rfc3339};
use crate::database::models::{Block, BlockView, Inode, InodeView, Layer, LayerView};
use crate::database::writes::{
    active_name, base_name, layer_exists, same_block_key, spec_insert_block, spec_insert_inode,
    spec_insert_layer,
};
use crate::database::{
    active_id, base_id, block_same_key, block_storable, blocks_view, dir_kind, file_kind,
    inode_same_key, inode_storable, inodes_view, layers_view, DbError, DbView, LayeredDb,
};
use crate::text::owned;

verus! {

/// The contents of the greeting file that a fresh filesystem holds.
pub open spec fn greeting_bytes() -> Seq<u8> {
    seq![72u8, 101, 108, 108, 111, 32, 102, 114, 111, 109, 32, 83, 81, 76, 105, 116, 101, 33, 10]
}

pub open spec fn greeting_name() -> Seq<char> {
    seq!['h', 'e', 'l', 'l', 'o', '.', 't', 'x', 't']
}

pub open spec fn greeting_summary() -> Seq<char> {
    seq![
        'A', ' ', 'f', 'r', 'i', 'e', 'n', 'd', 'l', 'y', ' ', 'g', 'r', 'e', 'e', 't', 'i', 'n',
        'g', ' ', 't', 'e', 's', 't', ' ', 'f', 'i', 'l', 'e', '.',
    ]
}

/// The read-only base layer of a fresh filesystem.
pub open spec fn seed_base_layer(now: Seq<char>) -> LayerView {
    LayerView { layer_id: base_id(), parent_layer_id: None, priority: 0, is_readonly: true, created_at: now }
}

/// The writable active layer of a fresh filesystem, above the base layer.
pub open spec fn seed_active_layer(now: Seq<char>) -> LayerView {
    LayerView {
        layer_id: active_id(),
        parent_layer_id: Some(base_id()),
        priority: 1,
        is_readonly: false,
        created_at: now,
    }
}

/// The root directory, inode 1, its own parent.
pub open spec fn seed_root(now: Seq<char>) -> InodeView {
    InodeView {
        inode_id: 1,
        layer_id: base_id(),
        parent_id: 1,
        name: Seq::empty(),
        file_type: dir_kind(),
        size: 4096,
        permissions: 0o755,
        mtime: now,
        semantic_summary: None,
    }
}

/// The greeting file, inode 2, in the root directory.
pub open spec fn seed_greeting(now: Seq<char>) -> InodeView {
    InodeView {
        inode_id: 2,
        layer_id: base_id(),
        parent_id: 1,
        name: greeting_name(),
        file_type: file_kind(),
        size: 19,
        permissions: 0o644,
        mtime: now,
        semantic_summary: Some(greeting_summary()),
    }
}

pub open spec fn seed_greeting_block() -> BlockView {
    BlockView { inode_id: 2, layer_id: base_id(), block_index: 0, data: greeting_bytes() }
}

/// What `init_schema` does: the tables exist afterwards; rows are kept.
pub open spec fn spec_init_schema(v: DbView) -> DbView {
    DbView { schema: true, ..v }
}

/// What `wipe_all_data` does: the tables and all their rows are gone.
pub open spec fn spec_wipe(v: DbView) -> DbView {
    DbView { schema: false, layers: Seq::empty(), inodes: Seq::empty(), blocks: Seq::empty(), ..v }
}

/// What `bootstrap_initial_state` does when the clock reads `t1` for the
/// layers and the root and `t2` for the greeting file: the tables are
/// created, and unless a base layer exists, the base and active layers, the
/// root directory and the greeting file with its block are written, in
/// that order, stopping at the first write that fails.
pub open spec fn spec_bootstrap(v: DbView, t1: Seq<char>, t2: Seq<char>) -> (DbView, Result<(), DbError>) {
    let v0 = spec_init_schema(v);
    if layer_exists(v0, base_id()) {
        (v0, Ok(()))
    } else {
        let (v1, r1) = spec_insert_layer(v0, seed_base_layer(t1));
        if r1 is Err {
            (v1, r1)
        } else {
            let (v2, r2) = spec_insert_layer(v1, seed_active_layer(t1));
            if r2 is Err {
                (v2, r2)
            } else {
                let (v3, r3) = spec_insert_inode(v2, seed_root(t1));
                if r3 is Err {
                    (v3, r3)
                } else {
                    let (v4, r4) = spec_insert_inode(v3, seed_greeting(t2));
                    if r4 is Err {
                        (v4, r4)
                    } else {
                        spec_insert_block(v4, seed_greeting_block())
                    }
                }
            }
        }
    }
}

impl LayeredDb {
    /// Creates the tables if they do not exist.
    pub fn init_schema(&mut self) -> (r: Result<(), DbError>)
        requires
            old(self).wf(),
        ensures
            final(self).wf(),
            final(self)@ == spec_init_schema(old(self)@),
            r is Ok,
    {
        self.schema = true;
        Ok(())
    }

    /// Drops the tables with all their rows.
    pub fn wipe_all_data(&mut self) -> (r: Result<(), DbError>)
        requires
            old(self).wf(),
        ensures
            final(self).wf(),
            final(self)@ == spec_wipe(old(self)@),
            r is Ok,
    {
        self.schema = false;
        self.layers = Vec::new();
        self.inodes = Vec::new();
        self.blocks = Vec::new();
        proof {
            assert(self@.layers =~= Seq::<LayerView>::empty());
            assert(self@.inodes =~= Seq::<InodeView>::empty());
            assert(self@.blocks =~= Seq::<BlockView>::empty());
        }
        Ok(())
    }

    /// Creates the tables and, unless a base layer exists, seeds the base
    /// and active layers, the root directory and the greeting file; `t1`
    /// stamps the layers and the root, `t2` the greeting file.
    pub fn bootstrap_initial_state_at(&mut self, t1: String, t2: String) -> (r: Result<(), DbError>)
        requires
            old(self).wf(),
        ensures
            final(self).wf(),
            (final(self)@, r) == spec_bootstrap(old(self)@, t1@, t2@),
    {
        let _ = self.init_schema();
        if self.has_layer(&base_name()) {
            return Ok(());
        }
        let base = Layer {
            layer_id: base_name(),
            parent_layer_id: None,
            priority: 0,
            is_readonly: true,
            created_at: t1.clone(),
        };
        match self.insert_layer(&base) {
            Ok(()) => {},
            Err(e) => return Err(e),
        }
        let active = Layer {
            layer_id: active_name(),
            parent_layer_id: Some(base_name()),
            priority: 1,
            is_readonly: false,
            created_at: t1.clone(),
        };
        match self.insert_layer(&active) {
            Ok(()) => {},
            Err(e) => return Err(e),
        }
        let empty = "";
        let dir = "dir";
        proof {
            reveal_strlit("");
            reveal_strlit("dir");
            assert(empty@ =~= Seq::<char>::empty());
            assert(dir@ =~= dir_kind());
        }
        let root = Inode {
            inode_id: 1,
            layer_id: base_name(),
            parent_id: 1,
            name: owned(empty),
            file_type: owned(dir),
            size: 4096,
            permissions: 0o755,
            mtime: t1,
            semantic_summary: None,
        };
        match self.insert_inode(&root) {
            Ok(()) => {},
            Err(e) => return Err(e),
        }
        let name = "hello.txt";
        let file = "file";
        let summary = "A friendly greeting test file.";
        proof {
            reveal_strlit("hello.txt");
            reveal_strlit("file");
            reveal_strlit("A friendly greeting test file.");
            assert(name@ =~= greeting_name());
            assert(file@ =~= file_kind());
            assert(summary@ =~= greeting_summary());
        }
        let text: Vec<u8> = vec![72u8, 101, 108, 108, 111, 32, 102, 114, 111, 109, 32, 83, 81, 76, 105, 116, 101, 33, 10];
        proof {
            assert(text@ =~= greeting_bytes());
        }
        let greeting = Inode {
            inode_id: 2,
            layer_id: base_name(),
            parent_id: 1,
            name: owned(name),
            file_type: owned(file),
            size: text.len() as u64,
            permissions: 0o644,
            mtime: t2,
            semantic_summary: Some(owned(summary)),
        };
        match self.insert_inode(&greeting) {
            Ok(()) => {},
            Err(e) => return Err(e),
        }
        let block = Block { inode_id: 2, layer_id: base_name(), block_index: 0, data: text };
        self.insert_block(&block)
    }

    /// Creates the tables and seeds a fresh filesystem unless one is there,
    /// stamped with the current time; see `bootstrap_initial_state_at`.
    pub fn bootstrap_initial_state(&mut self) -> (r: Result<(), DbError>)
        requires
            old(self).wf(),
        ensures
            final(self).wf(),
            exists|t1: Seq<char>, t2: Seq<char>| clock_reading(t1) && clock_reading(t2)
                && (final(self)@, r) == spec_bootstrap(old(self)@, t1, t2),
    {
        let _ = self.init_schema();
        if self.has_layer(&base_name()) {
            proof {
                let t = epoch_stamp();
                assert(clock_reading(t));
                assert((self@, Ok::<(), DbError>(())) == spec_bootstrap(old(self)@, t, t));
            }
            return Ok(());
        }
        let t1 = now_rfc3339();
        let t2 = now_rfc3339();
        let ghost g1 = t1@;
        let ghost g2 = t2@;
        let ghost mid = self@;
        let r = self.bootstrap_initial_state_at(t1, t2);
        proof {
            assert(spec_init_schema(mid) == spec_init_schema(old(self)@));
            assert((self@, r) == spec_bootstrap(old(self)@, g1, g2));
        }
        r
    }

    /// Resets the filesystem to its factory state: wipes every table, then
    /// creates and seeds them afresh, stamped with the current time. A
    /// failed wipe stops the reset.
    pub fn reset(&mut self) -> (r: Result<(), DbError>)
        requires
            old(self).wf(),
        ensures
            final(self).wf(),
            r is Ok,
            exists|t1: Seq<char>, t2: Seq<char>| clock_reading(t1) && clock_reading(t2)
                && final(self)@ == factory_state(old(self)@.head_priority, t1, t2),
    {
        let ghost v = self@;
        if let Err(e) = self.wipe_all_data() {
            return Err(e);
        }
        let r = self.bootstrap_initial_state();
        proof {
            let (t1, t2) = choose|t1: Seq<char>, t2: Seq<char>| clock_reading(t1) && clock_reading(t2)
                && (self@, r) == spec_bootstrap(spec_wipe(v), t1, t2);
            crate::database::laws::law_reset_gives_factory_state(v, t1, t2);
            assert(self@ == factory_state(v.head_priority, t1, t2));
        }
        r
    }
}

/// The store as seeded on tables that were empty: the base and active
/// layers, the root directory and the greeting file with its block.
pub open spec fn factory_state(head_priority: Option<i32>, t1: Seq<char>, t2: Seq<char>) -> DbView {
    DbView {
        schema: true,
        head_priority,
        layers: seq![seed_base_layer(t1), seed_active_layer(t1)],
        inodes: seq![seed_root(t1), seed_greeting(t2)],
        blocks: seq![seed_greeting_block()],
    }
}

} // verus!

verus! {

impl LayeredDb {
    /// A store holding the given rows, with no time-travel limit; `None`
    /// when two rows share a primary key, a stored integer does not fit its
    /// column, or rows are given for tables that do not exist.
    #[verifier::loop_isolation(false)]
    pub fn from_tables(schema: bool, layers: Vec<Layer>, inodes: Vec<Inode>, blocks: Vec<Block>) -> (r: Option<LayeredDb>)
        ensures
            ({
                let v = DbView {
                    schema,
                    head_priority: None,
                    layers: layers_view(layers@),
                    inodes: inodes_view(inodes@),
                    blocks: blocks_view(blocks@),
                };
                match r {
                    Some(db) => db.wf() && db@ == v,
                    None => !v.wf(),
                }
            }),
    {
        let db = LayeredDb { head_priority: None, schema, layers, inodes, blocks };
        let ghost v = db@;
        if !schema && (db.layers.len() > 0 || db.inodes.len() > 0 || db.blocks.len() > 0) {
            proof {
                assert(!v.wf());
            }
            return None;
        }
        let mut i: usize = 0;
        while i < db.layers.len()
            invariant
                v == db@,
                i <= db.layers.len(),
                forall|a: int, b: int| 0 <= a < i && 0 <= b < i && a != b
                    ==> v.layers[a].layer_id != v.layers[b].layer_id,
            decreases db.layers.len() - i,
        {
            let mut j: usize = 0;
            while j < i
                invariant
                    v == db@,
                        i < db.layers.len(),
                    j <= i,
                    forall|b: int| 0 <= b < j ==> v.layers[b].layer_id != v.layers[i as int].layer_id,
                decreases i - j,
            {
                if db.layers[j].layer_id == db.layers[i].layer_id {
                    proof {
                        assert(v.layers[j as int].layer_id == v.layers[i as int].layer_id);
                        assert(!v.wf());
                    }
                    return None;
                }
                j = j + 1;
            }
            i = i + 1;
        }
        let mut i: usize = 0;
        while i < db.inodes.len()
            invariant
                v == db@,
                i <= db.inodes.len(),
                forall|a: int, b: int| 0 <= a < i && 0 <= b < i && a != b
                    ==> !inode_same_key(v.inodes[a], v.inodes[b]),
                forall|a: int| 0 <= a < i ==> inode_storable(#[trigger] v.inodes[a]),
            decreases db.inodes.len() - i,
        {
            let r = &db.inodes[i];
            if r.inode_id > 0x7fff_ffff_ffff_ffff || r.parent_id > 0x7fff_ffff_ffff_ffff
                || r.size > 0x7fff_ffff_ffff_ffff {
                proof {
                    assert(!inode_storable(v.inodes[i as int]));
                    assert(!v.wf());
                }
                return None;
            }
            let mut j: usize = 0;
            while j < i
                invariant
                    v == db@,
                        i < db.inodes.len(),
                    j <= i,
                    forall|b: int| 0 <= b < j ==> !inode_same_key(v.inodes[b], v.inodes[i as int]),
                decreases i - j,
            {
                if db.inodes[j].inode_id == db.inodes[i].inode_id && db.inodes[j].layer_id == db.inodes[i].layer_id {
                    proof {
                        assert(inode_same_key(v.inodes[j as int], v.inodes[i as int]));
                        assert(!v.wf());
                    }
                    return None;
                }
                j = j + 1;
            }
            i = i + 1;
        }
        let mut i: usize = 0;
        while i < db.blocks.len()
            invariant
                v == db@,
                i <= db.blocks.len(),
                forall|a: int, b: int| 0 <= a < i && 0 <= b < i && a != b
                    ==> !block_same_key(v.blocks[a], v.blocks[b]),
                forall|a: int| 0 <= a < i ==> block_storable(#[trigger] v.blocks[a]),
            decreases db.blocks.len() - i,
        {
            if db.blocks[i].inode_id > 0x7fff_ffff_ffff_ffff {
                proof {
                    assert(!block_storable(v.blocks[i as int]));
                    assert(!v.wf());
                }
                return None;
            }
            let mut j: usize = 0;
            while j < i
                invariant
                    v == db@,
                        i < db.blocks.len(),
                    j <= i,
                    forall|b: int| 0 <= b < j ==> !block_same_key(v.blocks[b], v.blocks[i as int]),
                decreases i - j,
            {
                if same_block_key(&db.blocks[j], &db.blocks[i]) {
                    proof {
                        assert(block_same_key(v.blocks[j as int], v.blocks[i as int]));
                        assert(!v.wf());
                    }
                    return None;
                }
                j = j + 1;
            }
            i = i + 1;
        }
        Some(db)
    }

    /// Whether the tables exist.
    pub fn has_schema(&self) -> (r: bool)
        ensures
            r == self@.schema,
    {
        self.schema
    }

    /// The rows of the layers table.
    pub fn layer_rows(&self) -> (r: &Vec<Layer>)
        ensures
            layers_view(r@) == self@.layers,
    {
        &self.layers
    }

    /// The rows of the inodes table.
    pub fn inode_rows(&self) -> (r: &Vec<Inode>)
        ensures
            inodes_view(r@) == self@.inodes,
    {
        &self.inodes
    }

    /// The rows of the blocks table.
    pub fn block_rows(&self) -> (r: &Vec<Block>)
        ensures
            blocks_view(r@) == self@.blocks,
    {
        &self.blocks
    }
}

} // verus!
