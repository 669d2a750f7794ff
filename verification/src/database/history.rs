//! Version control over the layer stack: discarding uncommitted changes and
//! choosing the layer that reads travel back to.
use vstd::prelude::*;
use crate::database::models::{Block, BlockView, Inode, InodeView};
use crate::database::writes::{is_active, keep_blocks_where, keep_inodes_where, lemma_keep_blocks, lemma_keep_inodes};
use crate::database::{
    active_id, blocks_view, inodes_view, layer_priority, DbError,
    DbView, LayeredDb,
};
use crate::text::str_eq;

verus! {

pub open spec fn latest_name() -> Seq<char> {
    seq!['l', 'a', 't', 'e', 's', 't']
}

/// Keeps the inode rows outside the active layer.
pub open spec fn keep_inode() -> spec_fn(InodeView) -> Option<InodeView> {
    keep_inodes_where(|i: InodeView| i.layer_id != active_id())
}

/// Keeps the block rows outside the active layer.
pub open spec fn keep_block() -> spec_fn(BlockView) -> Option<BlockView> {
    keep_blocks_where(|b: BlockView| b.layer_id != active_id())
}

/// What `revert` does: every inode and block row of the active layer is
/// deleted; the rest keep their order.
pub open spec fn spec_revert(v: DbView) -> (DbView, Result<(), DbError>) {
    if !v.schema {
        (v, Err(DbError::NoSuchTable))
    } else {
        (DbView { inodes: v.inodes.filter_map(keep_inode()), blocks: v.blocks.filter_map(keep_block()), ..v }, Ok(()))
    }
}

/// What `checkout` does: `latest` lifts the time-travel limit; any other
/// name sets it to the priority of the layer of that name.
pub open spec fn spec_checkout(v: DbView, name: Seq<char>) -> (DbView, Result<(), DbError>) {
    if name == latest_name() {
        (DbView { head_priority: None, ..v }, Ok(()))
    } else if !v.schema {
        (v, Err(DbError::NoSuchTable))
    } else {
        match layer_priority(v.layers, name) {
            None => (v, Err(DbError::QueryReturnedNoRows)),
            Some(p) => (DbView { head_priority: Some(p), ..v }, Ok(())),
        }
    }
}

impl LayeredDb {
    /// Discards the uncommitted changes: deletes every inode and block row
    /// of the active layer.
    pub fn revert(&mut self) -> (r: Result<(), DbError>)
        requires
            old(self).wf(),
        ensures
            final(self).wf(),
            (final(self)@, r) == spec_revert(old(self)@),
    {
        if !self.schema {
            return Err(DbError::NoSuchTable);
        }
        let ghost v = self@;
        let mut inodes: Vec<Inode> = Vec::new();
        let mut i: usize = 0;
        proof {
            assert(v.inodes.take(0) =~= Seq::<InodeView>::empty());
            assert(inodes_view(inodes@) =~= Seq::<InodeView>::empty());
        }
        while i < self.inodes.len()
            invariant
                v == self@,
                i <= self.inodes.len(),
                inodes_view(inodes@) == v.inodes.take(i as int).filter_map(keep_inode()),
            decreases self.inodes.len() - i,
        {
            proof {
                assert(v.inodes.take(i + 1).drop_last() =~= v.inodes.take(i as int));
                assert(v.inodes.take(i + 1).last() == v.inodes[i as int]);
            }
            let ghost before = inodes_view(inodes@);
            if !is_active(&self.inodes[i].layer_id) {
                inodes.push(self.inodes[i].copy());
                proof {
                    assert(inodes_view(inodes@) =~= before + seq![v.inodes[i as int]]);
                }
            }
            i = i + 1;
        }
        let mut blocks: Vec<Block> = Vec::new();
        let mut i: usize = 0;
        proof {
            assert(v.inodes.take(self.inodes.len() as int) =~= v.inodes);
            assert(v.blocks.take(0) =~= Seq::<BlockView>::empty());
            assert(blocks_view(blocks@) =~= Seq::<BlockView>::empty());
        }
        while i < self.blocks.len()
            invariant
                v == self@,
                i <= self.blocks.len(),
                blocks_view(blocks@) == v.blocks.take(i as int).filter_map(keep_block()),
            decreases self.blocks.len() - i,
        {
            proof {
                assert(v.blocks.take(i + 1).drop_last() =~= v.blocks.take(i as int));
                assert(v.blocks.take(i + 1).last() == v.blocks[i as int]);
            }
            let ghost before = blocks_view(blocks@);
            if !is_active(&self.blocks[i].layer_id) {
                blocks.push(self.blocks[i].copy());
                proof {
                    assert(blocks_view(blocks@) =~= before + seq![v.blocks[i as int]]);
                }
            }
            i = i + 1;
        }
        proof {
            assert(v.blocks.take(self.blocks.len() as int) =~= v.blocks);
        }
        self.inodes = inodes;
        self.blocks = blocks;
        proof {
            lemma_keep_inodes(v.inodes, |i: InodeView| i.layer_id != active_id());
            lemma_keep_blocks(v.blocks, |b: BlockView| b.layer_id != active_id());
            let ni = v.inodes.filter_map(keep_inode());
            let nb = v.blocks.filter_map(keep_block());
            assert forall|a: int| 0 <= a < ni.len() implies crate::database::inode_storable(#[trigger] ni[a]) by {
                assert(v.inodes.contains(ni[a]));
            }
            assert forall|a: int| 0 <= a < nb.len() implies crate::database::block_storable(#[trigger] nb[a]) by {
                assert(v.blocks.contains(nb[a]));
            }
        }
        Ok(())
    }

    /// Sets how far back reads travel: `latest` lifts the limit, any other
    /// name limits reads to the layers at or below that layer.
    pub fn checkout(&mut self, name: &str) -> (r: Result<(), DbError>)
        requires
            old(self).wf(),
        ensures
            final(self).wf(),
            (final(self)@, r) == spec_checkout(old(self)@, name@),
    {
        let lit = "latest";
        proof {
            reveal_strlit("latest");
            assert(lit@ =~= latest_name());
        }
        if str_eq(name, lit) {
            self.head_priority = None;
            return Ok(());
        }
        match self.get_layer_priority(name) {
            Ok(p) => {
                self.head_priority = Some(p);
                Ok(())
            },
            Err(e) => Err(e),
        }
    }
}

} // verus!
