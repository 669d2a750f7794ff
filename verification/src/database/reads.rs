//! Queries of the union view: the highest-priority version of a row wins,
//! tombstones hide files, and reads stop at the time-travel limit.
use vstd::prelude::*;
use crate::database::models::{Block, Inode};
use crate::database::{
    block_rank, block_result_view, dir_kind, inode_id_rank, inode_name_rank, visible_priority,
    inode_result_view, layer_priority, lemma_top_props, spec_get_block, spec_get_inode, spec_get_inode_by_name,
    tombstone_kind, top, DbError, DbView, LayeredDb,
};
use crate::text::{lemma_name_lt_irreflexive, lemma_name_lt_total, lemma_name_lt_trans, name_less, name_lt, str_eq};
use crate::database::models::InodeView;
use crate::database::{inodes_view, i64_max};

verus! {

/// The largest inode id in `rows`, or 0 when there is none.
pub open spec fn max_inode_id(rows: Seq<InodeView>) -> int
    decreases rows.len(),
{
    if rows.len() == 0 {
        0
    } else {
        let m = max_inode_id(rows.drop_last());
        let x = rows.last().inode_id as int;
        if x > m {
            x
        } else {
            m
        }
    }
}

/// What `get_next_inode_id` answers: one more than the largest id in use.
pub open spec fn spec_get_next_inode_id(v: DbView) -> Result<u64, DbError> {
    if !v.schema {
        Err(DbError::NoSuchTable)
    } else if max_inode_id(v.inodes) >= i64_max() {
        Err(DbError::ResultOutOfRange)
    } else {
        Ok((max_inode_id(v.inodes) + 1) as u64)
    }
}

pub proof fn lemma_max_inode_id(rows: Seq<InodeView>)
    ensures
        max_inode_id(rows) >= 0,
        forall|k: int| 0 <= k < rows.len() ==> #[trigger] rows[k].inode_id <= max_inode_id(rows),
    decreases rows.len(),
{
    if rows.len() > 0 {
        lemma_max_inode_id(rows.drop_last());
        assert forall|k: int| 0 <= k < rows.len() implies #[trigger] rows[k].inode_id <= max_inode_id(rows) by {
            if k < rows.len() - 1 {
                assert(rows.drop_last()[k] == rows[k]);
            }
        }
    }
}

/// Candidate rows of one name in a directory listing, ranked by layer.
pub open spec fn child_rank(v: DbView, parent: u64, name: Seq<char>) -> spec_fn(int) -> Option<i32> {
    |k: int|
        if v.inodes[k].parent_id == parent && v.inodes[k].inode_id != parent && v.inodes[k].name == name {
            visible_priority(v, v.inodes[k].layer_id)
        } else {
            None
        }
}

/// Row `k` is the visible entry of its name in directory `parent`: it wins
/// its name's ranking and is not a tombstone.
pub open spec fn listed_child(v: DbView, parent: u64, k: int) -> bool {
    &&& 0 <= k < v.inodes.len()
    &&& top(child_rank(v, parent, v.inodes[k].name), v.inodes.len() as int) == Some(k)
    &&& v.inodes[k].file_type != tombstone_kind()
}

pub open spec fn names_sorted(s: Seq<InodeView>) -> bool {
    forall|i: int, j: int| 0 <= i < j < s.len() ==> name_lt(#[trigger] s[i].name, #[trigger] s[j].name)
}

/// `s` is the listing of directory `parent`: its visible entries, one per
/// name, in name order.
pub open spec fn children_listing(v: DbView, parent: u64, s: Seq<InodeView>) -> bool {
    &&& names_sorted(s)
    &&& forall|x: InodeView| s.contains(x) <==> exists|k: int| listed_child(v, parent, k) && v.inodes[k] == x
}

/// Whether a file type marks a deleted file.
pub fn is_tombstone(file_type: &String) -> (r: bool)
    ensures
        r == (file_type@ == tombstone_kind()),
{
    let lit = "tombstone";
    proof {
        reveal_strlit("tombstone");
        assert(lit@ =~= tombstone_kind());
    }
    str_eq(file_type.as_str(), lit)
}

/// Whether a file type marks a directory.
pub fn is_dir(file_type: &String) -> (r: bool)
    ensures
        r == (file_type@ == dir_kind()),
{
    let lit = "dir";
    proof {
        reveal_strlit("dir");
        assert(lit@ =~= dir_kind());
    }
    str_eq(file_type.as_str(), lit)
}

/// A name-sorted sequence is fixed by its elements: two sorted sequences
/// holding the same elements are equal.
pub proof fn lemma_sorted_unique(s1: Seq<InodeView>, s2: Seq<InodeView>)
    requires
        names_sorted(s1),
        names_sorted(s2),
        forall|x: InodeView| s1.contains(x) <==> s2.contains(x),
    ensures
        s1 == s2,
    decreases s1.len(),
{
    if s1.len() == 0 {
        if s2.len() > 0 {
            assert(s2.contains(s2[0]));
        }
        assert(s1 =~= s2);
    } else {
        assert(s1.contains(s1[0]));
        let j = choose|j: int| 0 <= j < s2.len() && s2[j] == s1[0];
        assert(s2.contains(s2[0]));
        let i = choose|i: int| 0 <= i < s1.len() && s1[i] == s2[0];
        if j > 0 {
            assert(name_lt(s2[0].name, s2[j].name));
            if i > 0 {
                assert(name_lt(s1[0].name, s1[i].name));
                lemma_name_lt_trans(s1[0].name, s2[0].name, s1[0].name);
            }
            lemma_name_lt_irreflexive(s1[0].name);
            assert(false);
        }
        let t1 = s1.drop_first();
        let t2 = s2.drop_first();
        assert forall|x: InodeView| t1.contains(x) <==> t2.contains(x) by {
            if t1.contains(x) {
                let a = choose|a: int| 0 <= a < t1.len() && t1[a] == x;
                assert(s1[a + 1] == x);
                assert(s1.contains(x));
                let b = choose|b: int| 0 <= b < s2.len() && s2[b] == x;
                if b == 0 {
                    assert(name_lt(s1[0].name, s1[a + 1].name));
                    lemma_name_lt_irreflexive(x.name);
                }
                assert(t2[b - 1] == x);
            }
            if t2.contains(x) {
                let a = choose|a: int| 0 <= a < t2.len() && t2[a] == x;
                assert(s2[a + 1] == x);
                assert(s2.contains(x));
                let b = choose|b: int| 0 <= b < s1.len() && s1[b] == x;
                if b == 0 {
                    assert(name_lt(s2[0].name, s2[a + 1].name));
                    lemma_name_lt_irreflexive(x.name);
                }
                assert(t1[b - 1] == x);
            }
        }
        assert forall|a: int, b: int| 0 <= a < b < t1.len() implies name_lt(#[trigger] t1[a].name, #[trigger] t1[b].name) by {
            assert(t1[a] == s1[a + 1] && t1[b] == s1[b + 1]);
        }
        assert forall|a: int, b: int| 0 <= a < b < t2.len() implies name_lt(#[trigger] t2[a].name, #[trigger] t2[b].name) by {
            assert(t2[a] == s2[a + 1] && t2[b] == s2[b + 1]);
        }
        lemma_sorted_unique(t1, t2);
        assert(s1 =~= s2) by {
            assert forall|k: int| 0 <= k < s1.len() implies s1[k] == s2[k] by {
                if k > 0 {
                    assert(s1[k] == t1[k - 1]);
                    assert(s2[k] == t2[k - 1]);
                }
            }
        }
    }
}

/// The listing of a directory is unique.
pub proof fn law_listing_is_unique(v: DbView, parent: u64, s1: Seq<InodeView>, s2: Seq<InodeView>)
    requires
        children_listing(v, parent, s1),
        children_listing(v, parent, s2),
    ensures
        s1 == s2,
{
    lemma_sorted_unique(s1, s2);
}

impl LayeredDb {
    /// The priority of the layer named `id`.
    pub(crate) fn layer_priority_of(&self, id: &String) -> (r: Option<i32>)
        requires
            self.wf(),
        ensures
            r == layer_priority(self@.layers, id@),
    {
        let ghost v = self@;
        let mut i: usize = 0;
        while i < self.layers.len()
            invariant
                self.wf(),
                v == self@,
                i <= self.layers.len(),
                forall|j: int| 0 <= j < i ==> v.layers[j].layer_id != id@,
            decreases self.layers.len() - i,
        {
            if self.layers[i].layer_id == *id {
                proof {
                    assert(v.layers[i as int].layer_id == id@);
                    let l = choose|l: int| 0 <= l < v.layers.len() && v.layers[l].layer_id == id@;
                    assert(l == i);
                }
                return Some(self.layers[i].priority);
            }
            i = i + 1;
        }
        None
    }

    /// The priority of the layer named `id` when reads may see it.
    pub(crate) fn visible_priority_of(&self, id: &String) -> (r: Option<i32>)
        requires
            self.wf(),
        ensures
            r == visible_priority(self@, id@),
    {
        let limit: i32 = match self.head_priority {
            Some(p) => p,
            None => i32::MAX,
        };
        match self.layer_priority_of(id) {
            Some(p) => if p <= limit {
                Some(p)
            } else {
                None
            },
            None => None,
        }
    }

    /// The index of the top row among inodes with this id.
    fn top_inode_by_id(&self, id: u64) -> (r: Option<usize>)
        requires
            self.wf(),
        ensures
            match r {
                Some(k) => top(inode_id_rank(self@, id), self@.inodes.len() as int) == Some(k as int),
                None => top(inode_id_rank(self@, id), self@.inodes.len() as int) is None,
            },
    {
        let ghost rank = inode_id_rank(self@, id);
        let mut best: Option<usize> = None;
        let mut best_p: i32 = 0;
        let mut i: usize = 0;
        while i < self.inodes.len()
            invariant
                self.wf(),
                rank == inode_id_rank(self@, id),
                i <= self.inodes.len(),
                match best {
                    Some(k) => top(rank, i as int) == Some(k as int) && rank(k as int) == Some(best_p),
                    None => top(rank, i as int) is None,
                },
            decreases self.inodes.len() - i,
        {
            if self.inodes[i].inode_id == id {
                match self.visible_priority_of(&self.inodes[i].layer_id) {
                    Some(p) => {
                        if best.is_none() || p >= best_p {
                            best = Some(i);
                            best_p = p;
                        }
                    },
                    None => {},
                }
            }
            i = i + 1;
        }
        best
    }

    /// The index of the top row among inodes with this parent and name.
    fn top_inode_by_name(&self, parent: u64, name: &str) -> (r: Option<usize>)
        requires
            self.wf(),
        ensures
            match r {
                Some(k) => top(inode_name_rank(self@, parent, name@), self@.inodes.len() as int)
                    == Some(k as int),
                None => top(inode_name_rank(self@, parent, name@), self@.inodes.len() as int) is None,
            },
    {
        let ghost rank = inode_name_rank(self@, parent, name@);
        let mut best: Option<usize> = None;
        let mut best_p: i32 = 0;
        let mut i: usize = 0;
        while i < self.inodes.len()
            invariant
                self.wf(),
                rank == inode_name_rank(self@, parent, name@),
                i <= self.inodes.len(),
                match best {
                    Some(k) => top(rank, i as int) == Some(k as int) && rank(k as int) == Some(best_p),
                    None => top(rank, i as int) is None,
                },
            decreases self.inodes.len() - i,
        {
            if self.inodes[i].parent_id == parent && str_eq(self.inodes[i].name.as_str(), name) {
                match self.visible_priority_of(&self.inodes[i].layer_id) {
                    Some(p) => {
                        if best.is_none() || p >= best_p {
                            best = Some(i);
                            best_p = p;
                        }
                    },
                    None => {},
                }
            }
            i = i + 1;
        }
        best
    }

    /// The index of the top block visible under the time-travel limit.
    fn top_block(&self, id: u64, index: i64) -> (r: Option<usize>)
        requires
            self.wf(),
        ensures
            match r {
                Some(k) => top(block_rank(self@, id, index), self@.blocks.len() as int) == Some(k as int),
                None => top(block_rank(self@, id, index), self@.blocks.len() as int) is None,
            },
    {
        let ghost rank = block_rank(self@, id, index);
        let mut best: Option<usize> = None;
        let mut best_p: i32 = 0;
        let mut i: usize = 0;
        while i < self.blocks.len()
            invariant
                self.wf(),
                rank == block_rank(self@, id, index),
                i <= self.blocks.len(),
                match best {
                    Some(k) => top(rank, i as int) == Some(k as int) && rank(k as int) == Some(best_p),
                    None => top(rank, i as int) is None,
                },
            decreases self.blocks.len() - i,
        {
            if self.blocks[i].inode_id == id && self.blocks[i].block_index == index {
                match self.visible_priority_of(&self.blocks[i].layer_id) {
                    Some(p) => {
                        if best.is_none() || p >= best_p {
                            best = Some(i);
                            best_p = p;
                        }
                    },
                    None => {},
                }
            }
            i = i + 1;
        }
        best
    }

    /// The index of the top row of name `name` among the entries of `parent`.
    fn top_child(&self, parent: u64, name: &String) -> (r: Option<usize>)
        requires
            self.wf(),
        ensures
            match r {
                Some(k) => top(child_rank(self@, parent, name@), self@.inodes.len() as int) == Some(k as int),
                None => top(child_rank(self@, parent, name@), self@.inodes.len() as int) is None,
            },
    {
        let ghost rank = child_rank(self@, parent, name@);
        let mut best: Option<usize> = None;
        let mut best_p: i32 = 0;
        let mut i: usize = 0;
        while i < self.inodes.len()
            invariant
                self.wf(),
                rank == child_rank(self@, parent, name@),
                i <= self.inodes.len(),
                match best {
                    Some(k) => top(rank, i as int) == Some(k as int) && rank(k as int) == Some(best_p),
                    None => top(rank, i as int) is None,
                },
            decreases self.inodes.len() - i,
        {
            if self.inodes[i].parent_id == parent && self.inodes[i].inode_id != parent
                && self.inodes[i].name == *name {
                match self.visible_priority_of(&self.inodes[i].layer_id) {
                    Some(p) => {
                        if best.is_none() || p >= best_p {
                            best = Some(i);
                            best_p = p;
                        }
                    },
                    None => {},
                }
            }
            i = i + 1;
        }
        best
    }

    /// One more than the largest inode id in use (1 when there is none).
    pub fn get_next_inode_id(&self) -> (r: Result<u64, DbError>)
        requires
            self.wf(),
        ensures
            r == spec_get_next_inode_id(self@),
    {
        if !self.schema {
            return Err(DbError::NoSuchTable);
        }
        let ghost rows = self@.inodes;
        let mut m: u64 = 0;
        let mut i: usize = 0;
        proof {
            assert(rows.take(0) =~= Seq::<InodeView>::empty());
        }
        while i < self.inodes.len()
            invariant
                self.wf(),
                rows == self@.inodes,
                i <= self.inodes.len(),
                m as int == max_inode_id(rows.take(i as int)),
            decreases self.inodes.len() - i,
        {
            proof {
                assert(rows.take(i + 1).drop_last() =~= rows.take(i as int));
            }
            if self.inodes[i].inode_id > m {
                m = self.inodes[i].inode_id;
            }
            i = i + 1;
        }
        proof {
            assert(rows.take(i as int) =~= rows);
        }
        if m >= 0x7fff_ffff_ffff_ffff {
            return Err(DbError::ResultOutOfRange);
        }
        Ok(m + 1)
    }

    /// The visible entries of directory `parent_id` other than itself: per
    /// name the row of the highest-priority layer at or below the
    /// time-travel limit, tombstones left out, sorted by name.
    pub fn get_directory_children(&self, parent_id: u64) -> (r: Result<Vec<Inode>, DbError>)
        requires
            self.wf(),
        ensures
            match r {
                Ok(s) => self@.schema && parent_id <= i64_max()
                    && children_listing(self@, parent_id, inodes_view(s@)),
                Err(e) => if !self@.schema {
                    e == DbError::NoSuchTable
                } else {
                    parent_id > i64_max() && e == DbError::ParameterOutOfRange
                },
            },
    {
        if !self.schema {
            return Err(DbError::NoSuchTable);
        }
        if parent_id > 0x7fff_ffff_ffff_ffff {
            return Err(DbError::ParameterOutOfRange);
        }
        let ghost v = self@;
        let mut out: Vec<Inode> = Vec::new();
        let mut k: usize = 0;
        while k < self.inodes.len()
            invariant
                self.wf(),
                v == self@,
                k <= self.inodes.len(),
                names_sorted(inodes_view(out@)),
                forall|x: InodeView| inodes_view(out@).contains(x) <==>
                    exists|j: int| 0 <= j < k && listed_child(v, parent_id, j) && v.inodes[j] == x,
            decreases self.inodes.len() - k,
        {
            let ghost ov = inodes_view(out@);
            let row = &self.inodes[k];
            if row.parent_id == parent_id && row.inode_id != parent_id {
                let w = self.top_child(parent_id, &row.name);
                if w == Some(k) && !is_tombstone(&row.file_type) {
                    let ghost x = v.inodes[k as int];
                    assert(listed_child(v, parent_id, k as int));
                    // x's name is not yet listed: a row of the same name
                    // that is listed would win the same ranking.
                    assert forall|j: int| 0 <= j < ov.len() implies #[trigger] ov[j].name != x.name by {
                        assert(ov.contains(ov[j]));
                        let j2 = choose|j2: int| 0 <= j2 < k && listed_child(v, parent_id, j2) && v.inodes[j2] == ov[j];
                        if ov[j].name == x.name {
                            assert(j2 == k);
                        }
                    }
                    let mut p: usize = 0;
                    while p < out.len() && !name_less(row.name.as_str(), out[p].name.as_str())
                        invariant
                            ov == inodes_view(out@),
                            p <= out.len(),
                            forall|j: int| 0 <= j < p ==> !name_lt(x.name, #[trigger] ov[j].name),
                            x == v.inodes[k as int],
                            row@ == x,
                        decreases out.len() - p,
                    {
                        p = p + 1;
                    }
                    out.insert(p, row.copy());
                    proof {
                        let nv = inodes_view(out@);
                        assert(nv =~= ov.insert(p as int, x));
                        assert forall|i: int, j: int| 0 <= i < j < nv.len() implies
                            name_lt(#[trigger] nv[i].name, #[trigger] nv[j].name) by {
                            if j < p {
                            } else if i < p && j == p {
                                lemma_name_lt_total(ov[i].name, x.name);
                            } else if i < p {
                                lemma_name_lt_total(ov[i].name, x.name);
                                assert(nv[j] == ov[j - 1]);
                                if j - 1 > p {
                                    assert(name_lt(ov[p as int].name, ov[j - 1].name));
                                    lemma_name_lt_trans(x.name, ov[p as int].name, ov[j - 1].name);
                                }
                                lemma_name_lt_trans(ov[i].name, x.name, ov[j - 1].name);
                            } else if i == p {
                                assert(nv[j] == ov[j - 1]);
                                if j - 1 > p {
                                    assert(name_lt(ov[p as int].name, ov[j - 1].name));
                                    lemma_name_lt_trans(x.name, ov[p as int].name, ov[j - 1].name);
                                }
                            } else {
                                assert(nv[i] == ov[i - 1]);
                                assert(nv[j] == ov[j - 1]);
                            }
                        }
                        assert forall|y: InodeView| nv.contains(y) <==>
                            exists|j: int| 0 <= j < k + 1 && listed_child(v, parent_id, j) && v.inodes[j] == y by {
                            if nv.contains(y) {
                                let i = choose|i: int| 0 <= i < nv.len() && nv[i] == y;
                                if i < p {
                                    assert(ov.contains(ov[i]));
                                } else if i > p {
                                    assert(ov.contains(ov[i - 1]));
                                }
                            }
                            if exists|j: int| 0 <= j < k + 1 && listed_child(v, parent_id, j) && v.inodes[j] == y {
                                let j = choose|j: int| 0 <= j < k + 1 && listed_child(v, parent_id, j) && v.inodes[j] == y;
                                if j < k {
                                    assert(ov.contains(y));
                                    let i = choose|i: int| 0 <= i < ov.len() && ov[i] == y;
                                    if i < p {
                                        assert(nv[i] == y);
                                    } else {
                                        assert(nv[i + 1] == y);
                                    }
                                } else {
                                    assert(nv[p as int] == y);
                                }
                            }
                        }
                    }
                } else {
                    proof {
                        assert forall|y: InodeView| ov.contains(y) <==>
                            exists|j: int| 0 <= j < k + 1 && listed_child(v, parent_id, j) && v.inodes[j] == y by {
                            if exists|j: int| 0 <= j < k + 1 && listed_child(v, parent_id, j) && v.inodes[j] == y {
                                let j = choose|j: int| 0 <= j < k + 1 && listed_child(v, parent_id, j) && v.inodes[j] == y;
                                if j == k {
                                    lemma_top_props(child_rank(v, parent_id, v.inodes[j].name), v.inodes.len() as int);
                                }
                            }
                        }
                    }
                }
            } else {
                proof {
                    assert forall|y: InodeView| ov.contains(y) <==>
                        exists|j: int| 0 <= j < k + 1 && listed_child(v, parent_id, j) && v.inodes[j] == y by {
                        if exists|j: int| 0 <= j < k + 1 && listed_child(v, parent_id, j) && v.inodes[j] == y {
                            let j = choose|j: int| 0 <= j < k + 1 && listed_child(v, parent_id, j) && v.inodes[j] == y;
                            if j == k {
                                lemma_top_props(child_rank(v, parent_id, v.inodes[j].name), v.inodes.len() as int);
                            }
                        }
                    }
                }
            }
            k = k + 1;
        }
        Ok(out)
    }

    /// The visible version of inode `inode_id`: the row of the
    /// highest-priority layer at or below the time-travel limit that holds
    /// it, unless that row is a tombstone.
    pub fn get_inode(&self, inode_id: u64) -> (r: Result<Inode, DbError>)
        requires
            self.wf(),
        ensures
            inode_result_view(r) == spec_get_inode(self@, inode_id),
    {
        if !self.schema {
            return Err(DbError::NoSuchTable);
        }
        if inode_id > 0x7fff_ffff_ffff_ffff {
            return Err(DbError::ParameterOutOfRange);
        }
        let t = self.top_inode_by_id(inode_id);
        proof {
            lemma_top_props(inode_id_rank(self@, inode_id), self@.inodes.len() as int);
        }
        match t {
            None => Err(DbError::QueryReturnedNoRows),
            Some(k) => {
                if is_tombstone(&self.inodes[k].file_type) {
                    Err(DbError::QueryReturnedNoRows)
                } else {
                    Ok(self.inodes[k].copy())
                }
            },
        }
    }

    /// The visible entry named `name` in directory `parent_id`.
    pub fn get_inode_by_name(&self, parent_id: u64, name: &str) -> (r: Result<Inode, DbError>)
        requires
            self.wf(),
        ensures
            inode_result_view(r) == spec_get_inode_by_name(self@, parent_id, name@),
    {
        if !self.schema {
            return Err(DbError::NoSuchTable);
        }
        if parent_id > 0x7fff_ffff_ffff_ffff {
            return Err(DbError::ParameterOutOfRange);
        }
        let t = self.top_inode_by_name(parent_id, name);
        proof {
            lemma_top_props(inode_name_rank(self@, parent_id, name@), self@.inodes.len() as int);
        }
        match t {
            None => Err(DbError::QueryReturnedNoRows),
            Some(k) => {
                if is_tombstone(&self.inodes[k].file_type) {
                    Err(DbError::QueryReturnedNoRows)
                } else {
                    Ok(self.inodes[k].copy())
                }
            },
        }
    }

    /// Block `block_index` of inode `inode_id`, from the highest-priority
    /// layer at or below the time-travel limit.
    pub fn get_block(&self, inode_id: u64, block_index: i64) -> (r: Result<Block, DbError>)
        requires
            self.wf(),
        ensures
            block_result_view(r) == spec_get_block(self@, inode_id, block_index),
    {
        if !self.schema {
            return Err(DbError::NoSuchTable);
        }
        if inode_id > 0x7fff_ffff_ffff_ffff {
            return Err(DbError::ParameterOutOfRange);
        }
        let t = self.top_block(inode_id, block_index);
        proof {
            lemma_top_props(block_rank(self@, inode_id, block_index), self@.blocks.len() as int);
        }
        match t {
            None => Err(DbError::QueryReturnedNoRows),
            Some(k) => Ok(self.blocks[k].copy()),
        }
    }
}

} // verus!
