//! What the mounted filesystem answers to each kernel request, and how each
//! request changes the store: attributes, lookups, directory listings,
//! reads, and the writes that go through copy-on-write.
use vstd::prelude::*;
use crate::clock::{clock_reading, now_rfc3339};
use crate::database::models::{Block, BlockView, Inode, InodeView};
use crate::database::reads::{children_listing, is_dir, spec_get_next_inode_id};
use crate::database::writes::{
    active_name, spec_copy_on_write, spec_delete_active_blocks, unlimited,
    spec_insert_inode, spec_update_inode, spec_upsert_block,
};
use crate::database::{
    active_id, dir_kind, file_kind, spec_get_block, spec_get_inode,
    spec_get_inode_by_name, tombstone_kind, DbView, LayeredDb,
};
use crate::text::owned;

verus! {

/// The kind of a directory entry as the kernel sees it.
#[derive(Debug, Clone, Copy, PartialEq, Eq, Structural)]
pub enum EntryKind {
    Directory,
    RegularFile,
}

/// The attributes reported for an inode, timestamps aside.
#[derive(Debug, Clone, Copy, PartialEq, Eq, Structural)]
pub struct FuseAttr {
    pub ino: u64,
    pub size: u64,
    /// The number of 512-byte blocks the size needs.
    pub blocks: u64,
    pub kind: EntryKind,
    pub perm: u16,
    pub nlink: u32,
    pub uid: u32,
    pub gid: u32,
    pub rdev: u32,
    pub blksize: u32,
    pub flags: u32,
}

/// How a request fails: the entry is missing, the name is taken, or the
/// store refused a write.
#[derive(Debug, Clone, Copy, PartialEq, Eq, Structural)]
pub enum FsError {
    NotFound,
    AlreadyExists,
    Io,
}

/// One entry of a directory listing.
#[derive(Debug)]
pub struct DirEntry {
    pub ino: u64,
    pub kind: EntryKind,
    pub name: String,
}

pub struct DirEntryView {
    pub ino: u64,
    pub kind: EntryKind,
    pub name: Seq<char>,
}

impl View for DirEntry {
    type V = DirEntryView;

    open spec fn view(&self) -> DirEntryView {
        DirEntryView { ino: self.ino, kind: self.kind, name: self.name@ }
    }
}

pub open spec fn entries_view(s: Seq<DirEntry>) -> Seq<DirEntryView> {
    s.map_values(|e: DirEntry| e@)
}

/// Directories are listed as directories; every other type as a file.
pub open spec fn kind_of(file_type: Seq<char>) -> EntryKind {
    if file_type == dir_kind() {
        EntryKind::Directory
    } else {
        EntryKind::RegularFile
    }
}

/// The attributes of an inode: owned by user and group 1000, in 4096-byte
/// blocks, with two links for a directory and one for anything else.
pub open spec fn attr_of(i: InodeView) -> FuseAttr {
    let kind = kind_of(i.file_type);
    FuseAttr {
        ino: i.inode_id,
        size: i.size,
        blocks: ((i.size + 511) / 512) as u64,
        kind,
        perm: i.permissions,
        nlink: if kind == EntryKind::Directory {
            2
        } else {
            1
        },
        uid: 1000,
        gid: 1000,
        rdev: 0,
        blksize: 4096,
        flags: 0,
    }
}

pub open spec fn entry_of(i: InodeView) -> DirEntryView {
    DirEntryView { ino: i.inode_id, kind: kind_of(i.file_type), name: i.name }
}

/// The `.` and `..` entries that open every listing.
pub open spec fn dot_entries(ino: u64, parent: u64) -> Seq<DirEntryView> {
    seq![
        DirEntryView { ino, kind: EntryKind::Directory, name: seq!['.'] },
        DirEntryView { ino: parent, kind: EntryKind::Directory, name: seq!['.', '.'] },
    ]
}

/// The bytes a read of `size` bytes at `offset` returns from `data`.
pub open spec fn read_slice(data: Seq<u8>, offset: i64, size: u32) -> Seq<u8> {
    let start = (offset as usize) as int;
    if start >= data.len() {
        Seq::empty()
    } else {
        let end = if start + size > data.len() {
            data.len() as int
        } else {
            start + size
        };
        data.subrange(start, end)
    }
}

/// `old` with `data` written at `start`, zero-filled up to `start` when it
/// was shorter.
pub open spec fn write_bytes(old: Seq<u8>, start: int, data: Seq<u8>) -> Seq<u8> {
    let end = start + data.len();
    let len = if old.len() < end {
        end
    } else {
        old.len() as int
    };
    Seq::new(
        len as nat,
        |i: int|
            if start <= i < end {
                data[i - start]
            } else if i < old.len() {
                old[i]
            } else {
                0u8
            },
    )
}

/// A new entry of the active layer, as `mkdir` and `mknod` write it.
pub open spec fn new_entry(v: DbView, parent: u64, name: Seq<char>, kind: Seq<char>, size: u64, mode: u32, now: Seq<char>) -> InodeView {
    InodeView {
        inode_id: match spec_get_next_inode_id(v) {
            Ok(n) => n,
            Err(_) => 9999,
        },
        layer_id: active_id(),
        parent_id: parent,
        name,
        file_type: kind,
        size,
        permissions: mode as u16,
        mtime: now,
        semantic_summary: None,
    }
}

/// What creating an entry does: when the name is already visible in the
/// directory nothing changes and the request fails; otherwise the entry is
/// written to the active layer with the next free inode id (9999 when none
/// can be had).
pub open spec fn spec_create(v: DbView, parent: u64, name: Seq<char>, kind: Seq<char>, size: u64, mode: u32, now: Seq<char>) -> (DbView, Result<InodeView, FsError>) {
    if spec_get_inode_by_name(v, parent, name) is Ok {
        (v, Err(FsError::AlreadyExists))
    } else {
        let e = new_entry(v, parent, name, kind, size, mode, now);
        let (v1, r) = spec_insert_inode(v, e);
        match r {
            Ok(_) => (v1, Ok(e)),
            Err(_) => (v1, Err(FsError::Io)),
        }
    }
}

pub open spec fn deleted_summary() -> Seq<char> {
    seq!['D', 'e', 'l', 'e', 't', 'e', 'd']
}

/// The tombstone that hides inode `id` under `name` in `parent`.
pub open spec fn tombstone_row(id: u64, parent: u64, name: Seq<char>, now: Seq<char>) -> InodeView {
    InodeView {
        inode_id: id,
        layer_id: active_id(),
        parent_id: parent,
        name,
        file_type: tombstone_kind(),
        size: 0,
        permissions: 0,
        mtime: now,
        semantic_summary: Some(deleted_summary()),
    }
}

/// What `unlink` does: a tombstone for the visible entry goes into the
/// active layer, and the active layer's blocks of the inode are deleted.
pub open spec fn spec_unlink(v: DbView, parent: u64, name: Seq<char>, now: Seq<char>) -> (DbView, Result<(), FsError>) {
    match spec_get_inode_by_name(v, parent, name) {
        Err(_) => (v, Err(FsError::NotFound)),
        Ok(i) => {
            let (v1, r) = spec_insert_inode(v, tombstone_row(i.inode_id, parent, name, now));
            match r {
                Err(_) => (v1, Err(FsError::Io)),
                Ok(_) => (spec_delete_active_blocks(v1, i.inode_id).0, Ok(())),
            }
        },
    }
}

/// An inode with the requested attribute changes applied.
pub open spec fn with_attrs(i: InodeView, mode: Option<u32>, size: Option<u64>, mtime: Option<Seq<char>>) -> InodeView {
    InodeView {
        permissions: match mode {
            Some(m) => m as u16,
            None => i.permissions,
        },
        size: match size {
            Some(s) => s,
            None => i.size,
        },
        mtime: match mtime {
            Some(t) => t,
            None => i.mtime,
        },
        ..i
    }
}

/// The block that a size change leaves: block `b` cut to `size` bytes and
/// written to the active layer, when it is longer.
pub open spec fn truncated_block(ino: u64, b: BlockView, size: u64) -> BlockView {
    BlockView { inode_id: ino, layer_id: active_id(), block_index: 0, data: b.data.take(size as int) }
}

/// What `setattr` does: the inode moves to the active layer (copy-on-write
/// at `now_cow`), and mode, size and mtime are updated there; a size below
/// the length of block 0 (as it reads now) cuts the block to that size.
pub open spec fn spec_setattr(v: DbView, ino: u64, mode: Option<u32>, size: Option<u64>, mtime: Option<Seq<char>>, now_cow: Seq<char>) -> (DbView, Result<InodeView, FsError>) {
    let (v1, r) = spec_copy_on_write(v, ino, now_cow);
    match r {
        Err(_) => (v1, Err(FsError::NotFound)),
        Ok(i) => {
            let i2 = with_attrs(i, mode, size, mtime);
            let (v2, r2) = spec_update_inode(v1, i2);
            if r2 is Err {
                (v2, Err(FsError::Io))
            } else if size is Some && spec_get_block(v2, ino, 0) is Ok
                && size.unwrap() < spec_get_block(v2, ino, 0).unwrap().data.len() {
                let (v3, r3) = spec_upsert_block(v2, truncated_block(ino, spec_get_block(v2, ino, 0).unwrap(), size.unwrap()));
                if r3 is Err {
                    (v3, Err(FsError::Io))
                } else {
                    (v3, Ok(i2))
                }
            } else {
                (v2, Ok(i2))
            }
        },
    }
}

/// What `write` does: the inode moves to the active layer (copy-on-write at
/// `now_cow`); block 0 as it reads now (or an empty block) gets the bytes at
/// `offset` and is written to the active layer; and when the file grew, its
/// size and mtime (`now_size`) are updated.
pub open spec fn spec_write(v: DbView, ino: u64, offset: i64, data: Seq<u8>, now_cow: Seq<char>, now_size: Seq<char>) -> (DbView, Result<u32, FsError>) {
    let (v1, r) = spec_copy_on_write(v, ino, now_cow);
    match r {
        Err(_) => (v1, Err(FsError::NotFound)),
        Ok(i) => {
            let b = match spec_get_block(v1, ino, 0) {
                Ok(b) => b,
                Err(_) => BlockView { inode_id: ino, layer_id: active_id(), block_index: 0, data: Seq::empty() },
            };
            let end = offset + data.len();
            let nb = BlockView {
                inode_id: ino,
                layer_id: active_id(),
                block_index: 0,
                data: write_bytes(b.data, offset as int, data),
            };
            let (v2, r2) = spec_upsert_block(v1, nb);
            if r2 is Err {
                (v2, Err(FsError::Io))
            } else if end > i.size {
                let (v3, r3) = spec_update_inode(v2, InodeView { size: end as u64, mtime: now_size, ..i });
                if r3 is Err {
                    (v3, Err(FsError::Io))
                } else {
                    (v3, Ok(data.len() as u32))
                }
            } else {
                (v2, Ok(data.len() as u32))
            }
        },
    }
}

impl Inode {
    /// The attributes the kernel is given for this inode.
    pub fn as_fuse_attr(&self) -> (r: FuseAttr)
        ensures
            r == attr_of(self@),
    {
        let kind = if is_dir(&self.file_type) {
            EntryKind::Directory
        } else {
            EntryKind::RegularFile
        };
        let blocks = self.size / 512 + if self.size % 512 == 0 {
            0
        } else {
            1
        };
        FuseAttr {
            ino: self.inode_id,
            size: self.size,
            blocks,
            kind,
            perm: self.permissions,
            nlink: match kind {
                EntryKind::Directory => 2,
                EntryKind::RegularFile => 1,
            },
            uid: 1000,
            gid: 1000,
            rdev: 0,
            blksize: 4096,
            flags: 0,
        }
    }
}

/// The bytes a read of `size` bytes at `offset` returns from `data`.
pub fn slice_for_read(data: &Vec<u8>, offset: i64, size: u32) -> (r: Vec<u8>)
    ensures
        r@ == read_slice(data@, offset, size),
{
    let start = offset as usize;
    if start >= data.len() {
        return Vec::new();
    }
    let end = if (size as usize) > data.len() - start {
        data.len()
    } else {
        start + size as usize
    };
    let mut out: Vec<u8> = Vec::new();
    let mut i = start;
    while i < end
        invariant
            start <= i <= end <= data.len(),
            out@ == data@.subrange(start as int, i as int),
        decreases end - i,
    {
        out.push(data[i]);
        proof {
            assert(out@ =~= data@.subrange(start as int, i + 1));
        }
        i = i + 1;
    }
    out
}

/// `buf` with `data` written at `start`, zero-filled up to `start` when it
/// was shorter.
pub fn write_at(buf: Vec<u8>, start: usize, data: &[u8]) -> (r: Vec<u8>)
    requires
        start + data@.len() <= usize::MAX,
    ensures
        r@ == write_bytes(buf@, start as int, data@),
{
    let mut out = buf;
    let ghost old_bytes = out@;
    let end = start + data.len();
    while out.len() < end
        invariant
            old_bytes.len() <= out@.len() <= end || out@.len() == old_bytes.len(),
            out@.subrange(0, old_bytes.len() as int) == old_bytes,
            forall|i: int| old_bytes.len() <= i < out@.len() ==> out@[i] == 0u8,
            end == start + data@.len(),
        decreases end - out.len(),
    {
        out.push(0u8);
    }
    let ghost padded = out@;
    let mut j: usize = 0;
    while j < data.len()
        invariant
            j <= data@.len(),
            end == start + data@.len(),
            out@.len() == padded.len(),
            padded.len() >= end,
            padded.subrange(0, old_bytes.len() as int) == old_bytes,
            forall|i: int| old_bytes.len() <= i < padded.len() ==> padded[i] == 0u8,
            padded.len() == if old_bytes.len() < end { end as int } else { old_bytes.len() as int },
            forall|i: int| 0 <= i < out@.len() ==> out@[i] == if start <= i < start + j {
                data@[i - start]
            } else {
                padded[i]
            },
        decreases data@.len() - j,
    {
        out.set(start + j, data[j]);
        j = j + 1;
    }
    proof {
        let w = write_bytes(old_bytes, start as int, data@);
        assert forall|i: int| 0 <= i < w.len() implies out@[i] == w[i] by {
            if !(start <= i < end) && i < old_bytes.len() {
                assert(padded[i] == padded.subrange(0, old_bytes.len() as int)[i]);
            }
        }
        assert(out@ =~= w);
    }
    out
}

impl LayeredDb {
    /// The attributes of inode `ino`, or `NotFound` when it is not visible.
    pub fn fs_getattr(&self, ino: u64) -> (r: Result<FuseAttr, FsError>)
        requires
            self.wf(),
        ensures
            r == match spec_get_inode(self@, ino) {
                Ok(i) => Ok(attr_of(i)),
                Err(_) => Err(FsError::NotFound),
            },
    {
        match self.get_inode(ino) {
            Ok(inode) => Ok(inode.as_fuse_attr()),
            Err(_) => Err(FsError::NotFound),
        }
    }

    /// The attributes of the entry `name` in directory `parent`.
    pub fn fs_lookup(&self, parent: u64, name: &str) -> (r: Result<FuseAttr, FsError>)
        requires
            self.wf(),
        ensures
            r == match spec_get_inode_by_name(self@, parent, name@) {
                Ok(i) => Ok(attr_of(i)),
                Err(_) => Err(FsError::NotFound),
            },
    {
        match self.get_inode_by_name(parent, name) {
            Ok(inode) => Ok(inode.as_fuse_attr()),
            Err(_) => Err(FsError::NotFound),
        }
    }

    /// The listing of directory `ino`: `.`, `..` (its parent), then its
    /// visible entries in name order.
    pub fn fs_readdir(&self, ino: u64) -> (r: Result<Vec<DirEntry>, FsError>)
        requires
            self.wf(),
        ensures
            match r {
                Err(e) => e == FsError::NotFound && spec_get_inode(self@, ino) is Err,
                Ok(es) => {
                    &&& spec_get_inode(self@, ino) is Ok
                    &&& exists|s: Seq<InodeView>|
                        children_listing(self@, ino, s) && entries_view(es@)
                            == dot_entries(ino, spec_get_inode(self@, ino).unwrap().parent_id) + s.map_values(|i: InodeView| entry_of(i))
                    &&& es@.len() >= 2
                    &&& es@[0].ino == ino && es@[0].name@ == seq!['.'] && es@[0].kind == EntryKind::Directory
                    &&& es@[1].ino == spec_get_inode(self@, ino).unwrap().parent_id
                    &&& es@[1].name@ == seq!['.', '.'] && es@[1].kind == EntryKind::Directory
                },
            },
    {
        let parent = match self.get_inode(ino) {
            Ok(inode) => inode.parent_id,
            Err(_) => return Err(FsError::NotFound),
        };
        let dot = ".";
        let dotdot = "..";
        proof {
            reveal_strlit(".");
            reveal_strlit("..");
            assert(dot@ =~= seq!['.']);
            assert(dotdot@ =~= seq!['.', '.']);
        }
        let mut entries: Vec<DirEntry> = Vec::new();
        entries.push(DirEntry { ino, kind: EntryKind::Directory, name: owned(dot) });
        entries.push(DirEntry { ino: parent, kind: EntryKind::Directory, name: owned(dotdot) });
        let children = match self.get_directory_children(ino) {
            Ok(c) => c,
            Err(_) => {
                assert(false);
                Vec::new()
            },
        };
        let ghost s = crate::database::inodes_view(children@);
        let ghost d = dot_entries(ino, parent);
        proof {
            assert(entries_view(entries@) =~= d);
            assert(s.take(0).map_values(|i: InodeView| entry_of(i)) =~= Seq::<DirEntryView>::empty());
            assert(d + s.take(0).map_values(|i: InodeView| entry_of(i)) =~= d);
        }
        let mut k: usize = 0;
        while k < children.len()
            invariant
                s == crate::database::inodes_view(children@),
                k <= children.len(),
                entries_view(entries@) == d + s.take(k as int).map_values(|i: InodeView| entry_of(i)),
            decreases children.len() - k,
        {
            let c = &children[k];
            let kind = if is_dir(&c.file_type) {
                EntryKind::Directory
            } else {
                EntryKind::RegularFile
            };
            let ghost before = entries_view(entries@);
            entries.push(DirEntry { ino: c.inode_id, kind, name: c.name.clone() });
            proof {
                assert(s.take(k + 1).map_values(|i: InodeView| entry_of(i))
                    =~= s.take(k as int).map_values(|i: InodeView| entry_of(i)).push(entry_of(s[k as int])));
                assert(entries_view(entries@) =~= before.push(entry_of(s[k as int])));
            }
            k = k + 1;
        }
        proof {
            assert(s.take(k as int) =~= s);
            assert(entries_view(entries@)[0] == entries@[0]@);
            assert(entries_view(entries@)[1] == entries@[1]@);
        }
        Ok(entries)
    }

    /// The bytes of file `ino` that a read of `size` bytes at `offset`
    /// returns, from block 0 as it reads under the time-travel limit; a
    /// visible file without a block reads as no bytes.
    pub fn fs_read(&self, ino: u64, offset: i64, size: u32) -> (r: Result<Vec<u8>, FsError>)
        requires
            self.wf(),
        ensures
            match r {
                Ok(bytes) => match spec_get_block(self@, ino, 0) {
                    Ok(b) => bytes@ == read_slice(b.data, offset, size),
                    Err(_) => spec_get_inode(self@, ino) is Ok && bytes@.len() == 0,
                },
                Err(e) => e == FsError::NotFound && spec_get_block(self@, ino, 0) is Err
                    && spec_get_inode(self@, ino) is Err,
            },
    {
        match self.get_block(ino, 0) {
            Ok(block) => Ok(slice_for_read(&block.data, offset, size)),
            Err(_) => match self.get_inode(ino) {
                Ok(_) => Ok(Vec::new()),
                Err(_) => Err(FsError::NotFound),
            },
        }
    }

    /// Creates directory `name` in `parent` in the active layer, stamped `now`.
    pub fn fs_mkdir_at(&mut self, parent: u64, name: &str, mode: u32, now: String) -> (r: Result<Inode, FsError>)
        requires
            old(self).wf(),
        ensures
            final(self).wf(),
            (final(self)@, match r { Ok(i) => Ok(i@), Err(e) => Err(e) })
                == spec_create(old(self)@, parent, name@, dir_kind(), 4096, mode, now@),
    {
        let lit = "dir";
        proof {
            reveal_strlit("dir");
            assert(lit@ =~= dir_kind());
        }
        self.create_entry(parent, name, owned(lit), 4096, mode, now)
    }

    /// Creates file `name` in `parent` in the active layer, stamped `now`.
    pub fn fs_mknod_at(&mut self, parent: u64, name: &str, mode: u32, now: String) -> (r: Result<Inode, FsError>)
        requires
            old(self).wf(),
        ensures
            final(self).wf(),
            (final(self)@, match r { Ok(i) => Ok(i@), Err(e) => Err(e) })
                == spec_create(old(self)@, parent, name@, file_kind(), 0, mode, now@),
    {
        let lit = "file";
        proof {
            reveal_strlit("file");
            assert(lit@ =~= file_kind());
        }
        self.create_entry(parent, name, owned(lit), 0, mode, now)
    }

    fn create_entry(&mut self, parent: u64, name: &str, kind: String, size: u64, mode: u32, now: String) -> (r: Result<Inode, FsError>)
        requires
            old(self).wf(),
        ensures
            final(self).wf(),
            (final(self)@, match r { Ok(i) => Ok(i@), Err(e) => Err(e) })
                == spec_create(old(self)@, parent, name@, kind@, size, mode, now@),
    {
        if self.get_inode_by_name(parent, name).is_ok() {
            return Err(FsError::AlreadyExists);
        }
        let id = match self.get_next_inode_id() {
            Ok(n) => n,
            Err(_) => 9999,
        };
        let entry = Inode {
            inode_id: id,
            layer_id: active_name(),
            parent_id: parent,
            name: owned(name),
            file_type: kind,
            size,
            permissions: mode as u16,
            mtime: now,
            semantic_summary: None,
        };
        match self.insert_inode(&entry) {
            Ok(()) => Ok(entry),
            Err(_) => Err(FsError::Io),
        }
    }

    /// Deletes entry `name` of `parent` by writing a tombstone, stamped `now`,
    /// to the active layer.
    pub fn fs_unlink_at(&mut self, parent: u64, name: &str, now: String) -> (r: Result<(), FsError>)
        requires
            old(self).wf(),
        ensures
            final(self).wf(),
            (final(self)@, r) == spec_unlink(old(self)@, parent, name@, now@),
    {
        let inode = match self.get_inode_by_name(parent, name) {
            Ok(i) => i,
            Err(_) => return Err(FsError::NotFound),
        };
        let lit = "tombstone";
        let summary = "Deleted";
        proof {
            reveal_strlit("tombstone");
            reveal_strlit("Deleted");
            assert(lit@ =~= tombstone_kind());
            assert(summary@ =~= deleted_summary());
        }
        let tombstone = Inode {
            inode_id: inode.inode_id,
            layer_id: active_name(),
            parent_id: parent,
            name: owned(name),
            file_type: owned(lit),
            size: 0,
            permissions: 0,
            mtime: now,
            semantic_summary: Some(owned(summary)),
        };
        match self.insert_inode(&tombstone) {
            Ok(()) => {
                let _ = self.delete_active_blocks(inode.inode_id);
                Ok(())
            },
            Err(_) => Err(FsError::Io),
        }
    }

    /// Changes mode, size and mtime of inode `ino` after moving it to the
    /// active layer; `now_cow` stamps the copy and `mtime` is the new mtime
    /// when one is set.
    pub fn fs_setattr_at(
        &mut self,
        ino: u64,
        mode: Option<u32>,
        size: Option<u64>,
        mtime: Option<String>,
        now_cow: String,
    ) -> (r: Result<Inode, FsError>)
        requires
            old(self).wf(),
        ensures
            final(self).wf(),
            (final(self)@, match r { Ok(i) => Ok(i@), Err(e) => Err(e) })
                == spec_setattr(old(self)@, ino, mode, size, crate::database::models::opt_view(mtime), now_cow@),
    {
        let mut inode = match self.copy_on_write_at(ino, now_cow) {
            Ok(i) => i,
            Err(_) => return Err(FsError::NotFound),
        };
        if let Some(m) = mode {
            inode.permissions = m as u16;
        }
        if let Some(s) = size {
            inode.size = s;
        }
        if let Some(t) = mtime {
            inode.mtime = t;
        }
        if self.update_inode(&inode).is_err() {
            return Err(FsError::Io);
        }
        if let Some(s) = size {
            if let Ok(block) = self.get_block(ino, 0) {
                if (s as u128) < (block.data.len() as u128) {
                    let mut data = block.data;
                    data.truncate(s as usize);
                    let cut = Block { inode_id: ino, layer_id: active_name(), block_index: 0, data };
                    if self.upsert_block(&cut).is_err() {
                        return Err(FsError::Io);
                    }
                }
            }
        }
        Ok(inode)
    }

    /// Writes `data` at `offset` into file `ino` after moving it to the
    /// active layer; `now_cow` stamps the copy and `now_size` the size
    /// change. Returns the number of bytes written.
    pub fn fs_write_at(&mut self, ino: u64, offset: i64, data: &[u8], now_cow: String, now_size: String) -> (r: Result<u32, FsError>)
        requires
            old(self).wf(),
            spec_get_inode(unlimited(old(self)@), ino) is Ok ==> 0 <= offset && offset + data@.len() <= usize::MAX,
        ensures
            final(self).wf(),
            (final(self)@, r) == spec_write(old(self)@, ino, offset, data@, now_cow@, now_size@),
    {
        let mut inode = match self.copy_on_write_at(ino, now_cow) {
            Ok(i) => i,
            Err(_) => return Err(FsError::NotFound),
        };
        let block = match self.get_block(ino, 0) {
            Ok(b) => b,
            Err(_) => Block { inode_id: ino, layer_id: active_name(), block_index: 0, data: Vec::new() },
        };
        let start = offset as usize;
        let end = start + data.len();
        let new_block = Block {
            inode_id: ino,
            layer_id: active_name(),
            block_index: 0,
            data: write_at(block.data, start, data),
        };
        if self.upsert_block(&new_block).is_err() {
            return Err(FsError::Io);
        }
        if (end as u64) > inode.size {
            inode.size = end as u64;
            inode.mtime = now_size;
            if self.update_inode(&inode).is_err() {
                return Err(FsError::Io);
            }
        }
        Ok(data.len() as u32)
    }

    /// Creates directory `name` in `parent`, stamped with the current time.
    pub fn fs_mkdir(&mut self, parent: u64, name: &str, mode: u32) -> (r: Result<Inode, FsError>)
        requires
            old(self).wf(),
        ensures
            final(self).wf(),
            exists|now: Seq<char>| clock_reading(now) && (final(self)@, match r { Ok(i) => Ok(i@), Err(e) => Err(e) })
                == spec_create(old(self)@, parent, name@, dir_kind(), 4096, mode, now),
    {
        self.fs_mkdir_at(parent, name, mode, now_rfc3339())
    }

    /// Creates file `name` in `parent`, stamped with the current time.
    pub fn fs_mknod(&mut self, parent: u64, name: &str, mode: u32) -> (r: Result<Inode, FsError>)
        requires
            old(self).wf(),
        ensures
            final(self).wf(),
            exists|now: Seq<char>| clock_reading(now) && (final(self)@, match r { Ok(i) => Ok(i@), Err(e) => Err(e) })
                == spec_create(old(self)@, parent, name@, file_kind(), 0, mode, now),
    {
        self.fs_mknod_at(parent, name, mode, now_rfc3339())
    }

    /// Deletes entry `name` of `parent`, stamped with the current time.
    pub fn fs_unlink(&mut self, parent: u64, name: &str) -> (r: Result<(), FsError>)
        requires
            old(self).wf(),
        ensures
            final(self).wf(),
            exists|now: Seq<char>| clock_reading(now) && (final(self)@, r) == spec_unlink(old(self)@, parent, name@, now),
    {
        self.fs_unlink_at(parent, name, now_rfc3339())
    }

    /// Changes mode and size of inode `ino`, and its mtime to the current
    /// time when `set_mtime` holds.
    pub fn fs_setattr(&mut self, ino: u64, mode: Option<u32>, size: Option<u64>, set_mtime: bool) -> (r: Result<Inode, FsError>)
        requires
            old(self).wf(),
        ensures
            final(self).wf(),
            exists|now_cow: Seq<char>, mtime: Option<Seq<char>>|
                clock_reading(now_cow) && (mtime matches Some(t) ==> clock_reading(t))
                && (mtime is Some <==> set_mtime)
                && (final(self)@, match r { Ok(i) => Ok(i@), Err(e) => Err(e) })
                    == #[trigger] spec_setattr(old(self)@, ino, mode, size, mtime, now_cow),
    {
        let now_cow = now_rfc3339();
        let ghost c = now_cow@;
        let mtime = if set_mtime {
            Some(now_rfc3339())
        } else {
            None
        };
        let ghost m = crate::database::models::opt_view(mtime);
        let r = self.fs_setattr_at(ino, mode, size, mtime, now_cow);
        proof {
            assert(m is Some <==> set_mtime);
            assert((self@, match r { Ok(i) => Ok(i@), Err(e) => Err(e) }) == spec_setattr(old(self)@, ino, mode, size, m, c));
        }
        r
    }

    /// Writes `data` at `offset` into file `ino`, stamped with the current
    /// time.
    pub fn fs_write(&mut self, ino: u64, offset: i64, data: &[u8]) -> (r: Result<u32, FsError>)
        requires
            old(self).wf(),
            spec_get_inode(unlimited(old(self)@), ino) is Ok ==> 0 <= offset && offset + data@.len() <= usize::MAX,
        ensures
            final(self).wf(),
            exists|now_cow: Seq<char>, now_size: Seq<char>| clock_reading(now_cow) && clock_reading(now_size) &&
                (final(self)@, r) == spec_write(old(self)@, ino, offset, data@, now_cow, now_size),
    {
        let now_cow = now_rfc3339();
        let now_size = now_rfc3339();
        self.fs_write_at(ino, offset, data, now_cow, now_size)
    }
}

} // verus!

verus! {

/// The entries of a listing from position `offset` on, each with the offset
/// at which a later request resumes after it.
pub fn readdir_page(entries: &Vec<DirEntry>, offset: i64) -> (r: Vec<(i64, DirEntry)>)
    ensures
        ({
            let start = (offset as usize) as int;
            &&& r@.len() == if start < entries@.len() { entries@.len() - start } else { 0 }
            &&& forall|j: int| 0 <= j < r@.len() ==> (#[trigger] r@[j]).0 == (start + j + 1) as i64
                && r@[j].1@ == entries@[start + j]@
        }),
{
    let start = offset as usize;
    let mut out: Vec<(i64, DirEntry)> = Vec::new();
    let mut i = start;
    while i < entries.len()
        invariant
            start == (offset as usize),
            start <= i,
            start < entries.len() ==> i <= entries.len(),
            start >= entries.len() ==> i == start,
            out@.len() == i - start,
            forall|j: int| 0 <= j < out@.len() ==> (#[trigger] out@[j]).0 == (start + j + 1) as i64
                && out@[j].1@ == entries@[start + j]@,
        decreases entries.len() - i,
    {
        let e = &entries[i];
        out.push(((i + 1) as i64, DirEntry { ino: e.ino, kind: e.kind, name: e.name.clone() }));
        i = i + 1;
    }
    out
}

} // verus!
