use layeredfs::database::models::Inode;
use layeredfs::database::LayeredDb;
use layeredfs::engine::{readdir_page, slice_for_read, write_at, DirEntry, EntryKind, FsError};

fn seeded() -> LayeredDb {
    let mut db = LayeredDb::new();
    db.bootstrap_initial_state().unwrap();
    db
}

fn names(entries: &[DirEntry]) -> Vec<String> {
    entries.iter().map(|e| e.name.clone()).collect()
}

fn file(size: u64, kind: &str) -> Inode {
    Inode {
        inode_id: 4,
        layer_id: "active".to_string(),
        parent_id: 1,
        name: "f".to_string(),
        file_type: kind.to_string(),
        size,
        permissions: 0o640,
        mtime: String::new(),
        semantic_summary: None,
    }
}

#[test]
fn attributes_of_files_and_directories() {
    let dir = file(4096, "dir").as_fuse_attr();
    assert_eq!(dir.kind, EntryKind::Directory);
    assert_eq!(dir.nlink, 2);
    assert_eq!(dir.blocks, 8);
    assert_eq!(dir.perm, 0o640);
    assert_eq!(dir.uid, 1000);
    assert_eq!(dir.gid, 1000);
    assert_eq!(dir.blksize, 4096);
    assert_eq!(dir.rdev, 0);
    assert_eq!(dir.flags, 0);
    let f = file(19, "file").as_fuse_attr();
    assert_eq!(f.kind, EntryKind::RegularFile);
    assert_eq!(f.nlink, 1);
    assert_eq!(f.blocks, 1);
    assert_eq!(f.size, 19);
    assert_eq!(file(0, "symlink").as_fuse_attr().blocks, 0);
    assert_eq!(file(513, "file").as_fuse_attr().blocks, 2);
    assert_eq!(file(u64::MAX, "file").as_fuse_attr().blocks, u64::MAX / 512 + 1);
}

#[test]
fn getattr_and_lookup() {
    let db = seeded();
    let root = db.fs_getattr(1).unwrap();
    assert_eq!(root.kind, EntryKind::Directory);
    assert_eq!(root.perm, 0o755);
    let hello = db.fs_lookup(1, "hello.txt").unwrap();
    assert_eq!(hello.ino, 2);
    assert_eq!(hello.size, 19);
    assert_eq!(db.fs_getattr(42), Err(FsError::NotFound));
    assert_eq!(db.fs_lookup(1, "missing"), Err(FsError::NotFound));
}

#[test]
fn readdir_lists_dot_entries_then_children() {
    let mut db = seeded();
    db.fs_mknod(1, "b.txt", 0o644).unwrap();
    db.fs_mkdir(1, "a", 0o755).unwrap();
    let entries = db.fs_readdir(1).unwrap();
    assert_eq!(names(&entries), vec![".", "..", "a", "b.txt", "hello.txt"]);
    assert_eq!(entries[0].ino, 1);
    assert_eq!(entries[1].ino, 1);
    assert_eq!(entries[2].kind, EntryKind::Directory);
    assert_eq!(entries[3].kind, EntryKind::RegularFile);
    assert!(db.fs_readdir(99).is_err());
}

#[test]
fn readdir_pages_resume_at_offsets() {
    let db = seeded();
    let entries = db.fs_readdir(1).unwrap();
    let all = readdir_page(&entries, 0);
    assert_eq!(all.len(), 3);
    assert_eq!(all[0].0, 1);
    assert_eq!(all[2].0, 3);
    assert_eq!(all[2].1.name, "hello.txt");
    let rest = readdir_page(&entries, 2);
    assert_eq!(rest.len(), 1);
    assert_eq!(rest[0].0, 3);
    assert_eq!(readdir_page(&entries, 3).len(), 0);
    assert_eq!(readdir_page(&entries, -1).len(), 0);
}

#[test]
fn read_slices_block_zero() {
    let db = seeded();
    assert_eq!(db.fs_read(2, 0, 4096).unwrap(), b"Hello from SQLite!\n".to_vec());
    assert_eq!(db.fs_read(2, 6, 4).unwrap(), b"from".to_vec());
    assert_eq!(db.fs_read(2, 19, 10).unwrap(), Vec::<u8>::new());
    assert_eq!(db.fs_read(2, 100, 10).unwrap(), Vec::<u8>::new());
    assert_eq!(db.fs_read(2, -1, 10).unwrap(), Vec::<u8>::new());
    assert_eq!(db.fs_read(7, 0, 10), Err(FsError::NotFound));
}

#[test]
fn slice_and_write_helpers() {
    let data = vec![1u8, 2, 3, 4, 5];
    assert_eq!(slice_for_read(&data, 1, 2), vec![2, 3]);
    assert_eq!(slice_for_read(&data, 3, u32::MAX), vec![4, 5]);
    assert_eq!(write_at(vec![1, 2, 3], 1, &[9, 9]), vec![1, 9, 9]);
    assert_eq!(write_at(vec![1, 2, 3], 2, &[9, 9]), vec![1, 2, 9, 9]);
    assert_eq!(write_at(vec![1], 3, &[7]), vec![1, 0, 0, 7]);
    assert_eq!(write_at(vec![], 0, &[]), Vec::<u8>::new());
}

#[test]
fn mkdir_and_mknod_create_active_entries() {
    let mut db = seeded();
    let d = db.fs_mkdir(1, "docs", 0o40755).unwrap();
    assert_eq!(d.inode_id, 3);
    assert_eq!(d.layer_id, "active");
    assert_eq!(d.file_type, "dir");
    assert_eq!(d.size, 4096);
    assert_eq!(d.permissions, 0o40755);
    let f = db.fs_mknod(3, "note.txt", 0o100644).unwrap();
    assert_eq!(f.inode_id, 4);
    assert_eq!(f.file_type, "file");
    assert_eq!(f.size, 0);
    assert_eq!(f.permissions, 0o100644);
    assert_eq!(db.fs_lookup(3, "note.txt").unwrap().ino, 4);
    assert_eq!(db.get_inode(4).unwrap().name, "note.txt");
}

#[test]
fn mkdir_without_tables_fails() {
    let mut db = LayeredDb::new();
    assert_eq!(db.fs_mkdir(1, "x", 0o755).unwrap_err(), FsError::Io);
    assert_eq!(db.fs_mknod_at(1, "x", 0o644, "t".to_string()).unwrap_err(), FsError::Io);
}

#[test]
fn unlink_writes_a_tombstone() {
    let mut db = seeded();
    db.fs_write(2, 0, b"abc").unwrap();
    db.fs_unlink(1, "hello.txt").unwrap();
    assert_eq!(db.fs_getattr(2), Err(FsError::NotFound));
    assert_eq!(db.fs_lookup(1, "hello.txt"), Err(FsError::NotFound));
    assert_eq!(names(&db.fs_readdir(1).unwrap()), vec![".", ".."]);
    let tomb = db.inode_rows().iter().find(|i| i.layer_id == "active").unwrap();
    assert_eq!(tomb.file_type, "tombstone");
    assert_eq!(tomb.semantic_summary, Some("Deleted".to_string()));
    assert!(db.block_rows().iter().all(|b| b.layer_id != "active"));
    assert!(db.inode_rows().iter().any(|i| i.layer_id == "base" && i.inode_id == 2));
    assert_eq!(db.fs_unlink(1, "hello.txt"), Err(FsError::NotFound));
}

#[test]
fn setattr_changes_mode_size_and_time() {
    let mut db = seeded();
    let i = db.fs_setattr_at(2, Some(0x1_0180), Some(5), Some("m".to_string()), "c".to_string()).unwrap();
    assert_eq!(i.permissions, 0o600);
    assert_eq!(i.size, 5);
    assert_eq!(i.mtime, "m");
    assert_eq!(i.layer_id, "active");
    let stored = db.get_inode(2).unwrap();
    assert_eq!(stored.size, 5);
    assert_eq!(stored.permissions, 0o600);
    let same = db.fs_setattr(2, None, None, false).unwrap();
    assert_eq!(same.mtime, "m");
    assert_eq!(db.fs_setattr(2, None, Some(u64::MAX), true).unwrap_err(), FsError::Io);
    assert_eq!(db.fs_setattr(77, None, None, false).unwrap_err(), FsError::NotFound);
}

#[test]
fn write_then_read_returns_the_bytes() {
    let mut db = seeded();
    assert_eq!(db.fs_write(2, 6, b"over").unwrap(), 4);
    assert_eq!(db.fs_read(2, 6, 4).unwrap(), b"over".to_vec());
    assert_eq!(db.fs_read(2, 0, 100).unwrap(), b"Hello over SQLite!\n".to_vec());
    assert_eq!(db.get_inode(2).unwrap().size, 19);
}

#[test]
fn write_past_end_grows_the_file() {
    let mut db = seeded();
    db.fs_write_at(2, 21, b"!!", "c".to_string(), "s".to_string()).unwrap();
    let i = db.get_inode(2).unwrap();
    assert_eq!(i.size, 23);
    assert_eq!(i.mtime, "s");
    let data = db.fs_read(2, 0, 100).unwrap();
    assert_eq!(data.len(), 23);
    assert_eq!(&data[19..21], &[0, 0]);
    assert_eq!(&data[21..], b"!!");
}

#[test]
fn write_to_new_file_creates_its_block() {
    let mut db = seeded();
    let f = db.fs_mknod(1, "new.txt", 0o644).unwrap();
    db.fs_write(f.inode_id, 0, b"data").unwrap();
    assert_eq!(db.fs_read(f.inode_id, 0, 10).unwrap(), b"data".to_vec());
    assert_eq!(db.fs_getattr(f.inode_id).unwrap().size, 4);
    assert_eq!(db.fs_write(500, 0, b"x"), Err(FsError::NotFound));
}

#[test]
fn quick_start_time_travel() {
    let mut db = seeded();
    let f = db.fs_mknod(1, "file.txt", 0o644).unwrap();
    let line1 = b"Hello from Layer 1\n";
    let line2 = b"Hello from Layer 2\n";
    db.fs_write(f.inode_id, 0, line1).unwrap();
    db.commit("v1").unwrap();
    db.fs_write(f.inode_id, line1.len() as i64, line2).unwrap();
    let mut both = line1.to_vec();
    both.extend_from_slice(line2);
    assert_eq!(db.fs_read(f.inode_id, 0, 4096).unwrap(), both);
    db.checkout("v1").unwrap();
    assert_eq!(db.fs_read(f.inode_id, 0, 4096).unwrap(), line1.to_vec());
    db.checkout("latest").unwrap();
    assert_eq!(db.fs_read(f.inode_id, 0, 4096).unwrap(), both);
}

#[test]
fn base_layer_stays_untouched_by_writes() {
    let mut db = seeded();
    db.fs_write(2, 0, b"XXXX").unwrap();
    db.fs_setattr(2, Some(0o600), None, true).unwrap();
    let base = db.inode_rows().iter().find(|i| i.layer_id == "base" && i.inode_id == 2).unwrap();
    assert_eq!(base.permissions, 0o644);
    let base_block = db.block_rows().iter().find(|b| b.layer_id == "base").unwrap();
    assert_eq!(base_block.data, b"Hello from SQLite!\n".to_vec());
}

#[test]
fn commit_keeps_listing_and_contents() {
    let mut db = seeded();
    db.fs_mkdir(1, "docs", 0o755).unwrap();
    db.fs_write(2, 0, b"Yello").unwrap();
    let before = names(&db.fs_readdir(1).unwrap());
    let data = db.fs_read(2, 0, 100).unwrap();
    db.commit("v1").unwrap();
    assert_eq!(names(&db.fs_readdir(1).unwrap()), before);
    assert_eq!(db.fs_read(2, 0, 100).unwrap(), data);
    assert_eq!(db.get_inode(2).unwrap().layer_id, "v1");
}

#[test]
fn recreate_after_unlink_finds_the_new_file() {
    let mut db = seeded();
    db.fs_unlink(1, "hello.txt").unwrap();
    let f = db.fs_mknod(1, "hello.txt", 0o644).unwrap();
    assert_ne!(f.inode_id, 2);
    let found = db.get_inode_by_name(1, "hello.txt").unwrap();
    assert_eq!(found.inode_id, f.inode_id);
    assert_eq!(found.file_type, "file");
    assert_eq!(db.fs_lookup(1, "hello.txt").unwrap().ino, f.inode_id);
    assert_eq!(names(&db.fs_readdir(1).unwrap()), vec![".", "..", "hello.txt"]);
    assert_eq!(db.fs_getattr(2), Err(FsError::NotFound));
}

#[test]
fn creating_an_existing_name_fails_and_changes_nothing() {
    let mut db = seeded();
    let rows_before = db.inode_rows().len();
    assert_eq!(db.fs_mknod(1, "hello.txt", 0o644).unwrap_err(), FsError::AlreadyExists);
    assert_eq!(db.fs_mkdir(1, "hello.txt", 0o755).unwrap_err(), FsError::AlreadyExists);
    assert_eq!(db.inode_rows().len(), rows_before);
    assert_eq!(db.get_inode_by_name(1, "hello.txt").unwrap().inode_id, 2);
    db.fs_mkdir(1, "docs", 0o755).unwrap();
    assert_eq!(db.fs_mkdir(1, "docs", 0o755).unwrap_err(), FsError::AlreadyExists);
}

#[test]
fn shrinking_a_file_cuts_its_content() {
    let mut db = seeded();
    db.fs_setattr(2, None, Some(5), false).unwrap();
    assert_eq!(db.fs_read(2, 0, 100).unwrap(), b"Hello".to_vec());
    assert_eq!(db.fs_read(2, 5, 10).unwrap(), Vec::<u8>::new());
    assert_eq!(db.fs_getattr(2).unwrap().size, 5);
    let base_block = db.block_rows().iter().find(|b| b.layer_id == "base").unwrap();
    assert_eq!(base_block.data, b"Hello from SQLite!\n".to_vec());
    db.fs_setattr(2, None, Some(50), false).unwrap();
    assert_eq!(db.fs_read(2, 0, 100).unwrap(), b"Hello".to_vec());
}

#[test]
fn a_fresh_file_reads_as_empty() {
    let mut db = seeded();
    let f = db.fs_mknod(1, "empty.txt", 0o644).unwrap();
    assert_eq!(db.fs_read(f.inode_id, 0, 4096).unwrap(), Vec::<u8>::new());
    assert_eq!(db.fs_read(999, 0, 10), Err(FsError::NotFound));
}

#[test]
fn commit_stacks_the_active_layer_on_top() {
    let mut db = seeded();
    let before = db.get_layer_priority("active").unwrap();
    db.commit("v1").unwrap();
    let after = db.get_layer_priority("active").unwrap();
    assert_eq!(after, before + 1);
    assert_eq!(db.get_layer_priority("v1").unwrap(), before);
    for l in db.layer_rows() {
        if l.layer_id != "active" {
            assert!(l.priority < after);
        }
    }
    db.commit("v2").unwrap();
    assert_eq!(db.get_layer_priority("active").unwrap(), before + 2);
}

#[test]
fn commit_keeps_lookup_by_name() {
    let mut db = seeded();
    let d = db.fs_mkdir(1, "docs", 0o755).unwrap();
    db.commit("v1").unwrap();
    let found = db.get_inode_by_name(1, "docs").unwrap();
    assert_eq!(found.inode_id, d.inode_id);
    assert_eq!(found.layer_id, "v1");
    assert_eq!(db.get_inode_by_name(1, "hello.txt").unwrap().layer_id, "base");
    assert_eq!(db.fs_lookup(1, "docs").unwrap().ino, d.inode_id);
}

#[test]
fn checked_out_changes_start_from_the_newest_version() {
    let mut db = seeded();
    db.fs_setattr(2, Some(0o600), None, false).unwrap();
    db.fs_write(2, 0, b"X").unwrap();
    db.checkout("base").unwrap();
    assert_eq!(db.get_latest_inode(2).unwrap().permissions, 0o600);
    db.fs_setattr(2, None, None, false).unwrap();
    assert_eq!(db.fs_write(2, 0, b"Y").unwrap(), 1);
    db.checkout("latest").unwrap();
    let i = db.get_inode(2).unwrap();
    assert_eq!(i.layer_id, "active");
    assert_eq!(i.permissions, 0o600);
    assert_eq!(db.fs_read(2, 0, 100).unwrap(), b"Yello from SQLite!\n".to_vec());
}
