use layeredfs::database::models::{Block, Inode, Layer};
use layeredfs::database::{DbError, LayeredDb};

fn seeded() -> LayeredDb {
    let mut db = LayeredDb::new();
    db.bootstrap_initial_state().unwrap();
    db
}

fn inode(id: u64, layer: &str, parent: u64, name: &str, kind: &str, size: u64) -> Inode {
    Inode {
        inode_id: id,
        layer_id: layer.to_string(),
        parent_id: parent,
        name: name.to_string(),
        file_type: kind.to_string(),
        size,
        permissions: 0o644,
        mtime: "t".to_string(),
        semantic_summary: None,
    }
}

#[test]
fn bootstrap_seeds_factory_state() {
    let db = seeded();
    assert!(db.has_schema());
    let layers = db.layer_rows();
    assert_eq!(layers.len(), 2);
    assert_eq!(layers[0].layer_id, "base");
    assert_eq!(layers[0].priority, 0);
    assert!(layers[0].is_readonly);
    assert_eq!(layers[0].parent_layer_id, None);
    assert_eq!(layers[1].layer_id, "active");
    assert_eq!(layers[1].priority, 1);
    assert!(!layers[1].is_readonly);
    assert_eq!(layers[1].parent_layer_id, Some("base".to_string()));

    let root = db.get_inode(1).unwrap();
    assert_eq!(root.name, "");
    assert_eq!(root.file_type, "dir");
    assert_eq!(root.parent_id, 1);
    assert_eq!(root.size, 4096);
    assert_eq!(root.permissions, 0o755);

    let hello = db.get_inode(2).unwrap();
    assert_eq!(hello.name, "hello.txt");
    assert_eq!(hello.file_type, "file");
    assert_eq!(hello.size, 19);
    assert_eq!(hello.permissions, 0o644);
    assert_eq!(hello.semantic_summary, Some("A friendly greeting test file.".to_string()));
    assert!(!hello.mtime.is_empty());

    let block = db.get_block(2, 0).unwrap();
    assert_eq!(block.data, b"Hello from SQLite!\n".to_vec());
    assert_eq!(block.layer_id, "base");
}

#[test]
fn bootstrap_is_idempotent() {
    let mut db = seeded();
    db.bootstrap_initial_state().unwrap();
    assert_eq!(db.layer_rows().len(), 2);
    assert_eq!(db.inode_rows().len(), 2);
    assert_eq!(db.block_rows().len(), 1);
}

#[test]
fn bootstrap_at_stamps_given_times() {
    let mut db = LayeredDb::new();
    db.bootstrap_initial_state_at("t1".to_string(), "t2".to_string()).unwrap();
    assert_eq!(db.layer_rows()[0].created_at, "t1");
    assert_eq!(db.layer_rows()[1].created_at, "t1");
    assert_eq!(db.get_inode(1).unwrap().mtime, "t1");
    assert_eq!(db.get_inode(2).unwrap().mtime, "t2");
}

#[test]
fn bootstrap_stops_when_active_layer_exists() {
    let mut db = LayeredDb::new();
    db.init_schema().unwrap();
    let active = Layer {
        layer_id: "active".to_string(),
        parent_layer_id: None,
        priority: 5,
        is_readonly: false,
        created_at: "t".to_string(),
    };
    db.insert_layer(&active).unwrap();
    assert_eq!(db.bootstrap_initial_state(), Err(DbError::ConstraintViolation));
    assert_eq!(db.layer_rows().len(), 2);
    assert_eq!(db.inode_rows().len(), 0);
}

#[test]
fn reset_restores_factory_state() {
    let mut db = seeded();
    db.fs_mknod(1, "extra.txt", 0o644).unwrap();
    db.commit("v1").unwrap();
    db.wipe_all_data().unwrap();
    assert!(!db.has_schema());
    assert_eq!(db.get_inode(1).unwrap_err(), DbError::NoSuchTable);
    db.bootstrap_initial_state().unwrap();
    assert_eq!(db.layer_rows().len(), 2);
    assert_eq!(db.inode_rows().len(), 2);
    assert_eq!(db.block_rows().len(), 1);
    assert_eq!(db.get_inode_by_name(1, "extra.txt").unwrap_err(), DbError::QueryReturnedNoRows);
}

#[test]
fn queries_without_tables_fail() {
    let mut db = LayeredDb::new();
    assert_eq!(db.get_inode(1).unwrap_err(), DbError::NoSuchTable);
    assert_eq!(db.get_inode_by_name(1, "x").unwrap_err(), DbError::NoSuchTable);
    assert_eq!(db.get_block(1, 0).unwrap_err(), DbError::NoSuchTable);
    assert_eq!(db.get_next_inode_id(), Err(DbError::NoSuchTable));
    assert_eq!(db.get_directory_children(1).unwrap_err(), DbError::NoSuchTable);
    assert_eq!(db.insert_inode(&inode(1, "base", 1, "x", "file", 0)), Err(DbError::NoSuchTable));
    assert_eq!(db.revert(), Err(DbError::NoSuchTable));
    assert_eq!(db.commit("v1"), Err(DbError::NoSuchTable));
}

#[test]
fn large_ids_are_refused() {
    let mut db = seeded();
    assert_eq!(db.get_inode(u64::MAX).unwrap_err(), DbError::ParameterOutOfRange);
    assert_eq!(db.get_block(1 << 63, 0).unwrap_err(), DbError::ParameterOutOfRange);
    assert_eq!(db.get_directory_children(u64::MAX).unwrap_err(), DbError::ParameterOutOfRange);
    assert_eq!(
        db.insert_inode(&inode(3, "active", 1, "big", "file", u64::MAX)),
        Err(DbError::ParameterOutOfRange)
    );
    assert_eq!(db.inode_rows().len(), 2);
}

#[test]
fn duplicate_keys_are_refused() {
    let mut db = seeded();
    let base = Layer {
        layer_id: "base".to_string(),
        parent_layer_id: None,
        priority: 7,
        is_readonly: true,
        created_at: "t".to_string(),
    };
    assert_eq!(db.insert_layer(&base), Err(DbError::ConstraintViolation));
    let block = Block { inode_id: 2, layer_id: "base".to_string(), block_index: 0, data: vec![1] };
    assert_eq!(db.insert_block(&block), Err(DbError::ConstraintViolation));
    db.upsert_block(&block).unwrap();
    assert_eq!(db.get_block(2, 0).unwrap().data, vec![1]);
    assert_eq!(db.block_rows().len(), 1);
}

#[test]
fn insert_inode_replaces_same_key() {
    let mut db = seeded();
    db.insert_inode(&inode(2, "base", 1, "renamed.txt", "file", 5)).unwrap();
    assert_eq!(db.inode_rows().len(), 2);
    assert_eq!(db.get_inode(2).unwrap().name, "renamed.txt");
}

#[test]
fn next_inode_id_follows_largest() {
    let mut db = seeded();
    assert_eq!(db.get_next_inode_id(), Ok(3));
    db.insert_inode(&inode(40, "active", 1, "far", "file", 0)).unwrap();
    assert_eq!(db.get_next_inode_id(), Ok(41));
    let mut empty = LayeredDb::new();
    empty.init_schema().unwrap();
    assert_eq!(empty.get_next_inode_id(), Ok(1));
    db.insert_inode(&inode(i64::MAX as u64, "active", 1, "last", "file", 0)).unwrap();
    assert_eq!(db.get_next_inode_id(), Err(DbError::ResultOutOfRange));
}

#[test]
fn higher_layer_shadows_lower() {
    let mut db = seeded();
    db.insert_inode(&inode(2, "active", 1, "hello.txt", "file", 99)).unwrap();
    let top = db.get_inode(2).unwrap();
    assert_eq!(top.layer_id, "active");
    assert_eq!(top.size, 99);
    assert_eq!(db.get_inode_by_name(1, "hello.txt").unwrap().size, 99);
}

#[test]
fn rows_of_unknown_layers_are_invisible() {
    let mut db = seeded();
    db.insert_inode(&inode(9, "nowhere", 1, "ghost", "file", 0)).unwrap();
    assert_eq!(db.get_inode(9).unwrap_err(), DbError::QueryReturnedNoRows);
}

#[test]
fn tombstone_hides_lower_versions() {
    let mut db = seeded();
    db.insert_inode(&inode(2, "active", 1, "hello.txt", "tombstone", 0)).unwrap();
    assert_eq!(db.get_inode(2).unwrap_err(), DbError::QueryReturnedNoRows);
    assert_eq!(db.get_inode_by_name(1, "hello.txt").unwrap_err(), DbError::QueryReturnedNoRows);
    assert_eq!(db.get_directory_children(1).unwrap().len(), 0);
}

#[test]
fn directory_children_are_sorted_and_unique() {
    let mut db = seeded();
    db.insert_inode(&inode(5, "active", 1, "zeta", "file", 0)).unwrap();
    db.insert_inode(&inode(6, "active", 1, "alpha", "dir", 0)).unwrap();
    db.insert_inode(&inode(7, "base", 1, "alpha", "file", 0)).unwrap();
    db.insert_inode(&inode(8, "active", 6, "inner", "file", 0)).unwrap();
    let children = db.get_directory_children(1).unwrap();
    let names: Vec<&str> = children.iter().map(|c| c.name.as_str()).collect();
    assert_eq!(names, vec!["alpha", "hello.txt", "zeta"]);
    assert_eq!(children[0].inode_id, 6);
    let inner = db.get_directory_children(6).unwrap();
    assert_eq!(inner.len(), 1);
    assert_eq!(inner[0].name, "inner");
}

#[test]
fn copy_on_write_copies_into_active() {
    let mut db = seeded();
    let copy = db.copy_on_write(2).unwrap();
    assert_eq!(copy.layer_id, "active");
    assert_eq!(copy.name, "hello.txt");
    assert_eq!(db.get_inode(2).unwrap().layer_id, "active");
    assert_eq!(db.inode_rows().len(), 3);
    assert_eq!(db.block_rows().len(), 2);
    let base_rows: Vec<&Inode> = db.inode_rows().iter().filter(|i| i.layer_id == "base").collect();
    assert_eq!(base_rows.len(), 2);
    let active_block = db.get_block(2, 0).unwrap();
    assert_eq!(active_block.layer_id, "active");
    assert_eq!(active_block.data, b"Hello from SQLite!\n".to_vec());
    let again = db.copy_on_write(2).unwrap();
    assert_eq!(again.layer_id, "active");
    assert_eq!(db.inode_rows().len(), 3);
}

#[test]
fn copy_on_write_at_stamps_time() {
    let mut db = seeded();
    let copy = db.copy_on_write_at(2, "now".to_string()).unwrap();
    assert_eq!(copy.mtime, "now");
    assert_eq!(db.copy_on_write_at(77, "now".to_string()).unwrap_err(), DbError::QueryReturnedNoRows);
}

#[test]
fn copy_on_write_conflicting_block_fails() {
    let mut db = seeded();
    let block = Block { inode_id: 2, layer_id: "active".to_string(), block_index: 0, data: vec![7] };
    db.insert_block(&block).unwrap();
    assert_eq!(db.copy_on_write(2).unwrap_err(), DbError::ConstraintViolation);
}

#[test]
fn update_inode_sets_size_mode_and_time() {
    let mut db = seeded();
    let mut i = inode(2, "base", 0, "ignored", "ignored", 3);
    i.permissions = 0o600;
    i.mtime = "later".to_string();
    db.update_inode(&i).unwrap();
    let got = db.get_inode(2).unwrap();
    assert_eq!(got.size, 3);
    assert_eq!(got.permissions, 0o600);
    assert_eq!(got.mtime, "later");
    assert_eq!(got.name, "hello.txt");
    db.update_inode(&inode(50, "base", 0, "", "", 1)).unwrap();
    assert_eq!(db.inode_rows().len(), 2);
}

#[test]
fn commit_freezes_active_layer() {
    let mut db = seeded();
    db.fs_write(2, 0, b"Jello").unwrap();
    db.commit("v1").unwrap();
    let layers = db.layer_rows();
    assert_eq!(layers.len(), 3);
    assert_eq!(layers[1].layer_id, "v1");
    assert!(layers[1].is_readonly);
    assert_eq!(layers[2].layer_id, "active");
    assert_eq!(layers[2].priority, 2);
    assert_eq!(layers[2].parent_layer_id, Some("v1".to_string()));
    let hello = db.get_inode(2).unwrap();
    assert_eq!(hello.layer_id, "v1");
    let block = db.get_block(2, 0).unwrap();
    assert_eq!(block.layer_id, "v1");
    assert_eq!(block.data, b"Jello from SQLite!\n".to_vec());
}

#[test]
fn commit_at_stamps_new_layer() {
    let mut db = seeded();
    db.commit_at("v1", "stamp".to_string()).unwrap();
    assert_eq!(db.layer_rows()[2].created_at, "stamp");
}

#[test]
fn commit_errors() {
    let mut db = seeded();
    assert_eq!(db.commit("base"), Err(DbError::ConstraintViolation));
    assert_eq!(db.layer_rows()[1].layer_id, "active");
    assert_eq!(db.commit("active"), Err(DbError::ConstraintViolation));
    let mut bare = LayeredDb::new();
    bare.init_schema().unwrap();
    assert_eq!(bare.commit("v1"), Err(DbError::QueryReturnedNoRows));
}

#[test]
fn revert_discards_uncommitted_changes() {
    let mut db = seeded();
    db.fs_write(2, 0, b"XXXXX").unwrap();
    db.fs_mknod(1, "new.txt", 0o644).unwrap();
    db.revert().unwrap();
    assert_eq!(db.get_block(2, 0).unwrap().data, b"Hello from SQLite!\n".to_vec());
    assert_eq!(db.get_inode_by_name(1, "new.txt").unwrap_err(), DbError::QueryReturnedNoRows);
    assert_eq!(db.get_inode(2).unwrap().layer_id, "base");
    assert_eq!(db.layer_rows().len(), 2);
}

#[test]
fn checkout_limits_block_reads() {
    let mut db = seeded();
    db.fs_write(2, 0, b"Jello").unwrap();
    db.checkout("base").unwrap();
    assert_eq!(db.head_priority, Some(0));
    assert_eq!(db.get_block(2, 0).unwrap().data, b"Hello from SQLite!\n".to_vec());
    db.checkout("latest").unwrap();
    assert_eq!(db.head_priority, None);
    assert_eq!(db.get_block(2, 0).unwrap().data, b"Jello from SQLite!\n".to_vec());
    assert_eq!(db.checkout("nope"), Err(DbError::QueryReturnedNoRows));
}

#[test]
fn layer_priority_lookup() {
    let db = seeded();
    assert_eq!(db.get_layer_priority("active"), Ok(1));
    assert_eq!(db.get_layer_priority("base"), Ok(0));
    assert_eq!(db.get_layer_priority("v9"), Err(DbError::QueryReturnedNoRows));
}

#[test]
fn from_tables_checks_keys() {
    let l = |id: &str, p: i32| Layer {
        layer_id: id.to_string(),
        parent_layer_id: None,
        priority: p,
        is_readonly: false,
        created_at: String::new(),
    };
    assert!(LayeredDb::from_tables(true, vec![l("a", 0), l("a", 1)], vec![], vec![]).is_none());
    assert!(LayeredDb::from_tables(false, vec![l("a", 0)], vec![], vec![]).is_none());
    assert!(LayeredDb::from_tables(
        true,
        vec![l("a", 0)],
        vec![inode(1, "a", 1, "", "dir", 0), inode(1, "a", 1, "x", "dir", 0)],
        vec![]
    )
    .is_none());
    assert!(LayeredDb::from_tables(true, vec![], vec![inode(1, "a", 1, "", "dir", u64::MAX)], vec![]).is_none());
    let db = LayeredDb::from_tables(true, vec![l("a", 0)], vec![inode(1, "a", 1, "", "dir", 0)], vec![]).unwrap();
    assert_eq!(db.get_inode(1).unwrap().file_type, "dir");
}

#[test]
fn delete_active_blocks_only_touches_active() {
    let mut db = seeded();
    db.fs_write(2, 0, b"abc").unwrap();
    assert_eq!(db.block_rows().len(), 2);
    db.delete_active_blocks(2).unwrap();
    assert_eq!(db.block_rows().len(), 1);
    assert_eq!(db.block_rows()[0].layer_id, "base");
}

#[test]
fn checkout_hides_later_entries() {
    let mut db = seeded();
    db.commit("v1").unwrap();
    let f = db.fs_mknod(1, "later.txt", 0o644).unwrap();
    db.fs_setattr(2, Some(0o600), None, false).unwrap();
    db.checkout("v1").unwrap();
    assert_eq!(db.get_inode(f.inode_id).unwrap_err(), DbError::QueryReturnedNoRows);
    assert_eq!(db.get_inode(2).unwrap().permissions, 0o644);
    let names: Vec<String> = db.get_directory_children(1).unwrap().iter().map(|c| c.name.clone()).collect();
    assert_eq!(names, vec!["hello.txt".to_string()]);
    db.checkout("latest").unwrap();
    assert_eq!(db.get_inode(f.inode_id).unwrap().name, "later.txt");
    assert_eq!(db.get_inode(2).unwrap().permissions, 0o600);
}

#[test]
fn reset_in_one_step_restores_factory_state() {
    let mut db = seeded();
    db.fs_mknod(1, "extra.txt", 0o644).unwrap();
    db.commit("v1").unwrap();
    db.reset().unwrap();
    assert!(db.has_schema());
    let layers: Vec<&str> = db.layer_rows().iter().map(|l| l.layer_id.as_str()).collect();
    assert_eq!(layers, vec!["base", "active"]);
    assert_eq!(db.inode_rows().len(), 2);
    assert_eq!(db.block_rows().len(), 1);
    assert_eq!(db.get_inode_by_name(1, "hello.txt").unwrap().inode_id, 2);
    assert_eq!(db.get_inode_by_name(1, "extra.txt").unwrap_err(), DbError::QueryReturnedNoRows);
    assert_eq!(db.get_layer_priority("v1").unwrap_err(), DbError::QueryReturnedNoRows);
}

#[test]
fn equal_priority_rows_resolve_to_the_latest() {
    let mut db = seeded();
    db.insert_inode(&inode(2, "active", 1, "hello.txt", "tombstone", 0)).unwrap();
    db.insert_inode(&inode(5, "active", 1, "hello.txt", "file", 7)).unwrap();
    let found = db.get_inode_by_name(1, "hello.txt").unwrap();
    assert_eq!(found.inode_id, 5);
    assert_eq!(found.size, 7);
}
