//! Blob storage and name bindings.

use otkeep::database::{Database, NoSuchScriptForCurrentTree, StoreError};

#[test]
fn put_deduplicates_identical_bytes() {
    let mut db = Database::new();
    let id1 = db.put(b"hello".to_vec());
    let id2 = db.put(b"hello".to_vec());
    assert_eq!(id1, id2);
    assert_eq!(db.blobs_table_len(), 1);
    let id3 = db.put(b"world".to_vec());
    assert_ne!(id1, id3);
    assert_eq!(db.blobs_table_len(), 2);
    let id4 = db.put(b"world".to_vec());
    assert_eq!(id3, id4);
    assert_eq!(db.blobs_table_len(), 2);
}

#[test]
fn fetch_blob_roundtrips() {
    let mut db = Database::new();
    let id = db.put(b"content".to_vec());
    assert_eq!(db.fetch_blob(id).unwrap(), b"content".to_vec());
}

#[test]
fn fetch_blob_unknown_id_is_not_found() {
    let db = Database::new();
    assert_eq!(db.fetch_blob(1), Err(StoreError::NotFound));
    assert_eq!(db.fetch_blob(0), Err(StoreError::NotFound));
}

#[test]
fn overwrite_replaces_content_in_place() {
    let mut db = Database::new();
    let id = db.put(b"old".to_vec());
    db.overwrite(id, b"new".to_vec()).unwrap();
    assert_eq!(db.fetch_blob(id).unwrap(), b"new".to_vec());
    assert_eq!(db.blobs_table_len(), 1);
}

#[test]
fn overwrite_unknown_id_is_not_found() {
    let mut db = Database::new();
    assert_eq!(db.overwrite(7, b"x".to_vec()), Err(StoreError::NotFound));
}

#[test]
fn nullify_blob_tombstones_but_keeps_the_id() {
    let mut db = Database::new();
    let id = db.put(b"doomed".to_vec());
    assert_eq!(db.blob_is_null(id), Ok(false));
    db.nullify_blob(id).unwrap();
    assert_eq!(db.blob_is_null(id), Ok(true));
    assert_eq!(db.fetch_blob(id), Err(StoreError::NotFound));
    assert_eq!(db.blobs_table_len(), 1);
}

#[test]
fn blob_is_null_unknown_id_is_not_found() {
    let db = Database::new();
    assert_eq!(db.blob_is_null(3), Err(StoreError::NotFound));
}

#[test]
fn add_then_get_roundtrips_exact_bytes() {
    let mut db = Database::new();
    db.add_script(1, "build", b"#!/bin/sh\necho hi".to_vec()).unwrap();
    assert_eq!(
        db.get_script_by_name(1, "build").unwrap(),
        b"#!/bin/sh\necho hi".to_vec()
    );
}

#[test]
fn add_duplicate_name_is_rejected() {
    let mut db = Database::new();
    db.add_script(1, "build", b"a".to_vec()).unwrap();
    assert_eq!(
        db.add_script(1, "build", b"b".to_vec()),
        Err(StoreError::DuplicateName)
    );
    // The same name in another tree is fine.
    db.add_script(2, "build", b"c".to_vec()).unwrap();
}

#[test]
fn update_rewrites_every_binding_sharing_the_blob() {
    let mut db = Database::new();
    // Identical bytes deduplicate to one blob shared by three bindings,
    // across trees.
    db.add_script(1, "a", b"same".to_vec()).unwrap();
    db.add_script(1, "b", b"same".to_vec()).unwrap();
    db.add_script(2, "c", b"same".to_vec()).unwrap();
    db.update_script(1, "a", b"changed".to_vec()).unwrap();
    assert_eq!(db.get_script_by_name(1, "b").unwrap(), b"changed".to_vec());
    assert_eq!(db.get_script_by_name(2, "c").unwrap(), b"changed".to_vec());
}

#[test]
fn update_missing_script_is_not_found() {
    let mut db = Database::new();
    assert_eq!(
        db.update_script(1, "ghost", b"x".to_vec()),
        Err(StoreError::NotFound)
    );
}

#[test]
fn remove_script_reports_true_exactly_once() {
    let mut db = Database::new();
    db.add_script(1, "gone", b"x".to_vec()).unwrap();
    assert!(db.remove_script(1, "gone"));
    assert!(!db.remove_script(1, "gone"));
    assert!(!db.remove_script(1, "never"));
}

#[test]
fn removing_a_binding_keeps_the_blob() {
    let mut db = Database::new();
    let _ = db.add_script(1, "s", b"kept".to_vec());
    assert!(db.remove_script(1, "s"));
    assert_eq!(db.fetch_blob(1).unwrap(), b"kept".to_vec());
}

#[test]
fn descriptions_appear_in_listings() {
    let mut db = Database::new();
    db.add_script(1, "one", b"1".to_vec()).unwrap();
    db.add_script(1, "two", b"2".to_vec()).unwrap();
    db.add_script(2, "other", b"3".to_vec()).unwrap();
    db.add_script_description(1, "two", "the second");
    let infos = db.scripts_for_tree(1);
    assert_eq!(infos.len(), 2);
    assert_eq!(infos[0].name, "one");
    assert_eq!(infos[0].description, "");
    assert_eq!(infos[1].name, "two");
    assert_eq!(infos[1].description, "the second");
}

#[test]
fn description_for_absent_name_changes_nothing() {
    let mut db = Database::new();
    db.add_script(1, "one", b"1".to_vec()).unwrap();
    db.add_script_description(1, "missing", "nope");
    let infos = db.scripts_for_tree(1);
    assert_eq!(infos.len(), 1);
    assert_eq!(infos[0].description, "");
}

#[test]
fn rename_script_is_scoped_to_one_tree() {
    let mut db = Database::new();
    db.add_script(1, "old", b"first".to_vec()).unwrap();
    db.add_script(2, "old", b"second".to_vec()).unwrap();
    db.rename_script(1, "old", "new").unwrap();
    assert_eq!(db.get_script_by_name(1, "new").unwrap(), b"first".to_vec());
    assert_eq!(db.get_script_by_name(1, "old"), Err(StoreError::NotFound));
    // The other tree's binding of the old name is untouched.
    assert_eq!(db.get_script_by_name(2, "old").unwrap(), b"second".to_vec());
}

#[test]
fn rename_script_collision_is_rejected() {
    let mut db = Database::new();
    db.add_script(1, "a", b"1".to_vec()).unwrap();
    db.add_script(1, "b", b"2".to_vec()).unwrap();
    assert_eq!(db.rename_script(1, "a", "b"), Err(StoreError::DuplicateName));
    assert_eq!(db.get_script_by_name(1, "a").unwrap(), b"1".to_vec());
}

#[test]
fn rename_script_to_same_name_and_missing_name_are_no_ops() {
    let mut db = Database::new();
    db.add_script(1, "a", b"1".to_vec()).unwrap();
    db.rename_script(1, "a", "a").unwrap();
    assert_eq!(db.get_script_by_name(1, "a").unwrap(), b"1".to_vec());
    db.rename_script(1, "ghost", "b").unwrap();
    assert_eq!(db.get_script_by_name(1, "b"), Err(StoreError::NotFound));
}

#[test]
fn files_are_a_namespace_of_their_own() {
    let mut db = Database::new();
    db.add_script(1, "thing", b"script".to_vec()).unwrap();
    db.add_file(1, "thing", b"file".to_vec()).unwrap();
    assert_eq!(db.get_script_by_name(1, "thing").unwrap(), b"script".to_vec());
    assert_eq!(db.get_file_by_name(1, "thing").unwrap(), b"file".to_vec());
    assert_eq!(
        db.add_file(1, "thing", b"again".to_vec()),
        Err(StoreError::DuplicateName)
    );
    let files = db.files_for_tree(1);
    assert_eq!(files.len(), 1);
    assert_eq!(files[0].name, "thing");
}

#[test]
fn get_file_missing_is_not_found() {
    let db = Database::new();
    assert_eq!(db.get_file_by_name(1, "none"), Err(StoreError::NotFound));
}

#[test]
fn no_such_script_has_its_own_message() {
    assert_eq!(
        NoSuchScriptForCurrentTree.message(),
        "No such script found for current tree"
    );
}
