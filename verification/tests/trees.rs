//! Tree registration, resolution, cascade removal and cloning.

use otkeep::database::{Database, StoreError};
use otkeep::resolve::find_root_for_path;

#[test]
fn register_and_query_by_exact_path() {
    let mut db = Database::new();
    let id = db.add_new_tree(&b"/home/user/project".to_vec()).unwrap();
    assert_eq!(db.query_tree(&b"/home/user/project".to_vec()), Some(id));
    assert_eq!(db.query_tree(&b"/home/user".to_vec()), None);
    assert_eq!(db.query_tree(&b"/home/user/project/sub".to_vec()), None);
}

#[test]
fn register_twice_is_rejected() {
    let mut db = Database::new();
    db.add_new_tree(&b"/a".to_vec()).unwrap();
    assert_eq!(
        db.add_new_tree(&b"/a".to_vec()),
        Err(StoreError::AlreadyRegistered)
    );
}

#[test]
fn fresh_ids_are_distinct() {
    let mut db = Database::new();
    let a = db.add_new_tree(&b"/a".to_vec()).unwrap();
    let b = db.add_new_tree(&b"/b".to_vec()).unwrap();
    assert_ne!(a, b);
}

#[test]
fn resolve_finds_the_nearest_registered_ancestor() {
    let mut db = Database::new();
    let outer = db.add_new_tree(&b"/a".to_vec()).unwrap();
    let inner = db.add_new_tree(&b"/a/b/c".to_vec()).unwrap();
    let (id, root) = find_root_for_path(&db, &b"/a/b/c/d/e".to_vec()).unwrap();
    assert_eq!(id, inner);
    assert_eq!(root, b"/a/b/c".to_vec());
    let (id, root) = find_root_for_path(&db, &b"/a/b".to_vec()).unwrap();
    assert_eq!(id, outer);
    assert_eq!(root, b"/a".to_vec());
    let (id, root) = find_root_for_path(&db, &b"/a".to_vec()).unwrap();
    assert_eq!(id, outer);
    assert_eq!(root, b"/a".to_vec());
}

#[test]
fn resolve_returns_none_when_no_ancestor_is_registered() {
    let mut db = Database::new();
    db.add_new_tree(&b"/somewhere/else".to_vec()).unwrap();
    assert!(find_root_for_path(&db, &b"/elsewhere/deep/dir".to_vec()).is_none());
    assert!(find_root_for_path(&db, &b"/".to_vec()).is_none());
}

#[test]
fn resolve_reaches_the_filesystem_root() {
    let mut db = Database::new();
    let root_id = db.add_new_tree(&b"/".to_vec()).unwrap();
    let (id, root) = find_root_for_path(&db, &b"/any/dir".to_vec()).unwrap();
    assert_eq!(id, root_id);
    assert_eq!(root, b"/".to_vec());
}

#[test]
fn unregister_cascades_to_both_binding_kinds() {
    let mut db = Database::new();
    let t1 = db.add_new_tree(&b"/one".to_vec()).unwrap();
    let t2 = db.add_new_tree(&b"/two".to_vec()).unwrap();
    db.add_script(t1, "s", b"1".to_vec()).unwrap();
    db.add_file(t1, "f", b"2".to_vec()).unwrap();
    db.add_script(t2, "s", b"3".to_vec()).unwrap();
    db.remove_tree(t1);
    assert_eq!(db.query_tree(&b"/one".to_vec()), None);
    assert_eq!(db.get_script_by_name(t1, "s"), Err(StoreError::NotFound));
    assert_eq!(db.get_file_by_name(t1, "f"), Err(StoreError::NotFound));
    // The other tree and the blobs survive.
    assert_eq!(db.get_script_by_name(t2, "s").unwrap(), b"3".to_vec());
    assert_eq!(db.fetch_blob(1).unwrap(), b"1".to_vec());
}

#[test]
fn remove_unknown_tree_changes_nothing() {
    let mut db = Database::new();
    let t = db.add_new_tree(&b"/keep".to_vec()).unwrap();
    db.remove_tree(t + 1);
    assert_eq!(db.query_tree(&b"/keep".to_vec()), Some(t));
}

#[test]
fn rename_tree_rekeys_the_stored_path() {
    let mut db = Database::new();
    let id = db.add_new_tree(&b"/old/place".to_vec()).unwrap();
    db.rename_tree(&b"/old/place".to_vec(), &b"/new/place".to_vec()).unwrap();
    assert_eq!(db.query_tree(&b"/old/place".to_vec()), None);
    assert_eq!(db.query_tree(&b"/new/place".to_vec()), Some(id));
}

#[test]
fn rename_tree_onto_a_registered_path_is_rejected() {
    let mut db = Database::new();
    db.add_new_tree(&b"/a".to_vec()).unwrap();
    db.add_new_tree(&b"/b".to_vec()).unwrap();
    assert_eq!(
        db.rename_tree(&b"/a".to_vec(), &b"/b".to_vec()),
        Err(StoreError::AlreadyRegistered)
    );
}

#[test]
fn rename_unknown_tree_changes_nothing() {
    let mut db = Database::new();
    db.add_new_tree(&b"/a".to_vec()).unwrap();
    db.rename_tree(&b"/ghost".to_vec(), &b"/b".to_vec()).unwrap();
    assert_eq!(db.query_tree(&b"/b".to_vec()), None);
}

#[test]
fn get_tree_roots_lists_every_root() {
    let mut db = Database::new();
    let a = db.add_new_tree(&b"/a".to_vec()).unwrap();
    let b = db.add_new_tree(&b"/b".to_vec()).unwrap();
    let roots = db.get_tree_roots();
    assert_eq!(roots.len(), 2);
    assert_eq!(roots[0].id, a);
    assert_eq!(roots[0].path, b"/a".to_vec());
    assert_eq!(roots[1].id, b);
    assert_eq!(roots[1].path, b"/b".to_vec());
}

#[test]
fn clone_tree_copies_bindings_and_shares_blobs() {
    let mut db = Database::new();
    let t1 = db.add_new_tree(&b"/projects/alpha".to_vec()).unwrap();
    let t2 = db.add_new_tree(&b"/projects/beta".to_vec()).unwrap();
    db.add_script(t1, "build", b"make".to_vec()).unwrap();
    db.add_script_description(t1, "build", "builds it");
    db.clone_tree(t1, t2);
    let listed = db.scripts_for_tree(t2);
    assert_eq!(listed.len(), 1);
    assert_eq!(listed[0].name, "build");
    assert_eq!(listed[0].description, "builds it");
    // The clone references the same blob: overwriting through one tree is
    // seen through the other.
    db.update_script(t1, "build", b"make -j".to_vec()).unwrap();
    assert_eq!(db.get_script_by_name(t2, "build").unwrap(), b"make -j".to_vec());
}

#[test]
fn clone_tree_keeps_the_destinations_own_binding_on_collision() {
    let mut db = Database::new();
    let t1 = db.add_new_tree(&b"/projects/alpha".to_vec()).unwrap();
    let t2 = db.add_new_tree(&b"/projects/beta".to_vec()).unwrap();
    db.add_script(t1, "build", b"from-one".to_vec()).unwrap();
    db.add_script(t2, "build", b"from-two".to_vec()).unwrap();
    db.clone_tree(t1, t2);
    assert_eq!(db.get_script_by_name(t2, "build").unwrap(), b"from-two".to_vec());
    assert_eq!(db.scripts_for_tree(t2).len(), 1);
}

#[test]
fn scenario_register_add_resolve_clone() {
    let mut db = Database::new();
    let t1 = db.add_new_tree(&b"/projects/alpha".to_vec()).unwrap();
    db.add_script(t1, "build", b"#!/bin/sh\necho hi".to_vec()).unwrap();
    assert_eq!(
        db.get_script_by_name(t1, "build").unwrap(),
        b"#!/bin/sh\necho hi".to_vec()
    );
    let (id, root) = find_root_for_path(&db, &b"/projects/alpha/sub/dir".to_vec()).unwrap();
    assert_eq!(id, t1);
    assert_eq!(root, b"/projects/alpha".to_vec());
    let t2 = db.add_new_tree(&b"/projects/beta".to_vec()).unwrap();
    db.clone_tree(t1, t2);
    let listed = db.scripts_for_tree(t2);
    assert_eq!(listed.len(), 1);
    assert_eq!(listed[0].name, "build");
    // Same blob id behind both bindings: the referenced-id set has one
    // entry for each binding, both naming blob 1.
    let refs = db.tree_script_blob_ids();
    assert_eq!(refs, vec![1, 1]);
}
