//! Run planning, exit codes, and the prune sweeps.

use otkeep::database::{Database, NoSuchScriptForCurrentTree, StoreError};
use otkeep::run::{exit_code_from_status, full_argv, tree_root_env_var};

#[test]
fn exit_codes_pass_through_and_signals_become_one() {
    assert_eq!(exit_code_from_status(Some(0)), 0);
    assert_eq!(exit_code_from_status(Some(42)), 42);
    assert_eq!(exit_code_from_status(None), 1);
}

#[test]
fn the_tree_root_env_var_has_its_fixed_name() {
    assert_eq!(tree_root_env_var(), "OTKEEP_TREE_ROOT");
}

#[test]
fn run_script_packages_bytes_args_and_root() {
    let mut db = Database::new();
    let t = db.add_new_tree(&b"/proj".to_vec()).unwrap();
    db.add_script(t, "go", b"#!/bin/sh\nexit 0".to_vec()).unwrap();
    let args = vec![b"one".to_vec(), b"two".to_vec()];
    let inv = db.run_script(t, "go", args, b"/proj".to_vec()).unwrap();
    assert_eq!(inv.script, b"#!/bin/sh\nexit 0".to_vec());
    assert_eq!(inv.args, vec![b"one".to_vec(), b"two".to_vec()]);
    assert_eq!(inv.tree_root, b"/proj".to_vec());
}

#[test]
fn full_argv_puts_the_executable_first() {
    let mut db = Database::new();
    let t = db.add_new_tree(&b"/proj".to_vec()).unwrap();
    db.add_script(t, "go", b"x".to_vec()).unwrap();
    let args = vec![b"a".to_vec(), b"b".to_vec()];
    let inv = db.run_script(t, "go", args, b"/proj".to_vec()).unwrap();
    let argv = full_argv(b"/proc/self/fd/3".to_vec(), &inv);
    assert_eq!(
        argv,
        vec![b"/proc/self/fd/3".to_vec(), b"a".to_vec(), b"b".to_vec()]
    );
}

#[test]
fn running_a_missing_script_is_distinguished() {
    let db = Database::new();
    assert_eq!(
        db.run_script(1, "ghost", Vec::new(), Vec::new()),
        Err(StoreError::NoSuchScript(NoSuchScriptForCurrentTree))
    );
}

#[test]
fn running_a_tombstoned_script_is_not_found() {
    let mut db = Database::new();
    db.add_script(1, "gone", b"bytes".to_vec()).unwrap();
    db.nullify_blob(1).unwrap();
    assert_eq!(
        db.run_script(1, "gone", Vec::new(), Vec::new()),
        Err(StoreError::NotFound)
    );
}

#[test]
fn orphan_candidates_are_the_unreferenced_live_blobs() {
    let mut db = Database::new();
    db.add_script(1, "kept", b"referenced".to_vec()).unwrap();
    db.add_file(1, "saved", b"file-only".to_vec()).unwrap();
    db.add_script(1, "dropped", b"waste".to_vec()).unwrap();
    db.remove_script(1, "dropped");
    // Blob 1 is still referenced by a script binding; blobs 2 and 3 are
    // not (file bindings do not count as references for the sweep).
    assert_eq!(db.orphan_candidates(), vec![2, 3]);
}

#[test]
fn prune_blob_refuses_a_referenced_id() {
    let mut db = Database::new();
    db.add_script(1, "kept", b"precious".to_vec()).unwrap();
    assert!(!db.prune_blob(1));
    assert_eq!(db.fetch_blob(1).unwrap(), b"precious".to_vec());
}

#[test]
fn prune_blob_tombstones_an_orphan_once() {
    let mut db = Database::new();
    db.add_script(1, "dropped", b"waste".to_vec()).unwrap();
    db.remove_script(1, "dropped");
    assert!(db.prune_blob(1));
    assert_eq!(db.blob_is_null(1), Ok(true));
    // A second sweep finds nothing to do.
    assert!(!db.prune_blob(1));
    assert_eq!(db.orphan_candidates(), Vec::<u64>::new());
}

#[test]
fn prune_blob_ignores_unknown_ids() {
    let mut db = Database::new();
    assert!(!db.prune_blob(0));
    assert!(!db.prune_blob(5));
}
