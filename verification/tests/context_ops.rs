//! Operations through a resolved-root context.

use otkeep::context::{add_file, cat, checkout, get_file, list_files, list_scripts, rename_script, AppContext};
use otkeep::database::{Database, StoreError};

fn context_with_two_trees() -> AppContext {
    let mut db = Database::new();
    let root_id = db.add_new_tree(&b"/work".to_vec()).unwrap();
    let other = db.add_new_tree(&b"/elsewhere".to_vec()).unwrap();
    db.add_script(root_id, "deploy", b"scp it".to_vec()).unwrap();
    db.add_file(root_id, ".env", b"KEY=value".to_vec()).unwrap();
    db.add_script(other, "deploy", b"other deploy".to_vec()).unwrap();
    AppContext { db, root_id }
}

#[test]
fn checkout_hands_back_the_script_bytes() {
    let ctx = context_with_two_trees();
    assert_eq!(checkout("deploy", &ctx).unwrap(), b"scp it".to_vec());
    assert_eq!(checkout("missing", &ctx), Err(StoreError::NotFound));
}

#[test]
fn cat_prefers_scripts_and_falls_back_to_files() {
    let ctx = context_with_two_trees();
    assert_eq!(cat("deploy", &ctx).unwrap(), b"scp it".to_vec());
    assert_eq!(cat(".env", &ctx).unwrap(), b"KEY=value".to_vec());
    assert_eq!(cat("neither", &ctx), Err(StoreError::NotFound));
}

#[test]
fn listings_are_scoped_to_the_context_root() {
    let ctx = context_with_two_trees();
    let scripts = list_scripts(&ctx);
    assert_eq!(scripts.len(), 1);
    assert_eq!(scripts[0].name, "deploy");
    let files = list_files(&ctx);
    assert_eq!(files.len(), 1);
    assert_eq!(files[0].name, ".env");
}

#[test]
fn rename_through_the_context_touches_only_its_tree() {
    let mut ctx = context_with_two_trees();
    rename_script("deploy", "ship", &mut ctx).unwrap();
    assert_eq!(checkout("ship", &ctx).unwrap(), b"scp it".to_vec());
    assert_eq!(checkout("deploy", &ctx), Err(StoreError::NotFound));
    let other = ctx.db.query_tree(&b"/elsewhere".to_vec()).unwrap();
    assert_eq!(
        ctx.db.get_script_by_name(other, "deploy").unwrap(),
        b"other deploy".to_vec()
    );
}

#[test]
fn files_save_and_restore_through_the_context() {
    let mut ctx = context_with_two_trees();
    add_file(&mut ctx, "notes.txt", b"remember".to_vec()).unwrap();
    assert_eq!(get_file(&ctx, "notes.txt").unwrap(), b"remember".to_vec());
    assert_eq!(
        add_file(&mut ctx, "notes.txt", b"again".to_vec()),
        Err(StoreError::DuplicateName)
    );
    assert_eq!(get_file(&ctx, "absent"), Err(StoreError::NotFound));
}
