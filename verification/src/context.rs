//! Operations on a store opened against one resolved tree root.
//!
//! The host process resolves its working directory once (through
//! [`crate::resolve::find_root_for_path`]) and then works through an
//! [`AppContext`] pairing the store with that root's id.

use crate::database::{Database, ScriptInfo, StoreError};
use crate::model::{
    add_file_model, find_binding, get_file_model, get_script_model, infos_of, rename_script_model,
};
use vstd::prelude::*;

verus! {

/// A store together with the tree id the current working directory
/// resolved to.
pub struct AppContext {
    pub db: Database,
    pub root_id: u64,
}

impl AppContext {
    /// The context is usable: its store satisfies the store invariant.
    pub open spec fn wf(self) -> bool {
        self.db.wf()
    }
}

/// The bytes of script `name` in the context's tree, for the caller to
/// check out into a file of that name.
pub fn checkout(name: &str, ctx: &AppContext) -> (r: Result<Vec<u8>, StoreError>)
    requires
        ctx.wf(),
    ensures
        match r {
            Ok(bytes) => get_script_model(ctx.db@, ctx.root_id, name@) == Some(bytes@),
            Err(e) => e == StoreError::NotFound && get_script_model(ctx.db@, ctx.root_id, name@)
                is None,
        },
{
    ctx.db.get_script_by_name(ctx.root_id, name)
}

/// The bytes of `name` in the context's tree, read as a script first and
/// as a file second, for the caller to write to its output.
pub fn cat(name: &str, ctx: &AppContext) -> (r: Result<Vec<u8>, StoreError>)
    requires
        ctx.wf(),
    ensures
        match r {
            Ok(bytes) => get_script_model(ctx.db@, ctx.root_id, name@) == Some(bytes@) || (
            get_script_model(ctx.db@, ctx.root_id, name@) is None && get_file_model(
                ctx.db@,
                ctx.root_id,
                name@,
            ) == Some(bytes@)),
            Err(e) => e == StoreError::NotFound && get_script_model(ctx.db@, ctx.root_id, name@)
                is None && get_file_model(ctx.db@, ctx.root_id, name@) is None,
        },
{
    match ctx.db.get_script_by_name(ctx.root_id, name) {
        Ok(bytes) => Ok(bytes),
        Err(_) => ctx.db.get_file_by_name(ctx.root_id, name),
    }
}

/// Rename script `old_name` of the context's tree to `new_name`; see
/// [`Database::rename_script`] for the exact outcome.
pub fn rename_script(old_name: &str, new_name: &str, ctx: &mut AppContext) -> (r: Result<
    (),
    StoreError,
>)
    requires
        old(ctx).wf(),
    ensures
        final(ctx).wf(),
        final(ctx).root_id == old(ctx).root_id,
        match r {
            Ok(_) => {
                ||| (find_binding(old(ctx).db@.scripts, old(ctx).root_id, old_name@) is None
                    && final(ctx).db@ == old(ctx).db@)
                ||| (find_binding(old(ctx).db@.scripts, old(ctx).root_id, old_name@) is Some && (
                find_binding(old(ctx).db@.scripts, old(ctx).root_id, new_name@) is None
                    || new_name@ == old_name@) && final(ctx).db@ == rename_script_model(
                    old(ctx).db@,
                    old(ctx).root_id,
                    old_name@,
                    new_name@,
                ))
            },
            Err(e) => e == StoreError::DuplicateName && final(ctx).db@ == old(ctx).db@,
        },
{
    ctx.db.rename_script(ctx.root_id, old_name, new_name)
}

/// The scripts of the context's tree, for the caller to display.
pub fn list_scripts(ctx: &AppContext) -> (v: Vec<ScriptInfo>)
    ensures
        v.deep_view() == infos_of(ctx.db@.scripts, ctx.root_id),
{
    list_scripts_for_tree(ctx, ctx.root_id)
}

/// The scripts of tree `id`, for the caller to display.
pub fn list_scripts_for_tree(ctx: &AppContext, id: u64) -> (v: Vec<ScriptInfo>)
    ensures
        v.deep_view() == infos_of(ctx.db@.scripts, id),
{
    ctx.db.scripts_for_tree(id)
}

/// The files of the context's tree, for the caller to display.
pub fn list_files(ctx: &AppContext) -> (v: Vec<ScriptInfo>)
    ensures
        v.deep_view() == infos_of(ctx.db@.files, ctx.root_id),
{
    ctx.db.files_for_tree(ctx.root_id)
}

/// Save `bytes` as file `path` of the context's tree; see
/// [`Database::add_file`] for the exact outcome.
pub fn add_file(ctx: &mut AppContext, path: &str, bytes: Vec<u8>) -> (r: Result<(), StoreError>)
    requires
        old(ctx).wf(),
        old(ctx).db@.blobs.len() < u64::MAX,
    ensures
        final(ctx).wf(),
        final(ctx).root_id == old(ctx).root_id,
        match r {
            Ok(_) => find_binding(old(ctx).db@.files, old(ctx).root_id, path@) is None
                && final(ctx).db@ == add_file_model(old(ctx).db@, old(ctx).root_id, path@, bytes@),
            Err(e) => e == StoreError::DuplicateName && find_binding(
                old(ctx).db@.files,
                old(ctx).root_id,
                path@,
            ) is Some && final(ctx).db@ == old(ctx).db@,
        },
{
    ctx.db.add_file(ctx.root_id, path, bytes)
}

/// The bytes of file `path` of the context's tree, for the caller to
/// restore into the working tree.
pub fn get_file(ctx: &AppContext, path: &str) -> (r: Result<Vec<u8>, StoreError>)
    requires
        ctx.wf(),
    ensures
        match r {
            Ok(bytes) => get_file_model(ctx.db@, ctx.root_id, path@) == Some(bytes@),
            Err(e) => e == StoreError::NotFound && get_file_model(ctx.db@, ctx.root_id, path@)
                is None,
        },
{
    ctx.db.get_file_by_name(ctx.root_id, path)
}

} // verus!
