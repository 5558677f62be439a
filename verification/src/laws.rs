//! The laws the store obeys, stated over the model and proved once and
//! for all. Each holds for every well-formed store, that is for every
//! state the operations in [`crate::database`] can produce.

use crate::model::{
    add_script_model, blob_content, blob_id_valid, blob_referenced, find_binding, find_blob,
    get_script_model, lemma_add_script_model, lemma_find_binding_from_props, lemma_put_model,
    lemma_put_model_twice, lemma_remove_script_model, lemma_update_script_model,
    prune_blob_model, put_model, remove_script_model, store_wf, tree_id_at, update_script_model,
    StoreModel,
};
use crate::resolve::{
    is_ancestor_of, lemma_parent_of_shorter, parent_of, resolve_model,
};
use vstd::prelude::*;

verus! {

/// Storing the same bytes twice yields the same blob id, and the second
/// call changes nothing at all: the blob count rises by exactly one per
/// distinct content, and not on a repeat.
pub proof fn law_put_deduplicates(m: StoreModel, bytes: Seq<u8>)
    requires
        store_wf(m),
        m.blobs.len() < u64::MAX,
    ensures
        ({
            let (m1, id1) = put_model(m, bytes);
            let (m2, id2) = put_model(m1, bytes);
            &&& id2 == id1
            &&& m2 == m1
            &&& m1.blobs.len() == if find_blob(m.blobs, bytes) is Some {
                m.blobs.len() as int
            } else {
                m.blobs.len() + 1int
            }
        }),
{
    lemma_put_model(m, bytes);
    lemma_put_model_twice(m, bytes);
}

/// Adding a script under a fresh `(tree, name)` and reading it back
/// yields exactly the bytes that were added.
pub proof fn law_add_then_get(m: StoreModel, tree_id: u64, name: Seq<char>, body: Seq<u8>)
    requires
        store_wf(m),
        m.blobs.len() < u64::MAX,
        find_binding(m.scripts, tree_id, name) is None,
    ensures
        get_script_model(add_script_model(m, tree_id, name, body), tree_id, name) == Some(body),
{
    lemma_add_script_model(m, tree_id, name, body);
}

/// Updating a script overwrites its blob in place, so *every* binding
/// sharing that blob id — in this tree or any other — reads the new bytes
/// afterwards. This is the documented shared-mutation semantics of
/// update.
pub proof fn law_update_rewrites_shared_blob(
    m: StoreModel,
    tree_id: u64,
    name: Seq<char>,
    other_tree: u64,
    other_name: Seq<char>,
    body: Seq<u8>,
)
    requires
        store_wf(m),
        find_binding(m.scripts, tree_id, name) is Some,
        find_binding(m.scripts, other_tree, other_name) is Some,
        m.scripts[find_binding(m.scripts, other_tree, other_name)->Some_0].blob_id == m.scripts[
            find_binding(m.scripts, tree_id, name)->Some_0
        ].blob_id,
    ensures
        get_script_model(update_script_model(m, tree_id, name, body), other_tree, other_name)
            == Some(body),
{
    lemma_update_script_model(m, tree_id, name, body);
    lemma_find_binding_from_props(m.scripts, tree_id, name, 0);
    lemma_find_binding_from_props(m.scripts, other_tree, other_name, 0);
    let i = find_binding(m.scripts, tree_id, name)->Some_0;
    let j = find_binding(m.scripts, other_tree, other_name)->Some_0;
    let m1 = update_script_model(m, tree_id, name, body);
    assert(find_binding(m1.scripts, other_tree, other_name) == Some(j));
    assert(blob_content(m1, m.scripts[j].blob_id) == Some(body));
}

/// Removing a binding reports `true` exactly once: the first removal
/// reports whether the binding existed, and a second removal of the same
/// pair reports `false` and changes nothing.
pub proof fn law_remove_reports_once(m: StoreModel, tree_id: u64, name: Seq<char>)
    requires
        store_wf(m),
    ensures
        ({
            let (m1, first) = remove_script_model(m, tree_id, name);
            let (m2, second) = remove_script_model(m1, tree_id, name);
            &&& first == (find_binding(m.scripts, tree_id, name) is Some)
            &&& !second
            &&& m2 == m1
        }),
{
    lemma_remove_script_model(m, tree_id, name);
    let (m1, first) = remove_script_model(m, tree_id, name);
    lemma_remove_script_model(m1, tree_id, name);
}

/// The orphan sweep never tombstones a blob that any script binding
/// references: whatever id it is pointed at, every referenced blob keeps
/// its content, and a referenced id leaves the store untouched. This
/// holds for every well-formed store, so for any combination of bindings
/// added and removed beforehand.
pub proof fn law_prune_spares_referenced(m: StoreModel, id: u64, referenced_id: u64)
    requires
        store_wf(m),
        blob_referenced(m, referenced_id),
        blob_id_valid(m, referenced_id),
    ensures
        ({
            let (m1, pruned) = prune_blob_model(m, id);
            &&& blob_content(m1, referenced_id) == blob_content(m, referenced_id)
            &&& (blob_referenced(m, id) ==> m1 == m && !pruned)
        }),
{
    let (m1, pruned) = prune_blob_model(m, id);
    if pruned {
        assert(!blob_referenced(m, id));
        assert(id != referenced_id);
    }
}

/// An ancestor of a path is never longer than the path.
pub proof fn lemma_ancestor_len(q: Seq<u8>, p: Seq<u8>)
    requires
        is_ancestor_of(q, p),
    ensures
        q.len() <= p.len(),
    decreases p.len(),
{
    if q != p {
        let pp = parent_of(p)->Some_0;
        lemma_ancestor_len(q, pp);
    }
}

/// A proper ancestor of a path is strictly shorter than the path.
pub proof fn lemma_strict_ancestor_len(q: Seq<u8>, p: Seq<u8>)
    requires
        is_ancestor_of(q, p),
        q != p,
    ensures
        q.len() < p.len(),
    decreases p.len(),
{
    let pp = parent_of(p)->Some_0;
    lemma_ancestor_len(q, pp);
}

/// Resolution finds the nearest registered ancestor: when it returns a
/// root, that root is an ancestor of the path (the path itself included),
/// it is registered under the returned id, and every strictly nearer
/// ancestor is unregistered. When it returns nothing, no ancestor up to
/// the filesystem root is registered.
pub proof fn law_resolve_nearest_ancestor(m: StoreModel, path: Seq<u8>)
    ensures
        match resolve_model(m, path) {
            Some(found) => {
                &&& is_ancestor_of(found.1, path)
                &&& tree_id_at(m, found.1) == Some(found.0)
                &&& forall|r: Seq<u8>|
                    #![auto]
                    is_ancestor_of(r, path) && is_ancestor_of(found.1, r) && r != found.1
                        ==> tree_id_at(m, r) is None
            },
            None => forall|q: Seq<u8>| #![auto] is_ancestor_of(q, path) ==> tree_id_at(m, q) is None,
        },
    decreases path.len(),
{
    match tree_id_at(m, path) {
        Some(id) => {
            assert forall|r: Seq<u8>| #![auto]
                is_ancestor_of(r, path) && is_ancestor_of(path, r) && r
                    != path implies tree_id_at(m, r) is None by {
                lemma_strict_ancestor_len(r, path);
                lemma_ancestor_len(path, r);
            }
        },
        None => {
            match parent_of(path) {
                Some(pp) => {
                    lemma_parent_of_shorter(path);
                    law_resolve_nearest_ancestor(m, pp);
                    match resolve_model(m, pp) {
                        Some(found) => {
                            assert(is_ancestor_of(found.1, path));
                            assert forall|r: Seq<u8>| #![auto]
                                is_ancestor_of(r, path) && is_ancestor_of(found.1, r) && r
                                    != found.1 implies tree_id_at(m, r) is None by {
                                if r != path {
                                    assert(is_ancestor_of(r, pp));
                                }
                            }
                        },
                        None => {
                            assert forall|q: Seq<u8>| #![auto] is_ancestor_of(
                                q,
                                path,
                            ) implies tree_id_at(m, q) is None by {
                                if q != path {
                                    assert(is_ancestor_of(q, pp));
                                }
                            }
                        },
                    }
                },
                None => {
                    assert forall|q: Seq<u8>| #![auto] is_ancestor_of(q, path) implies tree_id_at(
                        m,
                        q,
                    ) is None by {
                        assert(q == path);
                    }
                },
            }
        },
    }
}

} // verus!
