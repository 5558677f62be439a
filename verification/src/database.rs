//! The executable store and its operations.
//!
//! [`Database`] keeps the four tables in memory: blob contents, tree roots,
//! script bindings and file bindings. Every operation is specified against
//! the ghost mirror in [`crate::model`]; the host process is responsible for
//! loading a `Database` from durable storage and writing it back.

use crate::model::{
    add_file_model, add_script_model, blob_content, blob_id_valid, clone_rows_upto,
    clone_tree_model, drop_tree_rows_upto, empty_store, find_binding, find_binding_from,
    find_blob, find_blob_from, find_tree, find_tree_from, get_file_model, get_script_model,
    infos_of, infos_upto, lemma_add_file_model, lemma_add_script_model, lemma_clone_rows_upto,
    lemma_clone_tree_model, lemma_find_binding_from_props, lemma_register_tree_model,
    lemma_remove_script_model, lemma_remove_tree_model, lemma_rename_script_model,
    lemma_rename_tree_model, lemma_set_description_model, lemma_update_script_model,
    overwrite_model, nullify_model, put_model, register_tree_model, remove_script_model,
    remove_tree_model, remove_tree_row_upto, rename_script_model, rename_tree_model,
    set_description_model, store_wf, tree_id_at, update_script_model, BindingModel, InfoModel,
    StoreModel, TreeModel,
};
use vstd::prelude::*;

verus! {

/// The distinguished "no such script for the current tree" condition, kept
/// apart from the generic not-found errors so that a caller can offer the
/// list of available scripts instead of a bare failure.
#[derive(Debug, Clone, Copy, PartialEq, Eq, Structural)]
pub struct NoSuchScriptForCurrentTree;

impl NoSuchScriptForCurrentTree {
    /// The condition, described for a human reader.
    pub fn message(&self) -> (s: String)
        ensures
            s@ == "No such script found for current tree"@,
    {
        "No such script found for current tree".to_owned()
    }
}

/// Everything that can go wrong in a store operation. Storage and I/O
/// failures do not appear here: they belong to the host process that loads
/// and persists the store.
#[derive(Debug, Clone, Copy, PartialEq, Eq, Structural)]
pub enum StoreError {
    /// A blob, binding or tree that the call names is absent.
    NotFound,
    /// The path is already registered as a tree root.
    AlreadyRegistered,
    /// The `(tree, name)` pair already has a binding of this kind.
    DuplicateName,
    /// No script with the requested name is bound to the current tree.
    NoSuchScript(NoSuchScriptForCurrentTree),
}

/// A script or file listing entry: the binding's name and its description,
/// the description empty when none was set.
#[derive(Debug)]
pub struct ScriptInfo {
    pub name: String,
    pub description: String,
}

impl View for ScriptInfo {
    type V = InfoModel;

    open spec fn view(&self) -> InfoModel {
        InfoModel { name: self.name@, description: self.description@ }
    }
}

impl DeepView for ScriptInfo {
    type V = InfoModel;

    open spec fn deep_view(&self) -> InfoModel {
        self@
    }
}

/// A registered tree root: its id and the bytes of its absolute path.
#[derive(Debug)]
pub struct TreeRootInfo {
    pub id: u64,
    pub path: Vec<u8>,
}

impl View for TreeRootInfo {
    type V = TreeModel;

    open spec fn view(&self) -> TreeModel {
        TreeModel { id: self.id, path: self.path@ }
    }
}

impl DeepView for TreeRootInfo {
    type V = TreeModel;

    open spec fn deep_view(&self) -> TreeModel {
        self@
    }
}

/// One row of a binding table.
#[derive(Debug)]
pub struct Binding {
    pub tree_id: u64,
    pub name: String,
    pub blob_id: u64,
    pub description: Option<String>,
}

impl View for Binding {
    type V = BindingModel;

    open spec fn view(&self) -> BindingModel {
        BindingModel {
            tree_id: self.tree_id,
            name: self.name@,
            blob_id: self.blob_id,
            description: match self.description {
                Some(d) => Some(d@),
                None => None,
            },
        }
    }
}

impl DeepView for Binding {
    type V = BindingModel;

    open spec fn deep_view(&self) -> BindingModel {
        self@
    }
}

/// The in-memory store: blobs, tree roots, and the two binding tables.
pub struct Database {
    pub blobs: Vec<Option<Vec<u8>>>,
    pub trees: Vec<TreeRootInfo>,
    pub next_tree_id: u64,
    pub scripts: Vec<Binding>,
    pub files: Vec<Binding>,
}

impl View for Database {
    type V = StoreModel;

    open spec fn view(&self) -> StoreModel {
        StoreModel {
            blobs: self.blobs.deep_view(),
            trees: self.trees.deep_view(),
            next_tree_id: self.next_tree_id,
            scripts: self.scripts.deep_view(),
            files: self.files.deep_view(),
        }
    }
}

/// Byte-vector equality, related to the views.
pub(crate) fn bytes_eq(a: &Vec<u8>, b: &Vec<u8>) -> (r: bool)
    ensures
        r == (a@ == b@),
{
    if a.len() != b.len() {
        return false;
    }
    let mut i: usize = 0;
    while i < a.len()
        invariant
            i <= a@.len(),
            a@.len() == b@.len(),
            forall|j: int| 0 <= j < i ==> a@[j] == b@[j],
        decreases a@.len() - i,
    {
        if a[i] != b[i] {
            return false;
        }
        i += 1;
    }
    proof {
        assert(a@ =~= b@);
    }
    true
}

/// An owned copy of a byte vector.
pub(crate) fn clone_bytes(v: &Vec<u8>) -> (r: Vec<u8>)
    ensures
        r@ == v@,
{
    let mut r: Vec<u8> = Vec::new();
    let mut i: usize = 0;
    while i < v.len()
        invariant
            i <= v@.len(),
            r@ == v@.subrange(0, i as int),
        decreases v@.len() - i,
    {
        r.push(v[i]);
        proof {
            assert(r@ =~= v@.subrange(0, i + 1));
        }
        i += 1;
    }
    proof {
        assert(r@ =~= v@);
    }
    r
}

impl Database {
    /// The store invariant; established by [`Database::new`] and preserved
    /// by every operation.
    pub open spec fn wf(self) -> bool {
        store_wf(self@)
    }

    /// A fresh, empty store.
    pub fn new() -> (db: Database)
        ensures
            db@ == empty_store(),
            db.wf(),
    {
        let db = Database {
            blobs: Vec::new(),
            trees: Vec::new(),
            next_tree_id: 1,
            scripts: Vec::new(),
            files: Vec::new(),
        };
        proof {
            assert(db@ =~~= empty_store());
        }
        db
    }

    /// Store `bytes` as a blob and return its id: the id of an existing
    /// blob with identical content when there is one, else the id of a
    /// fresh row. Relied on for deduplication by both `add` operations.
    pub fn put(&mut self, bytes: Vec<u8>) -> (id: u64)
        requires
            old(self).wf(),
            old(self)@.blobs.len() < u64::MAX,
        ensures
            final(self).wf(),
            (final(self)@, id) == put_model(old(self)@, bytes@),
            blob_id_valid(final(self)@, id),
            blob_content(final(self)@, id) == Some(bytes@),
    {
        let ghost m0 = self@;
        let n = self.blobs.len();
        let mut i: usize = 0;
        while i < n
            invariant
                self == old(self),
                n == self.blobs@.len(),
                i <= n,
                find_blob(m0.blobs, bytes@) == find_blob_from(m0.blobs, bytes@, i as int),
                m0 == self@,
                store_wf(m0),
            decreases n - i,
        {
            proof {
                assert(m0.blobs[i as int] == self.blobs[i as int].deep_view());
            }
            match &self.blobs[i] {
                Some(v) => {
                    if bytes_eq(v, &bytes) {
                        proof {
                            assert(m0.blobs[i as int] == Some(bytes@));
                            assert(find_blob_from(m0.blobs, bytes@, i as int) == Some(i as int));
                        }
                        return (i as u64) + 1;
                    }
                    proof {
                        assert(m0.blobs[i as int] == Some(v@));
                        assert(m0.blobs[i as int] != Some(bytes@));
                    }
                },
                None => {
                    proof {
                        assert(m0.blobs[i as int] is None);
                    }
                },
            }
            proof {
                assert(m0.blobs[i as int] != Some(bytes@));
                assert(find_blob_from(m0.blobs, bytes@, i as int) == find_blob_from(
                    m0.blobs,
                    bytes@,
                    i as int + 1,
                ));
            }
            i += 1;
        }
        proof {
            assert(find_blob(m0.blobs, bytes@) is None);
        }
        let ghost pushed = m0.blobs.push(Some(bytes@));
        self.blobs.push(Some(bytes));
        proof {
            assert(self@.blobs =~~= pushed);
            assert(self@ =~~= put_model(m0, bytes@).0);
        }
        self.blobs.len() as u64
    }

    /// The content of blob `id`; `NotFound` when the id was never allocated
    /// or the blob has been tombstoned.
    pub fn fetch_blob(&self, id: u64) -> (r: Result<Vec<u8>, StoreError>)
        ensures
            match r {
                Ok(bytes) => blob_id_valid(self@, id) && blob_content(self@, id) == Some(bytes@),
                Err(e) => e == StoreError::NotFound && (!blob_id_valid(self@, id) || blob_content(
                    self@,
                    id,
                ) is None),
            },
    {
        if id < 1 || id > self.blobs.len() as u64 {
            return Err(StoreError::NotFound);
        }
        let idx: usize = (id - 1) as usize;
        proof {
            assert(self@.blobs[id - 1] == self.blobs[idx as int].deep_view());
        }
        match &self.blobs[idx] {
            Some(v) => Ok(clone_bytes(v)),
            None => Err(StoreError::NotFound),
        }
    }

    /// Whether blob `id` has been tombstoned; `NotFound` when the id was
    /// never allocated.
    pub fn blob_is_null(&self, id: u64) -> (r: Result<bool, StoreError>)
        ensures
            match r {
                Ok(b) => blob_id_valid(self@, id) && b == (blob_content(self@, id) is None),
                Err(e) => e == StoreError::NotFound && !blob_id_valid(self@, id),
            },
    {
        if id < 1 || id > self.blobs.len() as u64 {
            return Err(StoreError::NotFound);
        }
        let idx: usize = (id - 1) as usize;
        proof {
            assert(self@.blobs[id - 1] == self.blobs[idx as int].deep_view());
        }
        match &self.blobs[idx] {
            Some(_) => Ok(false),
            None => Ok(true),
        }
    }

    /// Replace the content of blob `id` in place. The id keeps its meaning:
    /// every binding referencing it now reads the new content. `NotFound`
    /// when the id was never allocated.
    pub fn overwrite(&mut self, id: u64, bytes: Vec<u8>) -> (r: Result<(), StoreError>)
        requires
            old(self).wf(),
        ensures
            final(self).wf(),
            match r {
                Ok(_) => blob_id_valid(old(self)@, id) && final(self)@ == overwrite_model(
                    old(self)@,
                    id,
                    bytes@,
                ),
                Err(e) => e == StoreError::NotFound && !blob_id_valid(old(self)@, id) && final(self)@
                    == old(self)@,
            },
    {
        let ghost m0 = self@;
        if id < 1 || id > self.blobs.len() as u64 {
            return Err(StoreError::NotFound);
        }
        let idx: usize = (id - 1) as usize;
        self.blobs[idx] = Some(bytes);
        proof {
            assert(self@ =~~= overwrite_model(m0, id, bytes@));
        }
        Ok(())
    }

    /// Tombstone blob `id`: its content becomes absent while the id stays
    /// allocated. `NotFound` when the id was never allocated.
    pub fn nullify_blob(&mut self, id: u64) -> (r: Result<(), StoreError>)
        requires
            old(self).wf(),
        ensures
            final(self).wf(),
            match r {
                Ok(_) => blob_id_valid(old(self)@, id) && final(self)@ == nullify_model(
                    old(self)@,
                    id,
                ),
                Err(e) => e == StoreError::NotFound && !blob_id_valid(old(self)@, id) && final(self)@
                    == old(self)@,
            },
    {
        let ghost m0 = self@;
        if id < 1 || id > self.blobs.len() as u64 {
            return Err(StoreError::NotFound);
        }
        let idx: usize = (id - 1) as usize;
        self.blobs[idx] = None;
        proof {
            assert(self@ =~~= nullify_model(m0, id));
        }
        Ok(())
    }

    /// How many blob rows are allocated, tombstoned rows included. Blob ids
    /// run from 1 to this count.
    pub fn blobs_table_len(&self) -> (n: u64)
        ensures
            n == self@.blobs.len(),
    {
        self.blobs.len() as u64
    }
}

/// The index of the first binding row for `(tree_id, name)`.
pub(crate) fn find_binding_index(rows: &Vec<Binding>, tree_id: u64, name: &String) -> (r: Option<usize>)
    ensures
        match r {
            Some(i) => find_binding(rows.deep_view(), tree_id, name@) == Some(i as int) && i
                < rows@.len(),
            None => find_binding(rows.deep_view(), tree_id, name@) is None,
        },
{
    let ghost rs = rows.deep_view();
    let n = rows.len();
    let mut i: usize = 0;
    while i < n
        invariant
            i <= n,
            n == rows@.len(),
            rs == rows.deep_view(),
            find_binding(rs, tree_id, name@) == find_binding_from(rs, tree_id, name@, i as int),
        decreases n - i,
    {
        proof {
            assert(rs[i as int] == rows@[i as int]@);
        }
        let row = &rows[i];
        if row.tree_id == tree_id && row.name == *name {
            proof {
                assert(find_binding_from(rs, tree_id, name@, i as int) == Some(i as int));
            }
            return Some(i);
        }
        proof {
            assert(!(rs[i as int].tree_id == tree_id && rs[i as int].name == name@));
            assert(find_binding_from(rs, tree_id, name@, i as int) == find_binding_from(
                rs,
                tree_id,
                name@,
                i as int + 1,
            ));
        }
        i += 1;
    }
    None
}

/// The listing of one binding table restricted to `tree_id`, in table
/// order, with absent descriptions read as empty.
fn infos_for_tree(rows: &Vec<Binding>, tree_id: u64) -> (v: Vec<ScriptInfo>)
    ensures
        v.deep_view() == infos_of(rows.deep_view(), tree_id),
{
    let ghost rs = rows.deep_view();
    let n = rows.len();
    let mut v: Vec<ScriptInfo> = Vec::new();
    let mut i: usize = 0;
    while i < n
        invariant
            i <= n,
            n == rows@.len(),
            rs == rows.deep_view(),
            v.deep_view() == infos_upto(rs, tree_id, i as int),
        decreases n - i,
    {
        proof {
            assert(rs[i as int] == rows@[i as int]@);
        }
        let row = &rows[i];
        if row.tree_id == tree_id {
            let description = match &row.description {
                Some(d) => d.clone(),
                None => String::new(),
            };
            v.push(ScriptInfo { name: row.name.clone(), description });
            proof {
                assert(v.deep_view() =~~= infos_upto(rs, tree_id, i + 1));
            }
        } else {
            proof {
                assert(v.deep_view() =~~= infos_upto(rs, tree_id, i + 1));
            }
        }
        i += 1;
    }
    proof {
        assert(infos_upto(rs, tree_id, n as int) == infos_of(rs, tree_id));
    }
    v
}

impl Database {
    /// Bind script `name` in tree `tree_id` to `body`. The body is `put`
    /// into the blob store, deduplicated against existing contents.
    /// `DuplicateName` when the tree already has a script of that name.
    pub fn add_script(&mut self, tree_id: u64, name: &str, body: Vec<u8>) -> (r: Result<
        (),
        StoreError,
    >)
        requires
            old(self).wf(),
            old(self)@.blobs.len() < u64::MAX,
        ensures
            final(self).wf(),
            match r {
                Ok(_) => find_binding(old(self)@.scripts, tree_id, name@) is None && final(self)@
                    == add_script_model(old(self)@, tree_id, name@, body@),
                Err(e) => e == StoreError::DuplicateName && find_binding(
                    old(self)@.scripts,
                    tree_id,
                    name@,
                ) is Some && final(self)@ == old(self)@,
            },
    {
        let ghost m0 = self@;
        let key: String = name.to_owned();
        match find_binding_index(&self.scripts, tree_id, &key) {
            Some(_) => Err(StoreError::DuplicateName),
            None => {
                let id = self.put(body);
                let ghost m1 = self@;
                self.scripts.push(Binding { tree_id, name: key, blob_id: id, description: None });
                proof {
                    assert(self@.scripts =~~= m1.scripts.push(
                        BindingModel { tree_id, name: name@, blob_id: id, description: None },
                    ));
                    assert(self@ =~~= add_script_model(m0, tree_id, name@, body@));
                    lemma_add_script_model(m0, tree_id, name@, body@);
                }
                Ok(())
            },
        }
    }

    /// Bind file `name` in tree `tree_id` to `body`, deduplicated like
    /// [`Database::add_script`]. `DuplicateName` when the tree already has
    /// a file of that name.
    pub fn add_file(&mut self, tree_id: u64, name: &str, body: Vec<u8>) -> (r: Result<
        (),
        StoreError,
    >)
        requires
            old(self).wf(),
            old(self)@.blobs.len() < u64::MAX,
        ensures
            final(self).wf(),
            match r {
                Ok(_) => find_binding(old(self)@.files, tree_id, name@) is None && final(self)@
                    == add_file_model(old(self)@, tree_id, name@, body@),
                Err(e) => e == StoreError::DuplicateName && find_binding(
                    old(self)@.files,
                    tree_id,
                    name@,
                ) is Some && final(self)@ == old(self)@,
            },
    {
        let ghost m0 = self@;
        let key: String = name.to_owned();
        match find_binding_index(&self.files, tree_id, &key) {
            Some(_) => Err(StoreError::DuplicateName),
            None => {
                let id = self.put(body);
                let ghost m1 = self@;
                self.files.push(Binding { tree_id, name: key, blob_id: id, description: None });
                proof {
                    assert(self@.files =~~= m1.files.push(
                        BindingModel { tree_id, name: name@, blob_id: id, description: None },
                    ));
                    assert(self@ =~~= add_file_model(m0, tree_id, name@, body@));
                    lemma_add_file_model(m0, tree_id, name@, body@);
                }
                Ok(())
            },
        }
    }

    /// Overwrite the blob of script `(tree_id, name)` with `body`. The
    /// blob keeps its id, so every binding that shares it — in this tree
    /// or any other — reads the new content afterwards. `NotFound` when
    /// the tree has no script of that name.
    pub fn update_script(&mut self, tree_id: u64, name: &str, body: Vec<u8>) -> (r: Result<
        (),
        StoreError,
    >)
        requires
            old(self).wf(),
        ensures
            final(self).wf(),
            match r {
                Ok(_) => find_binding(old(self)@.scripts, tree_id, name@) is Some && final(self)@
                    == update_script_model(old(self)@, tree_id, name@, body@),
                Err(e) => e == StoreError::NotFound && find_binding(
                    old(self)@.scripts,
                    tree_id,
                    name@,
                ) is None && final(self)@ == old(self)@,
            },
    {
        let ghost m0 = self@;
        let key: String = name.to_owned();
        match find_binding_index(&self.scripts, tree_id, &key) {
            Some(i) => {
                let blob_id = self.scripts[i].blob_id;
                proof {
                    assert(m0.scripts[i as int] == self.scripts@[i as int]@);
                    assert(m0.scripts[i as int].blob_id == blob_id);
                    assert(blob_id_valid(m0, blob_id));
                }
                let r = self.overwrite(blob_id, body);
                proof {
                    assert(r is Ok);
                    assert(self@ =~~= update_script_model(m0, tree_id, name@, body@));
                    lemma_update_script_model(m0, tree_id, name@, body@);
                }
                Ok(())
            },
            None => Err(StoreError::NotFound),
        }
    }

    /// Remove script `(tree_id, name)` and report whether a binding was
    /// actually removed; `false` on a repeated or absent name, so removal
    /// is idempotent. The blob is left in place for pruning to consider.
    pub fn remove_script(&mut self, tree_id: u64, name: &str) -> (removed: bool)
        requires
            old(self).wf(),
        ensures
            final(self).wf(),
            (final(self)@, removed) == remove_script_model(old(self)@, tree_id, name@),
    {
        let ghost m0 = self@;
        let key: String = name.to_owned();
        match find_binding_index(&self.scripts, tree_id, &key) {
            Some(i) => {
                self.scripts.remove(i);
                proof {
                    assert(self@.scripts =~~= m0.scripts.remove(i as int));
                    assert(self@ =~~= remove_script_model(m0, tree_id, name@).0);
                    lemma_remove_script_model(m0, tree_id, name@);
                }
                true
            },
            None => false,
        }
    }

    /// The bytes of script `(tree_id, name)`. `NotFound` when the tree has
    /// no script of that name or its blob has been tombstoned.
    pub fn get_script_by_name(&self, tree_id: u64, name: &str) -> (r: Result<Vec<u8>, StoreError>)
        requires
            self.wf(),
        ensures
            match r {
                Ok(bytes) => get_script_model(self@, tree_id, name@) == Some(bytes@),
                Err(e) => e == StoreError::NotFound && get_script_model(self@, tree_id, name@)
                    is None,
            },
    {
        let key: String = name.to_owned();
        match find_binding_index(&self.scripts, tree_id, &key) {
            Some(i) => {
                let blob_id = self.scripts[i].blob_id;
                proof {
                    assert(self@.scripts[i as int] == self.scripts@[i as int]@);
                    assert(blob_id_valid(self@, blob_id));
                }
                self.fetch_blob(blob_id)
            },
            None => Err(StoreError::NotFound),
        }
    }

    /// The bytes of file `(tree_id, name)`. `NotFound` when the tree has
    /// no file of that name or its blob has been tombstoned.
    pub fn get_file_by_name(&self, tree_id: u64, name: &str) -> (r: Result<Vec<u8>, StoreError>)
        requires
            self.wf(),
        ensures
            match r {
                Ok(bytes) => get_file_model(self@, tree_id, name@) == Some(bytes@),
                Err(e) => e == StoreError::NotFound && get_file_model(self@, tree_id, name@)
                    is None,
            },
    {
        let key: String = name.to_owned();
        match find_binding_index(&self.files, tree_id, &key) {
            Some(i) => {
                let blob_id = self.files[i].blob_id;
                proof {
                    assert(self@.files[i as int] == self.files@[i as int]@);
                    assert(blob_id_valid(self@, blob_id));
                }
                self.fetch_blob(blob_id)
            },
            None => Err(StoreError::NotFound),
        }
    }

    /// Set the description shown for script `(tree_id, name)` in listings.
    /// When the tree has no script of that name, nothing changes, matching
    /// the zero-rows-updated behaviour of the stored table.
    pub fn add_script_description(&mut self, tree_id: u64, name: &str, desc: &str)
        requires
            old(self).wf(),
        ensures
            final(self).wf(),
            final(self)@ == set_description_model(old(self)@, tree_id, name@, desc@),
    {
        let ghost m0 = self@;
        let key: String = name.to_owned();
        match find_binding_index(&self.scripts, tree_id, &key) {
            Some(i) => {
                proof {
                    assert(m0.scripts[i as int] == self.scripts@[i as int]@);
                }
                let row = &self.scripts[i];
                let updated = Binding {
                    tree_id: row.tree_id,
                    name: row.name.clone(),
                    blob_id: row.blob_id,
                    description: Some(desc.to_owned()),
                };
                self.scripts[i] = updated;
                proof {
                    assert(self@.scripts =~~= m0.scripts.update(
                        i as int,
                        BindingModel { description: Some(desc@), ..m0.scripts[i as int] },
                    ));
                    assert(self@ =~~= set_description_model(m0, tree_id, name@, desc@));
                    lemma_set_description_model(m0, tree_id, name@, desc@);
                }
            },
            None => {
            },
        }
    }

    /// Rename script `(tree_id, old_name)` to `new_name`, scoped to the
    /// one tree. When the tree has no script named `old_name`, nothing
    /// changes. `DuplicateName` when `new_name` is already taken in this
    /// tree by a different binding.
    pub fn rename_script(&mut self, tree_id: u64, old_name: &str, new_name: &str) -> (r: Result<
        (),
        StoreError,
    >)
        requires
            old(self).wf(),
        ensures
            final(self).wf(),
            match r {
                Ok(_) => {
                    ||| (find_binding(old(self)@.scripts, tree_id, old_name@) is None
                        && final(self)@ == old(self)@)
                    ||| (find_binding(old(self)@.scripts, tree_id, old_name@) is Some && (
                    find_binding(old(self)@.scripts, tree_id, new_name@) is None || new_name@
                        == old_name@) && final(self)@ == rename_script_model(
                        old(self)@,
                        tree_id,
                        old_name@,
                        new_name@,
                    ))
                },
                Err(e) => e == StoreError::DuplicateName && find_binding(
                    old(self)@.scripts,
                    tree_id,
                    old_name@,
                ) is Some && find_binding(old(self)@.scripts, tree_id, new_name@) is Some
                    && new_name@ != old_name@ && final(self)@ == old(self)@,
            },
    {
        let ghost m0 = self@;
        let old_key: String = old_name.to_owned();
        let new_key: String = new_name.to_owned();
        match find_binding_index(&self.scripts, tree_id, &old_key) {
            Some(i) => {
                if old_key == new_key {
                    proof {
                        lemma_find_binding_from_props(m0.scripts, tree_id, old_name@, 0);
                        assert(m0.scripts[i as int] == self.scripts@[i as int]@);
                        assert(m0.scripts[i as int].name == old_name@);
                        assert(BindingModel { name: new_name@, ..m0.scripts[i as int] } =~~= m0
                            .scripts[i as int]);
                        assert(self@.scripts =~~= m0.scripts.update(
                            i as int,
                            BindingModel { name: new_name@, ..m0.scripts[i as int] },
                        ));
                        assert(self@ =~~= rename_script_model(m0, tree_id, old_name@, new_name@));
                    }
                    return Ok(());
                }
                match find_binding_index(&self.scripts, tree_id, &new_key) {
                    Some(_) => Err(StoreError::DuplicateName),
                    None => {
                        proof {
                            assert(m0.scripts[i as int] == self.scripts@[i as int]@);
                        }
                        let row = &self.scripts[i];
                        let updated = Binding {
                            tree_id: row.tree_id,
                            name: new_key,
                            blob_id: row.blob_id,
                            description: match &row.description {
                                Some(d) => Some(d.clone()),
                                None => None,
                            },
                        };
                        self.scripts[i] = updated;
                        proof {
                            assert(self@.scripts =~~= m0.scripts.update(
                                i as int,
                                BindingModel { name: new_name@, ..m0.scripts[i as int] },
                            ));
                            assert(self@ =~~= rename_script_model(
                                m0,
                                tree_id,
                                old_name@,
                                new_name@,
                            ));
                            lemma_rename_script_model(m0, tree_id, old_name@, new_name@);
                        }
                        Ok(())
                    },
                }
            },
            None => Ok(()),
        }
    }

    /// The scripts of tree `tree_id`, in table order, each with its
    /// description or the empty string.
    pub fn scripts_for_tree(&self, tree_id: u64) -> (v: Vec<ScriptInfo>)
        ensures
            v.deep_view() == infos_of(self@.scripts, tree_id),
    {
        infos_for_tree(&self.scripts, tree_id)
    }

    /// The files of tree `tree_id`, in table order, each with its
    /// description or the empty string.
    pub fn files_for_tree(&self, tree_id: u64) -> (v: Vec<ScriptInfo>)
        ensures
            v.deep_view() == infos_of(self@.files, tree_id),
    {
        infos_for_tree(&self.files, tree_id)
    }
}

/// The index of the first tree row registered at exactly `path`.
fn find_tree_index(trees: &Vec<TreeRootInfo>, path: &Vec<u8>) -> (r: Option<usize>)
    ensures
        match r {
            Some(i) => find_tree(trees.deep_view(), path@) == Some(i as int) && i < trees@.len(),
            None => find_tree(trees.deep_view(), path@) is None,
        },
{
    let ghost ts = trees.deep_view();
    let n = trees.len();
    let mut i: usize = 0;
    while i < n
        invariant
            i <= n,
            n == trees@.len(),
            ts == trees.deep_view(),
            find_tree(ts, path@) == find_tree_from(ts, path@, i as int),
        decreases n - i,
    {
        proof {
            assert(ts[i as int] == trees@[i as int]@);
        }
        let row = &trees[i];
        if bytes_eq(&row.path, path) {
            proof {
                assert(find_tree_from(ts, path@, i as int) == Some(i as int));
            }
            return Some(i);
        }
        proof {
            assert(ts[i as int].path != path@);
            assert(find_tree_from(ts, path@, i as int) == find_tree_from(ts, path@, i as int + 1));
        }
        i += 1;
    }
    None
}

/// An owned copy of a binding row.
fn clone_binding(row: &Binding) -> (r: Binding)
    ensures
        r@ == row@,
{
    Binding {
        tree_id: row.tree_id,
        name: row.name.clone(),
        blob_id: row.blob_id,
        description: match &row.description {
            Some(d) => Some(d.clone()),
            None => None,
        },
    }
}

impl Database {
    /// The id of the tree registered at exactly `path`, if any. No
    /// ancestor walking happens here; see [`crate::resolve`] for that.
    pub fn query_tree(&self, path: &Vec<u8>) -> (r: Option<u64>)
        ensures
            r == tree_id_at(self@, path@),
    {
        match find_tree_index(&self.trees, path) {
            Some(i) => {
                proof {
                    assert(self@.trees[i as int] == self.trees@[i as int]@);
                }
                Some(self.trees[i].id)
            },
            None => None,
        }
    }

    /// Register `path` as a new tree root and return its fresh id.
    /// `AlreadyRegistered` when a tree is registered at exactly this path.
    pub fn add_new_tree(&mut self, path: &Vec<u8>) -> (r: Result<u64, StoreError>)
        requires
            old(self).wf(),
            old(self)@.next_tree_id < u64::MAX,
        ensures
            final(self).wf(),
            match r {
                Ok(id) => find_tree(old(self)@.trees, path@) is None && (final(self)@, id)
                    == register_tree_model(old(self)@, path@),
                Err(e) => e == StoreError::AlreadyRegistered && find_tree(
                    old(self)@.trees,
                    path@,
                ) is Some && final(self)@ == old(self)@,
            },
    {
        let ghost m0 = self@;
        match find_tree_index(&self.trees, path) {
            Some(_) => Err(StoreError::AlreadyRegistered),
            None => {
                let id = self.next_tree_id;
                self.next_tree_id = id + 1;
                self.trees.push(TreeRootInfo { id, path: clone_bytes(path) });
                proof {
                    assert(self@.trees =~~= m0.trees.push(TreeModel { id, path: path@ }));
                    assert(self@ =~~= register_tree_model(m0, path@).0);
                    lemma_register_tree_model(m0, path@);
                }
                Ok(id)
            },
        }
    }

    /// Unregister tree `tree_id`. The removal cascades to all its script
    /// and file bindings; blobs are left in place for pruning to consider.
    /// Removing an id that is not registered changes nothing.
    pub fn remove_tree(&mut self, tree_id: u64)
        requires
            old(self).wf(),
        ensures
            final(self).wf(),
            final(self)@ == remove_tree_model(old(self)@, tree_id),
    {
        let ghost m0 = self@;
        let mut kept_trees: Vec<TreeRootInfo> = Vec::new();
        let n_trees = self.trees.len();
        let mut i: usize = 0;
        while i < n_trees
            invariant
                i <= n_trees,
                n_trees == self.trees@.len(),
                m0 == self@,
                kept_trees.deep_view() == remove_tree_row_upto(m0.trees, tree_id, i as int),
            decreases n_trees - i,
        {
            proof {
                assert(m0.trees[i as int] == self.trees@[i as int]@);
            }
            let row = &self.trees[i];
            if row.id != tree_id {
                kept_trees.push(TreeRootInfo { id: row.id, path: clone_bytes(&row.path) });
            }
            proof {
                assert(kept_trees.deep_view() =~~= remove_tree_row_upto(
                    m0.trees,
                    tree_id,
                    i as int + 1,
                ));
            }
            i += 1;
        }
        let mut kept_scripts: Vec<Binding> = Vec::new();
        let n_scripts = self.scripts.len();
        let mut j: usize = 0;
        while j < n_scripts
            invariant
                j <= n_scripts,
                n_scripts == self.scripts@.len(),
                m0 == self@,
                kept_scripts.deep_view() == drop_tree_rows_upto(m0.scripts, tree_id, j as int),
            decreases n_scripts - j,
        {
            proof {
                assert(m0.scripts[j as int] == self.scripts@[j as int]@);
            }
            let row = &self.scripts[j];
            if row.tree_id != tree_id {
                kept_scripts.push(clone_binding(row));
            }
            proof {
                assert(kept_scripts.deep_view() =~~= drop_tree_rows_upto(
                    m0.scripts,
                    tree_id,
                    j as int + 1,
                ));
            }
            j += 1;
        }
        let mut kept_files: Vec<Binding> = Vec::new();
        let n_files = self.files.len();
        let mut k: usize = 0;
        while k < n_files
            invariant
                k <= n_files,
                n_files == self.files@.len(),
                m0 == self@,
                kept_files.deep_view() == drop_tree_rows_upto(m0.files, tree_id, k as int),
            decreases n_files - k,
        {
            proof {
                assert(m0.files[k as int] == self.files@[k as int]@);
            }
            let row = &self.files[k];
            if row.tree_id != tree_id {
                kept_files.push(clone_binding(row));
            }
            proof {
                assert(kept_files.deep_view() =~~= drop_tree_rows_upto(
                    m0.files,
                    tree_id,
                    k as int + 1,
                ));
            }
            k += 1;
        }
        self.trees = kept_trees;
        self.scripts = kept_scripts;
        self.files = kept_files;
        proof {
            assert(self@ =~~= remove_tree_model(m0, tree_id));
            lemma_remove_tree_model(m0, tree_id);
        }
    }

    /// Re-key the tree registered at `old_path` to `new_path`. This
    /// renames the stored path only — the caller is responsible for having
    /// moved the directory itself. When no tree is registered at
    /// `old_path`, nothing changes. `AlreadyRegistered` when `new_path`
    /// already names a tree.
    pub fn rename_tree(&mut self, old_path: &Vec<u8>, new_path: &Vec<u8>) -> (r: Result<
        (),
        StoreError,
    >)
        requires
            old(self).wf(),
        ensures
            final(self).wf(),
            match r {
                Ok(_) => find_tree(old(self)@.trees, new_path@) is None && final(self)@
                    == rename_tree_model(old(self)@, old_path@, new_path@),
                Err(e) => e == StoreError::AlreadyRegistered && find_tree(
                    old(self)@.trees,
                    new_path@,
                ) is Some && final(self)@ == old(self)@,
            },
    {
        let ghost m0 = self@;
        match find_tree_index(&self.trees, new_path) {
            Some(_) => Err(StoreError::AlreadyRegistered),
            None => {
                match find_tree_index(&self.trees, old_path) {
                    Some(i) => {
                        proof {
                            assert(m0.trees[i as int] == self.trees@[i as int]@);
                        }
                        let id = self.trees[i].id;
                        self.trees[i] = TreeRootInfo { id, path: clone_bytes(new_path) };
                        proof {
                            assert(self@.trees =~~= m0.trees.update(
                                i as int,
                                TreeModel { path: new_path@, ..m0.trees[i as int] },
                            ));
                            assert(self@ =~~= rename_tree_model(m0, old_path@, new_path@));
                            lemma_rename_tree_model(m0, old_path@, new_path@);
                        }
                        Ok(())
                    },
                    None => Ok(()),
                }
            },
        }
    }

    /// Every registered tree root, in table order.
    pub fn get_tree_roots(&self) -> (v: Vec<TreeRootInfo>)
        ensures
            v.deep_view() == self@.trees,
    {
        let ghost ts = self@.trees;
        let n = self.trees.len();
        let mut v: Vec<TreeRootInfo> = Vec::new();
        let mut i: usize = 0;
        while i < n
            invariant
                i <= n,
                n == self.trees@.len(),
                ts == self@.trees,
                ts.len() == n,
                v@.len() == i,
                v.deep_view() == ts.subrange(0, i as int),
            decreases n - i,
        {
            proof {
                assert(ts[i as int] == self.trees@[i as int]@);
            }
            let row = &self.trees[i];
            let copied = TreeRootInfo { id: row.id, path: clone_bytes(&row.path) };
            proof {
                assert(copied@ == ts[i as int]);
            }
            v.push(copied);
            proof {
                assert(v@.len() == i + 1);
                assert(v@[i as int] == copied);
                assert(v@[i as int]@ == ts[i as int]);
                assert(v.deep_view() =~~= ts.subrange(0, i as int + 1));
            }
            i += 1;
        }
        proof {
            assert(ts.subrange(0, n as int) =~~= ts);
        }
        v
    }

    /// Copy every script binding of tree `src_tree` onto tree `dst_tree`,
    /// preserving blob references (no content is duplicated) and
    /// descriptions. A name that `dst_tree` already has is skipped, so the
    /// destination's own bindings always win.
    pub fn clone_tree(&mut self, src_tree: u64, dst_tree: u64)
        requires
            old(self).wf(),
        ensures
            final(self).wf(),
            final(self)@ == clone_tree_model(old(self)@, src_tree, dst_tree),
    {
        let ghost m0 = self@;
        let n = self.scripts.len();
        let mut i: usize = 0;
        while i < n
            invariant
                i <= n,
                n == m0.scripts.len(),
                store_wf(m0),
                self@.blobs == m0.blobs,
                self@.trees == m0.trees,
                self@.files == m0.files,
                self@.next_tree_id == m0.next_tree_id,
                self@.scripts == clone_rows_upto(m0.scripts, src_tree, dst_tree, i as int),
            decreases n - i,
        {
            proof {
                lemma_clone_rows_upto(m0.scripts, m0.blobs, src_tree, dst_tree, i as int);
                assert(self@.scripts[i as int] == m0.scripts[i as int]);
                assert(self.scripts@[i as int]@ == self@.scripts[i as int]);
            }
            let row = &self.scripts[i];
            let applies = row.tree_id == src_tree;
            let name_c = row.name.clone();
            let blob_id = row.blob_id;
            let desc = match &row.description {
                Some(d) => Some(d.clone()),
                None => None,
            };
            if applies {
                match find_binding_index(&self.scripts, dst_tree, &name_c) {
                    Some(_) => {
                        proof {
                            assert(self@.scripts =~~= clone_rows_upto(
                                m0.scripts,
                                src_tree,
                                dst_tree,
                                i as int + 1,
                            ));
                        }
                    },
                    None => {
                        self.scripts.push(
                            Binding {
                                tree_id: dst_tree,
                                name: name_c,
                                blob_id,
                                description: desc,
                            },
                        );
                        proof {
                            assert(self@.scripts =~~= clone_rows_upto(
                                m0.scripts,
                                src_tree,
                                dst_tree,
                                i as int + 1,
                            ));
                        }
                    },
                }
            } else {
                proof {
                    assert(self@.scripts =~~= clone_rows_upto(
                        m0.scripts,
                        src_tree,
                        dst_tree,
                        i as int + 1,
                    ));
                }
            }
            i += 1;
        }
        proof {
            assert(self@ =~~= clone_tree_model(m0, src_tree, dst_tree));
            lemma_clone_tree_model(m0, src_tree, dst_tree);
        }
    }
}

} // verus!
