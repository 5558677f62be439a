//! The mathematical model of the store.
//!
//! The executable [`crate::database::Database`] is specified against a ghost
//! mirror of its four tables. Blob ids are dense: blob `i` lives at index
//! `i - 1` of `blobs`, and a tombstoned blob keeps its slot, with `None` as
//! its content. The transitions here (`put_blobs`, `add_script_model`, ...)
//! are what the executable operations promise to perform, and what the laws
//! in [`crate::laws`] are proved about.

use vstd::prelude::*;

verus! {

/// A registered tree root: its identifier and the bytes of its absolute
/// filesystem path.
#[verifier::ext_equal]
pub ghost struct TreeModel {
    pub id: u64,
    pub path: Seq<u8>,
}

/// One name binding of either kind (script or file): the tree it belongs
/// to, the human-readable name, the blob it references, and an optional
/// description.
#[verifier::ext_equal]
pub ghost struct BindingModel {
    pub tree_id: u64,
    pub name: Seq<char>,
    pub blob_id: u64,
    pub description: Option<Seq<char>>,
}

/// A script or file listing entry: name and description, the description
/// empty when none was set.
#[verifier::ext_equal]
pub ghost struct InfoModel {
    pub name: Seq<char>,
    pub description: Seq<char>,
}

/// The whole store: blob contents by id, registered tree roots, and the
/// two binding tables.
#[verifier::ext_equal]
pub ghost struct StoreModel {
    pub blobs: Seq<Option<Seq<u8>>>,
    pub trees: Seq<TreeModel>,
    pub next_tree_id: u64,
    pub scripts: Seq<BindingModel>,
    pub files: Seq<BindingModel>,
}

// ---------------------------------------------------------------------------
// Blobs
// ---------------------------------------------------------------------------

/// Whether `id` names an allocated blob slot (live or tombstoned).
pub open spec fn blob_id_valid(m: StoreModel, id: u64) -> bool {
    1 <= id <= m.blobs.len()
}

/// The content of blob `id`: `None` once tombstoned.
pub open spec fn blob_content(m: StoreModel, id: u64) -> Option<Seq<u8>>
    recommends
        blob_id_valid(m, id),
{
    m.blobs[id - 1]
}

/// The index of the first blob slot at or after `i` whose live content is
/// exactly `bytes`.
pub open spec fn find_blob_from(blobs: Seq<Option<Seq<u8>>>, bytes: Seq<u8>, i: int) -> Option<int>
    decreases blobs.len() - i,
{
    if i < 0 || i >= blobs.len() {
        None
    } else if blobs[i] == Some(bytes) {
        Some(i)
    } else {
        find_blob_from(blobs, bytes, i + 1)
    }
}

/// The index of the first blob slot whose live content is exactly `bytes`.
pub open spec fn find_blob(blobs: Seq<Option<Seq<u8>>>, bytes: Seq<u8>) -> Option<int> {
    find_blob_from(blobs, bytes, 0)
}

/// `put` on the blob table: the id of the first blob with the same bytes
/// when one exists, else a fresh row at the end.
pub open spec fn put_blobs(blobs: Seq<Option<Seq<u8>>>, bytes: Seq<u8>) -> (Seq<Option<Seq<u8>>>,
    u64,
) {
    match find_blob(blobs, bytes) {
        Some(i) => (blobs, (i + 1) as u64),
        None => (blobs.push(Some(bytes)), (blobs.len() + 1) as u64),
    }
}

/// Blob id `id` is referenced by at least one script binding. This is the
/// reference set that orphan pruning must respect.
pub open spec fn blob_referenced(m: StoreModel, id: u64) -> bool {
    exists|i: int| 0 <= i < m.scripts.len() && #[trigger] m.scripts[i].blob_id == id
}

// ---------------------------------------------------------------------------
// Bindings
// ---------------------------------------------------------------------------

/// The index of the first binding at or after `i` for `(tree_id, name)`.
pub open spec fn find_binding_from(
    rows: Seq<BindingModel>,
    tree_id: u64,
    name: Seq<char>,
    i: int,
) -> Option<int>
    decreases rows.len() - i,
{
    if i < 0 || i >= rows.len() {
        None
    } else if rows[i].tree_id == tree_id && rows[i].name == name {
        Some(i)
    } else {
        find_binding_from(rows, tree_id, name, i + 1)
    }
}

/// The index of the first binding for `(tree_id, name)`.
pub open spec fn find_binding(rows: Seq<BindingModel>, tree_id: u64, name: Seq<char>) -> Option<
    int,
> {
    find_binding_from(rows, tree_id, name, 0)
}

/// No two bindings of one table share a `(tree, name)` pair.
pub open spec fn bindings_unique(rows: Seq<BindingModel>) -> bool {
    forall|i: int, j: int|
        0 <= i < j < rows.len() ==> !(#[trigger] rows[i].tree_id == #[trigger] rows[j].tree_id
            && rows[i].name == rows[j].name)
}

/// Every binding of one table references an allocated blob slot.
pub open spec fn bindings_blobs_valid(rows: Seq<BindingModel>, blobs: Seq<Option<Seq<u8>>>) -> bool {
    forall|i: int| 0 <= i < rows.len() ==> 1 <= #[trigger] rows[i].blob_id <= blobs.len()
}

/// The listing of one binding table restricted to `tree_id`, over the
/// first `n` rows, in table order.
pub open spec fn infos_upto(rows: Seq<BindingModel>, tree_id: u64, n: int) -> Seq<InfoModel>
    decreases n,
{
    if n <= 0 || n > rows.len() {
        Seq::empty()
    } else {
        let prev = infos_upto(rows, tree_id, n - 1);
        if rows[n - 1].tree_id == tree_id {
            prev.push(info_of(rows[n - 1]))
        } else {
            prev
        }
    }
}

/// The listing entry of one binding: its name, and its description or the
/// empty string.
pub open spec fn info_of(row: BindingModel) -> InfoModel {
    InfoModel {
        name: row.name,
        description: match row.description {
            Some(d) => d,
            None => Seq::empty(),
        },
    }
}

/// The listing of one binding table restricted to `tree_id`.
pub open spec fn infos_of(rows: Seq<BindingModel>, tree_id: u64) -> Seq<InfoModel> {
    infos_upto(rows, tree_id, rows.len() as int)
}

// ---------------------------------------------------------------------------
// Trees
// ---------------------------------------------------------------------------

/// The index of the first tree row at or after `i` whose path is `path`.
pub open spec fn find_tree_from(trees: Seq<TreeModel>, path: Seq<u8>, i: int) -> Option<int>
    decreases trees.len() - i,
{
    if i < 0 || i >= trees.len() {
        None
    } else if trees[i].path == path {
        Some(i)
    } else {
        find_tree_from(trees, path, i + 1)
    }
}

/// The index of the tree row registered at exactly `path`.
pub open spec fn find_tree(trees: Seq<TreeModel>, path: Seq<u8>) -> Option<int> {
    find_tree_from(trees, path, 0)
}

/// The tree id registered at exactly `path`, if any.
pub open spec fn tree_id_at(m: StoreModel, path: Seq<u8>) -> Option<u64> {
    match find_tree(m.trees, path) {
        Some(i) => Some(m.trees[i].id),
        None => None,
    }
}

/// Tree rows have ids below `next_tree_id` and pairwise distinct ids and
/// paths.
pub open spec fn trees_wf(trees: Seq<TreeModel>, next_tree_id: u64) -> bool {
    &&& next_tree_id >= 1
    &&& forall|i: int| 0 <= i < trees.len() ==> 1 <= #[trigger] trees[i].id < next_tree_id
    &&& forall|i: int, j: int|
        0 <= i < j < trees.len() ==> #[trigger] trees[i].id != #[trigger] trees[j].id
    &&& forall|i: int, j: int|
        0 <= i < j < trees.len() ==> #[trigger] trees[i].path != #[trigger] trees[j].path
}

// ---------------------------------------------------------------------------
// Well-formedness
// ---------------------------------------------------------------------------

/// The store invariant: both binding tables are unique per `(tree, name)`
/// and reference allocated blob slots, and the tree table is well formed.
pub open spec fn store_wf(m: StoreModel) -> bool {
    &&& bindings_unique(m.scripts)
    &&& bindings_unique(m.files)
    &&& bindings_blobs_valid(m.scripts, m.blobs)
    &&& bindings_blobs_valid(m.files, m.blobs)
    &&& trees_wf(m.trees, m.next_tree_id)
}

/// The empty store.
pub open spec fn empty_store() -> StoreModel {
    StoreModel {
        blobs: Seq::empty(),
        trees: Seq::empty(),
        next_tree_id: 1u64,
        scripts: Seq::empty(),
        files: Seq::empty(),
    }
}

// ---------------------------------------------------------------------------
// Transitions
// ---------------------------------------------------------------------------

/// The store after `put`, and the id `put` returns.
pub open spec fn put_model(m: StoreModel, bytes: Seq<u8>) -> (StoreModel, u64) {
    let (blobs, id) = put_blobs(m.blobs, bytes);
    (StoreModel { blobs, ..m }, id)
}

/// The store after overwriting blob `id` in place.
pub open spec fn overwrite_model(m: StoreModel, id: u64, bytes: Seq<u8>) -> StoreModel
    recommends
        blob_id_valid(m, id),
{
    StoreModel { blobs: m.blobs.update(id - 1, Some(bytes)), ..m }
}

/// The store after tombstoning blob `id`.
pub open spec fn nullify_model(m: StoreModel, id: u64) -> StoreModel
    recommends
        blob_id_valid(m, id),
{
    StoreModel { blobs: m.blobs.update(id - 1, None), ..m }
}

/// The store after adding script `(tree_id, name)` with content `body`:
/// `put` the body, then append the binding row. Only meaningful when no
/// script binding for `(tree_id, name)` exists.
pub open spec fn add_script_model(m: StoreModel, tree_id: u64, name: Seq<char>, body: Seq<u8>)
    -> StoreModel {
    let (m1, id) = put_model(m, body);
    StoreModel {
        scripts: m1.scripts.push(
            BindingModel { tree_id, name, blob_id: id, description: None },
        ),
        ..m1
    }
}

/// The store after adding file `(tree_id, name)` with content `body`.
pub open spec fn add_file_model(m: StoreModel, tree_id: u64, name: Seq<char>, body: Seq<u8>)
    -> StoreModel {
    let (m1, id) = put_model(m, body);
    StoreModel {
        files: m1.files.push(BindingModel { tree_id, name, blob_id: id, description: None }),
        ..m1
    }
}

/// The store after updating script `(tree_id, name)` to content `body`:
/// the blob the binding references is overwritten in place, so every
/// binding sharing that blob id sees the new content. Only meaningful when
/// the binding exists.
pub open spec fn update_script_model(m: StoreModel, tree_id: u64, name: Seq<char>, body: Seq<u8>)
    -> StoreModel
    recommends
        find_binding(m.scripts, tree_id, name) is Some,
{
    let i = find_binding(m.scripts, tree_id, name)->Some_0;
    overwrite_model(m, m.scripts[i].blob_id, body)
}

/// The store after removing script `(tree_id, name)`, and whether a row
/// was removed.
pub open spec fn remove_script_model(m: StoreModel, tree_id: u64, name: Seq<char>) -> (StoreModel,
    bool,
) {
    match find_binding(m.scripts, tree_id, name) {
        Some(i) => (StoreModel { scripts: m.scripts.remove(i), ..m }, true),
        None => (m, false),
    }
}

/// The bytes `get` returns for script `(tree_id, name)`: the binding's
/// blob content, `None` when the binding is absent or its blob is
/// tombstoned.
pub open spec fn get_script_model(m: StoreModel, tree_id: u64, name: Seq<char>) -> Option<Seq<u8>> {
    match find_binding(m.scripts, tree_id, name) {
        Some(i) => blob_content(m, m.scripts[i].blob_id),
        None => None,
    }
}

/// The bytes `get` returns for file `(tree_id, name)`.
pub open spec fn get_file_model(m: StoreModel, tree_id: u64, name: Seq<char>) -> Option<Seq<u8>> {
    match find_binding(m.files, tree_id, name) {
        Some(i) => blob_content(m, m.files[i].blob_id),
        None => None,
    }
}

/// The store after registering `path` as a new tree root, and the fresh
/// id. Only meaningful when `path` is not yet registered.
pub open spec fn register_tree_model(m: StoreModel, path: Seq<u8>) -> (StoreModel, u64) {
    (
        StoreModel {
            trees: m.trees.push(TreeModel { id: m.next_tree_id, path }),
            next_tree_id: (m.next_tree_id + 1) as u64,
            ..m
        },
        m.next_tree_id,
    )
}

/// Rows of one binding table with every binding of `tree_id` removed,
/// over the first `n` rows.
pub open spec fn drop_tree_rows_upto(rows: Seq<BindingModel>, tree_id: u64, n: int) -> Seq<
    BindingModel,
>
    decreases n,
{
    if n <= 0 || n > rows.len() {
        Seq::empty()
    } else {
        let prev = drop_tree_rows_upto(rows, tree_id, n - 1);
        if rows[n - 1].tree_id == tree_id {
            prev
        } else {
            prev.push(rows[n - 1])
        }
    }
}

/// Rows of one binding table with every binding of `tree_id` removed.
pub open spec fn drop_tree_rows(rows: Seq<BindingModel>, tree_id: u64) -> Seq<BindingModel> {
    drop_tree_rows_upto(rows, tree_id, rows.len() as int)
}

/// The store after unregistering tree `tree_id`: its row is gone and the
/// removal cascades to both its script and its file bindings. Blobs are
/// untouched.
pub open spec fn remove_tree_model(m: StoreModel, tree_id: u64) -> StoreModel {
    StoreModel {
        trees: remove_tree_row(m.trees, tree_id),
        scripts: drop_tree_rows(m.scripts, tree_id),
        files: drop_tree_rows(m.files, tree_id),
        ..m
    }
}

/// The tree table with the row of `tree_id` removed, over the first `n`
/// rows.
pub open spec fn remove_tree_row_upto(trees: Seq<TreeModel>, tree_id: u64, n: int) -> Seq<TreeModel>
    decreases n,
{
    if n <= 0 || n > trees.len() {
        Seq::empty()
    } else {
        let prev = remove_tree_row_upto(trees, tree_id, n - 1);
        if trees[n - 1].id == tree_id {
            prev
        } else {
            prev.push(trees[n - 1])
        }
    }
}

/// The tree table with the row of `tree_id` removed.
pub open spec fn remove_tree_row(trees: Seq<TreeModel>, tree_id: u64) -> Seq<TreeModel> {
    remove_tree_row_upto(trees, tree_id, trees.len() as int)
}

/// The store after setting the description of script `(tree_id, name)`;
/// the store is unchanged when the binding is absent.
pub open spec fn set_description_model(
    m: StoreModel,
    tree_id: u64,
    name: Seq<char>,
    desc: Seq<char>,
) -> StoreModel {
    match find_binding(m.scripts, tree_id, name) {
        Some(i) => StoreModel {
            scripts: m.scripts.update(
                i,
                BindingModel { description: Some(desc), ..m.scripts[i] },
            ),
            ..m
        },
        None => m,
    }
}

/// The store after renaming script `(tree_id, old_name)` to `new_name`.
/// Only meaningful when the old binding exists and the new name is free
/// (or equal to the old one).
pub open spec fn rename_script_model(
    m: StoreModel,
    tree_id: u64,
    old_name: Seq<char>,
    new_name: Seq<char>,
) -> StoreModel
    recommends
        find_binding(m.scripts, tree_id, old_name) is Some,
{
    let i = find_binding(m.scripts, tree_id, old_name)->Some_0;
    StoreModel {
        scripts: m.scripts.update(i, BindingModel { name: new_name, ..m.scripts[i] }),
        ..m
    }
}

/// The store after re-keying the tree registered at `old_path` to
/// `new_path`; the store is unchanged when no tree is registered at
/// `old_path`. Only meaningful when `new_path` is not registered.
pub open spec fn rename_tree_model(m: StoreModel, old_path: Seq<u8>, new_path: Seq<u8>)
    -> StoreModel {
    match find_tree(m.trees, old_path) {
        Some(i) => StoreModel {
            trees: m.trees.update(i, TreeModel { path: new_path, ..m.trees[i] }),
            ..m
        },
        None => m,
    }
}

/// One binding table after cloning the bindings of tree `src` to tree
/// `dst`, having processed the first `n` rows: each of `src`'s bindings is
/// appended re-keyed to `dst` — blob reference and description preserved —
/// unless `dst` already has a binding of that name, which is kept instead.
pub open spec fn clone_rows_upto(rows: Seq<BindingModel>, src: u64, dst: u64, n: int) -> Seq<
    BindingModel,
>
    decreases n,
{
    if n <= 0 || n > rows.len() {
        rows
    } else {
        let prev = clone_rows_upto(rows, src, dst, n - 1);
        let row = rows[n - 1];
        if row.tree_id == src && find_binding(prev, dst, row.name) is None {
            prev.push(BindingModel { tree_id: dst, ..row })
        } else {
            prev
        }
    }
}

/// The store after cloning every script binding of tree `src` to tree
/// `dst`, skipping names that `dst` already has.
pub open spec fn clone_tree_model(m: StoreModel, src: u64, dst: u64) -> StoreModel {
    StoreModel { scripts: clone_rows_upto(m.scripts, src, dst, m.scripts.len() as int), ..m }
}

/// One step of the orphan sweep: blob `id` is tombstoned exactly when it
/// is allocated, live, and referenced by no script binding; otherwise the
/// store is untouched.
pub open spec fn prune_blob_model(m: StoreModel, id: u64) -> (StoreModel, bool) {
    if blob_id_valid(m, id) && !blob_referenced(m, id) && blob_content(m, id) is Some {
        (nullify_model(m, id), true)
    } else {
        (m, false)
    }
}

// ---------------------------------------------------------------------------
// Facts about the searches
// ---------------------------------------------------------------------------

/// What `find_blob_from` finds: the first live blob slot at or after `i`
/// holding `bytes`, and nothing before it.
pub proof fn lemma_find_blob_from_props(blobs: Seq<Option<Seq<u8>>>, bytes: Seq<u8>, i: int)
    requires
        0 <= i,
    ensures
        match find_blob_from(blobs, bytes, i) {
            Some(k) => i <= k < blobs.len() && blobs[k] == Some(bytes) && forall|j: int|
                i <= j < k ==> #[trigger] blobs[j] != Some(bytes),
            None => forall|j: int|
                i <= j < blobs.len() ==> #[trigger] blobs[j] != Some(bytes),
        },
    decreases blobs.len() - i,
{
    if 0 <= i < blobs.len() && blobs[i] != Some(bytes) {
        lemma_find_blob_from_props(blobs, bytes, i + 1);
    }
}

/// What `find_binding_from` finds: the first binding for `(tree_id, name)`
/// at or after `i`, and nothing before it.
pub proof fn lemma_find_binding_from_props(
    rows: Seq<BindingModel>,
    tree_id: u64,
    name: Seq<char>,
    i: int,
)
    requires
        0 <= i,
    ensures
        match find_binding_from(rows, tree_id, name, i) {
            Some(k) => i <= k < rows.len() && rows[k].tree_id == tree_id && rows[k].name == name
                && forall|j: int|
                i <= j < k ==> !(#[trigger] rows[j].tree_id == tree_id && rows[j].name == name),
            None => forall|j: int|
                i <= j < rows.len() ==> !(#[trigger] rows[j].tree_id == tree_id && rows[j].name
                    == name),
        },
    decreases rows.len() - i,
{
    if 0 <= i < rows.len() && !(rows[i].tree_id == tree_id && rows[i].name == name) {
        lemma_find_binding_from_props(rows, tree_id, name, i + 1);
    }
}

/// What `find_tree_from` finds: the first tree row at or after `i` with
/// path `path`, and nothing before it.
pub proof fn lemma_find_tree_from_props(trees: Seq<TreeModel>, path: Seq<u8>, i: int)
    requires
        0 <= i,
    ensures
        match find_tree_from(trees, path, i) {
            Some(k) => i <= k < trees.len() && trees[k].path == path && forall|j: int|
                i <= j < k ==> #[trigger] trees[j].path != path,
            None => forall|j: int| i <= j < trees.len() ==> #[trigger] trees[j].path != path,
        },
    decreases trees.len() - i,
{
    if 0 <= i < trees.len() && trees[i].path != path {
        lemma_find_tree_from_props(trees, path, i + 1);
    }
}

// ---------------------------------------------------------------------------
// What the transitions preserve and produce
// ---------------------------------------------------------------------------

/// `put` preserves the invariant, returns the id of a blob holding
/// `bytes`, touches nothing but the blob table, and leaves every already
/// allocated blob's content as it was. The table grows exactly when no
/// blob with identical content existed.
pub proof fn lemma_put_model(m: StoreModel, bytes: Seq<u8>)
    requires
        store_wf(m),
        m.blobs.len() < u64::MAX,
    ensures
        ({
            let (m1, id) = put_model(m, bytes);
            &&& store_wf(m1)
            &&& blob_id_valid(m1, id)
            &&& blob_content(m1, id) == Some(bytes)
            &&& m1.blobs.len() == if find_blob(m.blobs, bytes) is Some {
                m.blobs.len() as int
            } else {
                m.blobs.len() + 1int
            }
            &&& m1.trees == m.trees
            &&& m1.scripts == m.scripts
            &&& m1.files == m.files
            &&& m1.next_tree_id == m.next_tree_id
            &&& forall|id2: u64|
                blob_id_valid(m, id2) ==> #[trigger] blob_content(m1, id2) == blob_content(m, id2)
        }),
{
    lemma_find_blob_from_props(m.blobs, bytes, 0);
}

/// Calling `put` twice with the same bytes returns the same id the second
/// time and leaves the store exactly as after the first call. With the
/// growth fact of [`lemma_put_model`] this is the dedup law: the blob
/// count rises by one per distinct content, and repeats add nothing.
pub proof fn lemma_put_model_twice(m: StoreModel, bytes: Seq<u8>)
    requires
        store_wf(m),
        m.blobs.len() < u64::MAX,
    ensures
        ({
            let (m1, id1) = put_model(m, bytes);
            let (m2, id2) = put_model(m1, bytes);
            id2 == id1 && m2 == m1
        }),
{
    let (m1, id1) = put_model(m, bytes);
    lemma_find_blob_from_props(m.blobs, bytes, 0);
    match find_blob(m.blobs, bytes) {
        Some(i) => {
            assert(m1 =~~= m);
            assert(put_model(m1, bytes) == (m1, id1));
            assert(put_model(m1, bytes).0 =~~= m1);
        },
        None => {
            let n = m.blobs.len() as int;
            lemma_find_blob_from_props(m1.blobs, bytes, 0);
            assert(m1.blobs[n] == Some(bytes));
            match find_blob(m1.blobs, bytes) {
                Some(k) => {
                    assert(forall|j: int| 0 <= j < n ==> #[trigger] m1.blobs[j] != Some(bytes));
                    assert(k == n);
                },
                None => {
                    assert(false);
                },
            }
            assert(put_model(m1, bytes).0 =~~= m1);
        },
    }
}

/// Adding a script under a fresh `(tree, name)` preserves the invariant,
/// makes the new binding findable, and `get` on it returns exactly the
/// added bytes. Nothing else changes: trees, files and the other blobs
/// stay as they were.
pub proof fn lemma_add_script_model(m: StoreModel, tree_id: u64, name: Seq<char>, body: Seq<u8>)
    requires
        store_wf(m),
        m.blobs.len() < u64::MAX,
        find_binding(m.scripts, tree_id, name) is None,
    ensures
        ({
            let m1 = add_script_model(m, tree_id, name, body);
            &&& store_wf(m1)
            &&& find_binding(m1.scripts, tree_id, name) == Some(m.scripts.len() as int)
            &&& get_script_model(m1, tree_id, name) == Some(body)
            &&& m1.trees == m.trees
            &&& m1.files == m.files
            &&& m1.next_tree_id == m.next_tree_id
            &&& forall|id2: u64|
                blob_id_valid(m, id2) ==> #[trigger] blob_content(m1, id2) == blob_content(m, id2)
        }),
{
    lemma_put_model(m, body);
    let (mp, id) = put_model(m, body);
    let m1 = add_script_model(m, tree_id, name, body);
    let row = BindingModel { tree_id, name, blob_id: id, description: None };
    let n = m.scripts.len() as int;
    assert(m1.scripts == m.scripts.push(row));
    lemma_find_binding_from_props(m.scripts, tree_id, name, 0);
    lemma_find_binding_from_props(m1.scripts, tree_id, name, 0);
    assert(m1.scripts[n] == row);
    match find_binding(m1.scripts, tree_id, name) {
        Some(k) => {
            assert(forall|j: int|
                0 <= j < n ==> !(#[trigger] m1.scripts[j].tree_id == tree_id
                    && m1.scripts[j].name == name));
            assert(k == n);
        },
        None => {
            assert(m1.scripts[n].tree_id == tree_id && m1.scripts[n].name == name);
            assert(false);
        },
    }
    assert(bindings_unique(m1.scripts)) by {
        assert(forall|j: int| 0 <= j < n ==> m1.scripts[j] == m.scripts[j]);
    }
    assert(bindings_blobs_valid(m1.scripts, m1.blobs)) by {
        assert(forall|j: int| 0 <= j < n ==> m1.scripts[j] == m.scripts[j]);
    }
}

/// Adding a file under a fresh `(tree, name)`: the mirror image of
/// [`lemma_add_script_model`] for the file table.
pub proof fn lemma_add_file_model(m: StoreModel, tree_id: u64, name: Seq<char>, body: Seq<u8>)
    requires
        store_wf(m),
        m.blobs.len() < u64::MAX,
        find_binding(m.files, tree_id, name) is None,
    ensures
        ({
            let m1 = add_file_model(m, tree_id, name, body);
            &&& store_wf(m1)
            &&& find_binding(m1.files, tree_id, name) == Some(m.files.len() as int)
            &&& get_file_model(m1, tree_id, name) == Some(body)
            &&& m1.trees == m.trees
            &&& m1.scripts == m.scripts
            &&& m1.next_tree_id == m.next_tree_id
        }),
{
    lemma_put_model(m, body);
    let (mp, id) = put_model(m, body);
    let m1 = add_file_model(m, tree_id, name, body);
    let row = BindingModel { tree_id, name, blob_id: id, description: None };
    let n = m.files.len() as int;
    assert(m1.files == m.files.push(row));
    lemma_find_binding_from_props(m.files, tree_id, name, 0);
    lemma_find_binding_from_props(m1.files, tree_id, name, 0);
    assert(m1.files[n] == row);
    match find_binding(m1.files, tree_id, name) {
        Some(k) => {
            assert(forall|j: int|
                0 <= j < n ==> !(#[trigger] m1.files[j].tree_id == tree_id && m1.files[j].name
                    == name));
            assert(k == n);
        },
        None => {
            assert(m1.files[n].tree_id == tree_id && m1.files[n].name == name);
            assert(false);
        },
    }
    assert(bindings_unique(m1.files)) by {
        assert(forall|j: int| 0 <= j < n ==> m1.files[j] == m.files[j]);
    }
    assert(bindings_blobs_valid(m1.files, m1.blobs)) by {
        assert(forall|j: int| 0 <= j < n ==> m1.files[j] == m.files[j]);
    }
}

/// Updating a script overwrites its blob in place: the invariant is kept,
/// the binding tables and tree table are untouched, the blob table keeps
/// its length, and `get` on the updated binding returns the new bytes.
pub proof fn lemma_update_script_model(m: StoreModel, tree_id: u64, name: Seq<char>, body: Seq<u8>)
    requires
        store_wf(m),
        find_binding(m.scripts, tree_id, name) is Some,
    ensures
        ({
            let m1 = update_script_model(m, tree_id, name, body);
            &&& store_wf(m1)
            &&& m1.scripts == m.scripts
            &&& m1.trees == m.trees
            &&& m1.files == m.files
            &&& m1.next_tree_id == m.next_tree_id
            &&& m1.blobs.len() == m.blobs.len()
            &&& get_script_model(m1, tree_id, name) == Some(body)
        }),
{
    lemma_find_binding_from_props(m.scripts, tree_id, name, 0);
}

/// Removing a script binding preserves the invariant, reports whether a
/// binding existed, and leaves no binding for the pair behind, so that a
/// second removal of the same pair reports `false`. Blobs, trees and
/// files are untouched.
pub proof fn lemma_remove_script_model(m: StoreModel, tree_id: u64, name: Seq<char>)
    requires
        store_wf(m),
    ensures
        ({
            let (m1, removed) = remove_script_model(m, tree_id, name);
            &&& store_wf(m1)
            &&& removed == (find_binding(m.scripts, tree_id, name) is Some)
            &&& find_binding(m1.scripts, tree_id, name) is None
            &&& m1.blobs == m.blobs
            &&& m1.trees == m.trees
            &&& m1.files == m.files
            &&& m1.next_tree_id == m.next_tree_id
        }),
{
    lemma_find_binding_from_props(m.scripts, tree_id, name, 0);
    let (m1, removed) = remove_script_model(m, tree_id, name);
    match find_binding(m.scripts, tree_id, name) {
        Some(i) => {
            let s2 = m.scripts.remove(i);
            assert(forall|j: int|
                0 <= j < s2.len() ==> #[trigger] s2[j] == (if j < i {
                    m.scripts[j]
                } else {
                    m.scripts[j + 1]
                }));
            assert(bindings_unique(s2));
            assert(bindings_blobs_valid(s2, m.blobs));
            lemma_find_binding_from_props(s2, tree_id, name, 0);
            match find_binding(s2, tree_id, name) {
                Some(k) => {
                    assert(s2[k].tree_id == tree_id && s2[k].name == name);
                    if k < i {
                        assert(!(m.scripts[k].tree_id == tree_id && m.scripts[k].name == name));
                    } else {
                        assert(m.scripts[k + 1].tree_id == tree_id && m.scripts[k + 1].name
                            == name);
                        assert(false);
                    }
                },
                None => {},
            }
        },
        None => {},
    }
}

/// Setting a description preserves the invariant and touches only the one
/// script row's description field.
pub proof fn lemma_set_description_model(
    m: StoreModel,
    tree_id: u64,
    name: Seq<char>,
    desc: Seq<char>,
)
    requires
        store_wf(m),
    ensures
        ({
            let m1 = set_description_model(m, tree_id, name, desc);
            &&& store_wf(m1)
            &&& m1.blobs == m.blobs
            &&& m1.trees == m.trees
            &&& m1.files == m.files
            &&& m1.next_tree_id == m.next_tree_id
            &&& get_script_model(m1, tree_id, name) == get_script_model(m, tree_id, name)
        }),
{
    lemma_find_binding_from_props(m.scripts, tree_id, name, 0);
    match find_binding(m.scripts, tree_id, name) {
        Some(i) => {
            let m1 = set_description_model(m, tree_id, name, desc);
            assert(forall|j: int|
                0 <= j < m.scripts.len() && j != i ==> #[trigger] m1.scripts[j] == m.scripts[j]);
            assert(m1.scripts[i].tree_id == tree_id && m1.scripts[i].name == name);
            assert(bindings_unique(m1.scripts));
            assert(bindings_blobs_valid(m1.scripts, m1.blobs));
            lemma_find_binding_from_props(m1.scripts, tree_id, name, 0);
            match find_binding(m1.scripts, tree_id, name) {
                Some(k) => {
                    if k != i {
                        assert(m.scripts[k].tree_id == tree_id && m.scripts[k].name == name);
                        assert(false);
                    }
                },
                None => {
                    assert(false);
                },
            }
        },
        None => {},
    }
}

/// Renaming a script within one tree preserves the invariant when the new
/// name is free (or unchanged); afterwards the binding answers to the new
/// name, with the same blob, and the old name is free (unless unchanged).
pub proof fn lemma_rename_script_model(
    m: StoreModel,
    tree_id: u64,
    old_name: Seq<char>,
    new_name: Seq<char>,
)
    requires
        store_wf(m),
        find_binding(m.scripts, tree_id, old_name) is Some,
        find_binding(m.scripts, tree_id, new_name) is None || new_name == old_name,
    ensures
        ({
            let m1 = rename_script_model(m, tree_id, old_name, new_name);
            &&& store_wf(m1)
            &&& m1.blobs == m.blobs
            &&& m1.trees == m.trees
            &&& m1.files == m.files
            &&& m1.next_tree_id == m.next_tree_id
            &&& get_script_model(m1, tree_id, new_name) == get_script_model(m, tree_id, old_name)
        }),
{
    lemma_find_binding_from_props(m.scripts, tree_id, old_name, 0);
    lemma_find_binding_from_props(m.scripts, tree_id, new_name, 0);
    let i = find_binding(m.scripts, tree_id, old_name)->Some_0;
    let m1 = rename_script_model(m, tree_id, old_name, new_name);
    assert(forall|j: int|
        0 <= j < m.scripts.len() && j != i ==> #[trigger] m1.scripts[j] == m.scripts[j]);
    assert(m1.scripts[i].tree_id == tree_id && m1.scripts[i].name == new_name);
    assert(bindings_unique(m1.scripts)) by {
        if new_name != old_name {
            assert(forall|j: int|
                0 <= j < m.scripts.len() ==> !(#[trigger] m.scripts[j].tree_id == tree_id
                    && m.scripts[j].name == new_name));
        }
    }
    assert(bindings_blobs_valid(m1.scripts, m1.blobs));
    lemma_find_binding_from_props(m1.scripts, tree_id, new_name, 0);
    match find_binding(m1.scripts, tree_id, new_name) {
        Some(k) => {
            if k != i {
                assert(m.scripts[k].tree_id == tree_id && m.scripts[k].name == new_name);
                assert(m.scripts[k].name == old_name ==> false);
                assert(false);
            }
            assert(m1.scripts[k].blob_id == m.scripts[i].blob_id);
        },
        None => {
            assert(false);
        },
    }
}

/// Registering a fresh path preserves the invariant; the fresh id answers
/// the path's lookup, every other registered path keeps its id, and the
/// binding tables and blobs are untouched.
pub proof fn lemma_register_tree_model(m: StoreModel, path: Seq<u8>)
    requires
        store_wf(m),
        m.next_tree_id < u64::MAX,
        find_tree(m.trees, path) is None,
    ensures
        ({
            let (m1, id) = register_tree_model(m, path);
            &&& store_wf(m1)
            &&& id == m.next_tree_id
            &&& tree_id_at(m1, path) == Some(id)
            &&& m1.blobs == m.blobs
            &&& m1.scripts == m.scripts
            &&& m1.files == m.files
        }),
{
    lemma_find_tree_from_props(m.trees, path, 0);
    let (m1, id) = register_tree_model(m, path);
    let n = m.trees.len() as int;
    assert(m1.trees[n] == TreeModel { id, path });
    assert(trees_wf(m1.trees, m1.next_tree_id)) by {
        assert(forall|j: int| 0 <= j < n ==> m1.trees[j] == m.trees[j]);
    }
    lemma_find_tree_from_props(m1.trees, path, 0);
    match find_tree(m1.trees, path) {
        Some(k) => {
            assert(forall|j: int| 0 <= j < n ==> #[trigger] m1.trees[j].path != path);
            assert(k == n);
        },
        None => {
            assert(m1.trees[n].path == path);
            assert(false);
        },
    }
}

/// Rows kept by `remove_tree_row_upto`: each comes from the original
/// table and none carries the removed id; distinctness of ids and paths
/// is preserved.
pub proof fn lemma_remove_tree_row_upto(trees: Seq<TreeModel>, next_tree_id: u64, tree_id: u64, n: int)
    requires
        0 <= n <= trees.len(),
        trees_wf(trees, next_tree_id),
    ensures
        ({
            let res = remove_tree_row_upto(trees, tree_id, n);
            &&& res.len() <= n
            &&& forall|k: int|
                0 <= k < res.len() ==> exists|j: int|
                    0 <= j < n && #[trigger] res[k] == trees[j] && trees[j].id != tree_id
            &&& trees_wf(res, next_tree_id)
        }),
    decreases n,
{
    if n > 0 {
        lemma_remove_tree_row_upto(trees, next_tree_id, tree_id, n - 1);
        let prev = remove_tree_row_upto(trees, tree_id, n - 1);
        let res = remove_tree_row_upto(trees, tree_id, n);
        if trees[n - 1].id != tree_id {
            let p = prev.len() as int;
            assert(res[p] == trees[n - 1]);
            assert(forall|k: int| 0 <= k < p ==> #[trigger] res[k] == prev[k]);
            assert forall|k1: int, k2: int| 0 <= k1 < k2 < res.len() implies #[trigger] res[k1].id
                != #[trigger] res[k2].id && res[k1].path != res[k2].path by {
                if k2 == p {
                    let j1 = choose|j1: int|
                        0 <= j1 < n - 1 && #[trigger] prev[k1] == trees[j1] && trees[j1].id
                            != tree_id;
                    assert(trees[j1].id != trees[n - 1].id && trees[j1].path != trees[n - 1].path);
                }
            }
        }
    }
}

/// Rows kept by `drop_tree_rows_upto`: each comes from the original table
/// and none belongs to the dropped tree; uniqueness and blob validity are
/// preserved.
pub proof fn lemma_drop_tree_rows_upto(
    rows: Seq<BindingModel>,
    blobs: Seq<Option<Seq<u8>>>,
    tree_id: u64,
    n: int,
)
    requires
        0 <= n <= rows.len(),
        bindings_unique(rows),
        bindings_blobs_valid(rows, blobs),
    ensures
        ({
            let res = drop_tree_rows_upto(rows, tree_id, n);
            &&& res.len() <= n
            &&& forall|k: int|
                0 <= k < res.len() ==> exists|j: int|
                    0 <= j < n && #[trigger] res[k] == rows[j] && rows[j].tree_id != tree_id
            &&& bindings_unique(res)
            &&& bindings_blobs_valid(res, blobs)
        }),
    decreases n,
{
    if n > 0 {
        lemma_drop_tree_rows_upto(rows, blobs, tree_id, n - 1);
        let prev = drop_tree_rows_upto(rows, tree_id, n - 1);
        let res = drop_tree_rows_upto(rows, tree_id, n);
        if rows[n - 1].tree_id != tree_id {
            let p = prev.len() as int;
            assert(res[p] == rows[n - 1]);
            assert(forall|k: int| 0 <= k < p ==> #[trigger] res[k] == prev[k]);
            assert forall|k1: int, k2: int| 0 <= k1 < k2 < res.len() implies !(
            #[trigger] res[k1].tree_id == #[trigger] res[k2].tree_id && res[k1].name
                == res[k2].name) by {
                if k2 == p {
                    let j1 = choose|j1: int|
                        0 <= j1 < n - 1 && #[trigger] prev[k1] == rows[j1] && rows[j1].tree_id
                            != tree_id;
                    assert(!(rows[j1].tree_id == rows[n - 1].tree_id && rows[j1].name == rows[n
                        - 1].name));
                }
            }
            assert forall|k: int| 0 <= k < res.len() implies 1 <= #[trigger] res[k].blob_id
                <= blobs.len() by {
                let j = choose|j: int|
                    0 <= j < n && #[trigger] res[k] == rows[j] && rows[j].tree_id != tree_id;
                assert(1 <= rows[j].blob_id <= blobs.len());
            }
        }
    }
}

/// Unregistering a tree preserves the invariant: its row and all its
/// bindings of both kinds are gone, everything else — blobs included — is
/// untouched.
pub proof fn lemma_remove_tree_model(m: StoreModel, tree_id: u64)
    requires
        store_wf(m),
    ensures
        ({
            let m1 = remove_tree_model(m, tree_id);
            &&& store_wf(m1)
            &&& m1.blobs == m.blobs
            &&& m1.next_tree_id == m.next_tree_id
            &&& forall|k: int| 0 <= k < m1.trees.len() ==> #[trigger] m1.trees[k].id != tree_id
            &&& forall|k: int|
                0 <= k < m1.scripts.len() ==> #[trigger] m1.scripts[k].tree_id != tree_id
            &&& forall|k: int|
                0 <= k < m1.files.len() ==> #[trigger] m1.files[k].tree_id != tree_id
        }),
{
    let m1 = remove_tree_model(m, tree_id);
    lemma_remove_tree_row_upto(m.trees, m.next_tree_id, tree_id, m.trees.len() as int);
    lemma_drop_tree_rows_upto(m.scripts, m.blobs, tree_id, m.scripts.len() as int);
    lemma_drop_tree_rows_upto(m.files, m.blobs, tree_id, m.files.len() as int);
    assert forall|k: int| 0 <= k < m1.trees.len() implies #[trigger] m1.trees[k].id != tree_id by {
        let j = choose|j: int|
            0 <= j < m.trees.len() && #[trigger] m1.trees[k] == m.trees[j] && m.trees[j].id
                != tree_id;
    }
    assert forall|k: int| 0 <= k < m1.scripts.len() implies #[trigger] m1.scripts[k].tree_id
        != tree_id by {
        let j = choose|j: int|
            0 <= j < m.scripts.len() && #[trigger] m1.scripts[k] == m.scripts[j]
                && m.scripts[j].tree_id != tree_id;
    }
    assert forall|k: int| 0 <= k < m1.files.len() implies #[trigger] m1.files[k].tree_id
        != tree_id by {
        let j = choose|j: int|
            0 <= j < m.files.len() && #[trigger] m1.files[k] == m.files[j] && m.files[j].tree_id
                != tree_id;
    }
}

/// Re-keying a tree to a free path preserves the invariant; the new path
/// answers the lookup with the old id, and everything else is untouched.
pub proof fn lemma_rename_tree_model(m: StoreModel, old_path: Seq<u8>, new_path: Seq<u8>)
    requires
        store_wf(m),
        find_tree(m.trees, new_path) is None,
    ensures
        ({
            let m1 = rename_tree_model(m, old_path, new_path);
            &&& store_wf(m1)
            &&& m1.blobs == m.blobs
            &&& m1.scripts == m.scripts
            &&& m1.files == m.files
            &&& m1.next_tree_id == m.next_tree_id
            &&& (find_tree(m.trees, old_path) is Some ==> tree_id_at(m1, new_path) == tree_id_at(
                m,
                old_path,
            ))
        }),
{
    lemma_find_tree_from_props(m.trees, old_path, 0);
    lemma_find_tree_from_props(m.trees, new_path, 0);
    match find_tree(m.trees, old_path) {
        Some(i) => {
            let m1 = rename_tree_model(m, old_path, new_path);
            assert(forall|j: int|
                0 <= j < m.trees.len() && j != i ==> #[trigger] m1.trees[j] == m.trees[j]);
            assert(m1.trees[i].path == new_path && m1.trees[i].id == m.trees[i].id);
            assert(trees_wf(m1.trees, m1.next_tree_id)) by {
                assert(forall|j: int|
                    0 <= j < m.trees.len() ==> #[trigger] m.trees[j].path != new_path);
            }
            lemma_find_tree_from_props(m1.trees, new_path, 0);
            match find_tree(m1.trees, new_path) {
                Some(k) => {
                    if k != i {
                        assert(m.trees[k].path == new_path);
                        assert(false);
                    }
                },
                None => {
                    assert(m1.trees[i].path == new_path);
                    assert(false);
                },
            }
        },
        None => {},
    }
}

/// Cloning the bindings of one tree onto another preserves the table
/// invariants and leaves the original rows in place, at their indices.
pub proof fn lemma_clone_rows_upto(
    rows: Seq<BindingModel>,
    blobs: Seq<Option<Seq<u8>>>,
    src: u64,
    dst: u64,
    n: int,
)
    requires
        0 <= n <= rows.len(),
        bindings_unique(rows),
        bindings_blobs_valid(rows, blobs),
    ensures
        ({
            let res = clone_rows_upto(rows, src, dst, n);
            &&& bindings_unique(res)
            &&& bindings_blobs_valid(res, blobs)
            &&& res.len() >= rows.len()
            &&& forall|j: int| 0 <= j < rows.len() ==> #[trigger] res[j] == rows[j]
        }),
    decreases n,
{
    if n > 0 {
        lemma_clone_rows_upto(rows, blobs, src, dst, n - 1);
        let prev = clone_rows_upto(rows, src, dst, n - 1);
        let res = clone_rows_upto(rows, src, dst, n);
        let row = rows[n - 1];
        if row.tree_id == src && find_binding(prev, dst, row.name) is None {
            lemma_find_binding_from_props(prev, dst, row.name, 0);
            let added = BindingModel { tree_id: dst, ..row };
            assert(res[prev.len() as int] == added);
            assert(bindings_unique(res)) by {
                assert(forall|j: int| 0 <= j < prev.len() ==> #[trigger] res[j] == prev[j]);
                assert(forall|j: int|
                    0 <= j < prev.len() ==> !(#[trigger] prev[j].tree_id == dst && prev[j].name
                        == row.name));
            }
            assert(bindings_blobs_valid(res, blobs)) by {
                assert(forall|j: int| 0 <= j < prev.len() ==> #[trigger] res[j] == prev[j]);
            }
        }
    }
}

/// Cloning preserves the store invariant and touches only the script
/// table, where the original rows keep their indices.
pub proof fn lemma_clone_tree_model(m: StoreModel, src: u64, dst: u64)
    requires
        store_wf(m),
    ensures
        ({
            let m1 = clone_tree_model(m, src, dst);
            &&& store_wf(m1)
            &&& m1.blobs == m.blobs
            &&& m1.trees == m.trees
            &&& m1.files == m.files
            &&& m1.next_tree_id == m.next_tree_id
            &&& forall|j: int| 0 <= j < m.scripts.len() ==> #[trigger] m1.scripts[j] == m.scripts[j]
        }),
{
    lemma_clone_rows_upto(m.scripts, m.blobs, src, dst, m.scripts.len() as int);
}

} // verus!
