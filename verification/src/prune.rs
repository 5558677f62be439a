//! Maintenance sweeps over the store.
//!
//! The interactive halves — checking whether a tree's directory still
//! exists, showing a candidate, asking for confirmation — belong to the
//! host process. What stands here is everything the sweeps decide and
//! change: which blobs are orphans, and the guarded tombstoning that can
//! never touch a blob a script binding still references. Stale-tree
//! removal is [`crate::database::Database::remove_tree`].

use crate::database::Database;
use crate::model::{blob_content, blob_id_valid, blob_referenced, nullify_model, prune_blob_model};
use vstd::prelude::*;

verus! {

/// Whether `v` holds `x`.
fn contains_u64(v: &Vec<u64>, x: u64) -> (r: bool)
    ensures
        r == v@.contains(x),
{
    let n = v.len();
    let mut i: usize = 0;
    while i < n
        invariant
            i <= n,
            n == v@.len(),
            forall|j: int| 0 <= j < i ==> v@[j] != x,
        decreases n - i,
    {
        if v[i] == x {
            return true;
        }
        i += 1;
    }
    proof {
        assert(!v@.contains(x));
    }
    false
}

impl Database {
    /// The blob ids referenced by script bindings, one entry per row.
    /// This is the set of ids that the orphan sweep must leave alone.
    pub fn tree_script_blob_ids(&self) -> (v: Vec<u64>)
        ensures
            v@.len() == self@.scripts.len(),
            forall|j: int| 0 <= j < v@.len() ==> v@[j] == self@.scripts[j].blob_id,
            forall|id: u64| #[trigger] v@.contains(id) <==> blob_referenced(self@, id),
    {
        let ghost m = self@;
        let n = self.scripts.len();
        let mut v: Vec<u64> = Vec::new();
        let mut i: usize = 0;
        while i < n
            invariant
                i <= n,
                n == self.scripts@.len(),
                m == self@,
                v@.len() == i,
                forall|j: int| 0 <= j < i ==> v@[j] == m.scripts[j].blob_id,
            decreases n - i,
        {
            proof {
                assert(m.scripts[i as int] == self.scripts@[i as int]@);
            }
            v.push(self.scripts[i].blob_id);
            i += 1;
        }
        proof {
            assert forall|id: u64| #[trigger] v@.contains(id) implies blob_referenced(m, id) by {
                let k = choose|k: int| 0 <= k < v@.len() && v@[k] == id;
                assert(m.scripts[k].blob_id == id);
            }
            assert forall|id: u64| blob_referenced(m, id) implies v@.contains(id) by {
                let j = choose|j: int|
                    0 <= j < m.scripts.len() && #[trigger] m.scripts[j].blob_id == id;
                assert(v@[j] == id);
            }
        }
        v
    }

    /// The blob ids an orphan sweep should offer for confirmation: every
    /// allocated id whose blob is still live and which no script binding
    /// references, in ascending order. Already tombstoned ids are skipped,
    /// which makes a repeated sweep offer nothing it already removed.
    pub fn orphan_candidates(&self) -> (v: Vec<u64>)
        requires
            self.wf(),
            self@.blobs.len() < u64::MAX,
        ensures
            forall|k: int|
                0 <= k < v@.len() ==> blob_id_valid(self@, #[trigger] v@[k]) && !blob_referenced(
                    self@,
                    v@[k],
                ) && blob_content(self@, v@[k]) is Some,
            forall|id: u64|
                blob_id_valid(self@, id) && !blob_referenced(self@, id) && blob_content(
                    self@,
                    id,
                ) is Some ==> #[trigger] v@.contains(id),
            forall|k1: int, k2: int| 0 <= k1 < k2 < v@.len() ==> #[trigger] v@[k1] < #[trigger] v@[k2],
    {
        let ghost m = self@;
        let refs = self.tree_script_blob_ids();
        let n = self.blobs.len() as u64;
        let mut v: Vec<u64> = Vec::new();
        let mut id: u64 = 1;
        while id <= n
            invariant
                1 <= id <= n + 1,
                n == m.blobs.len(),
                n < u64::MAX,
                n <= usize::MAX as u64,
                m == self@,
                forall|idr: u64| #[trigger] refs@.contains(idr) <==> blob_referenced(m, idr),
                forall|k: int|
                    0 <= k < v@.len() ==> blob_id_valid(m, #[trigger] v@[k]) && !blob_referenced(
                        m,
                        v@[k],
                    ) && blob_content(m, v@[k]) is Some,
                forall|id2: u64|
                    1 <= id2 < id && !blob_referenced(m, id2) && blob_content(m, id2) is Some
                        ==> #[trigger] v@.contains(id2),
                forall|k: int| 0 <= k < v@.len() ==> #[trigger] v@[k] < id,
                forall|k1: int, k2: int| 0 <= k1 < k2 < v@.len() ==> #[trigger] v@[k1] < #[trigger] v@[k2],
            decreases n - id + 1,
        {
            let idx: usize = (id - 1) as usize;
            proof {
                assert(self.blobs@.len() == m.blobs.len());
                assert(idx as int == id - 1);
                assert(m.blobs[id - 1] == self.blobs@[idx as int].deep_view());
            }
            let live = self.blobs[idx].is_some();
            let was_ref = contains_u64(&refs, id);
            let ghost vpre = v@;
            if live && !was_ref {
                v.push(id);
                proof {
                    assert(forall|k: int| 0 <= k < vpre.len() ==> v@[k] == vpre[k]);
                    assert(v@[vpre.len() as int] == id);
                    assert(blob_content(m, id) is Some);
                    assert(!blob_referenced(m, id));
                }
            }
            proof {
                assert forall|id2: u64|
                    1 <= id2 < id + 1 && !blob_referenced(m, id2) && blob_content(m, id2)
                        is Some implies #[trigger] v@.contains(id2) by {
                    if id2 < id {
                        assert(vpre.contains(id2));
                        let j = choose|j: int| 0 <= j < vpre.len() && vpre[j] == id2;
                        assert(v@[j] == id2);
                    } else {
                        assert(id2 == id);
                        assert(blob_content(m, id) is Some);
                        assert(!refs@.contains(id));
                        assert(v@[vpre.len() as int] == id);
                    }
                }
            }
            id += 1;
        }
        v
    }

    /// Tombstone blob `id` if and only if it is an orphan: allocated,
    /// still live, and referenced by no script binding. Anything else —
    /// in particular any id a script binding references — leaves the
    /// store untouched and reports `false`. This is the safety gate of
    /// the orphan sweep: confirmation decides only *whether* an orphan
    /// goes, never *what* counts as one.
    pub fn prune_blob(&mut self, id: u64) -> (pruned: bool)
        requires
            old(self).wf(),
        ensures
            final(self).wf(),
            (final(self)@, pruned) == prune_blob_model(old(self)@, id),
            blob_referenced(old(self)@, id) ==> final(self)@ == old(self)@ && !pruned,
    {
        let ghost m0 = self@;
        if id < 1 || id > self.blobs.len() as u64 {
            return false;
        }
        let refs = self.tree_script_blob_ids();
        if contains_u64(&refs, id) {
            return false;
        }
        let idx: usize = (id - 1) as usize;
        proof {
            assert(m0.blobs[id - 1] == self.blobs@[idx as int].deep_view());
        }
        let live = self.blobs[idx].is_some();
        if !live {
            return false;
        }
        self.blobs[idx] = None;
        proof {
            assert(self@ =~~= nullify_model(m0, id));
        }
        true
    }
}

} // verus!
