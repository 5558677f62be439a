//! Tree-root resolution: walking a directory's ancestors to the nearest
//! registered tree root.
//!
//! Paths are the raw bytes of absolute, canonical filesystem paths, with
//! `/` separating components and no trailing separator (except for the
//! root directory itself, which is the single byte `/`). The host process
//! obtains such bytes from a canonicalized working directory.

use crate::database::{clone_bytes, Database};
use crate::model::{tree_id_at, StoreModel};
use vstd::prelude::*;

verus! {

/// The path separator byte, `/`.
pub open spec fn sep() -> u8 {
    47u8
}

/// The index of the last separator strictly before position `i`, if any.
pub open spec fn last_sep_before(p: Seq<u8>, i: int) -> Option<int>
    decreases i,
{
    if i <= 0 || i > p.len() {
        None
    } else if p[i - 1] == sep() {
        Some(i - 1)
    } else {
        last_sep_before(p, i - 1)
    }
}

/// The parent directory of `p`: the prefix up to the last separator, or
/// the root directory when the last separator starts the path. The root
/// itself, the empty path, and a path with no separator have no parent.
pub open spec fn parent_of(p: Seq<u8>) -> Option<Seq<u8>> {
    if p.len() <= 1 {
        None
    } else {
        match last_sep_before(p, p.len() as int) {
            Some(k) => if k == 0 {
                Some(p.subrange(0, 1))
            } else {
                Some(p.subrange(0, k))
            },
            None => None,
        }
    }
}

/// A parent is strictly shorter than its child, which is what lets the
/// ancestor walk terminate.
pub proof fn lemma_parent_of_shorter(p: Seq<u8>)
    ensures
        match parent_of(p) {
            Some(pp) => pp.len() < p.len(),
            None => true,
        },
{
    if p.len() > 1 {
        lemma_last_sep_before_range(p, p.len() as int);
    }
}

/// `last_sep_before(p, i)` stays within `[0, i)` and really finds a
/// separator.
pub proof fn lemma_last_sep_before_range(p: Seq<u8>, i: int)
    ensures
        match last_sep_before(p, i) {
            Some(k) => 0 <= k < i <= p.len() && p[k] == sep(),
            None => true,
        },
    decreases i,
{
    if 0 < i <= p.len() && p[i - 1] != sep() {
        lemma_last_sep_before_range(p, i - 1);
    }
}

/// What resolution returns on the model: the id registered at `path`
/// itself when there is one, else the result for the parent, else
/// nothing. The length guard only makes termination evident; by
/// [`lemma_parent_of_shorter`] it never fails.
pub open spec fn resolve_model(m: StoreModel, path: Seq<u8>) -> Option<(u64, Seq<u8>)>
    decreases path.len(),
{
    match tree_id_at(m, path) {
        Some(id) => Some((id, path)),
        None => match parent_of(path) {
            Some(pp) => if pp.len() < path.len() {
                resolve_model(m, pp)
            } else {
                None
            },
            None => None,
        },
    }
}

/// `q` is `path` itself or a directory on the chain of parents above it.
pub open spec fn is_ancestor_of(q: Seq<u8>, path: Seq<u8>) -> bool
    decreases path.len(),
{
    q == path || match parent_of(path) {
        Some(pp) => pp.len() < path.len() && is_ancestor_of(q, pp),
        None => false,
    }
}

/// An owned copy of the first `k` bytes of `p`.
fn prefix_bytes(p: &Vec<u8>, k: usize) -> (r: Vec<u8>)
    requires
        k <= p@.len(),
    ensures
        r@ == p@.subrange(0, k as int),
{
    let mut r: Vec<u8> = Vec::new();
    let mut i: usize = 0;
    while i < k
        invariant
            i <= k,
            k <= p@.len(),
            r@ == p@.subrange(0, i as int),
        decreases k - i,
    {
        r.push(p[i]);
        proof {
            assert(r@ =~= p@.subrange(0, i as int + 1));
        }
        i += 1;
    }
    r
}

/// The parent directory of `p`, as [`parent_of`] describes it.
pub fn parent_of_path(p: &Vec<u8>) -> (r: Option<Vec<u8>>)
    ensures
        match r {
            Some(pp) => parent_of(p@) == Some(pp@),
            None => parent_of(p@) is None,
        },
{
    if p.len() <= 1 {
        return None;
    }
    let n = p.len();
    let mut i: usize = n;
    while i > 0
        invariant
            i <= n,
            1 < n,
            n == p@.len(),
            last_sep_before(p@, n as int) == last_sep_before(p@, i as int),
        decreases i,
    {
        if p[i - 1] == 47u8 {
            proof {
                assert(last_sep_before(p@, i as int) == Some(i as int - 1));
            }
            if i - 1 == 0 {
                return Some(prefix_bytes(p, 1));
            }
            return Some(prefix_bytes(p, i - 1));
        }
        proof {
            assert(last_sep_before(p@, i as int) == last_sep_before(p@, i as int - 1));
        }
        i -= 1;
    }
    proof {
        assert(last_sep_before(p@, n as int) is None);
    }
    None
}

/// Resolve `path` to the nearest registered tree root, walking from the
/// path itself up through its parents: the first registered directory
/// wins, and its id and path are returned. `None` when no directory on
/// the chain, the filesystem root included, is registered.
pub fn find_root_for_path(db: &Database, path: &Vec<u8>) -> (r: Option<(u64, Vec<u8>)>)
    ensures
        match r {
            Some(found) => resolve_model(db@, path@) == Some((found.0, found.1@)),
            None => resolve_model(db@, path@) is None,
        },
    decreases path@.len(),
{
    match db.query_tree(path) {
        Some(id) => Some((id, clone_bytes(path))),
        None => {
            match parent_of_path(path) {
                Some(pp) => {
                    proof {
                        lemma_parent_of_shorter(path@);
                    }
                    find_root_for_path(db, &pp)
                },
                None => None,
            }
        },
    }
}

} // verus!
