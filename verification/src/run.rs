//! Planning the run of a stored script.
//!
//! Running a script means materializing its bytes into a freshly created
//! executable temporary, spawning it (or replacing the current process
//! image) with the user's arguments appended after the executable's own
//! path, one environment variable carrying the resolved tree root, and
//! passing the child's exit code through verbatim. The spawning itself is
//! the host process's work; what stands here is everything that decides
//! what gets spawned: the looked-up bytes, the argument order, the
//! environment variable, and the exit-code mapping.

use crate::database::{find_binding_index, Database, NoSuchScriptForCurrentTree, StoreError};
use crate::model::{blob_id_valid, find_binding, get_script_model};
use vstd::prelude::*;

verus! {

/// Everything the host needs to run one stored script: the bytes to
/// materialize, the arguments to append after the executable's path, and
/// the value for the tree-root environment variable.
#[derive(Debug, PartialEq, Eq)]
pub struct Invocation {
    pub script: Vec<u8>,
    pub args: Vec<Vec<u8>>,
    pub tree_root: Vec<u8>,
}

/// The name of the environment variable through which a running script
/// sees the absolute path of its resolved tree root. It is always set,
/// even when the value is empty.
pub fn tree_root_env_var() -> (s: &'static str)
    ensures
        s@ == "OTKEEP_TREE_ROOT"@,
{
    "OTKEEP_TREE_ROOT"
}

/// Exit code for the invoking process: the child's own code passed
/// through verbatim — a nonzero exit is not an error — and 1 for a child
/// killed by a signal, which has no code of its own.
pub fn exit_code_from_status(code: Option<i32>) -> (r: i32)
    ensures
        r == (match code {
            Some(c) => c,
            None => 1i32,
        }),
{
    match code {
        Some(c) => c,
        None => 1,
    }
}

/// The full argument vector of the child process: the executable's own
/// path first, then the user-supplied arguments in their given order.
pub fn full_argv(exec_path: Vec<u8>, inv: &Invocation) -> (argv: Vec<Vec<u8>>)
    ensures
        argv.deep_view() == inv.args.deep_view().insert(0, exec_path@),
{
    let ghost target = inv.args.deep_view().insert(0, exec_path@);
    let n = inv.args.len();
    let mut argv: Vec<Vec<u8>> = Vec::new();
    argv.push(exec_path);
    proof {
        assert(argv.deep_view() =~~= target.subrange(0, 1));
    }
    let mut i: usize = 0;
    while i < n
        invariant
            i <= n,
            n == inv.args@.len(),
            target == inv.args.deep_view().insert(0, argv@[0]@),
            argv@.len() == i + 1,
            argv.deep_view() == target.subrange(0, i as int + 1),
        decreases n - i,
    {
        proof {
            assert(target[i as int + 1] == inv.args@[i as int]@);
        }
        argv.push(crate::database::clone_bytes(&inv.args[i]));
        proof {
            assert(argv.deep_view() =~~= target.subrange(0, i as int + 2));
        }
        i += 1;
    }
    proof {
        assert(argv.deep_view() =~~= target);
    }
    argv
}

impl Database {
    /// Plan the run of script `(tree_id, name)` with the given arguments
    /// and resolved tree root: the invocation holds exactly the stored
    /// bytes, the arguments unchanged and in order, and the root for the
    /// environment variable. The distinguished `NoSuchScript` error
    /// reports an absent name — so the host can offer the list of
    /// available scripts — while `NotFound` reports a tombstoned blob.
    pub fn run_script(&self, tree_id: u64, name: &str, args: Vec<Vec<u8>>, tree_root: Vec<u8>)
        -> (r: Result<Invocation, StoreError>)
        requires
            self.wf(),
        ensures
            match r {
                Ok(inv) => get_script_model(self@, tree_id, name@) == Some(inv.script@)
                    && inv.args.deep_view() == args.deep_view() && inv.tree_root@ == tree_root@,
                Err(e) => {
                    ||| (e == StoreError::NoSuchScript(NoSuchScriptForCurrentTree) && find_binding(
                        self@.scripts,
                        tree_id,
                        name@,
                    ) is None)
                    ||| (e == StoreError::NotFound && find_binding(
                        self@.scripts,
                        tree_id,
                        name@,
                    ) is Some && get_script_model(self@, tree_id, name@) is None)
                },
            },
    {
        let key: String = name.to_owned();
        match find_binding_index(&self.scripts, tree_id, &key) {
            None => Err(StoreError::NoSuchScript(NoSuchScriptForCurrentTree)),
            Some(i) => {
                let blob_id = self.scripts[i].blob_id;
                proof {
                    assert(self@.scripts[i as int] == self.scripts@[i as int]@);
                    assert(self@.scripts[i as int].blob_id == blob_id);
                    assert(blob_id_valid(self@, blob_id));
                }
                match self.fetch_blob(blob_id) {
                    Ok(script) => Ok(Invocation { script, args, tree_root }),
                    Err(_) => Err(StoreError::NotFound),
                }
            },
        }
    }
}

} // verus!
