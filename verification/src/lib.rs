//! Out-of-tree keeper: a content-addressed store of named scripts and files,
//! scoped to registered directory trees.
//!
//! The store keeps four tables: blobs (deduplicated byte contents), trees
//! (registered root directories, keyed by absolute path), and two parallel
//! name-binding tables (scripts and files) that associate a `(tree, name)`
//! pair with a blob. Path resolution walks a directory's ancestors to find
//! the nearest registered tree root, the run planner turns a stored script
//! into the exact invocation a host process should perform, and the prune
//! sweeps clear stale tree roots and orphaned blobs without ever touching a
//! blob that a script binding still references.

pub mod context;
pub mod database;
pub mod laws;
pub mod model;
pub mod prune;
pub mod resolve;
pub mod run;
