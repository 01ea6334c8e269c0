//! A depth- and cycle-bounded directory size scanner.
//!
//! The traversal engine walks a filesystem tree, accumulating byte totals
//! while honouring a maximum descent depth, a follow-symlinks policy, and a
//! visited set that prevents any canonical node from being processed twice.
//! Filesystem access itself happens outside this crate; the engine here runs
//! on an explicit in-memory picture of the tree, and the helper types
//! ([`config::TraversalConfig`], [`visited::VisitedSet`], the size formatter)
//! serve a driver that performs the real directory reads.

pub mod config;
pub mod format;
pub mod engine;
pub mod laws;
pub mod model;
pub mod policy;
pub mod tree;
pub mod visited;
pub mod walk;
