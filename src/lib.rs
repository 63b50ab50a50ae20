//! Zip archive creation and extraction: the decisions of walking a tree,
//! the entry names, the path-safety rule, and the archive codec built on the
//! `zip` crate, each with its contract.
pub mod archive;
pub mod paths;
pub mod provider;
pub mod walk;
