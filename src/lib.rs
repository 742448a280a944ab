//! A registry of bare repositories kept as a tree of namespace directories.
//!
//! The library decides everything that does not touch the disk: which names
//! are acceptable, where a repository is stored, how each directory entry met
//! during discovery is classified, and what record it yields. The caller
//! performs the filesystem and backend operations that these decisions ask for.
pub mod name_policy;
pub mod listing;
pub mod repository;
pub mod walk;
