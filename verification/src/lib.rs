//! Branch classification and bulk deletion planning for a local repository.
//!
//! The library decides which local branches are candidates for removal and
//! keeps the record of a deletion batch. Reading the repository and removing
//! a branch are left to the caller, who hands in plain snapshots and reports
//! back the outcome of each removal.

pub mod cli;
pub mod git;
