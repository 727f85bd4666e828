//! What the operations of a release promise, in terms of what goes in and what comes out.

pub mod affected;
pub mod commands;
pub mod counting;
pub mod discovery;
pub mod edges;
pub mod lockfile;
pub mod notes;
pub mod paths;
pub mod payload;
pub mod planning;
pub mod publishing;
pub mod references;
pub mod reports;
pub mod rewriting;
pub mod tags;
pub mod trees;
pub mod words;
