//! Release automation for Cargo workspaces.

pub mod changelog;
pub mod document;
pub mod error;
pub mod flow;
pub mod git;
pub mod history;
pub mod internal;
pub mod laws;
pub mod normalize;
pub mod order;
pub mod path;
pub mod plan;
pub mod publish;
pub mod release;
pub mod report;
pub mod requirements;
pub mod rewrite;
pub mod settling;
pub mod text;
pub mod tree;
pub mod version;
pub mod versions;
pub mod workspace;
