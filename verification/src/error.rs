//! Why a release cannot go on.

use vstd::prelude::*;

verus! {

/// A git command that failed, with its message.
#[derive(Debug, PartialEq, Eq)]
pub struct GitError {
    pub message: String,
}

/// Why a release cannot go on.
#[derive(Debug, PartialEq, Eq)]
pub enum ReleaseError {
    /// The repository holds no package.
    NoPackages,
    /// Several crates would get tags of one name.
    TagTemplate,
    /// A tag that was to be created is there already.
    TagExists { tag: String },
    /// A file is not TOML.
    InvalidManifest { path: String, detail: String },
    /// The version of a package is not a semantic version.
    InvalidVersion { path: String, detail: String },
    /// The version that a package had before is not a semantic version.
    InvalidPreviousVersion { crate_name: String, path: String, detail: String },
    /// The requirement of an internal dependency cannot be rewritten.
    InvalidRequirement { dependency: String, path: String, detail: String },
    /// Git did not say whether there are staged changes.
    StagedChanges,
    /// No manifest has a version to update.
    NothingToUpdate,
    /// Internal dependencies state other requirements than they should.
    DependencyDrift,
    /// Git failed.
    History(GitError),
}

/// What an error says.
pub open spec fn message_of(error: ReleaseError) -> Seq<char> {
    match error {
        ReleaseError::NoPackages => "no Cargo package manifests found"@,
        ReleaseError::TagTemplate =>
            "release.tag_template must include '{ crate }' when multiple crates are released"@,
        ReleaseError::TagExists { tag } => "tag "@ + tag@ + " already exists"@,
        ReleaseError::InvalidManifest { path, detail } => "failed parsing "@ + path@ + ": "@
            + detail@,
        ReleaseError::InvalidVersion { path, detail } => "invalid semver version in "@ + path@
            + ": "@ + detail@,
        ReleaseError::InvalidPreviousVersion { crate_name, path, detail } =>
            "invalid previous version for "@ + crate_name@ + " in "@ + path@ + ": "@ + detail@,
        ReleaseError::InvalidRequirement { dependency, path, detail } =>
            "failed parsing internal dependency requirement for "@ + dependency@ + " in "@ + path@
                + ": "@ + detail@,
        ReleaseError::StagedChanges => "failed checking staged changes"@,
        ReleaseError::NothingToUpdate => "no Cargo.toml version fields found to update"@,
        ReleaseError::DependencyDrift => "internal dependency manifests require updates"@,
        ReleaseError::History(failure) => failure.message@,
    }
}

impl ReleaseError {
    /// What the error says, its cause included.
    pub fn message(&self) -> (result: String)
        ensures
            result@ == message_of(*self),
    {
        match self {
            ReleaseError::NoPackages => "no Cargo package manifests found".to_owned(),
            ReleaseError::TagTemplate =>
                "release.tag_template must include '{ crate }' when multiple crates are released".to_owned(),
            ReleaseError::TagExists { tag } => "tag ".to_owned().concat(tag.as_str()).concat(
                " already exists",
            ),
            ReleaseError::InvalidManifest { path, detail } => "failed parsing ".to_owned().concat(
                path.as_str(),
            ).concat(": ").concat(detail.as_str()),
            ReleaseError::InvalidVersion { path, detail } =>
                "invalid semver version in ".to_owned().concat(path.as_str()).concat(": ").concat(
                    detail.as_str(),
                ),
            ReleaseError::InvalidPreviousVersion { crate_name, path, detail } =>
                "invalid previous version for ".to_owned().concat(crate_name.as_str()).concat(
                    " in ",
                ).concat(path.as_str()).concat(": ").concat(detail.as_str()),
            ReleaseError::InvalidRequirement { dependency, path, detail } =>
                "failed parsing internal dependency requirement for ".to_owned().concat(
                    dependency.as_str(),
                ).concat(" in ").concat(path.as_str()).concat(": ").concat(detail.as_str()),
            ReleaseError::StagedChanges => "failed checking staged changes".to_owned(),
            ReleaseError::NothingToUpdate =>
                "no Cargo.toml version fields found to update".to_owned(),
            ReleaseError::DependencyDrift =>
                "internal dependency manifests require updates".to_owned(),
            ReleaseError::History(failure) => failure.message.clone(),
        }
    }
}

} // verus!
