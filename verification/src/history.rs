//! Since when the changes of a crate are, and which commits they are in.

use crate::error::{GitError, ReleaseError};
use crate::git::{CommitHistoryService, CommitRecord};
use crate::order;
use crate::plan::{CrateInfo, CrateReleaseNotes, CrateReleasePlan, PlannedCommit, ReleasePlan};
use crate::release;
use crate::text;
use crate::version;
use crate::version::Version;
use vstd::prelude::*;

verus! {

/// What the history answered when it was asked whether a tag exists.
pub open spec fn tag_answer<H: CommitHistoryService>(
    history: &H,
    path: Seq<char>,
    tag: Seq<char>,
    answer: Result<bool, GitError>,
) -> bool {
    exists|p: &str, t: &str|
        p@ == path && t@ == tag && #[trigger] call_ensures(H::tag_exists, (history, p, t), answer)
}

/// What the history answered when it was asked for the latest tag.
pub open spec fn latest_answer<H: CommitHistoryService>(
    history: &H,
    path: Seq<char>,
    answer: Result<Option<String>, GitError>,
) -> bool {
    exists|p: &str|
        p@ == path && #[trigger] call_ensures(H::latest_tag, (history, p), answer)
}

/// Which commit of a version is asked for.
#[derive(Clone, Copy)]
pub enum VersionCommit {
    /// The newest in which the version came into the manifest or left it. For the version
    /// that a crate has it is the one in which it came.
    Newest,
    /// The one in which the version first came into the manifest.
    First,
}

/// What the history answered when it was asked for a commit of a version.
pub open spec fn version_answer<H: CommitHistoryService>(
    history: &H,
    path: Seq<char>,
    manifest_path: Seq<char>,
    version: Seq<char>,
    which: VersionCommit,
    answer: Result<Option<String>, GitError>,
) -> bool {
    match which {
        VersionCommit::Newest => exists|p: &str, m: &str, v: &str|
            p@ == path && m@ == manifest_path && v@ == version && #[trigger] call_ensures(
                H::find_version_commit,
                (history, p, m, v),
                answer,
            ),
        VersionCommit::First => exists|p: &str, m: &str, v: &str|
            p@ == path && m@ == manifest_path && v@ == version && #[trigger] call_ensures(
                H::find_introducing_commit,
                (history, p, m, v),
                answer,
            ),
    }
}

/// What the history answered when it was asked for the version before a version.
pub open spec fn previous_answer<H: CommitHistoryService>(
    history: &H,
    path: Seq<char>,
    manifest_path: Seq<char>,
    version: Seq<char>,
    answer: Result<Option<String>, GitError>,
) -> bool {
    exists|p: &str, m: &str, v: &str|
        p@ == path && m@ == manifest_path && v@ == version && #[trigger] call_ensures(
            H::previous_version,
            (history, p, m, v),
            answer,
        )
}

/// The reference is the latest tag.
pub open spec fn latest_is_base<H: CommitHistoryService>(
    history: &H,
    path: Seq<char>,
    result: Result<Option<String>, ReleaseError>,
) -> bool {
    exists|latest: Result<Option<String>, GitError>|
        {
            &&& #[trigger] latest_answer(history, path, latest)
            &&& match latest {
                Ok(tag) => result == Ok::<Option<String>, ReleaseError>(tag),
                Err(failure) => result == Err::<Option<String>, ReleaseError>(
                    ReleaseError::History(failure),
                ),
            }
        }
}

/// The reference is the commit of a version that is asked for, or the latest tag where
/// there is no such commit.
pub open spec fn commit_is_base<H: CommitHistoryService>(
    history: &H,
    path: Seq<char>,
    manifest_path: Seq<char>,
    version: Seq<char>,
    which: VersionCommit,
    result: Result<Option<String>, ReleaseError>,
) -> bool {
    exists|commit: Result<Option<String>, GitError>|
        {
            &&& #[trigger] version_answer(history, path, manifest_path, version, which, commit)
            &&& match commit {
                Ok(Some(hash)) => result == Ok::<Option<String>, ReleaseError>(Some(hash)),
                Ok(None) => latest_is_base(history, path, result),
                Err(failure) => result == Err::<Option<String>, ReleaseError>(
                    ReleaseError::History(failure),
                ),
            }
        }
}

/// The reference is the tag of a version where it exists, else the commit of the version
/// that is asked for, else the latest tag.
pub open spec fn version_is_base<H: CommitHistoryService>(
    history: &H,
    path: Seq<char>,
    tag: Seq<char>,
    manifest_path: Seq<char>,
    version: Seq<char>,
    which: VersionCommit,
    result: Result<Option<String>, ReleaseError>,
) -> bool {
    exists|tagged: Result<bool, GitError>|
        {
            &&& #[trigger] tag_answer(history, path, tag, tagged)
            &&& match tagged {
                Ok(true) => result matches Ok(Some(found)) && found@ == tag,
                Ok(false) => commit_is_base(history, path, manifest_path, version, which, result),
                Err(failure) => result == Err::<Option<String>, ReleaseError>(
                    ReleaseError::History(failure),
                ),
            }
        }
}

/// The reference, once the history answered which tag is the latest.
pub fn base_after_latest(latest: Result<Option<String>, GitError>) -> (result: Result<
    Option<String>,
    ReleaseError,
>)
    ensures
        result == match latest {
            Ok(tag) => Ok::<Option<String>, ReleaseError>(tag),
            Err(failure) => Err::<Option<String>, ReleaseError>(ReleaseError::History(failure)),
        },
{
    match latest {
        Ok(tag) => Ok(tag),
        Err(failure) => Err(ReleaseError::History(failure)),
    }
}

/// The reference, once the history answered in which commit a version came; nothing where
/// the latest tag has to be asked for.
pub fn base_after_commit(commit: Result<Option<String>, GitError>) -> (result: Option<
    Result<Option<String>, ReleaseError>,
>)
    ensures
        result == match commit {
            Ok(Some(hash)) => Some(Ok::<Option<String>, ReleaseError>(Some(hash))),
            Ok(None) => None,
            Err(failure) => Some(
                Err::<Option<String>, ReleaseError>(ReleaseError::History(failure)),
            ),
        },
{
    match commit {
        Ok(Some(hash)) => Some(Ok(Some(hash))),
        Ok(None) => None,
        Err(failure) => Some(Err(ReleaseError::History(failure))),
    }
}

/// The reference, once the history answered whether a tag exists; nothing where the commit
/// of the version has to be asked for.
pub fn base_after_tag(tag: String, tagged: Result<bool, GitError>) -> (result: Option<
    Result<Option<String>, ReleaseError>,
>)
    ensures
        result == match tagged {
            Ok(true) => Some(Ok::<Option<String>, ReleaseError>(Some(tag))),
            Ok(false) => None,
            Err(failure) => Some(
                Err::<Option<String>, ReleaseError>(ReleaseError::History(failure)),
            ),
        },
{
    match tagged {
        Ok(true) => Some(Ok(Some(tag))),
        Ok(false) => None,
        Err(failure) => Some(Err(ReleaseError::History(failure))),
    }
}

/// The latest tag, as the history answered.
fn latest_base<H: CommitHistoryService>(history: &H, path: &str) -> (result: Result<
    Option<String>,
    ReleaseError,
>)
    ensures
        latest_is_base(history, path@, result),
{
    let latest = history.latest_tag(path);
    assert(latest_answer(history, path@, latest));
    base_after_latest(latest)
}

/// The tag of a version where it exists, else the commit of the version that is asked for,
/// else the latest tag.
fn version_base<H: CommitHistoryService>(
    history: &H,
    path: &str,
    tag: String,
    manifest_path: &str,
    version: &str,
    which: VersionCommit,
) -> (result: Result<Option<String>, ReleaseError>)
    ensures
        version_is_base(history, path@, tag@, manifest_path@, version@, which, result),
{
    let tagged = history.tag_exists(path, tag.as_str());
    assert(tag_answer(history, path@, tag@, tagged));
    if let Some(result) = base_after_tag(tag, tagged) {
        return result;
    }
    let commit = match which {
        VersionCommit::Newest => history.find_version_commit(path, manifest_path, version),
        VersionCommit::First => history.find_introducing_commit(path, manifest_path, version),
    };
    assert(version_answer(history, path@, manifest_path@, version@, which, commit));
    if let Some(result) = base_after_commit(commit) {
        return result;
    }
    latest_base(history, path)
}

/// Since when the changes of a crate are: since the tag that was asked for; else since the
/// version that the crate has.
pub open spec fn base_resolved<H: CommitHistoryService>(
    history: &H,
    path: Seq<char>,
    from_tag: Option<Seq<char>>,
    tag_template: Seq<char>,
    info: CrateInfo,
    crate_count: nat,
    result: Result<Option<String>, ReleaseError>,
) -> bool {
    match from_tag {
        Some(tag) => result matches Ok(Some(found)) && found@ == tag,
        None => if crate_count > 1 && !release::names_crate(tag_template) {
            result == Err::<Option<String>, ReleaseError>(ReleaseError::TagTemplate)
        } else {
            version_is_base(
                history,
                path,
                release::tag_text(tag_template, info.name@, info.version@),
                info.manifest_path@,
                version::version_text(info.version@),
                VersionCommit::Newest,
                result,
            )
        },
    }
}

/// Since when the changes of a crate are: since the tag that was asked for; else since the
/// version that the crate has.
pub fn resolve_base_reference<H: CommitHistoryService>(
    history: &H,
    path: &str,
    from_tag: Option<&str>,
    tag_template: &str,
    crate_info: &CrateInfo,
    crate_count: usize,
) -> (result: Result<Option<String>, ReleaseError>)
    ensures
        base_resolved(
            history,
            path@,
            text::borrowed_text(from_tag),
            tag_template@,
            *crate_info,
            crate_count as nat,
            result,
        ),
{
    if let Some(tag) = from_tag {
        return Ok(Some(tag.to_owned()));
    }
    let expected_tag = match release::render_tag_name(
        tag_template,
        crate_info.name.as_str(),
        &crate_info.version,
        crate_count,
    ) {
        Ok(tag) => tag,
        Err(error) => {
            return Err(error);
        },
    };
    let version = crate_info.version.to_text();
    version_base(
        history,
        path,
        expected_tag,
        crate_info.manifest_path.as_str(),
        version.as_str(),
        VersionCommit::Newest,
    )
}

/// How the search for the version before goes on.
#[derive(Debug)]
pub enum PreviousStep {
    /// There was no version before: the latest tag is asked for.
    Latest,
    /// There was one, with this tag.
    Version { version: Version, tag: String },
    /// It cannot go on.
    Failed(ReleaseError),
}

/// How the search goes on once the history answered which version was before.
pub open spec fn previous_step(
    previous: Result<Option<String>, GitError>,
    tag_template: Seq<char>,
    info: CrateInfo,
    crate_count: nat,
    step: PreviousStep,
) -> bool {
    match previous {
        Ok(Some(found)) => match version::semver_parse(found@) {
            Ok(before) => if crate_count > 1 && !release::names_crate(tag_template) {
                step == PreviousStep::Failed(ReleaseError::TagTemplate)
            } else {
                step matches PreviousStep::Version { version, tag } && version@ == before && tag@
                    == release::tag_text(tag_template, info.name@, before)
            },
            Err(message) => step matches PreviousStep::Failed(
                ReleaseError::InvalidPreviousVersion { crate_name, path, detail },
            ) && crate_name@ == info.name@ && path@ == info.manifest_path@ && detail@ == message,
        },
        Ok(None) => step == PreviousStep::Latest,
        Err(failure) => step == PreviousStep::Failed(ReleaseError::History(failure)),
    }
}

/// How the search goes on once the history answered which version was before.
pub fn after_previous_version(
    previous: Result<Option<String>, GitError>,
    tag_template: &str,
    crate_info: &CrateInfo,
    crate_count: usize,
) -> (step: PreviousStep)
    ensures
        previous_step(previous, tag_template@, *crate_info, crate_count as nat, step),
{
    let found = match previous {
        Ok(Some(found)) => found,
        Ok(None) => {
            return PreviousStep::Latest;
        },
        Err(failure) => {
            return PreviousStep::Failed(ReleaseError::History(failure));
        },
    };
    let version = match Version::parse(found.as_str()) {
        Ok(version) => version,
        Err(detail) => {
            return PreviousStep::Failed(
                ReleaseError::InvalidPreviousVersion {
                    crate_name: crate_info.name.clone(),
                    path: crate_info.manifest_path.clone(),
                    detail,
                },
            );
        },
    };
    match release::render_tag_name(tag_template, crate_info.name.as_str(), &version, crate_count) {
        Ok(tag) => PreviousStep::Version { version, tag },
        Err(error) => PreviousStep::Failed(error),
    }
}

/// Since when the changes are that the version of a crate was released with: since the
/// version before it came, and since the latest tag where there was none before it.
pub open spec fn previous_base_resolved<H: CommitHistoryService>(
    history: &H,
    path: Seq<char>,
    tag_template: Seq<char>,
    info: CrateInfo,
    crate_count: nat,
    result: Result<Option<String>, ReleaseError>,
) -> bool {
    exists|previous: Result<Option<String>, GitError>, step: PreviousStep|
        {
            &&& previous_answer(
                history,
                path,
                info.manifest_path@,
                version::version_text(info.version@),
                previous,
            )
            &&& #[trigger] previous_step(previous, tag_template, info, crate_count, step)
            &&& match step {
                PreviousStep::Latest => latest_is_base(history, path, result),
                PreviousStep::Version { version, tag } => version_is_base(
                    history,
                    path,
                    tag@,
                    info.manifest_path@,
                    version::version_text(version@),
                    VersionCommit::First,
                    result,
                ),
                PreviousStep::Failed(error) => result == Err::<Option<String>, ReleaseError>(error),
            }
        }
}

/// Since when the changes are that the version of a crate was released with: since the
/// version before it came, and since the latest tag where there was none before it.
pub fn resolve_previous_base_reference<H: CommitHistoryService>(
    history: &H,
    path: &str,
    tag_template: &str,
    crate_info: &CrateInfo,
    crate_count: usize,
) -> (result: Result<Option<String>, ReleaseError>)
    ensures
        previous_base_resolved(
            history,
            path@,
            tag_template@,
            *crate_info,
            crate_count as nat,
            result,
        ),
{
    let version = crate_info.version.to_text();
    let previous = history.previous_version(
        path,
        crate_info.manifest_path.as_str(),
        version.as_str(),
    );
    assert(previous_answer(
        history,
        path@,
        crate_info.manifest_path@,
        version::version_text(crate_info.version@),
        previous,
    ));
    let step = after_previous_version(previous, tag_template, crate_info, crate_count);
    match step {
        PreviousStep::Latest => latest_base(history, path),
        PreviousStep::Version { version, tag } => {
            let previous_text = version.to_text();
            version_base(
                history,
                path,
                tag,
                crate_info.manifest_path.as_str(),
                previous_text.as_str(),
                VersionCommit::First,
            )
        },
        PreviousStep::Failed(error) => Err(error),
    }
}

/// The changes of a crate: since when they are, and the commits they may be in.
#[derive(Debug)]
pub struct CrateHistory {
    pub crate_name: String,
    pub manifest_path: String,
    pub version: Version,
    pub base_ref: Option<String>,
    pub commits: Vec<CommitRecord>,
}

/// Which changes of a crate are asked for.
#[derive(Clone, Copy)]
pub enum Changes<'a> {
    /// Those since a tag, or since the version that the crate has.
    Unreleased { from_tag: Option<&'a str> },
    /// Those that the version of the crate was released with.
    Released,
}

/// What the history answered when it was asked for the commits since a reference.
pub open spec fn commits_answer<H: CommitHistoryService>(
    history: &H,
    path: Seq<char>,
    base_ref: Option<Seq<char>>,
    answer: Result<Vec<CommitRecord>, GitError>,
) -> bool {
    exists|p: &str, b: Option<&str>|
        p@ == path && text::borrowed_text(b) == base_ref && #[trigger] call_ensures(
            H::collect_commits,
            (history, p, b),
            answer,
        )
}

/// Since when the changes of a crate are that are asked for.
pub open spec fn changes_resolved<H: CommitHistoryService>(
    history: &H,
    path: Seq<char>,
    changes: Changes<'_>,
    tag_template: Seq<char>,
    info: CrateInfo,
    crate_count: nat,
    result: Result<Option<String>, ReleaseError>,
) -> bool {
    match changes {
        Changes::Unreleased { from_tag } => base_resolved(
            history,
            path,
            text::borrowed_text(from_tag),
            tag_template,
            info,
            crate_count,
            result,
        ),
        Changes::Released => previous_base_resolved(
            history,
            path,
            tag_template,
            info,
            crate_count,
            result,
        ),
    }
}

/// The changes are those of the crate, since the reference, in the commits.
pub open spec fn changes_of(
    entry: CrateHistory,
    info: CrateInfo,
    base_ref: Option<String>,
    commits: Vec<CommitRecord>,
) -> bool {
    &&& entry.crate_name@ == info.name@
    &&& entry.manifest_path@ == info.manifest_path@
    &&& entry.version@ == info.version@
    &&& entry.base_ref == base_ref
    &&& entry.commits == commits
}

/// The history answered for a crate with a reference and the commits since it.
pub open spec fn crate_answered<H: CommitHistoryService>(
    history: &H,
    path: Seq<char>,
    changes: Changes<'_>,
    tag_template: Seq<char>,
    info: CrateInfo,
    crate_count: nat,
    base_ref: Option<String>,
    commits: Vec<CommitRecord>,
) -> bool {
    &&& changes_resolved(history, path, changes, tag_template, info, crate_count, Ok(base_ref))
    &&& commits_answer(history, path, text::maybe_text(base_ref), Ok(commits))
}

/// The histories are those of the first `n` crates, in order; a crate without commits has
/// none.
pub open spec fn histories_of<H: CommitHistoryService>(
    history: &H,
    path: Seq<char>,
    changes: Changes<'_>,
    tag_template: Seq<char>,
    crates: Seq<CrateInfo>,
    n: nat,
    found: Seq<CrateHistory>,
) -> bool
    decreases n,
{
    if n == 0 {
        found.len() == 0
    } else {
        exists|base_ref: Option<String>, commits: Vec<CommitRecord>|
            {
                &&& #[trigger] crate_answered(
                    history,
                    path,
                    changes,
                    tag_template,
                    crates[n - 1],
                    crates.len(),
                    base_ref,
                    commits,
                )
                &&& if commits@.len() == 0 {
                    histories_of(
                        history,
                        path,
                        changes,
                        tag_template,
                        crates,
                        (n - 1) as nat,
                        found,
                    )
                } else {
                    &&& found.len() > 0
                    &&& changes_of(found.last(), crates[n - 1], base_ref, commits)
                    &&& histories_of(
                        history,
                        path,
                        changes,
                        tag_template,
                        crates,
                        (n - 1) as nat,
                        found.drop_last(),
                    )
                }
            }
    }
}

/// The history did not answer for a crate.
pub open spec fn crate_failed<H: CommitHistoryService>(
    history: &H,
    path: Seq<char>,
    changes: Changes<'_>,
    tag_template: Seq<char>,
    info: CrateInfo,
    crate_count: nat,
    error: ReleaseError,
) -> bool {
    ||| changes_resolved(history, path, changes, tag_template, info, crate_count, Err(error))
    ||| exists|base_ref: Option<String>, failure: GitError|
        {
            &&& #[trigger] commits_answer(
                history,
                path,
                text::maybe_text(base_ref),
                Err(failure),
            )
            &&& changes_resolved(
                history,
                path,
                changes,
                tag_template,
                info,
                crate_count,
                Ok(base_ref),
            )
            &&& error == ReleaseError::History(failure)
        }
}

/// What came of asking for the changes of all crates: that there are no crates, the error
/// of the first crate that the history did not answer for, or the histories of all.
pub open spec fn histories_gathered<H: CommitHistoryService>(
    history: &H,
    path: Seq<char>,
    changes: Changes<'_>,
    tag_template: Seq<char>,
    crates: Seq<CrateInfo>,
    result: Result<Vec<CrateHistory>, ReleaseError>,
) -> bool {
    if crates.len() == 0 {
        result == Err::<Vec<CrateHistory>, ReleaseError>(ReleaseError::NoPackages)
    } else {
        match result {
            Ok(found) => histories_of(
                history,
                path,
                changes,
                tag_template,
                crates,
                crates.len(),
                found@,
            ),
            Err(error) => exists|n: nat, before: Seq<CrateHistory>|
                #![trigger histories_of(
                    history,
                    path,
                    changes,
                    tag_template,
                    crates,
                    n,
                    before,
                )]
                {
                    &&& n < crates.len()
                    &&& histories_of(history, path, changes, tag_template, crates, n, before)
                    &&& crate_failed(
                        history,
                        path,
                        changes,
                        tag_template,
                        crates[n as int],
                        crates.len(),
                        error,
                    )
                },
        }
    }
}

fn resolve_changes<H: CommitHistoryService>(
    history: &H,
    path: &str,
    changes: Changes<'_>,
    tag_template: &str,
    crate_info: &CrateInfo,
    crate_count: usize,
) -> (result: Result<Option<String>, ReleaseError>)
    ensures
        changes_resolved(
            history,
            path@,
            changes,
            tag_template@,
            *crate_info,
            crate_count as nat,
            result,
        ),
{
    match changes {
        Changes::Unreleased { from_tag } => resolve_base_reference(
            history,
            path,
            from_tag,
            tag_template,
            crate_info,
            crate_count,
        ),
        Changes::Released => resolve_previous_base_reference(
            history,
            path,
            tag_template,
            crate_info,
            crate_count,
        ),
    }
}

fn gather_histories<H: CommitHistoryService>(
    history: &H,
    path: &str,
    changes: Changes<'_>,
    tag_template: &str,
    crates: &Vec<CrateInfo>,
) -> (result: Result<Vec<CrateHistory>, ReleaseError>)
    ensures
        histories_gathered(history, path@, changes, tag_template@, crates@, result),
{
    if crates.len() == 0 {
        return Err(ReleaseError::NoPackages);
    }
    let mut found: Vec<CrateHistory> = Vec::new();
    let mut n: usize = 0;
    while n < crates.len()
        invariant
            n <= crates.len(),
            crates.len() > 0,
            histories_of(history, path@, changes, tag_template@, crates@, n as nat, found@),
        decreases crates.len() - n,
    {
        let ghost before = found@;
        let info = &crates[n];
        let base_ref = match resolve_changes(
            history,
            path,
            changes,
            tag_template,
            info,
            crates.len(),
        ) {
            Ok(base_ref) => base_ref,
            Err(error) => {
                return Err(error);
            },
        };
        let from = text::borrow_text(&base_ref);
        let answer = history.collect_commits(path, from);
        assert(commits_answer(history, path@, text::maybe_text(base_ref), answer));
        let commits = match answer {
            Ok(commits) => commits,
            Err(failure) => {
                return Err(ReleaseError::History(failure));
            },
        };
        let ghost asked_base = base_ref;
        let ghost answered = commits;
        if commits.len() > 0 {
            found.push(
                CrateHistory {
                    crate_name: info.name.clone(),
                    manifest_path: info.manifest_path.clone(),
                    version: info.version.clone(),
                    base_ref,
                    commits,
                },
            );
            assert(found@.drop_last() =~= before);
        }
        proof {
            let next = (n + 1) as nat;
            assert(crate_answered(
                history,
                path@,
                changes,
                tag_template@,
                crates@[next - 1],
                crates@.len(),
                asked_base,
                answered,
            ));
        }
        n += 1;
    }
    Ok(found)
}

/// The unreleased changes of all crates, from the history.
pub fn build_crate_release_plans_with_history<H: CommitHistoryService>(
    history: &H,
    path: &str,
    from_tag: Option<&str>,
    tag_template: &str,
    crates: &Vec<CrateInfo>,
) -> (result: Result<Vec<CrateHistory>, ReleaseError>)
    ensures
        histories_gathered(
            history,
            path@,
            Changes::Unreleased { from_tag },
            tag_template@,
            crates@,
            result,
        ),
{
    gather_histories(history, path, Changes::Unreleased { from_tag }, tag_template, crates)
}

/// The changes that the versions of all crates were released with, from the history.
pub fn build_crate_release_notes_with_history<H: CommitHistoryService>(
    history: &H,
    path: &str,
    tag_template: &str,
    crates: &Vec<CrateInfo>,
) -> (result: Result<Vec<CrateHistory>, ReleaseError>)
    ensures
        histories_gathered(history, path@, Changes::Released, tag_template@, crates@, result),
{
    gather_histories(history, path, Changes::Released, tag_template, crates)
}

/// The plans of the crates that have one.
pub open spec fn plans_of(histories: Seq<CrateHistory>, planned: Seq<Option<ReleasePlan>>) -> Seq<
    CrateReleasePlan,
>
    decreases histories.len(),
{
    if histories.len() == 0 {
        Seq::empty()
    } else {
        let before = plans_of(histories.drop_last(), planned.drop_last());
        match planned.last() {
            Some(plan) => before.push(
                CrateReleasePlan {
                    crate_name: histories.last().crate_name,
                    manifest_path: histories.last().manifest_path,
                    plan,
                },
            ),
            None => before,
        }
    }
}

/// The plans of the crates that have one, by the paths of their manifests.
pub fn build_crate_release_plans(
    histories: Vec<CrateHistory>,
    planned: Vec<Option<ReleasePlan>>,
) -> (result: Vec<CrateReleasePlan>)
    requires
        histories.len() == planned.len(),
    ensures
        order::sorted_stably(plans_of(histories@, planned@), result@),
{
    let ghost all = histories@;
    let ghost all_planned = planned@;
    let mut histories = histories;
    let mut planned = planned;
    let mut plans: Vec<CrateReleasePlan> = Vec::new();
    let ghost mut n: int = 0;
    proof {
        assert(all.skip(0) =~= all);
        assert(all_planned.skip(0) =~= all_planned);
    }
    while histories.len() > 0
        invariant
            0 <= n <= all.len() == all_planned.len(),
            histories@ == all.skip(n),
            planned@ == all_planned.skip(n),
            plans@ == plans_of(all.take(n), all_planned.take(n)),
        decreases histories.len(),
    {
        let entry = histories.remove(0);
        let plan = planned.remove(0);
        proof {
            assert(histories@ =~= all.skip(n + 1));
            assert(planned@ =~= all_planned.skip(n + 1));
            assert(all.take(n + 1).drop_last() =~= all.take(n));
            assert(all_planned.take(n + 1).drop_last() =~= all_planned.take(n));
            n = n + 1;
        }
        if let Some(plan) = plan {
            plans.push(
                CrateReleasePlan {
                    crate_name: entry.crate_name,
                    manifest_path: entry.manifest_path,
                    plan,
                },
            );
        }
    }
    assert(all.take(n) =~= all);
    assert(all_planned.take(n) =~= all_planned);
    order::sort(plans)
}

/// The notes of the crates that have commits.
pub open spec fn notes_of(
    histories: Seq<CrateHistory>,
    commits: Seq<Vec<PlannedCommit>>,
) -> Seq<CrateReleaseNotes>
    decreases histories.len(),
{
    if histories.len() == 0 {
        Seq::empty()
    } else {
        let before = notes_of(histories.drop_last(), commits.drop_last());
        if commits.last()@.len() == 0 {
            before
        } else {
            before.push(
                CrateReleaseNotes {
                    crate_name: histories.last().crate_name,
                    manifest_path: histories.last().manifest_path,
                    base_ref: histories.last().base_ref,
                    commits: commits.last(),
                },
            )
        }
    }
}

/// The notes of the crates that have commits, by the paths of their manifests.
pub fn build_crate_release_notes(
    histories: Vec<CrateHistory>,
    commits: Vec<Vec<PlannedCommit>>,
) -> (result: Vec<CrateReleaseNotes>)
    requires
        histories.len() == commits.len(),
    ensures
        order::sorted_stably(notes_of(histories@, commits@), result@),
{
    let ghost all = histories@;
    let ghost all_commits = commits@;
    let mut histories = histories;
    let mut commits = commits;
    let mut notes: Vec<CrateReleaseNotes> = Vec::new();
    let ghost mut n: int = 0;
    proof {
        assert(all.skip(0) =~= all);
        assert(all_commits.skip(0) =~= all_commits);
    }
    while histories.len() > 0
        invariant
            0 <= n <= all.len() == all_commits.len(),
            histories@ == all.skip(n),
            commits@ == all_commits.skip(n),
            notes@ == notes_of(all.take(n), all_commits.take(n)),
        decreases histories.len(),
    {
        let entry = histories.remove(0);
        let own = commits.remove(0);
        proof {
            assert(histories@ =~= all.skip(n + 1));
            assert(commits@ =~= all_commits.skip(n + 1));
            assert(all.take(n + 1).drop_last() =~= all.take(n));
            assert(all_commits.take(n + 1).drop_last() =~= all_commits.take(n));
            n = n + 1;
        }
        if own.len() > 0 {
            notes.push(
                CrateReleaseNotes {
                    crate_name: entry.crate_name,
                    manifest_path: entry.manifest_path,
                    base_ref: entry.base_ref,
                    commits: own,
                },
            );
        }
    }
    assert(all.take(n) =~= all);
    assert(all_commits.take(n) =~= all_commits);
    order::sort(notes)
}

} // verus!
