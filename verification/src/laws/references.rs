//! Since when the changes of crates are, by the answers of the history.

use crate::error::{GitError, ReleaseError};
use crate::git::{CommitHistoryService, CommitRecord};
use crate::history;
use crate::history::{Changes, CrateHistory, PreviousStep};
use crate::laws::counting;
use crate::order;
use crate::order::Ranked;
use crate::path;
use crate::plan::{CrateInfo, CrateReleaseNotes, CrateReleasePlan, PlannedCommit, ReleasePlan};
use crate::release;
use crate::text;
use crate::text::Rank;
use crate::version;
use crate::version::{Version, VersionView};
use vstd::prelude::*;

verus! {

/// Asked whether the tag exists, the history gives the answer.
pub open spec fn says_of_tag<H: CommitHistoryService>(
    history: &H,
    path: Seq<char>,
    tag: Seq<char>,
    answer: Result<bool, GitError>,
) -> bool {
    forall|p: &str, t: &str, given: Result<bool, GitError>|
        p@ == path && t@ == tag && #[trigger] call_ensures(H::tag_exists, (history, p, t), given)
            ==> given == answer
}

/// Asked for the newest commit of a version in a manifest, the history gives the answer.
pub open spec fn says_of_newest<H: CommitHistoryService>(
    history: &H,
    path: Seq<char>,
    manifest: Seq<char>,
    number: Seq<char>,
    answer: Result<Option<String>, GitError>,
) -> bool {
    forall|p: &str, m: &str, v: &str, given: Result<Option<String>, GitError>|
        p@ == path && m@ == manifest && v@ == number && #[trigger] call_ensures(
            H::find_version_commit,
            (history, p, m, v),
            given,
        ) ==> given == answer
}

/// Asked for the first commit of a version in a manifest, the history gives the answer.
pub open spec fn says_of_first<H: CommitHistoryService>(
    history: &H,
    path: Seq<char>,
    manifest: Seq<char>,
    number: Seq<char>,
    answer: Result<Option<String>, GitError>,
) -> bool {
    forall|p: &str, m: &str, v: &str, given: Result<Option<String>, GitError>|
        p@ == path && m@ == manifest && v@ == number && #[trigger] call_ensures(
            H::find_introducing_commit,
            (history, p, m, v),
            given,
        ) ==> given == answer
}

/// Asked for the version before a version, the history gives the answer.
pub open spec fn says_of_previous<H: CommitHistoryService>(
    history: &H,
    path: Seq<char>,
    manifest: Seq<char>,
    number: Seq<char>,
    answer: Result<Option<String>, GitError>,
) -> bool {
    forall|p: &str, m: &str, v: &str, given: Result<Option<String>, GitError>|
        p@ == path && m@ == manifest && v@ == number && #[trigger] call_ensures(
            H::previous_version,
            (history, p, m, v),
            given,
        ) ==> given == answer
}

/// Asked for the latest tag, the history gives the answer.
pub open spec fn says_of_latest<H: CommitHistoryService>(
    history: &H,
    path: Seq<char>,
    answer: Result<Option<String>, GitError>,
) -> bool {
    forall|p: &str, given: Result<Option<String>, GitError>|
        p@ == path && #[trigger] call_ensures(H::latest_tag, (history, p), given) ==> given
            == answer
}

/// The result that an answer leads to.
pub open spec fn handed_on(answer: Result<Option<String>, GitError>) -> Result<
    Option<String>,
    ReleaseError,
> {
    match answer {
        Ok(found) => Ok(found),
        Err(failure) => Err(ReleaseError::History(failure)),
    }
}

/// A tag that is asked for is the base, whatever the history holds.
pub proof fn a_given_tag_is_the_base<H: CommitHistoryService>(
    history: &H,
    path: &str,
    tag: &str,
    tag_template: &str,
    info: &CrateInfo,
    crate_count: usize,
    result: Result<Option<String>, ReleaseError>,
)
    requires
        call_ensures(
            history::resolve_base_reference::<H>,
            (history, path, Some(tag), tag_template, info, crate_count),
            result,
        ),
    ensures
        result matches Ok(Some(found)) && found@ == tag@,
{
}

/// Else the base is the tag of the version that the crate has, where the history has it;
/// else the newest commit of that version in the manifest of the crate; else the latest tag.
/// A failure of the history is handed on.
pub proof fn the_base_is_the_present_version<H: CommitHistoryService>(
    history: &H,
    path: &str,
    tag_template: &str,
    info: &CrateInfo,
    crate_count: usize,
    result: Result<Option<String>, ReleaseError>,
    name: &str,
    tag: String,
    tagged: Result<bool, GitError>,
    newest: Result<Option<String>, GitError>,
    latest: Result<Option<String>, GitError>,
)
    requires
        call_ensures(
            history::resolve_base_reference::<H>,
            (history, path, None, tag_template, info, crate_count),
            result,
        ),
        name@ == info.name@,
        call_ensures(
            release::render_tag_name,
            (tag_template, name, &info.version, crate_count),
            Ok::<String, ReleaseError>(tag),
        ),
        says_of_tag(history, path@, tag@, tagged),
        says_of_newest(
            history,
            path@,
            info.manifest_path@,
            version::version_text(info.version@),
            newest,
        ),
        says_of_latest(history, path@, latest),
    ensures
        match tagged {
            Ok(true) => result matches Ok(Some(found)) && found@ == tag@,
            Ok(false) => result == match newest {
                Ok(None) => handed_on(latest),
                other => handed_on(other),
            },
            Err(failure) => result == Err::<Option<String>, ReleaseError>(
                ReleaseError::History(failure),
            ),
        },
{
}

/// A template that will not do is an error where a tag is needed.
pub proof fn the_base_needs_a_template<H: CommitHistoryService>(
    history: &H,
    path: &str,
    tag_template: &str,
    info: &CrateInfo,
    crate_count: usize,
    result: Result<Option<String>, ReleaseError>,
    name: &str,
    error: ReleaseError,
)
    requires
        call_ensures(
            history::resolve_base_reference::<H>,
            (history, path, None, tag_template, info, crate_count),
            result,
        ),
        name@ == info.name@,
        call_ensures(
            release::render_tag_name,
            (tag_template, name, &info.version, crate_count),
            Err::<String, ReleaseError>(error),
        ),
    ensures
        result == Err::<Option<String>, ReleaseError>(error),
{
}

/// The notes of the version that a crate has start at the version before it: at its tag,
/// where the history has it; else at the commit in which it first came; else at the latest
/// tag.
pub proof fn notes_start_at_the_version_before<H: CommitHistoryService>(
    history: &H,
    path: &str,
    tag_template: &str,
    info: &CrateInfo,
    crate_count: usize,
    result: Result<Option<String>, ReleaseError>,
    number: String,
    before: Version,
    name: &str,
    tag: String,
    tagged: Result<bool, GitError>,
    first: Result<Option<String>, GitError>,
    latest: Result<Option<String>, GitError>,
)
    requires
        call_ensures(
            history::resolve_previous_base_reference::<H>,
            (history, path, tag_template, info, crate_count),
            result,
        ),
        says_of_previous(
            history,
            path@,
            info.manifest_path@,
            version::version_text(info.version@),
            Ok(Some(number)),
        ),
        version::semver_parse(number@) == Ok::<VersionView, Seq<char>>(before@),
        name@ == info.name@,
        call_ensures(
            release::render_tag_name,
            (tag_template, name, &before, crate_count),
            Ok::<String, ReleaseError>(tag),
        ),
        says_of_tag(history, path@, tag@, tagged),
        says_of_first(
            history,
            path@,
            info.manifest_path@,
            version::version_text(before@),
            first,
        ),
        says_of_latest(history, path@, latest),
    ensures
        match tagged {
            Ok(true) => result matches Ok(Some(found)) && found@ == tag@,
            Ok(false) => result == match first {
                Ok(None) => handed_on(latest),
                other => handed_on(other),
            },
            Err(failure) => result == Err::<Option<String>, ReleaseError>(
                ReleaseError::History(failure),
            ),
        },
{
}

/// Where there was no version before, the notes start at the latest tag; where it is not a
/// version, that is reported with the crate and its manifest; a failure is handed on.
pub proof fn notes_without_a_version_before<H: CommitHistoryService>(
    history: &H,
    path: &str,
    tag_template: &str,
    info: &CrateInfo,
    crate_count: usize,
    result: Result<Option<String>, ReleaseError>,
    previous: Result<Option<String>, GitError>,
    latest: Result<Option<String>, GitError>,
)
    requires
        call_ensures(
            history::resolve_previous_base_reference::<H>,
            (history, path, tag_template, info, crate_count),
            result,
        ),
        says_of_previous(
            history,
            path@,
            info.manifest_path@,
            version::version_text(info.version@),
            previous,
        ),
        says_of_latest(history, path@, latest),
    ensures
        match previous {
            Ok(None) => result == handed_on(latest),
            Err(failure) => result == Err::<Option<String>, ReleaseError>(
                ReleaseError::History(failure),
            ),
            Ok(Some(number)) => version::semver_parse(number@) matches Err(message) ==> (
            result matches Err(
                ReleaseError::InvalidPreviousVersion { crate_name, path: manifest, detail },
            ) && crate_name@ == info.name@ && manifest@ == info.manifest_path@ && detail@
                == message),
        },
{
}

/// The entry is of the crate, with its name, its manifest and its version.
pub open spec fn entry_of(entry: CrateHistory, info: CrateInfo) -> bool {
    entry.crate_name@ == info.name@ && entry.manifest_path@ == info.manifest_path@
        && entry.version@ == info.version@
}

/// Asked for the commits since the reference, the history gave these.
pub open spec fn gave_commits<H: CommitHistoryService>(
    history: &H,
    path: Seq<char>,
    base_ref: Option<Seq<char>>,
    commits: Vec<CommitRecord>,
) -> bool {
    exists|p: &str, b: Option<&str>|
        {
            &&& p@ == path
            &&& match (b, base_ref) {
                (Some(x), Some(y)) => x@ == y,
                (None, None) => true,
                _ => false,
            }
            &&& #[trigger] call_ensures(
                H::collect_commits,
                (history, p, b),
                Ok::<Vec<CommitRecord>, GitError>(commits),
            )
        }
}

/// The crate has an entry, or the history gave no commits for it.
pub open spec fn accounted_for<H: CommitHistoryService>(
    history: &H,
    path: Seq<char>,
    found: Seq<CrateHistory>,
    info: CrateInfo,
) -> bool {
    ||| exists|e: int| 0 <= e < found.len() && entry_of(#[trigger] found[e], info)
    ||| exists|base_ref: Option<Seq<char>>, commits: Vec<CommitRecord>|
        #[trigger] gave_commits(history, path, base_ref, commits) && commits@.len() == 0
}

/// The entry is of one of the first crates, with commits that the history gave for its base.
pub open spec fn entry_accounted_for<H: CommitHistoryService>(
    history: &H,
    path: Seq<char>,
    crates: Seq<CrateInfo>,
    entry: CrateHistory,
) -> bool {
    &&& exists|k: int| 0 <= k < crates.len() && entry_of(entry, #[trigger] crates[k])
    &&& entry.commits@.len() > 0
    &&& gave_commits(history, path, text::maybe_text(entry.base_ref), entry.commits)
}

proof fn answer_is_given<H: CommitHistoryService>(
    history: &H,
    path: Seq<char>,
    base_ref: Option<Seq<char>>,
    commits: Vec<CommitRecord>,
)
    requires
        history::commits_answer(
            history,
            path,
            base_ref,
            Ok::<Vec<CommitRecord>, GitError>(commits),
        ),
    ensures
        gave_commits(history, path, base_ref, commits),
{
    let (p, b) = choose|p: &str, b: Option<&str>|
        p@ == path && text::borrowed_text(b) == base_ref && #[trigger] call_ensures(
            H::collect_commits,
            (history, p, b),
            Ok::<Vec<CommitRecord>, GitError>(commits),
        );
    assert(call_ensures(
        H::collect_commits,
        (history, p, b),
        Ok::<Vec<CommitRecord>, GitError>(commits),
    ));
}

proof fn histories_account<H: CommitHistoryService>(
    history: &H,
    path: Seq<char>,
    changes: Changes<'_>,
    tag_template: Seq<char>,
    crates: Seq<CrateInfo>,
    n: nat,
    found: Seq<CrateHistory>,
)
    requires
        n <= crates.len(),
        history::histories_of(history, path, changes, tag_template, crates, n, found),
    ensures
        forall|k: int|
            0 <= k < n ==> accounted_for(history, path, found, #[trigger] crates[k]),
        forall|e: int|
            0 <= e < found.len() ==> entry_accounted_for(
                history,
                path,
                crates,
                #[trigger] found[e],
            ),
    decreases n,
{
    if n > 0 {
        let last = crates[n - 1];
        let (base_ref, commits) = choose|base_ref: Option<String>, commits: Vec<CommitRecord>|
            {
                &&& #[trigger] history::crate_answered(
                    history,
                    path,
                    changes,
                    tag_template,
                    crates[n - 1],
                    crates.len(),
                    base_ref,
                    commits,
                )
                &&& if commits@.len() == 0 {
                    history::histories_of(
                        history,
                        path,
                        changes,
                        tag_template,
                        crates,
                        (n - 1) as nat,
                        found,
                    )
                } else {
                    &&& found.len() > 0
                    &&& history::changes_of(found.last(), crates[n - 1], base_ref, commits)
                    &&& history::histories_of(
                        history,
                        path,
                        changes,
                        tag_template,
                        crates,
                        (n - 1) as nat,
                        found.drop_last(),
                    )
                }
            };
        answer_is_given(history, path, text::maybe_text(base_ref), commits);
        if commits@.len() == 0 {
            histories_account(
                history,
                path,
                changes,
                tag_template,
                crates,
                (n - 1) as nat,
                found,
            );
            assert(accounted_for(history, path, found, last));
        } else {
            let rest = found.drop_last();
            histories_account(
                history,
                path,
                changes,
                tag_template,
                crates,
                (n - 1) as nat,
                rest,
            );
            assert(entry_of(found[found.len() - 1], last));
            assert forall|k: int| 0 <= k < n implies accounted_for(
                history,
                path,
                found,
                #[trigger] crates[k],
            ) by {
                if k < n - 1 {
                    assert(accounted_for(history, path, rest, crates[k]));
                    if exists|e: int|
                        0 <= e < rest.len() && entry_of(#[trigger] rest[e], crates[k]) {
                        let e = choose|e: int|
                            0 <= e < rest.len() && entry_of(#[trigger] rest[e], crates[k]);
                        assert(found[e] == rest[e]);
                    }
                }
            }
            assert forall|e: int| 0 <= e < found.len() implies entry_accounted_for(
                history,
                path,
                crates,
                #[trigger] found[e],
            ) by {
                if e < found.len() - 1 {
                    assert(rest[e] == found[e]);
                } else {
                    assert(entry_of(found[e], crates[n - 1]));
                }
            }
        }
    }
}

/// Every crate is asked for: it has an entry with its name, manifest and version, unless the
/// history gave no commits for it. Every entry is of a crate, with commits that the history
/// gave since its base. Without crates there is an error instead.
pub proof fn every_crate_is_planned_for<H: CommitHistoryService>(
    history: &H,
    path: &str,
    from_tag: Option<&str>,
    tag_template: &str,
    crates: &Vec<CrateInfo>,
    result: Result<Vec<CrateHistory>, ReleaseError>,
)
    requires
        call_ensures(
            history::build_crate_release_plans_with_history::<H>,
            (history, path, from_tag, tag_template, crates),
            result,
        ),
    ensures
        crates@.len() == 0 ==> result == Err::<Vec<CrateHistory>, ReleaseError>(
            ReleaseError::NoPackages,
        ),
        crates@.len() > 0 && result is Ok ==> {
            &&& forall|k: int|
                0 <= k < crates@.len() ==> accounted_for(
                    history,
                    path@,
                    result->Ok_0@,
                    #[trigger] crates@[k],
                )
            &&& forall|e: int|
                0 <= e < result->Ok_0@.len() ==> entry_accounted_for(
                    history,
                    path@,
                    crates@,
                    #[trigger] result->Ok_0@[e],
                )
        },
{
    if crates@.len() > 0 {
        if let Ok(found) = result {
            histories_account(
                history,
                path@,
                Changes::Unreleased { from_tag },
                tag_template@,
                crates@,
                crates@.len(),
                found@,
            );
        }
    }
}

/// The same of the changes that the versions of the crates were released with.
pub proof fn every_crate_has_its_notes_asked_for<H: CommitHistoryService>(
    history: &H,
    path: &str,
    tag_template: &str,
    crates: &Vec<CrateInfo>,
    result: Result<Vec<CrateHistory>, ReleaseError>,
)
    requires
        call_ensures(
            history::build_crate_release_notes_with_history::<H>,
            (history, path, tag_template, crates),
            result,
        ),
    ensures
        crates@.len() == 0 ==> result == Err::<Vec<CrateHistory>, ReleaseError>(
            ReleaseError::NoPackages,
        ),
        crates@.len() > 0 && result is Ok ==> {
            &&& forall|k: int|
                0 <= k < crates@.len() ==> accounted_for(
                    history,
                    path@,
                    result->Ok_0@,
                    #[trigger] crates@[k],
                )
            &&& forall|e: int|
                0 <= e < result->Ok_0@.len() ==> entry_accounted_for(
                    history,
                    path@,
                    crates@,
                    #[trigger] result->Ok_0@[e],
                )
        },
{
    if crates@.len() > 0 {
        if let Ok(found) = result {
            histories_account(
                history,
                path@,
                Changes::Released,
                tag_template@,
                crates@,
                crates@.len(),
                found@,
            );
        }
    }
}

/// Which crates have a plan.
pub open spec fn planned_marks(planned: Seq<Option<ReleasePlan>>) -> Seq<bool> {
    planned.map_values(|plan: Option<ReleasePlan>| plan is Some)
}

/// Which crates have commits.
pub open spec fn noted_marks(commits: Seq<Vec<PlannedCommit>>) -> Seq<bool> {
    commits.map_values(|own: Vec<PlannedCommit>| own@.len() > 0)
}

proof fn plans_counted(histories: Seq<CrateHistory>, planned: Seq<Option<ReleasePlan>>)
    requires
        histories.len() == planned.len(),
    ensures
        ({
            let marks = planned_marks(planned);
            let all = history::plans_of(histories, planned);
            &&& all.len() == counting::marks(marks, planned.len() as int)
            &&& forall|i: int|
                #![trigger planned[i]]
                0 <= i < planned.len() && planned[i] is Some ==> {
                    let own = all[counting::marks(marks, i)];
                    &&& own.crate_name == histories[i].crate_name
                    &&& own.manifest_path == histories[i].manifest_path
                    &&& own.plan == planned[i]->0
                }
        }),
    decreases planned.len(),
{
    if planned.len() > 0 {
        let n = planned.len() - 1;
        let marks = planned_marks(planned);
        let head = planned_marks(planned.drop_last());
        plans_counted(histories.drop_last(), planned.drop_last());
        assert forall|i: int| 0 <= i < n implies marks[i] == head[i] by {
            assert(planned.drop_last()[i] == planned[i]);
        }
        counting::marks_agree(marks, head, n);
        assert(marks[n] == (planned[n] is Some));
        let before = history::plans_of(histories.drop_last(), planned.drop_last());
        let all = history::plans_of(histories, planned);
        assert forall|i: int|
            #![trigger planned[i]]
            0 <= i < planned.len() && planned[i] is Some implies {
            let own = all[counting::marks(marks, i)];
            &&& own.crate_name == histories[i].crate_name
            &&& own.manifest_path == histories[i].manifest_path
            &&& own.plan == planned[i]->0
        } by {
            counting::marks_agree(marks, head, i);
            if i < n {
                assert(planned.drop_last()[i] == planned[i]);
                assert(histories.drop_last()[i] == histories[i]);
                assert(head[i]);
                counting::marks_grow(head, i, n);
                assert(all[counting::marks(marks, i)] == before[counting::marks(head, i)]);
            }
        }
    }
}

/// Every plan that was made is among the plans, with the name and the manifest of its crate;
/// there are no others, and they stand in the order of their manifests.
pub proof fn every_plan_is_kept(
    histories: Vec<CrateHistory>,
    planned: Vec<Option<ReleasePlan>>,
    result: Vec<CrateReleasePlan>,
    i: int,
)
    requires
        call_ensures(history::build_crate_release_plans, (histories, planned), result),
        histories@.len() == planned@.len(),
        0 <= i < planned@.len(),
        planned@[i] is Some,
    ensures
        exists|k: int|
            {
                &&& 0 <= k < result@.len()
                &&& (#[trigger] result@[k]).crate_name == histories@[i].crate_name
                &&& result@[k].manifest_path == histories@[i].manifest_path
                &&& result@[k].plan == planned@[i]->0
            },
        result@.len() == counting::marks(planned_marks(planned@), planned@.len() as int),
        forall|j: int, k: int|
            0 <= j < k < result@.len() ==> path::path_rank(
                path::path_of((#[trigger] result@[j]).manifest_path@),
                path::path_of((#[trigger] result@[k]).manifest_path@),
            ) != Rank::After,
{
    plans_counted(histories@, planned@);
    let marks = planned_marks(planned@);
    let all = history::plans_of(histories@, planned@);
    order::sorting_keeps_the_elements(all, result@);
    assert(marks[i]);
    counting::marks_grow(marks, i, planned@.len() as int);
    let m = counting::marks(marks, i);
    assert(result@.contains(all[m]));
    let k = result@.index_of(all[m]);
    assert(result@[k].crate_name == histories@[i].crate_name);
    let from = choose|from: Seq<int>| order::sorted_from(all, result@, from);
    assert forall|j: int, k: int| 0 <= j < k < result@.len() implies path::path_rank(
        path::path_of((#[trigger] result@[j]).manifest_path@),
        path::path_of((#[trigger] result@[k]).manifest_path@),
    ) != Rank::After by {
        assert(result@[j].precedes(&result@[k]));
    }
}

proof fn notes_counted(histories: Seq<CrateHistory>, commits: Seq<Vec<PlannedCommit>>)
    requires
        histories.len() == commits.len(),
    ensures
        ({
            let marks = noted_marks(commits);
            let all = history::notes_of(histories, commits);
            &&& all.len() == counting::marks(marks, commits.len() as int)
            &&& forall|i: int|
                #![trigger commits[i]]
                0 <= i < commits.len() && commits[i]@.len() > 0 ==> {
                    let own = all[counting::marks(marks, i)];
                    &&& own.crate_name == histories[i].crate_name
                    &&& own.manifest_path == histories[i].manifest_path
                    &&& own.base_ref == histories[i].base_ref
                    &&& own.commits == commits[i]
                }
        }),
    decreases commits.len(),
{
    if commits.len() > 0 {
        let n = commits.len() - 1;
        let marks = noted_marks(commits);
        let head = noted_marks(commits.drop_last());
        notes_counted(histories.drop_last(), commits.drop_last());
        assert forall|i: int| 0 <= i < n implies marks[i] == head[i] by {
            assert(commits.drop_last()[i] == commits[i]);
        }
        counting::marks_agree(marks, head, n);
        assert(marks[n] == (commits[n]@.len() > 0));
        let before = history::notes_of(histories.drop_last(), commits.drop_last());
        let all = history::notes_of(histories, commits);
        assert forall|i: int|
            #![trigger commits[i]]
            0 <= i < commits.len() && commits[i]@.len() > 0 implies {
            let own = all[counting::marks(marks, i)];
            &&& own.crate_name == histories[i].crate_name
            &&& own.manifest_path == histories[i].manifest_path
            &&& own.base_ref == histories[i].base_ref
            &&& own.commits == commits[i]
        } by {
            counting::marks_agree(marks, head, i);
            if i < n {
                assert(commits.drop_last()[i] == commits[i]);
                assert(histories.drop_last()[i] == histories[i]);
                assert(head[i]);
                counting::marks_grow(head, i, n);
                assert(all[counting::marks(marks, i)] == before[counting::marks(head, i)]);
            }
        }
    }
}

/// Every crate with commits has its notes: with its name, its manifest, its base and all its
/// commits. There are no others, and they stand in the order of their manifests.
pub proof fn every_crate_with_commits_has_notes(
    histories: Vec<CrateHistory>,
    commits: Vec<Vec<PlannedCommit>>,
    result: Vec<CrateReleaseNotes>,
    i: int,
)
    requires
        call_ensures(history::build_crate_release_notes, (histories, commits), result),
        histories@.len() == commits@.len(),
        0 <= i < commits@.len(),
        commits@[i]@.len() > 0,
    ensures
        exists|k: int|
            {
                &&& 0 <= k < result@.len()
                &&& (#[trigger] result@[k]).crate_name == histories@[i].crate_name
                &&& result@[k].manifest_path == histories@[i].manifest_path
                &&& result@[k].base_ref == histories@[i].base_ref
                &&& result@[k].commits == commits@[i]
            },
        result@.len() == counting::marks(noted_marks(commits@), commits@.len() as int),
        forall|j: int, k: int|
            0 <= j < k < result@.len() ==> path::path_rank(
                path::path_of((#[trigger] result@[j]).manifest_path@),
                path::path_of((#[trigger] result@[k]).manifest_path@),
            ) != Rank::After,
{
    notes_counted(histories@, commits@);
    let marks = noted_marks(commits@);
    let all = history::notes_of(histories@, commits@);
    order::sorting_keeps_the_elements(all, result@);
    assert(marks[i]);
    counting::marks_grow(marks, i, commits@.len() as int);
    let m = counting::marks(marks, i);
    assert(result@.contains(all[m]));
    let k = result@.index_of(all[m]);
    assert(result@[k].crate_name == histories@[i].crate_name);
    let from = choose|from: Seq<int>| order::sorted_from(all, result@, from);
    assert forall|j: int, k: int| 0 <= j < k < result@.len() implies path::path_rank(
        path::path_of((#[trigger] result@[j]).manifest_path@),
        path::path_of((#[trigger] result@[k]).manifest_path@),
    ) != Rank::After by {
        assert(result@[j].precedes(&result@[k]));
    }
}

/// What the history answers of the latest tag is the reference, also where there is none.
pub proof fn the_latest_tag_is_the_reference(
    latest: Result<Option<String>, GitError>,
    result: Result<Option<String>, ReleaseError>,
)
    requires
        call_ensures(history::base_after_latest, (latest,), result),
    ensures
        forall|tag: Option<String>|
            latest == Ok::<Option<String>, GitError>(tag) ==> result == Ok::<
                Option<String>,
                ReleaseError,
            >(tag),
        forall|failure: GitError|
            latest == Err::<Option<String>, GitError>(failure) ==> result == Err::<
                Option<String>,
                ReleaseError,
            >(ReleaseError::History(failure)),
{
}

/// A commit that the history found is the reference, and where it found none the search goes
/// on; what failed is an error.
pub proof fn a_found_commit_is_the_reference(
    commit: Result<Option<String>, GitError>,
    result: Option<Result<Option<String>, ReleaseError>>,
)
    requires
        call_ensures(history::base_after_commit, (commit,), result),
    ensures
        result is None <==> commit == Ok::<Option<String>, GitError>(None),
        forall|hash: String|
            commit == Ok::<Option<String>, GitError>(Some(hash)) ==> result == Some(
                Ok::<Option<String>, ReleaseError>(Some(hash)),
            ),
        forall|failure: GitError|
            commit == Err::<Option<String>, GitError>(failure) ==> result == Some(
                Err::<Option<String>, ReleaseError>(ReleaseError::History(failure)),
            ),
{
}

/// A tag that exists is the reference, and where it does not the search goes on; what failed
/// is an error.
pub proof fn an_existing_tag_is_the_reference(
    tag: String,
    tagged: Result<bool, GitError>,
    result: Option<Result<Option<String>, ReleaseError>>,
)
    requires
        call_ensures(history::base_after_tag, (tag, tagged), result),
    ensures
        result is None <==> tagged == Ok::<bool, GitError>(false),
        tagged == Ok::<bool, GitError>(true) ==> result == Some(
            Ok::<Option<String>, ReleaseError>(Some(tag)),
        ),
        forall|failure: GitError|
            tagged == Err::<bool, GitError>(failure) ==> result == Some(
                Err::<Option<String>, ReleaseError>(ReleaseError::History(failure)),
            ),
{
}

/// Without a version before the present one the latest tag is asked for; with one its tag is
/// rendered for the crate; and what failed, is no semantic version or has no tag is an error
/// that says so.
pub proof fn the_version_before_has_its_tag(
    previous: Result<Option<String>, GitError>,
    tag_template: &str,
    info: &CrateInfo,
    crate_count: usize,
    step: PreviousStep,
)
    requires
        call_ensures(
            history::after_previous_version,
            (previous, tag_template, info, crate_count),
            step,
        ),
    ensures
        step is Latest <==> previous == Ok::<Option<String>, GitError>(None),
        forall|failure: GitError|
            previous == Err::<Option<String>, GitError>(failure) ==> step
                == PreviousStep::Failed(ReleaseError::History(failure)),
        previous matches Ok(Some(found)) ==> match version::semver_parse(found@) {
            Ok(number) => if crate_count > 1 && !release::names_crate(tag_template@) {
                step == PreviousStep::Failed(ReleaseError::TagTemplate)
            } else {
                step matches PreviousStep::Version { version: parsed, tag } && parsed@ == number
                    && tag@ == release::tag_text(tag_template@, info.name@, number)
            },
            Err(why) => step matches PreviousStep::Failed(
                ReleaseError::InvalidPreviousVersion { crate_name, path: shown, detail },
            ) && crate_name@ == info.name@ && shown@ == info.manifest_path@ && detail@ == why,
        },
{
}

/// Unreleased changes start at the tag that is asked for; else at the tag of the version that
/// the crate has, where the history has it; else at the newest commit of that version; else
/// at the latest tag.
pub proof fn unreleased_changes_start_at_the_present_version<H: CommitHistoryService>(
    history: &H,
    path: &str,
    from_tag: Option<&str>,
    tag_template: &str,
    info: &CrateInfo,
    crate_count: usize,
    result: Result<Option<String>, ReleaseError>,
    name: &str,
    tag: String,
    tagged: Result<bool, GitError>,
    newest: Result<Option<String>, GitError>,
    latest: Result<Option<String>, GitError>,
)
    requires
        history::changes_resolved(
            history,
            path@,
            Changes::Unreleased { from_tag },
            tag_template@,
            *info,
            crate_count as nat,
            result,
        ),
        name@ == info.name@,
        call_ensures(
            release::render_tag_name,
            (tag_template, name, &info.version, crate_count),
            Ok::<String, ReleaseError>(tag),
        ),
        says_of_tag(history, path@, tag@, tagged),
        says_of_newest(
            history,
            path@,
            info.manifest_path@,
            version::version_text(info.version@),
            newest,
        ),
        says_of_latest(history, path@, latest),
    ensures
        match (from_tag, tagged) {
            (Some(given), _) => result matches Ok(Some(found)) && found@ == given@,
            (None, Ok(true)) => result matches Ok(Some(found)) && found@ == tag@,
            (None, Ok(false)) => result == match newest {
                Ok(None) => handed_on(latest),
                other => handed_on(other),
            },
            (None, Err(failure)) => result == Err::<Option<String>, ReleaseError>(
                ReleaseError::History(failure),
            ),
        },
{
}

/// Released changes start at the version before the one that the crate has: at its tag, where
/// the history has it; else at the commit in which it first came; else at the latest tag.
pub proof fn released_changes_start_at_the_version_before<H: CommitHistoryService>(
    history: &H,
    path: &str,
    tag_template: &str,
    info: &CrateInfo,
    crate_count: usize,
    result: Result<Option<String>, ReleaseError>,
    number: String,
    before: Version,
    name: &str,
    tag: Result<String, ReleaseError>,
    tagged: Result<bool, GitError>,
    first: Result<Option<String>, GitError>,
    latest: Result<Option<String>, GitError>,
)
    requires
        history::changes_resolved(
            history,
            path@,
            Changes::Released,
            tag_template@,
            *info,
            crate_count as nat,
            result,
        ),
        says_of_previous(
            history,
            path@,
            info.manifest_path@,
            version::version_text(info.version@),
            Ok(Some(number)),
        ),
        version::semver_parse(number@) == Ok::<VersionView, Seq<char>>(before@),
        name@ == info.name@,
        call_ensures(release::render_tag_name, (tag_template, name, &before, crate_count), tag),
        tag matches Ok(own) ==> says_of_tag(history, path@, own@, tagged),
        says_of_first(
            history,
            path@,
            info.manifest_path@,
            version::version_text(before@),
            first,
        ),
        says_of_latest(history, path@, latest),
    ensures
        match (tag, tagged) {
            (Err(error), _) => result == Err::<Option<String>, ReleaseError>(error),
            (Ok(own), Ok(true)) => result matches Ok(Some(found)) && found@ == own@,
            (Ok(_), Ok(false)) => result == match first {
                Ok(None) => handed_on(latest),
                other => handed_on(other),
            },
            (Ok(_), Err(failure)) => result == Err::<Option<String>, ReleaseError>(
                ReleaseError::History(failure),
            ),
        },
{
}

/// The entry is of one of the crates, and its base is the one that was found for that crate
/// among all of them.
pub open spec fn resolved_for<H: CommitHistoryService>(
    history: &H,
    path: Seq<char>,
    changes: Changes<'_>,
    tag_template: Seq<char>,
    crates: Seq<CrateInfo>,
    entry: CrateHistory,
) -> bool {
    exists|k: int|
        0 <= k < crates.len() && entry_of(entry, #[trigger] crates[k]) && history::changes_resolved(
            history,
            path,
            changes,
            tag_template,
            crates[k],
            crates.len(),
            Ok(entry.base_ref),
        )
}

proof fn histories_resolved<H: CommitHistoryService>(
    history: &H,
    path: Seq<char>,
    changes: Changes<'_>,
    tag_template: Seq<char>,
    crates: Seq<CrateInfo>,
    n: nat,
    found: Seq<CrateHistory>,
)
    requires
        n <= crates.len(),
        history::histories_of(history, path, changes, tag_template, crates, n, found),
    ensures
        found.len() <= n,
        forall|e: int|
            0 <= e < found.len() ==> resolved_for(
                history,
                path,
                changes,
                tag_template,
                crates,
                #[trigger] found[e],
            ),
    decreases n,
{
    if n > 0 {
        let (base_ref, commits) = choose|base_ref: Option<String>, commits: Vec<CommitRecord>|
            {
                &&& #[trigger] history::crate_answered(
                    history,
                    path,
                    changes,
                    tag_template,
                    crates[n - 1],
                    crates.len(),
                    base_ref,
                    commits,
                )
                &&& if commits@.len() == 0 {
                    history::histories_of(
                        history,
                        path,
                        changes,
                        tag_template,
                        crates,
                        (n - 1) as nat,
                        found,
                    )
                } else {
                    &&& found.len() > 0
                    &&& history::changes_of(found.last(), crates[n - 1], base_ref, commits)
                    &&& history::histories_of(
                        history,
                        path,
                        changes,
                        tag_template,
                        crates,
                        (n - 1) as nat,
                        found.drop_last(),
                    )
                }
            };
        let rest = if commits@.len() == 0 {
            found
        } else {
            found.drop_last()
        };
        histories_resolved(history, path, changes, tag_template, crates, (n - 1) as nat, rest);
        assert forall|e: int| 0 <= e < found.len() implies resolved_for(
            history,
            path,
            changes,
            tag_template,
            crates,
            #[trigger] found[e],
        ) by {
            if e < rest.len() {
                assert(rest[e] == found[e]);
            } else {
                assert(entry_of(found[e], crates[n - 1]));
            }
        }
    }
}

/// The changes that are planned from are those since the base of their crate, as it was asked
/// for; no crate has them twice. There is an error only where the base of a crate was not
/// found or the history did not give its commits.
pub proof fn plans_are_made_since_the_bases<H: CommitHistoryService>(
    history: &H,
    path: &str,
    from_tag: Option<&str>,
    tag_template: &str,
    crates: &Vec<CrateInfo>,
    result: Result<Vec<CrateHistory>, ReleaseError>,
)
    requires
        call_ensures(
            history::build_crate_release_plans_with_history::<H>,
            (history, path, from_tag, tag_template, crates),
            result,
        ),
        crates@.len() > 0,
    ensures
        match result {
            Ok(found) => found@.len() <= crates@.len() && forall|e: int|
                0 <= e < found@.len() ==> resolved_for(
                    history,
                    path@,
                    Changes::Unreleased { from_tag },
                    tag_template@,
                    crates@,
                    #[trigger] found@[e],
                ),
            Err(error) => exists|k: int|
                0 <= k < crates@.len() && unanswered(
                    history,
                    path@,
                    Changes::Unreleased { from_tag },
                    tag_template@,
                    #[trigger] crates@[k],
                    crates@.len(),
                    error,
                ),
        },
{
    let changes = Changes::Unreleased { from_tag };
    match result {
        Ok(found) => {
            histories_resolved(
                history,
                path@,
                changes,
                tag_template@,
                crates@,
                crates@.len(),
                found@,
            );
        },
        Err(error) => {
            failing_crate(history, path@, changes, tag_template@, crates@, result, error);
        },
    }
}

/// The same of the changes that the versions of the crates were released with.
pub proof fn notes_are_made_since_the_bases<H: CommitHistoryService>(
    history: &H,
    path: &str,
    tag_template: &str,
    crates: &Vec<CrateInfo>,
    result: Result<Vec<CrateHistory>, ReleaseError>,
)
    requires
        call_ensures(
            history::build_crate_release_notes_with_history::<H>,
            (history, path, tag_template, crates),
            result,
        ),
        crates@.len() > 0,
    ensures
        match result {
            Ok(found) => found@.len() <= crates@.len() && forall|e: int|
                0 <= e < found@.len() ==> resolved_for(
                    history,
                    path@,
                    Changes::Released,
                    tag_template@,
                    crates@,
                    #[trigger] found@[e],
                ),
            Err(error) => exists|k: int|
                0 <= k < crates@.len() && unanswered(
                    history,
                    path@,
                    Changes::Released,
                    tag_template@,
                    #[trigger] crates@[k],
                    crates@.len(),
                    error,
                ),
        },
{
    let changes = Changes::Released;
    match result {
        Ok(found) => {
            histories_resolved(
                history,
                path@,
                changes,
                tag_template@,
                crates@,
                crates@.len(),
                found@,
            );
        },
        Err(error) => {
            failing_crate(history, path@, changes, tag_template@, crates@, result, error);
        },
    }
}

/// The base of the crate was not found for the error, or the history failed with it when it
/// was asked for the commits since the base.
pub open spec fn unanswered<H: CommitHistoryService>(
    history: &H,
    path: Seq<char>,
    changes: Changes<'_>,
    tag_template: Seq<char>,
    info: CrateInfo,
    crate_count: nat,
    error: ReleaseError,
) -> bool {
    ||| history::changes_resolved(
        history,
        path,
        changes,
        tag_template,
        info,
        crate_count,
        Err(error),
    )
    ||| exists|p: &str, b: Option<&str>, failure: GitError|
        {
            &&& p@ == path
            &&& error == ReleaseError::History(failure)
            &&& #[trigger] call_ensures(
                H::collect_commits,
                (history, p, b),
                Err::<Vec<CommitRecord>, GitError>(failure),
            )
        }
}

proof fn failing_crate<H: CommitHistoryService>(
    history: &H,
    path: Seq<char>,
    changes: Changes<'_>,
    tag_template: Seq<char>,
    crates: Seq<CrateInfo>,
    result: Result<Vec<CrateHistory>, ReleaseError>,
    error: ReleaseError,
)
    requires
        crates.len() > 0,
        result == Err::<Vec<CrateHistory>, ReleaseError>(error),
        history::histories_gathered(history, path, changes, tag_template, crates, result),
    ensures
        exists|k: int|
            0 <= k < crates.len() && unanswered(
                history,
                path,
                changes,
                tag_template,
                #[trigger] crates[k],
                crates.len(),
                error,
            ),
{
    let (n, before) = choose|n: nat, before: Seq<CrateHistory>|
        #![trigger history::histories_of(
            history,
            path,
            changes,
            tag_template,
            crates,
            n,
            before,
        )]
        {
            &&& n < crates.len()
            &&& history::histories_of(history, path, changes, tag_template, crates, n, before)
            &&& history::crate_failed(
                history,
                path,
                changes,
                tag_template,
                crates[n as int],
                crates.len(),
                error,
            )
        };
    assert(unanswered(
        history,
        path,
        changes,
        tag_template,
        crates[n as int],
        crates.len(),
        error,
    ));
}

} // verus!
