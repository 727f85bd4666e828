//! What is said of releases, and the steps of a pull request.

use crate::changelog;
use crate::error::ReleaseError;
use crate::flow;
use crate::flow::{PrAction, PrEvent, PrStage};
use crate::internal::InternalDependencyEdit;
use crate::laws::rewriting;
use crate::path;
use crate::plan::CrateReleasePlan;
use crate::publish;
use crate::publish::{Pending, PendingView};
use crate::report;
use crate::text;
use crate::text::Rank;
use crate::version;
use crate::version::VersionView;
use crate::versions;
use vstd::prelude::*;

verus! {

/// A drift is said with the manifest, the key and the name of the dependency, and with the
/// requirement that it states and the one that it is to state.
pub proof fn drifts_are_said_in_full(edit: &InternalDependencyEdit, result: String)
    requires
        call_ensures(report::drift_line, (edit,), result),
    ensures
        result@ == "- "@ + edit.manifest_path@ + ": "@ + edit.dependency_key@ + " ("@
            + edit.dependency_name@ + ") "@ + (match edit.old_requirement {
            Some(old_text) => old_text@,
            None => "<none>"@,
        }) + " -> "@ + (match edit.new_requirement {
            Some(new_text) => new_text@,
            None => "<removed>"@,
        }),
{
}

/// A pull request of one crate is titled by the crate and its next version, and one of
/// several by their number.
pub proof fn pull_requests_are_titled(plans: &Vec<CrateReleasePlan>, result: String)
    requires
        call_ensures(report::release_pr_title, (plans,), result),
    ensures
        plans@.len() == 1 ==> result@ == "chore(release): "@ + plans@[0].crate_name@ + " v"@
            + version::version_text(plans@[0].plan.next_version@),
        plans@.len() != 1 ==> result@ == "chore(release): release "@ + text::decimal(
            plans@.len(),
        ) + " crates"@,
{
}

/// The row of a crate: its name, its versions and the size of the step.
pub open spec fn row_words(plan: CrateReleasePlan) -> Seq<char> {
    "| `"@ + plan.crate_name@ + "` | `"@ + version::version_text(plan.plan.current_version@)
        + "` | `"@ + version::version_text(plan.plan.next_version@) + "` | `"@
        + plan.plan.bump_level@ + "` |\n"@
}

/// The line of a release: the crate, its versions, the size of the step and the tag.
pub open spec fn line_words(plan: CrateReleasePlan, tag: Seq<char>) -> Seq<char> {
    "- "@ + plan.crate_name@ + " "@ + version::version_text(plan.plan.current_version@) + " -> "@
        + version::version_text(plan.plan.next_version@) + " ("@ + plan.plan.bump_level@
        + ") tag="@ + tag + "\n"@
}

/// What is said of a plan: its crate, manifest, versions, step, number of commits, changelog.
pub open spec fn plan_words(plan: CrateReleasePlan, markdown: Seq<char>) -> Seq<char> {
    "\ncrate: "@ + plan.crate_name@ + "\nmanifest: "@ + plan.manifest_path@ + "\nbase-version: "@
        + version::version_text(plan.plan.current_version@) + "\nnext-version: "@
        + version::version_text(plan.plan.next_version@) + "\nbump: "@ + plan.plan.bump_level@
        + "\ncommits: "@ + text::decimal(plan.plan.commits@.len()) + "\n"@ + markdown + "\n"@
}

/// The texts are the changelogs of the plans.
pub open spec fn rendered(plans: Seq<CrateReleasePlan>, markdowns: Seq<String>) -> bool {
    &&& plans.len() == markdowns.len()
    &&& forall|i: int|
        0 <= i < plans.len() ==> call_ensures(
            changelog::render_markdown,
            (&plans[i].plan,),
            #[trigger] markdowns[i],
        )
}

proof fn rendered_before(plans: Seq<CrateReleasePlan>, markdowns: Seq<String>)
    requires
        rendered(plans, markdowns),
        plans.len() > 0,
    ensures
        rendered(plans.drop_last(), markdowns.drop_last()),
{
    let earlier = markdowns.drop_last();
    assert forall|i: int| 0 <= i < plans.len() - 1 implies call_ensures(
        changelog::render_markdown,
        (&plans.drop_last()[i].plan,),
        #[trigger] earlier[i],
    ) by {
        assert(earlier[i] == markdowns[i]);
    }
}

proof fn rows_in_turn(plans: Seq<CrateReleasePlan>)
    ensures
        report::pr_rows(plans) == Seq::new(plans.len(), |i: int| row_words(plans[i])).flatten(),
    decreases plans.len(),
{
    let all = Seq::new(plans.len(), |i: int| row_words(plans[i]));
    if plans.len() > 0 {
        let earlier = plans.drop_last();
        let before = Seq::new(earlier.len(), |i: int| row_words(earlier[i]));
        rows_in_turn(earlier);
        assert(all =~= before.push(row_words(plans.last())));
        before.lemma_flatten_push(row_words(plans.last()));
    }
}

proof fn bullets_in_turn(manifests: Seq<Seq<char>>)
    ensures
        report::manifest_list(manifests) == Seq::new(
            manifests.len(),
            |i: int| "- `"@ + manifests[i] + "`\n"@,
        ).flatten(),
    decreases manifests.len(),
{
    let all = Seq::new(manifests.len(), |i: int| "- `"@ + manifests[i] + "`\n"@);
    if manifests.len() > 0 {
        let earlier = manifests.drop_last();
        let before = Seq::new(earlier.len(), |i: int| "- `"@ + earlier[i] + "`\n"@);
        bullets_in_turn(earlier);
        assert(all =~= before.push("- `"@ + manifests.last() + "`\n"@));
        before.lemma_flatten_push("- `"@ + manifests.last() + "`\n"@);
    }
}

proof fn changelogs_in_turn(plans: Seq<CrateReleasePlan>, markdowns: Seq<String>)
    requires
        rendered(plans, markdowns),
    ensures
        report::crate_changelogs(plans) == Seq::new(
            plans.len(),
            |i: int| "\n## "@ + plans[i].crate_name@ + "\n\n"@ + markdowns[i]@,
        ).flatten(),
    decreases plans.len(),
{
    let all = Seq::new(
        plans.len(),
        |i: int| "\n## "@ + plans[i].crate_name@ + "\n\n"@ + markdowns[i]@,
    );
    if plans.len() > 0 {
        let (p, m) = (plans.drop_last(), markdowns.drop_last());
        let before = Seq::new(p.len(), |i: int| "\n## "@ + p[i].crate_name@ + "\n\n"@ + m[i]@);
        rendered_before(plans, markdowns);
        changelogs_in_turn(p, m);
        let last = "\n## "@ + plans.last().crate_name@ + "\n\n"@ + markdowns.last()@;
        assert(markdowns[plans.len() - 1] == markdowns.last());
        assert(all =~= before.push(last));
        before.lemma_flatten_push(last);
    }
}

proof fn entries_in_turn(plans: Seq<CrateReleasePlan>, markdowns: Seq<String>)
    requires
        rendered(plans, markdowns),
    ensures
        report::plan_entries(plans) == Seq::new(
            plans.len(),
            |i: int| plan_words(plans[i], markdowns[i]@),
        ).flatten(),
    decreases plans.len(),
{
    let all = Seq::new(plans.len(), |i: int| plan_words(plans[i], markdowns[i]@));
    if plans.len() > 0 {
        let (p, m) = (plans.drop_last(), markdowns.drop_last());
        let before = Seq::new(p.len(), |i: int| plan_words(p[i], m[i]@));
        rendered_before(plans, markdowns);
        entries_in_turn(p, m);
        let last = plan_words(plans.last(), markdowns.last()@);
        assert(markdowns[plans.len() - 1] == markdowns.last());
        assert(markdowns.last()@ == changelog::markdown_text(plans.last().plan));
        assert(report::plan_entry(plans.last()) == last);
        assert(all =~= before.push(last)) by {
            assert(all.drop_last() =~= before);
            assert(all.last() == last);
        }
        before.lemma_flatten_push(last);
    }
}

proof fn lines_in_turn(plans: Seq<CrateReleasePlan>, tags: Seq<Seq<char>>)
    requires
        plans.len() == tags.len(),
    ensures
        report::release_lines(plans, tags) == Seq::new(
            plans.len(),
            |i: int| line_words(plans[i], tags[i]),
        ).flatten(),
    decreases plans.len(),
{
    let all = Seq::new(plans.len(), |i: int| line_words(plans[i], tags[i]));
    if plans.len() > 0 {
        let (p, t) = (plans.drop_last(), tags.drop_last());
        let before = Seq::new(p.len(), |i: int| line_words(p[i], t[i]));
        lines_in_turn(p, t);
        assert(all =~= before.push(line_words(plans.last(), tags.last())));
        before.lemma_flatten_push(line_words(plans.last(), tags.last()));
    }
}

/// The line of a version that is to be published: the crate, the version and the tag.
pub open spec fn pending_words(name: Seq<char>, version: VersionView, tag: Seq<char>) -> Seq<char> {
    "- crate: "@ + name + " version: "@ + version::version_text(version) + " tag: "@ + tag + "\n"@
}

proof fn pending_in_turn(list: Seq<PendingView>)
    ensures
        publish::pending_lines(list) == Seq::new(
            list.len(),
            |i: int| pending_words(list[i].crate_name, list[i].version, list[i].tag),
        ).flatten(),
    decreases list.len(),
{
    let all = Seq::new(
        list.len(),
        |i: int| pending_words(list[i].crate_name, list[i].version, list[i].tag),
    );
    if list.len() > 0 {
        let p = list.drop_last();
        let before = Seq::new(
            p.len(),
            |i: int| pending_words(p[i].crate_name, p[i].version, p[i].tag),
        );
        pending_in_turn(p);
        let last = pending_words(list.last().crate_name, list.last().version, list.last().tag);
        assert(all =~= before.push(last));
        before.lemma_flatten_push(last);
    }
}

/// The text of a pull request holds a row for every plan in turn, with the crate, its
/// versions and the size of the step; then every changed manifest in turn; then the whole
/// changelog of every plan in turn, under the name of its crate.
pub proof fn pull_requests_hold_every_plan(
    plans: &Vec<CrateReleasePlan>,
    manifests: &Vec<String>,
    body: String,
    markdowns: Seq<String>,
)
    requires
        call_ensures(report::release_pr_body, (plans, manifests), body),
        rendered(plans@, markdowns),
    ensures
        body@
            == "## Release PR\n\n## Crates\n| Crate | Current | Next | Bump |\n|---|---|---|---|\n"@
            + Seq::new(plans@.len(), |i: int| row_words(plans@[i])).flatten()
            + "\n## Changed manifests\n"@ + Seq::new(
            manifests@.len(),
            |i: int| "- `"@ + manifests@[i]@ + "`\n"@,
        ).flatten() + Seq::new(
            plans@.len(),
            |i: int| "\n## "@ + plans@[i].crate_name@ + "\n\n"@ + markdowns[i]@,
        ).flatten(),
{
    let all = text::texts(manifests@);
    rows_in_turn(plans@);
    bullets_in_turn(all);
    changelogs_in_turn(plans@, markdowns);
    assert(Seq::new(all.len(), |i: int| "- `"@ + all[i] + "`\n"@) =~= Seq::new(
        manifests@.len(),
        |i: int| "- `"@ + manifests@[i]@ + "`\n"@,
    ));
}

/// A report of plans names the repository, their number and whether releases are made, and
/// says all of every plan in turn; without plans it says that there is nothing to release.
pub proof fn reports_hold_every_plan(
    repo: &str,
    plans: &Vec<CrateReleasePlan>,
    create_release: bool,
    result: String,
    markdowns: Seq<String>,
)
    requires
        call_ensures(report::plan_report, (repo, plans, create_release), result),
        rendered(plans@, markdowns),
    ensures
        plans@.len() == 0 ==> result@ == "no releasable changes detected\n"@,
        plans@.len() > 0 ==> result@ == "repo: "@ + repo@ + "\ncrates-with-releases: "@
            + text::decimal(plans@.len()) + "\ngithub-release: "@ + (if create_release {
            "enabled\n"@
        } else {
            "disabled\n"@
        }) + Seq::new(plans@.len(), |i: int| plan_words(plans@[i], markdowns[i]@)).flatten(),
{
    entries_in_turn(plans@, markdowns);
}

/// The list of a release has a line for every plan in turn, with its crate, versions, step
/// and tag.
pub proof fn releases_list_every_plan(
    plans: &Vec<CrateReleasePlan>,
    tags: &Vec<String>,
    result: String,
)
    requires
        call_ensures(report::release_report, (plans, tags), result),
        plans@.len() == tags@.len(),
    ensures
        result@ == "release plan:\n"@ + Seq::new(
            plans@.len(),
            |i: int| line_words(plans@[i], tags@[i]@),
        ).flatten(),
{
    let all = text::texts(tags@);
    lines_in_turn(plans@, all);
    assert(Seq::new(plans@.len(), |i: int| line_words(plans@[i], all[i])) =~= Seq::new(
        plans@.len(),
        |i: int| line_words(plans@[i], tags@[i]@),
    ));
}

/// The list of a publication has a line for every version in turn, with its crate and its
/// tag; without versions it says that there is nothing to publish.
pub proof fn publications_list_every_version(pending: &Vec<Pending>, result: String)
    requires
        call_ensures(publish::publish_report, (pending,), result),
    ensures
        pending@.len() == 0 ==> result@
            == "publish plan: no new crate versions to tag or release\n"@,
        pending@.len() > 0 ==> result@ == "publish plan:\n"@ + Seq::new(
            pending@.len(),
            |i: int|
                pending_words(pending@[i].crate_name@, pending@[i].version@, pending@[i].tag@),
        ).flatten(),
{
    let all = publish::pending_views(pending@);
    pending_in_turn(all);
    assert(Seq::new(
        all.len(),
        |i: int| pending_words(all[i].crate_name, all[i].version, all[i].tag),
    ) =~= Seq::new(
        pending@.len(),
        |i: int| pending_words(pending@[i].crate_name@, pending@[i].version@, pending@[i].tag@),
    ));
}

/// The paths stand in their order, and none is there twice.
pub open spec fn in_path_order(list: Seq<String>) -> bool {
    forall|j: int, k: int|
        0 <= j < k < list.len() ==> path::path_rank(
            path::path_of((#[trigger] list[j])@),
            path::path_of((#[trigger] list[k])@),
        ) == Rank::Before
}

proof fn sorted_is_in_path_order(all: Seq<Seq<char>>, list: Seq<String>)
    requires
        path::sorted_paths(all, text::texts(list)),
    ensures
        in_path_order(list),
{
    let listed = text::texts(list);
    assert forall|j: int, k: int| 0 <= j < k < list.len() implies path::path_rank(
        path::path_of((#[trigger] list[j])@),
        path::path_of((#[trigger] list[k])@),
    ) == Rank::Before by {
        assert(listed[j] == list[j]@);
        assert(listed[k] == list[k]@);
    }
}

/// The files of a release are the manifests with other versions, those with other
/// requirements and, where it changed, the lockfile: all of them and no others. Without any
/// there is an error.
pub proof fn all_changed_files_are_listed(
    changed_versions: &Vec<String>,
    changed_requirements: &Vec<String>,
    lockfile_changed: bool,
    result: Result<Vec<String>, ReleaseError>,
)
    requires
        call_ensures(
            report::changed_files,
            (changed_versions, changed_requirements, lockfile_changed),
            result,
        ),
    ensures
        result is Err <==> changed_versions@.len() == 0 && changed_requirements@.len() == 0
            && !lockfile_changed,
        result matches Err(error) ==> error == ReleaseError::NothingToUpdate,
        result matches Ok(files) ==> {
            &&& forall|i: int|
                0 <= i < changed_versions@.len() ==> rewriting::names_path(
                    files@,
                    (#[trigger] changed_versions@[i])@,
                )
            &&& forall|i: int|
                0 <= i < changed_requirements@.len() ==> rewriting::names_path(
                    files@,
                    (#[trigger] changed_requirements@[i])@,
                )
            &&& lockfile_changed ==> rewriting::names_path(files@, "Cargo.lock"@)
            &&& forall|k: int|
                0 <= k < files@.len() ==> text::texts(changed_versions@).contains(
                    (#[trigger] files@[k])@,
                ) || text::texts(changed_requirements@).contains(files@[k]@) || (lockfile_changed
                    && files@[k]@ == "Cargo.lock"@)
            &&& in_path_order(files@)
        },
{
    let a = text::texts(changed_versions@);
    let b = text::texts(changed_requirements@);
    let manifests = a + b;
    let all = if lockfile_changed {
        manifests.push("Cargo.lock"@)
    } else {
        manifests
    };
    assert(a.len() == changed_versions@.len());
    assert(b.len() == changed_requirements@.len());
    if let Ok(files) = result {
        let listed = text::texts(files@);
        sorted_is_in_path_order(all, files@);
        assert forall|i: int| 0 <= i < changed_versions@.len() implies rewriting::names_path(
            files@,
            (#[trigger] changed_versions@[i])@,
        ) by {
            assert(a[i] == changed_versions@[i]@);
            assert(all[i] == a[i]);
            rewriting::listed_names_path(all, files@, i);
        }
        assert forall|i: int| 0 <= i < changed_requirements@.len() implies rewriting::names_path(
            files@,
            (#[trigger] changed_requirements@[i])@,
        ) by {
            assert(b[i] == changed_requirements@[i]@);
            assert(all[a.len() + i] == b[i]);
            rewriting::listed_names_path(all, files@, a.len() + i);
        }
        if lockfile_changed {
            assert(all[manifests.len() as int] == "Cargo.lock"@);
            rewriting::listed_names_path(all, files@, manifests.len() as int);
        }
        assert forall|k: int| 0 <= k < files@.len() implies a.contains((#[trigger] files@[k])@)
            || b.contains(files@[k]@) || (lockfile_changed && files@[k]@ == "Cargo.lock"@) by {
            assert(listed[k] == files@[k]@);
            let i = rewriting::listed_is_given(all, listed, k);
            if i < a.len() {
                assert(all[i] == a[i]);
            } else if i < manifests.len() {
                assert(all[i] == b[i - a.len()]);
            }
        }
    }
}

proof fn manifest_is_changed(plans: Seq<CrateReleasePlan>, changed: Seq<bool>, i: int)
    requires
        plans.len() == changed.len(),
        0 <= i < plans.len(),
        changed[i],
    ensures
        versions::changed_manifests(plans, changed).contains(plans[i].manifest_path@),
    decreases plans.len(),
{
    let before = versions::changed_manifests(plans.drop_last(), changed.drop_last());
    let all = versions::changed_manifests(plans, changed);
    if i < plans.len() - 1 {
        assert(plans.drop_last()[i] == plans[i]);
        manifest_is_changed(plans.drop_last(), changed.drop_last(), i);
        let k = before.index_of(plans[i].manifest_path@);
        assert(all[k] == before[k]);
    } else {
        assert(all[before.len() as int] == plans[i].manifest_path@);
    }
}

proof fn changed_manifest_is_planned(
    plans: Seq<CrateReleasePlan>,
    changed: Seq<bool>,
    k: int,
) -> (i: int)
    requires
        plans.len() == changed.len(),
        0 <= k < versions::changed_manifests(plans, changed).len(),
    ensures
        0 <= i < plans.len(),
        changed[i],
        plans[i].manifest_path@ == versions::changed_manifests(plans, changed)[k],
    decreases plans.len(),
{
    let before = versions::changed_manifests(plans.drop_last(), changed.drop_last());
    if k < before.len() {
        let i = changed_manifest_is_planned(plans.drop_last(), changed.drop_last(), k);
        assert(versions::changed_manifests(plans, changed)[k] == before[k]);
        i
    } else {
        plans.len() - 1
    }
}

/// The manifest is that of a plan whose version was set.
pub open spec fn set_by_a_plan(
    plans: Seq<CrateReleasePlan>,
    changed: Seq<bool>,
    manifest: Seq<char>,
) -> bool {
    exists|i: int|
        0 <= i < plans.len() && changed[i] && (#[trigger] plans[i]).manifest_path@ == manifest
}

/// The manifests with other versions are those of the plans whose versions were set, all of
/// them and no others.
pub proof fn manifests_with_set_versions_are_listed(
    plans: &Vec<CrateReleasePlan>,
    changed: &Vec<bool>,
    result: Vec<String>,
)
    requires
        call_ensures(versions::set_crate_versions, (plans, changed), result),
        plans@.len() == changed@.len(),
    ensures
        forall|i: int|
            0 <= i < plans@.len() && changed@[i] ==> rewriting::names_path(
                result@,
                (#[trigger] plans@[i]).manifest_path@,
            ),
        forall|k: int|
            0 <= k < result@.len() ==> set_by_a_plan(plans@, changed@, (#[trigger] result@[k])@),
        in_path_order(result@),
{
    let all = versions::changed_manifests(plans@, changed@);
    let listed = text::texts(result@);
    sorted_is_in_path_order(all, result@);
    assert forall|i: int| 0 <= i < plans@.len() && changed@[i] implies rewriting::names_path(
        result@,
        (#[trigger] plans@[i]).manifest_path@,
    ) by {
        manifest_is_changed(plans@, changed@, i);
        let k = all.index_of(plans@[i].manifest_path@);
        assert(all[k] == plans@[i].manifest_path@);
        rewriting::listed_names_path(all, result@, k);
    }
    assert forall|k: int| 0 <= k < result@.len() implies set_by_a_plan(
        plans@,
        changed@,
        (#[trigger] result@[k])@,
    ) by {
        assert(listed[k] == result@[k]@);
        let m = rewriting::listed_is_given(all, listed, k);
        let i = changed_manifest_is_planned(plans@, changed@, m);
        assert(plans@[i].manifest_path@ == result@[k]@);
    }
}

/// Without plans a pull request ends before it starts; with plans its branch is started.
pub proof fn pull_requests_need_plans(
    plans: &Vec<CrateReleasePlan>,
    base_branch: &str,
    pr_branch: &str,
    result: Result<(PrStage, PrAction), ReleaseError>,
)
    requires
        call_ensures(
            flow::release_pr_step,
            (PrStage::Start, PrEvent::Done, plans, base_branch, pr_branch),
            result,
        ),
    ensures
        plans@.len() == 0 ==> (result matches Ok((PrStage::Finished, PrAction::Skip))),
        plans@.len() > 0 ==> (result matches Ok((PrStage::Branching, PrAction::Checkout { branch }))
            && branch@ == pr_branch@),
{
}

/// Once the branch is there the files are changed.
pub proof fn files_are_changed_on_the_branch(
    plans: &Vec<CrateReleasePlan>,
    base_branch: &str,
    pr_branch: &str,
    result: Result<(PrStage, PrAction), ReleaseError>,
)
    requires
        call_ensures(
            flow::release_pr_step,
            (PrStage::Branching, PrEvent::Done, plans, base_branch, pr_branch),
            result,
        ),
    ensures
        result matches Ok((PrStage::Updating, PrAction::UpdateFiles)),
{
}

/// Then what was changed is staged, as it is listed; where nothing was, that is the error.
pub proof fn changed_files_are_staged(
    changed_versions: Vec<String>,
    changed_requirements: Vec<String>,
    lockfile_changed: bool,
    plans: &Vec<CrateReleasePlan>,
    base_branch: &str,
    pr_branch: &str,
    result: Result<(PrStage, PrAction), ReleaseError>,
)
    requires
        call_ensures(
            flow::release_pr_step,
            (
                PrStage::Updating,
                PrEvent::FilesChanged {
                    versions: changed_versions,
                    requirements: changed_requirements,
                    lockfile_changed,
                },
                plans,
                base_branch,
                pr_branch,
            ),
            result,
        ),
    ensures
        result is Err <==> changed_versions@.len() == 0 && changed_requirements@.len() == 0
            && !lockfile_changed,
        result is Ok ==> {
            &&& result matches Ok((PrStage::Staging { files: kept }, PrAction::Stage { files }))
            &&& text::texts(kept@) == text::texts(files@)
            &&& forall|i: int|
                0 <= i < changed_versions@.len() ==> rewriting::names_path(
                    files@,
                    (#[trigger] changed_versions@[i])@,
                )
            &&& forall|i: int|
                0 <= i < changed_requirements@.len() ==> rewriting::names_path(
                    files@,
                    (#[trigger] changed_requirements@[i])@,
                )
            &&& lockfile_changed ==> rewriting::names_path(files@, "Cargo.lock"@)
            &&& forall|k: int|
                0 <= k < files@.len() ==> text::texts(changed_versions@).contains(
                    (#[trigger] files@[k])@,
                ) || text::texts(changed_requirements@).contains(files@[k]@) || (lockfile_changed
                    && files@[k]@ == "Cargo.lock"@)
            &&& in_path_order(files@)
        },
        result matches Err(error) ==> error == ReleaseError::NothingToUpdate,
{
    let a = text::texts(changed_versions@);
    let b = text::texts(changed_requirements@);
    let all = flow::files_changed(changed_versions@, changed_requirements@, lockfile_changed);
    assert(a.len() == changed_versions@.len());
    assert(b.len() == changed_requirements@.len());
    if let Ok((PrStage::Staging { files: kept }, PrAction::Stage { files })) = result {
        assert forall|i: int| 0 <= i < changed_versions@.len() implies rewriting::names_path(
            files@,
            (#[trigger] changed_versions@[i])@,
        ) by {
            assert(a[i] == changed_versions@[i]@);
            assert(all[i] == a[i]);
            rewriting::listed_names_path(all, files@, i);
        }
        assert forall|i: int| 0 <= i < changed_requirements@.len() implies rewriting::names_path(
            files@,
            (#[trigger] changed_requirements@[i])@,
        ) by {
            assert(b[i] == changed_requirements@[i]@);
            assert(all[a.len() + i] == b[i]);
            rewriting::listed_names_path(all, files@, a.len() + i);
        }
        if lockfile_changed {
            assert(all[(a + b).len() as int] == "Cargo.lock"@);
            rewriting::listed_names_path(all, files@, (a + b).len() as int);
        }
        let listed = text::texts(files@);
        assert forall|k: int| 0 <= k < files@.len() implies a.contains((#[trigger] files@[k])@)
            || b.contains(files@[k]@) || (lockfile_changed && files@[k]@ == "Cargo.lock"@) by {
            assert(listed[k] == files@[k]@);
            let i = rewriting::listed_is_given(all, listed, k);
            if i < a.len() {
                assert(all[i] == a[i]);
            } else if i < (a + b).len() {
                assert(all[i] == b[i - a.len()]);
            }
        }
        sorted_is_in_path_order(all, files@);
    }
}

/// Once files are staged git is asked, and a commit under the title of the request is made
/// exactly where anything is staged.
pub proof fn only_what_is_staged_is_committed(
    files: Vec<String>,
    any: bool,
    plans: &Vec<CrateReleasePlan>,
    base_branch: &str,
    pr_branch: &str,
    asked: Result<(PrStage, PrAction), ReleaseError>,
    committed: Result<(PrStage, PrAction), ReleaseError>,
    title: String,
)
    requires
        call_ensures(
            flow::release_pr_step,
            (PrStage::Staging { files }, PrEvent::Done, plans, base_branch, pr_branch),
            asked,
        ),
        call_ensures(
            flow::release_pr_step,
            (PrStage::Asking { files }, PrEvent::Staged { any }, plans, base_branch, pr_branch),
            committed,
        ),
        call_ensures(report::release_pr_title, (plans,), title),
    ensures
        asked matches Ok((PrStage::Asking { files: kept }, PrAction::AskStaged)) && kept == files,
        any ==> (committed matches Ok(
            (PrStage::Committing { files: kept }, PrAction::Commit { message }),
        ) && kept == files && message@ == title@),
        !any ==> (committed matches Ok(
            (PrStage::Committing { files: kept }, PrAction::KeepCommit),
        ) && kept == files),
{
}

/// Then the branch is pushed, and last the request is opened from it into the base, with the
/// title and the text for the plans and the changed files.
pub proof fn the_request_is_opened_last(
    files: Vec<String>,
    plans: &Vec<CrateReleasePlan>,
    base_branch: &str,
    pr_branch: &str,
    pushed: Result<(PrStage, PrAction), ReleaseError>,
    opened: Result<(PrStage, PrAction), ReleaseError>,
    words: String,
    content: String,
)
    requires
        call_ensures(
            flow::release_pr_step,
            (PrStage::Committing { files }, PrEvent::Done, plans, base_branch, pr_branch),
            pushed,
        ),
        call_ensures(
            flow::release_pr_step,
            (PrStage::Pushing { files }, PrEvent::Done, plans, base_branch, pr_branch),
            opened,
        ),
        call_ensures(report::release_pr_title, (plans,), words),
        call_ensures(report::release_pr_body, (plans, &files), content),
    ensures
        pushed matches Ok((PrStage::Pushing { files: kept }, PrAction::Push { branch })) && kept
            == files && branch@ == pr_branch@,
        opened matches Ok(
            (PrStage::Finished, PrAction::OpenRequest { base_branch: base, branch, title, body }),
        ) && base@ == base_branch@ && branch@ == pr_branch@ && title@ == words@ && body@
            == content@,
{
}

/// An error says what it is about and why: the path, the crate or the dependency, and what
/// the parser or git said.
pub proof fn errors_say_what_they_are_about(error: &ReleaseError, message: String)
    requires
        call_ensures(ReleaseError::message, (error,), message),
    ensures
        match *error {
            ReleaseError::NoPackages => message@ == "no Cargo package manifests found"@,
            ReleaseError::TagTemplate => message@
                == "release.tag_template must include '{ crate }' when multiple crates are released"@,
            ReleaseError::TagExists { tag } => message@ == "tag "@ + tag@ + " already exists"@,
            ReleaseError::InvalidManifest { path, detail } => message@ == "failed parsing "@
                + path@ + ": "@ + detail@,
            ReleaseError::InvalidVersion { path, detail } => message@
                == "invalid semver version in "@ + path@ + ": "@ + detail@,
            ReleaseError::InvalidPreviousVersion { crate_name, path, detail } => message@
                == "invalid previous version for "@ + crate_name@ + " in "@ + path@ + ": "@
                + detail@,
            ReleaseError::InvalidRequirement { dependency, path, detail } => message@
                == "failed parsing internal dependency requirement for "@ + dependency@ + " in "@
                + path@ + ": "@ + detail@,
            ReleaseError::StagedChanges => message@ == "failed checking staged changes"@,
            ReleaseError::NothingToUpdate => message@
                == "no Cargo.toml version fields found to update"@,
            ReleaseError::DependencyDrift => message@
                == "internal dependency manifests require updates"@,
            ReleaseError::History(failure) => message@ == failure.message@,
        },
{
}

} // verus!
