//! What a release tells its readers, and what it is about to do.

use crate::changelog;
use crate::error::ReleaseError;
use crate::git;
use crate::internal::InternalDependencyEdit;
use crate::path;
use crate::plan::CrateReleasePlan;
use crate::release;
use crate::text;
use crate::version;
use crate::version::{Version, VersionView};
use vstd::prelude::*;

verus! {

/// The text, or another one where there is none.
pub open spec fn text_or(value: Option<Seq<char>>, other: Seq<char>) -> Seq<char> {
    match value {
        Some(content) => content,
        None => other,
    }
}

/// The line of a requirement that has to change.
pub open spec fn drift_text(edit: InternalDependencyEdit) -> Seq<char> {
    "- "@ + edit.manifest_path@ + ": "@ + edit.dependency_key@ + " ("@ + edit.dependency_name@
        + ") "@ + text_or(text::maybe_text(edit.old_requirement), "<none>"@) + " -> "@ + text_or(
        text::maybe_text(edit.new_requirement),
        "<removed>"@,
    )
}

fn content_or(value: &Option<String>, other: &str) -> (result: String)
    ensures
        result@ == text_or(text::maybe_text(*value), other@),
{
    match value {
        Some(content) => content.clone(),
        None => other.to_owned(),
    }
}

/// The line of a requirement that has to change.
pub fn drift_line(edit: &InternalDependencyEdit) -> (result: String)
    ensures
        result@ == drift_text(*edit),
{
    "- ".to_owned().concat(edit.manifest_path.as_str()).concat(": ").concat(
        edit.dependency_key.as_str(),
    ).concat(" (").concat(edit.dependency_name.as_str()).concat(") ").concat(
        content_or(&edit.old_requirement, "<none>").as_str(),
    ).concat(" -> ").concat(content_or(&edit.new_requirement, "<removed>").as_str())
}

/// The title of the pull request of a release.
pub open spec fn pr_title(plans: Seq<CrateReleasePlan>) -> Seq<char> {
    if plans.len() == 1 {
        "chore(release): "@ + plans[0].crate_name@ + " v"@ + version::version_text(
            plans[0].plan.next_version@,
        )
    } else {
        "chore(release): release "@ + text::decimal(plans.len()) + " crates"@
    }
}

/// The title of the pull request of a release.
pub fn release_pr_title(plans: &Vec<CrateReleasePlan>) -> (result: String)
    ensures
        result@ == pr_title(plans@),
{
    if plans.len() == 1 {
        return "chore(release): ".to_owned().concat(plans[0].crate_name.as_str()).concat(
            " v",
        ).concat(plans[0].plan.next_version.to_text().as_str());
    }
    "chore(release): release ".to_owned().concat(text::number(plans.len() as u64).as_str()).concat(
        " crates",
    )
}

/// The row of a crate in the table of the pull request.
pub open spec fn pr_row(plan: CrateReleasePlan) -> Seq<char> {
    "| `"@ + plan.crate_name@ + "` | `"@ + version::version_text(plan.plan.current_version@)
        + "` | `"@ + version::version_text(plan.plan.next_version@) + "` | `"@
        + plan.plan.bump_level@ + "` |\n"@
}

/// The rows of all crates.
pub open spec fn pr_rows(plans: Seq<CrateReleasePlan>) -> Seq<char>
    decreases plans.len(),
{
    if plans.len() == 0 {
        Seq::empty()
    } else {
        pr_rows(plans.drop_last()) + pr_row(plans.last())
    }
}

/// The list of the changed manifests.
pub open spec fn manifest_list(manifests: Seq<Seq<char>>) -> Seq<char>
    decreases manifests.len(),
{
    if manifests.len() == 0 {
        Seq::empty()
    } else {
        manifest_list(manifests.drop_last()) + ("- `"@ + manifests.last() + "`\n"@)
    }
}

/// The changelogs of all crates, each under the name of its crate.
pub open spec fn crate_changelogs(plans: Seq<CrateReleasePlan>) -> Seq<char>
    decreases plans.len(),
{
    if plans.len() == 0 {
        Seq::empty()
    } else {
        crate_changelogs(plans.drop_last()) + ("\n## "@ + plans.last().crate_name@ + "\n\n"@
            + changelog::markdown_text(plans.last().plan))
    }
}

/// The text of the pull request of a release.
pub open spec fn pr_body(plans: Seq<CrateReleasePlan>, manifests: Seq<Seq<char>>) -> Seq<char> {
    "## Release PR\n\n## Crates\n| Crate | Current | Next | Bump |\n|---|---|---|---|\n"@
        + pr_rows(plans) + "\n## Changed manifests\n"@ + manifest_list(manifests)
        + crate_changelogs(plans)
}

/// The changelog of every plan can be written.
pub open spec fn plans_can_be_written(plans: Seq<CrateReleasePlan>) -> bool {
    forall|i: int|
        0 <= i < plans.len() ==> changelog::hashes_can_be_cut((#[trigger] plans[i]).plan.commits@)
}

fn append_rows(body: &mut String, plans: &Vec<CrateReleasePlan>)
    ensures
        final(body)@ == old(body)@ + pr_rows(plans@),
{
    let ghost before = body@;
    let mut i: usize = 0;
    assert(before + pr_rows(plans@.take(0)) =~= before);
    while i < plans.len()
        invariant
            i <= plans.len(),
            body@ == before + pr_rows(plans@.take(i as int)),
        decreases plans.len() - i,
    {
        let ghost so_far = body@;
        let plan = &plans[i];
        body.append("| `");
        body.append(plan.crate_name.as_str());
        body.append("` | `");
        body.append(plan.plan.current_version.to_text().as_str());
        body.append("` | `");
        body.append(plan.plan.next_version.to_text().as_str());
        body.append("` | `");
        body.append(plan.plan.bump_level.as_str());
        body.append("` |\n");
        proof {
            assert(body@ =~= so_far + pr_row(*plan));
            assert(plans@.take(i + 1).drop_last() =~= plans@.take(i as int));
            assert(body@ =~= before + pr_rows(plans@.take(i + 1)));
        }
        i += 1;
    }
    assert(plans@.take(i as int) =~= plans@);
}

fn append_manifests(body: &mut String, manifests: &Vec<String>)
    ensures
        final(body)@ == old(body)@ + manifest_list(text::texts(manifests@)),
{
    let ghost before = body@;
    let ghost all = text::texts(manifests@);
    let mut i: usize = 0;
    assert(before + manifest_list(all.take(0)) =~= before);
    while i < manifests.len()
        invariant
            i <= manifests.len(),
            all == text::texts(manifests@),
            body@ == before + manifest_list(all.take(i as int)),
        decreases manifests.len() - i,
    {
        let ghost so_far = body@;
        body.append("- `");
        body.append(manifests[i].as_str());
        body.append("`\n");
        proof {
            assert(body@ =~= so_far + ("- `"@ + all[i as int] + "`\n"@));
            assert(all.take(i + 1).drop_last() =~= all.take(i as int));
            assert(body@ =~= before + manifest_list(all.take(i + 1)));
        }
        i += 1;
    }
    assert(all.take(i as int) =~= all);
}

fn append_changelogs(body: &mut String, plans: &Vec<CrateReleasePlan>)
    requires
        plans_can_be_written(plans@),
    ensures
        final(body)@ == old(body)@ + crate_changelogs(plans@),
{
    let ghost before = body@;
    let mut i: usize = 0;
    assert(before + crate_changelogs(plans@.take(0)) =~= before);
    while i < plans.len()
        invariant
            i <= plans.len(),
            plans_can_be_written(plans@),
            body@ == before + crate_changelogs(plans@.take(i as int)),
        decreases plans.len() - i,
    {
        let ghost so_far = body@;
        let plan = &plans[i];
        let markdown = changelog::render_markdown(&plan.plan);
        body.append("\n## ");
        body.append(plan.crate_name.as_str());
        body.append("\n\n");
        body.append(markdown.as_str());
        proof {
            assert(body@ =~= so_far + ("\n## "@ + plan.crate_name@ + "\n\n"@ + markdown@));
            assert(plans@.take(i + 1).drop_last() =~= plans@.take(i as int));
            assert(body@ =~= before + crate_changelogs(plans@.take(i + 1)));
        }
        i += 1;
    }
    assert(plans@.take(i as int) =~= plans@);
}

/// The text of the pull request of a release.
pub fn release_pr_body(plans: &Vec<CrateReleasePlan>, changed_manifests: &Vec<String>) -> (result:
    String)
    requires
        plans_can_be_written(plans@),
    ensures
        result@ == pr_body(plans@, text::texts(changed_manifests@)),
{
    let mut body =
        "## Release PR\n\n## Crates\n| Crate | Current | Next | Bump |\n|---|---|---|---|\n".to_owned();
    append_rows(&mut body, plans);
    body.append("\n## Changed manifests\n");
    append_manifests(&mut body, changed_manifests);
    append_changelogs(&mut body, plans);
    body
}

/// What is said of the plan of a crate.
pub open spec fn plan_entry(plan: CrateReleasePlan) -> Seq<char> {
    "\ncrate: "@ + plan.crate_name@ + "\nmanifest: "@ + plan.manifest_path@ + "\nbase-version: "@
        + version::version_text(plan.plan.current_version@) + "\nnext-version: "@
        + version::version_text(plan.plan.next_version@) + "\nbump: "@ + plan.plan.bump_level@
        + "\ncommits: "@ + text::decimal(plan.plan.commits@.len()) + "\n"@
        + changelog::markdown_text(plan.plan) + "\n"@
}

/// What is said of the plans of all crates.
pub open spec fn plan_entries(plans: Seq<CrateReleasePlan>) -> Seq<char>
    decreases plans.len(),
{
    if plans.len() == 0 {
        Seq::empty()
    } else {
        plan_entries(plans.drop_last()) + plan_entry(plans.last())
    }
}

/// What is said of the plans for a repository.
pub open spec fn plan_text(
    path: Seq<char>,
    plans: Seq<CrateReleasePlan>,
    create_release: bool,
) -> Seq<char> {
    if plans.len() == 0 {
        "no releasable changes detected\n"@
    } else {
        "repo: "@ + path + "\ncrates-with-releases: "@ + text::decimal(plans.len())
            + "\ngithub-release: "@ + if create_release {
            "enabled\n"@
        } else {
            "disabled\n"@
        } + plan_entries(plans)
    }
}

/// What is said of the plan of a crate.
fn plan_entry_text(plan: &CrateReleasePlan) -> (result: String)
    requires
        changelog::hashes_can_be_cut(plan.plan.commits@),
    ensures
        result@ == plan_entry(*plan),
{
    let markdown = changelog::render_markdown(&plan.plan);
    let head = "\ncrate: ".to_owned().concat(plan.crate_name.as_str()).concat(
        "\nmanifest: ",
    ).concat(plan.manifest_path.as_str()).concat("\nbase-version: ").concat(
        plan.plan.current_version.to_text().as_str(),
    );
    let middle = head.concat("\nnext-version: ").concat(
        plan.plan.next_version.to_text().as_str(),
    ).concat("\nbump: ").concat(plan.plan.bump_level.as_str());
    middle.concat("\ncommits: ").concat(
        text::number(plan.plan.commits.len() as u64).as_str(),
    ).concat("\n").concat(markdown.as_str()).concat("\n")
}

fn append_plan_entries(report: &mut String, plans: &Vec<CrateReleasePlan>)
    requires
        plans_can_be_written(plans@),
    ensures
        final(report)@ == old(report)@ + plan_entries(plans@),
{
    let ghost before = report@;
    let mut i: usize = 0;
    assert(before + plan_entries(plans@.take(0)) =~= before);
    while i < plans.len()
        invariant
            i <= plans.len(),
            plans_can_be_written(plans@),
            report@ == before + plan_entries(plans@.take(i as int)),
        decreases plans.len() - i,
    {
        let plan = &plans[i];
        let entry = plan_entry_text(plan);
        let ghost so_far = report@;
        report.append(entry.as_str());
        proof {
            assert(report@ =~= so_far + plan_entry(*plan));
            assert(plans@.take(i + 1).drop_last() =~= plans@.take(i as int));
            assert(report@ =~= before + plan_entries(plans@.take(i + 1)));
        }
        i += 1;
    }
    assert(plans@.take(i as int) =~= plans@);
}

/// What is said of the plans for a repository.
pub fn plan_report(path: &str, plans: &Vec<CrateReleasePlan>, create_release: bool) -> (result:
    String)
    requires
        plans_can_be_written(plans@),
    ensures
        result@ == plan_text(path@, plans@, create_release),
{
    if plans.len() == 0 {
        return "no releasable changes detected\n".to_owned();
    }
    let enabled = if create_release {
        "enabled\n"
    } else {
        "disabled\n"
    };
    let mut report = "repo: ".to_owned().concat(path).concat("\ncrates-with-releases: ").concat(
        text::number(plans.len() as u64).as_str(),
    ).concat("\ngithub-release: ").concat(enabled);
    append_plan_entries(&mut report, plans);
    report
}

/// The tags that a release creates, one for each plan.
pub fn release_tags(plans: &Vec<CrateReleasePlan>, tag_template: &str) -> (result: Result<
    Vec<String>,
    ReleaseError,
>)
    ensures
        match result {
            Ok(tags) => {
                &&& plans.len() <= 1 || release::names_crate(tag_template@)
                &&& tags.len() == plans.len()
                &&& forall|i: int|
                    0 <= i < tags.len() ==> (#[trigger] tags@[i])@ == release::tag_text(
                        tag_template@,
                        plans@[i].crate_name@,
                        plans@[i].plan.next_version@,
                    )
            },
            Err(error) => plans.len() > 1 && !release::names_crate(tag_template@) && error
                == ReleaseError::TagTemplate,
        },
{
    let mut tags: Vec<String> = Vec::new();
    let mut i: usize = 0;
    while i < plans.len()
        invariant
            i <= plans.len(),
            tags.len() == i,
            i > 0 ==> plans.len() <= 1 || release::names_crate(tag_template@),
            forall|k: int|
                0 <= k < i ==> (#[trigger] tags@[k])@ == release::tag_text(
                    tag_template@,
                    plans@[k].crate_name@,
                    plans@[k].plan.next_version@,
                ),
        decreases plans.len() - i,
    {
        match release::render_tag_name(
            tag_template,
            plans[i].crate_name.as_str(),
            &plans[i].plan.next_version,
            plans.len(),
        ) {
            Ok(tag) => {
                tags.push(tag);
            },
            Err(error) => {
                return Err(error);
            },
        }
        i += 1;
    }
    Ok(tags)
}

/// The line of a planned release.
pub open spec fn release_line(plan: CrateReleasePlan, tag: Seq<char>) -> Seq<char> {
    "- "@ + plan.crate_name@ + " "@ + version::version_text(plan.plan.current_version@) + " -> "@
        + version::version_text(plan.plan.next_version@) + " ("@ + plan.plan.bump_level@
        + ") tag="@ + tag + "\n"@
}

/// The lines of the planned releases.
pub open spec fn release_lines(plans: Seq<CrateReleasePlan>, tags: Seq<Seq<char>>) -> Seq<char>
    decreases plans.len(),
{
    if plans.len() == 0 {
        Seq::empty()
    } else {
        release_lines(plans.drop_last(), tags.drop_last()) + release_line(
            plans.last(),
            tags.last(),
        )
    }
}

/// The list of the planned releases.
pub fn release_report(plans: &Vec<CrateReleasePlan>, tags: &Vec<String>) -> (result: String)
    requires
        plans.len() == tags.len(),
    ensures
        result@ == "release plan:\n"@ + release_lines(plans@, text::texts(tags@)),
{
    let mut report = "release plan:\n".to_owned();
    let ghost all = text::texts(tags@);
    let mut i: usize = 0;
    assert("release plan:\n"@ + release_lines(plans@.take(0), all.take(0)) =~= report@);
    while i < plans.len()
        invariant
            i <= plans.len() == tags.len(),
            all == text::texts(tags@),
            report@ == "release plan:\n"@ + release_lines(
                plans@.take(i as int),
                all.take(i as int),
            ),
        decreases plans.len() - i,
    {
        let plan = &plans[i];
        let line = "- ".to_owned().concat(plan.crate_name.as_str()).concat(" ").concat(
            plan.plan.current_version.to_text().as_str(),
        ).concat(" -> ").concat(plan.plan.next_version.to_text().as_str()).concat(" (").concat(
            plan.plan.bump_level.as_str(),
        ).concat(") tag=").concat(tags[i].as_str()).concat("\n");
        assert(line@ == release_line(*plan, all[i as int]));
        let ghost so_far = report@;
        report.append(line.as_str());
        proof {
            assert(plans@.take(i + 1).drop_last() =~= plans@.take(i as int));
            assert(all.take(i + 1).drop_last() =~= all.take(i as int));
            assert(so_far + line@ =~= "release plan:\n"@ + release_lines(
                plans@.take(i + 1),
                all.take(i + 1),
            ));
        }
        i += 1;
    }
    assert(plans@.take(i as int) =~= plans@);
    assert(all.take(i as int) =~= all);
    report
}

/// The message of the tag of a version, and the title of its release.
pub open spec fn message_of_tag(crate_name: Seq<char>, version: VersionView) -> Seq<char> {
    "Release "@ + crate_name + " "@ + version::version_text(version)
}

/// The message of the tag of a version, and the title of its release.
pub fn tag_message(crate_name: &str, version: &Version) -> (result: String)
    ensures
        result@ == message_of_tag(crate_name@, version@),
{
    "Release ".to_owned().concat(crate_name).concat(" ").concat(version.to_text().as_str())
}

/// The manifests that a release changed, the lockfile among them, in order and each once.
pub fn changed_files(
    versions: &Vec<String>,
    requirements: &Vec<String>,
    lockfile_changed: bool,
) -> (result: Result<Vec<String>, ReleaseError>)
    ensures
        ({
            let manifests = text::texts(versions@) + text::texts(requirements@);
            let all = if lockfile_changed {
                manifests.push("Cargo.lock"@)
            } else {
                manifests
            };
            match result {
                Ok(files) => all.len() > 0 && path::sorted_paths(all, text::texts(files@)),
                Err(error) => all.len() == 0 && error == ReleaseError::NothingToUpdate,
            }
        }),
{
    let mut list: Vec<String> = Vec::new();
    let mut i: usize = 0;
    while i < versions.len()
        invariant
            i <= versions.len(),
            list.len() == i,
            forall|k: int| 0 <= k < i ==> (#[trigger] list@[k])@ == versions@[k]@,
        decreases versions.len() - i,
    {
        list.push(versions[i].clone());
        i += 1;
    }
    let ghost first = text::texts(versions@);
    assert(text::texts(list@) =~= first);
    let mut j: usize = 0;
    while j < requirements.len()
        invariant
            j <= requirements.len(),
            list.len() == first.len() + j,
            text::texts(list@) == first + text::texts(requirements@.take(j as int)),
        decreases requirements.len() - j,
    {
        let ghost before = list@;
        list.push(requirements[j].clone());
        assert(text::texts(list@) =~= text::texts(before).push(requirements@[j as int]@));
        assert(text::texts(list@) =~= first + text::texts(requirements@.take(j + 1)));
        j += 1;
    }
    assert(requirements@.take(j as int) =~= requirements@);
    let ghost manifests = text::texts(list@);
    if lockfile_changed {
        list.push("Cargo.lock".to_owned());
        assert(text::texts(list@) =~= manifests.push("Cargo.lock"@));
    }
    assert(text::texts(list@).len() == list.len());
    if list.len() == 0 {
        return Err(ReleaseError::NothingToUpdate);
    }
    Ok(path::sort_paths(&list))
}

/// What a release changes is the payload of its merge: manifests and the lockfile, where a
/// manifest is among them.
pub proof fn release_changes_are_its_payload(
    manifests: Seq<Seq<char>>,
    lockfile_changed: bool,
    files: Seq<Seq<char>>,
)
    requires
        manifests.len() > 0,
        forall|i: int| 0 <= i < manifests.len() ==> release::is_manifest(#[trigger] manifests[i]),
        path::sorted_paths(
            if lockfile_changed {
                manifests.push("Cargo.lock"@)
            } else {
                manifests
            },
            files,
        ),
    ensures
        release::release_payload(files),
{
    let all = if lockfile_changed {
        manifests.push("Cargo.lock"@)
    } else {
        manifests
    };
    assert forall|i: int| 0 <= i < files.len() implies release::is_manifest(#[trigger] files[i])
        || files[i] == "Cargo.lock"@ by {
        assert(files.contains(files[i]));
        let k = choose|k: int|
            #![trigger all[k]]
            0 <= k < all.len() && all[k] == files[i] && forall|m: int|
                #![trigger all[m]]
                0 <= m < k ==> path::path_of(all[m]) != path::path_of(files[i]);
        if k < manifests.len() {
            assert(all[k] == manifests[k]);
        }
    }
    let first = manifests[0];
    assert(all[0] == first);
    assert(path::first_of_path(all, first));
    assert(files.contains(first));
    let i = files.index_of(first);
    assert(release::is_manifest(files[i]));
}

/// The commit of a release, which has the title of its pull request, is left out of the log
/// that the next release is planned from.
pub proof fn release_commit_is_left_out_of_the_log(
    plans: Seq<CrateReleasePlan>,
    from_tag: Option<Seq<char>>,
)
    ensures
        git::log_words(from_tag)[2] == "--invert-grep"@,
        git::log_words(from_tag)[3] == "--grep=^"@ + "chore(release):"@,
        text::occurs_at(pr_title(plans), "chore(release):"@, 0),
{
    reveal_strlit("chore(release):");
    reveal_strlit("chore(release): ");
    reveal_strlit("chore(release): release ");
    reveal_strlit("--grep=^");
    reveal_strlit("--grep=^chore(release):");
    let mark = "chore(release):"@;
    let title = pr_title(plans);
    assert("--grep=^chore(release):"@ =~= "--grep=^"@ + mark);
    assert(title.subrange(0, mark.len() as int) =~= mark);
}

} // verus!
