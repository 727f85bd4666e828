//! Publishing versions: which ones, in which steps, and after which merges.

use crate::changelog;
use crate::error::ReleaseError;
use crate::path;
use crate::plan::{CrateInfo, CrateReleaseNotes};
use crate::release;
use crate::report;
use crate::text;
use crate::text::Rank;
use crate::version;
use crate::version::{Version, VersionView};
use vstd::prelude::*;

verus! {

/// The tags of the versions that the crates have.
pub fn publish_tags(crates: &Vec<CrateInfo>, tag_template: &str) -> (result: Result<
    Vec<String>,
    ReleaseError,
>)
    ensures
        match result {
            Ok(tags) => {
                &&& crates.len() > 0
                &&& crates.len() == 1 || release::names_crate(tag_template@)
                &&& tags.len() == crates.len()
                &&& forall|i: int|
                    0 <= i < tags.len() ==> (#[trigger] tags@[i])@ == release::tag_text(
                        tag_template@,
                        crates@[i].name@,
                        crates@[i].version@,
                    )
            },
            Err(error) => if crates.len() == 0 {
                error == ReleaseError::NoPackages
            } else {
                crates.len() > 1 && !release::names_crate(tag_template@) && error
                    == ReleaseError::TagTemplate
            },
        },
{
    if crates.len() == 0 {
        return Err(ReleaseError::NoPackages);
    }
    let mut tags: Vec<String> = Vec::new();
    let mut i: usize = 0;
    while i < crates.len()
        invariant
            i <= crates.len(),
            crates.len() > 0,
            tags.len() == i,
            i > 0 ==> crates.len() == 1 || release::names_crate(tag_template@),
            forall|k: int|
                0 <= k < i ==> (#[trigger] tags@[k])@ == release::tag_text(
                    tag_template@,
                    crates@[k].name@,
                    crates@[k].version@,
                ),
        decreases crates.len() - i,
    {
        match release::render_tag_name(
            tag_template,
            crates[i].name.as_str(),
            &crates[i].version,
            crates.len(),
        ) {
            Ok(tag) => {
                tags.push(tag);
            },
            Err(error) => {
                return Err(error);
            },
        }
        i += 1;
    }
    Ok(tags)
}

/// A version that is to be published, and the tag it gets.
#[derive(Debug)]
pub struct Pending {
    pub crate_name: String,
    pub version: Version,
    pub tag: String,
}

/// A version that is to be published, in specifications.
pub struct PendingView {
    pub crate_name: Seq<char>,
    pub version: VersionView,
    pub tag: Seq<char>,
}

/// A list of versions that are to be published, in specifications.
pub open spec fn pending_views(list: Seq<Pending>) -> Seq<PendingView> {
    list.map_values(|entry: Pending| entry@)
}

impl View for Pending {
    type V = PendingView;

    open spec fn view(&self) -> PendingView {
        PendingView { crate_name: self.crate_name@, version: self.version@, tag: self.tag@ }
    }
}

/// A text of the list names the path.
pub open spec fn path_listed(files: Seq<Seq<char>>, path: Seq<char>) -> bool {
    exists|k: int|
        0 <= k < files.len() && path::path_of(#[trigger] files[k]) == path::path_of(path)
}

/// The manifest is among the files that a merge changed; without a merge every manifest is.
pub open spec fn in_merge(manifest_path: Seq<char>, merged: Option<Seq<Seq<char>>>) -> bool {
    match merged {
        Some(files) => path_listed(files, manifest_path),
        None => true,
    }
}

/// The files that a merge changed, in specifications.
pub open spec fn merged_files(merged: Option<&Vec<String>>) -> Option<Seq<Seq<char>>> {
    match merged {
        Some(files) => Some(text::texts(files@)),
        None => None,
    }
}

/// The versions that are to be published: those whose tags do not exist, of the crates
/// whose manifests a merge changed.
pub open spec fn pending_of(
    crates: Seq<CrateInfo>,
    tags: Seq<String>,
    exist: Seq<bool>,
    merged: Option<Seq<Seq<char>>>,
) -> Seq<PendingView>
    decreases crates.len(),
{
    if crates.len() == 0 {
        Seq::empty()
    } else {
        let before = pending_of(crates.drop_last(), tags.drop_last(), exist.drop_last(), merged);
        if exist.last() || !in_merge(crates.last().manifest_path@, merged) {
            before
        } else {
            before.push(
                PendingView {
                    crate_name: crates.last().name@,
                    version: crates.last().version@,
                    tag: tags.last()@,
                },
            )
        }
    }
}

/// Whether the manifest is among the files that a merge changed.
fn manifest_in_merge(manifest_path: &str, merged: Option<&Vec<String>>) -> (b: bool)
    ensures
        b == in_merge(manifest_path@, merged_files(merged)),
{
    match merged {
        Some(files) => {
            let ghost all = text::texts(files@);
            let mut i: usize = 0;
            while i < files.len()
                invariant
                    i <= files.len(),
                    merged == Some(files),
                    all == text::texts(files@),
                    forall|k: int|
                        0 <= k < i ==> path::path_of(#[trigger] all[k]) != path::path_of(
                            manifest_path@,
                        ),
                decreases files.len() - i,
            {
                assert(all[i as int] == files@[i as int]@);
                proof {
                    path::path_rank_swaps(
                        path::path_of(all[i as int]),
                        path::path_of(manifest_path@),
                    );
                }
                let rank = path::rank_paths(files[i].as_str(), manifest_path);
                if rank == Rank::Same {
                    assert(path_listed(all, manifest_path@));
                    return true;
                }
                i += 1;
            }
            false
        },
        None => true,
    }
}

/// The versions that are to be published: those whose tags do not exist, of the crates
/// whose manifests a merge changed.
pub fn pending_publications(
    crates: &Vec<CrateInfo>,
    tags: &Vec<String>,
    exist: &Vec<bool>,
    merged: Option<&Vec<String>>,
) -> (result: Vec<Pending>)
    requires
        crates.len() == tags.len() == exist.len(),
    ensures
        pending_views(result@) == pending_of(crates@, tags@, exist@, merged_files(merged)),
{
    let mut result: Vec<Pending> = Vec::new();
    let ghost files = merged_files(merged);
    let mut i: usize = 0;
    assert(pending_views(result@) =~= pending_of(
        crates@.take(0),
        tags@.take(0),
        exist@.take(0),
        files,
    ));
    while i < crates.len()
        invariant
            i <= crates.len() == tags.len() == exist.len(),
            files == merged_files(merged),
            pending_views(result@) == pending_of(
                crates@.take(i as int),
                tags@.take(i as int),
                exist@.take(i as int),
                files,
            ),
        decreases crates.len() - i,
    {
        proof {
            assert(crates@.take(i + 1).drop_last() =~= crates@.take(i as int));
            assert(tags@.take(i + 1).drop_last() =~= tags@.take(i as int));
            assert(exist@.take(i + 1).drop_last() =~= exist@.take(i as int));
        }
        if !exist[i] && manifest_in_merge(crates[i].manifest_path.as_str(), merged) {
            let ghost before = result@;
            let pending = Pending {
                crate_name: crates[i].name.clone(),
                version: crates[i].version.clone(),
                tag: tags[i].clone(),
            };
            result.push(pending);
            assert(pending_views(result@) =~= pending_views(before).push(pending@));
        }
        i += 1;
    }
    assert(crates@.take(i as int) =~= crates@);
    assert(tags@.take(i as int) =~= tags@);
    assert(exist@.take(i as int) =~= exist@);
    result
}

/// Every version that is to be published is that of a crate whose tag does not exist.
pub proof fn pending_tags_are_missing(
    crates: Seq<CrateInfo>,
    tags: Seq<String>,
    exist: Seq<bool>,
    merged: Option<Seq<Seq<char>>>,
    k: int,
)
    requires
        crates.len() == tags.len() == exist.len(),
        0 <= k < pending_of(crates, tags, exist, merged).len(),
    ensures
        exists|i: int|
            {
                &&& 0 <= i < crates.len()
                &&& !exist[i]
                &&& in_merge((#[trigger] crates[i]).manifest_path@, merged)
                &&& pending_of(crates, tags, exist, merged)[k] == PendingView {
                    crate_name: crates[i].name@,
                    version: crates[i].version@,
                    tag: tags[i]@,
                }
            },
    decreases crates.len(),
{
    let n = crates.len() - 1;
    let before = pending_of(crates.drop_last(), tags.drop_last(), exist.drop_last(), merged);
    let all = pending_of(crates, tags, exist, merged);
    if k < before.len() {
        assert(all[k] == before[k]);
        pending_tags_are_missing(
            crates.drop_last(),
            tags.drop_last(),
            exist.drop_last(),
            merged,
            k,
        );
        let i = choose|i: int|
            {
                &&& 0 <= i < crates.drop_last().len()
                &&& !exist.drop_last()[i]
                &&& in_merge((#[trigger] crates.drop_last()[i]).manifest_path@, merged)
                &&& before[k] == PendingView {
                    crate_name: crates.drop_last()[i].name@,
                    version: crates.drop_last()[i].version@,
                    tag: tags.drop_last()[i]@,
                }
            };
        assert(crates[i] == crates.drop_last()[i]);
    } else {
        assert(crates[n] == crates.last());
    }
}

proof fn missing_tags_are_pending(
    crates: Seq<CrateInfo>,
    tags: Seq<String>,
    exist: Seq<bool>,
    merged: Option<Seq<Seq<char>>>,
    i: int,
)
    requires
        crates.len() == tags.len() == exist.len(),
        0 <= i < crates.len(),
        !exist[i],
        in_merge(crates[i].manifest_path@, merged),
    ensures
        tags_of(pending_of(crates, tags, exist, merged)).contains(tags[i]@),
    decreases crates.len(),
{
    let n = crates.len() - 1;
    let before = pending_of(crates.drop_last(), tags.drop_last(), exist.drop_last(), merged);
    let all = pending_of(crates, tags, exist, merged);
    if i < n {
        missing_tags_are_pending(
            crates.drop_last(),
            tags.drop_last(),
            exist.drop_last(),
            merged,
            i,
        );
        let k = tags_of(before).index_of(tags[i]@);
        assert(tags_of(before)[k] == before[k].tag);
        assert(all[k] == before[k]);
        assert(tags_of(all)[k] == tags[i]@);
    } else {
        assert(all[before.len() as int].tag == tags[i]@);
        assert(tags_of(all)[before.len() as int] == tags[i]@);
    }
}

/// The tags of the versions that are to be published.
pub open spec fn tags_of(pending: Seq<PendingView>) -> Seq<Seq<char>> {
    pending.map_values(|entry: PendingView| entry.tag)
}

/// Nothing is published twice: where all tags exist, nothing is to be published.
pub proof fn nothing_pending_once_tagged(
    crates: Seq<CrateInfo>,
    tags: Seq<String>,
    exist: Seq<bool>,
    merged: Option<Seq<Seq<char>>>,
)
    requires
        crates.len() == exist.len(),
        forall|i: int| 0 <= i < exist.len() ==> #[trigger] exist[i],
    ensures
        pending_of(crates, tags, exist, merged).len() == 0,
    decreases crates.len(),
{
    if crates.len() > 0 {
        assert(exist[exist.len() - 1]);
        let rest = exist.drop_last();
        assert forall|i: int| 0 <= i < rest.len() implies #[trigger] rest[i] by {
            assert(exist[i]);
        }
        nothing_pending_once_tagged(crates.drop_last(), tags.drop_last(), rest, merged);
    }
}

/// The line of a version that is to be published.
pub open spec fn pending_line(pending: PendingView) -> Seq<char> {
    "- crate: "@ + pending.crate_name + " version: "@ + version::version_text(pending.version)
        + " tag: "@ + pending.tag + "\n"@
}

/// The lines of the versions that are to be published.
pub open spec fn pending_lines(list: Seq<PendingView>) -> Seq<char>
    decreases list.len(),
{
    if list.len() == 0 {
        Seq::empty()
    } else {
        pending_lines(list.drop_last()) + pending_line(list.last())
    }
}

/// The list of the versions that are to be published.
pub fn publish_report(pending: &Vec<Pending>) -> (result: String)
    ensures
        result@ == if pending.len() == 0 {
            "publish plan: no new crate versions to tag or release\n"@
        } else {
            "publish plan:\n"@ + pending_lines(pending_views(pending@))
        },
{
    if pending.len() == 0 {
        return "publish plan: no new crate versions to tag or release\n".to_owned();
    }
    let mut report = "publish plan:\n".to_owned();
    let ghost all = pending_views(pending@);
    let mut i: usize = 0;
    assert("publish plan:\n"@ + pending_lines(all.take(0)) =~= report@);
    while i < pending.len()
        invariant
            i <= pending.len(),
            all == pending_views(pending@),
            report@ == "publish plan:\n"@ + pending_lines(all.take(i as int)),
        decreases pending.len() - i,
    {
        let entry = &pending[i];
        let line = "- crate: ".to_owned().concat(entry.crate_name.as_str()).concat(
            " version: ",
        ).concat(entry.version.to_text().as_str()).concat(" tag: ").concat(
            entry.tag.as_str(),
        ).concat("\n");
        assert(line@ == pending_line(all[i as int]));
        let ghost so_far = report@;
        report.append(line.as_str());
        proof {
            assert(all.take(i + 1).drop_last() =~= all.take(i as int));
            assert(so_far + line@ =~= "publish plan:\n"@ + pending_lines(all.take(i + 1)));
        }
        i += 1;
    }
    assert(all.take(i as int) =~= all);
    report
}

/// The last notes for the crate of the name.
pub open spec fn notes_named(notes: Seq<CrateReleaseNotes>, name: Seq<char>) -> Option<int>
    decreases notes.len(),
{
    if notes.len() == 0 {
        None
    } else if notes.last().crate_name@ == name {
        Some(notes.len() - 1)
    } else {
        notes_named(notes.drop_last(), name)
    }
}

/// What the release of a version says.
pub open spec fn release_notes_text(
    crate_name: Seq<char>,
    version: VersionView,
    notes: Seq<CrateReleaseNotes>,
) -> Seq<char> {
    match notes_named(notes, crate_name) {
        Some(i) => changelog::notes_text(text::maybe_text(notes[i].base_ref), notes[i].commits@),
        None => "Automated publish for crate `"@ + crate_name + "` at version `"@
            + version::version_text(version) + "`."@,
    }
}

/// What the release of a version says: the notes of its crate where there are any.
pub fn publish_notes(
    crate_name: &str,
    version: &Version,
    notes: &Vec<CrateReleaseNotes>,
) -> (result: String)
    requires
        forall|i: int|
            0 <= i < notes.len() ==> changelog::hashes_can_be_cut((#[trigger] notes@[i]).commits@),
    ensures
        result@ == release_notes_text(crate_name@, version@, notes@),
{
    let mut n: usize = notes.len();
    assert(notes@.take(n as int) =~= notes@);
    while n > 0
        invariant
            n <= notes.len(),
            forall|i: int|
                0 <= i < notes.len() ==> changelog::hashes_can_be_cut(
                    (#[trigger] notes@[i]).commits@,
                ),
            notes_named(notes@, crate_name@) == notes_named(notes@.take(n as int), crate_name@),
        decreases n,
    {
        assert(notes@.take(n as int).drop_last() =~= notes@.take(n - 1));
        let entry = &notes[n - 1];
        if text::same_text(entry.crate_name.as_str(), crate_name) {
            return changelog::render_release_notes(
                text::borrow_text(&entry.base_ref),
                &entry.commits,
            );
        }
        n -= 1;
    }
    "Automated publish for crate `".to_owned().concat(crate_name).concat("` at version `").concat(
        version.to_text().as_str(),
    ).concat("`.")
}

/// What a push is answered with.
#[derive(Debug, Clone, Copy, PartialEq, Eq, Structural)]
pub enum MergeDecision {
    /// There is no push to look at.
    NotAPush,
    /// The push changed nothing.
    NoChanges,
    /// The push is not the merge of a release.
    NotARelease,
    /// The push is the merge of a release.
    Publish,
}

/// Whether a push is the merge of a release, by the files that it changed.
pub fn publish_on_merge(files: Option<&Vec<String>>) -> (decision: MergeDecision)
    ensures
        decision == match files {
            None => MergeDecision::NotAPush,
            Some(list) => if list@.len() == 0 {
                MergeDecision::NoChanges
            } else if release::release_payload(text::texts(list@)) {
                MergeDecision::Publish
            } else {
                MergeDecision::NotARelease
            },
        },
{
    match files {
        None => MergeDecision::NotAPush,
        Some(list) => {
            if list.len() == 0 {
                MergeDecision::NoChanges
            } else if release::is_release_merge_payload(list) {
                MergeDecision::Publish
            } else {
                MergeDecision::NotARelease
            }
        },
    }
}

/// What is said of a push that is not published.
pub fn skipped_merge(decision: MergeDecision) -> (result: Option<String>)
    ensures
        text::maybe_text(result) == match decision {
            MergeDecision::NotAPush => Some(
                "publish-on-merge: skipped (not a push merge payload)"@,
            ),
            MergeDecision::NoChanges => Some("publish-on-merge: skipped (no changed files)"@),
            MergeDecision::NotARelease => Some(
                "publish-on-merge: skipped (changes are not release payload)"@,
            ),
            MergeDecision::Publish => None,
        },
{
    match decision {
        MergeDecision::NotAPush => Some(
            "publish-on-merge: skipped (not a push merge payload)".to_owned(),
        ),
        MergeDecision::NoChanges => Some(
            "publish-on-merge: skipped (no changed files)".to_owned(),
        ),
        MergeDecision::NotARelease => Some(
            "publish-on-merge: skipped (changes are not release payload)".to_owned(),
        ),
        MergeDecision::Publish => None,
    }
}

/// One step of a publication.
#[derive(Debug, PartialEq, Eq)]
pub enum PublishStep {
    CreateTag { tag: String, message: String },
    PushTag { tag: String },
    CreateRelease { tag: String, title: String, notes: String },
}

/// One step of a publication, in specifications.
pub enum StepView {
    CreateTag { tag: Seq<char>, message: Seq<char> },
    PushTag { tag: Seq<char> },
    CreateRelease { tag: Seq<char>, title: Seq<char>, notes: Seq<char> },
}

impl View for PublishStep {
    type V = StepView;

    open spec fn view(&self) -> StepView {
        match self {
            PublishStep::CreateTag { tag, message } => StepView::CreateTag {
                tag: tag@,
                message: message@,
            },
            PublishStep::PushTag { tag } => StepView::PushTag { tag: tag@ },
            PublishStep::CreateRelease { tag, title, notes } => StepView::CreateRelease {
                tag: tag@,
                title: title@,
                notes: notes@,
            },
        }
    }
}

/// A list of steps in specifications.
pub open spec fn step_views(steps: Seq<PublishStep>) -> Seq<StepView> {
    steps.map_values(|step: PublishStep| step@)
}

/// The steps of a tag: it is created, and pushed where tags are pushed.
pub open spec fn tag_steps(tag: Seq<char>, message: Seq<char>, push: bool) -> Seq<StepView> {
    if push {
        seq![StepView::CreateTag { tag, message }, StepView::PushTag { tag }]
    } else {
        seq![StepView::CreateTag { tag, message }]
    }
}

/// The steps of one version: those of its tag, and its release where releases are made.
pub open spec fn version_steps(
    pending: PendingView,
    notes: Seq<CrateReleaseNotes>,
    push: bool,
    create_release: bool,
) -> Seq<StepView> {
    let message = report::message_of_tag(pending.crate_name, pending.version);
    let tagging = tag_steps(pending.tag, message, push);
    if create_release {
        tagging.push(
            StepView::CreateRelease {
                tag: pending.tag,
                title: message,
                notes: release_notes_text(pending.crate_name, pending.version, notes),
            },
        )
    } else {
        tagging
    }
}

/// The steps of all versions, one version after the other.
pub open spec fn steps_of(
    pending: Seq<PendingView>,
    notes: Seq<CrateReleaseNotes>,
    push: bool,
    create_release: bool,
) -> Seq<StepView>
    decreases pending.len(),
{
    if pending.len() == 0 {
        Seq::empty()
    } else {
        steps_of(pending.drop_last(), notes, push, create_release) + version_steps(
            pending.last(),
            notes,
            push,
            create_release,
        )
    }
}

/// The steps of a publication; a dry run has none.
pub open spec fn publication(
    pending: Seq<PendingView>,
    notes: Seq<CrateReleaseNotes>,
    dry_run: bool,
    push: bool,
    create_release: bool,
) -> Seq<StepView> {
    if dry_run {
        Seq::empty()
    } else {
        steps_of(pending, notes, push, create_release)
    }
}

/// Every note can be written.
pub open spec fn notes_can_be_written(notes: Seq<CrateReleaseNotes>) -> bool {
    forall|i: int|
        0 <= i < notes.len() ==> changelog::hashes_can_be_cut((#[trigger] notes[i]).commits@)
}

/// Adds the steps of a tag: it is created, and pushed where tags are pushed.
pub fn append_tag_steps(steps: &mut Vec<PublishStep>, tag: &str, message: &str, push: bool)
    ensures
        step_views(final(steps)@) == step_views(old(steps)@) + tag_steps(tag@, message@, push),
{
    let ghost before = step_views(steps@);
    steps.push(PublishStep::CreateTag { tag: tag.to_owned(), message: message.to_owned() });
    if push {
        steps.push(PublishStep::PushTag { tag: tag.to_owned() });
    }
    assert(step_views(steps@) =~= before + tag_steps(tag@, message@, push));
}

/// The steps of a publication: for each version in turn, its tag, the push of the tag where
/// tags are pushed, and its release where releases are made. A dry run has no steps.
pub fn publish_steps(
    pending: &Vec<Pending>,
    notes: &Vec<CrateReleaseNotes>,
    dry_run: bool,
    push: bool,
    create_release: bool,
) -> (steps: Vec<PublishStep>)
    requires
        notes_can_be_written(notes@),
    ensures
        step_views(steps@) == publication(
            pending_views(pending@),
            notes@,
            dry_run,
            push,
            create_release,
        ),
{
    let mut steps: Vec<PublishStep> = Vec::new();
    assert(step_views(steps@) =~= Seq::empty());
    if dry_run {
        return steps;
    }
    let ghost all = pending_views(pending@);
    let mut i: usize = 0;
    while i < pending.len()
        invariant
            i <= pending.len(),
            all == pending_views(pending@),
            notes_can_be_written(notes@),
            step_views(steps@) == steps_of(all.take(i as int), notes@, push, create_release),
        decreases pending.len() - i,
    {
        let entry = &pending[i];
        let ghost so_far = step_views(steps@);
        assert(all[i as int] == entry@);
        let title = report::tag_message(entry.crate_name.as_str(), &entry.version);
        append_tag_steps(&mut steps, entry.tag.as_str(), title.as_str(), push);
        if create_release {
            let ghost tagged = steps@;
            let text = publish_notes(entry.crate_name.as_str(), &entry.version, notes);
            let step = PublishStep::CreateRelease { tag: entry.tag.clone(), title, notes: text };
            steps.push(step);
            assert(step_views(steps@) =~= step_views(tagged).push(step@));
        }
        proof {
            assert(all.take(i + 1).drop_last() =~= all.take(i as int));
            assert(step_views(steps@) =~= so_far + version_steps(
                all[i as int],
                notes@,
                push,
                create_release,
            ));
        }
        i += 1;
    }
    assert(all.take(i as int) =~= all);
    steps
}

/// The steps after a push: those of the publication of the versions whose manifests the
/// push changed where it is the merge of a release, and none where it is not.
pub open spec fn merge_publication(
    files: Option<Seq<Seq<char>>>,
    crates: Seq<CrateInfo>,
    tags: Seq<String>,
    exist: Seq<bool>,
    notes: Seq<CrateReleaseNotes>,
    dry_run: bool,
    push: bool,
    create_release: bool,
) -> Seq<StepView> {
    match files {
        Some(list) => if release::release_payload(list) {
            publication(
                pending_of(crates, tags, exist, files),
                notes,
                dry_run,
                push,
                create_release,
            )
        } else {
            Seq::empty()
        },
        None => Seq::empty(),
    }
}

/// The steps after a push: those of the publication of the versions whose manifests the
/// push changed where it is the merge of a release, and none where it is not.
pub fn merge_steps(
    files: Option<&Vec<String>>,
    crates: &Vec<CrateInfo>,
    tags: &Vec<String>,
    exist: &Vec<bool>,
    notes: &Vec<CrateReleaseNotes>,
    dry_run: bool,
    push: bool,
    create_release: bool,
) -> (steps: Vec<PublishStep>)
    requires
        crates.len() == tags.len() == exist.len(),
        notes_can_be_written(notes@),
    ensures
        step_views(steps@) == merge_publication(
            merged_files(files),
            crates@,
            tags@,
            exist@,
            notes@,
            dry_run,
            push,
            create_release,
        ),
{
    match publish_on_merge(files) {
        MergeDecision::Publish => {
            let pending = pending_publications(crates, tags, exist, files);
            publish_steps(&pending, notes, dry_run, push, create_release)
        },
        _ => {
            let steps: Vec<PublishStep> = Vec::new();
            assert(step_views(steps@) =~= Seq::empty());
            proof {
                if let Some(list) = files {
                    assert(text::texts(list@).len() == list@.len());
                }
            }
            steps
        },
    }
}

/// The tags that the steps create, in order.
pub open spec fn created_tags(steps: Seq<StepView>) -> Seq<Seq<char>>
    decreases steps.len(),
{
    if steps.len() == 0 {
        Seq::empty()
    } else {
        let before = created_tags(steps.drop_last());
        match steps.last() {
            StepView::CreateTag { tag, .. } => before.push(tag),
            _ => before,
        }
    }
}

/// The tags that the steps push, in order.
pub open spec fn pushed_tags(steps: Seq<StepView>) -> Seq<Seq<char>>
    decreases steps.len(),
{
    if steps.len() == 0 {
        Seq::empty()
    } else {
        let before = pushed_tags(steps.drop_last());
        match steps.last() {
            StepView::PushTag { tag } => before.push(tag),
            _ => before,
        }
    }
}

/// The tags of two runs of steps are those of the one and those of the other.
pub proof fn tags_join(a: Seq<StepView>, b: Seq<StepView>)
    ensures
        created_tags(a + b) == created_tags(a) + created_tags(b),
        pushed_tags(a + b) == pushed_tags(a) + pushed_tags(b),
    decreases b.len(),
{
    if b.len() == 0 {
        assert(a + b =~= a);
        assert(created_tags(a) + created_tags(b) =~= created_tags(a));
        assert(pushed_tags(a) + pushed_tags(b) =~= pushed_tags(a));
    } else {
        assert((a + b).drop_last() =~= a + b.drop_last());
        tags_join(a, b.drop_last());
        assert(created_tags(a + b) =~= created_tags(a) + created_tags(b));
        assert(pushed_tags(a + b) =~= pushed_tags(a) + pushed_tags(b));
    }
}

/// The steps of a tag create it, and push it where tags are pushed.
pub proof fn tags_of_tag_steps(tag: Seq<char>, message: Seq<char>, push: bool)
    ensures
        created_tags(tag_steps(tag, message, push)) == seq![tag],
        pushed_tags(tag_steps(tag, message, push)) == if push {
            seq![tag]
        } else {
            Seq::empty()
        },
{
    let create = StepView::CreateTag { tag, message };
    let one = seq![create];
    let none = Seq::<StepView>::empty();
    assert(one.drop_last() =~= none);
    assert(created_tags(none) =~= Seq::empty());
    assert(pushed_tags(none) =~= Seq::empty());
    assert(created_tags(one) =~= seq![tag]);
    assert(pushed_tags(one) =~= Seq::empty());
    if push {
        let two = seq![create, StepView::PushTag { tag }];
        assert(two.drop_last() =~= one);
        assert(created_tags(two) =~= seq![tag]);
        assert(pushed_tags(two) =~= seq![tag]);
    }
}

/// A publication creates exactly the tags of the versions that are to be published, in
/// their order, and pushes exactly those where tags are pushed.
pub proof fn published_tags_are_the_pending_ones(
    pending: Seq<PendingView>,
    notes: Seq<CrateReleaseNotes>,
    push: bool,
    create_release: bool,
)
    ensures
        created_tags(publication(pending, notes, false, push, create_release)) == tags_of(pending),
        pushed_tags(publication(pending, notes, false, push, create_release)) == if push {
            tags_of(pending)
        } else {
            Seq::empty()
        },
    decreases pending.len(),
{
    if pending.len() == 0 {
        assert(tags_of(pending) =~= Seq::empty());
    } else {
        let rest = pending.drop_last();
        let last = pending.last();
        let before = steps_of(rest, notes, push, create_release);
        let own = version_steps(last, notes, push, create_release);
        let message = report::message_of_tag(last.crate_name, last.version);
        published_tags_are_the_pending_ones(rest, notes, push, create_release);
        tags_of_tag_steps(last.tag, message, push);
        if create_release {
            assert(own.drop_last() =~= tag_steps(last.tag, message, push));
        }
        tags_join(before, own);
        assert(tags_of(pending) =~= tags_of(rest).push(last.tag));
        assert(tags_of(rest) + seq![last.tag] =~= tags_of(rest).push(last.tag));
        assert(Seq::<Seq<char>>::empty() + Seq::<Seq<char>>::empty() =~= Seq::empty());
    }
}

/// A second publication creates nothing: once the tags of the first exist, no version is
/// left to publish.
pub proof fn second_publication_is_empty(
    crates: Seq<CrateInfo>,
    tags: Seq<String>,
    exist: Seq<bool>,
    notes: Seq<CrateReleaseNotes>,
    push: bool,
    create_release: bool,
    exist_afterwards: Seq<bool>,
)
    requires
        crates.len() == tags.len() == exist.len() == exist_afterwards.len(),
        ({
            let steps = publication(
                pending_of(crates, tags, exist, None),
                notes,
                false,
                push,
                create_release,
            );
            forall|i: int|
                0 <= i < exist.len() ==> #[trigger] exist_afterwards[i] == (exist[i]
                    || created_tags(steps).contains(tags[i]@))
        }),
    ensures
        pending_of(crates, tags, exist_afterwards, None).len() == 0,
{
    let pending = pending_of(crates, tags, exist, None);
    published_tags_are_the_pending_ones(pending, notes, push, create_release);
    assert forall|i: int| 0 <= i < exist_afterwards.len() implies
        #[trigger] exist_afterwards[i] by {
        if !exist[i] {
            missing_tags_are_pending(crates, tags, exist, None, i);
        }
    }
    nothing_pending_once_tagged(crates, tags, exist_afterwards, None);
}

/// A push that is not the merge of a release leads to nothing.
pub proof fn other_pushes_lead_to_nothing(
    files: Option<Seq<Seq<char>>>,
    crates: Seq<CrateInfo>,
    tags: Seq<String>,
    exist: Seq<bool>,
    notes: Seq<CrateReleaseNotes>,
    dry_run: bool,
    push: bool,
    create_release: bool,
)
    requires
        match files {
            Some(list) => list.len() == 0 || !release::release_payload(list),
            None => true,
        },
    ensures
        merge_publication(files, crates, tags, exist, notes, dry_run, push, create_release).len()
            == 0,
{
}

proof fn whole_merge_leaves_nothing_out(
    crates: Seq<CrateInfo>,
    tags: Seq<String>,
    exist: Seq<bool>,
    files: Seq<Seq<char>>,
)
    requires
        forall|i: int|
            0 <= i < crates.len() ==> path_listed(files, (#[trigger] crates[i]).manifest_path@),
    ensures
        pending_of(crates, tags, exist, Some(files)) == pending_of(crates, tags, exist, None),
    decreases crates.len(),
{
    if crates.len() > 0 {
        assert(path_listed(files, crates[crates.len() - 1].manifest_path@));
        let rest = crates.drop_last();
        assert forall|i: int| 0 <= i < rest.len() implies path_listed(
            files,
            (#[trigger] rest[i]).manifest_path@,
        ) by {
            assert(rest[i] == crates[i]);
        }
        whole_merge_leaves_nothing_out(rest, tags.drop_last(), exist.drop_last(), files);
    }
}

/// The merge of a release that changed the manifests of all crates leads to the same steps
/// as a publication without a merge.
pub proof fn merge_of_all_crates_is_a_publication(
    files: Seq<Seq<char>>,
    crates: Seq<CrateInfo>,
    tags: Seq<String>,
    exist: Seq<bool>,
    notes: Seq<CrateReleaseNotes>,
    dry_run: bool,
    push: bool,
    create_release: bool,
)
    requires
        release::release_payload(files),
        forall|i: int|
            0 <= i < crates.len() ==> path_listed(files, (#[trigger] crates[i]).manifest_path@),
    ensures
        merge_publication(
            Some(files),
            crates,
            tags,
            exist,
            notes,
            dry_run,
            push,
            create_release,
        ) == publication(
            pending_of(crates, tags, exist, None),
            notes,
            dry_run,
            push,
            create_release,
        ),
{
    whole_merge_leaves_nothing_out(crates, tags, exist, files);
}

} // verus!
