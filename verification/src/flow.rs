//! The steps of a release and of the pull request of one.

use crate::error::ReleaseError;
use crate::path;
use crate::plan::CrateReleasePlan;
use crate::publish;
use crate::publish::{PublishStep, StepView};
use crate::report;
use crate::text;
use vstd::prelude::*;

verus! {

/// The steps of the tags of the plans, one plan after the other.
pub open spec fn release_steps_of(
    plans: Seq<CrateReleasePlan>,
    tags: Seq<String>,
    push: bool,
) -> Seq<StepView>
    decreases plans.len(),
{
    if plans.len() == 0 {
        Seq::empty()
    } else {
        release_steps_of(plans.drop_last(), tags.drop_last(), push) + publish::tag_steps(
            tags.last()@,
            report::message_of_tag(
                plans.last().crate_name@,
                plans.last().plan.next_version@,
            ),
            push,
        )
    }
}

/// The steps of a release: for each plan in turn, the tag of its version, and the push of
/// the tag where tags are pushed. A dry run has no steps.
pub fn release_steps(
    plans: &Vec<CrateReleasePlan>,
    tags: &Vec<String>,
    dry_run: bool,
    push: bool,
) -> (steps: Vec<PublishStep>)
    requires
        plans.len() == tags.len(),
    ensures
        publish::step_views(steps@) == if dry_run {
            Seq::empty()
        } else {
            release_steps_of(plans@, tags@, push)
        },
{
    let mut steps: Vec<PublishStep> = Vec::new();
    assert(publish::step_views(steps@) =~= Seq::empty());
    if dry_run {
        return steps;
    }
    let mut i: usize = 0;
    while i < plans.len()
        invariant
            i <= plans.len() == tags.len(),
            publish::step_views(steps@) == release_steps_of(
                plans@.take(i as int),
                tags@.take(i as int),
                push,
            ),
        decreases plans.len() - i,
    {
        let message = report::tag_message(
            plans[i].crate_name.as_str(),
            &plans[i].plan.next_version,
        );
        proof {
            assert(plans@.take(i + 1).drop_last() =~= plans@.take(i as int));
            assert(tags@.take(i + 1).drop_last() =~= tags@.take(i as int));
        }
        publish::append_tag_steps(&mut steps, tags[i].as_str(), message.as_str(), push);
        i += 1;
    }
    assert(plans@.take(i as int) =~= plans@);
    assert(tags@.take(i as int) =~= tags@);
    steps
}

/// How far the pull request of a release has come.
#[derive(Debug)]
pub enum PrStage {
    /// The plans were made.
    Start,
    /// The branch is being started.
    Branching,
    /// The files are being changed.
    Updating,
    /// The changed files are being staged.
    Staging { files: Vec<String> },
    /// Git was asked whether anything is staged.
    Asking { files: Vec<String> },
    /// What is staged is being committed, or nothing was.
    Committing { files: Vec<String> },
    /// The branch is being pushed.
    Pushing { files: Vec<String> },
    /// Nothing more is to be done once the last action was.
    Finished,
}

/// What came of the last action.
#[derive(Debug)]
pub enum PrEvent {
    /// It was done.
    Done,
    /// The files were changed: the manifests with other versions, those with other
    /// requirements, and whether the lockfile was.
    FilesChanged { versions: Vec<String>, requirements: Vec<String>, lockfile_changed: bool },
    /// Whether anything is staged.
    Staged { any: bool },
}

/// What is to be done next.
#[derive(Debug, PartialEq, Eq)]
pub enum PrAction {
    /// There is nothing to release.
    Skip,
    /// Start the branch anew and switch to it.
    Checkout { branch: String },
    /// Set the versions, the requirements and the lockfile.
    UpdateFiles,
    /// See to the identity of the author, and stage the files.
    Stage { files: Vec<String> },
    /// Ask git whether anything is staged.
    AskStaged,
    /// Commit what is staged.
    Commit { message: String },
    /// There is nothing to commit.
    KeepCommit,
    /// Push the branch.
    Push { branch: String },
    /// Open the pull request, or update the one that is open.
    OpenRequest { base_branch: String, branch: String, title: String, body: String },
}

/// The event is one that the stage waits for.
pub open spec fn event_fits(stage: PrStage, event: PrEvent) -> bool {
    match stage {
        PrStage::Updating => event is FilesChanged,
        PrStage::Asking { .. } => event is Staged,
        PrStage::Finished => false,
        _ => event is Done,
    }
}

/// The files that were changed: manifests, and the lockfile.
pub open spec fn files_changed(
    versions: Seq<String>,
    requirements: Seq<String>,
    lockfile_changed: bool,
) -> Seq<Seq<char>> {
    let manifests = text::texts(versions) + text::texts(requirements);
    if lockfile_changed {
        manifests.push("Cargo.lock"@)
    } else {
        manifests
    }
}

/// How the pull request of a release goes on: without plans it ends; else the branch is
/// started, the files are changed and staged, a commit is made where anything is staged, the
/// branch is pushed, and the request is opened.
pub open spec fn pr_stepped(
    stage: PrStage,
    event: PrEvent,
    plans: Seq<CrateReleasePlan>,
    base: Seq<char>,
    head: Seq<char>,
    result: Result<(PrStage, PrAction), ReleaseError>,
) -> bool {
    match (stage, event) {
        (PrStage::Start, _) => if plans.len() == 0 {
            result == Ok::<(PrStage, PrAction), ReleaseError>((PrStage::Finished, PrAction::Skip))
        } else {
            result matches Ok((PrStage::Branching, PrAction::Checkout { branch })) && branch@
                == head
        },
        (PrStage::Branching, _) => result == Ok::<(PrStage, PrAction), ReleaseError>(
            (PrStage::Updating, PrAction::UpdateFiles),
        ),
        (
            PrStage::Updating,
            PrEvent::FilesChanged { versions, requirements, lockfile_changed },
        ) => {
            let all = files_changed(versions@, requirements@, lockfile_changed);
            if all.len() == 0 {
                result == Err::<(PrStage, PrAction), ReleaseError>(ReleaseError::NothingToUpdate)
            } else {
                result matches Ok((PrStage::Staging { files }, PrAction::Stage { files: staged }))
                    && path::sorted_paths(all, text::texts(files@)) && text::texts(staged@)
                    == text::texts(files@)
            }
        },
        (PrStage::Staging { files }, _) => result == Ok::<(PrStage, PrAction), ReleaseError>(
            (PrStage::Asking { files }, PrAction::AskStaged),
        ),
        (PrStage::Asking { files }, PrEvent::Staged { any }) => if any {
            result matches Ok((PrStage::Committing { files: kept }, PrAction::Commit { message }))
                && kept == files && message@ == report::pr_title(plans)
        } else {
            result == Ok::<(PrStage, PrAction), ReleaseError>(
                (PrStage::Committing { files }, PrAction::KeepCommit),
            )
        },
        (PrStage::Committing { files }, _) => result matches Ok(
            (PrStage::Pushing { files: kept }, PrAction::Push { branch }),
        ) && kept == files && branch@ == head,
        (PrStage::Pushing { files }, _) => result matches Ok(
            (
                PrStage::Finished,
                PrAction::OpenRequest { base_branch, branch, title, body },
            ),
        ) && base_branch@ == base && branch@ == head && title@ == report::pr_title(plans) && body@
            == report::pr_body(plans, text::texts(files@)),
        _ => true,
    }
}

/// The place of a stage in the order of stages.
pub open spec fn stage_number(stage: PrStage) -> nat {
    match stage {
        PrStage::Start => 0,
        PrStage::Branching => 1,
        PrStage::Updating => 2,
        PrStage::Staging { .. } => 3,
        PrStage::Asking { .. } => 4,
        PrStage::Committing { .. } => 5,
        PrStage::Pushing { .. } => 6,
        PrStage::Finished => 7,
    }
}

/// What is to be done next for the pull request of a release.
pub fn release_pr_step(
    stage: PrStage,
    event: PrEvent,
    plans: &Vec<CrateReleasePlan>,
    base_branch: &str,
    pr_branch: &str,
) -> (result: Result<(PrStage, PrAction), ReleaseError>)
    requires
        event_fits(stage, event),
        stage is Pushing ==> report::plans_can_be_written(plans@),
    ensures
        pr_stepped(stage, event, plans@, base_branch@, pr_branch@, result),
        result matches Ok((next, _)) ==> stage_number(next) > stage_number(stage),
{
    match (stage, event) {
        (PrStage::Start, _) => {
            if plans.len() == 0 {
                Ok((PrStage::Finished, PrAction::Skip))
            } else {
                Ok((PrStage::Branching, PrAction::Checkout { branch: pr_branch.to_owned() }))
            }
        },
        (PrStage::Branching, _) => Ok((PrStage::Updating, PrAction::UpdateFiles)),
        (
            PrStage::Updating,
            PrEvent::FilesChanged { versions, requirements, lockfile_changed },
        ) => match report::changed_files(&versions, &requirements, lockfile_changed) {
            Ok(files) => {
                let staged = copied(&files);
                Ok((PrStage::Staging { files }, PrAction::Stage { files: staged }))
            },
            Err(error) => Err(error),
        },
        (PrStage::Staging { files }, _) => Ok((PrStage::Asking { files }, PrAction::AskStaged)),
        (PrStage::Asking { files }, PrEvent::Staged { any }) => {
            if any {
                let message = report::release_pr_title(plans);
                Ok((PrStage::Committing { files }, PrAction::Commit { message }))
            } else {
                Ok((PrStage::Committing { files }, PrAction::KeepCommit))
            }
        },
        (PrStage::Committing { files }, _) => Ok(
            (PrStage::Pushing { files }, PrAction::Push { branch: pr_branch.to_owned() }),
        ),
        (PrStage::Pushing { files }, _) => {
            let title = report::release_pr_title(plans);
            let body = report::release_pr_body(plans, &files);
            Ok(
                (
                    PrStage::Finished,
                    PrAction::OpenRequest {
                        base_branch: base_branch.to_owned(),
                        branch: pr_branch.to_owned(),
                        title,
                        body,
                    },
                ),
            )
        },
        _ => Ok((PrStage::Finished, PrAction::Skip)),
    }
}

fn copied(list: &Vec<String>) -> (result: Vec<String>)
    ensures
        text::texts(result@) == text::texts(list@),
{
    let mut result: Vec<String> = Vec::new();
    let mut i: usize = 0;
    while i < list.len()
        invariant
            i <= list.len(),
            result.len() == i,
            forall|k: int| 0 <= k < i ==> (#[trigger] result@[k])@ == list@[k]@,
        decreases list.len() - i,
    {
        result.push(list[i].clone());
        i += 1;
    }
    assert(text::texts(result@) =~= text::texts(list@));
    result
}

/// A release creates exactly the tags of its plans, in their order, and pushes exactly those
/// where tags are pushed.
pub proof fn released_tags_are_the_planned_ones(
    plans: Seq<CrateReleasePlan>,
    tags: Seq<String>,
    push: bool,
)
    requires
        plans.len() == tags.len(),
    ensures
        publish::created_tags(release_steps_of(plans, tags, push)) == text::texts(tags),
        publish::pushed_tags(release_steps_of(plans, tags, push)) == if push {
            text::texts(tags)
        } else {
            Seq::empty()
        },
    decreases plans.len(),
{
    if plans.len() == 0 {
        assert(text::texts(tags) =~= Seq::empty());
    } else {
        let message = report::message_of_tag(
            plans.last().crate_name@,
            plans.last().plan.next_version@,
        );
        let before = release_steps_of(plans.drop_last(), tags.drop_last(), push);
        let own = publish::tag_steps(tags.last()@, message, push);
        released_tags_are_the_planned_ones(plans.drop_last(), tags.drop_last(), push);
        publish::tags_of_tag_steps(tags.last()@, message, push);
        publish::tags_join(before, own);
        assert(text::texts(tags) =~= text::texts(tags.drop_last()) + seq![tags.last()@]);
        assert(Seq::<Seq<char>>::empty() + Seq::<Seq<char>>::empty() =~= Seq::empty());
    }
}

} // verus!
