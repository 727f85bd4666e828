//! Publishing versions and tagging releases.

use crate::error::ReleaseError;
use crate::flow;
use crate::laws::counting;
use crate::path;
use crate::plan::{CrateInfo, CrateReleaseNotes, CrateReleasePlan};
use crate::publish;
use crate::publish::{Pending, PendingView, PublishStep, StepView};
use crate::release;
use crate::report;
use crate::text;
use crate::version;
use crate::version::Version;
use vstd::prelude::*;

verus! {

/// Which crates are to be published: those without a tag, and after a merge those of them
/// whose manifests are among the files that it changed.
pub open spec fn due(
    crates: Seq<CrateInfo>,
    exist: Seq<bool>,
    merged: Option<&Vec<String>>,
) -> Seq<bool> {
    Seq::new(
        crates.len(),
        |i: int|
            !exist[i] && (merged matches Some(files) ==> exists|k: int|
                0 <= k < files@.len() && path::path_of((#[trigger] files@[k])@) == path::path_of(
                    crates[i].manifest_path@,
                )),
    )
}

proof fn due_is_in_merge(
    crates: Seq<CrateInfo>,
    exist: Seq<bool>,
    merged: Option<&Vec<String>>,
    i: int,
)
    requires
        0 <= i < crates.len(),
    ensures
        due(crates, exist, merged)[i] == (!exist[i] && publish::in_merge(
            crates[i].manifest_path@,
            publish::merged_files(merged),
        )),
{
    if let Some(files) = merged {
        let all = text::texts(files@);
        let manifest = crates[i].manifest_path@;
        if exists|k: int|
            0 <= k < files@.len() && path::path_of((#[trigger] files@[k])@) == path::path_of(
                manifest,
            ) {
            let k = choose|k: int|
                0 <= k < files@.len() && path::path_of((#[trigger] files@[k])@) == path::path_of(
                    manifest,
                );
            assert(all[k] == files@[k]@);
            assert(publish::path_listed(all, manifest));
        }
        if publish::path_listed(all, manifest) {
            let k = choose|k: int|
                0 <= k < all.len() && path::path_of(#[trigger] all[k]) == path::path_of(manifest);
            assert(all[k] == files@[k]@);
        }
    }
}

/// Published are exactly the crates that are due, all of them and in their order, each with
/// its name, the version that it has and its tag.
pub proof fn due_versions_are_pending(
    crates: &Vec<CrateInfo>,
    tags: &Vec<String>,
    exist: &Vec<bool>,
    merged: Option<&Vec<String>>,
    result: Vec<Pending>,
)
    requires
        call_ensures(publish::pending_publications, (crates, tags, exist, merged), result),
        crates@.len() == tags@.len() == exist@.len(),
    ensures
        ({
            let marks = due(crates@, exist@, merged);
            &&& result@.len() == counting::marks(marks, crates@.len() as int)
            &&& forall|i: int|
                0 <= i < crates@.len() && #[trigger] marks[i] ==> {
                    let entry = result@[counting::marks(marks, i)];
                    &&& entry.crate_name@ == crates@[i].name@
                    &&& entry.version@ == crates@[i].version@
                    &&& entry.tag@ == tags@[i]@
                }
        }),
{
    let marks = due(crates@, exist@, merged);
    let views = publish::pending_views(result@);
    assert(views.len() == result@.len());
    pending_counted(crates@, tags@, exist@, merged, crates@.len() as int);
    assert(crates@.take(crates@.len() as int) =~= crates@);
    assert(tags@.take(crates@.len() as int) =~= tags@);
    assert(exist@.take(crates@.len() as int) =~= exist@);
    assert forall|i: int| 0 <= i < crates@.len() && #[trigger] marks[i] implies {
        let entry = result@[counting::marks(marks, i)];
        &&& entry.crate_name@ == crates@[i].name@
        &&& entry.version@ == crates@[i].version@
        &&& entry.tag@ == tags@[i]@
    } by {
        counting::marks_grow(marks, i, crates@.len() as int);
        let k = counting::marks(marks, i);
        assert(views[k] == result@[k]@);
    }
}

proof fn pending_counted(
    crates: Seq<CrateInfo>,
    tags: Seq<String>,
    exist: Seq<bool>,
    merged: Option<&Vec<String>>,
    n: int,
)
    requires
        crates.len() == tags.len() == exist.len(),
        0 <= n <= crates.len(),
    ensures
        ({
            let marks = due(crates, exist, merged);
            let pending = publish::pending_of(
                crates.take(n),
                tags.take(n),
                exist.take(n),
                publish::merged_files(merged),
            );
            &&& pending.len() == counting::marks(marks, n)
            &&& forall|i: int|
                0 <= i < n && #[trigger] marks[i] ==> pending[counting::marks(marks, i)] == (
                PendingView {
                    crate_name: crates[i].name@,
                    version: crates[i].version@,
                    tag: tags[i]@,
                })
        }),
    decreases n,
{
    if n > 0 {
        pending_counted(crates, tags, exist, merged, n - 1);
        let marks = due(crates, exist, merged);
        let files = publish::merged_files(merged);
        assert(crates.take(n).drop_last() =~= crates.take(n - 1));
        assert(tags.take(n).drop_last() =~= tags.take(n - 1));
        assert(exist.take(n).drop_last() =~= exist.take(n - 1));
        due_is_in_merge(crates, exist, merged, n - 1);
        let before = publish::pending_of(
            crates.take(n - 1),
            tags.take(n - 1),
            exist.take(n - 1),
            files,
        );
        let pending = publish::pending_of(crates.take(n), tags.take(n), exist.take(n), files);
        assert forall|i: int| 0 <= i < n && #[trigger] marks[i] implies pending[counting::marks(
            marks,
            i,
        )] == (PendingView {
            crate_name: crates[i].name@,
            version: crates[i].version@,
            tag: tags[i]@,
        }) by {
            if i < n - 1 {
                counting::marks_grow(marks, i, n - 1);
                assert(pending[counting::marks(marks, i)] == before[counting::marks(marks, i)]);
            } else {
                assert(pending[before.len() as int].tag == tags[i]@);
            }
        }
    }
}

/// The number of steps of one version.
pub open spec fn steps_each(push: bool, create_release: bool) -> int {
    1 + (if push {
        1int
    } else {
        0
    }) + (if create_release {
        1int
    } else {
        0
    })
}

proof fn steps_placed(
    pending: Seq<PendingView>,
    notes: Seq<CrateReleaseNotes>,
    push: bool,
    create_release: bool,
    i: int,
    j: int,
)
    requires
        0 <= i < pending.len(),
        0 <= j < steps_each(push, create_release),
    ensures
        publish::steps_of(pending, notes, push, create_release).len() == pending.len()
            * steps_each(push, create_release),
        i * steps_each(push, create_release) + j < pending.len() * steps_each(
            push,
            create_release,
        ),
        publish::steps_of(pending, notes, push, create_release)[i * steps_each(
            push,
            create_release,
        ) + j] == publish::version_steps(pending[i], notes, push, create_release)[j],
    decreases pending.len(),
{
    let m = steps_each(push, create_release);
    let n = pending.len() as int;
    let rest = pending.drop_last();
    let before = publish::steps_of(rest, notes, push, create_release);
    let own = publish::version_steps(pending.last(), notes, push, create_release);
    assert(own.len() == m);
    steps_counted(rest, notes, push, create_release);
    assert((n - 1) * m + m == n * m) by (nonlinear_arith);
    assert(i * m + j < n * m) by (nonlinear_arith)
        requires
            0 <= i < n,
            0 <= j < m,
    ;
    if i < n - 1 {
        steps_placed(rest, notes, push, create_release, i, j);
        assert(0 <= i * m) by (nonlinear_arith)
            requires
                0 <= i,
                0 <= m,
        ;
        assert(rest[i] == pending[i]);
        assert((before + own)[i * m + j] == before[i * m + j]);
    } else {
        assert((before + own)[before.len() + j] == own[j]);
    }
}

proof fn steps_counted(
    pending: Seq<PendingView>,
    notes: Seq<CrateReleaseNotes>,
    push: bool,
    create_release: bool,
)
    ensures
        publish::steps_of(pending, notes, push, create_release).len() == pending.len()
            * steps_each(push, create_release),
    decreases pending.len(),
{
    let m = steps_each(push, create_release);
    let n = pending.len() as int;
    if n > 0 {
        steps_counted(pending.drop_last(), notes, push, create_release);
        let own = publish::version_steps(pending.last(), notes, push, create_release);
        assert(own.len() == m);
        assert((n - 1) * m + m == n * m) by (nonlinear_arith);
    } else {
        assert(0 * m == 0) by (nonlinear_arith);
    }
}

/// A publication makes, for each version in turn, its tag with a message that names crate and
/// version; then pushes it, exactly where tags are pushed; then creates its release, exactly
/// where releases are made, with the same words as its title and with the notes of its
/// crate. There are no other steps, and a dry run has none at all.
pub proof fn versions_are_published_in_turn(
    pending: &Vec<Pending>,
    notes: &Vec<CrateReleaseNotes>,
    dry_run: bool,
    push: bool,
    create_release: bool,
    steps: Vec<PublishStep>,
    i: int,
    crate_name: &str,
    said: String,
)
    requires
        call_ensures(
            publish::publish_steps,
            (pending, notes, dry_run, push, create_release),
            steps,
        ),
        0 <= i < pending@.len(),
        crate_name@ == pending@[i].crate_name@,
        call_ensures(publish::publish_notes, (crate_name, &pending@[i].version, notes), said),
    ensures
        dry_run ==> steps@.len() == 0,
        !dry_run ==> ({
            let m = steps_each(push, create_release);
            let message = "Release "@ + pending@[i].crate_name@ + " "@ + version::version_text(
                pending@[i].version@,
            );
            &&& steps@.len() == pending@.len() * m
            &&& steps@[i * m] matches PublishStep::CreateTag { tag, message: words } && tag@
                == pending@[i].tag@ && words@ == message
            &&& push ==> (steps@[i * m + 1] matches PublishStep::PushTag { tag } && tag@
                == pending@[i].tag@)
            &&& create_release ==> (steps@[i * m + m - 1] matches PublishStep::CreateRelease {
                tag,
                title,
                notes: text,
            } && tag@ == pending@[i].tag@ && title@ == message && text@ == said@)
        }),
{
    let views = publish::step_views(steps@);
    let all = publish::pending_views(pending@);
    assert(views.len() == steps@.len());
    assert(all.len() == pending@.len());
    assert(all[i] == pending@[i]@);
    if !dry_run {
        let m = steps_each(push, create_release);
        steps_placed(all, notes@, push, create_release, i, 0);
        assert(0 <= i * m) by (nonlinear_arith)
            requires
                0 <= i,
                0 <= m,
        ;
        assert(views[i * m] == steps@[i * m]@);
        if push {
            steps_placed(all, notes@, push, create_release, i, 1);
            assert(views[i * m + 1] == steps@[i * m + 1]@);
        }
        if create_release {
            steps_placed(all, notes@, push, create_release, i, m - 1);
            assert(views[i * m + (m - 1)] == steps@[i * m + (m - 1)]@);
            assert(i * m + m - 1 == i * m + (m - 1));
        }
    }
}

/// Where nothing is pending there are no steps.
pub proof fn nothing_pending_has_no_steps(
    pending: &Vec<Pending>,
    notes: &Vec<CrateReleaseNotes>,
    dry_run: bool,
    push: bool,
    create_release: bool,
    steps: Vec<PublishStep>,
)
    requires
        call_ensures(
            publish::publish_steps,
            (pending, notes, dry_run, push, create_release),
            steps,
        ),
        pending@.len() == 0,
    ensures
        steps@.len() == 0,
{
    assert(publish::step_views(steps@).len() == steps@.len());
    assert(publish::pending_views(pending@).len() == 0);
}

/// After the merge of a release the steps are those of publishing what it changed; after any
/// other push there are none.
pub proof fn merges_publish_what_they_changed(
    files: Option<&Vec<String>>,
    crates: &Vec<CrateInfo>,
    tags: &Vec<String>,
    exist: &Vec<bool>,
    notes: &Vec<CrateReleaseNotes>,
    dry_run: bool,
    push: bool,
    create_release: bool,
    steps: Vec<PublishStep>,
    payload: bool,
    pending: Vec<Pending>,
    alone: Vec<PublishStep>,
)
    requires
        call_ensures(
            publish::merge_steps,
            (files, crates, tags, exist, notes, dry_run, push, create_release),
            steps,
        ),
        files matches Some(list) ==> call_ensures(
            release::is_release_merge_payload,
            (list,),
            payload,
        ),
        call_ensures(publish::pending_publications, (crates, tags, exist, files), pending),
        call_ensures(
            publish::publish_steps,
            (&pending, notes, dry_run, push, create_release),
            alone,
        ),
    ensures
        files is None || !payload ==> steps@.len() == 0,
        files is Some && payload ==> publish::step_views(steps@) == publish::step_views(alone@),
{
    assert(publish::step_views(steps@).len() == steps@.len());
}

/// The steps of two lists are the same exactly where each step holds the same texts.
pub proof fn steps_are_what_they_say(steps: Seq<PublishStep>, i: int)
    requires
        0 <= i < steps.len(),
    ensures
        publish::step_views(steps).len() == steps.len(),
        match steps[i] {
            PublishStep::CreateTag { tag, message } => publish::step_views(steps)[i]
                == (StepView::CreateTag { tag: tag@, message: message@ }),
            PublishStep::PushTag { tag } => publish::step_views(steps)[i] == (StepView::PushTag {
                tag: tag@,
            }),
            PublishStep::CreateRelease { tag, title, notes } => publish::step_views(steps)[i] == (
            StepView::CreateRelease { tag: tag@, title: title@, notes: notes@ }),
        },
{
}

/// The tags of a publication are those of the versions that the crates have, one for each
/// crate, by the template; several crates need a template that names them.
pub proof fn versions_are_tagged_by_the_template(
    crates: &Vec<CrateInfo>,
    tag_template: &str,
    result: Result<Vec<String>, ReleaseError>,
    i: int,
    crate_name: &str,
    tag: Result<String, ReleaseError>,
)
    requires
        call_ensures(publish::publish_tags, (crates, tag_template), result),
        0 <= i < crates@.len() <= usize::MAX,
        crate_name@ == crates@[i].name@,
        call_ensures(
            release::render_tag_name,
            (tag_template, crate_name, &crates@[i].version, crates@.len() as usize),
            tag,
        ),
    ensures
        match tag {
            Ok(own) => result matches Ok(tags) && tags@.len() == crates@.len() && tags@[i]@
                == own@,
            Err(error) => result == Err::<Vec<String>, ReleaseError>(error),
        },
{
}

/// Without crates there is nothing to publish, and that is an error.
pub proof fn publishing_needs_crates(
    crates: &Vec<CrateInfo>,
    tag_template: &str,
    result: Result<Vec<String>, ReleaseError>,
)
    requires
        call_ensures(publish::publish_tags, (crates, tag_template), result),
        crates@.len() == 0,
    ensures
        result == Err::<Vec<String>, ReleaseError>(ReleaseError::NoPackages),
{
}

/// The tags of a release are those of the next versions of its plans, one for each plan, by
/// the template.
pub proof fn plans_are_tagged_by_the_template(
    plans: &Vec<CrateReleasePlan>,
    tag_template: &str,
    result: Result<Vec<String>, ReleaseError>,
    i: int,
    crate_name: &str,
    tag: Result<String, ReleaseError>,
)
    requires
        call_ensures(report::release_tags, (plans, tag_template), result),
        0 <= i < plans@.len() <= usize::MAX,
        crate_name@ == plans@[i].crate_name@,
        call_ensures(
            release::render_tag_name,
            (tag_template, crate_name, &plans@[i].plan.next_version, plans@.len() as usize),
            tag,
        ),
    ensures
        match tag {
            Ok(own) => result matches Ok(tags) && tags@.len() == plans@.len() && tags@[i]@ == own@,
            Err(error) => result == Err::<Vec<String>, ReleaseError>(error),
        },
{
}

/// The message of a tag names the crate and its version.
pub proof fn tags_name_crate_and_version(crate_name: &str, version: &Version, result: String)
    requires
        call_ensures(report::tag_message, (crate_name, version), result),
    ensures
        result@ == "Release "@ + crate_name@ + " "@ + version::version_text(version@),
{
}

proof fn release_steps_placed(
    plans: Seq<CrateReleasePlan>,
    tags: Seq<String>,
    push: bool,
    i: int,
    j: int,
)
    requires
        plans.len() == tags.len(),
        0 <= i < plans.len(),
        0 <= j < steps_each(push, false),
    ensures
        flow::release_steps_of(plans, tags, push).len() == plans.len() * steps_each(push, false),
        i * steps_each(push, false) + j < plans.len() * steps_each(push, false),
        flow::release_steps_of(plans, tags, push)[i * steps_each(push, false) + j]
            == publish::tag_steps(
            tags[i]@,
            report::message_of_tag(plans[i].crate_name@, plans[i].plan.next_version@),
            push,
        )[j],
    decreases plans.len(),
{
    let m = steps_each(push, false);
    let n = plans.len() as int;
    let before = flow::release_steps_of(plans.drop_last(), tags.drop_last(), push);
    let own = publish::tag_steps(
        tags.last()@,
        report::message_of_tag(plans.last().crate_name@, plans.last().plan.next_version@),
        push,
    );
    assert(own.len() == m);
    assert((n - 1) * m + m == n * m) by (nonlinear_arith);
    assert(i * m + j < n * m) by (nonlinear_arith)
        requires
            0 <= i < n,
            0 <= j < m,
    ;
    if n > 1 {
        release_steps_placed(plans.drop_last(), tags.drop_last(), push, 0, 0);
    } else {
        assert((n - 1) * m == 0) by (nonlinear_arith)
            requires
                n == 1,
        ;
    }
    assert(before.len() == (n - 1) * m);
    if i < n - 1 {
        release_steps_placed(plans.drop_last(), tags.drop_last(), push, i, j);
        assert(0 <= i * m) by (nonlinear_arith)
            requires
                0 <= i,
                0 <= m,
        ;
        assert(plans.drop_last()[i] == plans[i]);
        assert(tags.drop_last()[i] == tags[i]);
        assert((before + own)[i * m + j] == before[i * m + j]);
    } else {
        assert((before + own)[before.len() + j] == own[j]);
    }
}

/// A release makes, for each plan in turn, the tag of its next version with a message that
/// names crate and version, and pushes it exactly where tags are pushed. A dry run has no
/// steps.
pub proof fn plans_are_tagged_in_turn(
    plans: &Vec<CrateReleasePlan>,
    tags: &Vec<String>,
    dry_run: bool,
    push: bool,
    steps: Vec<PublishStep>,
    i: int,
)
    requires
        call_ensures(flow::release_steps, (plans, tags, dry_run, push), steps),
        plans@.len() == tags@.len(),
        0 <= i < plans@.len(),
    ensures
        dry_run ==> steps@.len() == 0,
        !dry_run ==> ({
            let m = steps_each(push, false);
            let words = "Release "@ + plans@[i].crate_name@ + " "@ + version::version_text(
                plans@[i].plan.next_version@,
            );
            &&& steps@.len() == plans@.len() * m
            &&& steps@[i * m] matches PublishStep::CreateTag { tag, message } && tag@
                == tags@[i]@ && message@ == words
            &&& push ==> (steps@[i * m + 1] matches PublishStep::PushTag { tag } && tag@
                == tags@[i]@)
        }),
{
    let views = publish::step_views(steps@);
    assert(views.len() == steps@.len());
    if !dry_run {
        let m = steps_each(push, false);
        release_steps_placed(plans@, tags@, push, i, 0);
        assert(0 <= i * m) by (nonlinear_arith)
            requires
                0 <= i,
                0 <= m,
        ;
        assert(views[i * m] == steps@[i * m]@);
        if push {
            release_steps_placed(plans@, tags@, push, i, 1);
            assert(views[i * m + 1] == steps@[i * m + 1]@);
        }
    }
}

} // verus!
