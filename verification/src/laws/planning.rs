//! Planning releases from the history.

use crate::git;
use crate::git::{CommitRecord, LogRow};
use crate::laws::counting;
use crate::plan;
use crate::plan::{CommitInput, CrateInfo, CrateReleasePlan};
use crate::release;
use crate::text;
use crate::version::Version;
use vstd::prelude::*;

verus! {

/// The version that a crate is to have is the next version of the last plan of its name,
/// whatever else the plan holds.
pub proof fn planned_version_is_wanted(
    crates: &Vec<CrateInfo>,
    plans: &Vec<CrateReleasePlan>,
    name: &str,
    i: int,
    result: Option<Version>,
)
    requires
        call_ensures(plan::version_wanted, (crates, plans, name), result),
        0 <= i < plans@.len(),
        plans@[i].crate_name@ == name@,
        forall|j: int| i < j < plans@.len() ==> (#[trigger] plans@[j]).crate_name@ != name@,
    ensures
        result matches Some(version) && version@ == plans@[i].plan.next_version@,
{
    last_plan_is_found(plans@, name@, i);
}

/// The last plan of a name is the one that is found.
pub proof fn last_plan_is_found(plans: Seq<CrateReleasePlan>, name: Seq<char>, i: int)
    requires
        0 <= i < plans.len(),
        plans[i].crate_name@ == name,
        forall|j: int| i < j < plans.len() ==> (#[trigger] plans[j]).crate_name@ != name,
    ensures
        plan::plan_named(plans, name) == Some(i),
    decreases plans.len(),
{
    if i < plans.len() - 1 {
        assert(plans[plans.len() - 1].crate_name@ != name);
        let rest = plans.drop_last();
        assert forall|j: int| i < j < rest.len() implies (#[trigger] rest[j]).crate_name@
            != name by {
            assert(plans[j].crate_name@ != name);
        }
        last_plan_is_found(rest, name, i);
    }
}

/// No plan of a name is found where there is none.
pub proof fn no_plan_is_found(plans: Seq<CrateReleasePlan>, name: Seq<char>)
    requires
        forall|j: int| 0 <= j < plans.len() ==> (#[trigger] plans[j]).crate_name@ != name,
    ensures
        plan::plan_named(plans, name) is None,
        plan::first_plan_named(plans, name) is None,
    decreases plans.len(),
{
    if plans.len() > 0 {
        assert(plans[plans.len() - 1].crate_name@ != name);
        assert(plans[0].crate_name@ != name);
        let rest = plans.drop_last();
        assert forall|j: int| 0 <= j < rest.len() implies (#[trigger] rest[j]).crate_name@
            != name by {
            assert(plans[j].crate_name@ != name);
        }
        no_plan_is_found(rest, name);
        let others = plans.drop_first();
        assert forall|j: int| 0 <= j < others.len() implies (#[trigger] others[j]).crate_name@
            != name by {
            assert(plans[j + 1].crate_name@ != name);
        }
        no_plan_is_found(others, name);
    }
}

/// The first plan of a name is the one that is found where the first is asked for.
pub proof fn first_plan_is_found(plans: Seq<CrateReleasePlan>, name: Seq<char>, i: int)
    requires
        0 <= i < plans.len(),
        plans[i].crate_name@ == name,
        forall|j: int| 0 <= j < i ==> (#[trigger] plans[j]).crate_name@ != name,
    ensures
        plan::first_plan_named(plans, name) == Some(i),
    decreases plans.len(),
{
    if i > 0 {
        assert(plans[0].crate_name@ != name);
        let rest = plans.drop_first();
        assert forall|j: int| 0 <= j < i - 1 implies (#[trigger] rest[j]).crate_name@ != name by {
            assert(plans[j + 1].crate_name@ != name);
        }
        first_plan_is_found(rest, name, i - 1);
    }
}

/// The last crate of a name is the one that is found.
pub proof fn last_crate_is_found(crates: Seq<CrateInfo>, name: Seq<char>, i: int)
    requires
        0 <= i < crates.len(),
        crates[i].name@ == name,
        forall|j: int| i < j < crates.len() ==> (#[trigger] crates[j]).name@ != name,
    ensures
        plan::crate_named(crates, name) == Some(i),
    decreases crates.len(),
{
    if i < crates.len() - 1 {
        assert(crates[crates.len() - 1].name@ != name);
        let rest = crates.drop_last();
        assert forall|j: int| i < j < rest.len() implies (#[trigger] rest[j]).name@ != name by {
            assert(crates[j].name@ != name);
        }
        last_crate_is_found(rest, name, i);
    }
}

/// No crate of a name is found where there is none.
pub proof fn no_crate_is_found(crates: Seq<CrateInfo>, name: Seq<char>)
    requires
        forall|j: int| 0 <= j < crates.len() ==> (#[trigger] crates[j]).name@ != name,
    ensures
        plan::crate_named(crates, name) is None,
{
    plan::crate_named_found(crates, name);
    if let Some(i) = plan::crate_named(crates, name) {
        assert(crates[i].name@ != name);
    }
}

/// Without a plan a crate is to have the version that it has.
pub proof fn version_without_a_plan_is_the_present_one(
    crates: &Vec<CrateInfo>,
    plans: &Vec<CrateReleasePlan>,
    name: &str,
    i: int,
    result: Option<Version>,
)
    requires
        call_ensures(plan::version_wanted, (crates, plans, name), result),
        forall|j: int| 0 <= j < plans@.len() ==> (#[trigger] plans@[j]).crate_name@ != name@,
        0 <= i < crates@.len(),
        crates@[i].name@ == name@,
        forall|j: int| i < j < crates@.len() ==> (#[trigger] crates@[j]).name@ != name@,
    ensures
        result matches Some(version) && version@ == crates@[i].version@,
{
    no_plan_is_found(plans@, name@);
    last_crate_is_found(crates@, name@, i);
}

/// A name of no crate and no plan has no version.
pub proof fn other_names_have_no_version(
    crates: &Vec<CrateInfo>,
    plans: &Vec<CrateReleasePlan>,
    name: &str,
    result: Option<Version>,
)
    requires
        call_ensures(plan::version_wanted, (crates, plans, name), result),
        forall|j: int| 0 <= j < plans@.len() ==> (#[trigger] plans@[j]).crate_name@ != name@,
        forall|j: int| 0 <= j < crates@.len() ==> (#[trigger] crates@[j]).name@ != name@,
    ensures
        result is None,
{
    no_plan_is_found(plans@, name@);
    no_crate_is_found(crates@, name@);
}

/// The workspace is private exactly where no crate of it, at any place, may be published.
pub proof fn one_public_crate_makes_a_workspace_public(crates: &Vec<CrateInfo>, b: bool)
    requires
        call_ensures(plan::all_members_private, (crates,), b),
    ensures
        !b <==> exists|i: int| 0 <= i < crates@.len() && !(#[trigger] crates@[i]).private,
{
    if !b {
        assert(!plan::all_private(crates@));
    }
}

/// The commits that a release is planned from are the included ones, all of them and in
/// their order, with hash, subject and body.
pub proof fn included_commits_are_planned_from(
    commits: Vec<CommitRecord>,
    included: &Vec<bool>,
    result: Vec<CommitInput>,
)
    requires
        call_ensures(release::crate_commit_inputs, (commits, included), result),
        commits@.len() == included@.len(),
    ensures
        result@.len() == counting::marks(included@, included@.len() as int),
        forall|i: int|
            0 <= i < commits@.len() && #[trigger] included@[i] ==> {
                let input = result@[counting::marks(included@, i)];
                &&& input.hash@ == commits@[i].hash@
                &&& input.subject@ == commits@[i].subject@
                &&& input.body@ == commits@[i].body@
            },
{
    inputs_counted(commits@, included@);
}

proof fn inputs_counted(commits: Seq<CommitRecord>, included: Seq<bool>)
    requires
        commits.len() == included.len(),
    ensures
        ({
            let result = release::inputs_of(commits, included);
            &&& result.len() == counting::marks(included, included.len() as int)
            &&& forall|i: int|
                0 <= i < commits.len() && #[trigger] included[i] ==> {
                    let input = result[counting::marks(included, i)];
                    &&& input.hash@ == commits[i].hash@
                    &&& input.subject@ == commits[i].subject@
                    &&& input.body@ == commits[i].body@
                }
        }),
    decreases commits.len(),
{
    if commits.len() > 0 {
        let n = commits.len() - 1;
        let head = included.drop_last();
        inputs_counted(commits.drop_last(), head);
        counting::marks_agree(included, head, n);
        let before = release::inputs_of(commits.drop_last(), head);
        let result = release::inputs_of(commits, included);
        assert forall|i: int| 0 <= i < commits.len() && #[trigger] included[i] implies {
            let input = result[counting::marks(included, i)];
            &&& input.hash@ == commits[i].hash@
            &&& input.subject@ == commits[i].subject@
            &&& input.body@ == commits[i].body@
        } by {
            counting::marks_agree(included, head, i);
            if i < n {
                assert(head[i]);
                counting::marks_grow(head, i, n);
                assert(result[counting::marks(included, i)] == before[counting::marks(head, i)]);
            } else {
                assert(result[before.len() as int] == release::input_of(commits[i]));
            }
        }
    }
}

/// The rows of a log that are kept.
pub open spec fn complete(rows: Seq<LogRow>) -> Seq<bool> {
    rows.map_values(|row: LogRow| row.hash@.len() > 0 && row.subject@.len() > 0)
}

/// The commits of a log are its rows with a hash and a subject, all of them and in their
/// order, each with its body and with the files that were listed for it.
pub proof fn complete_rows_become_commits(
    rows: Vec<LogRow>,
    files: Vec<Vec<String>>,
    result: Vec<CommitRecord>,
)
    requires
        call_ensures(git::commit_records, (rows, files), result),
        rows@.len() == files@.len(),
    ensures
        result@.len() == counting::marks(complete(rows@), rows@.len() as int),
        forall|i: int|
            #![trigger rows@[i]]
            0 <= i < rows@.len() && rows@[i].hash@.len() > 0 && rows@[i].subject@.len() > 0 ==> {
                let record = result@[counting::marks(complete(rows@), i)];
                &&& record.hash@ == rows@[i].hash@
                &&& record.subject@ == rows@[i].subject@
                &&& record.body@ == rows@[i].body@
                &&& text::texts(record.files@) == text::texts(files@[i]@)
            },
{
    let views = result@.map_values(|record: CommitRecord| record@);
    records_counted(rows@, files@);
    assert(views.len() == result@.len());
    assert forall|i: int|
        #![trigger rows@[i]]
        0 <= i < rows@.len() && rows@[i].hash@.len() > 0 && rows@[i].subject@.len() > 0 implies {
        let record = result@[counting::marks(complete(rows@), i)];
        &&& record.hash@ == rows@[i].hash@
        &&& record.subject@ == rows@[i].subject@
        &&& record.body@ == rows@[i].body@
        &&& text::texts(record.files@) == text::texts(files@[i]@)
    } by {
        assert(complete(rows@)[i]);
        counting::marks_grow(complete(rows@), i, rows@.len() as int);
        let k = counting::marks(complete(rows@), i);
        assert(views[k] == result@[k]@);
        assert(views[k].hash == rows@[i].hash@);
    }
}

proof fn records_counted(rows: Seq<LogRow>, files: Seq<Vec<String>>)
    requires
        rows.len() == files.len(),
    ensures
        ({
            let result = git::records_of(rows, files);
            &&& result.len() == counting::marks(complete(rows), rows.len() as int)
            &&& forall|i: int|
                #![trigger rows[i]]
                0 <= i < rows.len() && rows[i].hash@.len() > 0 && rows[i].subject@.len() > 0 ==> {
                    let record = result[counting::marks(complete(rows), i)];
                    &&& record.hash == rows[i].hash@
                    &&& record.subject == rows[i].subject@
                    &&& record.body == rows[i].body@
                    &&& record.files == text::texts(files[i]@)
                }
        }),
    decreases rows.len(),
{
    if rows.len() > 0 {
        let n = rows.len() - 1;
        let all = complete(rows);
        let head = complete(rows.drop_last());
        records_counted(rows.drop_last(), files.drop_last());
        assert forall|i: int| 0 <= i < n implies all[i] == head[i] by {
            assert(rows.drop_last()[i] == rows[i]);
        }
        counting::marks_agree(all, head, n);
        let before = git::records_of(rows.drop_last(), files.drop_last());
        let result = git::records_of(rows, files);
        assert(all[n] == (rows[n].hash@.len() > 0 && rows[n].subject@.len() > 0));
        assert forall|i: int|
            #![trigger rows[i]]
            0 <= i < rows.len() && rows[i].hash@.len() > 0 && rows[i].subject@.len()
                > 0 implies {
            let record = result[counting::marks(complete(rows), i)];
            &&& record.hash == rows[i].hash@
            &&& record.subject == rows[i].subject@
            &&& record.body == rows[i].body@
            &&& record.files == text::texts(files[i]@)
        } by {
            counting::marks_agree(all, head, i);
            if i < n {
                assert(rows.drop_last()[i] == rows[i]);
                assert(head[i]);
                counting::marks_grow(head, i, n);
                assert(result[counting::marks(all, i)] == before[counting::marks(head, i)]);
                assert(files.drop_last()[i] == files[i]);
            }
        }
    }
}

/// The first plan of a name is the one that is found under it.
pub proof fn the_first_plan_is_found(
    plans: &Vec<CrateReleasePlan>,
    name: &str,
    result: Option<usize>,
)
    requires
        call_ensures(plan::find_plan, (plans, name), result),
    ensures
        match result {
            Some(i) => {
                &&& i < plans@.len()
                &&& plans@[i as int].crate_name@ == name@
                &&& forall|j: int| 0 <= j < i ==> (#[trigger] plans@[j]).crate_name@ != name@
            },
            None => forall|j: int|
                0 <= j < plans@.len() ==> (#[trigger] plans@[j]).crate_name@ != name@,
        },
{
    found_plan_is_first(plans@, name@);
}

proof fn found_plan_is_first(plans: Seq<CrateReleasePlan>, name: Seq<char>)
    ensures
        match plan::first_plan_named(plans, name) {
            Some(i) => {
                &&& 0 <= i < plans.len()
                &&& plans[i].crate_name@ == name
                &&& forall|j: int| 0 <= j < i ==> (#[trigger] plans[j]).crate_name@ != name
            },
            None => forall|j: int|
                0 <= j < plans.len() ==> (#[trigger] plans[j]).crate_name@ != name,
        },
    decreases plans.len(),
{
    if plans.len() > 0 && plans.first().crate_name@ != name {
        let rest = plans.drop_first();
        found_plan_is_first(rest, name);
        let end = match plan::first_plan_named(rest, name) {
            Some(i) => i + 1,
            None => plans.len() as int,
        };
        assert forall|j: int| 0 <= j < end implies (#[trigger] plans[j]).crate_name@ != name by {
            if j > 0 {
                assert(rest[j - 1] == plans[j]);
            }
        }
    }
}

} // verus!
