//! What a release consists of: commits, versions and the crates they belong to.

use crate::order::Ranked;
use crate::path;
use crate::text;
use crate::text::Rank;
use crate::version::{Version, VersionView};
use vstd::prelude::*;

verus! {

/// The section of the changelog that a commit belongs to.
#[derive(Debug, Clone, Copy, PartialEq, Eq, Structural)]
pub enum CommitKind {
    Feature,
    Fix,
    Refactor,
    Documentation,
    Chore,
    Other,
}

/// A commit of a release.
#[derive(Debug, PartialEq, Eq)]
pub struct PlannedCommit {
    pub hash: String,
    pub subject: String,
    pub kind: CommitKind,
    pub breaking: bool,
}

/// A commit that a release may be planned from.
#[derive(Debug, PartialEq, Eq)]
pub struct CommitInput {
    pub hash: String,
    pub subject: String,
    pub body: String,
}

/// The next version of a crate, and the commits that ask for it. `bump_level` is the
/// size of the step as reports name it.
#[derive(Debug)]
pub struct ReleasePlan {
    pub base_tag: Option<String>,
    pub current_version: Version,
    pub next_version: Version,
    pub bump_level: String,
    pub commits: Vec<PlannedCommit>,
}

/// A crate of the workspace.
#[derive(Debug)]
pub struct CrateInfo {
    pub name: String,
    pub manifest_path: String,
    pub crate_dir: String,
    pub version: Version,
    pub private: bool,
    pub local_dependencies: Vec<String>,
}

/// The plan of a crate.
#[derive(Debug)]
pub struct CrateReleasePlan {
    pub crate_name: String,
    pub manifest_path: String,
    pub plan: ReleasePlan,
}

/// The commits of a crate since its last version.
#[derive(Debug)]
pub struct CrateReleaseNotes {
    pub crate_name: String,
    pub manifest_path: String,
    pub base_ref: Option<String>,
    pub commits: Vec<PlannedCommit>,
}

/// The last crate of the name.
pub open spec fn crate_named(crates: Seq<CrateInfo>, name: Seq<char>) -> Option<int>
    decreases crates.len(),
{
    if crates.len() == 0 {
        None
    } else if crates.last().name@ == name {
        Some(crates.len() - 1)
    } else {
        crate_named(crates.drop_last(), name)
    }
}

/// The last plan for the crate of the name.
pub open spec fn plan_named(plans: Seq<CrateReleasePlan>, name: Seq<char>) -> Option<int>
    decreases plans.len(),
{
    if plans.len() == 0 {
        None
    } else if plans.last().crate_name@ == name {
        Some(plans.len() - 1)
    } else {
        plan_named(plans.drop_last(), name)
    }
}

/// The first plan for the crate of the name.
pub open spec fn first_plan_named(plans: Seq<CrateReleasePlan>, name: Seq<char>) -> Option<int>
    decreases plans.len(),
{
    if plans.len() == 0 {
        None
    } else if plans.first().crate_name@ == name {
        Some(0)
    } else {
        match first_plan_named(plans.drop_first(), name) {
            Some(i) => Some(i + 1),
            None => None,
        }
    }
}

/// The version that a crate is to have: the next one of its plan, or the one it has.
pub open spec fn desired_version(
    crates: Seq<CrateInfo>,
    plans: Seq<CrateReleasePlan>,
    name: Seq<char>,
) -> Option<VersionView> {
    match plan_named(plans, name) {
        Some(i) => Some(plans[i].plan.next_version@),
        None => match crate_named(crates, name) {
            Some(i) => Some(crates[i].version@),
            None => None,
        },
    }
}

/// Every crate is private.
pub open spec fn all_private(crates: Seq<CrateInfo>) -> bool {
    forall|i: int| 0 <= i < crates.len() ==> (#[trigger] crates[i]).private
}

/// A name that was found is that of the crate it was found at.
pub proof fn crate_named_found(crates: Seq<CrateInfo>, name: Seq<char>)
    ensures
        match crate_named(crates, name) {
            Some(i) => 0 <= i < crates.len() && crates[i].name@ == name,
            None => forall|i: int| 0 <= i < crates.len() ==> (#[trigger] crates[i]).name@ != name,
        },
    decreases crates.len(),
{
    if crates.len() > 0 && crates.last().name@ != name {
        crate_named_found(crates.drop_last(), name);
        assert forall|i: int|
            0 <= i < crates.len() && crate_named(crates, name) is None implies (
        #[trigger] crates[i]).name@ != name by {
            if i < crates.len() - 1 {
                assert(crates.drop_last()[i] == crates[i]);
            }
        }
    }
}

/// Finds the last crate of the name.
pub fn find_crate(crates: &Vec<CrateInfo>, name: &str) -> (result: Option<usize>)
    ensures
        match result {
            Some(i) => i < crates.len() && crate_named(crates@, name@) == Some(i as int),
            None => crate_named(crates@, name@) is None,
        },
{
    let mut n: usize = crates.len();
    assert(crates@.take(n as int) =~= crates@);
    while n > 0
        invariant
            n <= crates.len(),
            crate_named(crates@, name@) == crate_named(crates@.take(n as int), name@),
        decreases n,
    {
        assert(crates@.take(n as int).drop_last() =~= crates@.take(n - 1));
        if text::same_text(crates[n - 1].name.as_str(), name) {
            return Some(n - 1);
        }
        n -= 1;
    }
    None
}

/// Whether every crate is private.
pub fn all_members_private(crates: &Vec<CrateInfo>) -> (b: bool)
    ensures
        b == all_private(crates@),
{
    let mut i: usize = 0;
    while i < crates.len()
        invariant
            i <= crates.len(),
            forall|k: int| 0 <= k < i ==> (#[trigger] crates@[k]).private,
        decreases crates.len() - i,
    {
        if !crates[i].private {
            return false;
        }
        i += 1;
    }
    true
}

/// The version that a crate is to have.
pub fn version_wanted(
    crates: &Vec<CrateInfo>,
    plans: &Vec<CrateReleasePlan>,
    name: &str,
) -> (result: Option<Version>)
    ensures
        match result {
            Some(version) => desired_version(crates@, plans@, name@) == Some(version@),
            None => desired_version(crates@, plans@, name@) is None,
        },
{
    let mut n: usize = plans.len();
    assert(plans@.take(n as int) =~= plans@);
    while n > 0
        invariant
            n <= plans.len(),
            plan_named(plans@, name@) == plan_named(plans@.take(n as int), name@),
        decreases n,
    {
        assert(plans@.take(n as int).drop_last() =~= plans@.take(n - 1));
        if text::same_text(plans[n - 1].crate_name.as_str(), name) {
            return Some(plans[n - 1].plan.next_version.clone());
        }
        n -= 1;
    }
    match find_crate(crates, name) {
        Some(i) => Some(crates[i].version.clone()),
        None => None,
    }
}

/// Finds the first plan for the crate of the name.
pub fn find_plan(plans: &Vec<CrateReleasePlan>, name: &str) -> (result: Option<usize>)
    ensures
        match result {
            Some(i) => i < plans.len() && first_plan_named(plans@, name@) == Some(i as int),
            None => first_plan_named(plans@, name@) is None,
        },
{
    let mut i: usize = 0;
    assert(plans@.skip(0) =~= plans@);
    while i < plans.len()
        invariant
            i <= plans.len(),
            first_plan_named(plans@, name@) == match first_plan_named(
                plans@.skip(i as int),
                name@,
            ) {
                Some(k) => Some(k + i),
                None => None,
            },
        decreases plans.len() - i,
    {
        assert(plans@.skip(i as int).first() == plans@[i as int]);
        assert(plans@.skip(i as int).drop_first() =~= plans@.skip(i + 1));
        if text::same_text(plans[i].crate_name.as_str(), name) {
            return Some(i);
        }
        i += 1;
    }
    None
}

/// The path stands before the other or names the same.
pub open spec fn path_precedes(a: Seq<char>, b: Seq<char>) -> bool {
    path::path_rank(path::path_of(a), path::path_of(b)) != Rank::After
}

/// Of two paths one stands before the other.
pub proof fn path_precedes_totally(a: Seq<char>, b: Seq<char>)
    ensures
        path_precedes(a, b) || path_precedes(b, a),
{
    path::path_rank_swaps(path::path_of(a), path::path_of(b));
    path::path_rank_swaps(path::path_of(b), path::path_of(a));
}

fn path_may_precede(a: &String, b: &String) -> (result: bool)
    ensures
        result == path_precedes(a@, b@),
{
    match path::rank_paths(a.as_str(), b.as_str()) {
        Rank::After => false,
        _ => true,
    }
}

impl Ranked for CrateInfo {
    open spec fn precedes(&self, other: &Self) -> bool {
        path_precedes(self.manifest_path@, other.manifest_path@)
    }

    proof fn precedes_totally(a: &Self, b: &Self) {
        path_precedes_totally(a.manifest_path@, b.manifest_path@);
    }

    proof fn precedes_chains(a: &Self, b: &Self, c: &Self) {
        path::path_rank_chains(
            path::path_of(a.manifest_path@),
            path::path_of(b.manifest_path@),
            path::path_of(c.manifest_path@),
        );
    }

    fn may_precede(&self, other: &Self) -> (b: bool) {
        path_may_precede(&self.manifest_path, &other.manifest_path)
    }
}

impl Ranked for CrateReleasePlan {
    open spec fn precedes(&self, other: &Self) -> bool {
        path_precedes(self.manifest_path@, other.manifest_path@)
    }

    proof fn precedes_totally(a: &Self, b: &Self) {
        path_precedes_totally(a.manifest_path@, b.manifest_path@);
    }

    proof fn precedes_chains(a: &Self, b: &Self, c: &Self) {
        path::path_rank_chains(
            path::path_of(a.manifest_path@),
            path::path_of(b.manifest_path@),
            path::path_of(c.manifest_path@),
        );
    }

    fn may_precede(&self, other: &Self) -> (b: bool) {
        path_may_precede(&self.manifest_path, &other.manifest_path)
    }
}

impl Ranked for CrateReleaseNotes {
    open spec fn precedes(&self, other: &Self) -> bool {
        path_precedes(self.manifest_path@, other.manifest_path@)
    }

    proof fn precedes_totally(a: &Self, b: &Self) {
        path_precedes_totally(a.manifest_path@, b.manifest_path@);
    }

    proof fn precedes_chains(a: &Self, b: &Self, c: &Self) {
        path::path_rank_chains(
            path::path_of(a.manifest_path@),
            path::path_of(b.manifest_path@),
            path::path_of(c.manifest_path@),
        );
    }

    fn may_precede(&self, other: &Self) -> (b: bool) {
        path_may_precede(&self.manifest_path, &other.manifest_path)
    }
}

} // verus!
