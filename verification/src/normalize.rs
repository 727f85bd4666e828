//! Rewriting the requirements of a whole workspace.

use crate::document;
use crate::error;
use crate::error::ReleaseError;
use crate::internal;
use crate::internal::{ChangeView, InternalDependencyEdit, ManifestChange, ManifestRewrite};
use crate::order;
use crate::order::Ranked;
use crate::plan::{CrateInfo, CrateReleasePlan};
use crate::requirements;
use crate::requirements::{EdgeView, Workspace};
use crate::settling;
use crate::tree::Tree;
use vstd::prelude::*;

verus! {

/// A file that is to be written.
#[derive(Debug, PartialEq, Eq)]
pub struct FileWrite {
    pub path: String,
    pub content: String,
}

/// What became of the manifests of a workspace: the files that are to be written, and all
/// edits or why a requirement could not be rewritten.
#[derive(Debug)]
pub struct WorkspaceRewrite {
    pub writes: Vec<FileWrite>,
    pub outcome: Result<Vec<InternalDependencyEdit>, ReleaseError>,
}

/// Every manifest was prepared, and there is a choice for each of its edges.
pub open spec fn prepared_all(
    workspace: Workspace,
    manifests: Seq<ManifestRewrite>,
    choices: Seq<Vec<Result<Option<String>, String>>>,
) -> bool {
    &&& manifests.len() == choices.len()
    &&& forall|i: int|
        #![trigger manifests[i]]
        0 <= i < manifests.len() ==> manifests[i].prepared(workspace) && choices[i]@.len()
            == manifests[i].edges@.len()
}

/// The changes that the choices make of the manifests.
pub open spec fn changes_made(
    workspace: Workspace,
    manifests: Seq<ManifestRewrite>,
    choices: Seq<Vec<Result<Option<String>, String>>>,
) -> Seq<ChangeView>
    decreases manifests.len(),
{
    if manifests.len() == 0 {
        Seq::empty()
    } else {
        let before = changes_made(workspace, manifests.drop_last(), choices.drop_last());
        match internal::change_of(workspace, manifests.last(), choices.last()@) {
            Some(change) => before.push(change),
            None => before,
        }
    }
}

/// The manifest at `i` is the first with a choice that failed.
pub open spec fn first_failing(
    choices: Seq<Vec<Result<Option<String>, String>>>,
    i: int,
) -> bool {
    &&& 0 <= i < choices.len()
    &&& !internal::no_failure(choices[i]@)
    &&& forall|k: int| 0 <= k < i ==> internal::no_failure((#[trigger] choices[k])@)
}

/// No choice for any manifest failed.
pub open spec fn none_failing(choices: Seq<Vec<Result<Option<String>, String>>>) -> bool {
    forall|k: int| 0 <= k < choices.len() ==> internal::no_failure((#[trigger] choices[k])@)
}

/// The files that the changes ask to be written, where they are to be written at all.
pub open spec fn writes_of(changes: Seq<ChangeView>, write_changes: bool) -> Seq<
    (Seq<char>, Seq<char>),
> {
    if write_changes {
        changes.map_values(|change: ChangeView| (change.path, change.text))
    } else {
        Seq::empty()
    }
}

/// A list of files in specifications.
pub open spec fn file_views(writes: Seq<FileWrite>) -> Seq<(Seq<char>, Seq<char>)> {
    writes.map_values(|write: FileWrite| (write.path@, write.content@))
}

/// A list of changes in specifications.
pub open spec fn change_views(changes: Seq<ManifestChange>) -> Seq<ChangeView> {
    changes.map_values(|change: ManifestChange| change@)
}

/// The edits are those of the changes, by manifest, then by key, then by name.
pub open spec fn edits_listed(
    changes: Seq<ManifestChange>,
    views: Seq<ChangeView>,
    edits: Seq<InternalDependencyEdit>,
) -> bool {
    &&& change_views(changes) == views
    &&& forall|i: int| 0 <= i < changes.len() ==> internal::of_its_manifest(#[trigger] changes[i])
    &&& order::sorted_stably(internal::all_edits(changes), edits)
}

/// The edits are those of changes that are viewed so.
pub open spec fn edits_sorted(
    views: Seq<ChangeView>,
    edits: Seq<InternalDependencyEdit>,
) -> bool {
    exists|list: Seq<ManifestChange>| #[trigger] edits_listed(list, views, edits)
}

/// What becomes of the manifests: the changes up to the first that fails are written where
/// they are to be, and all edits are listed where none fails.
pub open spec fn workspace_rewritten(
    workspace: Workspace,
    manifests: Seq<ManifestRewrite>,
    choices: Seq<Vec<Result<Option<String>, String>>>,
    write_changes: bool,
    result: WorkspaceRewrite,
) -> bool {
    match result.outcome {
        Ok(edits) => {
            let changes = changes_made(workspace, manifests, choices);
            &&& none_failing(choices)
            &&& file_views(result.writes@) == writes_of(changes, write_changes)
            &&& edits_sorted(changes, edits@)
        },
        Err(error) => exists|i: int| #[trigger]
            first_failing(choices, i) && internal::failure_shown(
                error,
                manifests[i],
                choices[i]@,
            ) && file_views(result.writes@) == writes_of(
                changes_made(workspace, manifests.take(i), choices.take(i)),
                write_changes,
            ),
    }
}

fn files_of(changes: &Vec<ManifestChange>, write_changes: bool) -> (writes: Vec<FileWrite>)
    ensures
        file_views(writes@) == writes_of(change_views(changes@), write_changes),
{
    let mut writes: Vec<FileWrite> = Vec::new();
    if !write_changes {
        assert(file_views(writes@) =~= Seq::empty());
        return writes;
    }
    let mut i: usize = 0;
    while i < changes.len()
        invariant
            i <= changes.len(),
            writes.len() == i,
            forall|k: int|
                0 <= k < i ==> (#[trigger] writes@[k]).path@ == changes@[k].manifest_path@
                    && writes@[k].content@ == changes@[k].text@,
        decreases changes.len() - i,
    {
        writes.push(
            FileWrite {
                path: changes[i].manifest_path.clone(),
                content: changes[i].text.clone(),
            },
        );
        i += 1;
    }
    assert(file_views(writes@) =~= writes_of(change_views(changes@), write_changes));
    writes
}

/// Gives the edges of all manifests the requirements that were chosen for them, manifest by
/// manifest, up to the first choice that failed.
pub fn rewrite_workspace_requirements(
    manifests: Vec<ManifestRewrite>,
    crates: &Vec<CrateInfo>,
    plans: &Vec<CrateReleasePlan>,
    choices: &Vec<Vec<Result<Option<String>, String>>>,
    write_changes: bool,
) -> (result: WorkspaceRewrite)
    requires
        prepared_all(Workspace { crates: crates@, plans: plans@ }, manifests@, choices@),
    ensures
        workspace_rewritten(
            Workspace { crates: crates@, plans: plans@ },
            manifests@,
            choices@,
            write_changes,
            result,
        ),
{
    let ghost workspace = Workspace { crates: crates@, plans: plans@ };
    let ghost all = manifests@;
    let mut rest = manifests;
    let mut changes: Vec<ManifestChange> = Vec::new();
    let mut n: usize = 0;
    proof {
        assert(all.skip(0) =~= all);
        assert(change_views(changes@) =~= changes_made(workspace, all.take(0), choices@.take(0)));
    }
    while rest.len() > 0
        invariant
            n + rest.len() == all.len() == choices.len(),
            all == manifests@,
            rest@ == all.skip(n as int),
            workspace == (Workspace { crates: crates@, plans: plans@ }),
            prepared_all(workspace, all, choices@),
            forall|k: int| 0 <= k < n ==> internal::no_failure((#[trigger] choices@[k])@),
            forall|i: int|
                0 <= i < changes.len() ==> internal::of_its_manifest(#[trigger] changes@[i]),
            change_views(changes@) == changes_made(
                workspace,
                all.take(n as int),
                choices@.take(n as int),
            ),
        decreases rest.len(),
    {
        let manifest = rest.remove(0);
        proof {
            assert(manifest == all[n as int]);
            assert(rest@ =~= all.skip(n + 1));
            assert(all.take(n + 1).drop_last() =~= all.take(n as int));
            assert(choices@.take(n + 1).drop_last() =~= choices@.take(n as int));
        }
        let rewritten = internal::rewrite_internal_dependency_requirements(
            manifest,
            crates,
            plans,
            &choices[n],
        );
        match rewritten {
            Ok(Some(change)) => {
                assert(change_views(changes@.push(change)) =~= change_views(changes@).push(
                    change@,
                ));
                changes.push(change);
            },
            Ok(None) => {},
            Err(error) => {
                let writes = files_of(&changes, write_changes);
                assert(first_failing(choices@, n as int));
                return WorkspaceRewrite { writes, outcome: Err(error) };
            },
        }
        n += 1;
    }
    proof {
        assert(all.take(n as int) =~= all);
        assert(choices@.take(n as int) =~= choices@);
    }
    let writes = files_of(&changes, write_changes);
    let ghost list = changes@;
    let edits = internal::internal_dependency_drifts(changes);
    assert(none_failing(choices@));
    assert(edits_listed(list, changes_made(workspace, all, choices@), edits@));
    assert(edits_sorted(changes_made(workspace, all, choices@), edits@));
    let result = WorkspaceRewrite { writes, outcome: Ok(edits) };
    assert(workspace_rewritten(workspace, all, choices@, write_changes, result));
    result
}

proof fn listed_edits_follow_the_views(a: Seq<ManifestChange>, b: Seq<ManifestChange>)
    requires
        change_views(a) == change_views(b),
    ensures
        internal::edits_of(internal::all_edits(a)) == internal::edits_of(internal::all_edits(b)),
    decreases a.len(),
{
    assert(change_views(a).len() == a.len());
    assert(change_views(b).len() == b.len());
    if a.len() > 0 {
        assert(change_views(a)[0] == a[0]@);
        assert(change_views(b)[0] == b[0]@);
        assert(change_views(a.drop_first()) =~= change_views(a).drop_first());
        assert(change_views(b.drop_first()) =~= change_views(b).drop_first());
        listed_edits_follow_the_views(a.drop_first(), b.drop_first());
        edits_join(a.first().edits@, internal::all_edits(a.drop_first()));
        edits_join(b.first().edits@, internal::all_edits(b.drop_first()));
    }
}

proof fn edits_join(a: Seq<InternalDependencyEdit>, b: Seq<InternalDependencyEdit>)
    ensures
        internal::edits_of(a + b) == internal::edits_of(a) + internal::edits_of(b),
{
    assert(internal::edits_of(a + b) =~= internal::edits_of(a) + internal::edits_of(b));
}

proof fn sorted_edits_follow_the_views(
    a: Seq<InternalDependencyEdit>,
    sorted_a: Seq<InternalDependencyEdit>,
    b: Seq<InternalDependencyEdit>,
    sorted_b: Seq<InternalDependencyEdit>,
)
    requires
        internal::edits_of(a) == internal::edits_of(b),
        order::sorted_stably(a, sorted_a),
        order::sorted_stably(b, sorted_b),
    ensures
        internal::edits_of(sorted_a) == internal::edits_of(sorted_b),
{
    let from_a = choose|from: Seq<int>| order::sorted_from(a, sorted_a, from);
    let from_b = choose|from: Seq<int>| order::sorted_from(b, sorted_b, from);
    assert(internal::edits_of(a).len() == a.len());
    assert(internal::edits_of(b).len() == b.len());
    assert forall|i: int| 0 <= i < a.len() implies (#[trigger] a[i])@ == b[i]@ by {
        assert(internal::edits_of(a)[i] == a[i]@);
        assert(internal::edits_of(b)[i] == b[i]@);
    }
    assert forall|i: int, j: int|
        #![trigger a[i], a[j]]
        0 <= i < a.len() && 0 <= j < a.len() implies a[i].precedes(&a[j]) == b[i].precedes(
        &b[j],
    ) by {
        assert(a[i]@ == b[i]@);
        assert(a[j]@ == b[j]@);
    }
    order::sorting_is_determined(a, sorted_a, from_a, b, sorted_b, from_b);
    assert forall|i: int| 0 <= i < sorted_a.len() implies #[trigger] internal::edits_of(sorted_a)[i]
        == internal::edits_of(sorted_b)[i] by {
        assert(sorted_a[i] == a[from_a[i]]);
        assert(sorted_b[i] == b[from_b[i]]);
        assert(a[from_a[i]]@ == b[from_a[i]]@);
    }
    assert(internal::edits_of(sorted_a) =~= internal::edits_of(sorted_b));
}

/// A file of the path is to be written.
pub open spec fn written(writes: Seq<FileWrite>, path: Seq<char>) -> bool {
    exists|k: int| 0 <= k < writes.len() && (#[trigger] writes[k]).path@ == path
}

proof fn written_is_edited(
    list: Seq<ManifestChange>,
    edits: Seq<InternalDependencyEdit>,
    writes: Seq<FileWrite>,
    path: Seq<char>,
)
    requires
        edits_listed(list, change_views(list), edits),
        file_views(writes) == writes_of(change_views(list), true),
    ensures
        written(writes, path) == internal::edited(edits, path),
{
    let views = change_views(list);
    internal::edited_is_rewritten(list, path);
    internal::sorted_edits_are_of_the_same_manifests(internal::all_edits(list), edits, path);
    assert(file_views(writes).len() == writes.len());
    assert forall|k: int| 0 <= k < writes.len() implies (#[trigger] writes[k]).path@
        == list[k].manifest_path@ by {
        assert(file_views(writes)[k] == (writes[k].path@, writes[k].content@));
        assert(views[k] == list[k]@);
    }
    if written(writes, path) {
        let k = choose|k: int| 0 <= k < writes.len() && (#[trigger] writes[k]).path@ == path;
        assert(list[k].manifest_path@ == path);
    }
    if internal::rewritten(list, path) {
        let k = choose|k: int|
            0 <= k < list.len() && (#[trigger] list[k]).manifest_path@ == path;
        assert(writes[k].path@ == path);
    }
}

/// A check and a rewrite of the same manifests with the same choices agree: they list the
/// same edits, in the same order, or fail with the same message. The check writes nothing,
/// and the rewrite writes exactly the manifests that the edits name.
pub proof fn check_and_rewrite_agree(
    workspace: Workspace,
    manifests: Seq<ManifestRewrite>,
    choices: Seq<Vec<Result<Option<String>, String>>>,
    checked: WorkspaceRewrite,
    rewritten: WorkspaceRewrite,
)
    requires
        workspace_rewritten(workspace, manifests, choices, false, checked),
        workspace_rewritten(workspace, manifests, choices, true, rewritten),
    ensures
        checked.writes@.len() == 0,
        match (checked.outcome, rewritten.outcome) {
            (Ok(found), Ok(made)) => {
                &&& internal::edits_of(found@) == internal::edits_of(made@)
                &&& forall|path: Seq<char>| #[trigger]
                    written(rewritten.writes@, path) <==> internal::edited(made@, path)
            },
            (Err(a), Err(b)) => error::message_of(a) == error::message_of(b),
            _ => false,
        },
{
    assert(file_views(checked.writes@).len() == checked.writes@.len());
    match (checked.outcome, rewritten.outcome) {
        (Ok(found), Ok(made)) => {
            let views = changes_made(workspace, manifests, choices);
            let a = choose|list: Seq<ManifestChange>| #[trigger] edits_listed(list, views, found@);
            let b = choose|list: Seq<ManifestChange>| #[trigger] edits_listed(list, views, made@);
            listed_edits_follow_the_views(a, b);
            sorted_edits_follow_the_views(
                internal::all_edits(a),
                found@,
                internal::all_edits(b),
                made@,
            );
            assert forall|path: Seq<char>| #[trigger]
                written(rewritten.writes@, path) <==> internal::edited(made@, path) by {
                written_is_edited(b, made@, rewritten.writes@, path);
            }
        },
        (Err(x), Err(y)) => {
            let i = choose|i: int| #[trigger]
                first_failing(choices, i) && internal::failure_shown(x, manifests[i], choices[i]@);
            let j = choose|j: int| #[trigger]
                first_failing(choices, j) && internal::failure_shown(y, manifests[j], choices[j]@);
            assert(i == j) by {
                if i < j {
                    assert(internal::no_failure(choices[i]@));
                } else if j < i {
                    assert(internal::no_failure(choices[j]@));
                }
            }
            let list = choices[i]@;
            let p = choose|p: int| #[trigger]
                internal::first_failure(list, p) && (x matches ReleaseError::InvalidRequirement {
                    dependency,
                    path,
                    detail,
                } && dependency@ == manifests[i].edges@[p].dependency_name@ && path@
                    == manifests[i].manifest_path@ && detail@ == list[p]->Err_0@);
            let q = choose|q: int| #[trigger]
                internal::first_failure(list, q) && (y matches ReleaseError::InvalidRequirement {
                    dependency,
                    path,
                    detail,
                } && dependency@ == manifests[i].edges@[q].dependency_name@ && path@
                    == manifests[i].manifest_path@ && detail@ == list[q]->Err_0@);
            assert(p == q) by {
                if p < q {
                    assert(list[p] is Ok);
                } else if q < p {
                    assert(list[q] is Ok);
                }
            }
        },
        (Ok(_), Err(_)) => {
            let i = choose|i: int| #[trigger] first_failing(choices, i);
            assert(internal::no_failure(choices[i]@));
        },
        (Err(_), Ok(_)) => {
            let i = choose|i: int| #[trigger] first_failing(choices, i);
            assert(internal::no_failure(choices[i]@));
        },
    }
}

/// Where the choices change no manifest, nothing is written and there is no edit.
pub proof fn settled_workspace_stays(
    workspace: Workspace,
    manifests: Seq<ManifestRewrite>,
    choices: Seq<Vec<Result<Option<String>, String>>>,
    write_changes: bool,
    result: WorkspaceRewrite,
)
    requires
        manifests.len() == choices.len(),
        workspace_rewritten(workspace, manifests, choices, write_changes, result),
        none_failing(choices),
        forall|i: int|
            #![trigger manifests[i]]
            0 <= i < manifests.len() ==> internal::change_of(
                workspace,
                manifests[i],
                choices[i]@,
            ) is None,
    ensures
        result.writes@.len() == 0,
        result.outcome matches Ok(edits) && edits@.len() == 0,
{
    no_changes_made(workspace, manifests, choices);
    assert(file_views(result.writes@).len() == result.writes@.len());
    match result.outcome {
        Ok(edits) => {
            let views = changes_made(workspace, manifests, choices);
            let list = choose|list: Seq<ManifestChange>| #[trigger]
                edits_listed(list, views, edits@);
            assert(change_views(list).len() == list.len());
            order::sorting_keeps_the_elements(internal::all_edits(list), edits@);
        },
        Err(_) => {
            let i = choose|i: int| #[trigger] first_failing(choices, i);
            assert(internal::no_failure(choices[i]@));
        },
    }
}

proof fn no_changes_made(
    workspace: Workspace,
    manifests: Seq<ManifestRewrite>,
    choices: Seq<Vec<Result<Option<String>, String>>>,
)
    requires
        manifests.len() == choices.len(),
        forall|i: int|
            #![trigger manifests[i]]
            0 <= i < manifests.len() ==> internal::change_of(
                workspace,
                manifests[i],
                choices[i]@,
            ) is None,
    ensures
        changes_made(workspace, manifests, choices).len() == 0,
    decreases manifests.len(),
{
    if manifests.len() > 0 {
        let rest = manifests.drop_last();
        assert(internal::change_of(
            workspace,
            manifests[manifests.len() - 1],
            choices[manifests.len() - 1]@,
        ) is None);
        assert forall|i: int| #![trigger rest[i]] 0 <= i < rest.len() implies internal::change_of(
            workspace,
            rest[i],
            choices.drop_last()[i]@,
        ) is None by {
            assert(rest[i] == manifests[i]);
        }
        no_changes_made(workspace, rest, choices.drop_last());
    }
}

/// The decision depends on the edge alone, and stays the same once it was carried out.
pub open spec fn steady(decide: spec_fn(EdgeView) -> Option<Seq<char>>) -> bool {
    forall|edge: EdgeView| #[trigger]
        decide(EdgeView { current: decide(edge), ..edge }) == decide(edge)
}

/// The choices are those that a decision makes for the edges.
pub open spec fn decided(
    decide: spec_fn(EdgeView) -> Option<Seq<char>>,
    manifest: ManifestRewrite,
    choices: Seq<Result<Option<String>, String>>,
) -> bool {
    &&& internal::no_failure(choices)
    &&& choices.len() == manifest.edges@.len()
    &&& forall|i: int|
        0 <= i < choices.len() ==> internal::chosen(#[trigger] choices[i]) == decide(
            manifest.edges@[i]@,
        )
}

/// A manifest that was rewritten has no drift when it is read again: where its text is read
/// back with no other internal dependencies than were written, the same decision changes
/// nothing.
pub proof fn rewritten_text_has_no_drift(
    workspace: Workspace,
    decide: spec_fn(EdgeView) -> Option<Seq<char>>,
    first: ManifestRewrite,
    first_choices: Seq<Result<Option<String>, String>>,
    second: ManifestRewrite,
    second_choices: Seq<Result<Option<String>, String>>,
)
    requires
        steady(decide),
        first.prepared(workspace),
        second.prepared(workspace),
        decided(decide, first, first_choices),
        decided(decide, second, second_choices),
        ({
            let after = requirements::rewritten_manifest(
                workspace,
                document::document_tree(first.document),
                internal::all_chosen(first_choices),
            );
            forall|i: int|
                0 <= i < second.edges@.len() ==> requirements::manifest_edges(
                    workspace,
                    after,
                ).contains((#[trigger] second.edges@[i])@)
        }),
    ensures
        internal::change_of(workspace, second, second_choices) is None,
{
    let before = document::document_tree(first.document);
    let edges = requirements::edges_of(first.edges@);
    let next = internal::all_chosen(first_choices);
    let after = requirements::rewritten_manifest(workspace, before, next);
    assert(edges.len() == first.edges@.len());
    settling::rewriting_settles(workspace, before, next);
    let settled = requirements::manifest_edges(workspace, after);
    assert forall|k: int| 0 <= k < settled.len() implies (#[trigger] settled[k]).current == decide(
        settled[k],
    ) by {
        assert(settled[k] == EdgeView { current: next[k], ..edges[k] });
        assert(edges[k] == first.edges@[k]@);
        assert(internal::chosen(first_choices[k]) == decide(first.edges@[k]@));
        assert(decide(EdgeView { current: decide(edges[k]), ..edges[k] }) == decide(edges[k]));
    }
    let now = requirements::edges_of(second.edges@);
    let wanted = internal::all_chosen(second_choices);
    assert forall|i: int| 0 <= i < now.len() implies (#[trigger] now[i]).current == wanted[i] by {
        assert(now[i] == second.edges@[i]@);
        assert(settled.contains(second.edges@[i]@));
        let k = settled.index_of(now[i]);
        assert(settled[k] == now[i]);
        assert(internal::chosen(second_choices[i]) == decide(second.edges@[i]@));
    }
    internal::no_edits_needed(second.manifest_path@, now, wanted, now.len());
}

/// The second manifest is the first as it stands once the choices were carried out: the
/// same where they changed nothing, and else what the new text is read back as, with no
/// other internal dependencies than were written.
pub open spec fn read_again(
    workspace: Workspace,
    first: ManifestRewrite,
    choices: Seq<Result<Option<String>, String>>,
    second: ManifestRewrite,
) -> bool {
    let after = requirements::rewritten_manifest(
        workspace,
        document::document_tree(first.document),
        internal::all_chosen(choices),
    );
    &&& second.manifest_path@ == first.manifest_path@
    &&& match internal::change_of(workspace, first, choices) {
        Some(change) => {
            &&& second.original@ == change.text
            &&& document::toml_edit_parse(change.text) == Ok::<Tree, Seq<char>>(
                document::document_tree(second.document),
            )
            &&& forall|i: int|
                0 <= i < second.edges@.len() ==> requirements::manifest_edges(
                    workspace,
                    after,
                ).contains((#[trigger] second.edges@[i])@)
        },
        None => second.original@ == first.original@ && document::document_tree(second.document)
            == document::document_tree(first.document),
    }
}

/// A workspace whose requirements were rewritten has no drift: reading its manifests again
/// and deciding as before, there is no edit and nothing to write.
pub proof fn rewritten_workspace_has_no_drift(
    workspace: Workspace,
    decide: spec_fn(EdgeView) -> Option<Seq<char>>,
    first: Seq<ManifestRewrite>,
    first_choices: Seq<Vec<Result<Option<String>, String>>>,
    second: Seq<ManifestRewrite>,
    second_choices: Seq<Vec<Result<Option<String>, String>>>,
    write_changes: bool,
    result: WorkspaceRewrite,
)
    requires
        steady(decide),
        first.len() == second.len(),
        prepared_all(workspace, first, first_choices),
        prepared_all(workspace, second, second_choices),
        forall|i: int|
            #![trigger first[i]]
            0 <= i < first.len() ==> decided(decide, first[i], first_choices[i]@) && decided(
                decide,
                second[i],
                second_choices[i]@,
            ) && read_again(workspace, first[i], first_choices[i]@, second[i]),
        workspace_rewritten(workspace, second, second_choices, write_changes, result),
    ensures
        result.writes@.len() == 0,
        result.outcome matches Ok(edits) && edits@.len() == 0,
{
    assert forall|i: int| #![trigger second[i]] 0 <= i < second.len() implies internal::change_of(
        workspace,
        second[i],
        second_choices[i]@,
    ) is None by {
        let a = first[i];
        let b = second[i];
        assert(decided(decide, a, first_choices[i]@));
        match internal::change_of(workspace, a, first_choices[i]@) {
            Some(_) => {
                rewritten_text_has_no_drift(
                    workspace,
                    decide,
                    a,
                    first_choices[i]@,
                    b,
                    second_choices[i]@,
                );
            },
            None => {
                let edges = requirements::edges_of(a.edges@);
                assert(edges == requirements::edges_of(b.edges@));
                assert(edges.len() == a.edges@.len());
                assert(requirements::edges_of(b.edges@).len() == b.edges@.len());
                let x = internal::all_chosen(first_choices[i]@);
                let y = internal::all_chosen(second_choices[i]@);
                assert forall|k: int| 0 <= k < x.len() implies #[trigger] x[k] == y[k] by {
                    assert(internal::chosen(first_choices[i]@[k]) == decide(a.edges@[k]@));
                    assert(internal::chosen(second_choices[i]@[k]) == decide(b.edges@[k]@));
                    assert(edges[k] == a.edges@[k]@);
                    assert(requirements::edges_of(b.edges@)[k] == b.edges@[k]@);
                }
                assert(x =~= y);
            },
        }
    }
    assert forall|k: int| 0 <= k < second_choices.len() implies internal::no_failure(
        (#[trigger] second_choices[k])@,
    ) by {
        assert(decided(decide, first[k], first_choices[k]@));
    }
    settled_workspace_stays(workspace, second, second_choices, write_changes, result);
}

} // verus!
