//! Rewriting the requirements of crates on each other.

use crate::document;
use crate::error;
use crate::error::ReleaseError;
use crate::internal;
use crate::internal::{InternalDependencyEdit, ManifestChange, ManifestRewrite};
use crate::laws::counting;
use crate::normalize;
use crate::normalize::WorkspaceRewrite;
use crate::order;
use crate::path;
use crate::plan::{CrateInfo, CrateReleasePlan};
use crate::requirements;
use crate::requirements::Workspace;
use crate::settling;
use crate::text;
use crate::text::Rank;
use crate::tree;
use crate::tree::Tree;
use vstd::prelude::*;

verus! {

/// A dependency that is given a requirement states it, and one that is given none states
/// none; every other key of it stays as it is.
pub proof fn requirements_are_stated_as_given(
    dependency: Tree,
    requirement: Option<Seq<char>>,
    other: Seq<char>,
)
    requires
        dependency is Table,
        tree::well_formed(dependency),
        other != "version"@,
    ensures
        ({
            let after = requirements::with_requirement(dependency, requirement);
            &&& after is Table
            &&& tree::text_in(tree::get(after, "version"@)) == requirement
            &&& tree::get(after, other) == tree::get(dependency, other)
        }),
{
    let entries = dependency->Table_0;
    if let Some(content) = requirement {
        tree::put_looked_up(entries, "version"@, Tree::Text(content, tree::Form::Plain));
    }
    tree::without_looked_up(entries, "version"@);
}

/// After a rewrite the manifest has as many internal dependencies as before, each at its
/// place, with its key, name, owner and source, and each states the requirement that was
/// decided for it.
pub proof fn every_edge_states_what_was_decided(
    workspace: Workspace,
    manifest: Tree,
    next: Seq<Option<Seq<char>>>,
    i: int,
)
    requires
        tree::well_formed(manifest),
        requirements::manifest_edges(workspace, manifest).len() == next.len(),
        0 <= i < next.len(),
    ensures
        ({
            let before = requirements::manifest_edges(workspace, manifest);
            let after = requirements::manifest_edges(
                workspace,
                requirements::rewritten_manifest(workspace, manifest, next),
            );
            &&& after.len() == before.len()
            &&& after[i].current == next[i]
            &&& after[i].key == before[i].key
            &&& after[i].name == before[i].name
            &&& after[i].owner == before[i].owner
            &&& after[i].source == before[i].source
            &&& after[i].publication == before[i].publication
            &&& after[i].desired == before[i].desired
        }),
{
    settling::rewriting_settles(workspace, manifest, next);
}

/// What a choice asks for.
pub open spec fn asked(choice: Result<Option<String>, String>) -> Option<Seq<char>> {
    match choice {
        Ok(Some(content)) => Some(content@),
        _ => None,
    }
}

/// What the choices ask for.
pub open spec fn all_asked(choices: Seq<Result<Option<String>, String>>) -> Seq<
    Option<Seq<char>>,
> {
    Seq::new(choices.len(), |i: int| asked(choices[i]))
}

/// Which edges state another requirement than is asked for.
pub open spec fn differing(
    manifest: ManifestRewrite,
    choices: Seq<Result<Option<String>, String>>,
) -> Seq<bool> {
    Seq::new(
        choices.len(),
        |i: int|
            asked(choices[i]) != (match manifest.edges@[i].current_requirement {
                Some(content) => Some(content@),
                None => None,
            }),
    )
}

proof fn edits_counted(
    manifest: ManifestRewrite,
    choices: Seq<Result<Option<String>, String>>,
    n: nat,
)
    requires
        n <= choices.len() == manifest.edges@.len(),
    ensures
        ({
            let edits = internal::edits_needed(
                manifest.manifest_path@,
                requirements::edges_of(manifest.edges@),
                internal::all_chosen(choices),
                n,
            );
            let marks = differing(manifest, choices);
            &&& edits.len() == counting::marks(marks, n as int)
            &&& forall|i: int|
                0 <= i < n && #[trigger] marks[i] ==> {
                    let edit = edits[counting::marks(marks, i)];
                    &&& edit.path == manifest.manifest_path@
                    &&& edit.key == manifest.edges@[i].dependency_key@
                    &&& edit.name == manifest.edges@[i].dependency_name@
                    &&& edit.old_requirement == text::maybe_text(
                        manifest.edges@[i].current_requirement,
                    )
                    &&& edit.new_requirement == asked(choices[i])
                }
        }),
    decreases n,
{
    if n > 0 {
        edits_counted(manifest, choices, (n - 1) as nat);
        let edges = requirements::edges_of(manifest.edges@);
        let next = internal::all_chosen(choices);
        let marks = differing(manifest, choices);
        let before = internal::edits_needed(manifest.manifest_path@, edges, next, (n - 1) as nat);
        let edits = internal::edits_needed(manifest.manifest_path@, edges, next, n);
        assert(edges[n - 1] == manifest.edges@[n - 1]@);
        assert(next[n - 1] == internal::chosen(choices[n - 1]));
        assert(next[n - 1] == asked(choices[n - 1]));
        assert forall|i: int| 0 <= i < n && #[trigger] marks[i] implies {
            let edit = edits[counting::marks(marks, i)];
            &&& edit.path == manifest.manifest_path@
            &&& edit.key == manifest.edges@[i].dependency_key@
            &&& edit.name == manifest.edges@[i].dependency_name@
            &&& edit.old_requirement == text::maybe_text(manifest.edges@[i].current_requirement)
            &&& edit.new_requirement == asked(choices[i])
        } by {
            if i < n - 1 {
                counting::marks_grow(marks, i, n - 1);
                assert(edits[counting::marks(marks, i)] == before[counting::marks(marks, i)]);
            } else {
                assert(edits[before.len() as int] == internal::edit_of(
                    manifest.manifest_path@,
                    edges[i],
                    next[i],
                ));
            }
        }
    }
}

proof fn asked_is_chosen(choices: Seq<Result<Option<String>, String>>)
    ensures
        internal::all_chosen(choices) == all_asked(choices),
{
    assert forall|i: int| 0 <= i < choices.len() implies internal::all_chosen(choices)[i]
        == all_asked(choices)[i] by {
        assert(internal::all_chosen(choices)[i] == internal::chosen(choices[i]));
    }
    assert(internal::all_chosen(choices) =~= all_asked(choices));
}

/// Where an edge states another requirement than is asked for, and no choice failed, the
/// manifest is written anew with what is asked for, unless its text stays the same. There is
/// one edit for each such edge, in their order, with the old and the new requirement.
pub proof fn differing_requirements_are_rewritten(
    manifest: ManifestRewrite,
    crates: &Vec<CrateInfo>,
    plans: &Vec<CrateReleasePlan>,
    choices: &Vec<Result<Option<String>, String>>,
    result: Result<Option<ManifestChange>, ReleaseError>,
)
    requires
        call_ensures(
            internal::rewrite_internal_dependency_requirements,
            (manifest, crates, plans, choices),
            result,
        ),
        choices@.len() == manifest.edges@.len(),
        forall|k: int| 0 <= k < choices@.len() ==> (#[trigger] choices@[k]) is Ok,
    ensures
        ({
            let marks = differing(manifest, choices@);
            let written = document::document_text(
                requirements::rewritten_manifest(
                    Workspace { crates: crates@, plans: plans@ },
                    document::document_tree(manifest.document),
                    all_asked(choices@),
                ),
            );
            let count = counting::marks(marks, choices@.len() as int);
            if count == 0 || written == manifest.original@ {
                result matches Ok(None)
            } else {
                &&& result matches Ok(Some(change))
                &&& change.manifest_path@ == manifest.manifest_path@
                &&& change.text@ == written
                &&& change.edits@.len() == count
                &&& forall|i: int|
                    0 <= i < choices@.len() && #[trigger] marks[i] ==> {
                        let edit = change.edits@[counting::marks(marks, i)];
                        &&& edit.manifest_path@ == manifest.manifest_path@
                        &&& edit.dependency_key@ == manifest.edges@[i].dependency_key@
                        &&& edit.dependency_name@ == manifest.edges@[i].dependency_name@
                        &&& text::maybe_text(edit.old_requirement) == text::maybe_text(
                            manifest.edges@[i].current_requirement,
                        )
                        &&& text::maybe_text(edit.new_requirement) == asked(choices@[i])
                    }
            }
        }),
{
    asked_is_chosen(choices@);
    edits_counted(manifest, choices@, choices@.len());
    let marks = differing(manifest, choices@);
    assert(requirements::edges_of(manifest.edges@).len() == manifest.edges@.len());
    assert(internal::no_failure(choices@));
    match result {
        Ok(Some(change)) => {
            let views = internal::edits_of(change.edits@);
            assert(views == change@.edits);
            assert(views.len() == change.edits@.len());
            assert forall|i: int| 0 <= i < choices@.len() && #[trigger] marks[i] implies {
                let edit = change.edits@[counting::marks(marks, i)];
                &&& edit.manifest_path@ == manifest.manifest_path@
                &&& edit.dependency_key@ == manifest.edges@[i].dependency_key@
                &&& edit.dependency_name@ == manifest.edges@[i].dependency_name@
                &&& text::maybe_text(edit.old_requirement) == text::maybe_text(
                    manifest.edges@[i].current_requirement,
                )
                &&& text::maybe_text(edit.new_requirement) == asked(choices@[i])
            } by {
                counting::marks_grow(marks, i, choices@.len() as int);
                let k = counting::marks(marks, i);
                assert(views[k] == change.edits@[k]@);
            }
        },
        Ok(None) => {},
        Err(_) => {},
    }
}

/// The first choice that failed is reported, with the dependency, the manifest and why; then
/// nothing is written.
pub proof fn the_first_failed_choice_is_reported(
    manifest: ManifestRewrite,
    crates: &Vec<CrateInfo>,
    plans: &Vec<CrateReleasePlan>,
    choices: &Vec<Result<Option<String>, String>>,
    result: Result<Option<ManifestChange>, ReleaseError>,
    i: int,
    why: String,
)
    requires
        call_ensures(
            internal::rewrite_internal_dependency_requirements,
            (manifest, crates, plans, choices),
            result,
        ),
        0 <= i < choices@.len(),
        choices@[i] == Err::<Option<String>, String>(why),
        forall|k: int| 0 <= k < i ==> (#[trigger] choices@[k]) is Ok,
    ensures
        result matches Err(ReleaseError::InvalidRequirement { dependency, path, detail })
            && dependency@ == manifest.edges@[i].dependency_name@ && path@
            == manifest.manifest_path@ && detail@ == why@,
{
    assert(!internal::no_failure(choices@)) by {
        assert(choices@[i] is Err);
    }
    assert(result is Err);
    let error = result->Err_0;
    assert(internal::failure_shown(error, manifest, choices@));
    let k = choose|k: int| #[trigger]
        internal::first_failure(choices@, k) && (error matches ReleaseError::InvalidRequirement {
            dependency,
            path,
            detail,
        } && dependency@ == manifest.edges@[k].dependency_name@ && path@
            == manifest.manifest_path@ && detail@ == choices@[k]->Err_0@);
    if k < i {
        assert(choices@[k] is Ok);
    } else if i < k {
        assert(choices@[i] is Ok);
    }
}

/// A text of the list names the path of the other text.
pub open spec fn names_path(list: Seq<String>, s: Seq<char>) -> bool {
    exists|k: int| 0 <= k < list.len() && path::path_of((#[trigger] list[k])@) == path::path_of(s)
}

/// The text is how a crate names its manifest.
pub open spec fn names_manifest(crates: Seq<CrateInfo>, s: Seq<char>) -> bool {
    exists|i: int| 0 <= i < crates.len() && (#[trigger] crates[i]).manifest_path@ == s
}

/// The edit is one of a change.
pub open spec fn edit_of_changes(
    changes: Seq<ManifestChange>,
    edit: InternalDependencyEdit,
) -> bool {
    exists|c: int, e: int|
        0 <= c < changes.len() && 0 <= e < changes[c].edits@.len()
            && #[trigger] changes[c].edits@[e] == edit
}

/// The manifests of all crates are rewritten, and the one at the root where there is one;
/// no others are, and none twice.
pub proof fn all_manifests_are_rewritten(
    crates: &Vec<CrateInfo>,
    root_exists: bool,
    result: Vec<String>,
)
    requires
        call_ensures(internal::manifests_to_rewrite, (crates, root_exists), result),
    ensures
        forall|i: int|
            0 <= i < crates@.len() ==> names_path(
                result@,
                (#[trigger] crates@[i]).manifest_path@,
            ),
        root_exists ==> names_path(result@, "Cargo.toml"@),
        forall|k: int|
            0 <= k < result@.len() ==> (root_exists && (#[trigger] result@[k])@ == "Cargo.toml"@)
                || names_manifest(crates@, result@[k]@),
        forall|j: int, k: int|
            0 <= j < k < result@.len() ==> path::path_of((#[trigger] result@[j])@)
                != path::path_of((#[trigger] result@[k])@),
{
    let all = internal::manifests_of(crates@, root_exists);
    let listed = text::texts(result@);
    assert forall|i: int| 0 <= i < crates@.len() implies names_path(
        result@,
        (#[trigger] crates@[i]).manifest_path@,
    ) by {
        assert(all[i] == crates@[i].manifest_path@);
        listed_names_path(all, result@, i);
    }
    if root_exists {
        assert(all[crates@.len() as int] == "Cargo.toml"@);
        listed_names_path(all, result@, crates@.len() as int);
    }
    assert forall|k: int| 0 <= k < result@.len() implies (root_exists && (#[trigger] result@[k])@
        == "Cargo.toml"@) || names_manifest(crates@, result@[k]@) by {
        assert(listed[k] == result@[k]@);
        let i = listed_is_given(all, listed, k);
        if i < crates@.len() {
            assert(all[i] == crates@[i].manifest_path@);
        }
    }
    assert forall|j: int, k: int| 0 <= j < k < result@.len() implies path::path_of(
        (#[trigger] result@[j])@,
    ) != path::path_of((#[trigger] result@[k])@) by {
        assert(listed[j] == result@[j]@);
        assert(listed[k] == result@[k]@);
        assert(path::path_rank(path::path_of(listed[j]), path::path_of(listed[k]))
            == Rank::Before);
        path::path_rank_swaps(path::path_of(listed[j]), path::path_of(listed[k]));
    }
}

/// Every path of a list is named once it is sorted.
pub proof fn listed_names_path(all: Seq<Seq<char>>, result: Seq<String>, i: int)
    requires
        path::sorted_paths(all, text::texts(result)),
        0 <= i < all.len(),
    ensures
        names_path(result, all[i]),
{
    let listed = text::texts(result);
    listed_by_path(all, listed, i);
    let k = choose|k: int|
        0 <= k < listed.len() && path::path_of(#[trigger] listed[k]) == path::path_of(all[i]);
    assert(result[k]@ == listed[k]);
}

/// Every path of a list is listed once it is sorted.
pub proof fn listed_by_path(all: Seq<Seq<char>>, listed: Seq<Seq<char>>, i: int)
    requires
        path::sorted_paths(all, listed),
        0 <= i < all.len(),
    ensures
        exists|k: int|
            0 <= k < listed.len() && path::path_of(#[trigger] listed[k]) == path::path_of(all[i]),
{
    path::path_has_first_text(all, i);
    let s = choose|s: Seq<char>|
        path::first_of_path(all, s) && path::path_of(s) == path::path_of(all[i]);
    assert(listed.contains(s));
    let k = listed.index_of(s);
    assert(listed[k] == s);
}

/// What is listed once a list of paths is sorted was in the list.
pub proof fn listed_is_given(all: Seq<Seq<char>>, listed: Seq<Seq<char>>, k: int) -> (i: int)
    requires
        path::sorted_paths(all, listed),
        0 <= k < listed.len(),
    ensures
        0 <= i < all.len(),
        all[i] == listed[k],
{
    assert(listed.contains(listed[k]));
    choose|i: int|
        #![trigger all[i]]
        0 <= i < all.len() && all[i] == listed[k] && forall|m: int|
            #![trigger all[m]]
            0 <= m < i ==> path::path_of(all[m]) != path::path_of(listed[k])
}

/// The drift of a workspace is all edits of all changes and nothing else, by manifest, then
/// by key, then by name.
pub proof fn drift_is_all_edits_in_order(
    changes: Vec<ManifestChange>,
    result: Vec<InternalDependencyEdit>,
)
    requires
        call_ensures(internal::internal_dependency_drifts, (changes,), result),
    ensures
        forall|c: int, e: int|
            0 <= c < changes@.len() && 0 <= e < changes@[c].edits@.len() ==> result@.contains(
                #[trigger] changes@[c].edits@[e],
            ),
        forall|k: int|
            0 <= k < result@.len() ==> edit_of_changes(changes@, #[trigger] result@[k]),
        forall|i: int, j: int|
            0 <= i < j < result@.len() ==> in_order(#[trigger] result@[i], #[trigger] result@[j]),
        result@.len() == Seq::new(changes@.len(), |c: int| changes@[c].edits@).flatten().len(),
{
    let all = internal::all_edits(changes@);
    order::sorting_keeps_the_elements(all, result@);
    all_edits_are_those_of_the_changes(changes@);
    assert forall|c: int, e: int|
        0 <= c < changes@.len() && 0 <= e < changes@[c].edits@.len() implies result@.contains(
        #[trigger] changes@[c].edits@[e],
    ) by {
        edit_is_among_all(changes@, c, e);
        let k = all.index_of(changes@[c].edits@[e]);
        assert(result@.contains(all[k]));
    }
    assert forall|k: int| 0 <= k < result@.len() implies edit_of_changes(
        changes@,
        #[trigger] result@[k],
    ) by {
        assert(all.contains(result@[k]));
        edit_is_of_a_change(changes@, all.index_of(result@[k]));
    }
    let from = choose|from: Seq<int>| order::sorted_from(all, result@, from);
    assert forall|i: int, j: int| 0 <= i < j < result@.len() implies in_order(
        #[trigger] result@[i],
        #[trigger] result@[j],
    ) by {
        let (a, b) = (result@[i]@, result@[j]@);
        assert(internal::edit_rank(a, b) != Rank::After);
        path::path_rank_swaps(path::path_of(a.path), path::path_of(b.path));
        text::text_rank_swaps(a.key, b.key);
    }
}

proof fn all_edits_are_those_of_the_changes(changes: Seq<ManifestChange>)
    ensures
        internal::all_edits(changes) == Seq::new(
            changes.len(),
            |c: int| changes[c].edits@,
        ).flatten(),
    decreases changes.len(),
{
    let own = Seq::new(changes.len(), |c: int| changes[c].edits@);
    if changes.len() > 0 {
        let tail = changes.drop_first();
        all_edits_are_those_of_the_changes(tail);
        assert(own.drop_first() =~= Seq::new(tail.len(), |c: int| tail[c].edits@));
    }
}

/// The edits may stand so: by manifest, then by key, then by name.
pub open spec fn in_order(a: InternalDependencyEdit, b: InternalDependencyEdit) -> bool {
    let manifests = path::path_rank(
        path::path_of(a.manifest_path@),
        path::path_of(b.manifest_path@),
    );
    ||| manifests == Rank::Before
    ||| path::path_of(a.manifest_path@) == path::path_of(b.manifest_path@) && (text::text_rank(
        a.dependency_key@,
        b.dependency_key@,
    ) == Rank::Before || a.dependency_key@ == b.dependency_key@ && text::text_rank(
        a.dependency_name@,
        b.dependency_name@,
    ) != Rank::After)
}

proof fn edit_is_among_all(changes: Seq<ManifestChange>, c: int, e: int)
    requires
        0 <= c < changes.len(),
        0 <= e < changes[c].edits@.len(),
    ensures
        internal::all_edits(changes).contains(changes[c].edits@[e]),
    decreases changes.len(),
{
    let own = changes.first().edits@;
    let rest = internal::all_edits(changes.drop_first());
    if c == 0 {
        assert((own + rest)[e] == changes[c].edits@[e]);
    } else {
        assert(changes.drop_first()[c - 1] == changes[c]);
        edit_is_among_all(changes.drop_first(), c - 1, e);
        let k = rest.index_of(changes[c].edits@[e]);
        assert((own + rest)[own.len() + k] == changes[c].edits@[e]);
    }
}

proof fn edit_is_of_a_change(changes: Seq<ManifestChange>, k: int)
    requires
        0 <= k < internal::all_edits(changes).len(),
    ensures
        exists|c: int, e: int|
            0 <= c < changes.len() && 0 <= e < changes[c].edits@.len()
                && #[trigger] changes[c].edits@[e] == internal::all_edits(changes)[k],
    decreases changes.len(),
{
    if changes.len() > 0 {
        let own = changes.first().edits@;
        let tail = changes.drop_first();
        let rest = internal::all_edits(tail);
        if k < own.len() {
            assert(changes[0].edits@[k] == (own + rest)[k]);
        } else {
            edit_is_of_a_change(tail, k - own.len());
            let (c, e) = choose|c: int, e: int|
                0 <= c < tail.len() && 0 <= e < tail[c].edits@.len()
                    && #[trigger] tail[c].edits@[e] == rest[k - own.len()];
            assert(changes[c + 1] == tail[c]);
            assert(changes[c + 1].edits@[e] == (own + rest)[k]);
        }
    }
}

/// The text is how an edit names its manifest.
pub open spec fn an_edit_names(edits: Seq<InternalDependencyEdit>, s: Seq<char>) -> bool {
    exists|i: int| 0 <= i < edits.len() && (#[trigger] edits[i]).manifest_path@ == s
}

/// The manifests that are listed as changed are those of the edits, all and no others.
pub proof fn changed_manifests_are_those_of_the_edits(
    edits: &Vec<InternalDependencyEdit>,
    result: Vec<String>,
)
    requires
        call_ensures(internal::set_internal_dependency_requirements, (edits,), result),
    ensures
        forall|i: int|
            0 <= i < edits@.len() ==> names_path(result@, (#[trigger] edits@[i]).manifest_path@),
        forall|k: int|
            0 <= k < result@.len() ==> an_edit_names(edits@, (#[trigger] result@[k])@),
{
    let all = edits@.map_values(|edit: InternalDependencyEdit| edit.manifest_path@);
    let listed = text::texts(result@);
    assert forall|i: int| 0 <= i < edits@.len() implies names_path(
        result@,
        (#[trigger] edits@[i]).manifest_path@,
    ) by {
        assert(all[i] == edits@[i].manifest_path@);
        listed_names_path(all, result@, i);
    }
    assert forall|k: int| 0 <= k < result@.len() implies an_edit_names(
        edits@,
        (#[trigger] result@[k])@,
    ) by {
        assert(listed[k] == result@[k]@);
        let i = listed_is_given(all, listed, k);
        assert(all[i] == edits@[i].manifest_path@);
    }
}

proof fn change_is_made(
    workspace: Workspace,
    manifests: Seq<ManifestRewrite>,
    choices: Seq<Vec<Result<Option<String>, String>>>,
    i: int,
)
    requires
        manifests.len() == choices.len(),
        0 <= i < manifests.len(),
        internal::change_of(workspace, manifests[i], choices[i]@) is Some,
    ensures
        normalize::changes_made(workspace, manifests, choices).contains(
            internal::change_of(workspace, manifests[i], choices[i]@)->0,
        ),
    decreases manifests.len(),
{
    let n = manifests.len() - 1;
    let before = normalize::changes_made(workspace, manifests.drop_last(), choices.drop_last());
    let all = normalize::changes_made(workspace, manifests, choices);
    let change = internal::change_of(workspace, manifests[i], choices[i]@)->0;
    if i < n {
        assert(manifests.drop_last()[i] == manifests[i]);
        assert(choices.drop_last()[i] == choices[i]);
        change_is_made(workspace, manifests.drop_last(), choices.drop_last(), i);
        let k = before.index_of(change);
        assert(all[k] == change);
    } else {
        assert(all[before.len() as int] == change);
    }
}

/// A manifest that is changed by itself is changed with the workspace: its new text is
/// written, where changes are written, and the rewrite lists its edits. Where they are not
/// written, nothing is.
pub proof fn the_workspace_is_rewritten_manifest_by_manifest(
    manifests: Vec<ManifestRewrite>,
    crates: &Vec<CrateInfo>,
    plans: &Vec<CrateReleasePlan>,
    choices: &Vec<Vec<Result<Option<String>, String>>>,
    write_changes: bool,
    result: WorkspaceRewrite,
    i: int,
    change: ManifestChange,
)
    requires
        manifests@.len() == choices@.len(),
        call_ensures(
            normalize::rewrite_workspace_requirements,
            (manifests, crates, plans, choices, write_changes),
            result,
        ),
        forall|m: int, k: int|
            0 <= m < choices@.len() && 0 <= k < choices@[m]@.len() ==> (
            #[trigger] choices@[m]@[k]) is Ok,
        0 <= i < manifests@.len(),
        call_ensures(
            internal::rewrite_internal_dependency_requirements,
            (manifests@[i], crates, plans, &choices@[i]),
            Ok::<Option<ManifestChange>, ReleaseError>(Some(change)),
        ),
    ensures
        !write_changes ==> result.writes@.len() == 0,
        write_changes ==> exists|k: int|
            0 <= k < result.writes@.len() && (#[trigger] result.writes@[k]).path@
                == change.manifest_path@ && result.writes@[k].content@ == change.text@,
        result.outcome matches Ok(edits) && forall|e: int|
            0 <= e < change.edits@.len() ==> internal::edits_of(edits@).contains(
                (#[trigger] change.edits@[e])@,
            ),
{
    let workspace = Workspace { crates: crates@, plans: plans@ };
    let made = normalize::changes_made(workspace, manifests@, choices@);
    change_is_made(workspace, manifests@, choices@, i);
    let k = made.index_of(change@);
    assert(made[k] == change@);
    assert(normalize::none_failing(choices@)) by {
        assert forall|m: int| 0 <= m < choices@.len() implies internal::no_failure(
            (#[trigger] choices@[m])@,
        ) by {
            assert forall|j: int| 0 <= j < choices@[m]@.len() implies (
            #[trigger] choices@[m]@[j]) is Ok by {}
        }
    }
    match result.outcome {
        Ok(edits) => {
            let views = normalize::file_views(result.writes@);
            assert(views.len() == result.writes@.len());
            if write_changes {
                assert(normalize::writes_of(made, true)[k] == (made[k].path, made[k].text));
                assert(views[k] == (result.writes@[k].path@, result.writes@[k].content@));
            }
            let list = choose|list: Seq<ManifestChange>| #[trigger]
                normalize::edits_listed(list, made, edits@);
            assert(normalize::change_views(list).len() == list.len());
            assert(normalize::change_views(list)[k] == list[k]@);
            let all = internal::all_edits(list);
            order::sorting_keeps_the_elements(all, edits@);
            assert forall|e: int| 0 <= e < change.edits@.len() implies internal::edits_of(
                edits@,
            ).contains((#[trigger] change.edits@[e])@) by {
                assert(internal::edits_of(change.edits@)[e] == change.edits@[e]@);
                assert(internal::edits_of(list[k].edits@) == internal::edits_of(change.edits@));
                assert(internal::edits_of(list[k].edits@).len() == list[k].edits@.len());
                assert(internal::edits_of(list[k].edits@)[e] == list[k].edits@[e]@);
                edit_is_among_all(list, k, e);
                let p = all.index_of(list[k].edits@[e]);
                assert(edits@.contains(all[p]));
                let q = edits@.index_of(all[p]);
                assert(internal::edits_of(edits@)[q] == edits@[q]@);
            }
        },
        Err(_) => {
            let m = choose|m: int| #[trigger] normalize::first_failing(choices@, m);
            assert(internal::no_failure(choices@[m]@));
        },
    }
}

/// Which manifests the choices change by themselves.
pub open spec fn changing(
    workspace: Workspace,
    manifests: Seq<ManifestRewrite>,
    choices: Seq<Vec<Result<Option<String>, String>>>,
) -> Seq<bool> {
    Seq::new(
        manifests.len(),
        |i: int| internal::change_of(workspace, manifests[i], choices[i]@) is Some,
    )
}

proof fn changes_counted(
    workspace: Workspace,
    manifests: Seq<ManifestRewrite>,
    choices: Seq<Vec<Result<Option<String>, String>>>,
)
    requires
        manifests.len() == choices.len(),
    ensures
        ({
            let marks = changing(workspace, manifests, choices);
            let made = normalize::changes_made(workspace, manifests, choices);
            &&& made.len() == counting::marks(marks, manifests.len() as int)
            &&& forall|i: int|
                0 <= i < manifests.len() && #[trigger] marks[i] ==> made[counting::marks(marks, i)]
                    == internal::change_of(workspace, manifests[i], choices[i]@)->0
        }),
    decreases manifests.len(),
{
    let marks = changing(workspace, manifests, choices);
    if manifests.len() > 0 {
        let n = manifests.len() - 1;
        let (m, c) = (manifests.drop_last(), choices.drop_last());
        changes_counted(workspace, m, c);
        let fewer = changing(workspace, m, c);
        let before = normalize::changes_made(workspace, m, c);
        let made = normalize::changes_made(workspace, manifests, choices);
        assert forall|i: int| 0 <= i < n implies #[trigger] fewer[i] == marks[i] by {
            assert(m[i] == manifests[i]);
            assert(c[i] == choices[i]);
        }
        counting::marks_agree(fewer, marks, n);
        assert forall|i: int| 0 <= i < manifests.len() && #[trigger] marks[i] implies made[
        counting::marks(marks, i)] == internal::change_of(
            workspace,
            manifests[i],
            choices[i]@,
        )->0 by {
            if i < n {
                assert(fewer[i]);
                counting::marks_agree(fewer, marks, i);
                counting::marks_grow(fewer, i, n);
                assert(m[i] == manifests[i]);
                assert(c[i] == choices[i]);
            }
        }
    }
}

/// Written are exactly the manifests that the choices change, all of them and in their order,
/// each with its new text.
pub proof fn only_changed_manifests_are_written(
    manifests: Vec<ManifestRewrite>,
    crates: &Vec<CrateInfo>,
    plans: &Vec<CrateReleasePlan>,
    choices: &Vec<Vec<Result<Option<String>, String>>>,
    result: WorkspaceRewrite,
)
    requires
        manifests@.len() == choices@.len(),
        call_ensures(
            normalize::rewrite_workspace_requirements,
            (manifests, crates, plans, choices, true),
            result,
        ),
        result.outcome is Ok,
    ensures
        ({
            let workspace = Workspace { crates: crates@, plans: plans@ };
            let marks = changing(workspace, manifests@, choices@);
            &&& result.writes@.len() == counting::marks(marks, manifests@.len() as int)
            &&& forall|i: int|
                0 <= i < manifests@.len() && #[trigger] marks[i] ==> {
                    let write = result.writes@[counting::marks(marks, i)];
                    &&& write.path@ == manifests@[i].manifest_path@
                    &&& write.content@ == document::document_text(
                        requirements::rewritten_manifest(
                            workspace,
                            document::document_tree(manifests@[i].document),
                            all_asked(choices@[i]@),
                        ),
                    )
                }
        }),
{
    let workspace = Workspace { crates: crates@, plans: plans@ };
    let marks = changing(workspace, manifests@, choices@);
    let made = normalize::changes_made(workspace, manifests@, choices@);
    changes_counted(workspace, manifests@, choices@);
    let views = normalize::file_views(result.writes@);
    assert(views.len() == result.writes@.len());
    assert(views == normalize::writes_of(made, true));
    assert forall|i: int| 0 <= i < manifests@.len() && #[trigger] marks[i] implies {
        let write = result.writes@[counting::marks(marks, i)];
        &&& write.path@ == manifests@[i].manifest_path@
        &&& write.content@ == document::document_text(
            requirements::rewritten_manifest(
                workspace,
                document::document_tree(manifests@[i].document),
                all_asked(choices@[i]@),
            ),
        )
    } by {
        counting::marks_grow(marks, i, manifests@.len() as int);
        asked_is_chosen(choices@[i]@);
        let k = counting::marks(marks, i);
        assert(views[k] == (result.writes@[k].path@, result.writes@[k].content@));
        assert(views[k] == (made[k].path, made[k].text));
    }
}

/// A choice that failed for a manifest fails the whole rewrite, with the message of the first
/// manifest that it failed for.
pub proof fn a_failed_choice_fails_the_rewrite(
    manifests: Vec<ManifestRewrite>,
    crates: &Vec<CrateInfo>,
    plans: &Vec<CrateReleasePlan>,
    choices: &Vec<Vec<Result<Option<String>, String>>>,
    write_changes: bool,
    result: WorkspaceRewrite,
    i: int,
    own: ReleaseError,
)
    requires
        manifests@.len() == choices@.len(),
        call_ensures(
            normalize::rewrite_workspace_requirements,
            (manifests, crates, plans, choices, write_changes),
            result,
        ),
        0 <= i < manifests@.len(),
        forall|m: int, k: int|
            0 <= m < i && 0 <= k < choices@[m]@.len() ==> (#[trigger] choices@[m]@[k]) is Ok,
        call_ensures(
            internal::rewrite_internal_dependency_requirements,
            (manifests@[i], crates, plans, &choices@[i]),
            Err::<Option<ManifestChange>, ReleaseError>(own),
        ),
    ensures
        result.outcome matches Err(error) && error::message_of(error) == error::message_of(own),
        !write_changes ==> result.writes@.len() == 0,
{
    assert(normalize::first_failing(choices@, i)) by {
        assert forall|m: int| 0 <= m < i implies internal::no_failure(
            (#[trigger] choices@[m])@,
        ) by {
            assert forall|j: int| 0 <= j < choices@[m]@.len() implies (
            #[trigger] choices@[m]@[j]) is Ok by {}
        }
    }
    assert(normalize::file_views(result.writes@).len() == result.writes@.len());
    match result.outcome {
        Ok(_) => {
            assert(internal::no_failure(choices@[i]@));
        },
        Err(error) => {
            let m = choose|m: int| #[trigger]
                normalize::first_failing(choices@, m) && internal::failure_shown(
                    error,
                    manifests@[m],
                    choices@[m]@,
                ) && normalize::file_views(result.writes@) == normalize::writes_of(
                    normalize::changes_made(
                        Workspace { crates: crates@, plans: plans@ },
                        manifests@.take(m),
                        choices@.take(m),
                    ),
                    write_changes,
                );
            if m < i {
                assert(internal::no_failure(choices@[m]@));
            } else if i < m {
                assert(internal::no_failure(choices@[i]@));
            }
            failures_agree(error, own, manifests@[i], choices@[i]@);
        },
    }
}

proof fn failures_agree(
    x: ReleaseError,
    y: ReleaseError,
    manifest: ManifestRewrite,
    choices: Seq<Result<Option<String>, String>>,
)
    requires
        internal::failure_shown(x, manifest, choices),
        internal::failure_shown(y, manifest, choices),
    ensures
        error::message_of(x) == error::message_of(y),
{
    let p = choose|p: int| #[trigger]
        internal::first_failure(choices, p) && (x matches ReleaseError::InvalidRequirement {
            dependency,
            path,
            detail,
        } && dependency@ == manifest.edges@[p].dependency_name@ && path@ == manifest.manifest_path@
            && detail@ == choices[p]->Err_0@);
    let q = choose|q: int| #[trigger]
        internal::first_failure(choices, q) && (y matches ReleaseError::InvalidRequirement {
            dependency,
            path,
            detail,
        } && dependency@ == manifest.edges@[q].dependency_name@ && path@ == manifest.manifest_path@
            && detail@ == choices[q]->Err_0@);
    if p < q {
        assert(choices[p] is Ok);
    } else if q < p {
        assert(choices[q] is Ok);
    }
}

/// A dependency that states what is asked for stays as it is, forms included.
pub proof fn agreeing_dependencies_stay(dependency: Tree, next: Option<Seq<char>>)
    requires
        tree::text_in(tree::get(dependency, "version"@)) == next,
    ensures
        requirements::with_requirement(dependency, next) == dependency,
{
}

} // verus!
