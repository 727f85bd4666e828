//! Keeping the requirements on crates of the workspace in step with their versions.

use crate::document;
use crate::error::ReleaseError;
use crate::order;
use crate::order::Ranked;
use crate::path;
use crate::plan::{CrateInfo, CrateReleasePlan};
use crate::requirements;
use crate::requirements::{DependencyEdge, EdgeView, Workspace};
use crate::rewrite;
use crate::settling;
use crate::text;
use crate::text::Rank;
use crate::tree;
use crate::tree::Tree;
use vstd::prelude::*;

verus! {

/// A requirement on a crate of the workspace that has to change.
#[derive(Debug, PartialEq, Eq)]
pub struct InternalDependencyEdit {
    pub manifest_path: String,
    pub dependency_key: String,
    pub dependency_name: String,
    pub old_requirement: Option<String>,
    pub new_requirement: Option<String>,
}

/// An edit in specifications.
pub struct EditView {
    pub path: Seq<char>,
    pub key: Seq<char>,
    pub name: Seq<char>,
    pub old_requirement: Option<Seq<char>>,
    pub new_requirement: Option<Seq<char>>,
}

impl View for InternalDependencyEdit {
    type V = EditView;

    open spec fn view(&self) -> EditView {
        EditView {
            path: self.manifest_path@,
            key: self.dependency_key@,
            name: self.dependency_name@,
            old_requirement: text::maybe_text(self.old_requirement),
            new_requirement: text::maybe_text(self.new_requirement),
        }
    }
}

/// A manifest whose requirements are about to be rewritten, with the edges that a
/// requirement has to be chosen for.
pub struct ManifestRewrite {
    pub manifest_path: String,
    pub original: String,
    pub document: toml_edit::DocumentMut,
    pub edges: Vec<DependencyEdge>,
}

/// The new text of a manifest, and what changed in it.
#[derive(Debug)]
pub struct ManifestChange {
    pub manifest_path: String,
    pub text: String,
    pub edits: Vec<InternalDependencyEdit>,
}

/// A list of edits in specifications.
pub open spec fn edits_of(edits: Seq<InternalDependencyEdit>) -> Seq<EditView> {
    edits.map_values(|edit: InternalDependencyEdit| edit@)
}

/// The edit of an edge that is to state another requirement.
pub open spec fn edit_of(
    manifest_path: Seq<char>,
    edge: EdgeView,
    next: Option<Seq<char>>,
) -> EditView {
    EditView {
        path: manifest_path,
        key: edge.key,
        name: edge.name,
        old_requirement: edge.current,
        new_requirement: next,
    }
}

/// The edits of the first `n` edges: one for each that states another requirement than
/// the one at its place in the list.
pub open spec fn edits_needed(
    manifest_path: Seq<char>,
    edges: Seq<EdgeView>,
    next: Seq<Option<Seq<char>>>,
    n: nat,
) -> Seq<EditView>
    decreases n,
{
    if n == 0 {
        Seq::empty()
    } else {
        let before = edits_needed(manifest_path, edges, next, (n - 1) as nat);
        if edges[n - 1].current == next[n - 1] {
            before
        } else {
            before.push(edit_of(manifest_path, edges[n - 1], next[n - 1]))
        }
    }
}

/// The requirement that a choice is for.
pub open spec fn chosen(choice: Result<Option<String>, String>) -> Option<Seq<char>> {
    match choice {
        Ok(requirement) => text::maybe_text(requirement),
        Err(_) => None,
    }
}

/// The requirements that a list of choices is for.
pub open spec fn all_chosen(choices: Seq<Result<Option<String>, String>>) -> Seq<
    Option<Seq<char>>,
> {
    choices.map_values(|choice: Result<Option<String>, String>| chosen(choice))
}

/// The choice at `i` is the first that failed.
pub open spec fn first_failure(choices: Seq<Result<Option<String>, String>>, i: int) -> bool {
    &&& 0 <= i < choices.len()
    &&& choices[i] is Err
    &&& forall|k: int| 0 <= k < i ==> (#[trigger] choices[k]) is Ok
}

/// No choice failed.
pub open spec fn no_failure(choices: Seq<Result<Option<String>, String>>) -> bool {
    forall|k: int| 0 <= k < choices.len() ==> (#[trigger] choices[k]) is Ok
}

/// A change of a manifest, in specifications.
pub struct ChangeView {
    pub path: Seq<char>,
    pub text: Seq<char>,
    pub edits: Seq<EditView>,
}

impl View for ManifestChange {
    type V = ChangeView;

    open spec fn view(&self) -> ChangeView {
        ChangeView { path: self.manifest_path@, text: self.text@, edits: edits_of(self.edits@) }
    }
}

/// The change that the choices make of a manifest: none where every edge states what was
/// chosen for it, or where the text stays the same.
pub open spec fn change_of(
    workspace: Workspace,
    manifest: ManifestRewrite,
    choices: Seq<Result<Option<String>, String>>,
) -> Option<ChangeView> {
    let edges = requirements::edges_of(manifest.edges@);
    let next = all_chosen(choices);
    let edits = edits_needed(manifest.manifest_path@, edges, next, edges.len());
    let written = document::document_text(
        requirements::rewritten_manifest(
            workspace,
            document::document_tree(manifest.document),
            next,
        ),
    );
    if edits.len() == 0 || written == manifest.original@ {
        None
    } else {
        Some(ChangeView { path: manifest.manifest_path@, text: written, edits })
    }
}

/// The error names the first choice that failed.
pub open spec fn failure_shown(
    error: ReleaseError,
    manifest: ManifestRewrite,
    choices: Seq<Result<Option<String>, String>>,
) -> bool {
    error matches ReleaseError::InvalidRequirement { dependency, path, detail } && exists|i: int|
        #[trigger]
        first_failure(choices, i) && dependency@ == manifest.edges@[i].dependency_name@ && path@
            == manifest.manifest_path@ && detail@ == choices[i]->Err_0@
}

impl ManifestRewrite {
    /// The edges are those that the document states.
    pub open spec fn prepared(&self, workspace: Workspace) -> bool {
        &&& document::document_tree(self.document) is Table
        &&& tree::well_formed(document::document_tree(self.document))
        &&& requirements::edges_of(self.edges@) == requirements::manifest_edges(
            workspace,
            document::document_tree(self.document),
        )
    }

    /// Reads a manifest and lists the edges that a requirement has to be chosen for.
    /// `shown_path` is how an error names the file.
    pub fn prepare(
        manifest_path: &str,
        shown_path: &str,
        original: &str,
        crates: &Vec<CrateInfo>,
        plans: &Vec<CrateReleasePlan>,
    ) -> (result: Result<ManifestRewrite, ReleaseError>)
        ensures
            match result {
                Ok(rewrite) => {
                    &&& rewrite.manifest_path@ == manifest_path@
                    &&& rewrite.original@ == original@
                    &&& document::toml_edit_parse(original@) == Ok::<Tree, Seq<char>>(
                        document::document_tree(rewrite.document),
                    )
                    &&& rewrite.prepared(Workspace { crates: crates@, plans: plans@ })
                },
                Err(ReleaseError::InvalidManifest { path, detail }) => path@ == shown_path@
                    && document::toml_edit_parse(original@) == Err::<Tree, Seq<char>>(detail@),
                Err(_) => false,
            },
    {
        match document::parse_document(original) {
            Ok(document) => {
                let value = document::read_item(document::root_of(&document));
                let edges = requirements::collect_manifest_edges(crates, plans, &value);
                proof {
                    requirements::bare_manifest_edges(
                        Workspace { crates: crates@, plans: plans@ },
                        document::document_tree(document),
                    );
                }
                Ok(
                    ManifestRewrite {
                        manifest_path: manifest_path.to_owned(),
                        original: original.to_owned(),
                        document,
                        edges,
                    },
                )
            },
            Err(detail) => Err(
                ReleaseError::InvalidManifest { path: shown_path.to_owned(), detail },
            ),
        }
    }
}

/// Gives the edges of a manifest the requirements that were chosen for them. There is a
/// change to write where at least one edge stated another requirement and the new text
/// differs from the old one. The first choice that failed is reported.
pub fn rewrite_internal_dependency_requirements(
    manifest: ManifestRewrite,
    crates: &Vec<CrateInfo>,
    plans: &Vec<CrateReleasePlan>,
    choices: &Vec<Result<Option<String>, String>>,
) -> (result: Result<Option<ManifestChange>, ReleaseError>)
    requires
        manifest.prepared(Workspace { crates: crates@, plans: plans@ }),
        choices.len() == manifest.edges.len(),
    ensures
        match result {
            Ok(Some(change)) => no_failure(choices@) && change_of(
                Workspace { crates: crates@, plans: plans@ },
                manifest,
                choices@,
            ) == Some(change@) && of_its_manifest(change),
            Ok(None) => no_failure(choices@) && change_of(
                Workspace { crates: crates@, plans: plans@ },
                manifest,
                choices@,
            ) is None,
            Err(error) => !no_failure(choices@) && failure_shown(error, manifest, choices@),
        },
{
    let ghost workspace = Workspace { crates: crates@, plans: plans@ };
    let ghost edges = requirements::edges_of(manifest.edges@);
    let mut next: Vec<Option<String>> = Vec::new();
    let mut edits: Vec<InternalDependencyEdit> = Vec::new();
    let mut i: usize = 0;
    assert(edits_of(edits@) =~= Seq::empty());
    while i < choices.len()
        invariant
            i <= choices.len(),
            choices.len() == manifest.edges.len(),
            edges == requirements::edges_of(manifest.edges@),
            next.len() == i,
            forall|k: int| 0 <= k < i ==> (#[trigger] choices@[k]) is Ok,
            forall|k: int|
                0 <= k < i ==> text::maybe_text(#[trigger] next@[k]) == chosen(choices@[k]),
            edits_of(edits@) == edits_needed(
                manifest.manifest_path@,
                edges,
                all_chosen(choices@),
                i as nat,
            ),
        decreases choices.len() - i,
    {
        let edge = &manifest.edges[i];
        assert(edges[i as int] == edge@);
        match &choices[i] {
            Ok(requirement) => {
                if !rewrite::same_requirement(&edge.current_requirement, requirement) {
                    let edit = InternalDependencyEdit {
                        manifest_path: manifest.manifest_path.clone(),
                        dependency_key: edge.dependency_key.clone(),
                        dependency_name: edge.dependency_name.clone(),
                        old_requirement: copied(&edge.current_requirement),
                        new_requirement: copied(requirement),
                    };
                    assert(edits_of(edits@.push(edit)) =~= edits_of(edits@).push(edit@));
                    edits.push(edit);
                }
                next.push(copied(requirement));
            },
            Err(detail) => {
                assert(first_failure(choices@, i as int));
                return Err(
                    ReleaseError::InvalidRequirement {
                        dependency: edge.dependency_name.clone(),
                        path: manifest.manifest_path.clone(),
                        detail: detail.clone(),
                    },
                );
            },
        }
        i += 1;
    }
    assert(requirements::requirements_of(next@) =~= all_chosen(choices@));
    if edits.len() == 0 {
        return Ok(None);
    }
    let ManifestRewrite { manifest_path, original, mut document, .. } = manifest;
    rewrite::rewrite_manifest(&mut document, crates, plans, &next);
    proof {
        settling::rewriting_settles(
            workspace,
            document::document_tree(manifest.document),
            requirements::requirements_of(next@),
        );
    }
    let rendered = document::render_document(&document);
    if text::same_text(rendered.as_str(), original.as_str()) {
        return Ok(None);
    }
    let change = ManifestChange { manifest_path, text: rendered, edits };
    proof {
        edits_change_requirements(
            change.manifest_path@,
            edges,
            all_chosen(choices@),
            edges.len(),
        );
        assert forall|k: int| 0 <= k < change.edits@.len() implies (
        #[trigger] change.edits@[k]).manifest_path@ == change.manifest_path@ by {
            assert(edits_of(change.edits@)[k] == change.edits@[k]@);
        }
    }
    Ok(Some(change))
}

/// The order of two edits: by manifest, then by key, then by name.
pub open spec fn edit_rank(a: EditView, b: EditView) -> Rank {
    if path::path_rank(path::path_of(a.path), path::path_of(b.path)) != Rank::Same {
        path::path_rank(path::path_of(a.path), path::path_of(b.path))
    } else if text::text_rank(a.key, b.key) != Rank::Same {
        text::text_rank(a.key, b.key)
    } else {
        text::text_rank(a.name, b.name)
    }
}

impl Ranked for InternalDependencyEdit {
    open spec fn precedes(&self, other: &Self) -> bool {
        edit_rank(self@, other@) != Rank::After
    }

    proof fn precedes_totally(a: &Self, b: &Self) {
        path::path_rank_swaps(path::path_of(a@.path), path::path_of(b@.path));
        path::path_rank_swaps(path::path_of(b@.path), path::path_of(a@.path));
        text::text_rank_swaps(a@.key, b@.key);
        text::text_rank_swaps(b@.key, a@.key);
        text::text_rank_swaps(a@.name, b@.name);
    }

    proof fn precedes_chains(a: &Self, b: &Self, c: &Self) {
        let (x, y, z) = (path::path_of(a@.path), path::path_of(b@.path), path::path_of(c@.path));
        path::path_rank_swaps(x, y);
        path::path_rank_swaps(y, z);
        path::path_rank_swaps(x, z);
        path::path_rank_chains(x, y, z);
        text::text_rank_swaps(a@.key, b@.key);
        text::text_rank_swaps(b@.key, c@.key);
        text::text_rank_swaps(a@.key, c@.key);
        if text::text_rank(a@.key, b@.key) != Rank::After && text::text_rank(b@.key, c@.key)
            != Rank::After {
            text::text_rank_chains(a@.key, b@.key, c@.key);
        }
        if text::text_rank(a@.name, b@.name) != Rank::After && text::text_rank(b@.name, c@.name)
            != Rank::After {
            text::text_rank_chains(a@.name, b@.name, c@.name);
        }
    }

    fn may_precede(&self, other: &Self) -> (b: bool) {
        match path::rank_paths(self.manifest_path.as_str(), other.manifest_path.as_str()) {
            Rank::Before => true,
            Rank::After => false,
            Rank::Same => match text::rank_texts(
                self.dependency_key.as_str(),
                other.dependency_key.as_str(),
            ) {
                Rank::Before => true,
                Rank::After => false,
                Rank::Same => match text::rank_texts(
                    self.dependency_name.as_str(),
                    other.dependency_name.as_str(),
                ) {
                    Rank::After => false,
                    _ => true,
                },
            },
        }
    }
}

/// The manifests of the crates, and the one at the root where there is one.
pub open spec fn manifests_of(crates: Seq<CrateInfo>, root_exists: bool) -> Seq<Seq<char>> {
    let members = crates.map_values(|info: CrateInfo| info.manifest_path@);
    if root_exists {
        members.push("Cargo.toml"@)
    } else {
        members
    }
}

/// The manifests whose requirements are to be rewritten, in order and each once.
pub fn manifests_to_rewrite(crates: &Vec<CrateInfo>, root_exists: bool) -> (result: Vec<String>)
    ensures
        path::sorted_paths(manifests_of(crates@, root_exists), text::texts(result@)),
{
    let mut list: Vec<String> = Vec::new();
    let mut i: usize = 0;
    while i < crates.len()
        invariant
            i <= crates.len(),
            list.len() == i,
            forall|k: int| 0 <= k < i ==> (#[trigger] list@[k])@ == crates@[k].manifest_path@,
        decreases crates.len() - i,
    {
        list.push(crates[i].manifest_path.clone());
        i += 1;
    }
    if root_exists {
        list.push("Cargo.toml".to_owned());
    }
    assert(text::texts(list@) =~= manifests_of(crates@, root_exists));
    path::sort_paths(&list)
}

/// The edits of the changes, one change after the other.
pub open spec fn all_edits(changes: Seq<ManifestChange>) -> Seq<InternalDependencyEdit>
    decreases changes.len(),
{
    if changes.len() == 0 {
        Seq::empty()
    } else {
        changes.first().edits@ + all_edits(changes.drop_first())
    }
}

/// All edits of a workspace, by manifest, then by key, then by name.
pub fn internal_dependency_drifts(changes: Vec<ManifestChange>) -> (result: Vec<
    InternalDependencyEdit,
>)
    ensures
        order::sorted_stably(all_edits(changes@), result@),
{
    let ghost all = changes@;
    let mut changes = changes;
    let mut edits: Vec<InternalDependencyEdit> = Vec::new();
    assert(edits@ + all_edits(all) =~= all_edits(all));
    while changes.len() > 0
        invariant
            edits@ + all_edits(changes@) == all_edits(all),
        decreases changes.len(),
    {
        let ghost before = changes@;
        let ghost so_far = edits@;
        let mut change = changes.remove(0);
        proof {
            assert(changes@ =~= before.drop_first());
            assert(so_far + (before.first().edits@ + all_edits(changes@)) =~= (so_far
                + before.first().edits@) + all_edits(changes@));
        }
        edits.append(&mut change.edits);
    }
    assert(edits@ + all_edits(changes@) =~= edits@);
    order::sort(edits)
}

/// The manifests that the edits change, in order and each once.
pub fn set_internal_dependency_requirements(edits: &Vec<InternalDependencyEdit>) -> (result: Vec<
    String,
>)
    ensures
        path::sorted_paths(
            edits@.map_values(|edit: InternalDependencyEdit| edit.manifest_path@),
            text::texts(result@),
        ),
{
    let mut list: Vec<String> = Vec::new();
    let mut i: usize = 0;
    while i < edits.len()
        invariant
            i <= edits.len(),
            list.len() == i,
            forall|k: int| 0 <= k < i ==> (#[trigger] list@[k])@ == edits@[k].manifest_path@,
        decreases edits.len() - i,
    {
        list.push(edits[i].manifest_path.clone());
        i += 1;
    }
    assert(text::texts(list@) =~= edits@.map_values(
        |edit: InternalDependencyEdit| edit.manifest_path@,
    ));
    path::sort_paths(&list)
}

/// There is nothing to edit exactly where every edge states the requirement that was
/// decided for it.
pub proof fn no_edits_needed(
    manifest_path: Seq<char>,
    edges: Seq<EdgeView>,
    next: Seq<Option<Seq<char>>>,
    n: nat,
)
    requires
        n <= edges.len() == next.len(),
    ensures
        edits_needed(manifest_path, edges, next, n).len() == 0 <==> forall|i: int|
            0 <= i < n ==> (#[trigger] edges[i]).current == next[i],
    decreases n,
{
    if n > 0 {
        no_edits_needed(manifest_path, edges, next, (n - 1) as nat);
        if edits_needed(manifest_path, edges, next, n).len() == 0 {
            assert forall|i: int| 0 <= i < n implies (#[trigger] edges[i]).current == next[i] by {
                if i < n - 1 {
                    assert(edits_needed(manifest_path, edges, next, (n - 1) as nat).len() == 0);
                }
            }
        }
    }
}

/// A manifest that was rewritten has no drift left: with the same decisions nothing in it
/// needs an edit.
pub proof fn rewritten_manifest_needs_no_edit(
    manifest_path: Seq<char>,
    workspace: Workspace,
    manifest: Tree,
    next: Seq<Option<Seq<char>>>,
)
    requires
        tree::well_formed(manifest),
        requirements::manifest_edges(workspace, manifest).len() == next.len(),
    ensures
        ({
            let edges = requirements::manifest_edges(
                workspace,
                requirements::rewritten_manifest(workspace, manifest, next),
            );
            edits_needed(manifest_path, edges, next, edges.len()).len() == 0
        }),
{
    settling::rewriting_settles(workspace, manifest, next);
    let edges = requirements::manifest_edges(
        workspace,
        requirements::rewritten_manifest(workspace, manifest, next),
    );
    no_edits_needed(manifest_path, edges, next, edges.len());
}

/// A release leaves no drift behind: once its versions are set and its requirements
/// rewritten, the same decisions ask for no edit, though there are no plans any more.
pub proof fn release_leaves_no_drift(
    manifest_path: Seq<char>,
    before: Workspace,
    after: Workspace,
    manifest: Tree,
    next: Seq<Option<Seq<char>>>,
)
    requires
        tree::well_formed(manifest),
        settling::released(before, after),
        requirements::manifest_edges(before, manifest).len() == next.len(),
    ensures
        ({
            let edges = requirements::manifest_edges(
                after,
                requirements::rewritten_manifest(before, manifest, next),
            );
            edits_needed(manifest_path, edges, next, edges.len()).len() == 0
        }),
{
    rewritten_manifest_needs_no_edit(manifest_path, before, manifest, next);
    settling::released_workspace_wants_the_planned_versions(
        before,
        after,
        requirements::rewritten_manifest(before, manifest, next),
    );
}

/// Where no requirement was decided for any internal dependency, the rewritten manifest
/// states a requirement for none of them.
pub proof fn stripping_leaves_no_requirement(
    workspace: Workspace,
    manifest: Tree,
    next: Seq<Option<Seq<char>>>,
)
    requires
        tree::well_formed(manifest),
        requirements::manifest_edges(workspace, manifest).len() == next.len(),
        forall|i: int| 0 <= i < next.len() ==> (#[trigger] next[i]) is None,
    ensures
        ({
            let edges = requirements::manifest_edges(
                workspace,
                requirements::rewritten_manifest(workspace, manifest, next),
            );
            forall|i: int| 0 <= i < edges.len() ==> (#[trigger] edges[i]).current is None
        }),
{
    settling::rewriting_settles(workspace, manifest, next);
}

/// Every edit is of the manifest and changes its requirement.
pub proof fn edits_change_requirements(
    manifest_path: Seq<char>,
    edges: Seq<EdgeView>,
    next: Seq<Option<Seq<char>>>,
    n: nat,
)
    ensures
        forall|k: int|
            #![trigger edits_needed(manifest_path, edges, next, n)[k]]
            0 <= k < edits_needed(manifest_path, edges, next, n).len() ==> {
                let edit = edits_needed(manifest_path, edges, next, n)[k];
                edit.path == manifest_path && edit.old_requirement != edit.new_requirement
            },
    decreases n,
{
    if n > 0 {
        edits_change_requirements(manifest_path, edges, next, (n - 1) as nat);
        let before = edits_needed(manifest_path, edges, next, (n - 1) as nat);
        let all = edits_needed(manifest_path, edges, next, n);
        assert forall|k: int| #![trigger all[k]] 0 <= k < all.len() implies all[k].path
            == manifest_path && all[k].old_requirement != all[k].new_requirement by {
            if k < before.len() {
                assert(all[k] == before[k]);
            }
        }
    }
}

/// The change has edits, and all of them are of its manifest.
pub open spec fn of_its_manifest(change: ManifestChange) -> bool {
    &&& change.edits@.len() > 0
    &&& forall|k: int|
        0 <= k < change.edits@.len() ==> (#[trigger] change.edits@[k]).manifest_path@
            == change.manifest_path@
}

/// A change is of the manifest.
pub open spec fn rewritten(changes: Seq<ManifestChange>, manifest_path: Seq<char>) -> bool {
    exists|i: int|
        0 <= i < changes.len() && (#[trigger] changes[i]).manifest_path@ == manifest_path
}

/// An edit is of the manifest.
pub open spec fn edited(edits: Seq<InternalDependencyEdit>, manifest_path: Seq<char>) -> bool {
    exists|k: int| 0 <= k < edits.len() && (#[trigger] edits[k]).manifest_path@ == manifest_path
}

/// The manifests with edits are those that changed.
pub proof fn edited_is_rewritten(changes: Seq<ManifestChange>, manifest_path: Seq<char>)
    requires
        forall|i: int| 0 <= i < changes.len() ==> of_its_manifest(#[trigger] changes[i]),
    ensures
        edited(all_edits(changes), manifest_path) == rewritten(changes, manifest_path),
    decreases changes.len(),
{
    if changes.len() > 0 {
        let own = changes.first().edits@;
        let rest = changes.drop_first();
        let all = all_edits(changes);
        assert(of_its_manifest(changes[0]));
        assert forall|i: int| 0 <= i < rest.len() implies of_its_manifest(#[trigger] rest[i]) by {
            assert(rest[i] == changes[i + 1]);
        }
        edited_is_rewritten(rest, manifest_path);
        if edited(all, manifest_path) {
            let k = choose|k: int|
                0 <= k < all.len() && (#[trigger] all[k]).manifest_path@ == manifest_path;
            if k < own.len() {
                assert(all[k] == own[k]);
                assert(changes[0].manifest_path@ == manifest_path);
            } else {
                assert(all[k] == all_edits(rest)[k - own.len()]);
                assert(edited(all_edits(rest), manifest_path));
                let i = choose|i: int|
                    0 <= i < rest.len() && (#[trigger] rest[i]).manifest_path@ == manifest_path;
                assert(changes[i + 1] == rest[i]);
            }
        }
        if rewritten(changes, manifest_path) {
            let i = choose|i: int|
                0 <= i < changes.len() && (#[trigger] changes[i]).manifest_path@ == manifest_path;
            if i == 0 {
                assert(all[0] == own[0]);
            } else {
                assert(rest[i - 1] == changes[i]);
                assert(rewritten(rest, manifest_path));
                let k = choose|k: int|
                    0 <= k < all_edits(rest).len() && (#[trigger] all_edits(
                        rest,
                    )[k]).manifest_path@ == manifest_path;
                assert(all[own.len() + k] == all_edits(rest)[k]);
            }
        }
    }
}

/// Sorting edits leaves the manifests that they are of.
pub proof fn sorted_edits_are_of_the_same_manifests(
    all: Seq<InternalDependencyEdit>,
    edits: Seq<InternalDependencyEdit>,
    manifest_path: Seq<char>,
)
    requires
        order::sorted_stably(all, edits),
    ensures
        edited(edits, manifest_path) == edited(all, manifest_path),
{
    order::sorting_keeps_the_elements(all, edits);
    if edited(edits, manifest_path) {
        let k = choose|k: int|
            0 <= k < edits.len() && (#[trigger] edits[k]).manifest_path@ == manifest_path;
        assert(all.contains(edits[k]));
        assert(all[all.index_of(edits[k])] == edits[k]);
    }
    if edited(all, manifest_path) {
        let k = choose|k: int|
            0 <= k < all.len() && (#[trigger] all[k]).manifest_path@ == manifest_path;
        assert(edits.contains(all[k]));
        assert(edits[edits.index_of(all[k])] == all[k]);
    }
}

/// The manifests that are listed as changed are those that were rewritten, all of them and
/// no others.
pub proof fn listed_manifests_are_the_rewritten_ones(
    changes: Seq<ManifestChange>,
    edits: Seq<InternalDependencyEdit>,
    listed: Seq<Seq<char>>,
)
    requires
        forall|i: int| 0 <= i < changes.len() ==> of_its_manifest(#[trigger] changes[i]),
        order::sorted_stably(all_edits(changes), edits),
        path::sorted_paths(
            edits.map_values(|edit: InternalDependencyEdit| edit.manifest_path@),
            listed,
        ),
    ensures
        forall|s: Seq<char>| #[trigger] listed.contains(s) ==> rewritten(changes, s),
        forall|s: Seq<char>| #[trigger]
            rewritten(changes, s) ==> exists|first: Seq<char>| #[trigger]
                listed.contains(first) && path::path_of(first) == path::path_of(s),
{
    let paths = edits.map_values(|edit: InternalDependencyEdit| edit.manifest_path@);
    assert forall|s: Seq<char>| #[trigger] listed.contains(s) implies rewritten(changes, s) by {
        assert(path::first_of_path(paths, s));
        let j = choose|j: int| #![trigger paths[j]] 0 <= j < paths.len() && paths[j] == s;
        assert(edits[j].manifest_path@ == s);
        assert(edited(edits, s));
        sorted_edits_are_of_the_same_manifests(all_edits(changes), edits, s);
        edited_is_rewritten(changes, s);
    }
    assert forall|s: Seq<char>| #[trigger] rewritten(changes, s) implies exists|first: Seq<char>|
        #[trigger]
        listed.contains(first) && path::path_of(first) == path::path_of(s) by {
        edited_is_rewritten(changes, s);
        sorted_edits_are_of_the_same_manifests(all_edits(changes), edits, s);
        let j = choose|j: int|
            0 <= j < edits.len() && (#[trigger] edits[j]).manifest_path@ == s;
        assert(paths[j] == s);
        path::path_has_first_text(paths, j);
        let first = choose|first: Seq<char>|
            path::first_of_path(paths, first) && path::path_of(first) == path::path_of(paths[j]);
        assert(listed.contains(first));
    }
}

/// A copy of a requirement.
pub fn copied(requirement: &Option<String>) -> (result: Option<String>)
    ensures
        text::maybe_text(result) == text::maybe_text(*requirement),
{
    match requirement {
        Some(content) => Some(content.clone()),
        None => None,
    }
}

} // verus!
