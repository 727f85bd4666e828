//! Which dependencies are on crates of the workspace, and what is known of them.

use crate::internal::ManifestRewrite;
use crate::document;
use crate::error::ReleaseError;
use crate::laws::planning;
use crate::plan;
use crate::plan::{CrateInfo, CrateReleasePlan};
use crate::requirements;
use crate::requirements::{
    DependencyEdge, DependencyOwner, DependencySource, EdgeView, InternalDependencyPolicy,
    Publication, Workspace,
};
use crate::text;
use crate::tree;
use crate::tree::{Form, TomlValue, Tree};
use crate::version::VersionView;
use vstd::prelude::*;

verus! {

/// The crate that a dependency names: by its `package`, or else by its key.
pub open spec fn named_crate(key: Seq<char>, dependency: Tree, name: Seq<char>) -> bool {
    match tree::get(dependency, "package"@) {
        Some(Tree::Text(content, _)) => name == content,
        _ => name == key,
    }
}

/// The crate at `i` is the last of the name.
pub open spec fn last_crate(crates: Seq<CrateInfo>, name: Seq<char>, i: int) -> bool {
    &&& 0 <= i < crates.len()
    &&& crates[i].name@ == name
    &&& forall|j: int| i < j < crates.len() ==> (#[trigger] crates[j]).name@ != name
}

/// The version is the one that the crate is to have: the next one of the last plan of its
/// name, or the one it has where it has no plan.
pub open spec fn to_have(
    crates: Seq<CrateInfo>,
    plans: Seq<CrateReleasePlan>,
    name: Seq<char>,
    i: int,
    version: VersionView,
) -> bool {
    &&& forall|k: int|
        0 <= k < plans.len() && (#[trigger] plans[k]).crate_name@ == name && (forall|j: int|
            k < j < plans.len() ==> (#[trigger] plans[j]).crate_name@ != name) ==> version
            == plans[k].plan.next_version@
    &&& (forall|k: int| 0 <= k < plans.len() ==> (#[trigger] plans[k]).crate_name@ != name)
        ==> version == crates[i].version@
}

proof fn wanted_is_to_have(
    crates: Seq<CrateInfo>,
    plans: Seq<CrateReleasePlan>,
    name: Seq<char>,
    i: int,
)
    requires
        last_crate(crates, name, i),
    ensures
        plan::desired_version(crates, plans, name) is Some,
        to_have(crates, plans, name, i, plan::desired_version(crates, plans, name)->0),
{
    planning::last_crate_is_found(crates, name, i);
    let version = plan::desired_version(crates, plans, name)->0;
    assert forall|k: int|
        0 <= k < plans.len() && (#[trigger] plans[k]).crate_name@ == name && (forall|j: int|
            k < j < plans.len() ==> (#[trigger] plans[j]).crate_name@ != name) implies version
        == plans[k].plan.next_version@ by {
        planning::last_plan_is_found(plans, name, k);
    }
    if forall|k: int| 0 <= k < plans.len() ==> (#[trigger] plans[k]).crate_name@ != name {
        planning::no_plan_is_found(plans, name);
    }
}

/// A dependency in the form of a table that names a crate of the workspace, with a path or
/// through the workspace, is an edge: with its key, the name of the crate, its owner, where
/// the crate comes from, whether the crate and all crates are private, the requirement that
/// it states and the version that the crate is to have.
pub proof fn internal_dependencies_are_edges(
    workspace: Workspace,
    owner: DependencyOwner,
    key: Seq<char>,
    dependency: Tree,
    name: Seq<char>,
    i: int,
)
    requires
        dependency is Table,
        named_crate(key, dependency, name),
        last_crate(workspace.crates, name, i),
        tree::get(dependency, "path"@) is Some || tree::flag_in(
            tree::get(dependency, "workspace"@),
        ) == Some(true),
    ensures
        requirements::edge_of(workspace, owner, key, dependency) matches Some(edge) && {
            &&& edge.key == key
            &&& edge.name == name
            &&& edge.owner == owner
            &&& edge.source == DependencySource::Path <==> tree::get(dependency, "path"@) is Some
            &&& edge.publication == Publication::Private <==> workspace.crates[i].private
            &&& edge.all_private <==> forall|j: int|
                0 <= j < workspace.crates.len() ==> (#[trigger] workspace.crates[j]).private
            &&& edge.current == tree::text_in(tree::get(dependency, "version"@))
            &&& to_have(workspace.crates, workspace.plans, name, i, edge.desired)
        },
{
    planning::last_crate_is_found(workspace.crates, name, i);
    wanted_is_to_have(workspace.crates, workspace.plans, name, i);
    let edge = requirements::edge_of(workspace, owner, key, dependency)->0;
    assert(edge.source == DependencySource::Path || edge.source == DependencySource::Workspace);
    assert(edge.publication == Publication::Private || edge.publication
        == Publication::Publishable);
}

/// No other dependency is an edge: neither one that is not a table, nor one on a crate that
/// is not in the workspace, nor one that comes from elsewhere.
pub proof fn other_dependencies_are_no_edges(
    workspace: Workspace,
    owner: DependencyOwner,
    key: Seq<char>,
    dependency: Tree,
    name: Seq<char>,
)
    requires
        named_crate(key, dependency, name),
        !(dependency is Table) || (forall|j: int|
            0 <= j < workspace.crates.len() ==> (#[trigger] workspace.crates[j]).name@ != name) || (
        tree::get(dependency, "path"@) is None && tree::flag_in(
            tree::get(dependency, "workspace"@),
        ) != Some(true)),
    ensures
        requirements::edge_of(workspace, owner, key, dependency) is None,
{
    if dependency is Table && forall|j: int|
        0 <= j < workspace.crates.len() ==> (#[trigger] workspace.crates[j]).name@ != name {
        planning::no_crate_is_found(workspace.crates, name);
    }
}

/// What is found for a dependency that was read is its edge.
pub proof fn dependencies_are_read_as_edges(
    crates: &Vec<CrateInfo>,
    plans: &Vec<CrateReleasePlan>,
    owner: DependencyOwner,
    key: &str,
    dependency: &TomlValue,
    result: Option<DependencyEdge>,
)
    requires
        call_ensures(
            requirements::dependency_edge,
            (crates, plans, owner, key, dependency),
            result,
        ),
    ensures
        match result {
            Some(edge) => requirements::edge_of(
                Workspace { crates: crates@, plans: plans@ },
                owner,
                key@,
                dependency@,
            ) == Some(
                EdgeView {
                    key: edge.dependency_key@,
                    name: edge.dependency_name@,
                    owner: edge.owner,
                    source: edge.source,
                    publication: edge.dependency_publication,
                    all_private: edge.all_members_private,
                    current: text::maybe_text(edge.current_requirement),
                    desired: edge.desired_version@,
                },
            ),
            None => requirements::edge_of(
                Workspace { crates: crates@, plans: plans@ },
                owner,
                key@,
                dependency@,
            ) is None,
        },
{
}

/// The dependencies of a manifest belong to its package, where that is a crate of the
/// workspace, and are private where the crate is.
pub proof fn dependencies_belong_to_the_package(
    crates: &Vec<CrateInfo>,
    manifest: &TomlValue,
    package: Tree,
    name: Seq<char>,
    owner: DependencyOwner,
)
    requires
        call_ensures(requirements::dependency_owner, (crates, manifest), owner),
        tree::get(manifest@, "package"@) == Some(package),
        tree::text_in(tree::get(package, "name"@)) == Some(name),
    ensures
        forall|i: int| #[trigger]
            last_crate(crates@, name, i) ==> (owner matches DependencyOwner::Member {
                publication,
            } && (publication == Publication::Private <==> crates@[i].private)),
        (forall|j: int| 0 <= j < crates@.len() ==> (#[trigger] crates@[j]).name@ != name) ==> owner
            == DependencyOwner::UnknownMember,
{
    assert forall|i: int| #[trigger] last_crate(crates@, name, i) implies (
    owner matches DependencyOwner::Member { publication } && (publication == Publication::Private
        <==> crates@[i].private)) by {
        planning::last_crate_is_found(crates@, name, i);
    }
    if forall|j: int| 0 <= j < crates@.len() ==> (#[trigger] crates@[j]).name@ != name {
        planning::no_crate_is_found(crates@, name);
    }
}

/// A table of dependencies is read entry by entry, in order.
pub proof fn tables_are_read_entry_by_entry(
    workspace: Workspace,
    owner: DependencyOwner,
    a: Seq<(Seq<char>, Tree, Form)>,
    entry: (Seq<char>, Tree, Form),
    b: Seq<(Seq<char>, Tree, Form)>,
)
    ensures
        requirements::table_edges(workspace, owner, a + seq![entry] + b)
            == requirements::table_edges(workspace, owner, a) + (match requirements::edge_of(
            workspace,
            owner,
            entry.0,
            entry.1,
        ) {
            Some(edge) => seq![edge],
            None => Seq::<EdgeView>::empty(),
        }) + requirements::table_edges(workspace, owner, b),
        requirements::table_edges(workspace, owner, Seq::empty()).len() == 0,
    decreases a.len(),
{
    let all = a + seq![entry] + b;
    let own = match requirements::edge_of(workspace, owner, entry.0, entry.1) {
        Some(edge) => seq![edge],
        None => Seq::<EdgeView>::empty(),
    };
    let behind = requirements::table_edges(workspace, owner, b);
    if a.len() == 0 {
        assert(all.first() == entry);
        assert(all.drop_first() =~= b);
        assert(requirements::table_edges(workspace, owner, a) + own + behind =~= own + behind);
        assert(requirements::table_edges(workspace, owner, all) =~= own + behind);
    } else {
        let rest = a.drop_first();
        tables_are_read_entry_by_entry(workspace, owner, rest, entry, b);
        assert(all.first() == a.first());
        assert(all.drop_first() =~= rest + seq![entry] + b);
        let before = requirements::table_edges(workspace, owner, rest);
        match requirements::edge_of(workspace, owner, a.first().0, a.first().1) {
            Some(edge) => {
                assert(seq![edge] + (before + own + behind) =~= (seq![edge] + before) + own
                    + behind);
            },
            None => {},
        }
    }
}

/// Every entry of a table that is an edge is among the edges of the table.
pub proof fn edges_of_a_table_are_listed(
    workspace: Workspace,
    owner: DependencyOwner,
    entries: Seq<(Seq<char>, Tree, Form)>,
    j: int,
    edge: EdgeView,
)
    requires
        0 <= j < entries.len(),
        requirements::edge_of(workspace, owner, entries[j].0, entries[j].1) == Some(edge),
    ensures
        requirements::table_edges(workspace, owner, entries).contains(edge),
{
    let a = entries.take(j);
    let b = entries.skip(j + 1);
    assert(entries =~= a + seq![entries[j]] + b);
    tables_are_read_entry_by_entry(workspace, owner, a, entries[j], b);
    let before = requirements::table_edges(workspace, owner, a);
    assert(requirements::table_edges(workspace, owner, entries)[before.len() as int] == edge);
}

/// The key is that of a section of dependencies.
pub open spec fn a_section(section: Seq<char>) -> bool {
    section == "dependencies"@ || section == "dev-dependencies"@ || section
        == "build-dependencies"@
}

proof fn edges_of_a_section_are_listed(
    workspace: Workspace,
    owner: DependencyOwner,
    table: Tree,
    section: Seq<char>,
    j: int,
    edge: EdgeView,
)
    requires
        a_section(section),
        tree::get(table, section) matches Some(Tree::Table(entries, _)) && 0 <= j < entries.len()
            && requirements::edge_of(workspace, owner, entries[j].0, entries[j].1) == Some(edge),
    ensures
        requirements::sections_edges(workspace, owner, table).contains(edge),
{
    let entries = tree::get(table, section)->0->Table_0;
    edges_of_a_table_are_listed(workspace, owner, entries, j, edge);
    let x = requirements::section_edges(workspace, owner, table, "dependencies"@);
    let y = requirements::section_edges(workspace, owner, table, "dev-dependencies"@);
    let z = requirements::section_edges(workspace, owner, table, "build-dependencies"@);
    let own = requirements::table_edges(workspace, owner, entries);
    let k = own.index_of(edge);
    let at = if section == "dependencies"@ {
        k
    } else if section == "dev-dependencies"@ {
        x.len() + k
    } else {
        x.len() + y.len() + k
    };
    assert((x + y + z)[at] == edge);
}

/// Every internal dependency of a manifest is among its edges: in its dependencies, its
/// development and its build dependencies.
pub proof fn every_section_is_read(
    workspace: Workspace,
    manifest: Tree,
    section: Seq<char>,
    j: int,
    edge: EdgeView,
)
    requires
        a_section(section),
        tree::get(manifest, section) matches Some(Tree::Table(entries, _)) && 0 <= j
            < entries.len() && requirements::edge_of(
            workspace,
            requirements::owner_of(workspace.crates, manifest),
            entries[j].0,
            entries[j].1,
        ) == Some(edge),
    ensures
        requirements::manifest_edges(workspace, manifest).contains(edge),
{
    let owner = requirements::owner_of(workspace.crates, manifest);
    edges_of_a_section_are_listed(workspace, owner, manifest, section, j, edge);
    let x = requirements::sections_edges(workspace, owner, manifest);
    let k = x.index_of(edge);
    assert(requirements::manifest_edges(workspace, manifest)[k] == edge);
}

/// Every internal dependency of a target of a manifest is among its edges.
pub proof fn every_target_is_read(
    workspace: Workspace,
    manifest: Tree,
    targets: Seq<(Seq<char>, Tree, Form)>,
    form: Form,
    t: int,
    section: Seq<char>,
    j: int,
    edge: EdgeView,
)
    requires
        tree::get(manifest, "target"@) == Some(Tree::Table(targets, form)),
        0 <= t < targets.len(),
        a_section(section),
        tree::get(targets[t].1, section) matches Some(Tree::Table(entries, _)) && 0 <= j
            < entries.len() && requirements::edge_of(
            workspace,
            requirements::owner_of(workspace.crates, manifest),
            entries[j].0,
            entries[j].1,
        ) == Some(edge),
    ensures
        requirements::manifest_edges(workspace, manifest).contains(edge),
{
    let owner = requirements::owner_of(workspace.crates, manifest);
    edges_of_a_section_are_listed(workspace, owner, targets[t].1, section, j, edge);
    edges_of_targets_are_listed(workspace, owner, targets, t, edge);
    let x = requirements::sections_edges(workspace, owner, manifest);
    let y = requirements::targets_edges(workspace, owner, targets);
    let k = y.index_of(edge);
    assert(requirements::manifest_edges(workspace, manifest)[x.len() + k] == edge);
}

proof fn edges_of_targets_are_listed(
    workspace: Workspace,
    owner: DependencyOwner,
    targets: Seq<(Seq<char>, Tree, Form)>,
    t: int,
    edge: EdgeView,
)
    requires
        0 <= t < targets.len(),
        requirements::sections_edges(workspace, owner, targets[t].1).contains(edge),
    ensures
        requirements::targets_edges(workspace, owner, targets).contains(edge),
    decreases targets.len(),
{
    let first = requirements::sections_edges(workspace, owner, targets.first().1);
    let rest = requirements::targets_edges(workspace, owner, targets.drop_first());
    if t == 0 {
        let k = first.index_of(edge);
        assert((first + rest)[k] == edge);
    } else {
        assert(targets.drop_first()[t - 1] == targets[t]);
        edges_of_targets_are_listed(workspace, owner, targets.drop_first(), t - 1, edge);
        let k = rest.index_of(edge);
        assert((first + rest)[first.len() + k] == edge);
    }
}

/// Every internal dependency that the workspace states for its members is among the edges of
/// its manifest, with the workspace as its owner.
pub proof fn the_workspace_is_read(
    workspace: Workspace,
    manifest: Tree,
    table: Tree,
    j: int,
    edge: EdgeView,
)
    requires
        tree::get(manifest, "workspace"@) == Some(table),
        tree::get(table, "dependencies"@) matches Some(Tree::Table(entries, _)) && 0 <= j
            < entries.len() && requirements::edge_of(
            workspace,
            DependencyOwner::Workspace,
            entries[j].0,
            entries[j].1,
        ) == Some(edge),
    ensures
        requirements::manifest_edges(workspace, manifest).contains(edge),
{
    let owner = requirements::owner_of(workspace.crates, manifest);
    let entries = tree::get(table, "dependencies"@)->0->Table_0;
    edges_of_a_table_are_listed(workspace, DependencyOwner::Workspace, entries, j, edge);
    let x = requirements::sections_edges(workspace, owner, manifest);
    let y = requirements::targets_edges(
        workspace,
        owner,
        tree::entries_in(tree::get(manifest, "target"@)),
    );
    let z = requirements::table_edges(workspace, DependencyOwner::Workspace, entries);
    let k = z.index_of(edge);
    assert(requirements::manifest_edges(workspace, manifest)[x.len() + y.len() + k] == edge);
}

/// The edges of a manifest are those of its three sections, then those of its targets, then
/// those of the workspace.
pub proof fn edges_come_section_by_section(workspace: Workspace, manifest: Tree)
    ensures
        ({
            let owner = requirements::owner_of(workspace.crates, manifest);
            let of = |section: Seq<char>|
                requirements::table_edges(
                    workspace,
                    owner,
                    tree::entries_in(tree::get(manifest, section)),
                );
            requirements::manifest_edges(workspace, manifest) == of("dependencies"@) + of(
                "dev-dependencies"@,
            ) + of("build-dependencies"@) + requirements::targets_edges(
                workspace,
                owner,
                tree::entries_in(tree::get(manifest, "target"@)),
            ) + (match tree::get(manifest, "workspace"@) {
                Some(table) => requirements::table_edges(
                    workspace,
                    DependencyOwner::Workspace,
                    tree::entries_in(tree::get(table, "dependencies"@)),
                ),
                None => Seq::<EdgeView>::empty(),
            })
        }),
{
}

/// A prepared manifest has as its edges those that its document states.
pub proof fn prepared_manifests_list_their_edges(
    manifest_path: &str,
    shown_path: &str,
    original: &str,
    crates: &Vec<CrateInfo>,
    plans: &Vec<CrateReleasePlan>,
    manifest: Tree,
    result: Result<ManifestRewrite, ReleaseError>,
)
    requires
        call_ensures(
            ManifestRewrite::prepare,
            (manifest_path, shown_path, original, crates, plans),
            result,
        ),
        document::toml_edit_parse(original@) == Ok::<Tree, Seq<char>>(manifest),
    ensures
        result matches Ok(prepared) && {
            &&& prepared.manifest_path@ == manifest_path@
            &&& prepared.original@ == original@
            &&& document::document_tree(prepared.document) == manifest
            &&& prepared.edges@.len() == requirements::manifest_edges(
                Workspace { crates: crates@, plans: plans@ },
                manifest,
            ).len()
            &&& forall|k: int|
                0 <= k < prepared.edges@.len() ==> (#[trigger] prepared.edges@[k])@
                    == requirements::manifest_edges(
                    Workspace { crates: crates@, plans: plans@ },
                    manifest,
                )[k]
        },
{
    if let Ok(prepared) = result {
        let edges = requirements::edges_of(prepared.edges@);
        assert(edges.len() == prepared.edges@.len());
        assert forall|k: int| 0 <= k < prepared.edges@.len() implies (
        #[trigger] prepared.edges@[k])@ == requirements::manifest_edges(
            Workspace { crates: crates@, plans: plans@ },
            manifest,
        )[k] by {
            assert(edges[k] == prepared.edges@[k]@);
        }
    }
}

/// The policy that strips asks for no requirement of any edge; the one that updates never
/// asks for none; and by default none is asked for between private crates and where none is
/// stated, and nowhere else without a look at the present one.
pub proof fn policies_ask_as_they_are_named(
    policy: InternalDependencyPolicy,
    edge: &DependencyEdge,
    none: bool,
)
    requires
        call_ensures(requirements::policy_asks_for_none, (policy, edge), none),
    ensures
        policy == InternalDependencyPolicy::Strip ==> none,
        policy == InternalDependencyPolicy::Update ==> !none,
        policy == InternalDependencyPolicy::Auto && edge.current_requirement is None ==> none,
        policy == InternalDependencyPolicy::Auto && edge.dependency_publication
            == Publication::Private && (edge.owner matches DependencyOwner::Member { publication }
            && publication == Publication::Private) ==> none,
        policy == InternalDependencyPolicy::Auto && edge.current_requirement is Some && (
        edge.dependency_publication == Publication::Publishable || !(edge.owner is Member)
            || edge.owner == (DependencyOwner::Member { publication: Publication::Publishable }))
            ==> !none,
{
}

/// Exactly the three policies have names.
pub proof fn policies_are_named(name: &str, result: Option<InternalDependencyPolicy>)
    requires
        call_ensures(requirements::policy_named, (name,), result),
    ensures
        result == Some(InternalDependencyPolicy::Auto) <==> name@ == "auto"@,
        result == Some(InternalDependencyPolicy::Strip) <==> name@ == "strip"@,
        result == Some(InternalDependencyPolicy::Update) <==> name@ == "update"@,
{
    reveal_strlit("auto");
    reveal_strlit("strip");
    reveal_strlit("update");
    assert("auto"@.len() == 4);
    assert("strip"@.len() == 5);
    assert("update"@.len() == 6);
}

/// The targets of a manifest are read in turn, each with its three sections in turn.
pub proof fn targets_are_read_in_turn(
    workspace: Workspace,
    owner: DependencyOwner,
    a: Seq<(Seq<char>, Tree, Form)>,
    target: (Seq<char>, Tree, Form),
    b: Seq<(Seq<char>, Tree, Form)>,
)
    ensures
        ({
            let of = |section: Seq<char>|
                requirements::table_edges(
                    workspace,
                    owner,
                    tree::entries_in(tree::get(target.1, section)),
                );
            requirements::targets_edges(workspace, owner, a + seq![target] + b)
                == requirements::targets_edges(workspace, owner, a) + (of("dependencies"@) + of(
                "dev-dependencies"@,
            ) + of("build-dependencies"@)) + requirements::targets_edges(workspace, owner, b)
        }),
        requirements::targets_edges(workspace, owner, Seq::empty()).len() == 0,
    decreases a.len(),
{
    let all = a + seq![target] + b;
    let own = requirements::sections_edges(workspace, owner, target.1);
    let behind = requirements::targets_edges(workspace, owner, b);
    if a.len() == 0 {
        assert(all.first() == target);
        assert(all.drop_first() =~= b);
        assert(requirements::targets_edges(workspace, owner, a) + own + behind =~= own + behind);
    } else {
        let rest = a.drop_first();
        targets_are_read_in_turn(workspace, owner, rest, target, b);
        assert(all.first() == a.first());
        assert(all.drop_first() =~= rest + seq![target] + b);
        let first = requirements::sections_edges(workspace, owner, a.first().1);
        let before = requirements::targets_edges(workspace, owner, rest);
        assert(first + (before + own + behind) =~= (first + before) + own + behind);
    }
}

/// The dependencies of a manifest without a package of a name belong to no crate.
pub proof fn without_a_package_the_owner_is_unknown(
    crates: &Vec<CrateInfo>,
    manifest: &TomlValue,
    owner: DependencyOwner,
)
    requires
        call_ensures(requirements::dependency_owner, (crates, manifest), owner),
        match tree::get(manifest@, "package"@) {
            Some(package) => tree::text_in(tree::get(package, "name"@)) is None,
            None => true,
        },
    ensures
        owner == DependencyOwner::UnknownMember,
{
}

/// A dependency with a path is on that path, also where it names the workspace; without a
/// path it is one of the workspace exactly where it says so with a true flag.
pub proof fn paths_come_before_the_workspace(
    dependency: &TomlValue,
    result: Option<DependencySource>,
)
    requires
        call_ensures(requirements::dependency_source, (dependency,), result),
    ensures
        result == Some(DependencySource::Path) <==> tree::get(dependency@, "path"@) is Some,
        result == Some(DependencySource::Workspace) <==> tree::get(dependency@, "path"@) is None
            && tree::flag_in(tree::get(dependency@, "workspace"@)) == Some(true),
{
}

/// A crate may be published exactly where it is not private.
pub proof fn private_crates_are_not_published(info: &CrateInfo, result: Publication)
    requires
        call_ensures(requirements::publication, (info,), result),
    ensures
        result == Publication::Private <==> info.private,
        result == Publication::Publishable <==> !info.private,
{
}

} // verus!
