//! The version requirements that crates of a workspace have on each other.

use crate::plan;
use crate::plan::{CrateInfo, CrateReleasePlan};
use crate::text;
use crate::tree;
use crate::tree::{Form, TomlValue, Tree};
use crate::version::{Version, VersionView};
use vstd::prelude::*;

verus! {

/// Whether a crate may be published.
#[derive(Debug, Clone, Copy, PartialEq, Eq, Structural)]
pub enum Publication {
    Private,
    Publishable,
}

/// How a dependency names the crate it is on.
#[derive(Debug, Clone, Copy, PartialEq, Eq, Structural)]
pub enum DependencySource {
    Path,
    Workspace,
}

/// Who states a dependency: a crate of the workspace, a manifest that belongs to none,
/// or the table of the workspace.
#[derive(Debug, Clone, Copy, PartialEq, Eq, Structural)]
pub enum DependencyOwner {
    Member { publication: Publication },
    UnknownMember,
    Workspace,
}

/// How the requirements of crates of the workspace on each other are kept.
#[derive(Debug, Clone, Copy, PartialEq, Eq, Structural)]
pub enum InternalDependencyPolicy {
    /// None between private crates, and those that are stated elsewhere brought up to date.
    Auto,
    /// None at all.
    Strip,
    /// All stated and up to date.
    Update,
}

/// A dependency on a crate of the workspace: where it stands, the requirement it states
/// and the version that the crate is to have.
#[derive(Debug)]
pub struct DependencyEdge {
    pub dependency_key: String,
    pub dependency_name: String,
    pub owner: DependencyOwner,
    pub source: DependencySource,
    pub dependency_publication: Publication,
    pub all_members_private: bool,
    pub current_requirement: Option<String>,
    pub desired_version: Version,
}

/// A dependency on a crate of the workspace, in specifications.
pub struct EdgeView {
    pub key: Seq<char>,
    pub name: Seq<char>,
    pub owner: DependencyOwner,
    pub source: DependencySource,
    pub publication: Publication,
    pub all_private: bool,
    pub current: Option<Seq<char>>,
    pub desired: VersionView,
}

impl View for DependencyEdge {
    type V = EdgeView;

    open spec fn view(&self) -> EdgeView {
        EdgeView {
            key: self.dependency_key@,
            name: self.dependency_name@,
            owner: self.owner,
            source: self.source,
            publication: self.dependency_publication,
            all_private: self.all_members_private,
            current: text::maybe_text(self.current_requirement),
            desired: self.desired_version@,
        }
    }
}

/// The crates of a workspace and the plans for them.
pub struct Workspace {
    pub crates: Seq<CrateInfo>,
    pub plans: Seq<CrateReleasePlan>,
}

/// A list of edges in specifications.
pub open spec fn edges_of(edges: Seq<DependencyEdge>) -> Seq<EdgeView> {
    edges.map_values(|edge: DependencyEdge| edge@)
}

/// A list of requirements in specifications.
pub open spec fn requirements_of(list: Seq<Option<String>>) -> Seq<Option<Seq<char>>> {
    list.map_values(|requirement: Option<String>| text::maybe_text(requirement))
}

/// Whether a crate may be published.
pub open spec fn publication_of(private: bool) -> Publication {
    if private {
        Publication::Private
    } else {
        Publication::Publishable
    }
}

/// The name of the crate that a dependency is on: its `package`, or its key.
pub open spec fn name_of(key: Seq<char>, dependency: Tree) -> Seq<char> {
    match tree::text_in(tree::get(dependency, "package"@)) {
        Some(name) => name,
        None => key,
    }
}

/// A dependency with a `path` is a path dependency, and one with `workspace = true` one
/// of the workspace; any other comes from elsewhere.
pub open spec fn source_of(dependency: Tree) -> Option<DependencySource> {
    if tree::get(dependency, "path"@) is Some {
        Some(DependencySource::Path)
    } else if tree::flag_in(tree::get(dependency, "workspace"@)) == Some(true) {
        Some(DependencySource::Workspace)
    } else {
        None
    }
}

/// The edge that a dependency states, where it is a table that names a crate of the
/// workspace by its path or through the workspace.
pub open spec fn edge_of(
    workspace: Workspace,
    owner: DependencyOwner,
    key: Seq<char>,
    dependency: Tree,
) -> Option<EdgeView> {
    let name = name_of(key, dependency);
    match (dependency, plan::crate_named(workspace.crates, name), source_of(dependency)) {
        (Tree::Table(_, _), Some(i), Some(source)) => Some(
            EdgeView {
                key,
                name,
                owner,
                source,
                publication: publication_of(workspace.crates[i].private),
                all_private: plan::all_private(workspace.crates),
                current: tree::text_in(tree::get(dependency, "version"@)),
                desired: plan::desired_version(workspace.crates, workspace.plans, name)->0,
            },
        ),
        _ => None,
    }
}

/// The edges that a table of dependencies states.
pub open spec fn table_edges(
    workspace: Workspace,
    owner: DependencyOwner,
    entries: Seq<(Seq<char>, Tree, Form)>,
) -> Seq<EdgeView>
    decreases entries.len(),
{
    if entries.len() == 0 {
        Seq::empty()
    } else {
        let rest = table_edges(workspace, owner, entries.drop_first());
        match edge_of(workspace, owner, entries.first().0, entries.first().1) {
            Some(edge) => seq![edge] + rest,
            None => rest,
        }
    }
}

/// The edges that the table under a key states.
pub open spec fn section_edges(
    workspace: Workspace,
    owner: DependencyOwner,
    table: Tree,
    section: Seq<char>,
) -> Seq<EdgeView> {
    table_edges(workspace, owner, tree::entries_in(tree::get(table, section)))
}

/// The edges of the dependencies, the development and the build dependencies.
pub open spec fn sections_edges(
    workspace: Workspace,
    owner: DependencyOwner,
    table: Tree,
) -> Seq<EdgeView> {
    section_edges(workspace, owner, table, "dependencies"@) + section_edges(
        workspace,
        owner,
        table,
        "dev-dependencies"@,
    ) + section_edges(workspace, owner, table, "build-dependencies"@)
}

/// The edges of the dependencies of all targets.
pub open spec fn targets_edges(
    workspace: Workspace,
    owner: DependencyOwner,
    targets: Seq<(Seq<char>, Tree, Form)>,
) -> Seq<EdgeView>
    decreases targets.len(),
{
    if targets.len() == 0 {
        Seq::empty()
    } else {
        sections_edges(workspace, owner, targets.first().1) + targets_edges(
            workspace,
            owner,
            targets.drop_first(),
        )
    }
}

/// The edges of the dependencies that the workspace states for its members.
pub open spec fn workspace_edges(workspace: Workspace, manifest: Tree) -> Seq<EdgeView> {
    match tree::get(manifest, "workspace"@) {
        Some(table) => section_edges(
            workspace,
            DependencyOwner::Workspace,
            table,
            "dependencies"@,
        ),
        None => Seq::empty(),
    }
}

/// The name of the package of a manifest.
pub open spec fn package_name(manifest: Tree) -> Option<Seq<char>> {
    match tree::get(manifest, "package"@) {
        Some(package) => tree::text_in(tree::get(package, "name"@)),
        None => None,
    }
}

/// Who states the dependencies of a manifest.
pub open spec fn owner_of(crates: Seq<CrateInfo>, manifest: Tree) -> DependencyOwner {
    match package_name(manifest) {
        Some(name) => match plan::crate_named(crates, name) {
            Some(i) => DependencyOwner::Member {
                publication: publication_of(crates[i].private),
            },
            None => DependencyOwner::UnknownMember,
        },
        None => DependencyOwner::UnknownMember,
    }
}

/// The edges that a manifest states, in the order in which they are visited: its
/// dependency sections, those of its targets, and those of the workspace.
pub open spec fn manifest_edges(workspace: Workspace, manifest: Tree) -> Seq<EdgeView> {
    let owner = owner_of(workspace.crates, manifest);
    sections_edges(workspace, owner, manifest) + targets_edges(
        workspace,
        owner,
        tree::entries_in(tree::get(manifest, "target"@)),
    ) + workspace_edges(workspace, manifest)
}

/// A dependency with its requirement replaced; one that states the requirement already
/// stays as it is.
pub open spec fn with_requirement(dependency: Tree, requirement: Option<Seq<char>>) -> Tree {
    match dependency {
        Tree::Table(entries, form) => if tree::text_in(tree::get(dependency, "version"@))
            == requirement {
            dependency
        } else {
            match requirement {
                Some(content) => Tree::Table(
                    tree::put(entries, "version"@, Tree::Text(content, Form::Plain)),
                    form,
                ),
                None => Tree::Table(tree::without(entries, "version"@), form),
            }
        },
        _ => dependency,
    }
}

/// A table of dependencies with the requirement of each of its edges replaced by the
/// one at its place in the list.
pub open spec fn rewritten_entries(
    workspace: Workspace,
    owner: DependencyOwner,
    entries: Seq<(Seq<char>, Tree, Form)>,
    next: Seq<Option<Seq<char>>>,
) -> Seq<(Seq<char>, Tree, Form)>
    decreases entries.len(),
{
    if entries.len() == 0 {
        Seq::empty()
    } else {
        let (key, dependency, form) = entries.first();
        let rest = entries.drop_first();
        if edge_of(workspace, owner, key, dependency) is Some {
            seq![(key, with_requirement(dependency, next.first()), form)] + rewritten_entries(
                workspace,
                owner,
                rest,
                next.drop_first(),
            )
        } else {
            seq![(key, dependency, form)] + rewritten_entries(workspace, owner, rest, next)
        }
    }
}

/// A value that is a table of dependencies, rewritten; any other as it is.
pub open spec fn rewritten_table(
    workspace: Workspace,
    owner: DependencyOwner,
    table: Tree,
    next: Seq<Option<Seq<char>>>,
) -> Tree {
    match table {
        Tree::Table(entries, form) => Tree::Table(
            rewritten_entries(workspace, owner, entries, next),
            form,
        ),
        _ => table,
    }
}

/// A table with the dependencies under one of its keys rewritten.
pub open spec fn rewritten_section(
    workspace: Workspace,
    owner: DependencyOwner,
    table: Tree,
    section: Seq<char>,
    next: Seq<Option<Seq<char>>>,
) -> Tree {
    match tree::get(table, section) {
        Some(child) => tree::with_child(
            table,
            section,
            rewritten_table(workspace, owner, child, next),
        ),
        None => table,
    }
}

/// A table with its dependencies, development and build dependencies rewritten.
pub open spec fn rewritten_sections(
    workspace: Workspace,
    owner: DependencyOwner,
    table: Tree,
    next: Seq<Option<Seq<char>>>,
) -> Tree {
    let a = section_edges(workspace, owner, table, "dependencies"@).len() as int;
    let b = section_edges(workspace, owner, table, "dev-dependencies"@).len() as int;
    let first = rewritten_section(workspace, owner, table, "dependencies"@, next);
    let second = rewritten_section(
        workspace,
        owner,
        first,
        "dev-dependencies"@,
        next.skip(a),
    );
    rewritten_section(workspace, owner, second, "build-dependencies"@, next.skip(a + b))
}

/// The targets with their dependencies rewritten.
pub open spec fn rewritten_targets(
    workspace: Workspace,
    owner: DependencyOwner,
    targets: Seq<(Seq<char>, Tree, Form)>,
    next: Seq<Option<Seq<char>>>,
) -> Seq<(Seq<char>, Tree, Form)>
    decreases targets.len(),
{
    if targets.len() == 0 {
        Seq::empty()
    } else {
        let (key, target, form) = targets.first();
        let n = sections_edges(workspace, owner, target).len() as int;
        seq![(key, rewritten_sections(workspace, owner, target, next), form)] + rewritten_targets(
            workspace,
            owner,
            targets.drop_first(),
            next.skip(n),
        )
    }
}

/// A manifest with the dependencies of its targets rewritten.
pub open spec fn with_targets(
    workspace: Workspace,
    owner: DependencyOwner,
    manifest: Tree,
    next: Seq<Option<Seq<char>>>,
) -> Tree {
    match tree::get(manifest, "target"@) {
        Some(Tree::Table(targets, form)) => tree::with_child(
            manifest,
            "target"@,
            Tree::Table(rewritten_targets(workspace, owner, targets, next), form),
        ),
        _ => manifest,
    }
}

/// A manifest with the requirement of each of its edges replaced by the one at its
/// place in the list.
pub open spec fn rewritten_manifest(
    workspace: Workspace,
    manifest: Tree,
    next: Seq<Option<Seq<char>>>,
) -> Tree {
    let owner = owner_of(workspace.crates, manifest);
    let a = sections_edges(workspace, owner, manifest).len() as int;
    let targets = tree::entries_in(tree::get(manifest, "target"@));
    let b = targets_edges(workspace, owner, targets).len() as int;
    let first = rewritten_sections(workspace, owner, manifest, next);
    let second = with_targets(workspace, owner, first, next.skip(a));
    match tree::get(second, "workspace"@) {
        Some(table) => tree::with_child(
            second,
            "workspace"@,
            rewritten_section(
                workspace,
                DependencyOwner::Workspace,
                table,
                "dependencies"@,
                next.skip(a + b),
            ),
        ),
        None => second,
    }
}

/// The edges as they stand where each states the requirement at its place in the list.
pub open spec fn settled(edges: Seq<EdgeView>, next: Seq<Option<Seq<char>>>) -> Seq<EdgeView> {
    Seq::new(edges.len(), |i: int| EdgeView { current: next[i], ..edges[i] })
}

/// The policy asks for no requirement, whatever the present one is like: always where it
/// strips, and by default between private crates and where none is stated.
pub open spec fn asks_for_none(policy: InternalDependencyPolicy, edge: EdgeView) -> bool {
    match policy {
        InternalDependencyPolicy::Auto => edge.current is None || (edge.publication
            == Publication::Private && edge.owner == DependencyOwner::Member {
            publication: Publication::Private,
        }),
        InternalDependencyPolicy::Strip => true,
        InternalDependencyPolicy::Update => false,
    }
}

/// The policy of a name.
pub fn policy_named(name: &str) -> (result: Option<InternalDependencyPolicy>)
    ensures
        name@ == "auto"@ ==> result == Some(InternalDependencyPolicy::Auto),
        name@ == "strip"@ ==> result == Some(InternalDependencyPolicy::Strip),
        name@ == "update"@ ==> result == Some(InternalDependencyPolicy::Update),
        name@ != "auto"@ && name@ != "strip"@ && name@ != "update"@ ==> result is None,
{
    proof {
        reveal_strlit("auto");
        reveal_strlit("strip");
        reveal_strlit("update");
        assert("auto"@.len() == 4);
        assert("strip"@.len() == 5);
        assert("update"@.len() == 6);
    }
    if text::same_text(name, "auto") {
        Some(InternalDependencyPolicy::Auto)
    } else if text::same_text(name, "strip") {
        Some(InternalDependencyPolicy::Strip)
    } else if text::same_text(name, "update") {
        Some(InternalDependencyPolicy::Update)
    } else {
        None
    }
}

/// Whether the policy asks for no requirement, whatever the present one is like.
pub fn policy_asks_for_none(policy: InternalDependencyPolicy, edge: &DependencyEdge) -> (b: bool)
    ensures
        b == asks_for_none(policy, edge@),
{
    match policy {
        InternalDependencyPolicy::Auto => edge.current_requirement.is_none() || (
        edge.dependency_publication == Publication::Private && edge.owner
            == DependencyOwner::Member { publication: Publication::Private }),
        InternalDependencyPolicy::Strip => true,
        InternalDependencyPolicy::Update => false,
    }
}

/// Whether a crate may be published.
pub fn publication(crate_info: &CrateInfo) -> (result: Publication)
    ensures
        result == publication_of(crate_info.private),
{
    if crate_info.private {
        Publication::Private
    } else {
        Publication::Publishable
    }
}

/// How a dependency names the crate it is on.
pub fn dependency_source(dependency: &TomlValue) -> (result: Option<DependencySource>)
    ensures
        result == source_of(dependency@),
{
    if dependency.get("path").is_some() {
        Some(DependencySource::Path)
    } else {
        match dependency.flag_at("workspace") {
            Some(true) => Some(DependencySource::Workspace),
            _ => None,
        }
    }
}

/// The edge that a dependency states.
pub fn dependency_edge(
    crates: &Vec<CrateInfo>,
    plans: &Vec<CrateReleasePlan>,
    owner: DependencyOwner,
    key: &str,
    dependency: &TomlValue,
) -> (result: Option<DependencyEdge>)
    ensures
        match result {
            Some(edge) => edge_of(
                Workspace { crates: crates@, plans: plans@ },
                owner,
                key@,
                dependency@,
            ) == Some(edge@),
            None => edge_of(
                Workspace { crates: crates@, plans: plans@ },
                owner,
                key@,
                dependency@,
            ) is None,
        },
{
    match dependency {
        TomlValue::Table(_) => {},
        _ => {
            return None;
        },
    }
    let name = match dependency.text_at("package") {
        Some(name) => name,
        None => key.to_owned(),
    };
    let index: usize = match plan::find_crate(crates, name.as_str()) {
        Some(index) => index,
        None => {
            return None;
        },
    };
    let source = match dependency_source(dependency) {
        Some(source) => source,
        None => {
            return None;
        },
    };
    match plan::version_wanted(crates, plans, name.as_str()) {
        Some(desired_version) => Some(
            DependencyEdge {
                dependency_key: key.to_owned(),
                dependency_name: name,
                owner,
                source,
                dependency_publication: publication(&crates[index]),
                all_members_private: plan::all_members_private(crates),
                current_requirement: dependency.text_at("version"),
                desired_version,
            },
        ),
        None => None,
    }
}

/// The edges that a table of dependencies states.
pub fn collect_table_edges(
    crates: &Vec<CrateInfo>,
    plans: &Vec<CrateReleasePlan>,
    owner: DependencyOwner,
    table: Option<&TomlValue>,
    edges: &mut Vec<DependencyEdge>,
)
    ensures
        edges_of(final(edges)@) == edges_of(old(edges)@) + table_edges(
            Workspace { crates: crates@, plans: plans@ },
            owner,
            tree::entries_in(
                match table {
                    Some(value) => Some(value@),
                    None => None,
                },
            ),
        ),
{
    let ghost workspace = Workspace { crates: crates@, plans: plans@ };
    let ghost before = edges_of(edges@);
    match table {
        Some(TomlValue::Table(entries)) => {
            let ghost all = tree::entries_of(entries@);
            assert(table->0@->Table_0 =~= all);
            let mut i: usize = 0;
            assert(all.skip(0) =~= all);
            while i < entries.len()
                invariant
                    i <= entries.len(),
                    all == tree::entries_of(entries@),
                    workspace == (Workspace { crates: crates@, plans: plans@ }),
                    before + table_edges(workspace, owner, all) == edges_of(edges@) + table_edges(
                        workspace,
                        owner,
                        all.skip(i as int),
                    ),
                decreases entries.len() - i,
            {
                let found = dependency_edge(
                    crates,
                    plans,
                    owner,
                    entries[i].key.as_str(),
                    &entries[i].value,
                );
                proof {
                    assert(all.skip(i as int).first() == all[i as int]);
                    assert(all.skip(i as int).drop_first() =~= all.skip(i + 1));
                }
                let ghost rest = table_edges(workspace, owner, all.skip(i + 1));
                match found {
                    Some(edge) => {
                        proof {
                            assert(edges_of(edges@.push(edge)) =~= edges_of(edges@).push(edge@));
                            assert(edges_of(edges@) + (seq![edge@] + rest) =~= edges_of(
                                edges@,
                            ).push(edge@) + rest);
                        }
                        edges.push(edge);
                    },
                    None => {},
                }
                i += 1;
            }
            assert(table_edges(workspace, owner, all.skip(i as int)) =~= Seq::empty());
            assert(edges_of(edges@) + Seq::<EdgeView>::empty() =~= edges_of(edges@));
        },
        _ => {
            assert(before + Seq::<EdgeView>::empty() =~= before);
        },
    }
}

/// The edges of the dependencies, the development and the build dependencies.
pub fn collect_sections_edges(
    crates: &Vec<CrateInfo>,
    plans: &Vec<CrateReleasePlan>,
    owner: DependencyOwner,
    table: &TomlValue,
    edges: &mut Vec<DependencyEdge>,
)
    ensures
        edges_of(final(edges)@) == edges_of(old(edges)@) + sections_edges(
            Workspace { crates: crates@, plans: plans@ },
            owner,
            table@,
        ),
{
    let ghost workspace = Workspace { crates: crates@, plans: plans@ };
    let ghost before = edges_of(edges@);
    collect_table_edges(crates, plans, owner, table.get("dependencies"), edges);
    collect_table_edges(crates, plans, owner, table.get("dev-dependencies"), edges);
    collect_table_edges(crates, plans, owner, table.get("build-dependencies"), edges);
    assert(edges_of(edges@) =~= before + sections_edges(workspace, owner, table@));
}

/// Who states the dependencies of a manifest.
pub fn dependency_owner(crates: &Vec<CrateInfo>, manifest: &TomlValue) -> (result: DependencyOwner)
    ensures
        result == owner_of(crates@, manifest@),
{
    let name = match manifest.get("package") {
        Some(package) => package.text_at("name"),
        None => None,
    };
    match name {
        Some(name) => match plan::find_crate(crates, name.as_str()) {
            Some(index) => DependencyOwner::Member { publication: publication(&crates[index]) },
            None => DependencyOwner::UnknownMember,
        },
        None => DependencyOwner::UnknownMember,
    }
}

/// The edges that a manifest states, in the order in which they are visited.
pub fn collect_manifest_edges(
    crates: &Vec<CrateInfo>,
    plans: &Vec<CrateReleasePlan>,
    manifest: &TomlValue,
) -> (edges: Vec<DependencyEdge>)
    ensures
        edges_of(edges@) == manifest_edges(Workspace { crates: crates@, plans: plans@ }, manifest@),
{
    let ghost workspace = Workspace { crates: crates@, plans: plans@ };
    let owner = dependency_owner(crates, manifest);
    let mut edges: Vec<DependencyEdge> = Vec::new();
    assert(edges_of(edges@) =~= Seq::empty());
    collect_sections_edges(crates, plans, owner, manifest, &mut edges);
    let ghost direct = edges_of(edges@);
    assert(direct =~= sections_edges(workspace, owner, manifest@));
    let ghost targets = tree::entries_in(tree::get(manifest@, "target"@));
    match manifest.get("target") {
        Some(TomlValue::Table(entries)) => {
            let ghost all = tree::entries_of(entries@);
            assert(targets =~= all);
            let mut i: usize = 0;
            assert(all.skip(0) =~= all);
            while i < entries.len()
                invariant
                    i <= entries.len(),
                    all == tree::entries_of(entries@),
                    workspace == (Workspace { crates: crates@, plans: plans@ }),
                    direct + targets_edges(workspace, owner, all) == edges_of(edges@)
                        + targets_edges(workspace, owner, all.skip(i as int)),
                decreases entries.len() - i,
            {
                let ghost so_far = edges_of(edges@);
                proof {
                    assert(all.skip(i as int).first() == all[i as int]);
                    assert(all.skip(i as int).drop_first() =~= all.skip(i + 1));
                }
                collect_sections_edges(crates, plans, owner, &entries[i].value, &mut edges);
                assert(so_far + (sections_edges(workspace, owner, all[i as int].1) + targets_edges(
                    workspace,
                    owner,
                    all.skip(i + 1),
                )) =~= edges_of(edges@) + targets_edges(workspace, owner, all.skip(i + 1)));
                i += 1;
            }
            assert(targets_edges(workspace, owner, all.skip(i as int)) =~= Seq::empty());
            assert(edges_of(edges@) + Seq::<EdgeView>::empty() =~= edges_of(edges@));
        },
        _ => {
            assert(direct + Seq::<EdgeView>::empty() =~= direct);
        },
    }
    let ghost so_far = edges_of(edges@);
    match manifest.get("workspace") {
        Some(table) => {
            collect_table_edges(
                crates,
                plans,
                DependencyOwner::Workspace,
                table.get("dependencies"),
                &mut edges,
            );
        },
        None => {
            assert(so_far + Seq::<EdgeView>::empty() =~= so_far);
        },
    }
    edges
}

/// A dependency states the same edge, whatever it is written like.
pub proof fn bare_edge(
    workspace: Workspace,
    owner: DependencyOwner,
    key: Seq<char>,
    dependency: Tree,
)
    ensures
        edge_of(workspace, owner, key, tree::bare(dependency)) == edge_of(
            workspace,
            owner,
            key,
            dependency,
        ),
{
    tree::bare_looked_up(dependency, "package"@);
    tree::bare_looked_up(dependency, "path"@);
    tree::bare_looked_up(dependency, "workspace"@);
    tree::bare_looked_up(dependency, "version"@);
}

proof fn bare_table_edges(
    workspace: Workspace,
    owner: DependencyOwner,
    entries: Seq<(Seq<char>, Tree, Form)>,
)
    ensures
        table_edges(workspace, owner, tree::bare_entries(entries)) == table_edges(
            workspace,
            owner,
            entries,
        ),
    decreases entries.len(),
{
    if entries.len() > 0 {
        assert(tree::bare_entries(entries).drop_first() =~= tree::bare_entries(
            entries.drop_first(),
        ));
        bare_edge(workspace, owner, entries.first().0, entries.first().1);
        bare_table_edges(workspace, owner, entries.drop_first());
    }
}

proof fn bare_section_edges(
    workspace: Workspace,
    owner: DependencyOwner,
    table: Tree,
    section: Seq<char>,
)
    ensures
        section_edges(workspace, owner, tree::bare(table), section) == section_edges(
            workspace,
            owner,
            table,
            section,
        ),
{
    tree::bare_looked_up(table, section);
    bare_table_edges(workspace, owner, tree::entries_in(tree::get(table, section)));
}

proof fn bare_sections_edges(workspace: Workspace, owner: DependencyOwner, table: Tree)
    ensures
        sections_edges(workspace, owner, tree::bare(table)) == sections_edges(
            workspace,
            owner,
            table,
        ),
{
    bare_section_edges(workspace, owner, table, "dependencies"@);
    bare_section_edges(workspace, owner, table, "dev-dependencies"@);
    bare_section_edges(workspace, owner, table, "build-dependencies"@);
}

proof fn bare_targets_edges(
    workspace: Workspace,
    owner: DependencyOwner,
    targets: Seq<(Seq<char>, Tree, Form)>,
)
    ensures
        targets_edges(workspace, owner, tree::bare_entries(targets)) == targets_edges(
            workspace,
            owner,
            targets,
        ),
    decreases targets.len(),
{
    if targets.len() > 0 {
        assert(tree::bare_entries(targets).drop_first() =~= tree::bare_entries(
            targets.drop_first(),
        ));
        bare_sections_edges(workspace, owner, targets.first().1);
        bare_targets_edges(workspace, owner, targets.drop_first());
    }
}

/// A manifest states the same edges and the same owner, whatever it is written like.
pub proof fn bare_manifest_edges(workspace: Workspace, manifest: Tree)
    ensures
        manifest_edges(workspace, tree::bare(manifest)) == manifest_edges(workspace, manifest),
        owner_of(workspace.crates, tree::bare(manifest)) == owner_of(workspace.crates, manifest),
{
    tree::bare_looked_up(manifest, "package"@);
    if let Some(package) = tree::get(manifest, "package"@) {
        tree::bare_looked_up(package, "name"@);
    }
    let owner = owner_of(workspace.crates, manifest);
    bare_sections_edges(workspace, owner, manifest);
    tree::bare_looked_up(manifest, "target"@);
    bare_targets_edges(workspace, owner, tree::entries_in(tree::get(manifest, "target"@)));
    tree::bare_looked_up(manifest, "workspace"@);
    if let Some(table) = tree::get(manifest, "workspace"@) {
        bare_section_edges(workspace, DependencyOwner::Workspace, table, "dependencies"@);
    }
}

} // verus!
