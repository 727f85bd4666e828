//! What a rewrite of the requirements of a manifest leaves behind.

use crate::plan;
use crate::plan::CrateInfo;
use crate::requirements;
use crate::requirements::{DependencyOwner, EdgeView, Workspace};
use crate::tree;
use crate::tree::{Form, Tree};
use vstd::prelude::*;

verus! {

/// The keys that the rules of a manifest look up are different keys.
pub proof fn keys_are_different()
    ensures
        "version"@ != "package"@,
        "version"@ != "path"@,
        "version"@ != "workspace"@,
        "dependencies"@ != "dev-dependencies"@,
        "dependencies"@ != "build-dependencies"@,
        "dev-dependencies"@ != "build-dependencies"@,
        "dependencies"@ != "target"@,
        "dependencies"@ != "workspace"@,
        "dependencies"@ != "package"@,
        "dev-dependencies"@ != "target"@,
        "dev-dependencies"@ != "workspace"@,
        "dev-dependencies"@ != "package"@,
        "build-dependencies"@ != "target"@,
        "build-dependencies"@ != "workspace"@,
        "build-dependencies"@ != "package"@,
        "target"@ != "workspace"@,
        "target"@ != "package"@,
        "workspace"@ != "package"@,
{
    reveal_strlit("version");
    reveal_strlit("package");
    reveal_strlit("path");
    reveal_strlit("workspace");
    reveal_strlit("dependencies");
    reveal_strlit("dev-dependencies");
    reveal_strlit("build-dependencies");
    reveal_strlit("target");
    assert("version"@[0] == 'v');
    assert("package"@[0] == 'p');
    assert("dependencies"@.len() == 12);
    assert("dev-dependencies"@.len() == 16);
    assert("build-dependencies"@.len() == 18);
    assert("target"@.len() == 6);
    assert("workspace"@.len() == 9);
}

/// A dependency with a new requirement is the same edge but for the requirement, and its
/// other keys are as they were, forms included.
pub proof fn requirement_settles(
    workspace: Workspace,
    owner: DependencyOwner,
    key: Seq<char>,
    dependency: Tree,
    next: Option<Seq<char>>,
)
    requires
        tree::well_formed(dependency),
        requirements::edge_of(workspace, owner, key, dependency) is Some,
    ensures
        requirements::edge_of(
            workspace,
            owner,
            key,
            requirements::with_requirement(dependency, next),
        ) == Some(
            EdgeView {
                current: next,
                ..requirements::edge_of(workspace, owner, key, dependency)->0
            },
        ),
        tree::well_formed(requirements::with_requirement(dependency, next)),
        forall|other: Seq<char>|
            other != "version"@ ==> #[trigger] tree::get(
                requirements::with_requirement(dependency, next),
                other,
            ) == tree::get(dependency, other),
{
    keys_are_different();
    let entries = dependency->Table_0;
    match next {
        Some(content) => {
            tree::put_looked_up(entries, "version"@, Tree::Text(content, Form::Plain));
        },
        None => {
            tree::without_looked_up(entries, "version"@);
        },
    }
}

/// Rewriting a table of dependencies changes nothing but requirements of edges: the keys
/// stay where they are and as they are written, what is not an edge stays as it is, and of
/// an edge every key but `version` does.
pub proof fn rewriting_changes_only_requirements(
    workspace: Workspace,
    owner: DependencyOwner,
    entries: Seq<(Seq<char>, Tree, Form)>,
    next: Seq<Option<Seq<char>>>,
)
    requires
        forall|i: int|
            #![trigger entries[i]]
            0 <= i < entries.len() ==> tree::well_formed(entries[i].1),
    ensures
        ({
            let after = requirements::rewritten_entries(workspace, owner, entries, next);
            &&& after.len() == entries.len()
            &&& forall|i: int|
                #![trigger after[i]]
                0 <= i < after.len() ==> {
                    &&& after[i].0 == entries[i].0
                    &&& after[i].2 == entries[i].2
                    &&& requirements::edge_of(workspace, owner, entries[i].0, entries[i].1) is None
                        ==> after[i] == entries[i]
                }
            &&& forall|i: int, other: Seq<char>|
                0 <= i < after.len() && other != "version"@ ==> #[trigger] tree::get(
                    after[i].1,
                    other,
                ) == tree::get(entries[i].1, other)
        }),
    decreases entries.len(),
{
    if entries.len() > 0 {
        let (key, dependency, _) = entries.first();
        let rest = entries.drop_first();
        assert(tree::well_formed(entries[0].1));
        assert forall|i: int| #![trigger rest[i]] 0 <= i < rest.len() implies tree::well_formed(
            rest[i].1,
        ) by {
            assert(rest[i] == entries[i + 1]);
        }
        let is_edge = requirements::edge_of(workspace, owner, key, dependency) is Some;
        let left = if is_edge {
            next.drop_first()
        } else {
            next
        };
        if is_edge {
            requirement_settles(workspace, owner, key, dependency, next.first());
        }
        rewriting_changes_only_requirements(workspace, owner, rest, left);
        let after = requirements::rewritten_entries(workspace, owner, entries, next);
        let rest_after = requirements::rewritten_entries(workspace, owner, rest, left);
        assert(after.drop_first() =~= rest_after);
        assert forall|i: int| #![trigger after[i]] 0 <= i < after.len() implies after[i].0
            == entries[i].0 && after[i].2 == entries[i].2 && (requirements::edge_of(
            workspace,
            owner,
            entries[i].0,
            entries[i].1,
        ) is None ==> after[i] == entries[i]) by {
            if i > 0 {
                assert(after[i] == rest_after[i - 1]);
                assert(entries[i] == rest[i - 1]);
            }
        }
        assert forall|i: int, other: Seq<char>|
            0 <= i < after.len() && other != "version"@ implies #[trigger] tree::get(
            after[i].1,
            other,
        ) == tree::get(entries[i].1, other) by {
            if i > 0 {
                assert(after[i] == rest_after[i - 1]);
                assert(entries[i] == rest[i - 1]);
                assert(tree::get(rest_after[i - 1].1, other) == tree::get(rest[i - 1].1, other));
            }
        }
    }
}

proof fn settled_joins(a: Seq<EdgeView>, b: Seq<EdgeView>, next: Seq<Option<Seq<char>>>)
    requires
        a.len() + b.len() <= next.len(),
    ensures
        requirements::settled(a + b, next) == requirements::settled(a, next)
            + requirements::settled(b, next.skip(a.len() as int)),
{
    assert(requirements::settled(a + b, next) =~= requirements::settled(a, next)
        + requirements::settled(b, next.skip(a.len() as int)));
}

proof fn entries_settle(
    workspace: Workspace,
    owner: DependencyOwner,
    entries: Seq<(Seq<char>, Tree, Form)>,
    next: Seq<Option<Seq<char>>>,
)
    requires
        forall|i: int|
            #![trigger entries[i]]
            0 <= i < entries.len() ==> tree::well_formed(entries[i].1),
        requirements::table_edges(workspace, owner, entries).len() <= next.len(),
    ensures
        ({
            let after = requirements::rewritten_entries(workspace, owner, entries, next);
            &&& after.len() == entries.len()
            &&& forall|i: int|
                #![trigger after[i]]
                0 <= i < after.len() ==> after[i].0 == entries[i].0 && tree::well_formed(after[i].1)
            &&& requirements::table_edges(workspace, owner, after) == requirements::settled(
                requirements::table_edges(workspace, owner, entries),
                next,
            )
        }),
    decreases entries.len(),
{
    let after = requirements::rewritten_entries(workspace, owner, entries, next);
    let edges = requirements::table_edges(workspace, owner, entries);
    if entries.len() == 0 {
        assert(requirements::table_edges(workspace, owner, after) =~= requirements::settled(
            edges,
            next,
        ));
    } else {
        let (key, dependency, _) = entries.first();
        let rest = entries.drop_first();
        assert(tree::well_formed(entries[0].1));
        assert forall|i: int| #![trigger rest[i]] 0 <= i < rest.len() implies tree::well_formed(
            rest[i].1,
        ) by {
            assert(rest[i] == entries[i + 1]);
        }
        let rest_edges = requirements::table_edges(workspace, owner, rest);
        match requirements::edge_of(workspace, owner, key, dependency) {
            Some(edge) => {
                assert(edges == seq![edge] + rest_edges);
                let rest_after = requirements::rewritten_entries(
                    workspace,
                    owner,
                    rest,
                    next.drop_first(),
                );
                entries_settle(workspace, owner, rest, next.drop_first());
                requirement_settles(workspace, owner, key, dependency, next.first());
                assert(after.drop_first() =~= rest_after);
                assert forall|i: int| #![trigger after[i]] 0 <= i < after.len() implies after[i].0
                    == entries[i].0 && tree::well_formed(after[i].1) by {
                    if i > 0 {
                        assert(after[i] == rest_after[i - 1]);
                        assert(entries[i] == rest[i - 1]);
                    }
                }
                assert(requirements::settled(edges, next) =~= seq![
                    EdgeView { current: next.first(), ..edge },
                ] + requirements::settled(rest_edges, next.drop_first()));
            },
            None => {
                let rest_after = requirements::rewritten_entries(workspace, owner, rest, next);
                entries_settle(workspace, owner, rest, next);
                assert(after.drop_first() =~= rest_after);
                assert forall|i: int| #![trigger after[i]] 0 <= i < after.len() implies after[i].0
                    == entries[i].0 && tree::well_formed(after[i].1) by {
                    if i > 0 {
                        assert(after[i] == rest_after[i - 1]);
                        assert(entries[i] == rest[i - 1]);
                    }
                }
            },
        }
    }
}

/// A table with one section rewritten has the same edges in it but for their
/// requirements, and its other keys as they were.
pub proof fn section_settles(
    workspace: Workspace,
    owner: DependencyOwner,
    table: Tree,
    section: Seq<char>,
    next: Seq<Option<Seq<char>>>,
)
    requires
        tree::well_formed(table),
        requirements::section_edges(workspace, owner, table, section).len() <= next.len(),
    ensures
        ({
            let after = requirements::rewritten_section(workspace, owner, table, section, next);
            &&& tree::well_formed(after)
            &&& table is Table ==> after is Table
            &&& requirements::section_edges(workspace, owner, after, section)
                == requirements::settled(
                requirements::section_edges(workspace, owner, table, section),
                next,
            )
            &&& forall|other: Seq<char>|
                other != section ==> #[trigger] tree::get(after, other) == tree::get(table, other)
        }),
{
    match tree::get(table, section) {
        Some(child) => {
            let rewritten = requirements::rewritten_table(workspace, owner, child, next);
            tree::child_looked_up(table, section, rewritten);
            match child {
                Tree::Table(entries, _) => {
                    entries_settle(workspace, owner, entries, next);
                    let after = requirements::rewritten_entries(workspace, owner, entries, next);
                    assert(tree::keys_differ(after)) by {
                        assert forall|i: int, j: int|
                            #![trigger after[i], after[j]]
                            0 <= i < j < after.len() implies after[i].0 != after[j].0 by {
                            assert(entries[i].0 != entries[j].0);
                        }
                    }
                    assert(tree::well_formed(rewritten));
                },
                _ => {
                    let none = requirements::table_edges(workspace, owner, Seq::empty());
                    assert(requirements::settled(none, next) =~= none);
                },
            }
        },
        None => {
            let none = requirements::table_edges(workspace, owner, Seq::empty());
            assert(requirements::settled(none, next) =~= none);
        },
    }
}

/// A table with its dependency sections rewritten has the same edges in them but for
/// their requirements, and its other keys as they were.
pub proof fn sections_settle(
    workspace: Workspace,
    owner: DependencyOwner,
    table: Tree,
    next: Seq<Option<Seq<char>>>,
)
    requires
        tree::well_formed(table),
        requirements::sections_edges(workspace, owner, table).len() <= next.len(),
    ensures
        ({
            let after = requirements::rewritten_sections(workspace, owner, table, next);
            &&& tree::well_formed(after)
            &&& table is Table ==> after is Table
            &&& requirements::sections_edges(workspace, owner, after) == requirements::settled(
                requirements::sections_edges(workspace, owner, table),
                next,
            )
            &&& forall|other: Seq<char>|
                other != "dependencies"@ && other != "dev-dependencies"@ && other
                    != "build-dependencies"@ ==> #[trigger] tree::get(after, other) == tree::get(
                    table,
                    other,
                )
        }),
{
    keys_are_different();
    let x = requirements::section_edges(workspace, owner, table, "dependencies"@);
    let y = requirements::section_edges(workspace, owner, table, "dev-dependencies"@);
    let z = requirements::section_edges(workspace, owner, table, "build-dependencies"@);
    let a = x.len() as int;
    let b = y.len() as int;
    let first = requirements::rewritten_section(workspace, owner, table, "dependencies"@, next);
    section_settles(workspace, owner, table, "dependencies"@, next);
    let second = requirements::rewritten_section(
        workspace,
        owner,
        first,
        "dev-dependencies"@,
        next.skip(a),
    );
    assert(tree::get(first, "dev-dependencies"@) == tree::get(table, "dev-dependencies"@));
    assert(tree::get(first, "build-dependencies"@) == tree::get(table, "build-dependencies"@));
    section_settles(workspace, owner, first, "dev-dependencies"@, next.skip(a));
    let third = requirements::rewritten_section(
        workspace,
        owner,
        second,
        "build-dependencies"@,
        next.skip(a + b),
    );
    assert(tree::get(second, "build-dependencies"@) == tree::get(first, "build-dependencies"@));
    assert(tree::get(second, "dependencies"@) == tree::get(first, "dependencies"@));
    section_settles(workspace, owner, second, "build-dependencies"@, next.skip(a + b));
    assert(tree::get(third, "dependencies"@) == tree::get(second, "dependencies"@));
    assert(tree::get(third, "dev-dependencies"@) == tree::get(second, "dev-dependencies"@));
    assert((x + y).len() == a + b);
    settled_joins(x + y, z, next);
    settled_joins(x, y, next);
    assert forall|other: Seq<char>|
        other != "dependencies"@ && other != "dev-dependencies"@ && other
            != "build-dependencies"@ implies #[trigger] tree::get(third, other) == tree::get(
        table,
        other,
    ) by {
        assert(tree::get(second, other) == tree::get(first, other));
        assert(tree::get(first, other) == tree::get(table, other));
    }
}

proof fn targets_settle(
    workspace: Workspace,
    owner: DependencyOwner,
    targets: Seq<(Seq<char>, Tree, Form)>,
    next: Seq<Option<Seq<char>>>,
)
    requires
        forall|i: int|
            #![trigger targets[i]]
            0 <= i < targets.len() ==> tree::well_formed(targets[i].1),
        requirements::targets_edges(workspace, owner, targets).len() <= next.len(),
    ensures
        ({
            let after = requirements::rewritten_targets(workspace, owner, targets, next);
            &&& after.len() == targets.len()
            &&& forall|i: int|
                #![trigger after[i]]
                0 <= i < after.len() ==> after[i].0 == targets[i].0 && tree::well_formed(after[i].1)
            &&& requirements::targets_edges(workspace, owner, after) == requirements::settled(
                requirements::targets_edges(workspace, owner, targets),
                next,
            )
        }),
    decreases targets.len(),
{
    let after = requirements::rewritten_targets(workspace, owner, targets, next);
    let edges = requirements::targets_edges(workspace, owner, targets);
    if targets.len() == 0 {
        assert(requirements::targets_edges(workspace, owner, after) =~= requirements::settled(
            edges,
            next,
        ));
    } else {
        let (key, target, _) = targets.first();
        let rest = targets.drop_first();
        assert(tree::well_formed(targets[0].1));
        assert forall|i: int| #![trigger rest[i]] 0 <= i < rest.len() implies tree::well_formed(
            rest[i].1,
        ) by {
            assert(rest[i] == targets[i + 1]);
        }
        let here = requirements::sections_edges(workspace, owner, target);
        let there = requirements::targets_edges(workspace, owner, rest);
        let n = here.len() as int;
        sections_settle(workspace, owner, target, next);
        targets_settle(workspace, owner, rest, next.skip(n));
        let rest_after = requirements::rewritten_targets(workspace, owner, rest, next.skip(n));
        assert(after.drop_first() =~= rest_after);
        assert forall|i: int| #![trigger after[i]] 0 <= i < after.len() implies after[i].0
            == targets[i].0 && tree::well_formed(after[i].1) by {
            if i > 0 {
                assert(after[i] == rest_after[i - 1]);
                assert(targets[i] == rest[i - 1]);
            }
        }
        settled_joins(here, there, next);
    }
}

/// A manifest with its targets rewritten has the same edges in them but for their
/// requirements, and its other keys as they were.
pub proof fn target_replaced(
    workspace: Workspace,
    owner: DependencyOwner,
    manifest: Tree,
    next: Seq<Option<Seq<char>>>,
)
    requires
        tree::well_formed(manifest),
        requirements::targets_edges(
            workspace,
            owner,
            tree::entries_in(tree::get(manifest, "target"@)),
        ).len() <= next.len(),
    ensures
        ({
            let after = requirements::with_targets(workspace, owner, manifest, next);
            &&& tree::well_formed(after)
            &&& manifest is Table ==> after is Table
            &&& requirements::targets_edges(
                workspace,
                owner,
                tree::entries_in(tree::get(after, "target"@)),
            ) == requirements::settled(
                requirements::targets_edges(
                    workspace,
                    owner,
                    tree::entries_in(tree::get(manifest, "target"@)),
                ),
                next,
            )
            &&& forall|other: Seq<char>|
                other != "target"@ ==> #[trigger] tree::get(after, other) == tree::get(
                    manifest,
                    other,
                )
        }),
{
    match tree::get(manifest, "target"@) {
        Some(Tree::Table(entries, form)) => {
            tree::child_looked_up(manifest, "target"@, Tree::Other(Form::Plain));
            targets_settle(workspace, owner, entries, next);
            let after = requirements::rewritten_targets(workspace, owner, entries, next);
            assert(tree::keys_differ(after)) by {
                assert forall|i: int, j: int|
                    #![trigger after[i], after[j]]
                    0 <= i < j < after.len() implies after[i].0 != after[j].0 by {
                    assert(entries[i].0 != entries[j].0);
                }
            }
            assert(tree::well_formed(Tree::Table(after, form)));
            tree::child_looked_up(manifest, "target"@, Tree::Table(after, form));
        },
        _ => {
            let none = requirements::targets_edges(workspace, owner, Seq::empty());
            assert(requirements::settled(none, next) =~= none);
        },
    }
}

/// The value of a key in the workspace of a manifest.
pub open spec fn workspace_value(manifest: Tree, key: Seq<char>) -> Option<Tree> {
    match tree::get(manifest, "workspace"@) {
        Some(table) => tree::get(table, key),
        None => None,
    }
}

/// After a rewrite every internal dependency of the manifest states the requirement
/// that was decided for it, and nothing else about the internal dependencies changed:
/// there are the same ones, in the same order, with the same owners and sources. Keys of
/// the manifest and of its workspace under which no dependencies stand are as they were.
pub proof fn rewriting_settles(
    workspace: Workspace,
    manifest: Tree,
    next: Seq<Option<Seq<char>>>,
)
    requires
        tree::well_formed(manifest),
        requirements::manifest_edges(workspace, manifest).len() == next.len(),
    ensures
        requirements::manifest_edges(
            workspace,
            requirements::rewritten_manifest(workspace, manifest, next),
        ) == requirements::settled(requirements::manifest_edges(workspace, manifest), next),
        tree::well_formed(requirements::rewritten_manifest(workspace, manifest, next)),
        manifest is Table ==> requirements::rewritten_manifest(workspace, manifest, next) is Table,
        requirements::package_name(requirements::rewritten_manifest(workspace, manifest, next))
            == requirements::package_name(manifest),
        forall|other: Seq<char>|
            other != "dependencies"@ && other != "dev-dependencies"@ && other
                != "build-dependencies"@ && other != "target"@ && other != "workspace"@
                ==> #[trigger] tree::get(
                requirements::rewritten_manifest(workspace, manifest, next),
                other,
            ) == tree::get(manifest, other),
        forall|other: Seq<char>|
            other != "dependencies"@ ==> #[trigger] workspace_value(
                requirements::rewritten_manifest(workspace, manifest, next),
                other,
            ) == workspace_value(manifest, other),
{
    keys_are_different();
    let owner = requirements::owner_of(workspace.crates, manifest);
    let targets = tree::entries_in(tree::get(manifest, "target"@));
    let x = requirements::sections_edges(workspace, owner, manifest);
    let y = requirements::targets_edges(workspace, owner, targets);
    let z = requirements::workspace_edges(workspace, manifest);
    let a = x.len() as int;
    let b = y.len() as int;
    let first = requirements::rewritten_sections(workspace, owner, manifest, next);
    sections_settle(workspace, owner, manifest, next);
    assert(tree::get(first, "target"@) == tree::get(manifest, "target"@));
    assert(tree::get(first, "workspace"@) == tree::get(manifest, "workspace"@));
    assert(tree::get(first, "package"@) == tree::get(manifest, "package"@));
    let second = requirements::with_targets(workspace, owner, first, next.skip(a));
    target_replaced(workspace, owner, first, next.skip(a));
    let targets_after = tree::entries_in(tree::get(second, "target"@));
    assert(requirements::targets_edges(workspace, owner, targets_after) == requirements::settled(
        y,
        next.skip(a),
    ));
    assert(tree::get(second, "dependencies"@) == tree::get(first, "dependencies"@));
    assert(tree::get(second, "dev-dependencies"@) == tree::get(first, "dev-dependencies"@));
    assert(tree::get(second, "build-dependencies"@) == tree::get(first, "build-dependencies"@));
    assert(tree::get(second, "workspace"@) == tree::get(first, "workspace"@));
    assert(tree::get(second, "package"@) == tree::get(first, "package"@));
    let third = requirements::rewritten_manifest(workspace, manifest, next);
    match tree::get(second, "workspace"@) {
        Some(table) => {
            tree::child_looked_up(second, "workspace"@, Tree::Other(Form::Plain));
            section_settles(
                workspace,
                DependencyOwner::Workspace,
                table,
                "dependencies"@,
                next.skip(a + b),
            );
            tree::child_looked_up(
                second,
                "workspace"@,
                requirements::rewritten_section(
                    workspace,
                    DependencyOwner::Workspace,
                    table,
                    "dependencies"@,
                    next.skip(a + b),
                ),
            );
        },
        None => {
            assert(requirements::settled(z, next.skip(a + b)) =~= z);
        },
    }
    assert(tree::get(third, "target"@) == tree::get(second, "target"@));
    assert(tree::get(third, "dependencies"@) == tree::get(second, "dependencies"@));
    assert(tree::get(third, "dev-dependencies"@) == tree::get(second, "dev-dependencies"@));
    assert(tree::get(third, "build-dependencies"@) == tree::get(second, "build-dependencies"@));
    assert(tree::get(third, "package"@) == tree::get(second, "package"@));
    assert(requirements::owner_of(workspace.crates, third) == owner);
    settled_joins(x + y, z, next);
    settled_joins(x, y, next);
    assert forall|other: Seq<char>|
        other != "dependencies"@ && other != "dev-dependencies"@ && other != "build-dependencies"@
            && other != "target"@ && other != "workspace"@ implies #[trigger] tree::get(
        third,
        other,
    ) == tree::get(manifest, other) by {
        assert(tree::get(second, other) == tree::get(first, other));
        assert(tree::get(first, other) == tree::get(manifest, other));
    }
    assert forall|other: Seq<char>| other != "dependencies"@ implies #[trigger] workspace_value(
        third,
        other,
    ) == workspace_value(manifest, other) by {
        if let Some(table) = tree::get(second, "workspace"@) {
            let changed = requirements::rewritten_section(
                workspace,
                DependencyOwner::Workspace,
                table,
                "dependencies"@,
                next.skip(a + b),
            );
            assert(tree::get(changed, other) == tree::get(table, other));
        }
    }
}

/// Every edge states the requirement at its place in the list.
pub open spec fn agree(edges: Seq<EdgeView>, next: Seq<Option<Seq<char>>>) -> bool {
    &&& edges.len() <= next.len()
    &&& forall|i: int| 0 <= i < edges.len() ==> (#[trigger] edges[i]).current == next[i]
}

proof fn agreement_splits(a: Seq<EdgeView>, b: Seq<EdgeView>, next: Seq<Option<Seq<char>>>)
    requires
        agree(a + b, next),
    ensures
        agree(a, next),
        agree(b, next.skip(a.len() as int)),
{
    assert forall|i: int| 0 <= i < a.len() implies (#[trigger] a[i]).current == next[i] by {
        assert((a + b)[i] == a[i]);
    }
    assert forall|i: int| 0 <= i < b.len() implies (#[trigger] b[i]).current == next.skip(
        a.len() as int,
    )[i] by {
        assert((a + b)[a.len() + i] == b[i]);
    }
}

proof fn entries_stay(
    workspace: Workspace,
    owner: DependencyOwner,
    entries: Seq<(Seq<char>, Tree, Form)>,
    next: Seq<Option<Seq<char>>>,
)
    requires
        agree(requirements::table_edges(workspace, owner, entries), next),
    ensures
        requirements::rewritten_entries(workspace, owner, entries, next) == entries,
    decreases entries.len(),
{
    let after = requirements::rewritten_entries(workspace, owner, entries, next);
    if entries.len() > 0 {
        let (key, dependency, _) = entries.first();
        let rest = entries.drop_first();
        let rest_edges = requirements::table_edges(workspace, owner, rest);
        match requirements::edge_of(workspace, owner, key, dependency) {
            Some(edge) => {
                let edges = seq![edge] + rest_edges;
                assert(edges[0] == edge);
                agreement_splits(seq![edge], rest_edges, next);
                assert(next.skip(1) =~= next.drop_first());
                entries_stay(workspace, owner, rest, next.drop_first());
            },
            None => {
                entries_stay(workspace, owner, rest, next);
            },
        }
    }
    assert(after =~= entries);
}

proof fn section_stays(
    workspace: Workspace,
    owner: DependencyOwner,
    table: Tree,
    section: Seq<char>,
    next: Seq<Option<Seq<char>>>,
)
    requires
        agree(requirements::section_edges(workspace, owner, table, section), next),
    ensures
        requirements::rewritten_section(workspace, owner, table, section, next) == table,
{
    if let Some(child) = tree::get(table, section) {
        tree::child_stays(table, section);
        if let Tree::Table(entries, _) = child {
            entries_stay(workspace, owner, entries, next);
        }
    }
}

proof fn sections_stay(
    workspace: Workspace,
    owner: DependencyOwner,
    table: Tree,
    next: Seq<Option<Seq<char>>>,
)
    requires
        agree(requirements::sections_edges(workspace, owner, table), next),
    ensures
        requirements::rewritten_sections(workspace, owner, table, next) == table,
{
    let x = requirements::section_edges(workspace, owner, table, "dependencies"@);
    let y = requirements::section_edges(workspace, owner, table, "dev-dependencies"@);
    let z = requirements::section_edges(workspace, owner, table, "build-dependencies"@);
    agreement_splits(x + y, z, next);
    agreement_splits(x, y, next);
    section_stays(workspace, owner, table, "dependencies"@, next);
    section_stays(workspace, owner, table, "dev-dependencies"@, next.skip(x.len() as int));
    section_stays(
        workspace,
        owner,
        table,
        "build-dependencies"@,
        next.skip((x + y).len() as int),
    );
}

proof fn targets_stay(
    workspace: Workspace,
    owner: DependencyOwner,
    targets: Seq<(Seq<char>, Tree, Form)>,
    next: Seq<Option<Seq<char>>>,
)
    requires
        agree(requirements::targets_edges(workspace, owner, targets), next),
    ensures
        requirements::rewritten_targets(workspace, owner, targets, next) == targets,
    decreases targets.len(),
{
    let after = requirements::rewritten_targets(workspace, owner, targets, next);
    if targets.len() > 0 {
        let (key, target, _) = targets.first();
        let rest = targets.drop_first();
        let here = requirements::sections_edges(workspace, owner, target);
        agreement_splits(here, requirements::targets_edges(workspace, owner, rest), next);
        sections_stay(workspace, owner, target, next);
        targets_stay(workspace, owner, rest, next.skip(here.len() as int));
    }
    assert(after =~= targets);
}

/// A manifest whose internal dependencies state the requirements that were decided for
/// them already stays as it is.
pub proof fn settled_manifest_stays(
    workspace: Workspace,
    manifest: Tree,
    next: Seq<Option<Seq<char>>>,
)
    requires
        agree(requirements::manifest_edges(workspace, manifest), next),
    ensures
        requirements::rewritten_manifest(workspace, manifest, next) == manifest,
{
    let owner = requirements::owner_of(workspace.crates, manifest);
    let targets = tree::entries_in(tree::get(manifest, "target"@));
    let x = requirements::sections_edges(workspace, owner, manifest);
    let y = requirements::targets_edges(workspace, owner, targets);
    let z = requirements::workspace_edges(workspace, manifest);
    agreement_splits(x + y, z, next);
    agreement_splits(x, y, next);
    sections_stay(workspace, owner, manifest, next);
    if let Some(Tree::Table(entries, _)) = tree::get(manifest, "target"@) {
        targets_stay(workspace, owner, entries, next.skip(x.len() as int));
        tree::child_stays(manifest, "target"@);
    }
    if let Some(table) = tree::get(manifest, "workspace"@) {
        section_stays(
            workspace,
            DependencyOwner::Workspace,
            table,
            "dependencies"@,
            next.skip((x + y).len() as int),
        );
        tree::child_stays(manifest, "workspace"@);
    }
}

/// Rewriting a manifest a second time with the same decisions changes nothing.
pub proof fn rewriting_twice_is_rewriting_once(
    workspace: Workspace,
    manifest: Tree,
    next: Seq<Option<Seq<char>>>,
)
    requires
        tree::well_formed(manifest),
        requirements::manifest_edges(workspace, manifest).len() == next.len(),
    ensures
        ({
            let once = requirements::rewritten_manifest(workspace, manifest, next);
            requirements::rewritten_manifest(workspace, once, next) == once
        }),
{
    rewriting_settles(workspace, manifest, next);
    settled_manifest_stays(
        workspace,
        requirements::rewritten_manifest(workspace, manifest, next),
        next,
    );
}

/// The workspace once its plans were carried out: the same crates, each with the version
/// that it was to have, and no plans.
pub open spec fn released(before: Workspace, after: Workspace) -> bool {
    &&& after.plans.len() == 0
    &&& after.crates.len() == before.crates.len()
    &&& forall|i: int|
        #![trigger after.crates[i]]
        0 <= i < after.crates.len() ==> {
            &&& after.crates[i].name@ == before.crates[i].name@
            &&& after.crates[i].private == before.crates[i].private
            &&& Some(after.crates[i].version@) == plan::desired_version(
                before.crates,
                before.plans,
                before.crates[i].name@,
            )
        }
}

proof fn names_stay(before: Seq<CrateInfo>, after: Seq<CrateInfo>, name: Seq<char>)
    requires
        before.len() == after.len(),
        forall|i: int|
            #![trigger after[i]]
            0 <= i < after.len() ==> after[i].name@ == before[i].name@,
    ensures
        plan::crate_named(after, name) == plan::crate_named(before, name),
    decreases after.len(),
{
    if after.len() > 0 {
        let rest = after.drop_last();
        assert(after[after.len() - 1].name@ == before[after.len() - 1].name@);
        assert forall|i: int| #![trigger rest[i]] 0 <= i < rest.len() implies rest[i].name@
            == before.drop_last()[i].name@ by {
            assert(rest[i] == after[i]);
        }
        names_stay(before.drop_last(), rest, name);
    }
}

proof fn edge_stays(
    before: Workspace,
    after: Workspace,
    owner: DependencyOwner,
    key: Seq<char>,
    dependency: Tree,
)
    requires
        released(before, after),
    ensures
        requirements::edge_of(after, owner, key, dependency) == requirements::edge_of(
            before,
            owner,
            key,
            dependency,
        ),
{
    let name = requirements::name_of(key, dependency);
    names_stay(before.crates, after.crates, name);
    plan::crate_named_found(before.crates, name);
    if let Some(i) = plan::crate_named(before.crates, name) {
        assert(after.crates[i].private == before.crates[i].private);
        assert(plan::plan_named(after.plans, name) is None);
    }
    assert(plan::all_private(after.crates) == plan::all_private(before.crates)) by {
        assert forall|i: int| 0 <= i < after.crates.len() implies (
        #[trigger] after.crates[i]).private == (#[trigger] before.crates[i]).private by {}
        if plan::all_private(after.crates) {
            assert forall|i: int| 0 <= i < before.crates.len() implies (
            #[trigger] before.crates[i]).private by {
                assert(after.crates[i].private);
            }
        }
    }
}

proof fn table_edges_stay(
    before: Workspace,
    after: Workspace,
    owner: DependencyOwner,
    entries: Seq<(Seq<char>, Tree, Form)>,
)
    requires
        released(before, after),
    ensures
        requirements::table_edges(after, owner, entries) == requirements::table_edges(
            before,
            owner,
            entries,
        ),
    decreases entries.len(),
{
    if entries.len() > 0 {
        edge_stays(before, after, owner, entries.first().0, entries.first().1);
        table_edges_stay(before, after, owner, entries.drop_first());
    }
}

proof fn sections_edges_stay(
    before: Workspace,
    after: Workspace,
    owner: DependencyOwner,
    table: Tree,
)
    requires
        released(before, after),
    ensures
        requirements::sections_edges(after, owner, table) == requirements::sections_edges(
            before,
            owner,
            table,
        ),
{
    table_edges_stay(before, after, owner, tree::entries_in(tree::get(table, "dependencies"@)));
    table_edges_stay(
        before,
        after,
        owner,
        tree::entries_in(tree::get(table, "dev-dependencies"@)),
    );
    table_edges_stay(
        before,
        after,
        owner,
        tree::entries_in(tree::get(table, "build-dependencies"@)),
    );
}

proof fn targets_edges_stay(
    before: Workspace,
    after: Workspace,
    owner: DependencyOwner,
    targets: Seq<(Seq<char>, Tree, Form)>,
)
    requires
        released(before, after),
    ensures
        requirements::targets_edges(after, owner, targets) == requirements::targets_edges(
            before,
            owner,
            targets,
        ),
    decreases targets.len(),
{
    if targets.len() > 0 {
        sections_edges_stay(before, after, owner, targets.first().1);
        targets_edges_stay(before, after, owner, targets.drop_first());
    }
}

/// Once the plans were carried out, a manifest states the same internal dependencies, and
/// they are to have the versions that the plans gave them.
pub proof fn released_workspace_wants_the_planned_versions(
    before: Workspace,
    after: Workspace,
    manifest: Tree,
)
    requires
        released(before, after),
    ensures
        requirements::manifest_edges(after, manifest) == requirements::manifest_edges(
            before,
            manifest,
        ),
{
    if let Some(name) = requirements::package_name(manifest) {
        names_stay(before.crates, after.crates, name);
        plan::crate_named_found(before.crates, name);
        if let Some(i) = plan::crate_named(before.crates, name) {
            assert(after.crates[i].private == before.crates[i].private);
        }
    }
    let owner = requirements::owner_of(before.crates, manifest);
    assert(requirements::owner_of(after.crates, manifest) == owner);
    sections_edges_stay(before, after, owner, manifest);
    targets_edges_stay(
        before,
        after,
        owner,
        tree::entries_in(tree::get(manifest, "target"@)),
    );
    if let Some(table) = tree::get(manifest, "workspace"@) {
        table_edges_stay(
            before,
            after,
            DependencyOwner::Workspace,
            tree::entries_in(tree::get(table, "dependencies"@)),
        );
    }
}

} // verus!
