//! Rewriting the requirements of a manifest in its document.

use crate::document;
use crate::plan::{CrateInfo, CrateReleasePlan};
use crate::requirements;
use crate::requirements::{DependencyOwner, Workspace};
use crate::settling;
use crate::text;
use crate::tree;
use crate::tree::{Form, TomlValue, Tree};
use vstd::prelude::*;

verus! {

/// Gives a dependency another requirement, or none.
pub fn apply_dependency_requirement(
    dependency: &mut toml_edit::Item,
    current: &Option<String>,
    next: &Option<String>,
)
    requires
        tree::well_formed(document::item_tree(*old(dependency))),
        document::item_tree(*old(dependency)) is Table,
        text::maybe_text(*current) == tree::text_in(
            tree::get(document::item_tree(*old(dependency)), "version"@),
        ),
    ensures
        document::item_tree(*final(dependency)) == requirements::with_requirement(
            document::item_tree(*old(dependency)),
            text::maybe_text(*next),
        ),
{
    if same_requirement(current, next) {
        return;
    }
    match next {
        Some(requirement) => {
            document::insert_text(dependency, "version", requirement.as_str());
        },
        None => {
            document::remove_key(dependency, "version");
        },
    }
}

/// Whether two requirements are equal.
pub fn same_requirement(a: &Option<String>, b: &Option<String>) -> (same: bool)
    ensures
        same == (text::maybe_text(*a) == text::maybe_text(*b)),
{
    match (a, b) {
        (Some(x), Some(y)) => text::same_text(x.as_str(), y.as_str()),
        (None, None) => true,
        _ => false,
    }
}

/// Gives the edges of a table of dependencies the requirements from `start` on, and says
/// where the requirements of the next table start.
pub fn rewrite_dependency_table(
    item: &mut toml_edit::Item,
    crates: &Vec<CrateInfo>,
    plans: &Vec<CrateReleasePlan>,
    owner: DependencyOwner,
    next: &Vec<Option<String>>,
    start: usize,
) -> (end: usize)
    requires
        tree::well_formed(document::item_tree(*old(item))),
        start + requirements::table_edges(
            Workspace { crates: crates@, plans: plans@ },
            owner,
            tree::entries_in(Some(document::item_tree(*old(item)))),
        ).len() <= next.len(),
    ensures
        document::item_tree(*final(item)) == requirements::rewritten_table(
            Workspace { crates: crates@, plans: plans@ },
            owner,
            document::item_tree(*old(item)),
            requirements::requirements_of(next@).skip(start as int),
        ),
        end == start + requirements::table_edges(
            Workspace { crates: crates@, plans: plans@ },
            owner,
            tree::entries_in(Some(document::item_tree(*old(item)))),
        ).len(),
{
    let ghost workspace = Workspace { crates: crates@, plans: plans@ };
    let ghost wanted = requirements::requirements_of(next@);
    let value = document::read_item(item);
    proof {
        tree::entries_read(value, document::item_tree(*item));
    }
    let mut at: usize = start;
    match value {
        TomlValue::Table(entries) => {
            let ghost all = document::item_tree(*item)->Table_0;
            let ghost form = document::item_tree(*item)->Table_1;
            let ghost mut done: Seq<(Seq<char>, Tree, Form)> = Seq::empty();
            let mut i: usize = 0;
            proof {
                assert(all.skip(0) =~= all);
                assert(done + all =~= all);
                let whole = requirements::rewritten_entries(
                    workspace,
                    owner,
                    all,
                    wanted.skip(start as int),
                );
                assert(done + whole =~= whole);
            }
            while i < entries.len()
                invariant
                    i <= entries.len(),
                    start <= at <= next.len(),
                    entries.len() == all.len(),
                    tree::entries_of(entries@) == tree::bare_entries(all),
                    workspace == (Workspace { crates: crates@, plans: plans@ }),
                    wanted == requirements::requirements_of(next@),
                    done.len() == i,
                    tree::well_formed(Tree::Table(all, form)),
                    forall|k: int| #![trigger done[k]] 0 <= k < i ==> done[k].0 == all[k].0,
                    document::item_tree(*item) == Tree::Table(
                        done + all.skip(i as int),
                        form,
                    ),
                    tree::well_formed(document::item_tree(*item)),
                    requirements::rewritten_entries(
                        workspace,
                        owner,
                        all,
                        wanted.skip(start as int),
                    ) == done + requirements::rewritten_entries(
                        workspace,
                        owner,
                        all.skip(i as int),
                        wanted.skip(at as int),
                    ),
                    at + requirements::table_edges(workspace, owner, all.skip(i as int)).len()
                        == start + requirements::table_edges(workspace, owner, all).len(),
                    start + requirements::table_edges(workspace, owner, all).len() <= next.len(),
                decreases entries.len() - i,
            {
                proof {
                    assert(tree::entries_of(entries@)[i as int] == tree::bare_entries(
                        all,
                    )[i as int]);
                    requirements::bare_edge(workspace, owner, all[i as int].0, all[i as int].1);
                }
                let found = requirements::dependency_edge(
                    crates,
                    plans,
                    owner,
                    entries[i].key.as_str(),
                    &entries[i].value,
                );
                let ghost now = done + all.skip(i as int);
                let ghost rest = all.skip(i + 1);
                proof {
                    assert(all.skip(i as int).first() == all[i as int]);
                    assert(all.skip(i as int).drop_first() =~= rest);
                    assert(now[i as int] == all[i as int]);
                    tree::position_only(now, i as int);
                    assert(tree::well_formed(now[i as int].1));
                }
                match found {
                    Some(edge) => {
                        assert(wanted.skip(at as int).first() == wanted[at as int]);
                        assert(wanted.skip(at as int).drop_first() =~= wanted.skip(at + 1));
                        let ghost changed = requirements::with_requirement(
                            all[i as int].1,
                            wanted[at as int],
                        );
                        proof {
                            settling::requirement_settles(
                                workspace,
                                owner,
                                all[i as int].0,
                                all[i as int].1,
                                wanted[at as int],
                            );
                            tree::update_well_formed(now, form, i as int, changed);
                        }
                        match document::child_mut(item, entries[i].key.as_str()) {
                            Some(child) => {
                                apply_dependency_requirement(
                                    child,
                                    &edge.current_requirement,
                                    &next[at],
                                );
                            },
                            None => {},
                        }
                        proof {
                            let entry = (all[i as int].0, changed, all[i as int].2);
                            done = done.push(entry);
                            assert(now.update(i as int, entry) =~= done + rest);
                            let tail = requirements::rewritten_entries(
                                workspace,
                                owner,
                                rest,
                                wanted.skip(at + 1),
                            );
                            assert(done + tail =~= done.drop_last() + (seq![entry] + tail));
                        }
                        at += 1;
                    },
                    None => {
                        proof {
                            done = done.push(all[i as int]);
                            assert(now =~= done + rest);
                            let tail = requirements::rewritten_entries(
                                workspace,
                                owner,
                                rest,
                                wanted.skip(at as int),
                            );
                            assert(done + tail =~= done.drop_last() + (seq![all[i as int]]
                                + tail));
                        }
                    },
                }
                i += 1;
            }
            assert(all.skip(i as int) =~= Seq::empty());
            assert(done + Seq::<(Seq<char>, Tree, Form)>::empty() =~= done);
        },
        _ => {},
    }
    at
}

/// Gives the edges under one key of a table the requirements from `start` on.
fn rewrite_section(
    item: &mut toml_edit::Item,
    crates: &Vec<CrateInfo>,
    plans: &Vec<CrateReleasePlan>,
    owner: DependencyOwner,
    section: &str,
    next: &Vec<Option<String>>,
    start: usize,
) -> (end: usize)
    requires
        tree::well_formed(document::item_tree(*old(item))),
        start + requirements::section_edges(
            Workspace { crates: crates@, plans: plans@ },
            owner,
            document::item_tree(*old(item)),
            section@,
        ).len() <= next.len(),
    ensures
        document::item_tree(*final(item)) == requirements::rewritten_section(
            Workspace { crates: crates@, plans: plans@ },
            owner,
            document::item_tree(*old(item)),
            section@,
            requirements::requirements_of(next@).skip(start as int),
        ),
        end == start + requirements::section_edges(
            Workspace { crates: crates@, plans: plans@ },
            owner,
            document::item_tree(*old(item)),
            section@,
        ).len(),
{
    proof {
        if let Tree::Table(entries, _) = document::item_tree(*item) {
            tree::position_found(entries, section@);
        }
    }
    match document::child_mut(item, section) {
        Some(child) => rewrite_dependency_table(child, crates, plans, owner, next, start),
        None => start,
    }
}

/// Gives the edges of the dependencies, the development and the build dependencies the
/// requirements from `start` on.
fn rewrite_sections(
    item: &mut toml_edit::Item,
    crates: &Vec<CrateInfo>,
    plans: &Vec<CrateReleasePlan>,
    owner: DependencyOwner,
    next: &Vec<Option<String>>,
    start: usize,
) -> (end: usize)
    requires
        tree::well_formed(document::item_tree(*old(item))),
        start + requirements::sections_edges(
            Workspace { crates: crates@, plans: plans@ },
            owner,
            document::item_tree(*old(item)),
        ).len() <= next.len(),
    ensures
        document::item_tree(*final(item)) == requirements::rewritten_sections(
            Workspace { crates: crates@, plans: plans@ },
            owner,
            document::item_tree(*old(item)),
            requirements::requirements_of(next@).skip(start as int),
        ),
        end == start + requirements::sections_edges(
            Workspace { crates: crates@, plans: plans@ },
            owner,
            document::item_tree(*old(item)),
        ).len(),
{
    let ghost workspace = Workspace { crates: crates@, plans: plans@ };
    let ghost wanted = requirements::requirements_of(next@);
    let ghost before = document::item_tree(*item);
    proof {
        settling::keys_are_different();
        settling::section_settles(
            workspace,
            owner,
            before,
            "dependencies"@,
            wanted.skip(start as int),
        );
    }
    let first: usize = rewrite_section(item, crates, plans, owner, "dependencies", next, start);
    let ghost middle = document::item_tree(*item);
    proof {
        assert(tree::get(middle, "dev-dependencies"@) == tree::get(before, "dev-dependencies"@));
        settling::section_settles(
            workspace,
            owner,
            middle,
            "dev-dependencies"@,
            wanted.skip(first as int),
        );
        assert(wanted.skip(start as int).skip(first - start) =~= wanted.skip(first as int));
    }
    let second: usize = rewrite_section(
        item,
        crates,
        plans,
        owner,
        "dev-dependencies",
        next,
        first,
    );
    proof {
        let last = document::item_tree(*item);
        assert(tree::get(last, "build-dependencies"@) == tree::get(middle, "build-dependencies"@));
        assert(tree::get(middle, "build-dependencies"@) == tree::get(
            before,
            "build-dependencies"@,
        ));
        assert(wanted.skip(start as int).skip(second - start) =~= wanted.skip(second as int));
    }
    rewrite_section(item, crates, plans, owner, "build-dependencies", next, second)
}

/// Gives the edges of the dependencies of all targets the requirements from `start` on.
fn rewrite_targets(
    item: &mut toml_edit::Item,
    crates: &Vec<CrateInfo>,
    plans: &Vec<CrateReleasePlan>,
    owner: DependencyOwner,
    next: &Vec<Option<String>>,
    start: usize,
) -> (end: usize)
    requires
        tree::well_formed(document::item_tree(*old(item))),
        start + requirements::targets_edges(
            Workspace { crates: crates@, plans: plans@ },
            owner,
            tree::entries_in(Some(document::item_tree(*old(item)))),
        ).len() <= next.len(),
    ensures
        document::item_tree(*final(item)) == match document::item_tree(*old(item)) {
            Tree::Table(entries, form) => Tree::Table(
                requirements::rewritten_targets(
                    Workspace { crates: crates@, plans: plans@ },
                    owner,
                    entries,
                    requirements::requirements_of(next@).skip(start as int),
                ),
                form,
            ),
            other => other,
        },
        end == start + requirements::targets_edges(
            Workspace { crates: crates@, plans: plans@ },
            owner,
            tree::entries_in(Some(document::item_tree(*old(item)))),
        ).len(),
{
    let ghost workspace = Workspace { crates: crates@, plans: plans@ };
    let ghost wanted = requirements::requirements_of(next@);
    let value = document::read_item(item);
    proof {
        tree::entries_read(value, document::item_tree(*item));
    }
    let mut at: usize = start;
    match value {
        TomlValue::Table(entries) => {
            let ghost all = document::item_tree(*item)->Table_0;
            let ghost form = document::item_tree(*item)->Table_1;
            let ghost mut done: Seq<(Seq<char>, Tree, Form)> = Seq::empty();
            let mut i: usize = 0;
            proof {
                assert(all.skip(0) =~= all);
                assert(done + all =~= all);
                let whole = requirements::rewritten_targets(
                    workspace,
                    owner,
                    all,
                    wanted.skip(start as int),
                );
                assert(done + whole =~= whole);
            }
            while i < entries.len()
                invariant
                    i <= entries.len(),
                    start <= at <= next.len(),
                    entries.len() == all.len(),
                    tree::entries_of(entries@) == tree::bare_entries(all),
                    workspace == (Workspace { crates: crates@, plans: plans@ }),
                    wanted == requirements::requirements_of(next@),
                    done.len() == i,
                    tree::well_formed(Tree::Table(all, form)),
                    document::item_tree(*item) == Tree::Table(
                        done + all.skip(i as int),
                        form,
                    ),
                    tree::well_formed(document::item_tree(*item)),
                    requirements::rewritten_targets(
                        workspace,
                        owner,
                        all,
                        wanted.skip(start as int),
                    ) == done + requirements::rewritten_targets(
                        workspace,
                        owner,
                        all.skip(i as int),
                        wanted.skip(at as int),
                    ),
                    at + requirements::targets_edges(workspace, owner, all.skip(i as int)).len()
                        == start + requirements::targets_edges(workspace, owner, all).len(),
                    start + requirements::targets_edges(workspace, owner, all).len() <= next.len(),
                decreases entries.len() - i,
            {
                let ghost now = done + all.skip(i as int);
                let ghost rest = all.skip(i + 1);
                let ghost target = all[i as int].1;
                let ghost n = requirements::sections_edges(workspace, owner, target).len() as int;
                let ghost changed = requirements::rewritten_sections(
                    workspace,
                    owner,
                    target,
                    wanted.skip(at as int),
                );
                proof {
                    assert(tree::entries_of(entries@)[i as int] == tree::bare_entries(
                        all,
                    )[i as int]);
                    assert(all.skip(i as int).first() == all[i as int]);
                    assert(all.skip(i as int).drop_first() =~= rest);
                    assert(now[i as int] == all[i as int]);
                    tree::position_only(now, i as int);
                    assert(tree::well_formed(now[i as int].1));
                    settling::sections_settle(workspace, owner, target, wanted.skip(at as int));
                    tree::update_well_formed(now, form, i as int, changed);
                    assert(wanted.skip(at as int).skip(n) =~= wanted.skip(at + n));
                }
                match document::child_mut(item, entries[i].key.as_str()) {
                    Some(child) => {
                        at = rewrite_sections(child, crates, plans, owner, next, at);
                    },
                    None => {},
                }
                proof {
                    let entry = (all[i as int].0, changed, all[i as int].2);
                    done = done.push(entry);
                    assert(now.update(i as int, entry) =~= done + rest);
                    let tail = requirements::rewritten_targets(
                        workspace,
                        owner,
                        rest,
                        wanted.skip(at as int),
                    );
                    assert(done + tail =~= done.drop_last() + (seq![entry] + tail));
                }
                i += 1;
            }
            assert(all.skip(i as int) =~= Seq::empty());
            assert(done + Seq::<(Seq<char>, Tree, Form)>::empty() =~= done);
        },
        _ => {},
    }
    at
}

/// Gives the edges under one key of a manifest the requirements from `start` on.
fn rewrite_root_section(
    manifest: &mut toml_edit::DocumentMut,
    crates: &Vec<CrateInfo>,
    plans: &Vec<CrateReleasePlan>,
    owner: DependencyOwner,
    section: &str,
    next: &Vec<Option<String>>,
    start: usize,
) -> (end: usize)
    requires
        tree::well_formed(document::document_tree(*old(manifest))),
        document::document_tree(*old(manifest)) is Table,
        start + requirements::section_edges(
            Workspace { crates: crates@, plans: plans@ },
            owner,
            document::document_tree(*old(manifest)),
            section@,
        ).len() <= next.len(),
    ensures
        document::document_tree(*final(manifest)) == requirements::rewritten_section(
            Workspace { crates: crates@, plans: plans@ },
            owner,
            document::document_tree(*old(manifest)),
            section@,
            requirements::requirements_of(next@).skip(start as int),
        ),
        end == start + requirements::section_edges(
            Workspace { crates: crates@, plans: plans@ },
            owner,
            document::document_tree(*old(manifest)),
            section@,
        ).len(),
{
    proof {
        if let Tree::Table(entries, _) = document::document_tree(*manifest) {
            tree::position_found(entries, section@);
        }
    }
    match document::entry_mut(manifest, section) {
        Some(child) => rewrite_dependency_table(child, crates, plans, owner, next, start),
        None => start,
    }
}

/// Gives the edges of the dependencies, the development and the build dependencies of a
/// manifest the requirements from `start` on.
fn rewrite_root_sections(
    manifest: &mut toml_edit::DocumentMut,
    crates: &Vec<CrateInfo>,
    plans: &Vec<CrateReleasePlan>,
    owner: DependencyOwner,
    next: &Vec<Option<String>>,
    start: usize,
) -> (end: usize)
    requires
        tree::well_formed(document::document_tree(*old(manifest))),
        document::document_tree(*old(manifest)) is Table,
        start + requirements::sections_edges(
            Workspace { crates: crates@, plans: plans@ },
            owner,
            document::document_tree(*old(manifest)),
        ).len() <= next.len(),
    ensures
        document::document_tree(*final(manifest)) == requirements::rewritten_sections(
            Workspace { crates: crates@, plans: plans@ },
            owner,
            document::document_tree(*old(manifest)),
            requirements::requirements_of(next@).skip(start as int),
        ),
        end == start + requirements::sections_edges(
            Workspace { crates: crates@, plans: plans@ },
            owner,
            document::document_tree(*old(manifest)),
        ).len(),
{
    let ghost workspace = Workspace { crates: crates@, plans: plans@ };
    let ghost wanted = requirements::requirements_of(next@);
    let ghost before = document::document_tree(*manifest);
    proof {
        settling::keys_are_different();
        settling::section_settles(
            workspace,
            owner,
            before,
            "dependencies"@,
            wanted.skip(start as int),
        );
    }
    let first: usize = rewrite_root_section(
        manifest,
        crates,
        plans,
        owner,
        "dependencies",
        next,
        start,
    );
    let ghost middle = document::document_tree(*manifest);
    proof {
        assert(tree::get(middle, "dev-dependencies"@) == tree::get(before, "dev-dependencies"@));
        settling::section_settles(
            workspace,
            owner,
            middle,
            "dev-dependencies"@,
            wanted.skip(first as int),
        );
        assert(wanted.skip(start as int).skip(first - start) =~= wanted.skip(first as int));
    }
    let second: usize = rewrite_root_section(
        manifest,
        crates,
        plans,
        owner,
        "dev-dependencies",
        next,
        first,
    );
    proof {
        let last = document::document_tree(*manifest);
        assert(tree::get(last, "build-dependencies"@) == tree::get(middle, "build-dependencies"@));
        assert(tree::get(middle, "build-dependencies"@) == tree::get(
            before,
            "build-dependencies"@,
        ));
        assert(wanted.skip(start as int).skip(second - start) =~= wanted.skip(second as int));
    }
    rewrite_root_section(manifest, crates, plans, owner, "build-dependencies", next, second)
}

/// Gives every edge of a manifest the requirement at its place in the list.
pub fn rewrite_manifest(
    manifest: &mut toml_edit::DocumentMut,
    crates: &Vec<CrateInfo>,
    plans: &Vec<CrateReleasePlan>,
    next: &Vec<Option<String>>,
)
    requires
        tree::well_formed(document::document_tree(*old(manifest))),
        document::document_tree(*old(manifest)) is Table,
        requirements::manifest_edges(
            Workspace { crates: crates@, plans: plans@ },
            document::document_tree(*old(manifest)),
        ).len() == next.len(),
    ensures
        document::document_tree(*final(manifest)) == requirements::rewritten_manifest(
            Workspace { crates: crates@, plans: plans@ },
            document::document_tree(*old(manifest)),
            requirements::requirements_of(next@),
        ),
{
    let ghost workspace = Workspace { crates: crates@, plans: plans@ };
    let ghost wanted = requirements::requirements_of(next@);
    let ghost before = document::document_tree(*manifest);
    let value = document::read_item(document::root_of(manifest));
    let owner = requirements::dependency_owner(crates, &value);
    proof {
        requirements::bare_manifest_edges(workspace, before);
        settling::keys_are_different();
        assert(wanted.skip(0) =~= wanted);
        settling::sections_settle(workspace, owner, before, wanted);
    }
    let first: usize = rewrite_root_sections(manifest, crates, plans, owner, next, 0);
    let ghost middle = document::document_tree(*manifest);
    proof {
        assert(tree::get(middle, "target"@) == tree::get(before, "target"@));
        assert(tree::get(middle, "workspace"@) == tree::get(before, "workspace"@));
        if let Tree::Table(entries, _) = middle {
            tree::position_found(entries, "target"@);
            if let Some(i) = tree::position(entries, "target"@) {
                assert(entries.update(i, entries[i]) =~= entries);
            }
        }
    }
    let second: usize = match document::entry_mut(manifest, "target") {
        Some(child) => rewrite_targets(child, crates, plans, owner, next, first),
        None => first,
    };
    proof {
        settling::target_replaced(workspace, owner, middle, wanted.skip(first as int));
        let last = document::document_tree(*manifest);
        assert(last == requirements::with_targets(
            workspace,
            owner,
            middle,
            wanted.skip(first as int),
        ));
        assert(tree::get(last, "workspace"@) == tree::get(middle, "workspace"@));
        if let Tree::Table(entries, _) = last {
            tree::position_found(entries, "workspace"@);
        }
    }
    match document::entry_mut(manifest, "workspace") {
        Some(child) => {
            rewrite_section(
                child,
                crates,
                plans,
                DependencyOwner::Workspace,
                "dependencies",
                next,
                second,
            );
        },
        None => {},
    }
}

} // verus!
