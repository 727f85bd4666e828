//! Setting versions in manifests and in the lockfile.

use crate::document;
use crate::error::ReleaseError;
use crate::path;
use crate::plan;
use crate::plan::CrateReleasePlan;
use crate::requirements;
use crate::requirements::Workspace;
use crate::settling;
use crate::text;
use crate::tree;
use crate::tree::{Form, TomlValue, Tree};
use crate::version;
use crate::version::Version;
use vstd::prelude::*;

verus! {

/// The table states a version.
pub open spec fn states_version(table: Option<Tree>) -> bool {
    table is Some && tree::get(table->0, "version"@) is Some
}

/// A table with another version, where it states one.
pub open spec fn with_version(table: Tree, next: Seq<char>) -> Tree {
    match table {
        Tree::Table(entries, form) => if states_version(Some(table)) {
            Tree::Table(
                tree::put(entries, "version"@, Tree::Text(next, Form::Plain)),
                form,
            )
        } else {
            table
        },
        _ => table,
    }
}

/// The table that the workspace of a manifest keeps for its packages.
pub open spec fn workspace_package(manifest: Tree) -> Option<Tree> {
    match tree::get(manifest, "workspace"@) {
        Some(workspace) => tree::get(workspace, "package"@),
        None => None,
    }
}

/// The manifest states a version, for its package or for those of the workspace.
pub open spec fn manifest_states_version(manifest: Tree) -> bool {
    states_version(tree::get(manifest, "package"@)) || states_version(workspace_package(manifest))
}

/// A table with another version in the table under `package`, where that states one.
pub open spec fn with_package_version(table: Tree, next: Seq<char>) -> Tree {
    match tree::get(table, "package"@) {
        Some(package) => tree::with_child(table, "package"@, with_version(package, next)),
        None => table,
    }
}

/// A manifest with another version, for its package and for those of the workspace,
/// wherever it states one.
pub open spec fn versioned_manifest(manifest: Tree, next: Seq<char>) -> Tree {
    let first = with_package_version(manifest, next);
    match tree::get(first, "workspace"@) {
        Some(workspace) => tree::with_child(
            first,
            "workspace"@,
            with_package_version(workspace, next),
        ),
        None => first,
    }
}

/// Sets the version of a table that states one, and says whether it does.
pub fn set_table_item_version(item: &mut toml_edit::Item, next: &Version) -> (changed: bool)
    requires
        tree::well_formed(document::item_tree(*old(item))),
    ensures
        document::item_tree(*final(item)) == with_version(
            document::item_tree(*old(item)),
            version::version_text(next@),
        ),
        changed == states_version(Some(document::item_tree(*old(item)))),
{
    let value = document::read_item(item);
    proof {
        tree::bare_looked_up(document::item_tree(*item), "version"@);
        tree::entries_read(value, document::item_tree(*item));
    }
    match value {
        TomlValue::Table(_) => {},
        _ => {
            return false;
        },
    }
    if value.get("version").is_none() {
        return false;
    }
    let next_version = next.to_text();
    document::insert_text(item, "version", next_version.as_str());
    true
}

/// Sets the version of the package of a manifest, and says whether it states one.
pub fn set_item_version(manifest: &mut toml_edit::DocumentMut, next: &Version) -> (changed: bool)
    requires
        document::document_tree(*old(manifest)) is Table,
        tree::well_formed(document::document_tree(*old(manifest))),
    ensures
        document::document_tree(*final(manifest)) == with_package_version(
            document::document_tree(*old(manifest)),
            version::version_text(next@),
        ),
        changed == states_version(
            tree::get(document::document_tree(*old(manifest)), "package"@),
        ),
{
    proof {
        tree::position_found(document::document_tree(*manifest)->Table_0, "package"@);
    }
    match document::entry_mut(manifest, "package") {
        Some(package) => set_table_item_version(package, next),
        None => false,
    }
}

/// The text of a manifest with another version, where it states one and the text is
/// another one then; or why it is not TOML.
pub open spec fn new_manifest(original: Seq<char>, next: Seq<char>) -> Result<
    Option<Seq<char>>,
    Seq<char>,
> {
    match document::toml_edit_parse(original) {
        Ok(manifest) => {
            let written = document::document_text(versioned_manifest(manifest, next));
            if manifest_states_version(manifest) && written != original {
                Ok(Some(written))
            } else {
                Ok(None)
            }
        },
        Err(message) => Err(message),
    }
}

/// Sets the version of a manifest wherever it states one. There is a text to write where
/// it states one and the new text differs from the old one. `shown_path` is how an error
/// names the file.
pub fn set_manifest_version(original: &str, shown_path: &str, next: &Version) -> (result: Result<
    Option<String>,
    ReleaseError,
>)
    ensures
        match new_manifest(original@, version::version_text(next@)) {
            Ok(written) => result matches Ok(found) && text::maybe_text(found) == written,
            Err(message) => result matches Err(ReleaseError::InvalidManifest { path, detail })
                && path@ == shown_path@ && detail@ == message,
        },
{
    let mut manifest = match document::parse_document(original) {
        Ok(manifest) => manifest,
        Err(detail) => {
            return Err(ReleaseError::InvalidManifest { path: shown_path.to_owned(), detail });
        },
    };
    let ghost before = document::document_tree(manifest);
    proof {
        package_version_looked_up(before, version::version_text(next@));
    }
    let in_package = set_item_version(&mut manifest, next);
    let ghost middle = document::document_tree(manifest);
    proof {
        assert(tree::get(middle, "workspace"@) == tree::get(before, "workspace"@));
        tree::position_found(middle->Table_0, "workspace"@);
    }
    let in_workspace = match document::entry_mut(&mut manifest, "workspace") {
        Some(workspace) => {
            proof {
                assert(tree::well_formed(document::item_tree(*workspace)));
                if let Tree::Table(entries, _) = document::item_tree(*workspace) {
                    tree::position_found(entries, "package"@);
                    if let Some(i) = tree::position(entries, "package"@) {
                        assert(tree::well_formed(entries[i].1));
                    }
                }
            }
            match document::child_mut(workspace, "package") {
                Some(package) => set_table_item_version(package, next),
                None => false,
            }
        },
        None => false,
    };
    if !in_package && !in_workspace {
        return Ok(None);
    }
    let rendered = document::render_document(&manifest);
    if text::same_text(rendered.as_str(), original) {
        return Ok(None);
    }
    Ok(Some(rendered))
}

/// A table with the version of its package set: what its package states, and that the
/// other keys are as they were.
pub proof fn package_version_looked_up(table: Tree, next: Seq<char>)
    requires
        tree::well_formed(table),
    ensures
        ({
            let after = with_package_version(table, next);
            &&& tree::well_formed(after)
            &&& table is Table ==> after is Table
            &&& tree::get(after, "package"@) == match tree::get(table, "package"@) {
                Some(package) => Some(with_version(package, next)),
                None => None,
            }
            &&& forall|other: Seq<char>|
                other != "package"@ ==> #[trigger] tree::get(after, other) == tree::get(
                    table,
                    other,
                )
            &&& "workspace"@ != "package"@
        }),
{
    reveal_strlit("workspace");
    reveal_strlit("package");
    assert("workspace"@.len() == 9);
    assert("package"@.len() == 7);
    if let Some(package) = tree::get(table, "package"@) {
        tree::child_looked_up(table, "package"@, with_version(package, next));
        if let Tree::Table(entries, _) = package {
            tree::put_looked_up(entries, "version"@, Tree::Text(next, Form::Plain));
        }
    }
}

/// Setting the version of a table again changes nothing.
proof fn version_set_once(table: Tree, next: Seq<char>)
    ensures
        with_version(with_version(table, next), next) == with_version(table, next),
{
    if let Tree::Table(entries, _) = table {
        tree::put_looked_up(entries, "version"@, Tree::Text(next, Form::Plain));
        let once = tree::put(entries, "version"@, Tree::Text(next, Form::Plain));
        tree::position_found(entries, "version"@);
        tree::position_found(once, "version"@);
        let at = match tree::position(entries, "version"@) {
            Some(i) => i,
            None => entries.len() as int,
        };
        assert(once[at] == ("version"@, Tree::Text(next, Form::Plain), Form::Plain));
        assert forall|k: int| 0 <= k < at implies (#[trigger] once[k]).0 != "version"@ by {
            assert(once[k] == entries[k]);
        }
        assert(tree::put(once, "version"@, Tree::Text(next, Form::Plain)) =~= once);
    }
}

proof fn package_version_set_once(table: Tree, next: Seq<char>)
    requires
        tree::well_formed(table),
    ensures
        ({
            let once = with_package_version(table, next);
            with_package_version(once, next) == once
        }),
{
    package_version_looked_up(table, next);
    if let Some(package) = tree::get(table, "package"@) {
        version_set_once(package, next);
        tree::child_stays(with_package_version(table, next), "package"@);
    }
}

/// After the version of a manifest was set, its package and the packages of the workspace
/// state that version wherever they stated one. Every other key is as it was.
pub proof fn versioned_manifest_states_version(manifest: Tree, next: Seq<char>)
    requires
        tree::well_formed(manifest),
    ensures
        ({
            let after = versioned_manifest(manifest, next);
            &&& tree::well_formed(after)
            &&& states_version(tree::get(manifest, "package"@)) ==> tree::get(
                tree::get(after, "package"@)->0,
                "version"@,
            ) == Some(Tree::Text(next, Form::Plain))
            &&& !states_version(tree::get(manifest, "package"@)) ==> tree::get(after, "package"@)
                == tree::get(manifest, "package"@)
            &&& states_version(workspace_package(manifest)) ==> tree::get(
                workspace_package(after)->0,
                "version"@,
            ) == Some(Tree::Text(next, Form::Plain))
            &&& !states_version(workspace_package(manifest)) ==> tree::get(after, "workspace"@)
                == tree::get(manifest, "workspace"@)
            &&& forall|other: Seq<char>|
                other != "package"@ && other != "workspace"@ ==> #[trigger] tree::get(after, other)
                    == tree::get(manifest, other)
        }),
{
    let first = with_package_version(manifest, next);
    package_version_looked_up(manifest, next);
    if let Some(Tree::Table(entries, _)) = tree::get(manifest, "package"@) {
        tree::put_looked_up(entries, "version"@, Tree::Text(next, Form::Plain));
    }
    assert(tree::get(first, "workspace"@) == tree::get(manifest, "workspace"@));
    if let Some(workspace) = tree::get(first, "workspace"@) {
        tree::child_looked_up(first, "workspace"@, workspace);
        package_version_looked_up(workspace, next);
        tree::child_looked_up(first, "workspace"@, with_package_version(workspace, next));
        match tree::get(workspace, "package"@) {
            Some(package) => {
                tree::child_stays(workspace, "package"@);
                if let Tree::Table(entries, _) = package {
                    tree::put_looked_up(entries, "version"@, Tree::Text(next, Form::Plain));
                }
            },
            None => {},
        }
    }
    let after = versioned_manifest(manifest, next);
    assert forall|other: Seq<char>| other != "package"@ && other != "workspace"@ implies
        #[trigger] tree::get(after, other) == tree::get(manifest, other) by {
        assert(tree::get(first, other) == tree::get(manifest, other));
    }
}

/// Setting the version of a manifest a second time changes nothing.
pub proof fn versioning_twice_is_versioning_once(manifest: Tree, next: Seq<char>)
    requires
        tree::well_formed(manifest),
    ensures
        ({
            let once = versioned_manifest(manifest, next);
            versioned_manifest(once, next) == once
        }),
{
    let first = with_package_version(manifest, next);
    let once = versioned_manifest(manifest, next);
    package_version_looked_up(manifest, next);
    package_version_set_once(manifest, next);
    versioned_manifest_states_version(manifest, next);
    assert(tree::get(first, "workspace"@) == tree::get(manifest, "workspace"@));
    if let Some(workspace) = tree::get(first, "workspace"@) {
        tree::child_looked_up(first, "workspace"@, workspace);
        tree::child_looked_up(first, "workspace"@, with_package_version(workspace, next));
        package_version_set_once(workspace, next);
        tree::child_stays(once, "workspace"@);
        assert(tree::get(once, "package"@) == tree::get(first, "package"@));
    }
    if let Some(package) = tree::get(manifest, "package"@) {
        version_set_once(package, next);
        tree::child_stays(once, "package"@);
    }
}

/// The manifests of the plans whose versions were set.
pub open spec fn changed_manifests(plans: Seq<CrateReleasePlan>, changed: Seq<bool>) -> Seq<
    Seq<char>,
>
    decreases plans.len(),
{
    if plans.len() == 0 {
        Seq::empty()
    } else {
        let before = changed_manifests(plans.drop_last(), changed.drop_last());
        if changed.last() {
            before.push(plans.last().manifest_path@)
        } else {
            before
        }
    }
}

/// The manifests of the plans whose versions were set, in order and each once.
pub fn set_crate_versions(plans: &Vec<CrateReleasePlan>, changed: &Vec<bool>) -> (result: Vec<
    String,
>)
    requires
        changed.len() == plans.len(),
    ensures
        path::sorted_paths(changed_manifests(plans@, changed@), text::texts(result@)),
{
    let mut list: Vec<String> = Vec::new();
    let mut i: usize = 0;
    assert(text::texts(list@) =~= changed_manifests(plans@.take(0), changed@.take(0)));
    while i < plans.len()
        invariant
            i <= plans.len(),
            changed.len() == plans.len(),
            text::texts(list@) == changed_manifests(
                plans@.take(i as int),
                changed@.take(i as int),
            ),
        decreases plans.len() - i,
    {
        proof {
            assert(plans@.take(i + 1).drop_last() =~= plans@.take(i as int));
            assert(changed@.take(i + 1).drop_last() =~= changed@.take(i as int));
        }
        if changed[i] {
            let ghost before = list@;
            list.push(plans[i].manifest_path.clone());
            assert(text::texts(list@) =~= text::texts(before).push(
                plans@[i as int].manifest_path@,
            ));
        }
        i += 1;
    }
    assert(plans@.take(i as int) =~= plans@);
    assert(changed@.take(i as int) =~= changed@);
    path::sort_paths(&list)
}

/// The version that the plans want for a package of the lockfile, where it has another.
pub open spec fn locked_version_wanted(package: Tree, plans: Seq<CrateReleasePlan>) -> Option<
    Seq<char>,
> {
    match tree::text_in(tree::get(package, "name"@)) {
        Some(name) => match plan::first_plan_named(plans, name) {
            Some(i) => {
                let next = version::version_text(plans[i].plan.next_version@);
                if tree::text_in(tree::get(package, "version"@)) == Some(next) {
                    None
                } else {
                    Some(next)
                }
            },
            None => None,
        },
        None => None,
    }
}

/// A package of the lockfile with the version that the plans want for it.
pub open spec fn locked_package(package: Tree, plans: Seq<CrateReleasePlan>) -> Tree {
    match locked_version_wanted(package, plans) {
        Some(next) => Tree::Table(
            tree::put(
                tree::entries_in(Some(package)),
                "version"@,
                Tree::Text(next, Form::Plain),
            ),
            package->Table_1,
        ),
        None => package,
    }
}

/// The packages of a lockfile.
pub open spec fn locked_packages(lockfile: Tree) -> Seq<Tree> {
    match tree::get(lockfile, "package"@) {
        Some(Tree::Tables(list)) => list,
        _ => Seq::empty(),
    }
}

/// A package of the lockfile has another version than the plans want for it.
pub open spec fn lockfile_outdated(lockfile: Tree, plans: Seq<CrateReleasePlan>) -> bool {
    exists|i: int|
        0 <= i < locked_packages(lockfile).len() && locked_version_wanted(
            #[trigger] locked_packages(lockfile)[i],
            plans,
        ) is Some
}

/// A lockfile with the versions that the plans want for its packages.
pub open spec fn updated_lockfile(lockfile: Tree, plans: Seq<CrateReleasePlan>) -> Tree {
    match tree::get(lockfile, "package"@) {
        Some(Tree::Tables(list)) => tree::with_child(
            lockfile,
            "package"@,
            Tree::Tables(list.map_values(|package: Tree| locked_package(package, plans))),
        ),
        _ => lockfile,
    }
}

/// Gives a package of the lockfile the version that the plans want for it, and says
/// whether it had another.
fn update_locked_package(package: &mut toml_edit::Item, plans: &Vec<CrateReleasePlan>) -> (changed:
    bool)
    requires
        document::item_tree(*old(package)) is Table,
        tree::well_formed(document::item_tree(*old(package))),
    ensures
        document::item_tree(*final(package)) == locked_package(
            document::item_tree(*old(package)),
            plans@,
        ),
        changed == (locked_version_wanted(document::item_tree(*old(package)), plans@) is Some),
{
    let value = document::read_item(package);
    proof {
        tree::bare_looked_up(document::item_tree(*package), "name"@);
        tree::bare_looked_up(document::item_tree(*package), "version"@);
    }
    let name = match value.text_at("name") {
        Some(name) => name,
        None => {
            return false;
        },
    };
    let at: usize = match plan::find_plan(plans, name.as_str()) {
        Some(at) => at,
        None => {
            return false;
        },
    };
    let next_version = plans[at].plan.next_version.to_text();
    if let Some(current) = value.text_at("version") {
        if text::same_text(current.as_str(), next_version.as_str()) {
            return false;
        }
    }
    document::insert_text(package, "version", next_version.as_str());
    true
}

/// Gives the packages of the lockfile the versions that the plans want for them, and says
/// whether one had another.
fn update_locked_packages(item: &mut toml_edit::Item, plans: &Vec<CrateReleasePlan>) -> (changed:
    bool)
    requires
        tree::well_formed(document::item_tree(*old(item))),
    ensures
        match document::item_tree(*old(item)) {
            Tree::Tables(list) => {
                &&& document::item_tree(*final(item)) == Tree::Tables(
                    list.map_values(|package: Tree| locked_package(package, plans@)),
                )
                &&& changed == exists|i: int|
                    0 <= i < list.len() && locked_version_wanted(
                        #[trigger] list[i],
                        plans@,
                    ) is Some
            },
            other => document::item_tree(*final(item)) == other && !changed,
        },
{
    let value = document::read_item(item);
    proof {
        tree::entries_read(value, document::item_tree(*item));
    }
    let mut changed = false;
    match value {
        TomlValue::Tables(packages) => {
            let ghost list = document::item_tree(*item)->Tables_0;
            let ghost wanted = list.map_values(|package: Tree| locked_package(package, plans@));
            let mut i: usize = 0;
            assert(list =~= wanted.take(0) + list.skip(0));
            while i < packages.len()
                invariant
                    i <= packages.len() == list.len(),
                    tree::well_formed(Tree::Tables(list)),
                    wanted == list.map_values(|package: Tree| locked_package(package, plans@)),
                    document::item_tree(*item) == Tree::Tables(
                        wanted.take(i as int) + list.skip(i as int),
                    ),
                    tree::well_formed(document::item_tree(*item)),
                    changed == exists|k: int|
                        0 <= k < i && locked_version_wanted(#[trigger] list[k], plans@) is Some,
                decreases packages.len() - i,
            {
                let ghost now = wanted.take(i as int) + list.skip(i as int);
                proof {
                    assert(now[i as int] == list[i as int]);
                    assert(tree::well_formed(list[i as int]));
                    let entries = tree::entries_in(Some(list[i as int]));
                    if let Some(next) = locked_version_wanted(list[i as int], plans@) {
                        tree::put_looked_up(entries, "version"@, Tree::Text(next, Form::Plain));
                    }
                    assert(tree::well_formed(wanted[i as int]));
                }
                let package = document::element_mut(item, i);
                let stale = update_locked_package(package, plans);
                proof {
                    let after = wanted.take(i + 1) + list.skip(i + 1);
                    assert(now.update(i as int, wanted[i as int]) =~= after);
                    assert forall|k: int| #![trigger after[k]] 0 <= k < after.len() implies after[k]
                        is Table && tree::well_formed(after[k]) by {
                        if k != i {
                            assert(after[k] == now[k]);
                        }
                    }
                }
                if stale {
                    changed = true;
                }
                i += 1;
            }
            assert(wanted.take(i as int) + list.skip(i as int) =~= wanted);
        },
        _ => {},
    }
    changed
}

/// The text of a lockfile with the versions that the plans want for its packages, where
/// one had another and the text is another one then; or why it is not TOML.
pub open spec fn new_lockfile(original: Seq<char>, plans: Seq<CrateReleasePlan>) -> Result<
    Option<Seq<char>>,
    Seq<char>,
> {
    match document::toml_edit_parse(original) {
        Ok(lockfile) => {
            let written = document::document_text(updated_lockfile(lockfile, plans));
            if lockfile_outdated(lockfile, plans) && written != original {
                Ok(Some(written))
            } else {
                Ok(None)
            }
        },
        Err(message) => Err(message),
    }
}

/// Gives the packages of a lockfile the versions that the plans want for them. There is a
/// text to write where a package had another version and the new text differs from the
/// old one. `shown_path` is how an error names the file.
pub fn set_lockfile_versions(
    original: &str,
    shown_path: &str,
    plans: &Vec<CrateReleasePlan>,
) -> (result: Result<Option<String>, ReleaseError>)
    ensures
        match new_lockfile(original@, plans@) {
            Ok(written) => result matches Ok(found) && text::maybe_text(found) == written,
            Err(message) => result matches Err(ReleaseError::InvalidManifest { path, detail })
                && path@ == shown_path@ && detail@ == message,
        },
{
    let mut lockfile = match document::parse_document(original) {
        Ok(lockfile) => lockfile,
        Err(detail) => {
            return Err(ReleaseError::InvalidManifest { path: shown_path.to_owned(), detail });
        },
    };
    let ghost before = document::document_tree(lockfile);
    proof {
        tree::position_found(before->Table_0, "package"@);
    }
    let changed = match document::entry_mut(&mut lockfile, "package") {
        Some(packages) => update_locked_packages(packages, plans),
        None => false,
    };
    if !changed {
        return Ok(None);
    }
    let rendered = document::render_document(&lockfile);
    if text::same_text(rendered.as_str(), original) {
        return Ok(None);
    }
    Ok(Some(rendered))
}

/// A package that got the version that the plans want for it wants no other, and only its
/// version changed.
proof fn locked_package_settles(package: Tree, plans: Seq<CrateReleasePlan>)
    requires
        package is Table,
        tree::well_formed(package),
    ensures
        ({
            let after = locked_package(package, plans);
            &&& after is Table
            &&& tree::well_formed(after)
            &&& locked_version_wanted(after, plans) is None
            &&& locked_version_wanted(package, plans) matches Some(next) ==> tree::get(
                after,
                "version"@,
            ) == Some(Tree::Text(next, Form::Plain))
            &&& forall|other: Seq<char>|
                other != "version"@ ==> #[trigger] tree::get(after, other) == tree::get(
                    package,
                    other,
                )
        }),
{
    reveal_strlit("version");
    reveal_strlit("name");
    assert("version"@.len() == 7);
    assert("name"@.len() == 4);
    if let Some(next) = locked_version_wanted(package, plans) {
        tree::put_looked_up(package->Table_0, "version"@, Tree::Text(next, Form::Plain));
        let after = locked_package(package, plans);
        assert(tree::get(after, "name"@) == tree::get(package, "name"@));
    }
}

/// An updated lockfile holds the packages that it held, each with the version that the
/// plans want for it and with nothing else changed. Its other keys are as they were, and
/// it is not outdated.
pub proof fn updated_lockfile_is_current(lockfile: Tree, plans: Seq<CrateReleasePlan>)
    requires
        tree::well_formed(lockfile),
    ensures
        ({
            let before = locked_packages(lockfile);
            let updated = updated_lockfile(lockfile, plans);
            let after = locked_packages(updated);
            &&& tree::well_formed(updated)
            &&& !lockfile_outdated(updated, plans)
            &&& after.len() == before.len()
            &&& forall|i: int|
                0 <= i < before.len() ==> {
                    &&& #[trigger] after[i] == locked_package(before[i], plans)
                    &&& locked_version_wanted(before[i], plans) matches Some(next) ==> tree::get(
                        after[i],
                        "version"@,
                    ) == Some(Tree::Text(next, Form::Plain))
                }
            &&& forall|i: int, other: Seq<char>|
                0 <= i < before.len() && other != "version"@ ==> #[trigger] tree::get(
                    after[i],
                    other,
                ) == tree::get(before[i], other)
            &&& forall|other: Seq<char>|
                other != "package"@ ==> #[trigger] tree::get(updated, other) == tree::get(
                    lockfile,
                    other,
                )
        }),
{
    let updated = updated_lockfile(lockfile, plans);
    if let Some(Tree::Tables(list)) = tree::get(lockfile, "package"@) {
        let wanted = list.map_values(|package: Tree| locked_package(package, plans));
        tree::child_looked_up(lockfile, "package"@, Tree::Tables(wanted));
        assert(tree::well_formed(Tree::Tables(list)));
        assert forall|i: int| #![trigger wanted[i]] 0 <= i < wanted.len() implies {
            &&& wanted[i] is Table
            &&& tree::well_formed(wanted[i])
            &&& locked_version_wanted(wanted[i], plans) is None
            &&& locked_version_wanted(list[i], plans) matches Some(next) ==> tree::get(
                wanted[i],
                "version"@,
            ) == Some(Tree::Text(next, Form::Plain))
        } by {
            assert(tree::well_formed(list[i]));
            locked_package_settles(list[i], plans);
        }
        assert forall|i: int, other: Seq<char>|
            0 <= i < list.len() && other != "version"@ implies #[trigger] tree::get(
            wanted[i],
            other,
        ) == tree::get(list[i], other) by {
            assert(tree::well_formed(list[i]));
            locked_package_settles(list[i], plans);
        }
        assert(tree::well_formed(Tree::Tables(wanted)));
        assert(locked_packages(updated) == wanted);
    }
}

/// A lockfile that is not outdated stays as it is; so updating a lockfile a second time
/// changes nothing.
pub proof fn current_lockfile_stays(lockfile: Tree, plans: Seq<CrateReleasePlan>)
    requires
        !lockfile_outdated(lockfile, plans),
    ensures
        updated_lockfile(lockfile, plans) == lockfile,
{
    if let Some(Tree::Tables(list)) = tree::get(lockfile, "package"@) {
        let wanted = list.map_values(|package: Tree| locked_package(package, plans));
        assert forall|i: int| 0 <= i < list.len() implies #[trigger] wanted[i] == list[i] by {
            assert(locked_version_wanted(locked_packages(lockfile)[i], plans) is None);
        }
        assert(wanted =~= list);
        tree::child_stays(lockfile, "package"@);
    }
}

/// Setting the version of a manifest leaves its dependencies on crates of the workspace as
/// they are.
pub proof fn versioning_keeps_dependencies(workspace: Workspace, manifest: Tree, next: Seq<char>)
    requires
        tree::well_formed(manifest),
    ensures
        requirements::manifest_edges(workspace, versioned_manifest(manifest, next))
            == requirements::manifest_edges(workspace, manifest),
{
    settling::keys_are_different();
    reveal_strlit("version");
    reveal_strlit("name");
    assert("version"@.len() == 7);
    assert("name"@.len() == 4);
    let first = with_package_version(manifest, next);
    let after = versioned_manifest(manifest, next);
    versioned_manifest_states_version(manifest, next);
    package_version_looked_up(manifest, next);
    assert(tree::get(first, "workspace"@) == tree::get(manifest, "workspace"@));
    if let Some(table) = tree::get(first, "workspace"@) {
        tree::child_looked_up(first, "workspace"@, table);
        package_version_looked_up(table, next);
        let changed = with_package_version(table, next);
        tree::child_looked_up(first, "workspace"@, changed);
        assert(tree::get(changed, "dependencies"@) == tree::get(table, "dependencies"@));
        assert(tree::get(after, "package"@) == tree::get(first, "package"@));
    }
    if let Some(package) = tree::get(manifest, "package"@) {
        if let Tree::Table(entries, _) = package {
            tree::put_looked_up(entries, "version"@, Tree::Text(next, Form::Plain));
        }
        assert(tree::get(with_version(package, next), "name"@) == tree::get(package, "name"@));
    }
    assert(tree::get(after, "dependencies"@) == tree::get(manifest, "dependencies"@));
    assert(tree::get(after, "dev-dependencies"@) == tree::get(manifest, "dev-dependencies"@));
    assert(tree::get(after, "build-dependencies"@) == tree::get(manifest, "build-dependencies"@));
    assert(tree::get(after, "target"@) == tree::get(manifest, "target"@));
    assert(requirements::owner_of(workspace.crates, after) == requirements::owner_of(
        workspace.crates,
        manifest,
    ));
}

/// Rewriting the requirements of a manifest leaves the versions that it states as they are.
pub proof fn rewriting_keeps_versions(
    workspace: Workspace,
    manifest: Tree,
    next: Seq<Option<Seq<char>>>,
)
    requires
        tree::well_formed(manifest),
        requirements::manifest_edges(workspace, manifest).len() == next.len(),
    ensures
        ({
            let after = requirements::rewritten_manifest(workspace, manifest, next);
            &&& tree::get(after, "package"@) == tree::get(manifest, "package"@)
            &&& workspace_package(after) == workspace_package(manifest)
        }),
{
    settling::keys_are_different();
    settling::rewriting_settles(workspace, manifest, next);
    let after = requirements::rewritten_manifest(workspace, manifest, next);
    assert(settling::workspace_value(after, "package"@) == settling::workspace_value(
        manifest,
        "package"@,
    ));
}

/// Setting the version of a manifest again changes nothing: where what was written is read
/// back as a manifest that is written the same once its version is set, there is no text
/// to write.
pub proof fn second_version_changes_nothing(
    original: Seq<char>,
    next: Seq<char>,
    manifest: Tree,
    written: Seq<char>,
    again: Tree,
)
    requires
        document::toml_edit_parse(original) == Ok::<Tree, Seq<char>>(manifest),
        tree::well_formed(manifest),
        new_manifest(original, next) == Ok::<Option<Seq<char>>, Seq<char>>(Some(written)),
        document::toml_edit_parse(written) == Ok::<Tree, Seq<char>>(again),
        document::document_text(versioned_manifest(again, next)) == document::document_text(
            versioned_manifest(versioned_manifest(manifest, next), next),
        ),
    ensures
        new_manifest(written, next) == Ok::<Option<Seq<char>>, Seq<char>>(None),
{
    versioning_twice_is_versioning_once(manifest, next);
}

/// The package has the name and the version of one in the list.
pub open spec fn named_among(package: Tree, list: Seq<Tree>) -> bool {
    exists|i: int|
        0 <= i < list.len() && tree::text_in(tree::get(#[trigger] list[i], "name"@))
            == tree::text_in(tree::get(package, "name"@)) && tree::text_in(
            tree::get(list[i], "version"@),
        ) == tree::text_in(tree::get(package, "version"@))
}

/// Updating a lockfile again changes nothing: where what was written is read back with no
/// other names and versions, there is no text to write.
pub proof fn second_update_changes_nothing(
    original: Seq<char>,
    plans: Seq<CrateReleasePlan>,
    lockfile: Tree,
    written: Seq<char>,
    again: Tree,
)
    requires
        document::toml_edit_parse(original) == Ok::<Tree, Seq<char>>(lockfile),
        tree::well_formed(lockfile),
        new_lockfile(original, plans) == Ok::<Option<Seq<char>>, Seq<char>>(Some(written)),
        document::toml_edit_parse(written) == Ok::<Tree, Seq<char>>(again),
        forall|i: int|
            0 <= i < locked_packages(again).len() ==> named_among(
                #[trigger] locked_packages(again)[i],
                locked_packages(updated_lockfile(lockfile, plans)),
            ),
    ensures
        new_lockfile(written, plans) == Ok::<Option<Seq<char>>, Seq<char>>(None),
{
    updated_lockfile_is_current(lockfile, plans);
    let updated = locked_packages(updated_lockfile(lockfile, plans));
    assert forall|i: int| 0 <= i < locked_packages(again).len() implies locked_version_wanted(
        #[trigger] locked_packages(again)[i],
        plans,
    ) is None by {
        let package = locked_packages(again)[i];
        assert(named_among(package, updated));
        let k = choose|k: int|
            0 <= k < updated.len() && tree::text_in(tree::get(#[trigger] updated[k], "name"@))
                == tree::text_in(tree::get(package, "name"@)) && tree::text_in(
                tree::get(updated[k], "version"@),
            ) == tree::text_in(tree::get(package, "version"@));
        assert(locked_version_wanted(updated[k], plans) is None);
    }
}

} // verus!
