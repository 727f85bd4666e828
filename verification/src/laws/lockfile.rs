//! The versions in the lockfile and in manifests.

use crate::document;
use crate::error::ReleaseError;
use crate::laws::planning;
use crate::plan;
use crate::plan::CrateReleasePlan;
use crate::text;
use crate::tree;
use crate::tree::{Form, Tree};
use crate::version;
use crate::version::Version;
use crate::versions;
use vstd::prelude::*;

verus! {

/// The package is the one at `k` in the lockfile.
pub open spec fn package_at(lockfile: Tree, k: int, package: Tree) -> bool {
    tree::get(lockfile, "package"@) matches Some(Tree::Tables(list)) && 0 <= k < list.len()
        && list[k] == package
}

/// The plan at `i` is the first of the name.
pub open spec fn first_plan(plans: Seq<CrateReleasePlan>, name: Seq<char>, i: int) -> bool {
    &&& 0 <= i < plans.len()
    &&& plans[i].crate_name@ == name
    &&& forall|j: int| 0 <= j < i ==> (#[trigger] plans[j]).crate_name@ != name
}

/// After an update every package of the lockfile that a plan names states the next version
/// of the first plan of its name, whatever else the plan holds, and is still there under
/// its name at its place.
pub proof fn named_packages_get_the_planned_version(
    lockfile: Tree,
    plans: Seq<CrateReleasePlan>,
    k: int,
    package: Tree,
    i: int,
)
    requires
        tree::well_formed(lockfile),
        package_at(lockfile, k, package),
        tree::text_in(tree::get(package, "name"@)) matches Some(name) && first_plan(
            plans,
            name,
            i,
        ),
    ensures
        exists|after: Tree|
            {
                &&& #[trigger] package_at(versions::updated_lockfile(lockfile, plans), k, after)
                &&& tree::text_in(tree::get(after, "version"@)) == Some(
                    version::version_text(plans[i].plan.next_version@),
                )
                &&& forall|other: Seq<char>|
                    other != "version"@ ==> #[trigger] tree::get(after, other) == tree::get(
                        package,
                        other,
                    )
            },
{
    let name = tree::text_in(tree::get(package, "name"@))->0;
    planning::first_plan_is_found(plans, name, i);
    versions::updated_lockfile_is_current(lockfile, plans);
    let updated = versions::updated_lockfile(lockfile, plans);
    let list = tree::get(lockfile, "package"@)->0->Tables_0;
    let wanted = list.map_values(|entry: Tree| versions::locked_package(entry, plans));
    tree::child_looked_up(lockfile, "package"@, Tree::Tables(wanted));
    let after = wanted[k];
    assert(versions::locked_packages(updated)[k] == after);
    assert(versions::locked_packages(lockfile)[k] == package);
    assert(package_at(updated, k, after));
    let next = version::version_text(plans[i].plan.next_version@);
    if tree::text_in(tree::get(package, "version"@)) != Some(next) {
        assert(tree::get(after, "version"@) == Some(Tree::Text(next, Form::Plain)));
    }
    assert forall|other: Seq<char>| other != "version"@ implies #[trigger] tree::get(after, other)
        == tree::get(package, other) by {
        assert(tree::get(versions::locked_packages(updated)[k], other) == tree::get(
            versions::locked_packages(lockfile)[k],
            other,
        ));
    }
}

/// A package that no plan names stays as it is, and so does one without a name.
pub proof fn other_packages_stay(
    lockfile: Tree,
    plans: Seq<CrateReleasePlan>,
    k: int,
    package: Tree,
)
    requires
        tree::well_formed(lockfile),
        package_at(lockfile, k, package),
        forall|i: int|
            0 <= i < plans.len() ==> tree::text_in(tree::get(package, "name"@)) != Some(
                (#[trigger] plans[i]).crate_name@,
            ),
    ensures
        package_at(versions::updated_lockfile(lockfile, plans), k, package),
{
    if let Some(name) = tree::text_in(tree::get(package, "name"@)) {
        assert forall|j: int| 0 <= j < plans.len() implies (#[trigger] plans[j]).crate_name@
            != name by {
            assert(tree::text_in(tree::get(package, "name"@)) != Some(plans[j].crate_name@));
        }
        planning::no_plan_is_found(plans, name);
    }
    let list = tree::get(lockfile, "package"@)->0->Tables_0;
    let wanted = list.map_values(|entry: Tree| versions::locked_package(entry, plans));
    tree::child_looked_up(lockfile, "package"@, Tree::Tables(wanted));
    assert(wanted[k] == package);
}

/// A lockfile needs no update exactly where every package that a plan names states the next
/// version of the first plan of its name.
pub proof fn a_lockfile_is_outdated_by_other_versions(
    lockfile: Tree,
    plans: Seq<CrateReleasePlan>,
)
    ensures
        versions::lockfile_outdated(lockfile, plans) <==> exists|
            k: int,
            package: Tree,
            name: Seq<char>,
            i: int,
        |
            {
                &&& #[trigger] package_at(lockfile, k, package)
                &&& tree::text_in(tree::get(package, "name"@)) == Some(name)
                &&& #[trigger] first_plan(plans, name, i)
                &&& tree::text_in(tree::get(package, "version"@)) != Some(
                    version::version_text(plans[i].plan.next_version@),
                )
            },
{
    let list = versions::locked_packages(lockfile);
    if versions::lockfile_outdated(lockfile, plans) {
        let k = choose|k: int|
            0 <= k < list.len() && versions::locked_version_wanted(
                #[trigger] list[k],
                plans,
            ) is Some;
        let package = list[k];
        let name = tree::text_in(tree::get(package, "name"@))->0;
        found_plan_is_the_first(plans, name);
        let i = plan::first_plan_named(plans, name)->0;
        assert(package_at(lockfile, k, package));
        assert(first_plan(plans, name, i));
    }
    if exists|k: int, package: Tree, name: Seq<char>, i: int|
        {
            &&& #[trigger] package_at(lockfile, k, package)
            &&& tree::text_in(tree::get(package, "name"@)) == Some(name)
                &&& #[trigger] first_plan(plans, name, i)
            &&& tree::text_in(tree::get(package, "version"@)) != Some(
                version::version_text(plans[i].plan.next_version@),
            )
        } {
        let (k, package, name, i) = choose|k: int, package: Tree, name: Seq<char>, i: int|
            {
                &&& #[trigger] package_at(lockfile, k, package)
                &&& tree::text_in(tree::get(package, "name"@)) == Some(name)
                &&& #[trigger] first_plan(plans, name, i)
                &&& tree::text_in(tree::get(package, "version"@)) != Some(
                    version::version_text(plans[i].plan.next_version@),
                )
            };
        planning::first_plan_is_found(plans, name, i);
        assert(list[k] == package);
        assert(versions::locked_version_wanted(list[k], plans) is Some);
    }
}

/// A plan that is found for a name is the first of the name.
pub proof fn found_plan_is_the_first(plans: Seq<CrateReleasePlan>, name: Seq<char>)
    ensures
        match plan::first_plan_named(plans, name) {
            Some(i) => first_plan(plans, name, i),
            None => forall|j: int|
                0 <= j < plans.len() ==> (#[trigger] plans[j]).crate_name@ != name,
        },
    decreases plans.len(),
{
    if plans.len() > 0 && plans.first().crate_name@ != name {
        let rest = plans.drop_first();
        found_plan_is_the_first(rest, name);
        assert forall|j: int|
            0 <= j < plans.len() && (plan::first_plan_named(plans, name) matches Some(
                i,
            ) ==> j < i) implies (#[trigger] plans[j]).crate_name@ != name by {
            if j > 0 {
                assert(rest[j - 1] == plans[j]);
            }
        }
    }
}

/// A lockfile with an outdated package gives a new text, which is the updated lockfile
/// written out, unless the text stays the same; any other lockfile gives none.
pub proof fn outdated_lockfiles_are_written_anew(
    original: &str,
    shown_path: &str,
    plans: &Vec<CrateReleasePlan>,
    lockfile: Tree,
    result: Result<Option<String>, ReleaseError>,
)
    requires
        call_ensures(versions::set_lockfile_versions, (original, shown_path, plans), result),
        document::toml_edit_parse(original@) == Ok::<Tree, Seq<char>>(lockfile),
    ensures
        ({
            let written = document::document_text(versions::updated_lockfile(lockfile, plans@));
            if versions::lockfile_outdated(lockfile, plans@) && written != original@ {
                result matches Ok(Some(content)) && content@ == written
            } else {
                result matches Ok(None)
            }
        }),
{
}

/// Every manifest whose package, or whose workspace for its packages, states a version gets
/// the new one there, and a version that is not stated is not added.
pub proof fn stated_versions_are_set(manifest: Tree, next: Seq<char>)
    requires
        tree::well_formed(manifest),
    ensures
        ({
            let after = versions::versioned_manifest(manifest, next);
            &&& tree::get(manifest, "package"@) matches Some(package) ==> {
                &&& tree::get(after, "package"@) matches Some(changed)
                &&& tree::get(package, "version"@) is Some ==> tree::get(changed, "version"@)
                    == Some(Tree::Text(next, Form::Plain))
                &&& tree::get(package, "version"@) is None ==> changed == package
                &&& forall|other: Seq<char>|
                    other != "version"@ ==> #[trigger] tree::get(changed, other) == tree::get(
                        package,
                        other,
                    )
            }
            &&& tree::get(manifest, "workspace"@) matches Some(workspace) ==> {
                &&& tree::get(after, "workspace"@) matches Some(changed)
                &&& tree::get(workspace, "package"@) matches Some(package) ==> {
                    &&& tree::get(changed, "package"@) matches Some(inner)
                    &&& tree::get(package, "version"@) is Some ==> tree::get(inner, "version"@)
                        == Some(Tree::Text(next, Form::Plain))
                    &&& tree::get(package, "version"@) is None ==> inner == package
                }
                &&& tree::get(workspace, "package"@) is None ==> changed == workspace
            }
            &&& forall|other: Seq<char>|
                other != "package"@ && other != "workspace"@ ==> #[trigger] tree::get(after, other)
                    == tree::get(manifest, other)
        }),
{
    versions::versioned_manifest_states_version(manifest, next);
    versions::package_version_looked_up(manifest, next);
    let first = versions::with_package_version(manifest, next);
    let after = versions::versioned_manifest(manifest, next);
    assert(tree::get(first, "workspace"@) == tree::get(manifest, "workspace"@));
    if let Some(package) = tree::get(manifest, "package"@) {
        if let Tree::Table(entries, _) = package {
            tree::put_looked_up(entries, "version"@, Tree::Text(next, Form::Plain));
        }
    }
    if let Some(workspace) = tree::get(manifest, "workspace"@) {
        tree::child_looked_up(first, "workspace"@, workspace);
        versions::package_version_looked_up(workspace, next);
        let changed = versions::with_package_version(workspace, next);
        tree::child_looked_up(first, "workspace"@, changed);
        assert(tree::get(after, "workspace"@) == Some(changed));
        assert(tree::get(after, "package"@) == tree::get(first, "package"@));
        if let Some(package) = tree::get(workspace, "package"@) {
            if let Tree::Table(entries, _) = package {
                tree::put_looked_up(entries, "version"@, Tree::Text(next, Form::Plain));
            }
        }
    }
}

/// A manifest that states a version, for its package or for those of the workspace, gives a
/// new text, which is the manifest with that version written out, unless the text stays the
/// same; any other manifest gives none.
pub proof fn manifests_with_a_version_are_written_anew(
    original: &str,
    shown_path: &str,
    next: &Version,
    manifest: Tree,
    result: Result<Option<String>, ReleaseError>,
)
    requires
        call_ensures(versions::set_manifest_version, (original, shown_path, next), result),
        document::toml_edit_parse(original@) == Ok::<Tree, Seq<char>>(manifest),
    ensures
        ({
            let written = document::document_text(
                versions::versioned_manifest(manifest, version::version_text(next@)),
            );
            let stated = (tree::get(manifest, "package"@) matches Some(package) && tree::get(
                package,
                "version"@,
            ) is Some) || (tree::get(manifest, "workspace"@) matches Some(workspace)
                && tree::get(workspace, "package"@) matches Some(package) && tree::get(
                package,
                "version"@,
            ) is Some);
            if stated && written != original@ {
                result matches Ok(Some(content)) && content@ == written
            } else {
                result matches Ok(None)
            }
        }),
{
}

/// A file that is not TOML is reported under its path, with the message of the parser.
pub proof fn faulty_files_are_reported(
    original: &str,
    shown_path: &str,
    next: &Version,
    plans: &Vec<CrateReleasePlan>,
    message: Seq<char>,
    manifest: Result<Option<String>, ReleaseError>,
    lockfile: Result<Option<String>, ReleaseError>,
)
    requires
        call_ensures(versions::set_manifest_version, (original, shown_path, next), manifest),
        call_ensures(versions::set_lockfile_versions, (original, shown_path, plans), lockfile),
        document::toml_edit_parse(original@) == Err::<Tree, Seq<char>>(message),
    ensures
        manifest matches Err(ReleaseError::InvalidManifest { path, detail })
            && path@ == shown_path@ && detail@ == message,
        lockfile matches Err(ReleaseError::InvalidManifest { path, detail })
            && path@ == shown_path@ && detail@ == message,
{
}

/// A version is written as its three numbers between dots, the part before a release behind
/// a hyphen and the build behind a plus, each only where it is not empty.
pub proof fn versions_are_written_in_full(version: &Version, result: String)
    requires
        call_ensures(Version::to_text, (version,), result),
    ensures
        result@ == text::decimal(version.major as nat) + seq!['.'] + text::decimal(
            version.minor as nat,
        ) + seq!['.'] + text::decimal(version.patch as nat) + (if version.pre@.len() == 0 {
            Seq::<char>::empty()
        } else {
            seq!['-'] + version.pre@
        }) + (if version.build@.len() == 0 {
            Seq::<char>::empty()
        } else {
            seq!['+'] + version.build@
        }),
{
    assert(result@ =~= text::decimal(version.major as nat) + seq!['.'] + text::decimal(
        version.minor as nat,
    ) + seq!['.'] + text::decimal(version.patch as nat) + (if version.pre@.len() == 0 {
        Seq::<char>::empty()
    } else {
        seq!['-'] + version.pre@
    }) + (if version.build@.len() == 0 {
        Seq::<char>::empty()
    } else {
        seq!['+'] + version.build@
    }));
}

/// An update touches nothing but the packages of a lockfile: every other key is as it was,
/// there are as many packages as before, and where they are not a list of tables the lockfile
/// stays.
pub proof fn only_packages_are_updated(
    lockfile: Tree,
    plans: Seq<CrateReleasePlan>,
    other: Seq<char>,
)
    requires
        tree::well_formed(lockfile),
        other != "package"@,
    ensures
        ({
            let after = versions::updated_lockfile(lockfile, plans);
            &&& tree::get(after, other) == tree::get(lockfile, other)
            &&& match tree::get(lockfile, "package"@) {
                Some(Tree::Tables(list)) => tree::get(after, "package"@) matches Some(
                    Tree::Tables(now),
                ) && now.len() == list.len(),
                _ => after == lockfile,
            }
        }),
{
    if let Some(Tree::Tables(list)) = tree::get(lockfile, "package"@) {
        let now = Tree::Tables(
            list.map_values(|package: Tree| versions::locked_package(package, plans)),
        );
        tree::child_looked_up(lockfile, "package"@, now);
    }
}

/// Setting the version of a manifest touches nothing else of the workspace and of its
/// packages, and adds no table.
pub proof fn only_versions_of_the_workspace_are_set(
    manifest: Tree,
    next: Seq<char>,
    other: Seq<char>,
)
    requires
        tree::well_formed(manifest),
    ensures
        ({
            let after = versions::versioned_manifest(manifest, next);
            &&& tree::get(manifest, "package"@) is None ==> tree::get(after, "package"@) is None
            &&& tree::get(manifest, "workspace"@) is None ==> tree::get(after, "workspace"@) is None
            &&& tree::get(manifest, "workspace"@) matches Some(workspace) ==> {
                &&& tree::get(after, "workspace"@) matches Some(changed)
                &&& other != "package"@ ==> tree::get(changed, other) == tree::get(workspace, other)
                &&& tree::get(workspace, "package"@) is None ==> tree::get(
                    changed,
                    "package"@,
                ) is None
                &&& tree::get(workspace, "package"@) matches Some(package) ==> {
                    &&& tree::get(changed, "package"@) matches Some(inner)
                    &&& other != "version"@ ==> tree::get(inner, other) == tree::get(package, other)
                }
            }
        }),
{
    versions::package_version_looked_up(manifest, next);
    let first = versions::with_package_version(manifest, next);
    if let Some(workspace) = tree::get(manifest, "workspace"@) {
        assert(tree::get(first, "workspace"@) == Some(workspace));
        tree::child_looked_up(
            first,
            "workspace"@,
            versions::with_package_version(workspace, next),
        );
        versions::package_version_looked_up(workspace, next);
        if let Some(package) = tree::get(workspace, "package"@) {
            if let Tree::Table(entries, _) = package {
                tree::put_looked_up(entries, "version"@, Tree::Text(next, Form::Plain));
            }
        }
    }
}

} // verus!
