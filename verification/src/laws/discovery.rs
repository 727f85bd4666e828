//! Finding the crates of a repository.

use crate::document;
use crate::error;
use crate::error::ReleaseError;
use crate::laws::edges;
use crate::laws::planning;
use crate::order;
use crate::order::Ranked;
use crate::path;
use crate::path::Piece;
use crate::plan;
use crate::plan::CrateInfo;
use crate::text;
use crate::text::Rank;
use crate::tree;
use crate::tree::{Form, Tree};
use crate::version;
use crate::version::VersionView;
use crate::workspace;
use crate::workspace::{CrateView, EntryKind, EntryStep, ManifestFault, ManifestFile};
use vstd::prelude::*;

verus! {

/// A package with a name and a semantic version is a crate of that name and version, private
/// exactly where it says that it is not published, and without dependencies yet.
pub proof fn packages_are_crates(
    repo_root: &str,
    manifest_abs: &str,
    raw: &str,
    result: Result<Option<CrateInfo>, ReleaseError>,
    manifest: Tree,
    package: Tree,
    name: Seq<char>,
    number: Seq<char>,
    parsed: VersionView,
)
    requires
        call_ensures(workspace::parse_crate_info, (repo_root, manifest_abs, raw), result),
        document::toml_parse(raw@) == Ok::<Tree, Seq<char>>(manifest),
        tree::get(manifest, "package"@) == Some(package),
        tree::text_in(tree::get(package, "name"@)) == Some(name),
        tree::text_in(tree::get(package, "version"@)) == Some(number),
        version::semver_parse(number) == Ok::<VersionView, Seq<char>>(parsed),
    ensures
        result matches Ok(Some(info)) && {
            &&& info.name@ == name
            &&& info.version@ == parsed
            &&& info.private <==> tree::flag_in(tree::get(package, "publish"@)) == Some(false)
            &&& info.local_dependencies@.len() == 0
        },
{
    if let Ok(Some(info)) = result {
        assert(text::texts(info.local_dependencies@).len() == info.local_dependencies@.len());
    }
}

/// A manifest without a package, or whose package states no name or no version as a text, is
/// not a crate.
pub proof fn other_manifests_are_no_crates(
    repo_root: &str,
    manifest_abs: &str,
    raw: &str,
    result: Result<Option<CrateInfo>, ReleaseError>,
    manifest: Tree,
)
    requires
        call_ensures(workspace::parse_crate_info, (repo_root, manifest_abs, raw), result),
        document::toml_parse(raw@) == Ok::<Tree, Seq<char>>(manifest),
        tree::get(manifest, "package"@) matches Some(package) ==> tree::text_in(
            tree::get(package, "name"@),
        ) is None || tree::text_in(tree::get(package, "version"@)) is None,
    ensures
        result matches Ok(None),
{
}

/// What is not TOML is reported with the path of the manifest and the message of the parser.
pub proof fn faulty_manifests_are_reported(
    repo_root: &str,
    manifest_abs: &str,
    raw: &str,
    result: Result<Option<CrateInfo>, ReleaseError>,
    message: Seq<char>,
)
    requires
        call_ensures(workspace::parse_crate_info, (repo_root, manifest_abs, raw), result),
        document::toml_parse(raw@) == Err::<Tree, Seq<char>>(message),
    ensures
        result matches Err(ReleaseError::InvalidManifest { path, detail }) && path@
            == manifest_abs@ && detail@ == message,
{
}

/// A version of a named package that is not a semantic version is reported with the path of
/// the manifest and the message of the parser.
pub proof fn faulty_versions_are_reported(
    repo_root: &str,
    manifest_abs: &str,
    raw: &str,
    result: Result<Option<CrateInfo>, ReleaseError>,
    manifest: Tree,
    package: Tree,
    number: Seq<char>,
    message: Seq<char>,
)
    requires
        call_ensures(workspace::parse_crate_info, (repo_root, manifest_abs, raw), result),
        document::toml_parse(raw@) == Ok::<Tree, Seq<char>>(manifest),
        tree::get(manifest, "package"@) == Some(package),
        tree::text_in(tree::get(package, "name"@)) is Some,
        tree::text_in(tree::get(package, "version"@)) == Some(number),
        version::semver_parse(number) == Err::<VersionView, Seq<char>>(message),
    ensures
        result matches Err(ReleaseError::InvalidVersion { path, detail }) && path@
            == manifest_abs@ && detail@ == message,
{
}

/// A manifest below the root is named from the root: the root and that path lead to it.
/// Another one is named as it was found.
pub proof fn manifests_are_named_from_the_root(
    repo_root: &str,
    manifest_abs: &str,
    raw: &str,
    info: CrateInfo,
)
    requires
        call_ensures(
            workspace::parse_crate_info,
            (repo_root, manifest_abs, raw),
            Ok::<Option<CrateInfo>, ReleaseError>(Some(info)),
        ),
    ensures
        (exists|rest: Seq<Piece>|
            path::path_of(manifest_abs@) == #[trigger] (path::path_of(repo_root@) + rest))
            ==> path::path_of(repo_root@) + path::path_of(info.manifest_path@) == path::path_of(
            manifest_abs@,
        ),
        !(exists|rest: Seq<Piece>|
            path::path_of(manifest_abs@) == #[trigger] (path::path_of(repo_root@) + rest))
            ==> info.manifest_path@ == manifest_abs@,
{
    let base = path::path_of(repo_root@);
    let whole = path::path_of(manifest_abs@);
    if exists|rest: Seq<Piece>| whole == #[trigger] (base + rest) {
        let rest = choose|rest: Seq<Piece>| whole == #[trigger] (base + rest);
        assert(whole.take(base.len() as int) =~= base);
        workspace::manifest_path_leads_back(repo_root@, manifest_abs@);
    } else if path::under(whole, base) {
        assert(whole =~= base + whole.skip(base.len() as int));
    }
}

/// The directory of a crate is `.` at the root; below it the root and that directory and the
/// name of the manifest lead to the manifest.
pub proof fn directories_are_named_from_the_root(
    repo_root: &str,
    manifest_abs: &str,
    raw: &str,
    info: CrateInfo,
    dir: Seq<Piece>,
    file: Seq<char>,
)
    requires
        call_ensures(
            workspace::parse_crate_info,
            (repo_root, manifest_abs, raw),
            Ok::<Option<CrateInfo>, ReleaseError>(Some(info)),
        ),
        path::path_of(manifest_abs@) == path::path_of(repo_root@) + dir + seq![
            Piece::Normal(file),
        ],
    ensures
        dir.len() == 0 ==> path::path_of(info.crate_dir@) == seq![Piece::Current],
        dir.len() > 0 ==> path::path_of(info.crate_dir@) == dir,
{
    let base = path::path_of(repo_root@);
    let whole = path::path_of(manifest_abs@);
    assert(whole.last() == Piece::Normal(file));
    assert(whole.drop_last() =~= base + dir);
    assert((base + dir).take(base.len() as int) =~= base);
    path::parsed_path_is_proper(manifest_abs@);
    if dir.len() == 0 {
        assert(base + dir =~= base);
        assert(path::proper(path::here()));
        path::path_is_named_by_its_text(path::here());
    } else {
        assert(base + dir != base) by {
            assert((base + dir).len() != base.len());
        }
        assert((base + dir).skip(base.len() as int) =~= dir);
        assert(path::proper(dir)) by {
            assert forall|i: int| 0 <= i < dir.len() implies match #[trigger] dir[i] {
                Piece::Root => i == 0,
                Piece::Current => i == 0,
                Piece::Parent => true,
                Piece::Normal(name) => name.len() > 0 && !name.contains('/') && name != seq!['.']
                    && name != seq!['.', '.'],
            } by {
                assert(whole[base.len() + i] == dir[i]);
            }
        }
        path::path_is_named_by_its_text(dir);
    }
}

/// Where the directory of a manifest is not below the root it is named as it was found, and
/// where there is none it is `.`.
pub proof fn other_directories_are_named_as_found(
    repo_root: &str,
    manifest_abs: &str,
    raw: &str,
    info: CrateInfo,
)
    requires
        call_ensures(
            workspace::parse_crate_info,
            (repo_root, manifest_abs, raw),
            Ok::<Option<CrateInfo>, ReleaseError>(Some(info)),
        ),
    ensures
        ({
            let base = path::path_of(repo_root@);
            let whole = path::path_of(manifest_abs@);
            &&& whole.len() == 0 || whole.last() is Root ==> info.crate_dir@ == seq!['.']
            &&& whole.len() > 0 && !(whole.last() is Root) && !base.is_prefix_of(whole.drop_last())
                ==> info.crate_dir@ == path::path_text(whole.drop_last())
            &&& whole.len() > 0 && !(whole.last() is Root) && base.is_prefix_of(whole.drop_last())
                ==> info.crate_dir@ == if whole.len() == base.len() + 1 {
                seq!['.']
            } else {
                path::path_text(whole.subrange(base.len() as int, whole.len() - 1))
            }
            &&& base.is_prefix_of(whole) ==> info.manifest_path@ == path::path_text(
                whole.subrange(base.len() as int, whole.len() as int),
            )
        }),
{
    let base = path::path_of(repo_root@);
    let whole = path::path_of(manifest_abs@);
    assert(path::path_text(path::here()) =~= seq!['.']);
    if base.len() <= whole.len() {
        assert(whole.take(base.len() as int) =~= whole.subrange(0, base.len() as int));
        assert(whole.skip(base.len() as int) =~= whole.subrange(
            base.len() as int,
            whole.len() as int,
        ));
    }
    if whole.len() > 0 {
        let dir = whole.drop_last();
        if base.len() <= dir.len() {
            assert(dir.take(base.len() as int) =~= dir.subrange(0, base.len() as int));
            assert(dir.skip(base.len() as int) =~= whole.subrange(
                base.len() as int,
                whole.len() - 1,
            ));
            if dir.len() == base.len() {
                assert(dir.take(base.len() as int) =~= dir);
            }
        }
    }
}

/// The crate has what its manifest says, whatever it depends on.
pub open spec fn same_crate(a: CrateInfo, b: CrateInfo) -> bool {
    &&& a.name@ == b.name@
    &&& a.manifest_path@ == b.manifest_path@
    &&& a.crate_dir@ == b.crate_dir@
    &&& a.version@ == b.version@
    &&& a.private == b.private
}

proof fn found_at(root: Seq<char>, files: Seq<ManifestFile>, f: int, info: CrateView) -> (k: int)
    requires
        0 <= f < files.len(),
        workspace::crate_in(root, files[f].path@, files[f].content@) == Ok::<
            Option<CrateView>,
            ManifestFault,
        >(Some(info)),
    ensures
        0 <= k < workspace::crates_found(root, files).len(),
        workspace::crates_found(root, files)[k] == (
            info,
            document::toml_parse(files[f].content@)->Ok_0,
        ),
    decreases files.len(),
{
    let before = workspace::crates_found(root, files.drop_last());
    if f < files.len() - 1 {
        assert(files.drop_last()[f] == files[f]);
        let k = found_at(root, files.drop_last(), f, info);
        assert(workspace::crates_found(root, files)[k] == before[k]);
        k
    } else {
        before.len() as int
    }
}

proof fn found_from(root: Seq<char>, files: Seq<ManifestFile>, k: int) -> (f: int)
    requires
        0 <= k < workspace::crates_found(root, files).len(),
    ensures
        0 <= f < files.len(),
        workspace::crate_in(root, files[f].path@, files[f].content@) == Ok::<
            Option<CrateView>,
            ManifestFault,
        >(Some(workspace::crates_found(root, files)[k].0)),
        document::toml_parse(files[f].content@) == Ok::<Tree, Seq<char>>(
            workspace::crates_found(root, files)[k].1,
        ),
    decreases files.len(),
{
    let before = workspace::crates_found(root, files.drop_last());
    if k < before.len() {
        let f = found_from(root, files.drop_last(), k);
        assert(files.drop_last()[f] == files[f]);
        assert(workspace::crates_found(root, files)[k] == before[k]);
        f
    } else {
        files.len() - 1
    }
}

/// Every manifest that is that of a crate is found, with all that it says of the crate.
pub proof fn every_crate_is_found(
    repo_root: &str,
    files: &Vec<ManifestFile>,
    crates: Vec<CrateInfo>,
    f: int,
    manifest_abs: &str,
    raw: &str,
    info: CrateInfo,
)
    requires
        call_ensures(
            workspace::collect_crates,
            (repo_root, files),
            Ok::<Vec<CrateInfo>, ReleaseError>(crates),
        ),
        0 <= f < files@.len(),
        manifest_abs@ == files@[f].path@,
        raw@ == files@[f].content@,
        call_ensures(
            workspace::parse_crate_info,
            (repo_root, manifest_abs, raw),
            Ok::<Option<CrateInfo>, ReleaseError>(Some(info)),
        ),
    ensures
        exists|k: int| 0 <= k < crates@.len() && same_crate(#[trigger] crates@[k], info),
{
    let found = workspace::crates_found(repo_root@, files@);
    let list = choose|list: Seq<CrateInfo>|
        #![trigger workspace::described(list, found)]
        workspace::described(list, found) && order::sorted_stably(list, crates@);
    let k = found_at(repo_root@, files@, f, info@);
    assert(list[k]@ == (CrateView {
        local_dependencies: list[k]@.local_dependencies,
        ..found[k].0
    }));
    order::sorting_keeps_the_elements(list, crates@);
    assert(crates@.contains(list[k]));
    let n = crates@.index_of(list[k]);
    assert(same_crate(crates@[n], info));
}

/// The dependency is in a section of dependencies of the table.
pub open spec fn in_a_section(table: Tree, name: Seq<char>) -> bool {
    exists|section: Seq<char>, j: int|
        edges::a_section(section) && (tree::get(table, section) matches Some(
            Tree::Table(entries, _),
        ) && 0 <= j < entries.len() && #[trigger] edges::named_crate(
            tree::entries_in(tree::get(table, section))[j].0,
            tree::entries_in(tree::get(table, section))[j].1,
            name,
        ))
}

/// The manifest depends on a crate of the name: in its sections, or in those of a target.
pub open spec fn depends_on(manifest: Tree, name: Seq<char>) -> bool {
    ||| in_a_section(manifest, name)
    ||| exists|t: int|
        0 <= t < tree::entries_in(tree::get(manifest, "target"@)).len() && in_a_section(
            (#[trigger] tree::entries_in(tree::get(manifest, "target"@))[t]).1,
            name,
        )
}

proof fn table_names_are_named(
    entries: Seq<(Seq<char>, Tree, Form)>,
    name: Seq<char>,
)
    ensures
        workspace::table_names(entries).contains(name) <==> exists|j: int|
            0 <= j < entries.len() && edges::named_crate(
                (#[trigger] entries[j]).0,
                entries[j].1,
                name,
            ),
{
    let names = workspace::table_names(entries);
    if names.contains(name) {
        let j = names.index_of(name);
        assert(names[j] == name);
        assert(edges::named_crate(entries[j].0, entries[j].1, name));
    }
    if exists|j: int|
        0 <= j < entries.len() && edges::named_crate(
            (#[trigger] entries[j]).0,
            entries[j].1,
            name,
        ) {
        let j = choose|j: int|
            0 <= j < entries.len() && edges::named_crate(
                (#[trigger] entries[j]).0,
                entries[j].1,
                name,
            );
        assert(names[j] == name);
    }
}

proof fn sections_names_are_named(table: Tree, name: Seq<char>)
    ensures
        workspace::sections_names(table).contains(name) <==> in_a_section(table, name),
{
    let x = tree::entries_in(tree::get(table, "dependencies"@));
    let y = tree::entries_in(tree::get(table, "dev-dependencies"@));
    let z = tree::entries_in(tree::get(table, "build-dependencies"@));
    table_names_are_named(x, name);
    table_names_are_named(y, name);
    table_names_are_named(z, name);
    let (a, b, c) = (
        workspace::table_names(x),
        workspace::table_names(y),
        workspace::table_names(z),
    );
    let all = a + b + c;
    if all.contains(name) {
        let k = all.index_of(name);
        if k < a.len() {
            assert(a[k] == name);
            let j = choose|j: int|
                0 <= j < x.len() && edges::named_crate((#[trigger] x[j]).0, x[j].1, name);
            assert(edges::a_section("dependencies"@) && edges::named_crate(x[j].0, x[j].1, name));
        } else if k < a.len() + b.len() {
            assert(b[k - a.len()] == name);
            let j = choose|j: int|
                0 <= j < y.len() && edges::named_crate((#[trigger] y[j]).0, y[j].1, name);
            assert(edges::a_section("dev-dependencies"@) && edges::named_crate(
                y[j].0,
                y[j].1,
                name,
            ));
        } else {
            assert(c[k - a.len() - b.len()] == name);
            let j = choose|j: int|
                0 <= j < z.len() && edges::named_crate((#[trigger] z[j]).0, z[j].1, name);
            assert(edges::a_section("build-dependencies"@) && edges::named_crate(
                z[j].0,
                z[j].1,
                name,
            ));
        }
    }
    if in_a_section(table, name) {
        let (section, j) = choose|section: Seq<char>, j: int|
            edges::a_section(section) && (tree::get(table, section) matches Some(
                Tree::Table(entries, _),
            ) && 0 <= j < entries.len() && #[trigger] edges::named_crate(
                tree::entries_in(tree::get(table, section))[j].0,
                tree::entries_in(tree::get(table, section))[j].1,
                name,
            ));
        if section == "dependencies"@ {
            assert(edges::named_crate(x[j].0, x[j].1, name));
            let k = a.index_of(name);
            assert(all[k] == name);
        } else if section == "dev-dependencies"@ {
            assert(edges::named_crate(y[j].0, y[j].1, name));
            let k = b.index_of(name);
            assert(all[a.len() + k] == name);
        } else {
            assert(edges::named_crate(z[j].0, z[j].1, name));
            let k = c.index_of(name);
            assert(all[a.len() + b.len() + k] == name);
        }
    }
}

proof fn targets_names_are_named(targets: Seq<(Seq<char>, Tree, Form)>, name: Seq<char>)
    ensures
        workspace::targets_names(targets).contains(name) <==> exists|t: int|
            0 <= t < targets.len() && in_a_section((#[trigger] targets[t]).1, name),
    decreases targets.len(),
{
    if targets.len() > 0 {
        let rest = targets.drop_last();
        let n = targets.len() - 1;
        targets_names_are_named(rest, name);
        sections_names_are_named(targets.last().1, name);
        let a = workspace::targets_names(rest);
        let b = workspace::sections_names(targets.last().1);
        if (a + b).contains(name) {
            let k = (a + b).index_of(name);
            if k < a.len() {
                assert(a[k] == name);
                let t = choose|t: int|
                    0 <= t < rest.len() && in_a_section((#[trigger] rest[t]).1, name);
                assert(targets[t] == rest[t]);
            } else {
                assert(b[k - a.len()] == name);
                assert(in_a_section(targets[n].1, name));
            }
        }
        if exists|t: int| 0 <= t < targets.len() && in_a_section((#[trigger] targets[t]).1, name) {
            let t = choose|t: int|
                0 <= t < targets.len() && in_a_section((#[trigger] targets[t]).1, name);
            if t < n {
                assert(rest[t] == targets[t]);
                let k = a.index_of(name);
                assert((a + b)[k] == name);
            } else {
                let k = b.index_of(name);
                assert((a + b)[a.len() + k] == name);
            }
        }
    }
}

proof fn dependency_names_are_named(manifest: Tree, name: Seq<char>)
    ensures
        workspace::dependency_names(manifest).contains(name) <==> depends_on(manifest, name),
{
    let targets = tree::entries_in(tree::get(manifest, "target"@));
    sections_names_are_named(manifest, name);
    targets_names_are_named(targets, name);
    let a = workspace::sections_names(manifest);
    let b = workspace::targets_names(targets);
    if (a + b).contains(name) {
        let k = (a + b).index_of(name);
        if k < a.len() {
            assert(a[k] == name);
        } else {
            assert(b[k - a.len()] == name);
        }
    }
    if a.contains(name) {
        assert((a + b)[a.index_of(name)] == name);
    }
    if b.contains(name) {
        assert((a + b)[a.len() + b.index_of(name)] == name);
    }
}

/// The name is that of a crate.
pub open spec fn name_of_a_crate(crates: Seq<CrateInfo>, name: Seq<char>) -> bool {
    exists|j: int| 0 <= j < crates.len() && (#[trigger] crates[j]).name@ == name
}

/// Every crate that is found is that of a manifest, and its dependencies in the workspace are
/// exactly the crates that the manifest names in its dependencies, whatever the section or
/// the target, but for itself.
pub proof fn crates_know_their_dependencies(
    repo_root: &str,
    files: &Vec<ManifestFile>,
    crates: Vec<CrateInfo>,
    k: int,
)
    requires
        call_ensures(
            workspace::collect_crates,
            (repo_root, files),
            Ok::<Vec<CrateInfo>, ReleaseError>(crates),
        ),
        0 <= k < crates@.len(),
    ensures
        exists|f: int, manifest: Tree|
            {
                &&& 0 <= f < files@.len()
                &&& document::toml_parse((#[trigger] files@[f]).content@) == Ok::<Tree, Seq<char>>(
                    manifest,
                )
                &&& #[trigger] knows_its_dependencies(crates@, k, manifest)
            },
{
    let found = workspace::crates_found(repo_root@, files@);
    let list = choose|list: Seq<CrateInfo>|
        #![trigger workspace::described(list, found)]
        workspace::described(list, found) && order::sorted_stably(list, crates@);
    order::sorting_keeps_the_elements(list, crates@);
    assert(list.contains(crates@[k]));
    let n = list.index_of(crates@[k]);
    assert(list[n] == crates@[k]);
    let f = found_from(repo_root@, files@, n);
    let manifest = found[n].1;
    let names = workspace::names_found(found);
    let own = text::texts(crates@[k].local_dependencies@);
    assert forall|name: Seq<char>| #[trigger]
        own.contains(name) <==> depends_on(manifest, name) && name_of_a_crate(crates@, name)
            && name != crates@[k].name@ by {
        dependency_names_are_named(manifest, name);
        assert(own.contains(name) <==> workspace::dependency_names(manifest).contains(name)
            && names.contains(name) && name != found[n].0.name);
        if names.contains(name) {
            let j = names.index_of(name);
            assert(names[j] == found[j].0.name);
            assert(list[j]@.name == found[j].0.name);
            assert(crates@.contains(list[j]));
            let m = crates@.index_of(list[j]);
            assert(crates@[m].name@ == name);
        }
        if name_of_a_crate(crates@, name) {
            let m = choose|m: int| 0 <= m < crates@.len() && (#[trigger] crates@[m]).name@ == name;
            assert(list.contains(crates@[m]));
            let j = list.index_of(crates@[m]);
            assert(list[j]@.name == found[j].0.name);
            assert(names[j] == name);
        }
    }
    assert(files@[f].content@ == files@[f].content@);
    assert(knows_its_dependencies(crates@, k, manifest));
}

/// The dependencies of the crate in the workspace are the crates that the manifest depends
/// on, but for itself.
pub open spec fn knows_its_dependencies(crates: Seq<CrateInfo>, k: int, manifest: Tree) -> bool {
    forall|name: Seq<char>| #[trigger]
        text::texts(crates[k].local_dependencies@).contains(name) <==> depends_on(manifest, name)
            && name_of_a_crate(crates, name) && name != crates[k].name@
}

/// The crates that are found stand in the order of the paths of their manifests.
pub proof fn crates_are_ordered_by_manifest(
    repo_root: &str,
    files: &Vec<ManifestFile>,
    crates: Vec<CrateInfo>,
    i: int,
    j: int,
)
    requires
        call_ensures(
            workspace::collect_crates,
            (repo_root, files),
            Ok::<Vec<CrateInfo>, ReleaseError>(crates),
        ),
        0 <= i < j < crates@.len(),
    ensures
        path::path_rank(
            path::path_of(crates@[i].manifest_path@),
            path::path_of(crates@[j].manifest_path@),
        ) != Rank::After,
{
    let found = workspace::crates_found(repo_root@, files@);
    let list = choose|list: Seq<CrateInfo>|
        #![trigger workspace::described(list, found)]
        workspace::described(list, found) && order::sorted_stably(list, crates@);
    let from = choose|from: Seq<int>| order::sorted_from(list, crates@, from);
    assert(crates@[i].precedes(&crates@[j]));
}

/// The first manifest that cannot be used is what is reported, as it is of that manifest
/// alone.
pub proof fn the_first_faulty_manifest_is_reported(
    repo_root: &str,
    files: &Vec<ManifestFile>,
    result: Result<Vec<CrateInfo>, ReleaseError>,
    f: int,
    manifest_abs: &str,
    raw: &str,
    own: ReleaseError,
)
    requires
        call_ensures(workspace::collect_crates, (repo_root, files), result),
        0 <= f < files@.len(),
        manifest_abs@ == files@[f].path@,
        raw@ == files@[f].content@,
        call_ensures(
            workspace::parse_crate_info,
            (repo_root, manifest_abs, raw),
            Err::<Option<CrateInfo>, ReleaseError>(own),
        ),
        forall|e: int|
            #![trigger files@[e]]
            0 <= e < f ==> workspace::crate_in(
                repo_root@,
                files@[e].path@,
                files@[e].content@,
            ) is Ok,
    ensures
        result matches Err(error) && error::message_of(error) == error::message_of(
            own,
        ),
{
    match result {
        Ok(_) => {
            assert(workspace::crate_in(repo_root@, files@[f].path@, files@[f].content@) is Ok);
        },
        Err(error) => {
            let i = choose|i: int| #[trigger]
                workspace::first_fault(repo_root@, files@, i) && workspace::fault_shown(
                    error,
                    files@[i].path@,
                    workspace::crate_in(
                        repo_root@,
                        files@[i].path@,
                        files@[i].content@,
                    )->Err_0,
                );
            if i < f {
                assert(workspace::crate_in(
                    repo_root@,
                    files@[i].path@,
                    files@[i].content@,
                ) is Ok);
            } else if f < i {
                assert(workspace::crate_in(
                    repo_root@,
                    files@[f].path@,
                    files@[f].content@,
                ) is Ok);
            }
        },
    }
}

/// The search descends into every directory but those of git and of builds, takes every file
/// that is named as a manifest, and passes over all else.
pub proof fn the_search_takes_manifests(kind: EntryKind, name: &str, step: EntryStep)
    requires
        call_ensures(workspace::collect_cargo_manifests, (kind, name), step),
    ensures
        step == EntryStep::Descend <==> kind == EntryKind::Directory && name@ != ".git"@ && name@
            != "target"@,
        step == EntryStep::Take <==> kind == EntryKind::File && name@ == "Cargo.toml"@,
{
}

/// A crate is found under its name, the last of several.
pub proof fn crates_are_found_by_name(
    crates: &Vec<CrateInfo>,
    name: &str,
    result: Option<usize>,
    i: int,
)
    requires
        call_ensures(plan::find_crate, (crates, name), result),
        edges::last_crate(crates@, name@, i),
    ensures
        result == Some(i as usize),
        i <= usize::MAX,
{
    planning::last_crate_is_found(crates@, name@, i);
}

} // verus!
