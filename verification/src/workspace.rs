//! The crates of a repository, found by their manifests.

use crate::document;
use crate::error::ReleaseError;
use crate::order;
use crate::path;
use crate::path::{Component, Piece};
use crate::plan::CrateInfo;
use crate::release;
use crate::requirements;
use crate::text;
use crate::tree;
use crate::tree::{Form, TomlValue, Tree};
use crate::version;
use crate::version::{Version, VersionView};
use vstd::prelude::*;

verus! {

/// A manifest of the repository: where it stands and what it holds.
#[derive(Debug)]
pub struct ManifestFile {
    pub path: String,
    pub content: String,
}

/// A crate, in specifications.
pub struct CrateView {
    pub name: Seq<char>,
    pub manifest_path: Seq<char>,
    pub crate_dir: Seq<char>,
    pub version: VersionView,
    pub private: bool,
    pub local_dependencies: Seq<Seq<char>>,
}

/// Why a manifest cannot be used.
pub enum ManifestFault {
    /// It is not TOML.
    Toml(Seq<char>),
    /// Its version is not a semantic version.
    Version(Seq<char>),
}

impl View for CrateInfo {
    type V = CrateView;

    open spec fn view(&self) -> CrateView {
        CrateView {
            name: self.name@,
            manifest_path: self.manifest_path@,
            crate_dir: self.crate_dir@,
            version: self.version@,
            private: self.private,
            local_dependencies: text::texts(self.local_dependencies@),
        }
    }
}

/// The path as seen from the root, where it is below the root.
pub open spec fn relative(path: Seq<Piece>, root: Seq<Piece>) -> Option<Seq<Piece>> {
    if path::under(path, root) {
        Some(path.skip(root.len() as int))
    } else {
        None
    }
}

/// The directory that a file is in; nothing is above the root.
pub open spec fn parent_of(path: Seq<Piece>) -> Option<Seq<Piece>> {
    if path.len() == 0 || path.last() is Root {
        None
    } else {
        Some(path.drop_last())
    }
}

/// How a manifest is named: from the root, or as it was found where it is not below it.
pub open spec fn manifest_path_of(root: Seq<char>, manifest: Seq<char>) -> Seq<char> {
    match relative(path::path_of(manifest), path::path_of(root)) {
        Some(rest) => path::path_text(rest),
        None => manifest,
    }
}

/// The directory of a manifest: `.` for the root itself, else as seen from the root, or
/// as it was found where it is not below it.
pub open spec fn crate_dir_of(root: Seq<char>, manifest: Seq<char>) -> Seq<Piece> {
    let base = path::path_of(root);
    match parent_of(path::path_of(manifest)) {
        Some(dir) => if dir == base {
            path::here()
        } else {
            match relative(dir, base) {
                Some(rest) => rest,
                None => dir,
            }
        },
        None => path::here(),
    }
}

/// What the manifest of a package with a name and a version says of its crate.
pub open spec fn crate_of(
    root: Seq<char>,
    manifest_path: Seq<char>,
    manifest: Tree,
) -> Result<Option<CrateView>, ManifestFault> {
    match tree::get(manifest, "package"@) {
        Some(package) => match (
            tree::text_in(tree::get(package, "name"@)),
            tree::text_in(tree::get(package, "version"@)),
        ) {
            (Some(name), Some(version_text)) => match version::semver_parse(version_text) {
                Ok(version) => Ok(
                    Some(
                        CrateView {
                            name,
                            manifest_path: manifest_path_of(root, manifest_path),
                            crate_dir: path::path_text(crate_dir_of(root, manifest_path)),
                            version,
                            private: tree::flag_in(tree::get(package, "publish"@)) == Some(false),
                            local_dependencies: Seq::empty(),
                        },
                    ),
                ),
                Err(detail) => Err(ManifestFault::Version(detail)),
            },
            _ => Ok(None),
        },
        None => Ok(None),
    }
}

/// What the text of a manifest says of its crate.
pub open spec fn crate_in(
    root: Seq<char>,
    manifest_path: Seq<char>,
    content: Seq<char>,
) -> Result<Option<CrateView>, ManifestFault> {
    match document::toml_parse(content) {
        Ok(manifest) => crate_of(root, manifest_path, manifest),
        Err(detail) => Err(ManifestFault::Toml(detail)),
    }
}

/// The error names the file and the fault in it.
pub open spec fn fault_shown(
    error: ReleaseError,
    manifest_path: Seq<char>,
    fault: ManifestFault,
) -> bool {
    match (error, fault) {
        (
            ReleaseError::InvalidManifest { path, detail },
            ManifestFault::Toml(message),
        ) => path@ == manifest_path && detail@ == message,
        (
            ReleaseError::InvalidVersion { path, detail },
            ManifestFault::Version(message),
        ) => path@ == manifest_path && detail@ == message,
        _ => false,
    }
}

/// The directory of a manifest, as the crate names it.
fn crate_dir(root: &Vec<Component>, manifest: &Vec<Component>) -> (result: String)
    ensures
        forall|r: Seq<char>, m: Seq<char>|
            path::pieces(root@) == path::path_of(r) && path::pieces(manifest@) == path::path_of(m)
                ==> result@ == path::path_text(#[trigger] crate_dir_of(r, m)),
{
    let ghost base = path::pieces(root@);
    let ghost whole = path::pieces(manifest@);
    proof {
        reveal_strlit(".");
        assert("."@ =~= seq!['.']);
        assert(path::path_text(path::here()) == seq!['.']);
    }
    if manifest.len() == 0 {
        return ".".to_owned();
    }
    let last: usize = manifest.len() - 1;
    assert(whole.last() == manifest@[last as int]@);
    if matches!(manifest[last], Component::Root) {
        return ".".to_owned();
    }
    let ghost dir = whole.drop_last();
    assert(dir =~= whole.take(last as int));
    if root.len() <= last && path::starts_with(manifest, root) {
        assert(dir.take(base.len() as int) =~= whole.take(base.len() as int));
        if root.len() == last {
            assert(dir =~= base);
            return ".".to_owned();
        }
        assert(dir.len() != base.len());
        assert(whole.subrange(root.len() as int, last as int) =~= dir.skip(base.len() as int));
        return path::text_between(manifest, root.len(), last);
    }
    proof {
        if base.len() <= dir.len() {
            assert(dir.take(base.len() as int) =~= whole.take(base.len() as int));
        }
        if dir == base {
            assert(dir.take(base.len() as int) =~= base);
        }
        assert(whole.subrange(0, last as int) =~= dir);
    }
    path::text_between(manifest, 0, last)
}

/// The crate of a manifest that was found below `repo_root`. A manifest without a
/// package, or whose package has no name or no version of its own, is not a crate.
pub fn parse_crate_info(repo_root: &str, manifest_abs: &str, raw: &str) -> (result: Result<
    Option<CrateInfo>,
    ReleaseError,
>)
    ensures
        match result {
            Ok(Some(info)) => crate_in(repo_root@, manifest_abs@, raw@) == Ok::<
                Option<CrateView>,
                ManifestFault,
            >(Some(info@)),
            Ok(None) => crate_in(repo_root@, manifest_abs@, raw@) == Ok::<
                Option<CrateView>,
                ManifestFault,
            >(None),
            Err(error) => crate_in(repo_root@, manifest_abs@, raw@) matches Err(fault)
                && fault_shown(error, manifest_abs@, fault),
        },
{
    let value = match document::read_toml(raw) {
        Ok(value) => value,
        Err(detail) => {
            return Err(ReleaseError::InvalidManifest { path: manifest_abs.to_owned(), detail });
        },
    };
    let package = match value.get("package") {
        Some(package) => package,
        None => {
            return Ok(None);
        },
    };
    let name = match package.text_at("name") {
        Some(name) => name,
        None => {
            return Ok(None);
        },
    };
    let version_text = match package.text_at("version") {
        Some(version_text) => version_text,
        None => {
            return Ok(None);
        },
    };
    let version = match Version::parse(version_text.as_str()) {
        Ok(version) => version,
        Err(detail) => {
            return Err(ReleaseError::InvalidVersion { path: manifest_abs.to_owned(), detail });
        },
    };
    let private = match package.flag_at("publish") {
        Some(false) => true,
        _ => false,
    };
    let root = path::components(repo_root);
    let manifest = path::components(manifest_abs);
    let manifest_path = if path::starts_with(&manifest, &root) {
        assert(path::pieces(manifest@).subrange(root.len() as int, manifest.len() as int)
            =~= path::pieces(manifest@).skip(root.len() as int));
        path::text_between(&manifest, root.len(), manifest.len())
    } else {
        manifest_abs.to_owned()
    };
    let local_dependencies: Vec<String> = Vec::new();
    assert(text::texts(local_dependencies@) =~= Seq::empty());
    Ok(
        Some(
            CrateInfo {
                name,
                manifest_path,
                crate_dir: crate_dir(&root, &manifest),
                version,
                private,
                local_dependencies,
            },
        ),
    )
}

/// The names of the crates that a table of dependencies names.
pub open spec fn table_names(entries: Seq<(Seq<char>, Tree, Form)>) -> Seq<Seq<char>> {
    entries.map_values(|entry: (Seq<char>, Tree, Form)| requirements::name_of(entry.0, entry.1))
}

/// The names of the crates in the dependencies, the development and the build
/// dependencies.
pub open spec fn sections_names(table: Tree) -> Seq<Seq<char>> {
    table_names(tree::entries_in(tree::get(table, "dependencies"@))) + table_names(
        tree::entries_in(tree::get(table, "dev-dependencies"@)),
    ) + table_names(tree::entries_in(tree::get(table, "build-dependencies"@)))
}

/// The names of the crates in the dependencies of all targets.
pub open spec fn targets_names(targets: Seq<(Seq<char>, Tree, Form)>) -> Seq<Seq<char>>
    decreases targets.len(),
{
    if targets.len() == 0 {
        Seq::empty()
    } else {
        targets_names(targets.drop_last()) + sections_names(targets.last().1)
    }
}

/// The names of the crates that a manifest depends on.
pub open spec fn dependency_names(manifest: Tree) -> Seq<Seq<char>> {
    sections_names(manifest) + targets_names(tree::entries_in(tree::get(manifest, "target"@)))
}

/// The name of the crate that a dependency is on.
pub fn dependency_crate_name(dependency_key: &str, dependency_value: &TomlValue) -> (result: String)
    ensures
        result@ == requirements::name_of(dependency_key@, dependency_value@),
{
    match dependency_value.text_at("package") {
        Some(name) => name,
        None => dependency_key.to_owned(),
    }
}

/// Whether a list of texts holds one.
pub fn has_text(list: &Vec<String>, item: &str) -> (b: bool)
    ensures
        b == text::texts(list@).contains(item@),
{
    let mut i: usize = 0;
    while i < list.len()
        invariant
            i <= list.len(),
            forall|k: int| 0 <= k < i ==> #[trigger] text::texts(list@)[k] != item@,
        decreases list.len() - i,
    {
        assert(text::texts(list@)[i as int] == list@[i as int]@);
        if text::same_text(list[i].as_str(), item) {
            return true;
        }
        i += 1;
    }
    false
}

/// `after` holds, in order and each once, the texts of `before` and those of `found` that
/// are also names of crates.
pub open spec fn gathered(
    before: Seq<Seq<char>>,
    after: Seq<Seq<char>>,
    found: Seq<Seq<char>>,
    names: Seq<Seq<char>>,
) -> bool {
    &&& order::strictly_increasing(after)
    &&& forall|name: Seq<char>| #[trigger]
        after.contains(name) <==> before.contains(name) || found.contains(name) && names.contains(
            name,
        )
}

proof fn gathered_joins(
    before: Seq<Seq<char>>,
    middle: Seq<Seq<char>>,
    after: Seq<Seq<char>>,
    first: Seq<Seq<char>>,
    second: Seq<Seq<char>>,
    names: Seq<Seq<char>>,
)
    requires
        gathered(before, middle, first, names),
        gathered(middle, after, second, names),
    ensures
        gathered(before, after, first + second, names),
{
    assert forall|name: Seq<char>| #[trigger]
        after.contains(name) <==> before.contains(name) || (first + second).contains(name)
            && names.contains(name) by {
        assert(after.contains(name) <==> middle.contains(name) || second.contains(name)
            && names.contains(name));
        assert(middle.contains(name) <==> before.contains(name) || first.contains(name)
            && names.contains(name));
        if first.contains(name) {
            assert((first + second)[first.index_of(name)] == name);
        }
        if second.contains(name) {
            assert((first + second)[first.len() + second.index_of(name)] == name);
        }
        if (first + second).contains(name) {
            let k = (first + second).index_of(name);
            if k < first.len() {
                assert(first[k] == name);
            } else {
                assert(second[k - first.len()] == name);
            }
        }
    }
}

/// Adds the crates that a table of dependencies names.
pub fn collect_local_dependency_names(
    dependency_table: Option<&TomlValue>,
    crate_names: &Vec<String>,
    result: &mut Vec<String>,
)
    requires
        order::strictly_increasing(text::texts(old(result)@)),
    ensures
        gathered(
            text::texts(old(result)@),
            text::texts(final(result)@),
            table_names(
                tree::entries_in(
                    match dependency_table {
                        Some(value) => Some(value@),
                        None => None,
                    },
                ),
            ),
            text::texts(crate_names@),
        ),
{
    let ghost names = text::texts(crate_names@);
    let ghost before = text::texts(result@);
    match dependency_table {
        Some(TomlValue::Table(entries)) => {
            let ghost all = tree::entries_of(entries@);
            assert(dependency_table->0@->Table_0 =~= all);
            let mut i: usize = 0;
            while i < entries.len()
                invariant
                    i <= entries.len(),
                    all == tree::entries_of(entries@),
                    names == text::texts(crate_names@),
                    gathered(before, text::texts(result@), table_names(all.take(i as int)), names),
                decreases entries.len() - i,
            {
                let name = dependency_crate_name(entries[i].key.as_str(), &entries[i].value);
                let ghost middle = text::texts(result@);
                if has_text(crate_names, name.as_str()) {
                    order::add_text(result, name.as_str());
                    proof {
                        let after = text::texts(result@);
                        assert forall|other: Seq<char>| #[trigger]
                            after.contains(other) <==> middle.contains(other) || other == name@ by {
                            assert(after.to_set().contains(other) == middle.to_set().insert(
                                name@,
                            ).contains(other));
                        }
                    }
                }
                proof {
                    let after = text::texts(result@);
                    let one = seq![name@];
                    assert(one[0] == name@);
                    assert(gathered(middle, after, one, names));
                    let so_far = table_names(all.take(i as int));
                    gathered_joins(before, middle, after, so_far, one, names);
                    assert(so_far + one =~= table_names(all.take(i + 1)));
                }
                i += 1;
            }
            assert(all.take(i as int) =~= all);
        },
        _ => {},
    }
}

/// Adds the crates in the dependencies, the development and the build dependencies.
fn collect_section_names(table: &TomlValue, crate_names: &Vec<String>, result: &mut Vec<String>)
    requires
        order::strictly_increasing(text::texts(old(result)@)),
    ensures
        gathered(
            text::texts(old(result)@),
            text::texts(final(result)@),
            sections_names(table@),
            text::texts(crate_names@),
        ),
{
    let ghost names = text::texts(crate_names@);
    let ghost x = table_names(tree::entries_in(tree::get(table@, "dependencies"@)));
    let ghost y = table_names(tree::entries_in(tree::get(table@, "dev-dependencies"@)));
    let ghost z = table_names(tree::entries_in(tree::get(table@, "build-dependencies"@)));
    let ghost before = text::texts(result@);
    collect_local_dependency_names(table.get("dependencies"), crate_names, result);
    let ghost first = text::texts(result@);
    collect_local_dependency_names(table.get("dev-dependencies"), crate_names, result);
    let ghost second = text::texts(result@);
    collect_local_dependency_names(table.get("build-dependencies"), crate_names, result);
    proof {
        gathered_joins(before, first, second, x, y, names);
        gathered_joins(before, second, text::texts(result@), x + y, z, names);
    }
}

/// The list holds, in order and each once, the names of the crates that the manifest
/// depends on, but for its own.
pub open spec fn local_dependencies_of(
    list: Seq<Seq<char>>,
    own: Seq<char>,
    manifest: Tree,
    names: Seq<Seq<char>>,
) -> bool {
    &&& order::strictly_increasing(list)
    &&& forall|name: Seq<char>| #[trigger]
        list.contains(name) <==> dependency_names(manifest).contains(name) && names.contains(name)
            && name != own
}

/// The names of the crates that a manifest depends on, but for its own.
pub fn local_dependencies(own: &str, manifest: &TomlValue, crate_names: &Vec<String>) -> (result:
    Vec<String>)
    ensures
        local_dependencies_of(
            text::texts(result@),
            own@,
            manifest@,
            text::texts(crate_names@),
        ),
{
    let ghost names = text::texts(crate_names@);
    let mut found: Vec<String> = Vec::new();
    let ghost none = text::texts(found@);
    collect_section_names(manifest, crate_names, &mut found);
    let ghost direct = sections_names(manifest@);
    let ghost targets = tree::entries_in(tree::get(manifest@, "target"@));
    match manifest.get("target") {
        Some(TomlValue::Table(entries)) => {
            let ghost all = tree::entries_of(entries@);
            assert(targets =~= all);
            let mut i: usize = 0;
            assert(direct + targets_names(all.take(0)) =~= direct);
            while i < entries.len()
                invariant
                    i <= entries.len(),
                    all == tree::entries_of(entries@),
                    names == text::texts(crate_names@),
                    gathered(
                        none,
                        text::texts(found@),
                        direct + targets_names(all.take(i as int)),
                        names,
                    ),
                decreases entries.len() - i,
            {
                let ghost middle = text::texts(found@);
                collect_section_names(&entries[i].value, crate_names, &mut found);
                proof {
                    let so_far = direct + targets_names(all.take(i as int));
                    let more = sections_names(all[i as int].1);
                    gathered_joins(none, middle, text::texts(found@), so_far, more, names);
                    assert(all.take(i + 1).drop_last() =~= all.take(i as int));
                    assert(so_far + more =~= direct + targets_names(all.take(i + 1)));
                }
                i += 1;
            }
            assert(all.take(i as int) =~= all);
        },
        _ => {
            assert(direct + targets_names(Seq::empty()) =~= direct);
        },
    }
    let ghost all_found = text::texts(found@);
    assert(gathered(none, all_found, dependency_names(manifest@), names));
    let mut result: Vec<String> = Vec::new();
    let mut i: usize = 0;
    while i < found.len()
        invariant
            i <= found.len(),
            all_found == text::texts(found@),
            order::strictly_increasing(text::texts(result@)),
            forall|name: Seq<char>| #[trigger]
                text::texts(result@).contains(name) <==> all_found.take(i as int).contains(name)
                    && name != own@,
        decreases found.len() - i,
    {
        let ghost before = text::texts(result@);
        let ghost now = all_found.take(i as int);
        let ghost next = all_found.take(i + 1);
        if !text::same_text(found[i].as_str(), own) {
            order::add_text(&mut result, found[i].as_str());
            proof {
                let after = text::texts(result@);
                assert forall|name: Seq<char>| #[trigger]
                    after.contains(name) <==> before.contains(name) || name
                        == all_found[i as int] by {
                    assert(after.to_set().contains(name) == before.to_set().insert(
                        all_found[i as int],
                    ).contains(name));
                }
            }
        }
        proof {
            assert(next =~= now.push(all_found[i as int]));
            assert forall|name: Seq<char>| #[trigger]
                next.contains(name) <==> now.contains(name) || name == all_found[i as int] by {
                if now.contains(name) {
                    assert(next[now.index_of(name)] == name);
                }
                assert(next[i as int] == all_found[i as int]);
            }
            assert forall|name: Seq<char>| #[trigger]
                text::texts(result@).contains(name) <==> next.contains(name) && name != own@ by {
                assert(next.contains(name) <==> now.contains(name) || name
                    == all_found[i as int]);
                assert(before.contains(name) <==> now.contains(name) && name != own@);
            }
        }
        i += 1;
    }
    assert(all_found.take(i as int) =~= all_found);
    result
}

/// The crates that the manifests describe, each with what its manifest holds.
pub open spec fn crates_found(root: Seq<char>, files: Seq<ManifestFile>) -> Seq<(CrateView, Tree)>
    decreases files.len(),
{
    if files.len() == 0 {
        Seq::empty()
    } else {
        let before = crates_found(root, files.drop_last());
        match crate_in(root, files.last().path@, files.last().content@) {
            Ok(Some(info)) => before.push(
                (info, document::toml_parse(files.last().content@)->Ok_0),
            ),
            _ => before,
        }
    }
}

/// The manifest at `i` is the first that cannot be used.
pub open spec fn first_fault(root: Seq<char>, files: Seq<ManifestFile>, i: int) -> bool {
    &&& 0 <= i < files.len()
    &&& crate_in(root, files[i].path@, files[i].content@) is Err
    &&& forall|k: int|
        #![trigger files[k]]
        0 <= k < i ==> crate_in(root, files[k].path@, files[k].content@) is Ok
}

/// Every manifest can be used.
pub open spec fn no_fault(root: Seq<char>, files: Seq<ManifestFile>) -> bool {
    forall|k: int|
        #![trigger files[k]]
        0 <= k < files.len() ==> crate_in(root, files[k].path@, files[k].content@) is Ok
}

/// The names of the crates.
pub open spec fn names_found(found: Seq<(CrateView, Tree)>) -> Seq<Seq<char>> {
    found.map_values(|entry: (CrateView, Tree)| entry.0.name)
}

/// The crates are those that were found, each with its dependencies among them.
pub open spec fn described(crates: Seq<CrateInfo>, found: Seq<(CrateView, Tree)>) -> bool {
    &&& crates.len() == found.len()
    &&& forall|k: int|
        #![trigger crates[k]]
        0 <= k < crates.len() ==> {
            &&& crates[k]@ == (CrateView {
                local_dependencies: crates[k]@.local_dependencies,
                ..found[k].0
            })
            &&& local_dependencies_of(
                crates[k]@.local_dependencies,
                found[k].0.name,
                found[k].1,
                names_found(found),
            )
        }
}

/// The crates are those that the manifests describe, each with its dependencies among
/// them, by the paths of their manifests.
pub open spec fn collected(
    root: Seq<char>,
    files: Seq<ManifestFile>,
    crates: Seq<CrateInfo>,
) -> bool {
    exists|found: Seq<CrateInfo>|
        #![trigger described(found, crates_found(root, files))]
        described(found, crates_found(root, files)) && order::sorted_stably(found, crates)
}

/// Fills in which crates of the workspace each crate depends on.
fn populate_local_dependencies(
    crates: Vec<CrateInfo>,
    manifests: &Vec<TomlValue>,
    Ghost(found): Ghost<Seq<(CrateView, Tree)>>,
) -> (result: Vec<CrateInfo>)
    requires
        crates.len() == manifests.len() == found.len(),
        forall|k: int| 0 <= k < crates.len() ==> (#[trigger] crates@[k])@ == found[k].0,
        forall|k: int| 0 <= k < crates.len() ==> (#[trigger] manifests@[k])@ == found[k].1,
    ensures
        described(result@, found),
{
    let ghost all = crates@;
    let mut names: Vec<String> = Vec::new();
    let mut i: usize = 0;
    while i < crates.len()
        invariant
            i <= crates.len(),
            all == crates@,
            names.len() == i,
            forall|k: int| 0 <= k < i ==> (#[trigger] names@[k])@ == all[k].name@,
        decreases crates.len() - i,
    {
        names.push(crates[i].name.clone());
        i += 1;
    }
    assert(text::texts(names@) =~= names_found(found)) by {
        assert forall|k: int| 0 <= k < all.len() implies #[trigger] text::texts(names@)[k]
            == names_found(found)[k] by {
            assert(names@[k]@ == all[k].name@);
            assert(all[k]@ == found[k].0);
        }
    }
    let mut rest = crates;
    let mut result: Vec<CrateInfo> = Vec::new();
    let mut n: usize = 0;
    assert(all.skip(0) =~= all);
    while rest.len() > 0
        invariant
            n + rest.len() == all.len() == manifests.len() == found.len(),
            n == result.len(),
            rest@ == all.skip(n as int),
            text::texts(names@) == names_found(found),
            forall|k: int| 0 <= k < all.len() ==> (#[trigger] all[k])@ == found[k].0,
            forall|k: int| 0 <= k < all.len() ==> (#[trigger] manifests@[k])@ == found[k].1,
            forall|k: int|
                #![trigger result@[k]]
                0 <= k < n ==> {
                    &&& result@[k]@ == (CrateView {
                        local_dependencies: result@[k]@.local_dependencies,
                        ..found[k].0
                    })
                    &&& local_dependencies_of(
                        result@[k]@.local_dependencies,
                        found[k].0.name,
                        found[k].1,
                        names_found(found),
                    )
                },
        decreases rest.len(),
    {
        let info = rest.remove(0);
        assert(info == all[n as int]);
        assert(rest@ =~= all.skip(n + 1));
        let local = local_dependencies(info.name.as_str(), &manifests[n], &names);
        result.push(CrateInfo { local_dependencies: local, ..info });
        n += 1;
    }
    result
}

/// The crates of the repository at `repo_root`, by the paths of their manifests. The first
/// manifest that cannot be used is reported.
pub fn collect_crates(repo_root: &str, files: &Vec<ManifestFile>) -> (result: Result<
    Vec<CrateInfo>,
    ReleaseError,
>)
    ensures
        match result {
            Ok(crates) => no_fault(repo_root@, files@) && collected(
                repo_root@,
                files@,
                crates@,
            ),
            Err(error) => exists|i: int| #[trigger]
                first_fault(repo_root@, files@, i) && fault_shown(
                    error,
                    files@[i].path@,
                    crate_in(repo_root@, files@[i].path@, files@[i].content@)->Err_0,
                ),
        },
{
    let mut crates: Vec<CrateInfo> = Vec::new();
    let mut manifests: Vec<TomlValue> = Vec::new();
    let ghost mut found: Seq<(CrateView, Tree)> = Seq::empty();
    let mut i: usize = 0;
    while i < files.len()
        invariant
            i <= files.len(),
            found == crates_found(repo_root@, files@.take(i as int)),
            forall|k: int|
                #![trigger files@[k]]
                0 <= k < i ==> crate_in(repo_root@, files@[k].path@, files@[k].content@) is Ok,
            crates.len() == manifests.len() == found.len(),
            forall|k: int| 0 <= k < crates.len() ==> (#[trigger] crates@[k])@ == found[k].0,
            forall|k: int| 0 <= k < crates.len() ==> (#[trigger] manifests@[k])@ == found[k].1,
        decreases files.len() - i,
    {
        proof {
            assert(files@.take(i + 1).drop_last() =~= files@.take(i as int));
            assert(files@.take(i + 1).last() == files@[i as int]);
        }
        let file = &files[i];
        match parse_crate_info(repo_root, file.path.as_str(), file.content.as_str()) {
            Ok(Some(info)) => {
                match document::read_toml(file.content.as_str()) {
                    Ok(manifest) => {
                        proof {
                            found = found.push((info@, manifest@));
                        }
                        crates.push(info);
                        manifests.push(manifest);
                    },
                    Err(_) => {},
                }
            },
            Ok(None) => {},
            Err(error) => {
                assert(first_fault(repo_root@, files@, i as int));
                return Err(error);
            },
        }
        i += 1;
    }
    assert(files@.take(i as int) =~= files@);
    let crates = populate_local_dependencies(crates, &manifests, Ghost(found));
    let ghost unsorted = crates@;
    let sorted = order::sort(crates);
    assert(described(unsorted, crates_found(repo_root@, files@)));
    assert(order::sorted_stably(unsorted, sorted@));
    assert(collected(repo_root@, files@, sorted@));
    Ok(sorted)
}

/// What an entry of a directory is.
#[derive(Debug, Clone, Copy, PartialEq, Eq, Structural)]
pub enum EntryKind {
    Directory,
    File,
    Other,
}

/// What the search for manifests does with an entry of a directory.
#[derive(Debug, Clone, Copy, PartialEq, Eq, Structural)]
pub enum EntryStep {
    Descend,
    Take,
    Pass,
}

/// What the search for manifests does with an entry of a directory: it descends into the
/// directories other than those of git and of builds, and takes the manifests.
pub fn collect_cargo_manifests(kind: EntryKind, name: &str) -> (step: EntryStep)
    ensures
        step == match kind {
            EntryKind::Directory => if name@ == ".git"@ || name@ == "target"@ {
                EntryStep::Pass
            } else {
                EntryStep::Descend
            },
            EntryKind::File => if name@ == "Cargo.toml"@ {
                EntryStep::Take
            } else {
                EntryStep::Pass
            },
            EntryKind::Other => EntryStep::Pass,
        },
{
    match kind {
        EntryKind::Directory => {
            if text::same_text(name, ".git") || text::same_text(name, "target") {
                EntryStep::Pass
            } else {
                EntryStep::Descend
            }
        },
        EntryKind::File => {
            if text::same_text(name, "Cargo.toml") {
                EntryStep::Take
            } else {
                EntryStep::Pass
            }
        },
        EntryKind::Other => EntryStep::Pass,
    }
}

proof fn rest_is_proper(path: Seq<Piece>, from: int, to: int)
    requires
        path::proper(path),
        0 <= from <= to <= path.len(),
    ensures
        path::proper(path.subrange(from, to)),
{
    let rest = path.subrange(from, to);
    assert forall|i: int| 0 <= i < rest.len() implies match #[trigger] rest[i] {
        Piece::Root => i == 0,
        Piece::Current => i == 0,
        Piece::Parent => true,
        Piece::Normal(name) => name.len() > 0 && !name.contains('/') && name != seq!['.'] && name
            != seq!['.', '.'],
    } by {
        assert(rest[i] == path[from + i]);
    }
}

/// The path of a manifest below the root, seen from the root, names the manifest that was
/// found.
pub proof fn manifest_path_leads_back(root: Seq<char>, manifest: Seq<char>)
    requires
        path::under(path::path_of(manifest), path::path_of(root)),
    ensures
        path::path_of(root) + path::path_of(manifest_path_of(root, manifest)) == path::path_of(
            manifest,
        ),
{
    let base = path::path_of(root);
    let whole = path::path_of(manifest);
    let rest = whole.skip(base.len() as int);
    path::parsed_path_is_proper(manifest);
    rest_is_proper(whole, base.len() as int, whole.len() as int);
    assert(rest =~= whole.subrange(base.len() as int, whole.len() as int));
    path::path_is_named_by_its_text(rest);
    assert(whole =~= whole.take(base.len() as int) + rest);
}

/// A manifest below the root is a file of its own crate.
pub proof fn crate_contains_its_manifest(root: Seq<char>, manifest: Seq<char>)
    requires
        path::under(path::path_of(manifest), path::path_of(root)),
        path::path_of(root).len() < path::path_of(manifest).len(),
    ensures
        release::contains_file(
            path::path_of(path::path_text(crate_dir_of(root, manifest))),
            path::path_of(manifest_path_of(root, manifest)),
        ),
{
    let base = path::path_of(root);
    let whole = path::path_of(manifest);
    let n = base.len() as int;
    let rest = whole.skip(n);
    path::parsed_path_is_proper(manifest);
    rest_is_proper(whole, n, whole.len() as int);
    assert(rest =~= whole.subrange(n, whole.len() as int));
    path::path_is_named_by_its_text(rest);
    assert(path::proper(path::here()));
    path::path_is_named_by_its_text(path::here());
    match parent_of(whole) {
        Some(dir) => {
            if dir != base {
                assert(dir.take(n) =~= whole.take(n));
                let own = dir.skip(n);
                rest_is_proper(whole, n, whole.len() - 1);
                assert(own =~= whole.subrange(n, whole.len() - 1));
                path::path_is_named_by_its_text(own);
                assert(rest.take(own.len() as int) =~= own);
            }
        },
        None => {},
    }
}

/// A file of the name `Cargo.toml` below the root is a manifest by its path from the root
/// too.
pub proof fn manifest_path_is_that_of_a_manifest(root: Seq<char>, manifest: Seq<char>)
    requires
        path::under(path::path_of(manifest), path::path_of(root)),
        path::path_of(root).len() < path::path_of(manifest).len(),
        path::path_of(manifest).last() == Piece::Normal("Cargo.toml"@),
    ensures
        release::is_manifest(manifest_path_of(root, manifest)),
{
    let rest = path::path_of(manifest).skip(path::path_of(root).len() as int);
    assert(rest.last() == path::path_of(manifest).last());
    path::path_text_ends_with_last(rest);
}

} // verus!
