//! Which crates a release is of, since when, and under which tags.

use crate::error::ReleaseError;
use crate::git::CommitRecord;
use crate::order;
use crate::path;
use crate::path::{Component, Piece};
use crate::plan::{CommitInput, CrateInfo};
use crate::text;
use crate::version;
use crate::version::{Version, VersionView};
use vstd::prelude::*;

verus! {

/// The template has a place for the name of the crate.
pub open spec fn names_crate(tag_template: Seq<char>) -> bool {
    text::contains_text(tag_template, "{{ crate }}"@)
}

/// The tag of a version of a crate.
pub open spec fn tag_text(
    tag_template: Seq<char>,
    crate_name: Seq<char>,
    version: VersionView,
) -> Seq<char> {
    text::replaced(
        text::replaced(tag_template, "{{ crate }}"@, crate_name),
        "{{ version }}"@,
        version::version_text(version),
    )
}

/// The tag of a version of a crate. Where there are several crates, the template must have
/// a place for their names.
pub fn render_tag_name(
    tag_template: &str,
    crate_name: &str,
    version: &Version,
    crate_count: usize,
) -> (result: Result<String, ReleaseError>)
    ensures
        crate_count > 1 && !names_crate(tag_template@) ==> result == Err::<String, ReleaseError>(
            ReleaseError::TagTemplate,
        ),
        crate_count <= 1 || names_crate(tag_template@) ==> (result matches Ok(tag) && tag@
            == tag_text(tag_template@, crate_name@, version@)),
{
    proof {
        reveal_strlit("{{ crate }}");
        reveal_strlit("{{ version }}");
    }
    if crate_count > 1 && !text::contains(tag_template, "{{ crate }}") {
        return Err(ReleaseError::TagTemplate);
    }
    let named = text::replace(tag_template, "{{ crate }}", crate_name);
    let version_text = version.to_text();
    Ok(text::replace(named.as_str(), "{{ version }}", version_text.as_str()))
}

/// A template without a place for a crate or a version is the tag itself.
pub proof fn plain_template_is_the_tag(
    tag_template: Seq<char>,
    crate_name: Seq<char>,
    version: VersionView,
)
    requires
        !names_crate(tag_template),
        !text::contains_text(tag_template, "{{ version }}"@),
    ensures
        tag_text(tag_template, crate_name, version) == tag_template,
{
    text::replaced_without_pattern(tag_template, "{{ crate }}"@, crate_name);
    text::replaced_without_pattern(
        tag_template,
        "{{ version }}"@,
        version::version_text(version),
    );
}

/// Where the template, with the name of the crate in its place, has a place for the
/// version, the tag holds the version.
pub proof fn tag_holds_the_version(
    tag_template: Seq<char>,
    crate_name: Seq<char>,
    version: VersionView,
)
    requires
        text::contains_text(
            text::replaced(tag_template, "{{ crate }}"@, crate_name),
            "{{ version }}"@,
        ),
    ensures
        text::contains_text(
            tag_text(tag_template, crate_name, version),
            version::version_text(version),
        ),
{
    reveal_strlit("{{ version }}");
    text::replacement_is_there(
        text::replaced(tag_template, "{{ crate }}"@, crate_name),
        "{{ version }}"@,
        version::version_text(version),
    );
}

/// The file is a manifest.
pub open spec fn is_manifest(file: Seq<char>) -> bool {
    text::ends_with_text(file, "Cargo.toml"@)
}

/// Every file is a manifest or the lockfile of the root, and one at least is a manifest.
pub open spec fn release_payload(files: Seq<Seq<char>>) -> bool {
    &&& exists|i: int| 0 <= i < files.len() && is_manifest(#[trigger] files[i])
    &&& forall|i: int|
        0 <= i < files.len() ==> is_manifest(#[trigger] files[i]) || files[i] == "Cargo.lock"@
}

/// Whether the changed files are those of a merged release.
pub fn is_release_merge_payload(files: &Vec<String>) -> (b: bool)
    ensures
        b == release_payload(text::texts(files@)),
{
    let ghost all = text::texts(files@);
    let mut has_manifest = false;
    let mut i: usize = 0;
    while i < files.len()
        invariant
            i <= files.len(),
            all == text::texts(files@),
            has_manifest == exists|k: int| 0 <= k < i && is_manifest(#[trigger] all[k]),
            forall|k: int|
                0 <= k < i ==> is_manifest(#[trigger] all[k]) || all[k] == "Cargo.lock"@,
        decreases files.len() - i,
    {
        assert(all[i as int] == files@[i as int]@);
        if text::ends_with(files[i].as_str(), "Cargo.toml") {
            has_manifest = true;
        } else if !text::same_text(files[i].as_str(), "Cargo.lock") {
            return false;
        }
        i += 1;
    }
    has_manifest
}

/// The file is in the directory of the crate; that of the root, `.`, holds every file.
pub open spec fn contains_file(crate_dir: Seq<Piece>, file: Seq<Piece>) -> bool {
    crate_dir == path::here() || path::under(file, crate_dir)
}

/// How deep the directory of a crate is.
pub open spec fn depth(crate_dir: Seq<Piece>) -> nat {
    if crate_dir == path::here() {
        0
    } else {
        crate_dir.len()
    }
}

/// The directory of a crate.
pub open spec fn dir_of(info: CrateInfo) -> Seq<Piece> {
    path::path_of(info.crate_dir@)
}

/// The file belongs to the crate: it is in its directory, no other crate with the file is
/// in a deeper one, and no earlier crate in one as deep.
pub open spec fn owns_file(crates: Seq<CrateInfo>, file: Seq<Piece>, i: int) -> bool {
    &&& 0 <= i < crates.len()
    &&& contains_file(dir_of(crates[i]), file)
    &&& forall|j: int|
        #![trigger crates[j]]
        0 <= j < crates.len() && contains_file(dir_of(crates[j]), file) ==> {
            &&& depth(dir_of(crates[j])) <= depth(dir_of(crates[i]))
            &&& j < i ==> depth(dir_of(crates[j])) < depth(dir_of(crates[i]))
        }
}

/// The file is in the directory of no crate.
pub open spec fn held_nowhere(crates: Seq<CrateInfo>, file: Seq<Piece>) -> bool {
    forall|j: int| 0 <= j < crates.len() ==> !contains_file(dir_of(#[trigger] crates[j]), file)
}

/// A file of the list belongs to a crate of the name.
pub open spec fn touched(crates: Seq<CrateInfo>, files: Seq<Seq<char>>, name: Seq<char>) -> bool {
    exists|k: int, i: int|
        0 <= k < files.len() && #[trigger] owns_file(crates, path::path_of(files[k]), i)
            && crates[i].name@ == name
}

/// The names are those of the crates that the files belong to, in order and each once.
pub open spec fn touched_names(
    crates: Seq<CrateInfo>,
    files: Seq<Seq<char>>,
    names: Seq<Seq<char>>,
) -> bool {
    &&& order::strictly_increasing(names)
    &&& forall|name: Seq<char>| #[trigger]
        names.contains(name) <==> touched(crates, files, name)
}

/// Whether the file is in the directory of the crate.
pub fn crate_contains_file(crate_dir: &str, file: &str) -> (b: bool)
    ensures
        b == contains_file(path::path_of(crate_dir@), path::path_of(file@)),
{
    let dir = path::components(crate_dir);
    if is_here(&dir) {
        return true;
    }
    path::starts_with(&path::components(file), &dir)
}

/// Whether the path is `.`.
fn is_here(dir: &Vec<Component>) -> (b: bool)
    ensures
        b == (path::pieces(dir@) == path::here()),
{
    let ghost all = path::pieces(dir@);
    assert(all.len() == dir.len());
    assert(path::here().len() == 1);
    if dir.len() != 1 {
        return false;
    }
    assert(all[0] == dir@[0]@);
    let b = matches!(dir[0], Component::Current);
    assert(b ==> all =~= path::here());
    b
}

/// How deep the directory of a crate is.
fn dir_depth(crate_dir: &str) -> (n: usize)
    ensures
        n == depth(path::path_of(crate_dir@)),
{
    let dir = path::components(crate_dir);
    if is_here(&dir) {
        0
    } else {
        dir.len()
    }
}

/// The crate that a file belongs to.
pub fn owning_crate(crates: &Vec<CrateInfo>, file: &str) -> (result: Option<usize>)
    ensures
        match result {
            Some(i) => owns_file(crates@, path::path_of(file@), i as int),
            None => held_nowhere(crates@, path::path_of(file@)),
        },
{
    let ghost place = path::path_of(file@);
    let mut winner: Option<(usize, usize)> = None;
    let mut n: usize = 0;
    assert(crates@.take(0) =~= Seq::empty());
    while n < crates.len()
        invariant
            n <= crates.len(),
            place == path::path_of(file@),
            match winner {
                Some((i, rank)) => {
                    &&& i < n
                    &&& rank == depth(dir_of(crates@[i as int]))
                    &&& owns_file(crates@.take(n as int), place, i as int)
                },
                None => forall|j: int|
                    0 <= j < n ==> !contains_file(dir_of(#[trigger] crates@[j]), place),
            },
        decreases crates.len() - n,
    {
        let ghost before = crates@.take(n as int);
        let ghost now = crates@.take(n + 1);
        proof {
            assert forall|j: int| 0 <= j < n implies #[trigger] now[j] == before[j] by {}
            assert(now[n as int] == crates@[n as int]);
        }
        if crate_contains_file(crates[n].crate_dir.as_str(), file) {
            let rank: usize = dir_depth(crates[n].crate_dir.as_str());
            match winner {
                Some((i, current_rank)) => {
                    assert(now[i as int] == before[i as int]);
                    if current_rank >= rank {
                        assert(owns_file(now, place, i as int));
                    } else {
                        winner = Some((n, rank));
                        assert(owns_file(now, place, n as int));
                    }
                },
                None => {
                    winner = Some((n, rank));
                    assert(owns_file(now, place, n as int)) by {
                        assert forall|j: int|
                            #![trigger now[j]]
                            0 <= j < now.len() && contains_file(dir_of(now[j]), place) implies j
                            == n by {
                            assert(now[j] == crates@[j]);
                        }
                    }
                },
            }
        } else {
            if let Some((i, _)) = winner {
                assert(now[i as int] == before[i as int]);
                assert(owns_file(now, place, i as int));
            }
        }
        n += 1;
    }
    assert(crates@.take(n as int) =~= crates@);
    match winner {
        Some((i, _)) => Some(i),
        None => None,
    }
}

/// The names of the crates that the files belong to, in order and each once.
pub fn directly_affected_crates(crates: &Vec<CrateInfo>, files: &Vec<String>) -> (result: Vec<
    String,
>)
    ensures
        touched_names(crates@, text::texts(files@), text::texts(result@)),
{
    let ghost all = text::texts(files@);
    let mut result: Vec<String> = Vec::new();
    let mut n: usize = 0;
    while n < files.len()
        invariant
            n <= files.len(),
            all == text::texts(files@),
            order::strictly_increasing(text::texts(result@)),
            forall|name: Seq<char>| #[trigger]
                text::texts(result@).contains(name) <==> touched(
                    crates@,
                    all.take(n as int),
                    name,
                ),
        decreases files.len() - n,
    {
        let ghost before = text::texts(result@);
        let ghost seen = all.take(n as int);
        let ghost now = all.take(n + 1);
        let ghost place = path::path_of(all[n as int]);
        assert(all[n as int] == files@[n as int]@);
        let owner = owning_crate(crates, files[n].as_str());
        if let Some(i) = owner {
            order::add_text(&mut result, crates[i].name.as_str());
            proof {
                let after = text::texts(result@);
                assert forall|name: Seq<char>| #[trigger]
                    after.contains(name) <==> before.contains(name) || name
                        == crates@[i as int].name@ by {
                    assert(after.to_set().contains(name) == before.to_set().insert(
                        crates@[i as int].name@,
                    ).contains(name));
                }
            }
        }
        proof {
            assert forall|name: Seq<char>| #[trigger]
                text::texts(result@).contains(name) <==> touched(crates@, now, name) by {
                if touched(crates@, seen, name) {
                    let (k, i) = choose|k: int, i: int|
                        0 <= k < seen.len() && #[trigger] owns_file(
                            crates@,
                            path::path_of(seen[k]),
                            i,
                        ) && crates@[i].name@ == name;
                    assert(now[k] == seen[k]);
                    assert(owns_file(crates@, path::path_of(now[k]), i));
                }
                if let Some(i) = owner {
                    assert(now[n as int] == all[n as int]);
                    assert(owns_file(crates@, path::path_of(now[n as int]), i as int));
                }
                if touched(crates@, now, name) {
                    let (k, i) = choose|k: int, i: int|
                        0 <= k < now.len() && #[trigger] owns_file(
                            crates@,
                            path::path_of(now[k]),
                            i,
                        ) && crates@[i].name@ == name;
                    if k < n {
                        assert(seen[k] == now[k]);
                        assert(owns_file(crates@, path::path_of(seen[k]), i));
                    } else {
                        assert(crates@[i] == crates@[i]);
                        match owner {
                            Some(j) => {
                                file_has_one_owner(crates@, place, i, j as int);
                            },
                            None => {},
                        }
                    }
                }
                assert(before.contains(name) <==> touched(crates@, seen, name));
            }
        }
        n += 1;
    }
    assert(all.take(n as int) =~= all);
    result
}

/// A file belongs to at most one crate.
pub proof fn file_has_one_owner(crates: Seq<CrateInfo>, file: Seq<Piece>, i: int, j: int)
    requires
        owns_file(crates, file, i),
        owns_file(crates, file, j),
    ensures
        i == j,
{
    assert(contains_file(dir_of(crates[i]), file));
    assert(contains_file(dir_of(crates[j]), file));
}

/// A file that is in the directory of a crate belongs to one.
pub proof fn file_in_a_crate_has_an_owner(crates: Seq<CrateInfo>, file: Seq<Piece>, i: int)
    requires
        0 <= i < crates.len(),
        contains_file(dir_of(crates[i]), file),
    ensures
        exists|k: int| owns_file(crates, file, k),
    decreases crates.len(),
{
    let n = crates.len() - 1;
    let rest = crates.drop_last();
    if exists|j: int| 0 <= j < n && contains_file(dir_of(#[trigger] crates[j]), file) {
        let j = choose|j: int| 0 <= j < n && contains_file(dir_of(#[trigger] crates[j]), file);
        assert(rest[j] == crates[j]);
        file_in_a_crate_has_an_owner(rest, file, j);
        let k = choose|k: int| owns_file(rest, file, k);
        assert(rest[k] == crates[k]);
        let last_wins = contains_file(dir_of(crates[n]), file) && depth(dir_of(crates[n])) > depth(
            dir_of(crates[k]),
        );
        let winner = if last_wins {
            n
        } else {
            k
        };
        assert forall|m: int|
            #![trigger crates[m]]
            0 <= m < crates.len() && contains_file(dir_of(crates[m]), file) implies {
            &&& depth(dir_of(crates[m])) <= depth(dir_of(crates[winner]))
            &&& m < winner ==> depth(dir_of(crates[m])) < depth(dir_of(crates[winner]))
        } by {
            if m < n {
                assert(rest[m] == crates[m]);
            }
        }
        assert(owns_file(crates, file, winner));
    } else {
        assert(i == n);
        assert(owns_file(crates, file, n));
    }
}

/// A commit as a release is planned from it.
pub open spec fn input_of(record: CommitRecord) -> CommitInput {
    CommitInput { hash: record.hash, subject: record.subject, body: record.body }
}

/// The commits that are part of the release of a crate.
pub open spec fn inputs_of(commits: Seq<CommitRecord>, included: Seq<bool>) -> Seq<CommitInput>
    decreases commits.len(),
{
    if commits.len() == 0 {
        Seq::empty()
    } else {
        let before = inputs_of(commits.drop_last(), included.drop_last());
        if included.last() {
            before.push(input_of(commits.last()))
        } else {
            before
        }
    }
}

/// The commits that are part of the release of a crate, as `included` says of each.
pub fn crate_commit_inputs(commits: Vec<CommitRecord>, included: &Vec<bool>) -> (result: Vec<
    CommitInput,
>)
    requires
        commits.len() == included.len(),
    ensures
        result@ == inputs_of(commits@, included@),
{
    let ghost all = commits@;
    let mut rest = commits;
    let mut result: Vec<CommitInput> = Vec::new();
    let mut n: usize = 0;
    assert(all.skip(0) =~= all);
    assert(inputs_of(all.take(0), included@.take(0)) =~= Seq::empty());
    while rest.len() > 0
        invariant
            n + rest.len() == all.len() == included.len(),
            rest@ == all.skip(n as int),
            result@ == inputs_of(all.take(n as int), included@.take(n as int)),
        decreases rest.len(),
    {
        let record = rest.remove(0);
        proof {
            assert(record == all[n as int]);
            assert(rest@ =~= all.skip(n + 1));
            assert(all.take(n + 1).drop_last() =~= all.take(n as int));
            assert(included@.take(n + 1).drop_last() =~= included@.take(n as int));
        }
        if included[n] {
            result.push(
                CommitInput { hash: record.hash, subject: record.subject, body: record.body },
            );
        }
        n += 1;
    }
    assert(all.take(n as int) =~= all);
    assert(included@.take(n as int) =~= included@);
    result
}

/// The names of the crates that each commit touches, commit by commit.
pub fn affected_by_commits(crates: &Vec<CrateInfo>, commits: &Vec<CommitRecord>) -> (result: Vec<
    Vec<String>,
>)
    ensures
        result.len() == commits.len(),
        forall|i: int|
            0 <= i < result.len() ==> touched_names(
                crates@,
                text::texts(commits@[i].files@),
                text::texts((#[trigger] result@[i])@),
            ),
{
    let mut result: Vec<Vec<String>> = Vec::new();
    let mut i: usize = 0;
    while i < commits.len()
        invariant
            i <= commits.len(),
            result.len() == i,
            forall|k: int|
                0 <= k < i ==> touched_names(
                    crates@,
                    text::texts(commits@[k].files@),
                    text::texts((#[trigger] result@[k])@),
                ),
        decreases commits.len() - i,
    {
        result.push(directly_affected_crates(crates, &commits[i].files));
        i += 1;
    }
    result
}

} // verus!
