//! The crates that files and commits belong to.

use crate::git::CommitRecord;
use crate::path;
use crate::path::Piece;
use crate::plan::CrateInfo;
use crate::release;
use crate::text;
use crate::text::Rank;
use vstd::prelude::*;

verus! {

/// The file is in the directory: the directory is the root, or the path of the file starts
/// with that of the directory.
pub open spec fn in_directory(dir: Seq<char>, file: Seq<char>) -> bool {
    let whole = path::path_of(file);
    let start = path::path_of(dir);
    start == seq![Piece::Current] || (start.len() <= whole.len() && forall|i: int|
        0 <= i < start.len() ==> #[trigger] whole[i] == start[i])
}

/// How many components deep a directory is; the root is not deep at all.
pub open spec fn components_deep(dir: Seq<char>) -> int {
    if path::path_of(dir) == seq![Piece::Current] {
        0
    } else {
        path::path_of(dir).len() as int
    }
}

/// The crate at `i` is the one that the file is given to: of the crates whose directories it
/// is in, the one in the deepest, and of several as deep the first.
pub open spec fn given_to(crates: Seq<CrateInfo>, file: Seq<char>, i: int) -> bool {
    &&& 0 <= i < crates.len()
    &&& in_directory(crates[i].crate_dir@, file)
    &&& forall|j: int|
        #![trigger crates[j]]
        0 <= j < crates.len() && in_directory(crates[j].crate_dir@, file) ==> components_deep(
            crates[j].crate_dir@,
        ) <= components_deep(crates[i].crate_dir@)
    &&& forall|j: int|
        #![trigger crates[j]]
        0 <= j < i && in_directory(crates[j].crate_dir@, file) ==> components_deep(
            crates[j].crate_dir@,
        ) < components_deep(crates[i].crate_dir@)
}

proof fn containing_is_in_directory(dir: Seq<char>, file: Seq<char>)
    ensures
        release::contains_file(path::path_of(dir), path::path_of(file)) == in_directory(dir, file),
        release::depth(path::path_of(dir)) == components_deep(dir),
{
    let whole = path::path_of(file);
    let start = path::path_of(dir);
    if path::under(whole, start) {
        assert forall|i: int| 0 <= i < start.len() implies #[trigger] whole[i] == start[i] by {
            assert(whole.take(start.len() as int)[i] == whole[i]);
        }
    }
    if in_directory(dir, file) && start != seq![Piece::Current] {
        assert(whole.take(start.len() as int) =~= start);
    }
}

proof fn given_is_owned(crates: Seq<CrateInfo>, file: Seq<char>, i: int)
    ensures
        given_to(crates, file, i) == release::owns_file(crates, path::path_of(file), i),
{
    assert forall|j: int| 0 <= j < crates.len() implies release::contains_file(
        release::dir_of(#[trigger] crates[j]),
        path::path_of(file),
    ) == in_directory(crates[j].crate_dir@, file) && release::depth(release::dir_of(crates[j]))
        == components_deep(crates[j].crate_dir@) by {
        containing_is_in_directory(crates[j].crate_dir@, file);
    }
}

/// A directory holds a file exactly where the components of the file start with its own; the
/// root holds every file.
pub proof fn directories_hold_what_is_below_them(crate_dir: &str, file: &str, b: bool)
    requires
        call_ensures(release::crate_contains_file, (crate_dir, file), b),
    ensures
        b == in_directory(crate_dir@, file@),
{
    containing_is_in_directory(crate_dir@, file@);
}

/// A file goes to the crate in the deepest directory that holds it, and to the first of
/// several as deep; to none exactly where no directory holds it.
pub proof fn files_go_to_the_deepest_crate(
    crates: &Vec<CrateInfo>,
    file: &str,
    result: Option<usize>,
)
    requires
        call_ensures(release::owning_crate, (crates, file), result),
    ensures
        match result {
            Some(i) => given_to(crates@, file@, i as int),
            None => forall|j: int|
                0 <= j < crates@.len() ==> !in_directory((#[trigger] crates@[j]).crate_dir@, file@),
        },
{
    match result {
        Some(i) => {
            given_is_owned(crates@, file@, i as int);
        },
        None => {
            assert(release::held_nowhere(crates@, path::path_of(file@)));
            assert forall|j: int| 0 <= j < crates@.len() implies !in_directory(
                (#[trigger] crates@[j]).crate_dir@,
                file@,
            ) by {
                containing_is_in_directory(crates@[j].crate_dir@, file@);
                assert(!release::contains_file(
                    release::dir_of(crates@[j]),
                    path::path_of(file@),
                ));
            }
        },
    }
}

/// The crate that a file is given to is affected, whatever other files there are.
pub proof fn crates_of_files_are_affected(
    crates: &Vec<CrateInfo>,
    files: &Vec<String>,
    result: Vec<String>,
    k: int,
    i: int,
)
    requires
        call_ensures(release::directly_affected_crates, (crates, files), result),
        0 <= k < files@.len(),
        given_to(crates@, files@[k]@, i),
    ensures
        exists|n: int| 0 <= n < result@.len() && (#[trigger] result@[n])@ == crates@[i].name@,
{
    let all = text::texts(files@);
    let names = text::texts(result@);
    given_is_owned(crates@, files@[k]@, i);
    assert(all[k] == files@[k]@);
    assert(release::owns_file(crates@, path::path_of(all[k]), i));
    assert(release::touched(crates@, all, crates@[i].name@));
    assert(names.contains(crates@[i].name@));
    let n = names.index_of(crates@[i].name@);
    assert(result@[n]@ == names[n]);
}

/// Only crates that a file is given to are affected, and each is named once, in order.
pub proof fn only_crates_of_files_are_affected(
    crates: &Vec<CrateInfo>,
    files: &Vec<String>,
    result: Vec<String>,
    n: int,
)
    requires
        call_ensures(release::directly_affected_crates, (crates, files), result),
        0 <= n < result@.len(),
    ensures
        exists|k: int, i: int|
            0 <= k < files@.len() && #[trigger] given_to(crates@, files@[k]@, i)
                && crates@[i].name@ == result@[n]@,
        forall|m: int|
            0 <= m < n ==> text::text_rank((#[trigger] result@[m])@, result@[n]@) == Rank::Before,
{
    let all = text::texts(files@);
    let names = text::texts(result@);
    assert(names[n] == result@[n]@);
    assert(names.contains(result@[n]@));
    assert(release::touched(crates@, all, result@[n]@));
    let (k, i) = choose|k: int, i: int|
        0 <= k < all.len() && #[trigger] release::owns_file(crates@, path::path_of(all[k]), i)
            && crates@[i].name@ == result@[n]@;
    assert(all[k] == files@[k]@);
    given_is_owned(crates@, files@[k]@, i);
    assert forall|m: int| 0 <= m < n implies text::text_rank(
        (#[trigger] result@[m])@,
        result@[n]@,
    ) == Rank::Before by {
        assert(names[m] == result@[m]@);
    }
}

/// What a commit affects is what its files affect.
pub proof fn commits_affect_what_their_files_do(
    crates: &Vec<CrateInfo>,
    commits: &Vec<CommitRecord>,
    result: Vec<Vec<String>>,
    c: int,
    k: int,
    i: int,
)
    requires
        call_ensures(release::affected_by_commits, (crates, commits), result),
        0 <= c < commits@.len(),
        0 <= k < commits@[c].files@.len(),
        given_to(crates@, commits@[c].files@[k]@, i),
    ensures
        result@.len() == commits@.len(),
        exists|n: int|
            0 <= n < result@[c]@.len() && (#[trigger] result@[c]@[n])@ == crates@[i].name@,
{
    let all = text::texts(commits@[c].files@);
    let names = text::texts(result@[c]@);
    given_is_owned(crates@, commits@[c].files@[k]@, i);
    assert(all[k] == commits@[c].files@[k]@);
    assert(release::owns_file(crates@, path::path_of(all[k]), i));
    assert(release::touched(crates@, all, crates@[i].name@));
    assert(release::touched_names(crates@, all, names));
    assert(names.contains(crates@[i].name@));
    let n = names.index_of(crates@[i].name@);
    assert(result@[c]@[n]@ == names[n]);
}

/// A commit affects no crate that none of its files is given to.
pub proof fn commits_affect_nothing_else(
    crates: &Vec<CrateInfo>,
    commits: &Vec<CommitRecord>,
    result: Vec<Vec<String>>,
    c: int,
    n: int,
)
    requires
        call_ensures(release::affected_by_commits, (crates, commits), result),
        0 <= c < commits@.len(),
        0 <= n < result@[c]@.len(),
    ensures
        exists|k: int, i: int|
            0 <= k < commits@[c].files@.len() && #[trigger] given_to(
                crates@,
                commits@[c].files@[k]@,
                i,
            ) && crates@[i].name@ == result@[c]@[n]@,
{
    let all = text::texts(commits@[c].files@);
    let names = text::texts(result@[c]@);
    assert(release::touched_names(crates@, all, names));
    assert(names[n] == result@[c]@[n]@);
    assert(names.contains(names[n]));
    let (k, i) = choose|k: int, i: int|
        0 <= k < all.len() && #[trigger] release::owns_file(crates@, path::path_of(all[k]), i)
            && crates@[i].name@ == names[n];
    assert(all[k] == commits@[c].files@[k]@);
    given_is_owned(crates@, commits@[c].files@[k]@, i);
}

} // verus!
