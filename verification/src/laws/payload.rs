//! Which pushes are merges of releases.

use crate::laws::words;
use crate::publish;
use crate::publish::MergeDecision;
use crate::release;
use crate::text;
use vstd::prelude::*;

verus! {

/// The file is a manifest: its name ends in `Cargo.toml`.
pub open spec fn a_manifest(file: Seq<char>) -> bool {
    exists|before: Seq<char>| file == #[trigger] (before + "Cargo.toml"@)
}

/// One file that is neither a manifest nor the lockfile of the root, wherever it stands in
/// the list, makes a push something else than the merge of a release.
pub proof fn one_other_file_is_enough(files: &Vec<String>, payload: bool, k: int)
    requires
        call_ensures(release::is_release_merge_payload, (files,), payload),
        0 <= k < files@.len(),
        !a_manifest(files@[k]@),
        files@[k]@ != "Cargo.lock"@,
    ensures
        !payload,
{
    words::ending_split(files@[k]@, "Cargo.toml"@);
    assert(text::texts(files@)[k] == files@[k]@);
}

/// The lockfile alone, or no file at all, is not the merge of a release.
pub proof fn a_payload_has_a_manifest(files: &Vec<String>, payload: bool)
    requires
        call_ensures(release::is_release_merge_payload, (files,), payload),
        forall|k: int| 0 <= k < files@.len() ==> !a_manifest((#[trigger] files@[k])@),
    ensures
        !payload,
{
    let all = text::texts(files@);
    assert forall|k: int| 0 <= k < all.len() implies !release::is_manifest(#[trigger] all[k]) by {
        assert(!a_manifest(files@[k]@));
        words::ending_split(files@[k]@, "Cargo.toml"@);
    }
}

/// Manifests and the lockfile of the root, with a manifest at any place among them, are the
/// merge of a release.
pub proof fn manifests_and_lockfile_are_a_payload(files: &Vec<String>, payload: bool, m: int)
    requires
        call_ensures(release::is_release_merge_payload, (files,), payload),
        0 <= m < files@.len(),
        a_manifest(files@[m]@),
        forall|k: int|
            0 <= k < files@.len() ==> a_manifest((#[trigger] files@[k])@) || files@[k]@
                == "Cargo.lock"@,
    ensures
        payload,
{
    let all = text::texts(files@);
    assert forall|k: int| 0 <= k < all.len() implies release::is_manifest(#[trigger] all[k])
        || all[k] == "Cargo.lock"@ by {
        assert(a_manifest(files@[k]@) || files@[k]@ == "Cargo.lock"@);
        words::ending_split(files@[k]@, "Cargo.toml"@);
    }
    words::ending_split(files@[m]@, "Cargo.toml"@);
    assert(release::is_manifest(all[m]));
}

/// The order of the files, and how often they are listed, make no difference.
pub proof fn the_order_of_files_makes_no_difference(
    a: &Vec<String>,
    b: &Vec<String>,
    payload_a: bool,
    payload_b: bool,
)
    requires
        call_ensures(release::is_release_merge_payload, (a,), payload_a),
        call_ensures(release::is_release_merge_payload, (b,), payload_b),
        forall|i: int|
            0 <= i < a@.len() ==> exists|j: int|
                0 <= j < b@.len() && (#[trigger] b@[j])@ == (#[trigger] a@[i])@,
        forall|j: int|
            0 <= j < b@.len() ==> exists|i: int|
                0 <= i < a@.len() && (#[trigger] a@[i])@ == (#[trigger] b@[j])@,
    ensures
        payload_a == payload_b,
{
    if payload_a {
        payload_carries_over(a, b, payload_b);
    }
    if payload_b {
        payload_carries_over(b, a, payload_a);
    }
}

proof fn payload_carries_over(a: &Vec<String>, b: &Vec<String>, payload_b: bool)
    requires
        release::release_payload(text::texts(a@)),
        call_ensures(release::is_release_merge_payload, (b,), payload_b),
        forall|i: int|
            0 <= i < a@.len() ==> exists|j: int|
                0 <= j < b@.len() && (#[trigger] b@[j])@ == (#[trigger] a@[i])@,
        forall|j: int|
            0 <= j < b@.len() ==> exists|i: int|
                0 <= i < a@.len() && (#[trigger] a@[i])@ == (#[trigger] b@[j])@,
    ensures
        payload_b,
{
    let x = text::texts(a@);
    let y = text::texts(b@);
    let m = choose|m: int| 0 <= m < x.len() && release::is_manifest(#[trigger] x[m]);
    assert(x[m] == a@[m]@);
    let n = choose|n: int| 0 <= n < b@.len() && (#[trigger] b@[n])@ == a@[m]@;
    assert(release::is_manifest(y[n]));
    assert forall|k: int| 0 <= k < y.len() implies release::is_manifest(#[trigger] y[k]) || y[k]
        == "Cargo.lock"@ by {
        assert(y[k] == b@[k]@);
        let i = choose|i: int| 0 <= i < a@.len() && (#[trigger] a@[i])@ == b@[k]@;
        assert(x[i] == a@[i]@);
    }
}

/// Only the merge of a release is published, and nothing is said of it; of every other push
/// it is said that it is skipped.
pub proof fn only_merges_of_releases_are_published(
    files: &Vec<String>,
    payload: bool,
    decision: MergeDecision,
    said: Option<String>,
)
    requires
        call_ensures(release::is_release_merge_payload, (files,), payload),
        call_ensures(publish::publish_on_merge, (Some(files),), decision),
        call_ensures(publish::skipped_merge, (decision,), said),
    ensures
        decision == MergeDecision::Publish <==> payload,
        decision == MergeDecision::NoChanges <==> files@.len() == 0,
        decision != MergeDecision::NotAPush,
        said is None <==> payload,
        files@.len() == 0 ==> (said matches Some(words) && words@
            == "publish-on-merge: skipped (no changed files)"@),
        files@.len() > 0 && !payload ==> (said matches Some(words) && words@
            == "publish-on-merge: skipped (changes are not release payload)"@),
{
    assert(text::texts(files@).len() == files@.len());
}

/// Where there is no push, nothing is published.
pub proof fn nothing_is_published_without_a_push(decision: MergeDecision, said: Option<String>)
    requires
        call_ensures(publish::publish_on_merge, (None,), decision),
        call_ensures(publish::skipped_merge, (decision,), said),
    ensures
        decision == MergeDecision::NotAPush,
        said matches Some(words) && words@
            == "publish-on-merge: skipped (not a push merge payload)"@,
{
}

} // verus!
