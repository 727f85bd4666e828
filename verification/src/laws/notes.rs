//! Changelogs and the notes of releases.

use crate::changelog;
use crate::plan::{CommitKind, CrateReleaseNotes, PlannedCommit, ReleasePlan};
use crate::publish;
use crate::text;
use crate::version;
use crate::version::Version;
use vstd::prelude::*;

verus! {

/// A hash of ASCII characters is shortened to its first seven, and a shorter one stays.
pub proof fn hashes_are_shortened_to_seven_characters(hash: &str, result: String)
    requires
        call_ensures(changelog::short_hash, (hash,), result),
        forall|i: int| 0 <= i < hash@.len() ==> (#[trigger] hash@[i] as u32) < 0x80,
    ensures
        result@ == if hash@.len() < 7 {
            hash@
        } else {
            hash@.take(7)
        },
{
    changelog::ascii_hash_can_be_cut(hash@, 7);
    assert(hash@.take(hash@.len() as int) =~= hash@);
}

/// A shortened hash is a beginning of the hash.
pub proof fn shortened_hashes_are_beginnings(hash: &str, result: String)
    requires
        call_ensures(changelog::short_hash, (hash,), result),
    ensures
        result@.len() <= hash@.len(),
        result@ == hash@.take(result@.len() as int),
{
    fitting_within(hash@, 7);
}

proof fn fitting_within(s: Seq<char>, bytes: nat)
    ensures
        changelog::fitting(s, bytes) <= s.len(),
    decreases s.len(),
{
    if s.len() > 0 && changelog::width(s.first()) <= bytes {
        fitting_within(s.drop_first(), (bytes - changelog::width(s.first())) as nat);
    }
}

/// How the line of a commit reads, with its hash shortened.
pub open spec fn line_text(subject: Seq<char>, short: Seq<char>, breaking: bool) -> Seq<char> {
    if breaking {
        "- "@ + subject + " ("@ + short + ") **BREAKING**\n"@
    } else {
        "- "@ + subject + " ("@ + short + ")\n"@
    }
}

/// The lines of the commits, one after the other.
pub open spec fn lines_text(commits: Seq<PlannedCommit>) -> Seq<char>
    decreases commits.len(),
{
    if commits.len() == 0 {
        Seq::empty()
    } else {
        lines_text(commits.drop_last()) + line_text(
            commits.last().subject@,
            changelog::short(commits.last().hash@),
            commits.last().breaking,
        )
    }
}

/// The title over the commits of a kind.
pub open spec fn title_of(kind: CommitKind) -> Seq<char> {
    match kind {
        CommitKind::Feature => "Features"@,
        CommitKind::Fix => "Fixes"@,
        CommitKind::Refactor => "Refactors"@,
        CommitKind::Documentation => "Documentation"@,
        CommitKind::Chore => "Chores"@,
        CommitKind::Other => "Other"@,
    }
}

/// The commits of a kind, in their order.
pub open spec fn of_kind(commits: Seq<PlannedCommit>, kind: CommitKind) -> Seq<PlannedCommit> {
    commits.filter(|commit: PlannedCommit| commit.kind == kind)
}

/// The block of a kind: its title and the lines of its commits; nothing without commits.
pub open spec fn block(commits: Seq<PlannedCommit>, kind: CommitKind) -> Seq<char> {
    let own = of_kind(commits, kind);
    if own.len() == 0 {
        Seq::empty()
    } else {
        "### "@ + title_of(kind) + "\n"@ + lines_text(own) + "\n"@
    }
}

proof fn section_is_block(commits: Seq<PlannedCommit>, kind: CommitKind)
    ensures
        changelog::section(title_of(kind), commits, kind) == block(commits, kind),
{
    kind_lines_are_lines(commits, kind);
}

proof fn kind_lines_are_lines(commits: Seq<PlannedCommit>, kind: CommitKind)
    ensures
        changelog::kind_lines(commits, kind) == lines_text(of_kind(commits, kind)),
        changelog::has_kind(commits, kind) <==> of_kind(commits, kind).len() > 0,
    decreases commits.len(),
{
    let pred = |commit: PlannedCommit| commit.kind == kind;
    reveal(Seq::filter);
    if commits.len() > 0 {
        let rest = commits.drop_last();
        let last = commits.last();
        kind_lines_are_lines(rest, kind);
        let own = of_kind(commits, kind);
        let before = of_kind(rest, kind);
        if last.kind == kind {
            assert(own =~= before.push(last));
            assert(own.drop_last() =~= before);
            assert(commits[commits.len() - 1].kind == kind);
        } else {
            assert(own =~= before);
        }
        if changelog::has_kind(rest, kind) {
            let i = choose|i: int| 0 <= i < rest.len() && (#[trigger] rest[i]).kind == kind;
            assert(commits[i] == rest[i]);
        }
        if changelog::has_kind(commits, kind) && last.kind != kind {
            let i = choose|i: int| 0 <= i < commits.len() && (#[trigger] commits[i]).kind == kind;
            assert(rest[i] == commits[i]);
        }
    }
}

/// The notes of a release say since when the changes are, where that is known, and then list
/// the commits kind by kind, each with its subject, its hash and whether it breaks, in their
/// order.
pub proof fn notes_list_the_commits_kind_by_kind(
    base_ref: Option<&str>,
    commits: &Vec<PlannedCommit>,
    result: String,
)
    requires
        call_ensures(changelog::render_release_notes, (base_ref, commits), result),
    ensures
        result@ == (match base_ref {
            Some(base) => "Changes since `"@ + base@ + "`\n\n"@,
            None => Seq::<char>::empty(),
        }) + (block(commits@, CommitKind::Feature) + block(commits@, CommitKind::Fix) + block(
            commits@,
            CommitKind::Refactor,
        ) + block(commits@, CommitKind::Documentation) + block(commits@, CommitKind::Chore)
            + block(commits@, CommitKind::Other)),
{
    section_is_block(commits@, CommitKind::Feature);
    section_is_block(commits@, CommitKind::Fix);
    section_is_block(commits@, CommitKind::Refactor);
    section_is_block(commits@, CommitKind::Documentation);
    section_is_block(commits@, CommitKind::Chore);
    section_is_block(commits@, CommitKind::Other);
}

/// Every commit of a release has its line in the notes.
pub proof fn every_commit_has_its_line(
    base_ref: Option<&str>,
    commits: &Vec<PlannedCommit>,
    result: String,
    i: int,
)
    requires
        call_ensures(changelog::render_release_notes, (base_ref, commits), result),
        0 <= i < commits@.len(),
    ensures
        text::contains_text(
            result@,
            line_text(
                commits@[i].subject@,
                changelog::short(commits@[i].hash@),
                commits@[i].breaking,
            ),
        ),
{
    let base = match base_ref {
        Some(content) => Some(content@),
        None => None,
    };
    changelog::every_commit_is_rendered(base, commits@, i);
}

/// The changelog of a plan is a heading with its next version, and then the notes of its
/// commits since its base.
pub proof fn changelog_is_a_heading_and_the_notes(
    plan: &ReleasePlan,
    base_ref: Option<&str>,
    markdown: String,
    notes: String,
)
    requires
        call_ensures(changelog::render_markdown, (plan,), markdown),
        match (plan.base_tag, base_ref) {
            (Some(a), Some(b)) => a@ == b@,
            (None, None) => true,
            _ => false,
        },
        call_ensures(changelog::render_release_notes, (base_ref, &plan.commits), notes),
    ensures
        markdown@ == "## "@ + version::version_text(plan.next_version@) + "\n\n"@ + notes@,
{
    assert(markdown@ =~= "## "@ + version::version_text(plan.next_version@) + "\n\n"@ + notes@);
}

/// The notes at `i` are the last of the crate.
pub open spec fn last_notes(notes: Seq<CrateReleaseNotes>, name: Seq<char>, i: int) -> bool {
    &&& 0 <= i < notes.len()
    &&& notes[i].crate_name@ == name
    &&& forall|j: int| i < j < notes.len() ==> (#[trigger] notes[j]).crate_name@ != name
}

proof fn last_notes_are_found(notes: Seq<CrateReleaseNotes>, name: Seq<char>, i: int)
    requires
        last_notes(notes, name, i),
    ensures
        publish::notes_named(notes, name) == Some(i),
    decreases notes.len(),
{
    if i < notes.len() - 1 {
        assert(notes[notes.len() - 1].crate_name@ != name);
        let rest = notes.drop_last();
        assert forall|j: int| i < j < rest.len() implies (#[trigger] rest[j]).crate_name@
            != name by {
            assert(notes[j].crate_name@ != name);
        }
        last_notes_are_found(rest, name, i);
    }
}

proof fn no_notes_are_found(notes: Seq<CrateReleaseNotes>, name: Seq<char>)
    requires
        forall|j: int| 0 <= j < notes.len() ==> (#[trigger] notes[j]).crate_name@ != name,
    ensures
        publish::notes_named(notes, name) is None,
    decreases notes.len(),
{
    if notes.len() > 0 {
        assert(notes[notes.len() - 1].crate_name@ != name);
        let rest = notes.drop_last();
        assert forall|j: int| 0 <= j < rest.len() implies (#[trigger] rest[j]).crate_name@
            != name by {
            assert(notes[j].crate_name@ != name);
        }
        no_notes_are_found(rest, name);
    }
}

/// What the release of a version says is what is rendered of the last notes of its crate:
/// of their base and of all their commits. So it holds the line of every commit.
pub proof fn releases_say_the_notes_of_their_crate(
    crate_name: &str,
    version: &Version,
    notes: &Vec<CrateReleaseNotes>,
    said: String,
    i: int,
    base_ref: Option<&str>,
    rendered: String,
)
    requires
        call_ensures(publish::publish_notes, (crate_name, version, notes), said),
        last_notes(notes@, crate_name@, i),
        match (notes@[i].base_ref, base_ref) {
            (Some(a), Some(b)) => a@ == b@,
            (None, None) => true,
            _ => false,
        },
        call_ensures(
            changelog::render_release_notes,
            (base_ref, &notes@[i].commits),
            rendered,
        ),
    ensures
        said@ == rendered@,
        forall|k: int|
            #![trigger notes@[i].commits@[k]]
            0 <= k < notes@[i].commits@.len() ==> text::contains_text(
                said@,
                line_text(
                    notes@[i].commits@[k].subject@,
                    changelog::short(notes@[i].commits@[k].hash@),
                    notes@[i].commits@[k].breaking,
                ),
            ),
{
    last_notes_are_found(notes@, crate_name@, i);
    let commits = &notes@[i].commits;
    assert forall|k: int|
        #![trigger notes@[i].commits@[k]]
        0 <= k < notes@[i].commits@.len() implies text::contains_text(
        said@,
        line_text(
            notes@[i].commits@[k].subject@,
            changelog::short(notes@[i].commits@[k].hash@),
            notes@[i].commits@[k].breaking,
        ),
    ) by {
        every_commit_has_its_line(base_ref, commits, rendered, k);
    }
}

/// Where there are no notes of a crate, its release says which version it is of.
pub proof fn releases_without_notes_name_their_version(
    crate_name: &str,
    version: &Version,
    notes: &Vec<CrateReleaseNotes>,
    said: String,
)
    requires
        call_ensures(publish::publish_notes, (crate_name, version, notes), said),
        forall|j: int| 0 <= j < notes@.len() ==> (#[trigger] notes@[j]).crate_name@ != crate_name@,
    ensures
        said@ == "Automated publish for crate `"@ + crate_name@ + "` at version `"@
            + version::version_text(version@) + "`."@,
{
    no_notes_are_found(notes@, crate_name@);
}

/// The number of bytes that a text takes in UTF-8.
pub open spec fn bytes_taken(s: Seq<char>) -> nat
    decreases s.len(),
{
    if s.len() == 0 {
        0
    } else {
        let code = s.last() as u32;
        bytes_taken(s.drop_last()) + (if code < 0x80 {
            1nat
        } else if code < 0x800 {
            2nat
        } else if code < 0x10000 {
            3nat
        } else {
            4nat
        })
    }
}

proof fn first_bytes_counted(s: Seq<char>)
    requires
        s.len() > 0,
    ensures
        bytes_taken(s) == changelog::width(s.first()) + bytes_taken(s.drop_first()),
    decreases s.len(),
{
    reveal_with_fuel(bytes_taken, 2);
    if s.len() > 1 {
        first_bytes_counted(s.drop_last());
        assert(s.drop_last().drop_first() =~= s.drop_first().drop_last());
        assert(s.drop_first().last() == s.last());
        assert(s.drop_last().first() == s.first());
    } else {
        assert(s.drop_last() =~= Seq::empty());
        assert(s.drop_first() =~= Seq::empty());
    }
}

proof fn cut_by_bytes(s: Seq<char>, bytes: nat)
    ensures
        ({
            let n = changelog::fitting(s, bytes) as int;
            &&& 0 <= n <= s.len()
            &&& bytes_taken(s.take(n)) <= bytes
            &&& n < s.len() ==> bytes_taken(s.take(n + 1)) > bytes
            &&& changelog::can_be_cut(s, bytes) <==> n == s.len() || bytes_taken(s.take(n))
                == bytes
        }),
    decreases s.len(),
{
    let n = changelog::fitting(s, bytes) as int;
    assert(s.take(0) =~= Seq::<char>::empty());
    assert(bytes_taken(s.take(0)) == 0);
    if s.len() > 0 {
        let wide = changelog::width(s.first());
        assert(s.take(1).drop_first() =~= Seq::empty());
        first_bytes_counted(s.take(1));
        if wide <= bytes {
            let rest = s.drop_first();
            cut_by_bytes(rest, (bytes - wide) as nat);
            assert(s.take(n).drop_first() =~= rest.take(n - 1));
            assert(s.take(n).first() == s.first());
            first_bytes_counted(s.take(n));
            if n < s.len() {
                assert(s.take(n + 1).drop_first() =~= rest.take(n));
                assert(s.take(n + 1).first() == s.first());
                first_bytes_counted(s.take(n + 1));
            }
        }
    }
}

/// A hash is shortened to as many of its characters as seven bytes hold: one more would not
/// fit.
pub proof fn hashes_are_shortened_to_seven_bytes(hash: &str, result: String)
    requires
        call_ensures(changelog::short_hash, (hash,), result),
    ensures
        result@.len() <= hash@.len(),
        result@ == hash@.take(result@.len() as int),
        bytes_taken(result@) <= 7,
        result@.len() < hash@.len() ==> bytes_taken(hash@.take(result@.len() as int + 1)) > 7,
{
    cut_by_bytes(hash@, 7);
}

/// A hash can be shortened exactly where it has no more than seven bytes or a character ends
/// at the seventh.
pub proof fn hashes_are_cut_between_characters(hash: &str, result: bool)
    requires
        call_ensures(changelog::hash_can_be_cut, (hash,), result),
    ensures
        result <==> bytes_taken(hash@) <= 7 || exists|n: int|
            0 <= n <= hash@.len() && bytes_taken(#[trigger] hash@.take(n)) == 7,
{
    cut_by_bytes(hash@, 7);
    let n = changelog::fitting(hash@, 7) as int;
    assert(hash@.take(hash@.len() as int) =~= hash@);
    if bytes_taken(hash@) <= 7 && n < hash@.len() {
        bytes_grow(hash@, n + 1, hash@.len() as int);
    }
    if let Some(m) = seventh_byte(hash@) {
        if n < hash@.len() && m > n {
            bytes_grow(hash@, n + 1, m);
        } else if m < n {
            bytes_grow(hash@, m + 1, n);
            assert(hash@.take(m + 1).drop_last() =~= hash@.take(m));
        }
    }
}

spec fn seventh_byte(s: Seq<char>) -> Option<int> {
    if exists|n: int| 0 <= n <= s.len() && bytes_taken(#[trigger] s.take(n)) == 7 {
        Some(choose|n: int| 0 <= n <= s.len() && bytes_taken(#[trigger] s.take(n)) == 7)
    } else {
        None
    }
}

proof fn bytes_grow(s: Seq<char>, m: int, n: int)
    requires
        0 <= m <= n <= s.len(),
    ensures
        bytes_taken(s.take(m)) <= bytes_taken(s.take(n)),
    decreases n - m,
{
    if m < n {
        bytes_grow(s, m, n - 1);
        assert(s.take(n).drop_last() =~= s.take(n - 1));
    }
}

} // verus!
