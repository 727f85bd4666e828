//! The changelog of a release, in Markdown.

use crate::plan::{CommitKind, PlannedCommit, ReleasePlan};
use crate::text;
use crate::version;
use vstd::prelude::*;

verus! {

/// The number of bytes that a character takes in UTF-8.
pub open spec fn width(c: char) -> nat {
    let n = c as u32;
    if n < 0x80 {
        1
    } else if n < 0x800 {
        2
    } else if n < 0x10000 {
        3
    } else {
        4
    }
}

/// The number of leading characters that take at most so many bytes.
pub open spec fn fitting(s: Seq<char>, bytes: nat) -> nat
    decreases s.len(),
{
    if s.len() == 0 || width(s.first()) > bytes {
        0
    } else {
        1 + fitting(s.drop_first(), (bytes - width(s.first())) as nat)
    }
}

/// The text ends within so many bytes, or a character ends right there.
pub open spec fn can_be_cut(s: Seq<char>, bytes: nat) -> bool
    decreases s.len(),
{
    ||| s.len() == 0
    ||| bytes == 0
    ||| (width(s.first()) <= bytes && can_be_cut(
        s.drop_first(),
        (bytes - width(s.first())) as nat,
    ))
}

/// The first seven bytes of a hash.
pub open spec fn short(hash: Seq<char>) -> Seq<char> {
    hash.take(fitting(hash, 7) as int)
}

/// The line of a commit.
pub open spec fn commit_line(commit: PlannedCommit) -> Seq<char> {
    "- "@ + commit.subject@ + " ("@ + short(commit.hash@) + if commit.breaking {
        ") **BREAKING**\n"@
    } else {
        ")\n"@
    }
}

/// The lines of the commits of a kind.
pub open spec fn kind_lines(commits: Seq<PlannedCommit>, kind: CommitKind) -> Seq<char>
    decreases commits.len(),
{
    if commits.len() == 0 {
        Seq::empty()
    } else {
        let before = kind_lines(commits.drop_last(), kind);
        if commits.last().kind == kind {
            before + commit_line(commits.last())
        } else {
            before
        }
    }
}

/// There is a commit of the kind.
pub open spec fn has_kind(commits: Seq<PlannedCommit>, kind: CommitKind) -> bool {
    exists|i: int| 0 <= i < commits.len() && (#[trigger] commits[i]).kind == kind
}

/// The section of a kind; there is none where no commit is of the kind.
pub open spec fn section(
    title: Seq<char>,
    commits: Seq<PlannedCommit>,
    kind: CommitKind,
) -> Seq<char> {
    if has_kind(commits, kind) {
        "### "@ + title + "\n"@ + kind_lines(commits, kind) + "\n"@
    } else {
        Seq::empty()
    }
}

/// The line with the version.
pub open spec fn version_heading(version: Option<Seq<char>>) -> Seq<char> {
    match version {
        Some(content) => "## "@ + content + "\n\n"@,
        None => Seq::empty(),
    }
}

/// The line that says since when the changes are.
pub open spec fn since(base_ref: Option<Seq<char>>) -> Seq<char> {
    match base_ref {
        Some(content) => "Changes since `"@ + content + "`\n\n"@,
        None => Seq::empty(),
    }
}

/// The sections of all kinds.
pub open spec fn all_sections(commits: Seq<PlannedCommit>) -> Seq<char> {
    section("Features"@, commits, CommitKind::Feature) + section(
        "Fixes"@,
        commits,
        CommitKind::Fix,
    ) + section("Refactors"@, commits, CommitKind::Refactor) + section(
        "Documentation"@,
        commits,
        CommitKind::Documentation,
    ) + section("Chores"@, commits, CommitKind::Chore) + section(
        "Other"@,
        commits,
        CommitKind::Other,
    )
}

/// The notes of a release.
pub open spec fn notes_text(base_ref: Option<Seq<char>>, commits: Seq<PlannedCommit>) -> Seq<
    char,
> {
    since(base_ref) + all_sections(commits)
}

/// The changelog of a plan.
pub open spec fn markdown_text(plan: ReleasePlan) -> Seq<char> {
    version_heading(Some(version::version_text(plan.next_version@))) + notes_text(
        text::maybe_text(plan.base_tag),
        plan.commits@,
    )
}

/// Every hash can be shortened.
pub open spec fn hashes_can_be_cut(commits: Seq<PlannedCommit>) -> bool {
    forall|i: int| 0 <= i < commits.len() ==> can_be_cut((#[trigger] commits[i]).hash@, 7)
}

/// The number of bytes that a character takes in UTF-8.
fn char_width(c: char) -> (n: usize)
    ensures
        n == width(c),
        1 <= n <= 4,
{
    let code: u32 = c as u32;
    if code < 0x80 {
        1
    } else if code < 0x800 {
        2
    } else if code < 0x10000 {
        3
    } else {
        4
    }
}

/// Whether a hash can be shortened to its first seven bytes.
pub fn hash_can_be_cut(hash: &str) -> (b: bool)
    ensures
        b == can_be_cut(hash@, 7),
{
    let chars = text::chars_of(hash);
    let mut left: usize = 7;
    let mut i: usize = 0;
    assert(hash@.skip(0) =~= hash@);
    while i < chars.len() && left > 0
        invariant
            i <= chars.len(),
            chars@ == hash@,
            left <= 7,
            can_be_cut(hash@, 7) == can_be_cut(hash@.skip(i as int), left as nat),
        decreases chars.len() - i,
    {
        let rest_width: usize = char_width(chars[i]);
        assert(hash@.skip(i as int).drop_first() =~= hash@.skip(i + 1));
        assert(hash@.skip(i as int).first() == hash@[i as int]);
        if rest_width > left {
            return false;
        }
        left -= rest_width;
        i += 1;
    }
    true
}

/// The first seven bytes of a hash, or all of it where it is shorter.
pub fn short_hash(hash: &str) -> (result: String)
    requires
        can_be_cut(hash@, 7),
    ensures
        result@ == short(hash@),
{
    let chars = text::chars_of(hash);
    let mut left: usize = 7;
    let mut i: usize = 0;
    assert(hash@.skip(0) =~= hash@);
    while i < chars.len() && char_width(chars[i]) <= left
        invariant
            i <= chars.len(),
            chars@ == hash@,
            left <= 7,
            fitting(hash@, 7) == i + fitting(hash@.skip(i as int), left as nat),
        decreases chars.len() - i,
    {
        let used: usize = char_width(chars[i]);
        assert(hash@.skip(i as int).drop_first() =~= hash@.skip(i + 1));
        assert(hash@.skip(i as int).first() == hash@[i as int]);
        left -= used;
        i += 1;
    }
    proof {
        if i < chars.len() {
            assert(hash@.skip(i as int).first() == hash@[i as int]);
        }
        assert(fitting(hash@.skip(i as int), left as nat) == 0);
        assert(hash@.subrange(0, i as int) =~= hash@.take(i as int));
    }
    text::text_of(&chars, 0, i)
}

/// Adds the section of a kind.
pub fn append_section(out: &mut String, title: &str, commits: &Vec<PlannedCommit>, kind: CommitKind)
    requires
        hashes_can_be_cut(commits@),
    ensures
        final(out)@ == old(out)@ + section(title@, commits@, kind),
{
    let ghost before = out@;
    let ghost heading = "### "@ + title@ + "\n"@;
    let mut wrote_any = false;
    let mut i: usize = 0;
    assert(kind_lines(commits@.take(0), kind) =~= Seq::empty());
    while i < commits.len()
        invariant
            i <= commits.len(),
            heading == "### "@ + title@ + "\n"@,
            hashes_can_be_cut(commits@),
            wrote_any == has_kind(commits@.take(i as int), kind),
            wrote_any ==> out@ == before + heading + kind_lines(commits@.take(i as int), kind),
            !wrote_any ==> out@ == before && kind_lines(commits@.take(i as int), kind)
                == Seq::<char>::empty(),
        decreases commits.len() - i,
    {
        let ghost now = commits@.take(i as int);
        let ghost next = commits@.take(i + 1);
        proof {
            assert(next.drop_last() =~= now);
            assert(next.last() == commits@[i as int]);
            if has_kind(now, kind) {
                let k = choose|k: int| 0 <= k < now.len() && (#[trigger] now[k]).kind == kind;
                assert(next[k] == now[k]);
            }
            if has_kind(next, kind) && commits@[i as int].kind != kind {
                let k = choose|k: int| 0 <= k < next.len() && (#[trigger] next[k]).kind == kind;
                assert(now[k] == next[k]);
            }
            assert(next[i as int] == commits@[i as int]);
        }
        let commit = &commits[i];
        if commit.kind == kind {
            if !wrote_any {
                out.append("### ");
                out.append(title);
                out.append("\n");
                wrote_any = true;
                assert(out@ =~= before + heading + kind_lines(now, kind));
            }
            let ghost so_far = out@;
            out.append("- ");
            out.append(commit.subject.as_str());
            out.append(" (");
            out.append(short_hash(commit.hash.as_str()).as_str());
            if commit.breaking {
                out.append(") **BREAKING**\n");
            } else {
                out.append(")\n");
            }
            assert(out@ =~= so_far + commit_line(*commit));
            assert(so_far + commit_line(*commit) =~= before + heading + kind_lines(next, kind));
        }
        i += 1;
    }
    assert(commits@.take(i as int) =~= commits@);
    if wrote_any {
        out.append("\n");
        assert(out@ =~= before + section(title@, commits@, kind));
    } else {
        assert(out@ =~= before + section(title@, commits@, kind));
    }
}

proof fn regrouped(
    heading: Seq<char>,
    changes: Seq<char>,
    a: Seq<char>,
    b: Seq<char>,
    c: Seq<char>,
    d: Seq<char>,
    e: Seq<char>,
    f: Seq<char>,
)
    ensures
        heading + changes + a + b + c + d + e + f == heading + (changes + (a + b + c + d + e + f)),
{
    assert(heading + changes + a + b + c + d + e + f =~= heading + (changes + (a + b + c + d + e
        + f)));
}

/// The notes of a release, under a heading with the version where there is one.
pub fn render_sections(
    version: Option<&str>,
    base_ref: Option<&str>,
    commits: &Vec<PlannedCommit>,
) -> (result: String)
    requires
        hashes_can_be_cut(commits@),
    ensures
        result@ == version_heading(
            match version {
                Some(content) => Some(content@),
                None => None,
            },
        ) + notes_text(
            match base_ref {
                Some(content) => Some(content@),
                None => None,
            },
            commits@,
        ),
{
    let mut out = String::new();
    if let Some(content) = version {
        out.append("## ");
        out.append(content);
        out.append("\n\n");
    }
    let ghost heading = version_heading(
        match version {
            Some(content) => Some(content@),
            None => None,
        },
    );
    assert(out@ =~= heading);
    if let Some(content) = base_ref {
        out.append("Changes since `");
        out.append(content);
        out.append("`\n\n");
    }
    let ghost changes = since(
        match base_ref {
            Some(content) => Some(content@),
            None => None,
        },
    );
    assert(out@ =~= heading + changes);
    append_section(&mut out, "Features", commits, CommitKind::Feature);
    append_section(&mut out, "Fixes", commits, CommitKind::Fix);
    append_section(&mut out, "Refactors", commits, CommitKind::Refactor);
    append_section(&mut out, "Documentation", commits, CommitKind::Documentation);
    append_section(&mut out, "Chores", commits, CommitKind::Chore);
    append_section(&mut out, "Other", commits, CommitKind::Other);
    proof {
        regrouped(
            heading,
            changes,
            section("Features"@, commits@, CommitKind::Feature),
            section("Fixes"@, commits@, CommitKind::Fix),
            section("Refactors"@, commits@, CommitKind::Refactor),
            section("Documentation"@, commits@, CommitKind::Documentation),
            section("Chores"@, commits@, CommitKind::Chore),
            section("Other"@, commits@, CommitKind::Other),
        );
    }
    out
}

/// The changelog of a plan.
pub fn render_markdown(plan: &ReleasePlan) -> (result: String)
    requires
        hashes_can_be_cut(plan.commits@),
    ensures
        result@ == markdown_text(*plan),
{
    let version = plan.next_version.to_text();
    let base_tag = match &plan.base_tag {
        Some(tag) => Some(tag.as_str()),
        None => None,
    };
    render_sections(Some(version.as_str()), base_tag, &plan.commits)
}

/// The notes of a release: the changelog without the version.
pub fn render_release_notes(base_ref: Option<&str>, commits: &Vec<PlannedCommit>) -> (result:
    String)
    requires
        hashes_can_be_cut(commits@),
    ensures
        result@ == notes_text(
            match base_ref {
                Some(content) => Some(content@),
                None => None,
            },
            commits@,
        ),
{
    let notes = render_sections(None, base_ref, commits);
    assert(notes@ =~= notes_text(
        match base_ref {
            Some(content) => Some(content@),
            None => None,
        },
        commits@,
    ));
    notes
}

/// A hash of ASCII characters, such as git writes, can be cut anywhere, and is cut to its
/// first seven characters.
pub proof fn ascii_hash_can_be_cut(hash: Seq<char>, bytes: nat)
    requires
        forall|i: int| 0 <= i < hash.len() ==> (#[trigger] hash[i] as u32) < 0x80,
    ensures
        can_be_cut(hash, bytes),
        fitting(hash, bytes) == if hash.len() < bytes {
            hash.len()
        } else {
            bytes
        },
    decreases hash.len(),
{
    if hash.len() > 0 && bytes > 0 {
        assert((hash[0] as u32) < 0x80);
        let rest = hash.drop_first();
        assert forall|i: int| 0 <= i < rest.len() implies (#[trigger] rest[i] as u32) < 0x80 by {
            assert(rest[i] == hash[i + 1]);
        }
        ascii_hash_can_be_cut(rest, (bytes - 1) as nat);
    }
}

proof fn line_among_kind_lines(commits: Seq<PlannedCommit>, kind: CommitKind, i: int)
    requires
        0 <= i < commits.len(),
        commits[i].kind == kind,
    ensures
        text::contains_text(kind_lines(commits, kind), commit_line(commits[i])),
    decreases commits.len(),
{
    let before = kind_lines(commits.drop_last(), kind);
    let all = kind_lines(commits, kind);
    let line = commit_line(commits[i]);
    if i == commits.len() - 1 {
        assert(all.subrange(before.len() as int, all.len() as int) =~= line);
        assert(text::occurs_at(all, line, before.len() as int));
    } else {
        assert(commits.drop_last()[i] == commits[i]);
        line_among_kind_lines(commits.drop_last(), kind, i);
        text::contained_in_longer(Seq::empty(), before, all.skip(before.len() as int), line);
        assert(Seq::empty() + before + all.skip(before.len() as int) =~= all);
    }
}

proof fn line_in_section(
    title: Seq<char>,
    commits: Seq<PlannedCommit>,
    kind: CommitKind,
    i: int,
)
    requires
        0 <= i < commits.len(),
        commits[i].kind == kind,
    ensures
        text::contains_text(section(title, commits, kind), commit_line(commits[i])),
{
    line_among_kind_lines(commits, kind, i);
    assert(has_kind(commits, kind));
    text::contained_in_longer(
        "### "@ + title + "\n"@,
        kind_lines(commits, kind),
        "\n"@,
        commit_line(commits[i]),
    );
}

/// Every commit of a release has its line in the notes, whatever its kind.
pub proof fn every_commit_is_rendered(
    base_ref: Option<Seq<char>>,
    commits: Seq<PlannedCommit>,
    i: int,
)
    requires
        0 <= i < commits.len(),
    ensures
        text::contains_text(notes_text(base_ref, commits), commit_line(commits[i])),
{
    let line = commit_line(commits[i]);
    let a = section("Features"@, commits, CommitKind::Feature);
    let b = section("Fixes"@, commits, CommitKind::Fix);
    let c = section("Refactors"@, commits, CommitKind::Refactor);
    let d = section("Documentation"@, commits, CommitKind::Documentation);
    let e = section("Chores"@, commits, CommitKind::Chore);
    let f = section("Other"@, commits, CommitKind::Other);
    let none = Seq::<char>::empty();
    let changes = since(base_ref);
    sections_around(a, b, c, d, e, f);
    assert(notes_text(base_ref, commits) == changes + (a + b + c + d + e + f));
    match commits[i].kind {
        CommitKind::Feature => {
            line_in_section("Features"@, commits, CommitKind::Feature, i);
            line_found_among(changes, none, a, b + c + d + e + f, line);
        },
        CommitKind::Fix => {
            line_in_section("Fixes"@, commits, CommitKind::Fix, i);
            line_found_among(changes, a, b, c + d + e + f, line);
        },
        CommitKind::Refactor => {
            line_in_section("Refactors"@, commits, CommitKind::Refactor, i);
            line_found_among(changes, a + b, c, d + e + f, line);
        },
        CommitKind::Documentation => {
            line_in_section("Documentation"@, commits, CommitKind::Documentation, i);
            line_found_among(changes, a + b + c, d, e + f, line);
        },
        CommitKind::Chore => {
            line_in_section("Chores"@, commits, CommitKind::Chore, i);
            line_found_among(changes, a + b + c + d, e, f, line);
        },
        CommitKind::Other => {
            line_in_section("Other"@, commits, CommitKind::Other, i);
            line_found_among(changes, a + b + c + d + e, f, none, line);
        },
    }
}

proof fn line_found_among(
    changes: Seq<char>,
    before: Seq<char>,
    own: Seq<char>,
    after: Seq<char>,
    line: Seq<char>,
)
    requires
        text::contains_text(own, line),
    ensures
        text::contains_text(changes + (before + own + after), line),
{
    text::contained_in_longer(changes + before, own, after, line);
    assert(changes + before + own + after =~= changes + (before + own + after));
}

proof fn sections_around(
    a: Seq<char>,
    b: Seq<char>,
    c: Seq<char>,
    d: Seq<char>,
    e: Seq<char>,
    f: Seq<char>,
)
    ensures
        a + b + c + d + e + f == Seq::<char>::empty() + a + (b + c + d + e + f),
        a + b + c + d + e + f == a + b + (c + d + e + f),
        a + b + c + d + e + f == a + b + c + (d + e + f),
        a + b + c + d + e + f == a + b + c + d + (e + f),
        a + b + c + d + e + f == a + b + c + d + e + f + Seq::<char>::empty(),
{
    let all = a + b + c + d + e + f;
    assert(all =~= Seq::<char>::empty() + a + (b + c + d + e + f));
    assert(all =~= a + b + (c + d + e + f));
    assert(all =~= a + b + c + (d + e + f));
    assert(all =~= a + b + c + d + (e + f));
    assert(all =~= all + Seq::<char>::empty());
}

/// The notes of a release do not start with a heading for a version.
pub proof fn notes_start_without_version_heading(
    base_ref: Option<Seq<char>>,
    commits: Seq<PlannedCommit>,
)
    ensures
        !text::occurs_at(notes_text(base_ref, commits), "## "@, 0),
{
    reveal_strlit("## ");
    reveal_strlit("### ");
    reveal_strlit("Changes since `");
    let notes = notes_text(base_ref, commits);
    let a = section("Features"@, commits, CommitKind::Feature);
    let b = section("Fixes"@, commits, CommitKind::Fix);
    let c = section("Refactors"@, commits, CommitKind::Refactor);
    let d = section("Documentation"@, commits, CommitKind::Documentation);
    let e = section("Chores"@, commits, CommitKind::Chore);
    let f = section("Other"@, commits, CommitKind::Other);
    assert("## "@[2] == ' ');
    assert("## "@[0] == '#');
    assert(text::occurs_at(notes, "## "@, 0) ==> notes.subrange(0, 3)[2] == ' '
        && notes.subrange(0, 3)[0] == '#');
    match base_ref {
        Some(_) => {
            assert(notes[0] == 'C');
        },
        None => {
            assert(notes =~= all_sections(commits));
            section_mark("Features"@, commits, CommitKind::Feature);
            section_mark("Fixes"@, commits, CommitKind::Fix);
            section_mark("Refactors"@, commits, CommitKind::Refactor);
            section_mark("Documentation"@, commits, CommitKind::Documentation);
            section_mark("Chores"@, commits, CommitKind::Chore);
            section_mark("Other"@, commits, CommitKind::Other);
            marks_kept(a, b);
            marks_kept(a + b, c);
            marks_kept(a + b + c, d);
            marks_kept(a + b + c + d, e);
            marks_kept(a + b + c + d + e, f);
        },
    }
}

/// The text is empty or starts with the mark of a section.
pub open spec fn starts_section(s: Seq<char>) -> bool {
    s.len() == 0 || s.len() > 3 && s[2] == '#'
}

proof fn section_mark(title: Seq<char>, commits: Seq<PlannedCommit>, kind: CommitKind)
    ensures
        starts_section(section(title, commits, kind)),
{
    reveal_strlit("### ");
    assert("### "@[2] == '#');
}

proof fn marks_kept(a: Seq<char>, b: Seq<char>)
    requires
        starts_section(a),
        starts_section(b),
    ensures
        starts_section(a + b),
{
}

} // verus!
