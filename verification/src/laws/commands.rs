//! Git commands and what their output says.

use crate::document;
use crate::error::ReleaseError;
use crate::git;
use crate::git::{IdentityField, LogRow};
use crate::laws::words;
use crate::text;
use crate::tree;
use crate::tree::Tree;
use vstd::prelude::*;

verus! {

/// The words of a command.
pub open spec fn words_of(args: Vec<String>) -> Seq<Seq<char>> {
    Seq::new(args@.len(), |i: int| args@[i]@)
}

proof fn words_are_texts(args: Vec<String>)
    ensures
        words_of(args) == text::texts(args@),
{
    assert(words_of(args) =~= text::texts(args@));
}

/// Tags are pushed to the origin by their names, whatever they are.
pub proof fn tags_are_pushed_by_name(tag_name: &str, args: Vec<String>)
    requires
        call_ensures(git::push_tag, (tag_name,), args),
    ensures
        words_of(args) == seq!["push"@, "origin"@, tag_name@],
{
    words_are_texts(args);
}

/// A tag is created under its name with its message, unless it is there already.
pub proof fn tags_are_created_once(
    tag_name: &str,
    message: &str,
    exists: bool,
    result: Result<Vec<String>, ReleaseError>,
)
    requires
        call_ensures(git::create_annotated_tag, (tag_name, message, exists), result),
    ensures
        match result {
            Ok(args) => !exists && words_of(args) == seq![
                "tag"@,
                "-a"@,
                tag_name@,
                "-m"@,
                message@,
            ],
            Err(ReleaseError::TagExists { tag }) => exists && tag@ == tag_name@,
            Err(_) => false,
        },
{
    if let Ok(args) = result {
        words_are_texts(args);
    }
}

/// A tag is looked for under its full reference.
pub proof fn tags_are_looked_for_by_reference(tag_name: &str, args: Vec<String>)
    requires
        call_ensures(git::tag_exists, (tag_name,), args),
    ensures
        words_of(args) == seq![
            "rev-parse"@,
            "--verify"@,
            "--quiet"@,
            "refs/tags/"@ + tag_name@,
        ],
{
    words_are_texts(args);
}

/// Branches are started anew and pushed by their names, over what they were.
pub proof fn branches_are_started_and_pushed(
    branch: &str,
    started: Vec<String>,
    pushed: Vec<String>,
)
    requires
        call_ensures(git::checkout_new_branch, (branch,), started),
        call_ensures(git::push_branch, (branch,), pushed),
    ensures
        words_of(started) == seq!["checkout"@, "-B"@, branch@],
        words_of(pushed) == seq![
            "push"@,
            "--force-with-lease"@,
            "--set-upstream"@,
            "origin"@,
            branch@,
        ],
{
    words_are_texts(started);
    words_are_texts(pushed);
}

/// What is staged is committed under the whole message.
pub proof fn commits_have_their_message(message: &str, args: Vec<String>)
    requires
        call_ensures(git::commit, (message,), args),
    ensures
        words_of(args) == seq!["commit"@, "-m"@, message@],
{
    words_are_texts(args);
}

/// Every file is staged, in order; without files there is nothing to do.
pub proof fn every_file_is_staged(files: &Vec<String>, result: Option<Vec<String>>)
    requires
        call_ensures(git::add_files, (files,), result),
    ensures
        result is None <==> files@.len() == 0,
        result matches Some(args) ==> {
            &&& args@.len() == files@.len() + 1
            &&& args@[0]@ == "add"@
            &&& forall|i: int| 0 <= i < files@.len() ==> args@[i + 1]@ == (#[trigger] files@[i])@
        },
{
    if let Some(args) = result {
        let all = text::texts(args@);
        assert(all.len() == args@.len());
        assert(text::texts(files@).len() == files@.len());
        assert(all[0] == args@[0]@);
        assert forall|i: int| 0 <= i < files@.len() implies args@[i + 1]@ == (
        #[trigger] files@[i])@ by {
            assert(all[i + 1] == args@[i + 1]@);
            assert(all[i + 1] == text::texts(files@)[i]);
        }
    }
}

/// The files of a commit, and those that differ between two, are asked for by their hashes.
pub proof fn files_are_asked_for_by_hash(
    hash: &str,
    before: &str,
    after: &str,
    shown: Vec<String>,
    compared: Vec<String>,
)
    requires
        call_ensures(git::commit_files, (hash,), shown),
        call_ensures(git::changed_files_between, (before, after), compared),
    ensures
        words_of(shown) == seq!["show"@, "--pretty=format:"@, "--name-only"@, hash@],
        words_of(compared) == seq!["diff"@, "--name-only"@, before@, after@],
{
    words_are_texts(shown);
    words_are_texts(compared);
}

/// The log leaves out merges and the commits of releases, and starts behind a tag where one
/// is given.
pub proof fn the_log_starts_behind_the_tag(
    tag: &str,
    whole: Vec<String>,
    since: Vec<String>,
)
    requires
        call_ensures(git::collect_commits, (None,), whole),
        call_ensures(git::collect_commits, (Some(tag),), since),
    ensures
        words_of(whole) == seq![
            "log"@,
            "--no-merges"@,
            "--invert-grep"@,
            "--grep=^chore(release):"@,
            "--pretty=format:%H%x1f%s%x1f%b%x1e"@,
        ],
        words_of(since) == words_of(whole).push(tag@ + "..HEAD"@),
{
    words_are_texts(whole);
    words_are_texts(since);
}

/// The commits of a version are looked for by the line that states it, in its manifest; a
/// manifest before a commit is shown by both.
pub proof fn versions_are_looked_for_in_their_manifest(
    manifest_path: &str,
    version: &str,
    commit_hash: &str,
    searched: Vec<String>,
    shown: Vec<String>,
)
    requires
        call_ensures(git::find_version_commit, (manifest_path, version), searched),
        call_ensures(git::previous_version, (commit_hash, manifest_path), shown),
    ensures
        words_of(searched) == seq![
            "log"@,
            "--pretty=format:%H"@,
            "-S"@,
            "version = \""@ + version@ + "\""@,
            "--"@,
            manifest_path@,
        ],
        words_of(shown) == seq!["show"@, commit_hash@ + "^:"@ + manifest_path@],
{
    words_are_texts(searched);
    words_are_texts(shown);
}

/// An identity that git knows stays; one that it does not know, or that is blank, is set.
pub proof fn known_identities_stay(
    field: IdentityField,
    success: bool,
    output: &str,
    trimmed: String,
    result: Option<Vec<String>>,
)
    requires
        call_ensures(git::ensure_identity, (field, success, output), result),
        call_ensures(text::trim, (output,), trimmed),
    ensures
        result is None <==> success && trimmed@.len() > 0,
        result matches Some(args) ==> words_of(args) == match field {
            IdentityField::Name => seq!["config"@, "user.name"@, "release-kthx[bot]"@],
            IdentityField::Email => seq![
                "config"@,
                "user.email"@,
                "release-kthx[bot]@users.noreply.github.com"@,
            ],
        },
{
    if let Some(args) = result {
        words_are_texts(args);
    }
}

/// The exit code says whether anything is staged, and every other code is an error.
pub proof fn exit_codes_say_what_is_staged(code: Option<i32>, result: Result<bool, ReleaseError>)
    requires
        call_ensures(git::read_staged_changes, (code,), result),
    ensures
        result == Ok::<bool, ReleaseError>(false) <==> code == Some(0i32),
        result == Ok::<bool, ReleaseError>(true) <==> code == Some(1i32),
        result matches Err(error) ==> error == ReleaseError::StagedChanges,
{
}

/// The latest tag is what git wrote, trimmed; there is none where it failed or wrote nothing.
pub proof fn the_latest_tag_is_what_git_wrote(
    success: bool,
    output: &str,
    trimmed: String,
    result: Option<String>,
)
    requires
        call_ensures(git::read_latest_tag, (success, output), result),
        call_ensures(text::trim, (output,), trimmed),
    ensures
        result is Some <==> success && trimmed@.len() > 0,
        result matches Some(tag) ==> tag@ == trimmed@,
{
}

/// The newest commit of a version is on the first line.
pub proof fn the_newest_commit_is_on_the_first_line(
    output: &str,
    line: Seq<char>,
    rest: Seq<char>,
    result: Option<String>,
)
    requires
        call_ensures(git::read_version_commit, (output,), result),
        forall|i: int| 0 <= i < line.len() ==> #[trigger] line[i] != '\n',
        output@ == line.push('\n') + rest || output@ == line,
    ensures
        text::trimmed(line).len() == 0 ==> result is None,
        text::trimmed(line).len() > 0 ==> (result matches Some(hash) && hash@ == text::trimmed(
            line,
        )),
{
    let n = line.len() as int;
    if output@ == line {
        text::until_stops(line, '\n');
        if text::until(line, '\n') < line.len() {
            assert(line[text::until(line, '\n') as int] != '\n');
        }
        assert(output@.take(n) =~= line);
    } else {
        let whole = output@;
        assert forall|k: int| 0 <= k < n implies #[trigger] whole[k] != '\n' by {
            assert(whole[k] == line[k]);
        }
        assert(whole[n] == '\n');
        text::until_is(whole, '\n', n);
        assert(whole.take(n) =~= line);
    }
}

/// The commit in which a version first came is on the last line that is not blank.
pub proof fn the_first_commit_is_on_the_last_line(
    output: &str,
    before: Seq<char>,
    line: Seq<char>,
    result: Option<String>,
)
    requires
        call_ensures(git::read_introducing_commit, (output,), result),
        forall|i: int| 0 <= i < line.len() ==> #[trigger] line[i] != '\n',
        text::trimmed(line).len() > 0,
        output@ == before.push('\n') + line || output@ == before.push('\n') + line.push('\n')
            || output@ == line,
    ensures
        result matches Some(hash) && hash@ == text::trimmed(line),
{
    let none = Seq::<char>::empty();
    words::one_part_is_kept(line);
    words::splitting_cuts_at_separators(line, '\n', none);
    words::splitting_cuts_at_separators(none, '\n', none);
    words::one_part_is_kept(none);
    assert(text::without_leading(none) =~= none);
    assert(text::trimmed(none) =~= none);
    let tail = if output@ == before.push('\n') + line || output@ == line {
        line
    } else {
        line.push('\n')
    };
    if tail == line.push('\n') {
        assert(line.push('\n') + none =~= line.push('\n'));
        words::kept_joins(seq![line], seq![none]);
        assert(text::kept(seq![line]) + Seq::<Seq<char>>::empty() =~= text::kept(seq![line]));
    }
    assert(text::kept(text::parts(tail, '\n')) == seq![text::trimmed(line)]);
    if output@ != line || output@ == before.push('\n') + line {
        parts_cut_at(before, '\n', tail);
        assert(output@ == before.push('\n') + tail);
        words::kept_joins(text::parts(before, '\n'), text::parts(tail, '\n'));
        let all = text::kept_lines(output@);
        assert(all.last() == text::trimmed(line));
    }
}

proof fn parts_cut_at(before: Seq<char>, sep: char, after: Seq<char>)
    ensures
        text::parts(before.push(sep) + after, sep) == text::parts(before, sep) + text::parts(
            after,
            sep,
        ),
    decreases before.len(),
{
    let n = text::until(before, sep) as int;
    text::until_stops(before, sep);
    let head = before.take(n);
    assert forall|i: int| 0 <= i < head.len() implies #[trigger] head[i] != sep by {
        if head[i] == sep {
            assert(head.contains(sep));
        }
    }
    if n < before.len() {
        let rest = before.skip(n + 1);
        parts_cut_at(rest, sep, after);
        words::splitting_cuts_at_separators(head, sep, rest.push(sep) + after);
        assert(before.push(sep) + after =~= head.push(sep) + (rest.push(sep) + after));
        assert(seq![head] + (text::parts(rest, sep) + text::parts(after, sep)) =~= (seq![head]
            + text::parts(rest, sep)) + text::parts(after, sep));
    } else {
        assert(head =~= before);
        words::splitting_cuts_at_separators(before, sep, after);
    }
}

/// The version of a package is the text that its manifest states.
pub proof fn versions_are_read_from_the_package(
    raw: &str,
    manifest_path: &str,
    manifest: Tree,
    result: Result<Option<String>, ReleaseError>,
)
    requires
        call_ensures(git::manifest_package_version, (raw, manifest_path), result),
        document::toml_parse(raw@) == Ok::<Tree, Seq<char>>(manifest),
    ensures
        result matches Ok(found) && text::maybe_text(found) == match tree::get(
            manifest,
            "package"@,
        ) {
            Some(package) => tree::text_in(tree::get(package, "version"@)),
            None => None,
        },
{
}

/// There is no version before a commit whose manifest git could not show; else it is the one
/// that the manifest states.
pub proof fn prior_versions_are_read_where_git_shows_them(
    success: bool,
    output: &str,
    manifest_path: &str,
    result: Result<Option<String>, ReleaseError>,
    stated: Result<Option<String>, ReleaseError>,
)
    requires
        call_ensures(git::read_previous_version, (success, output, manifest_path), result),
        call_ensures(git::manifest_package_version, (output, manifest_path), stated),
    ensures
        !success ==> (result matches Ok(None)),
        success ==> match (result, stated) {
            (Ok(a), Ok(b)) => text::maybe_text(a) == text::maybe_text(b),
            (
                Err(ReleaseError::InvalidManifest { path: p, detail: d }),
                Err(ReleaseError::InvalidManifest { path: q, detail: e }),
            ) => p@ == q@ && d@ == e@,
            _ => false,
        },
{
}

/// The text of a row: hash, subject and body between separators.
pub open spec fn row_text(hash: Seq<char>, subject: Seq<char>, body: Seq<char>) -> Seq<char> {
    hash.push('\u{1f}') + (subject.push('\u{1f}') + body)
}

/// The text holds no separator of fields.
pub open spec fn fieldless(s: Seq<char>) -> bool {
    forall|i: int| 0 <= i < s.len() ==> #[trigger] s[i] != '\u{1f}'
}

/// The text holds no separator of rows.
pub open spec fn rowless(s: Seq<char>) -> bool {
    forall|i: int| 0 <= i < s.len() ==> #[trigger] s[i] != '\u{1e}'
}

proof fn row_is_trimmed(hash: Seq<char>, subject: Seq<char>, body: Seq<char>)
    requires
        hash.len() > 0,
        !text::is_space(hash.first()),
    ensures
        text::trimmed(row_text(hash, subject, body)) == row_text(
            hash,
            subject,
            text::without_trailing(body),
        ),
{
    let row = row_text(hash, subject, body);
    let front = hash.push('\u{1f}') + subject.push('\u{1f}');
    words::white_space_is_blank('\u{1f}');
    assert(row.first() == hash.first());
    assert(text::without_leading(row) == row);
    assert(row =~= front + body);
    assert(front.last() == '\u{1f}');
    trailing_behind(front, body);
    assert(front + text::without_trailing(body) =~= row_text(
        hash,
        subject,
        text::without_trailing(body),
    ));
}

proof fn trailing_behind(front: Seq<char>, s: Seq<char>)
    requires
        front.len() > 0,
        !text::is_space(front.last()),
    ensures
        text::without_trailing(front + s) == front + text::without_trailing(s),
    decreases s.len(),
{
    let whole = front + s;
    if s.len() == 0 {
        assert(whole =~= front);
        assert(front + text::without_trailing(s) =~= front);
    } else if text::is_space(s.last()) {
        assert(whole.last() == s.last());
        assert(whole.drop_last() =~= front + s.drop_last());
        trailing_behind(front, s.drop_last());
    } else {
        assert(whole.last() == s.last());
    }
}

proof fn trimming_again(s: Seq<char>)
    ensures
        text::trimmed(text::without_trailing(s)) == text::trimmed(s),
    decreases s.len(),
{
    if s.len() > 0 && text::is_space(s.last()) {
        let head = s.drop_last();
        trimming_again(head);
        trailing_space_makes_no_difference(head, s.last());
        assert(head.push(s.last()) =~= s);
    }
}

proof fn trailing_space_makes_no_difference(s: Seq<char>, c: char)
    requires
        text::is_space(c),
    ensures
        text::trimmed(s.push(c)) == text::trimmed(s),
    decreases s.len(),
{
    let longer = s.push(c);
    if s.len() == 0 {
        let none = Seq::<char>::empty();
        assert(s =~= none);
        assert(longer.first() == c);
        assert(longer.drop_first() =~= none);
        assert(text::without_leading(none) == none);
        assert(text::without_leading(longer) == text::without_leading(longer.drop_first()));
    } else if text::is_space(s.first()) {
        assert(longer.first() == s.first());
        assert(longer.drop_first() =~= s.drop_first().push(c));
        trailing_space_makes_no_difference(s.drop_first(), c);
    } else {
        assert(longer.first() == s.first());
        assert(longer.drop_last() =~= s);
    }
}

/// A log is read row by row: one with a hash, a subject and a body gives these, trimmed, and
/// then come the rows of the rest.
pub proof fn the_log_is_read_row_by_row(
    output: &str,
    hash: Seq<char>,
    subject: Seq<char>,
    body: Seq<char>,
    after: &str,
    rows: Vec<LogRow>,
    rest: Vec<LogRow>,
)
    requires
        call_ensures(git::read_log, (output,), rows),
        call_ensures(git::read_log, (after,), rest),
        output@ == row_text(hash, subject, body).push('\u{1e}') + after@,
        hash.len() > 0,
        !text::is_space(hash.first()),
        fieldless(hash) && fieldless(subject) && fieldless(body),
        rowless(hash) && rowless(subject) && rowless(body),
    ensures
        rows@.len() == rest@.len() + 1,
        rows@[0].hash@ == text::trimmed(hash),
        rows@[0].subject@ == text::trimmed(subject),
        rows@[0].body@ == text::trimmed(body),
        forall|i: int|
            0 <= i < rest@.len() ==> (#[trigger] rest@[i]).hash@ == rows@[i + 1].hash@
                && rest@[i].subject@ == rows@[i + 1].subject@ && rest@[i].body@ == rows@[i
                + 1].body@,
{
    let row = row_text(hash, subject, body);
    let sep = '\u{1e}';
    assert forall|i: int| 0 <= i < row.len() implies #[trigger] row[i] != sep by {
        let n = hash.len();
        let m = subject.len();
        if i < n {
            assert(row[i] == hash[i]);
        } else if n < i < n + 1 + m {
            assert(row[i] == subject[i - n - 1]);
        } else if i > n + 1 + m {
            assert(row[i] == body[i - n - m - 2]);
        }
    }
    words::splitting_cuts_at_separators(row, sep, after@);
    words::kept_joins(seq![row], text::parts(after@, sep));
    words::one_part_is_kept(row);
    row_is_trimmed(hash, subject, body);
    let kept = text::kept(text::parts(output@, sep));
    let others = text::kept(text::parts(after@, sep));
    let short = row_text(hash, subject, text::without_trailing(body));
    assert(kept == seq![short] + others);
    words::trailing_taken(body);
    let end = text::without_trailing(body);
    assert(fieldless(end)) by {
        assert forall|i: int| 0 <= i < end.len() implies #[trigger] end[i] != '\u{1f}' by {
            assert(end[i] == body[i]);
        }
    }
    words::splitting_cuts_at_separators(hash, '\u{1f}', subject.push('\u{1f}') + end);
    words::splitting_cuts_at_separators(subject, '\u{1f}', end);
    words::splitting_cuts_at_separators(end, '\u{1f}', Seq::empty());
    let fields = text::parts(short, '\u{1f}');
    assert(fields =~= seq![hash, subject, end]);
    trimming_again(body);
    assert(git::row_read(rows@[0], kept[0]));
    assert forall|i: int| 0 <= i < rest@.len() implies (#[trigger] rest@[i]).hash@ == rows@[i
        + 1].hash@ && rest@[i].subject@ == rows@[i + 1].subject@ && rest@[i].body@ == rows@[i
        + 1].body@ by {
        assert(git::row_read(rest@[i], others[i]));
        assert(kept[i + 1] == others[i]);
        assert(git::row_read(rows@[i + 1], kept[i + 1]));
    }
}

/// A log that holds nothing but white space has no rows.
pub proof fn an_empty_log_has_no_rows(output: &str, rows: Vec<LogRow>)
    requires
        call_ensures(git::read_log, (output,), rows),
        rowless(output@),
        text::trimmed(output@).len() == 0,
    ensures
        rows@.len() == 0,
{
    words::splitting_cuts_at_separators(output@, '\u{1e}', Seq::empty());
    words::one_part_is_kept(output@);
}

/// The files that a command lists are its lines that are not blank, trimmed.
pub proof fn files_are_read_line_by_line(
    output: &str,
    line: Seq<char>,
    after: &str,
    files: Vec<String>,
    rest: Vec<String>,
)
    requires
        call_ensures(git::read_files, (output,), files),
        call_ensures(git::read_files, (after,), rest),
        forall|i: int| 0 <= i < line.len() ==> #[trigger] line[i] != '\n',
        output@ == line.push('\n') + after@,
    ensures
        text::texts(files@) == if text::trimmed(line).len() == 0 {
            text::texts(rest@)
        } else {
            seq![text::trimmed(line)] + text::texts(rest@)
        },
{
    words::splitting_cuts_at_separators(line, '\n', after@);
    words::kept_joins(seq![line], text::parts(after@, '\n'));
    words::one_part_is_kept(line);
    assert(Seq::<Seq<char>>::empty() + text::texts(rest@) =~= text::texts(rest@));
}

/// Git is asked quietly what is staged.
pub proof fn staged_changes_are_asked_for(result: Vec<String>)
    requires
        call_ensures(git::has_staged_changes, (), result),
    ensures
        words_of(result) == seq!["diff"@, "--cached"@, "--quiet"@],
{
    words_are_texts(result);
}

/// Git is asked for the name of the latest tag alone, and for the parts of an identity by
/// their settings.
pub proof fn tags_and_identities_are_asked_for(
    latest: Vec<String>,
    name: Vec<String>,
    email: Vec<String>,
)
    requires
        call_ensures(git::latest_tag, (), latest),
        call_ensures(git::identity, (IdentityField::Name,), name),
        call_ensures(git::identity, (IdentityField::Email,), email),
    ensures
        words_of(latest) == seq!["describe"@, "--tags"@, "--abbrev=0"@],
        words_of(name) == seq!["config"@, "user.name"@],
        words_of(email) == seq!["config"@, "user.email"@],
{
    words_are_texts(latest);
    words_are_texts(name);
    words_are_texts(email);
}

/// Of the lines that are not blank, all are files, and the last is the commit in which a
/// version first came; where all lines are blank there is none.
pub proof fn lines_that_are_not_blank_are_read(
    output: &str,
    lines: Vec<String>,
    files: Vec<String>,
    first: Option<String>,
)
    requires
        call_ensures(text::trimmed_lines, (output,), lines),
        call_ensures(git::read_files, (output,), files),
        call_ensures(git::read_introducing_commit, (output,), first),
    ensures
        text::texts(files@) == text::texts(lines@),
        first is None <==> lines@.len() == 0,
        first matches Some(hash) ==> hash@ == lines@.last()@,
{
    let all = text::texts(lines@);
    assert(all.len() == lines@.len());
    if lines@.len() > 0 {
        assert(all.last() == lines@.last()@);
    }
}

/// The field at a place, trimmed; empty where there is none.
pub open spec fn field_text(fields: Seq<String>, i: int) -> Seq<char> {
    if i < fields.len() {
        text::trimmed(fields[i]@)
    } else {
        Seq::empty()
    }
}

/// Every row of a log that is not blank is read, whatever it holds: its first three fields,
/// trimmed, are the hash, the subject and the body, and a field that is missing is empty.
pub proof fn every_row_is_read(
    output: &str,
    parts: Vec<String>,
    rows: Vec<LogRow>,
    i: int,
    content: &str,
    fields: Vec<String>,
)
    requires
        call_ensures(git::read_log, (output,), rows),
        call_ensures(text::trimmed_parts, (output, '\u{1e}'), parts),
        0 <= i < parts@.len(),
        content@ == parts@[i]@,
        call_ensures(text::split, (content, '\u{1f}'), fields),
    ensures
        rows@.len() == parts@.len(),
        rows@[i].hash@ == field_text(fields@, 0),
        rows@[i].subject@ == field_text(fields@, 1),
        rows@[i].body@ == field_text(fields@, 2),
{
    let all = text::texts(parts@);
    let own = text::texts(fields@);
    assert(all.len() == parts@.len());
    assert(all[i] == parts@[i]@);
    assert(own.len() == fields@.len());
    assert forall|k: int| 0 <= k < fields@.len() implies #[trigger] own[k] == fields@[k]@ by {}
    assert(git::row_read(rows@[i], all[i]));
}

/// A manifest that is not TOML has no version: it is reported with its path and the message of
/// the parser.
pub proof fn faulty_manifests_have_no_version(
    raw: &str,
    manifest_path: &str,
    message: Seq<char>,
    result: Result<Option<String>, ReleaseError>,
)
    requires
        call_ensures(git::manifest_package_version, (raw, manifest_path), result),
        document::toml_parse(raw@) == Err::<Tree, Seq<char>>(message),
    ensures
        result matches Err(ReleaseError::InvalidManifest { path, detail }) && path@
            == manifest_path@ && detail@ == message,
{
}

} // verus!
