//! The git commands of a release, and what their output says.

use crate::document;
use crate::error::{GitError, ReleaseError};
use crate::text;
use crate::tree;
use crate::tree::Tree;
use vstd::prelude::*;

verus! {

/// A commit and the files it touches.
#[derive(Debug, PartialEq, Eq)]
pub struct CommitRecord {
    pub hash: String,
    pub subject: String,
    pub body: String,
    pub files: Vec<String>,
}

/// A commit and the files it touches, in specifications.
pub struct RecordView {
    pub hash: Seq<char>,
    pub subject: Seq<char>,
    pub body: Seq<char>,
    pub files: Seq<Seq<char>>,
}

impl View for CommitRecord {
    type V = RecordView;

    open spec fn view(&self) -> RecordView {
        RecordView {
            hash: self.hash@,
            subject: self.subject@,
            body: self.body@,
            files: text::texts(self.files@),
        }
    }
}

/// One row of the log.
#[derive(Debug, PartialEq, Eq)]
pub struct LogRow {
    pub hash: String,
    pub subject: String,
    pub body: String,
}

/// What a release asks of the history of a repository.
pub trait CommitHistoryService {
    fn latest_tag(&self, path: &str) -> Result<Option<String>, GitError>;

    fn collect_commits(&self, path: &str, from_tag: Option<&str>) -> Result<
        Vec<CommitRecord>,
        GitError,
    >;

    fn tag_exists(&self, path: &str, tag_name: &str) -> Result<bool, GitError>;

    fn find_version_commit(&self, path: &str, manifest_path: &str, version: &str) -> Result<
        Option<String>,
        GitError,
    >;

    fn find_introducing_commit(&self, path: &str, manifest_path: &str, version: &str) -> Result<
        Option<String>,
        GitError,
    >;

    fn previous_version(&self, path: &str, manifest_path: &str, version: &str) -> Result<
        Option<String>,
        GitError,
    >;
}

/// The arguments of the git command that lists the files of a commit.
pub fn commit_files(hash: &str) -> (args: Vec<String>)
    ensures
        text::texts(args@) == seq!["show"@, "--pretty=format:"@, "--name-only"@, hash@],
{
    let args = vec![
        "show".to_owned(),
        "--pretty=format:".to_owned(),
        "--name-only".to_owned(),
        hash.to_owned(),
    ];
    assert(text::texts(args@) =~= seq!["show"@, "--pretty=format:"@, "--name-only"@, hash@]);
    args
}

/// The arguments of the git command that names the latest tag.
pub fn latest_tag() -> (args: Vec<String>)
    ensures
        text::texts(args@) == seq!["describe"@, "--tags"@, "--abbrev=0"@],
{
    let args = vec![
        "describe".to_owned(),
        "--tags".to_owned(),
        "--abbrev=0".to_owned(),
    ];
    assert(text::texts(args@) =~= seq!["describe"@, "--tags"@, "--abbrev=0"@]);
    args
}

/// The text, where it is not empty.
pub open spec fn unless_empty(s: Seq<char>) -> Option<Seq<char>> {
    if s.len() == 0 {
        None
    } else {
        Some(s)
    }
}

fn text_unless_empty(content: String) -> (result: Option<String>)
    ensures
        text::maybe_text(result) == unless_empty(content@),
{
    if content.as_str().is_empty() {
        None
    } else {
        Some(content)
    }
}

/// The latest tag, out of the output of the command for it. There is none where the
/// command failed or wrote nothing.
pub fn read_latest_tag(success: bool, output: &str) -> (result: Option<String>)
    ensures
        text::maybe_text(result) == if success {
            unless_empty(text::trimmed(output@))
        } else {
            None
        },
{
    if !success {
        return None;
    }
    text_unless_empty(text::trim(output))
}

/// The arguments of the git command that lists the commits in which a version came into a
/// manifest or left it, the latest first.
pub fn find_version_commit(manifest_path: &str, version: &str) -> (args: Vec<String>)
    ensures
        text::texts(args@) == seq![
            "log"@,
            "--pretty=format:%H"@,
            "-S"@,
            "version = \""@ + version@ + "\""@,
            "--"@,
            manifest_path@,
        ],
{
    let args = vec![
        "log".to_owned(),
        "--pretty=format:%H".to_owned(),
        "-S".to_owned(),
        "version = \"".to_owned().concat(version).concat("\""),
        "--".to_owned(),
        manifest_path.to_owned(),
    ];
    assert(text::texts(args@) =~= seq![
        "log"@,
        "--pretty=format:%H"@,
        "-S"@,
        "version = \""@ + version@ + "\""@,
        "--"@,
        manifest_path@,
    ]);
    args
}

/// The latest commit, out of the output of the command for the commits of a version.
pub fn read_version_commit(output: &str) -> (result: Option<String>)
    ensures
        text::maybe_text(result) == unless_empty(
            text::trimmed(output@.take(text::until(output@, '\n') as int)),
        ),
{
    let lines = text::split(output, '\n');
    proof {
        text::until_within(output@, '\n');
        assert(text::texts(lines@)[0] == lines@[0]@);
        assert(output@.take(output@.len() as int) =~= output@);
    }
    text_unless_empty(text::trim(lines[0].as_str()))
}

/// The commit in which a version first came into a manifest, out of the output of the
/// command for the commits of a version: the last that it lists.
pub fn read_introducing_commit(output: &str) -> (result: Option<String>)
    ensures
        text::maybe_text(result) == if text::kept_lines(output@).len() == 0 {
            None
        } else {
            Some(text::kept_lines(output@).last())
        },
{
    let mut lines = text::trimmed_lines(output);
    assert(text::texts(lines@).len() == lines.len());
    match lines.pop() {
        Some(last) => {
            assert(text::kept_lines(output@).last() == last@);
            Some(last)
        },
        None => None,
    }
}

/// The arguments of the git command that shows a manifest as it was before a commit.
pub fn previous_version(commit_hash: &str, manifest_path: &str) -> (args: Vec<String>)
    ensures
        text::texts(args@) == seq!["show"@, commit_hash@ + "^:"@ + manifest_path@],
{
    let args = vec![
        "show".to_owned(),
        commit_hash.to_owned().concat("^:").concat(manifest_path),
    ];
    assert(text::texts(args@) =~= seq!["show"@, commit_hash@ + "^:"@ + manifest_path@]);
    args
}

/// The version of the package of a manifest.
pub open spec fn package_version(manifest: Tree) -> Option<Seq<char>> {
    match tree::get(manifest, "package"@) {
        Some(package) => tree::text_in(tree::get(package, "version"@)),
        None => None,
    }
}

/// The version of the package of a manifest.
pub fn manifest_package_version(raw: &str, manifest_path: &str) -> (result: Result<
    Option<String>,
    ReleaseError,
>)
    ensures
        match document::toml_parse(raw@) {
            Ok(manifest) => result matches Ok(found) && text::maybe_text(found) == package_version(
                manifest,
            ),
            Err(message) => result matches Err(ReleaseError::InvalidManifest { path, detail })
                && path@ == manifest_path@ && detail@ == message,
        },
{
    match document::read_toml(raw) {
        Ok(manifest) => match manifest.get("package") {
            Some(package) => Ok(package.text_at("version")),
            None => Ok(None),
        },
        Err(detail) => Err(
            ReleaseError::InvalidManifest { path: manifest_path.to_owned(), detail },
        ),
    }
}

/// The version of a package before a commit, out of the output of the command for its
/// manifest. There is none where the command failed.
pub fn read_previous_version(success: bool, output: &str, manifest_path: &str) -> (result: Result<
    Option<String>,
    ReleaseError,
>)
    ensures
        !success ==> result matches Ok(None),
        success ==> match document::toml_parse(output@) {
            Ok(manifest) => result matches Ok(found) && text::maybe_text(found) == package_version(
                manifest,
            ),
            Err(message) => result matches Err(ReleaseError::InvalidManifest { path, detail })
                && path@ == manifest_path@ && detail@ == message,
        },
{
    if !success {
        return Ok(None);
    }
    manifest_package_version(output, manifest_path)
}

/// The words of the command that writes the log, without merges and release commits.
pub open spec fn log_words(from_tag: Option<Seq<char>>) -> Seq<Seq<char>> {
    let words = seq![
        "log"@,
        "--no-merges"@,
        "--invert-grep"@,
        "--grep=^chore(release):"@,
        "--pretty=format:%H%x1f%s%x1f%b%x1e"@,
    ];
    match from_tag {
        Some(tag) => words.push(tag + "..HEAD"@),
        None => words,
    }
}

/// The arguments of the git command that writes the log, since a tag or as a whole.
pub fn collect_commits(from_tag: Option<&str>) -> (args: Vec<String>)
    ensures
        text::texts(args@) == log_words(
            match from_tag {
                Some(tag) => Some(tag@),
                None => None,
            },
        ),
{
    let mut args = vec![
        "log".to_owned(),
        "--no-merges".to_owned(),
        "--invert-grep".to_owned(),
        "--grep=^chore(release):".to_owned(),
        "--pretty=format:%H%x1f%s%x1f%b%x1e".to_owned(),
    ];
    assert(text::texts(args@) =~= log_words(None));
    if let Some(tag) = from_tag {
        let ghost before = args@;
        args.push(tag.to_owned().concat("..HEAD"));
        assert(text::texts(args@) =~= text::texts(before).push(tag@ + "..HEAD"@));
    }
    args
}

/// A field of a row of the log; one that is not there is empty.
pub open spec fn row_field(row: Seq<char>, i: int) -> Seq<char> {
    let fields = text::parts(row, '\u{1f}');
    if i < fields.len() {
        text::trimmed(fields[i])
    } else {
        Seq::empty()
    }
}

/// The row holds the hash, the subject and the body of its text.
pub open spec fn row_read(row: LogRow, content: Seq<char>) -> bool {
    &&& row.hash@ == row_field(content, 0)
    &&& row.subject@ == row_field(content, 1)
    &&& row.body@ == row_field(content, 2)
}

fn field_at(fields: &Vec<String>, i: usize) -> (result: String)
    ensures
        result@ == if i < fields.len() {
            text::trimmed(fields@[i as int]@)
        } else {
            Seq::empty()
        },
{
    if i < fields.len() {
        text::trim(fields[i].as_str())
    } else {
        let empty = String::new();
        assert(empty@ =~= Seq::empty());
        empty
    }
}

/// The rows of the log, out of the output of the command for it.
pub fn read_log(output: &str) -> (rows: Vec<LogRow>)
    ensures
        rows.len() == text::kept(text::parts(output@, '\u{1e}')).len(),
        forall|i: int|
            0 <= i < rows.len() ==> row_read(
                #[trigger] rows@[i],
                text::kept(text::parts(output@, '\u{1e}'))[i],
            ),
{
    let list = text::trimmed_parts(output, '\u{1e}');
    let mut rows: Vec<LogRow> = Vec::new();
    let mut i: usize = 0;
    while i < list.len()
        invariant
            i <= list.len(),
            rows.len() == i,
            text::texts(list@) == text::kept(text::parts(output@, '\u{1e}')),
            forall|k: int|
                0 <= k < i ==> row_read(
                    #[trigger] rows@[k],
                    text::kept(text::parts(output@, '\u{1e}'))[k],
                ),
        decreases list.len() - i,
    {
        let fields = text::split(list[i].as_str(), '\u{1f}');
        assert(text::texts(list@)[i as int] == list@[i as int]@);
        let row = LogRow {
            hash: field_at(&fields, 0),
            subject: field_at(&fields, 1),
            body: field_at(&fields, 2),
        };
        proof {
            let content = list@[i as int]@;
            assert forall|k: int| 0 <= k < fields.len() implies #[trigger] fields@[k]@
                == text::parts(content, '\u{1f}')[k] by {
                assert(text::texts(fields@)[k] == fields@[k]@);
            }
            assert(fields.len() == text::parts(content, '\u{1f}').len());
            assert(row_read(row, content));
        }
        rows.push(row);
        i += 1;
    }
    rows
}

/// The files that a command for file names wrote, one on each line.
pub fn read_files(output: &str) -> (files: Vec<String>)
    ensures
        text::texts(files@) == text::kept_lines(output@),
{
    text::trimmed_lines(output)
}

/// The commits of the rows of a log that have a hash and a subject, with their files.
pub open spec fn records_of(rows: Seq<LogRow>, files: Seq<Vec<String>>) -> Seq<RecordView>
    decreases rows.len(),
{
    if rows.len() == 0 {
        Seq::empty()
    } else {
        let before = records_of(rows.drop_last(), files.drop_last());
        let row = rows.last();
        if row.hash@.len() == 0 || row.subject@.len() == 0 {
            before
        } else {
            before.push(
                RecordView {
                    hash: row.hash@,
                    subject: row.subject@,
                    body: row.body@,
                    files: text::texts(files.last()@),
                },
            )
        }
    }
}

/// The commits of the rows of a log that have a hash and a subject, with their files.
pub fn commit_records(rows: Vec<LogRow>, files: Vec<Vec<String>>) -> (result: Vec<CommitRecord>)
    requires
        rows.len() == files.len(),
    ensures
        result@.map_values(|record: CommitRecord| record@) == records_of(rows@, files@),
{
    let ghost all_rows = rows@;
    let ghost all_files = files@;
    let mut rows = rows;
    let mut files = files;
    let mut result: Vec<CommitRecord> = Vec::new();
    let ghost mut n: int = 0;
    proof {
        assert(all_rows.skip(0) =~= all_rows);
        assert(all_files.skip(0) =~= all_files);
        assert(result@.map_values(|record: CommitRecord| record@) =~= records_of(
            all_rows.take(0),
            all_files.take(0),
        ));
    }
    while rows.len() > 0
        invariant
            0 <= n <= all_rows.len() == all_files.len(),
            rows@ == all_rows.skip(n),
            files@ == all_files.skip(n),
            result@.map_values(|record: CommitRecord| record@) == records_of(
                all_rows.take(n),
                all_files.take(n),
            ),
        decreases rows.len(),
    {
        let row = rows.remove(0);
        let touched = files.remove(0);
        proof {
            assert(rows@ =~= all_rows.skip(n + 1));
            assert(files@ =~= all_files.skip(n + 1));
            assert(all_rows.take(n + 1).drop_last() =~= all_rows.take(n));
            assert(all_files.take(n + 1).drop_last() =~= all_files.take(n));
            n = n + 1;
        }
        if row.hash.as_str().is_empty() || row.subject.as_str().is_empty() {
            continue;
        }
        let ghost before = result@;
        let record = CommitRecord {
            hash: row.hash,
            subject: row.subject,
            body: row.body,
            files: touched,
        };
        result.push(record);
        assert(result@.map_values(|record: CommitRecord| record@) =~= before.map_values(
            |record: CommitRecord| record@,
        ).push(record@));
    }
    assert(all_rows.take(n) =~= all_rows);
    assert(all_files.take(n) =~= all_files);
    result
}

/// The arguments of the git command that lists the files that differ between two commits.
pub fn changed_files_between(before: &str, after: &str) -> (args: Vec<String>)
    ensures
        text::texts(args@) == seq!["diff"@, "--name-only"@, before@, after@],
{
    let args = vec![
        "diff".to_owned(),
        "--name-only".to_owned(),
        before.to_owned(),
        after.to_owned(),
    ];
    assert(text::texts(args@) =~= seq!["diff"@, "--name-only"@, before@, after@]);
    args
}

/// The arguments of the git command that succeeds where a tag exists.
pub fn tag_exists(tag_name: &str) -> (args: Vec<String>)
    ensures
        text::texts(args@) == seq![
            "rev-parse"@,
            "--verify"@,
            "--quiet"@,
            "refs/tags/"@ + tag_name@,
        ],
{
    let args = vec![
        "rev-parse".to_owned(),
        "--verify".to_owned(),
        "--quiet".to_owned(),
        "refs/tags/".to_owned().concat(tag_name),
    ];
    assert(text::texts(args@) =~= seq![
        "rev-parse"@,
        "--verify"@,
        "--quiet"@,
        "refs/tags/"@ + tag_name@,
    ]);
    args
}

/// The arguments of the git command that creates an annotated tag; a tag that exists is
/// not created again.
pub fn create_annotated_tag(tag_name: &str, message: &str, exists: bool) -> (result: Result<
    Vec<String>,
    ReleaseError,
>)
    ensures
        exists ==> (result matches Err(ReleaseError::TagExists { tag }) && tag@ == tag_name@),
        !exists ==> (result matches Ok(args) && text::texts(args@) == seq![
            "tag"@,
            "-a"@,
            tag_name@,
            "-m"@,
            message@,
        ]),
{
    if exists {
        return Err(ReleaseError::TagExists { tag: tag_name.to_owned() });
    }
    let args = vec![
        "tag".to_owned(),
        "-a".to_owned(),
        tag_name.to_owned(),
        "-m".to_owned(),
        message.to_owned(),
    ];
    assert(text::texts(args@) =~= seq!["tag"@, "-a"@, tag_name@, "-m"@, message@]);
    Ok(args)
}

/// The arguments of the git command that pushes a tag.
pub fn push_tag(tag_name: &str) -> (args: Vec<String>)
    ensures
        text::texts(args@) == seq!["push"@, "origin"@, tag_name@],
{
    let args = vec![
        "push".to_owned(),
        "origin".to_owned(),
        tag_name.to_owned(),
    ];
    assert(text::texts(args@) =~= seq!["push"@, "origin"@, tag_name@]);
    args
}

/// The arguments of the git command that starts a branch anew and switches to it.
pub fn checkout_new_branch(branch: &str) -> (args: Vec<String>)
    ensures
        text::texts(args@) == seq!["checkout"@, "-B"@, branch@],
{
    let args = vec![
        "checkout".to_owned(),
        "-B".to_owned(),
        branch.to_owned(),
    ];
    assert(text::texts(args@) =~= seq!["checkout"@, "-B"@, branch@]);
    args
}

/// What git knows an author by.
#[derive(Debug, Clone, Copy, PartialEq, Eq, Structural)]
pub enum IdentityField {
    Name,
    Email,
}

/// The setting that holds a part of the identity.
pub open spec fn identity_setting(field: IdentityField) -> Seq<char> {
    match field {
        IdentityField::Name => "user.name"@,
        IdentityField::Email => "user.email"@,
    }
}

/// What the part of the identity is where none was set.
pub open spec fn default_identity(field: IdentityField) -> Seq<char> {
    match field {
        IdentityField::Name => "release-kthx[bot]"@,
        IdentityField::Email => "release-kthx[bot]@users.noreply.github.com"@,
    }
}

fn setting_of(field: IdentityField) -> (result: String)
    ensures
        result@ == identity_setting(field),
{
    match field {
        IdentityField::Name => "user.name".to_owned(),
        IdentityField::Email => "user.email".to_owned(),
    }
}

/// The arguments of the git command that reads a part of the identity.
pub fn identity(field: IdentityField) -> (args: Vec<String>)
    ensures
        text::texts(args@) == seq!["config"@, identity_setting(field)],
{
    let args = vec!["config".to_owned(), setting_of(field)];
    assert(text::texts(args@) =~= seq!["config"@, identity_setting(field)]);
    args
}

/// The arguments of the git command that sets a part of the identity, where reading it
/// failed or gave nothing.
pub fn ensure_identity(field: IdentityField, success: bool, output: &str) -> (result: Option<
    Vec<String>,
>)
    ensures
        success && text::trimmed(output@).len() > 0 ==> result is None,
        !success || text::trimmed(output@).len() == 0 ==> (result matches Some(args)
            && text::texts(args@) == seq![
            "config"@,
            identity_setting(field),
            default_identity(field),
        ]),
{
    if success && !text::trim(output).as_str().is_empty() {
        return None;
    }
    let value = match field {
        IdentityField::Name => "release-kthx[bot]".to_owned(),
        IdentityField::Email => "release-kthx[bot]@users.noreply.github.com".to_owned(),
    };
    let args = vec!["config".to_owned(), setting_of(field), value];
    assert(text::texts(args@) =~= seq![
        "config"@,
        identity_setting(field),
        default_identity(field),
    ]);
    Some(args)
}

/// The arguments of the git command that stages files, where there are any.
pub fn add_files(files: &Vec<String>) -> (result: Option<Vec<String>>)
    ensures
        files.len() == 0 ==> result is None,
        files.len() > 0 ==> (result matches Some(args) && text::texts(args@) == seq!["add"@]
            + text::texts(files@)),
{
    if files.len() == 0 {
        return None;
    }
    let mut args = vec!["add".to_owned()];
    let mut i: usize = 0;
    assert(text::texts(args@) =~= seq!["add"@] + text::texts(files@.take(0)));
    while i < files.len()
        invariant
            i <= files.len(),
            text::texts(args@) == seq!["add"@] + text::texts(files@.take(i as int)),
        decreases files.len() - i,
    {
        let ghost before = args@;
        args.push(files[i].clone());
        assert(text::texts(args@) =~= text::texts(before).push(files@[i as int]@));
        assert(text::texts(files@.take(i + 1)) =~= text::texts(files@.take(i as int)).push(
            files@[i as int]@,
        ));
        assert(text::texts(args@) =~= seq!["add"@] + text::texts(files@.take(i + 1)));
        i += 1;
    }
    assert(files@.take(i as int) =~= files@);
    Some(args)
}

/// The arguments of the git command that says by its exit code whether changes are staged.
pub fn has_staged_changes() -> (args: Vec<String>)
    ensures
        text::texts(args@) == seq!["diff"@, "--cached"@, "--quiet"@],
{
    let args = vec![
        "diff".to_owned(),
        "--cached".to_owned(),
        "--quiet".to_owned(),
    ];
    assert(text::texts(args@) =~= seq!["diff"@, "--cached"@, "--quiet"@]);
    args
}

/// Whether changes are staged, by the exit code of the command for it.
pub fn read_staged_changes(code: Option<i32>) -> (result: Result<bool, ReleaseError>)
    ensures
        match code {
            Some(0) => result == Ok::<bool, ReleaseError>(false),
            Some(1) => result == Ok::<bool, ReleaseError>(true),
            _ => result == Err::<bool, ReleaseError>(ReleaseError::StagedChanges),
        },
{
    match code {
        Some(0) => Ok(false),
        Some(1) => Ok(true),
        _ => Err(ReleaseError::StagedChanges),
    }
}

/// The arguments of the git command that commits what is staged.
pub fn commit(message: &str) -> (args: Vec<String>)
    ensures
        text::texts(args@) == seq!["commit"@, "-m"@, message@],
{
    let args = vec![
        "commit".to_owned(),
        "-m".to_owned(),
        message.to_owned(),
    ];
    assert(text::texts(args@) =~= seq!["commit"@, "-m"@, message@]);
    args
}

/// The arguments of the git command that pushes a branch over what it was.
pub fn push_branch(branch: &str) -> (args: Vec<String>)
    ensures
        text::texts(args@) == seq![
            "push"@,
            "--force-with-lease"@,
            "--set-upstream"@,
            "origin"@,
            branch@,
        ],
{
    let args = vec![
        "push".to_owned(),
        "--force-with-lease".to_owned(),
        "--set-upstream".to_owned(),
        "origin".to_owned(),
        branch.to_owned(),
    ];
    assert(text::texts(args@) =~= seq![
        "push"@,
        "--force-with-lease"@,
        "--set-upstream"@,
        "origin"@,
        branch@,
    ]);
    args
}

/// Every commit that is taken from a log has a hash and a subject.
pub proof fn records_have_hash_and_subject(rows: Seq<LogRow>, files: Seq<Vec<String>>)
    ensures
        records_of(rows, files).len() <= rows.len(),
        forall|i: int|
            #![trigger records_of(rows, files)[i]]
            0 <= i < records_of(rows, files).len() ==> records_of(rows, files)[i].hash.len() > 0
                && records_of(rows, files)[i].subject.len() > 0,
    decreases rows.len(),
{
    if rows.len() > 0 {
        records_have_hash_and_subject(rows.drop_last(), files.drop_last());
        let before = records_of(rows.drop_last(), files.drop_last());
        let all = records_of(rows, files);
        assert forall|i: int| #![trigger all[i]] 0 <= i < all.len() implies all[i].hash.len() > 0
            && all[i].subject.len() > 0 by {
            if i < before.len() {
                assert(all[i] == before[i]);
            }
        }
    }
}

} // verus!
