use release_kthx::error::ReleaseError;
use release_kthx::git::{
    add_files, changed_files_between, checkout_new_branch, collect_commits, commit, commit_files,
    commit_records, create_annotated_tag, ensure_identity, find_version_commit,
    has_staged_changes, identity, latest_tag, manifest_package_version, previous_version,
    push_branch, push_tag, read_files, read_introducing_commit, read_latest_tag, read_log,
    read_previous_version, read_staged_changes, read_version_commit, tag_exists, IdentityField, LogRow,
};

#[test]
fn parse_empty_log_output() {
    let mut commits = Vec::new();
    for row in "".split('\u{1e}') {
        let row = row.trim();
        if !row.is_empty() {
            commits.push(row.to_string());
        }
    }
    assert!(commits.is_empty());
    assert!(read_log("").is_empty());
}

#[test]
fn log_rows_are_read() {
    let rows = read_log(
        "aaa\u{1f}feat: one\u{1f}a body\nof two lines\n\u{1e}\nbbb\u{1f} fix: two \u{1f}\u{1e}\n\u{1f}orphan\u{1f}\u{1e}ccc\u{1e}\n",
    );
    let read = rows
        .iter()
        .map(|row| (row.hash.as_str(), row.subject.as_str(), row.body.as_str()))
        .collect::<Vec<_>>();
    assert_eq!(
        read,
        vec![
            ("aaa", "feat: one", "a body\nof two lines"),
            ("bbb", "fix: two", ""),
            ("", "orphan", ""),
            ("ccc", "", ""),
        ]
    );
    let files = vec![
        vec!["src/lib.rs".to_string()],
        vec!["a".to_string(), "b".to_string()],
        Vec::new(),
        Vec::new(),
    ];
    let records = commit_records(rows, files);
    assert_eq!(records.len(), 2);
    assert_eq!(records[0].hash, "aaa");
    assert_eq!(records[0].files, vec!["src/lib.rs"]);
    assert_eq!(records[1].subject, "fix: two");
    assert_eq!(records[1].body, "");
    assert_eq!(records[1].files, vec!["a", "b"]);
}

#[test]
fn rows_without_hash_or_subject_are_dropped() {
    let row = |hash: &str, subject: &str| LogRow {
        hash: hash.to_string(),
        subject: subject.to_string(),
        body: "body".to_string(),
    };
    let rows = vec![row("", "subject"), row("hash", ""), row("hash", "subject")];
    let records = commit_records(rows, vec![Vec::new(), Vec::new(), Vec::new()]);
    assert_eq!(records.len(), 1);
    assert_eq!(records[0].body, "body");
}

#[test]
fn file_lists_are_read_line_by_line() {
    assert_eq!(
        read_files("\n src/lib.rs \r\n\n\u{a0}\nCargo.toml\n"),
        vec!["src/lib.rs", "Cargo.toml"]
    );
    assert!(read_files("").is_empty());
}

#[test]
fn latest_tag_is_read_from_a_success_only() {
    assert_eq!(latest_tag(), vec!["describe", "--tags", "--abbrev=0"]);
    assert_eq!(read_latest_tag(true, "v0.1.1\n"), Some("v0.1.1".to_string()));
    assert_eq!(read_latest_tag(true, " \n"), None);
    assert_eq!(read_latest_tag(false, "v0.1.1\n"), None);
}

#[test]
fn version_commit_is_the_first_line() {
    assert_eq!(
        find_version_commit("crates/app/Cargo.toml", "0.2.0"),
        vec![
            "log",
            "--pretty=format:%H",
            "-S",
            "version = \"0.2.0\"",
            "--",
            "crates/app/Cargo.toml"
        ]
    );
    assert_eq!(read_version_commit("abc\ndef\n"), Some("abc".to_string()));
    assert_eq!(read_version_commit(" abc "), Some("abc".to_string()));
    assert_eq!(read_version_commit("\ndef"), None);
    assert_eq!(read_version_commit(""), None);
}

#[test]
fn previous_version_is_that_of_the_parent_manifest() {
    assert_eq!(previous_version("abc", "Cargo.toml"), vec!["show", "abc^:Cargo.toml"]);
    let manifest = "[package]\nname = \"demo\"\nversion = \"0.1.0\"\nedition = \"2024\"\n";
    assert_eq!(
        read_previous_version(true, manifest, "Cargo.toml"),
        Ok(Some("0.1.0".to_string()))
    );
    assert_eq!(read_previous_version(false, manifest, "Cargo.toml"), Ok(None));
    assert_eq!(manifest_package_version("[workspace]\n", "Cargo.toml"), Ok(None));
    assert_eq!(
        manifest_package_version("[package]\nversion.workspace = true\n", "Cargo.toml"),
        Ok(None)
    );
    match read_previous_version(true, "[package", "a/Cargo.toml") {
        Err(ReleaseError::InvalidManifest { path, detail }) => {
            assert_eq!(path, "a/Cargo.toml");
            assert!(!detail.is_empty());
        }
        other => panic!("unexpected {other:?}"),
    }
}

#[test]
fn log_command_starts_at_the_tag() {
    let words = vec![
        "log",
        "--no-merges",
        "--invert-grep",
        "--grep=^chore(release):",
        "--pretty=format:%H%x1f%s%x1f%b%x1e",
    ];
    assert_eq!(collect_commits(None), words);
    let mut since = words.clone();
    since.push("v0.1.0..HEAD");
    assert_eq!(collect_commits(Some("v0.1.0")), since);
}

#[test]
fn commands_are_spelled_out() {
    assert_eq!(
        commit_files("abc"),
        vec!["show", "--pretty=format:", "--name-only", "abc"]
    );
    assert_eq!(changed_files_between("a", "b"), vec!["diff", "--name-only", "a", "b"]);
    assert_eq!(
        tag_exists("v1"),
        vec!["rev-parse", "--verify", "--quiet", "refs/tags/v1"]
    );
    assert_eq!(push_tag("v1"), vec!["push", "origin", "v1"]);
    assert_eq!(checkout_new_branch("b"), vec!["checkout", "-B", "b"]);
    assert_eq!(has_staged_changes(), vec!["diff", "--cached", "--quiet"]);
    assert_eq!(commit("message"), vec!["commit", "-m", "message"]);
    assert_eq!(
        push_branch("b"),
        vec!["push", "--force-with-lease", "--set-upstream", "origin", "b"]
    );
}

#[test]
fn existing_tags_are_not_created_again() {
    assert_eq!(
        create_annotated_tag("v1", "Release", false),
        Ok(vec![
            "tag".to_string(),
            "-a".to_string(),
            "v1".to_string(),
            "-m".to_string(),
            "Release".to_string()
        ])
    );
    let error = create_annotated_tag("v1", "Release", true).expect_err("tag exists");
    assert_eq!(error, ReleaseError::TagExists { tag: "v1".to_string() });
    assert_eq!(error.message(), "tag v1 already exists");
}

#[test]
fn identity_is_set_where_it_is_missing() {
    assert_eq!(identity(IdentityField::Name), vec!["config", "user.name"]);
    assert_eq!(identity(IdentityField::Email), vec!["config", "user.email"]);
    assert_eq!(ensure_identity(IdentityField::Name, true, "tester\n"), None);
    assert_eq!(
        ensure_identity(IdentityField::Name, true, "\n"),
        Some(vec![
            "config".to_string(),
            "user.name".to_string(),
            "release-kthx[bot]".to_string()
        ])
    );
    assert_eq!(
        ensure_identity(IdentityField::Email, false, "tester@example.com"),
        Some(vec![
            "config".to_string(),
            "user.email".to_string(),
            "release-kthx[bot]@users.noreply.github.com".to_string()
        ])
    );
}

#[test]
fn files_are_staged_where_there_are_any() {
    assert_eq!(add_files(&Vec::new()), None);
    assert_eq!(
        add_files(&vec!["Cargo.toml".to_string(), "Cargo.lock".to_string()]),
        Some(vec![
            "add".to_string(),
            "Cargo.toml".to_string(),
            "Cargo.lock".to_string()
        ])
    );
}

#[test]
fn staged_changes_are_told_by_the_exit_code() {
    assert_eq!(read_staged_changes(Some(0)), Ok(false));
    assert_eq!(read_staged_changes(Some(1)), Ok(true));
    assert_eq!(read_staged_changes(Some(128)), Err(ReleaseError::StagedChanges));
    assert_eq!(read_staged_changes(None), Err(ReleaseError::StagedChanges));
    assert_eq!(
        ReleaseError::StagedChanges.message(),
        "failed checking staged changes"
    );
}

#[test]
fn the_introducing_commit_is_the_last_line() {
    assert_eq!(read_introducing_commit("abc\ndef\n"), Some("def".to_string()));
    assert_eq!(read_introducing_commit("abc\n \n"), Some("abc".to_string()));
    assert_eq!(read_introducing_commit("\n"), None);
    assert_eq!(read_introducing_commit(""), None);
}
