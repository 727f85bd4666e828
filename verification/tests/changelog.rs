use release_kthx::changelog::{
    hash_can_be_cut, render_markdown, render_release_notes, render_sections, short_hash,
};
use release_kthx::plan::{CommitKind, PlannedCommit, ReleasePlan};
use release_kthx::version::Version;

fn version(text: &str) -> Version {
    Version::parse(text).expect("valid semver")
}

fn commit(hash: &str, subject: &str, kind: CommitKind, breaking: bool) -> PlannedCommit {
    PlannedCommit {
        hash: hash.to_string(),
        subject: subject.to_string(),
        kind,
        breaking,
    }
}

#[test]
fn renders_feature_section() {
    let plan = ReleasePlan {
        base_tag: Some("v0.1.0".to_string()),
        current_version: version("0.1.0"),
        next_version: version("0.2.0"),
        bump_level: "minor".to_string(),
        commits: vec![PlannedCommit {
            hash: "abcdef123456".to_string(),
            subject: "feat: add private release mode".to_string(),
            kind: CommitKind::Feature,
            breaking: false,
        }],
    };

    let text = render_markdown(&plan);
    assert!(text.contains("### Features"));
    assert!(text.contains("add private release mode"));
}

#[test]
fn release_notes_skip_version_heading() {
    let commits = vec![PlannedCommit {
        hash: "abcdef123456".to_string(),
        subject: "fix: patch parser".to_string(),
        kind: CommitKind::Fix,
        breaking: false,
    }];

    let text = render_release_notes(Some("v0.1.0"), &commits);
    assert!(!text.starts_with("## "));
    assert!(text.contains("Changes since `v0.1.0`"));
    assert!(text.contains("### Fixes"));
}

#[test]
fn markdown_is_written_section_by_section() {
    let plan = ReleasePlan {
        base_tag: Some("v0.1.0".to_string()),
        current_version: version("0.1.0"),
        next_version: version("0.2.0"),
        bump_level: "minor".to_string(),
        commits: vec![
            commit("1111111aaaa", "chore: tidy", CommitKind::Chore, false),
            commit("2222222bbbb", "feat!: drop api", CommitKind::Feature, true),
            commit("333", "fix: leak", CommitKind::Fix, false),
            commit("4444444cccc", "feat: add api", CommitKind::Feature, false),
            commit("5555555dddd", "wip", CommitKind::Other, false),
            commit("6666666eeee", "docs: say more", CommitKind::Documentation, false),
            commit("7777777ffff", "refactor: split", CommitKind::Refactor, false),
        ],
    };
    assert_eq!(
        render_markdown(&plan),
        "## 0.2.0\n\nChanges since `v0.1.0`\n\n\
         ### Features\n- feat!: drop api (2222222) **BREAKING**\n- feat: add api (4444444)\n\n\
         ### Fixes\n- fix: leak (333)\n\n\
         ### Refactors\n- refactor: split (7777777)\n\n\
         ### Documentation\n- docs: say more (6666666)\n\n\
         ### Chores\n- chore: tidy (1111111)\n\n\
         ### Other\n- wip (5555555)\n\n"
    );
}

#[test]
fn notes_without_base_and_commits_are_empty() {
    assert_eq!(render_release_notes(None, &Vec::new()), "");
    assert_eq!(render_sections(Some("1.0.0"), None, &Vec::new()), "## 1.0.0\n\n");
}

#[test]
fn every_commit_has_its_line() {
    let commits = vec![
        commit("1111111aaaa", "chore: tidy", CommitKind::Chore, false),
        commit("2222222bbbb", "wip", CommitKind::Other, true),
    ];
    let notes = render_release_notes(None, &commits);
    assert!(notes.contains("- chore: tidy (1111111)\n"));
    assert!(notes.contains("- wip (2222222) **BREAKING**\n"));
}

#[test]
fn hashes_are_cut_to_seven_bytes() {
    assert_eq!(short_hash("abcdef123456"), "abcdef1");
    assert_eq!(short_hash("abc"), "abc");
    assert_eq!(short_hash(""), "");
    assert_eq!(short_hash("abcdeé9"), "abcdeé");
    assert!(hash_can_be_cut("abcdeé9"));
    assert!(!hash_can_be_cut("abcdefé9"));
    assert!(hash_can_be_cut("é"));
}
