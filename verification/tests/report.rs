use release_kthx::error::ReleaseError;
use release_kthx::git::collect_commits;
use release_kthx::internal::InternalDependencyEdit;
use release_kthx::plan::{CommitKind, CrateReleasePlan, PlannedCommit, ReleasePlan};
use release_kthx::release::is_release_merge_payload;
use release_kthx::report::{
    changed_files, drift_line, plan_report, release_pr_body, release_pr_title, release_report,
    release_tags, tag_message,
};
use release_kthx::version::Version;

fn version(text: &str) -> Version {
    Version::parse(text).expect("valid semver")
}

fn plan(name: &str, current: &str, next: &str) -> CrateReleasePlan {
    CrateReleasePlan {
        crate_name: name.to_string(),
        manifest_path: format!("crates/{name}/Cargo.toml"),
        plan: ReleasePlan {
            base_tag: Some(format!("{name}-v{current}")),
            current_version: version(current),
            next_version: version(next),
            bump_level: "minor".to_string(),
            commits: vec![PlannedCommit {
                hash: "abcdef123456".to_string(),
                subject: "feat: more".to_string(),
                kind: CommitKind::Feature,
                breaking: false,
            }],
        },
    }
}

fn texts(list: &[&str]) -> Vec<String> {
    list.iter().map(|text| text.to_string()).collect()
}

#[test]
fn drift_lines_name_both_requirements() {
    let mut edit = InternalDependencyEdit {
        manifest_path: "a/Cargo.toml".to_string(),
        dependency_key: "d".to_string(),
        dependency_name: "domain".to_string(),
        old_requirement: Some("0.1.0".to_string()),
        new_requirement: None,
    };
    assert_eq!(drift_line(&edit), "- a/Cargo.toml: d (domain) 0.1.0 -> <removed>");
    edit.old_requirement = None;
    edit.new_requirement = Some("^0.2.0".to_string());
    assert_eq!(drift_line(&edit), "- a/Cargo.toml: d (domain) <none> -> ^0.2.0");
}

#[test]
fn pull_requests_are_titled_by_their_crates() {
    assert_eq!(
        release_pr_title(&vec![plan("app", "0.1.0", "0.2.0")]),
        "chore(release): app v0.2.0"
    );
    assert_eq!(
        release_pr_title(&vec![plan("app", "0.1.0", "0.2.0"), plan("lib", "1.0.0", "1.1.0")]),
        "chore(release): release 2 crates"
    );
    assert_eq!(release_pr_title(&Vec::new()), "chore(release): release 0 crates");
}

#[test]
fn pull_requests_list_crates_manifests_and_changes() {
    let body = release_pr_body(
        &vec![plan("app", "0.1.0", "0.2.0"), plan("lib", "1.0.0", "1.1.0")],
        &texts(&["Cargo.lock", "crates/app/Cargo.toml"]),
    );
    assert_eq!(
        body,
        "## Release PR\n\n## Crates\n| Crate | Current | Next | Bump |\n|---|---|---|---|\n\
         | `app` | `0.1.0` | `0.2.0` | `minor` |\n| `lib` | `1.0.0` | `1.1.0` | `minor` |\n\
         \n## Changed manifests\n- `Cargo.lock`\n- `crates/app/Cargo.toml`\n\
         \n## app\n\n## 0.2.0\n\nChanges since `app-v0.1.0`\n\n### Features\n- feat: more (abcdef1)\n\n\
         \n## lib\n\n## 1.1.0\n\nChanges since `lib-v1.0.0`\n\n### Features\n- feat: more (abcdef1)\n\n"
    );
}

#[test]
fn plans_are_reported() {
    assert_eq!(
        plan_report(".", &vec![plan("app", "0.1.0", "0.2.0")], true),
        "repo: .\ncrates-with-releases: 1\ngithub-release: enabled\n\
         \ncrate: app\nmanifest: crates/app/Cargo.toml\nbase-version: 0.1.0\nnext-version: 0.2.0\n\
         bump: minor\ncommits: 1\n## 0.2.0\n\nChanges since `app-v0.1.0`\n\n### Features\n\
         - feat: more (abcdef1)\n\n\n"
    );
    assert_eq!(plan_report(".", &Vec::new(), false), "no releasable changes detected\n");
}

#[test]
fn releases_are_tagged_and_listed() {
    let plans = vec![plan("app", "0.1.0", "0.2.0"), plan("lib", "1.0.0", "1.1.0")];
    let tags = release_tags(&plans, "{{ crate }}-v{{ version }}").expect("tags");
    assert_eq!(tags, vec!["app-v0.2.0", "lib-v1.1.0"]);
    assert_eq!(
        release_report(&plans, &tags),
        "release plan:\n- app 0.1.0 -> 0.2.0 (minor) tag=app-v0.2.0\n\
         - lib 1.0.0 -> 1.1.0 (minor) tag=lib-v1.1.0\n"
    );
    assert_eq!(release_tags(&plans, "v{{ version }}"), Err(ReleaseError::TagTemplate));
    assert_eq!(release_tags(&Vec::new(), "v{{ version }}"), Ok(Vec::new()));
    assert_eq!(tag_message("app", &version("0.2.0")), "Release app 0.2.0");
}

#[test]
fn what_a_release_changes_is_its_payload() {
    let files = changed_files(
        &texts(&["crates/app/Cargo.toml"]),
        &texts(&["Cargo.toml", "crates/app/Cargo.toml"]),
        true,
    )
    .expect("changes");
    assert_eq!(files, vec!["Cargo.lock", "Cargo.toml", "crates/app/Cargo.toml"]);
    assert!(is_release_merge_payload(&files));
    let error = changed_files(&Vec::new(), &Vec::new(), false).expect_err("nothing changed");
    assert_eq!(error, ReleaseError::NothingToUpdate);
    assert_eq!(error.message(), "no Cargo.toml version fields found to update");
    assert_eq!(
        changed_files(&Vec::new(), &Vec::new(), true),
        Ok(texts(&["Cargo.lock"]))
    );
}

#[test]
fn the_commit_of_a_release_is_not_in_the_next_log() {
    let words = collect_commits(Some("v1"));
    assert_eq!(words[2], "--invert-grep");
    let mark = words[3].strip_prefix("--grep=^").expect("a pattern");
    assert!(release_pr_title(&vec![plan("app", "0.1.0", "0.2.0")]).starts_with(mark));
    assert!(release_pr_title(&Vec::new()).starts_with(mark));
}
