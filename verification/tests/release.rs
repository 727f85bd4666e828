use release_kthx::error::{GitError, ReleaseError};
use release_kthx::git::{CommitHistoryService, CommitRecord};
use release_kthx::history::{
    after_previous_version, base_after_commit, base_after_latest, base_after_tag, build_crate_release_notes, build_crate_release_notes_with_history, build_crate_release_plans,
    build_crate_release_plans_with_history, resolve_base_reference,
    resolve_previous_base_reference, PreviousStep,
};
use release_kthx::plan::{CommitKind, CrateInfo, PlannedCommit, ReleasePlan};
use release_kthx::release::{
    affected_by_commits, crate_commit_inputs, crate_contains_file, directly_affected_crates, is_release_merge_payload,
    owning_crate, render_tag_name,
};
use release_kthx::version::Version;
use release_kthx::workspace::{collect_crates, ManifestFile};

fn version(text: &str) -> Version {
    Version::parse(text).expect("valid semver")
}

fn info(name: &str, dir: &str, current: &str) -> CrateInfo {
    let manifest_path = if dir == "." {
        "Cargo.toml".to_string()
    } else {
        format!("{dir}/Cargo.toml")
    };
    CrateInfo {
        name: name.to_string(),
        manifest_path,
        crate_dir: dir.to_string(),
        version: version(current),
        private: false,
        local_dependencies: Vec::new(),
    }
}

fn record(hash: &str, subject: &str, files: &[&str]) -> CommitRecord {
    CommitRecord {
        hash: hash.to_string(),
        subject: subject.to_string(),
        body: String::new(),
        files: files.iter().map(|file| file.to_string()).collect(),
    }
}

fn texts(list: &[&str]) -> Vec<String> {
    list.iter().map(|text| text.to_string()).collect()
}

/// A history that was written down beforehand.
#[derive(Default)]
struct Recorded {
    tags: Vec<String>,
    latest: Option<String>,
    version_commits: Vec<(String, String, String)>,
    previous: Vec<(String, String, String)>,
    commits: Vec<(Option<String>, String, Vec<String>)>,
    failing: Option<&'static str>,
}

impl Recorded {
    fn fails(&self, call: &str) -> Result<(), GitError> {
        if self.failing == Some(call) {
            Err(GitError {
                message: format!("{call} failed"),
            })
        } else {
            Ok(())
        }
    }
}

impl CommitHistoryService for Recorded {
    fn latest_tag(&self, _path: &str) -> Result<Option<String>, GitError> {
        self.fails("latest_tag")?;
        Ok(self.latest.clone())
    }

    fn collect_commits(
        &self,
        _path: &str,
        from_tag: Option<&str>,
    ) -> Result<Vec<CommitRecord>, GitError> {
        self.fails("collect_commits")?;
        Ok(self
            .commits
            .iter()
            .filter(|(base, _, _)| base.as_deref() == from_tag)
            .map(|(_, subject, files)| CommitRecord {
                hash: "abcdef123456".to_string(),
                subject: subject.clone(),
                body: String::new(),
                files: files.clone(),
            })
            .collect())
    }

    fn tag_exists(&self, _path: &str, tag_name: &str) -> Result<bool, GitError> {
        self.fails("tag_exists")?;
        Ok(self.tags.iter().any(|tag| tag == tag_name))
    }

    fn find_version_commit(
        &self,
        _path: &str,
        manifest_path: &str,
        version: &str,
    ) -> Result<Option<String>, GitError> {
        self.fails("find_version_commit")?;
        Ok(self
            .version_commits
            .iter()
            .find(|(manifest, text, _)| manifest == manifest_path && text == version)
            .map(|(_, _, hash)| hash.clone()))
    }

    fn find_introducing_commit(
        &self,
        _path: &str,
        manifest_path: &str,
        version: &str,
    ) -> Result<Option<String>, GitError> {
        self.fails("find_introducing_commit")?;
        Ok(self
            .version_commits
            .iter()
            .rev()
            .find(|(manifest, text, _)| manifest == manifest_path && text == version)
            .map(|(_, _, hash)| hash.clone()))
    }

    fn previous_version(
        &self,
        _path: &str,
        manifest_path: &str,
        version: &str,
    ) -> Result<Option<String>, GitError> {
        self.fails("previous_version")?;
        Ok(self
            .previous
            .iter()
            .find(|(manifest, text, _)| manifest == manifest_path && text == version)
            .map(|(_, _, before)| before.clone()))
    }
}

#[test]
fn tag_template_requires_crate_placeholder_for_multiple_crates() {
    let result = render_tag_name("v{{ version }}", "my-crate", &version("0.2.0"), 2);
    assert!(result.is_err());
    let error = result.expect_err("no place for the crate");
    assert_eq!(error, ReleaseError::TagTemplate);
    assert_eq!(
        error.message(),
        "release.tag_template must include '{ crate }' when multiple crates are released"
    );
}

#[test]
fn tag_template_renders_crate_and_version() {
    let tag = render_tag_name(
        "{{ crate }}-v{{ version }}",
        "my-crate",
        &version("0.2.0"),
        2,
    )
    .expect("tag renders");
    assert_eq!(tag, "my-crate-v0.2.0");
}

#[test]
fn tag_of_a_single_crate_needs_no_place_for_it() {
    assert_eq!(
        render_tag_name("v{{ version }}", "my-crate", &version("1.2.3-rc.1+b5"), 1),
        Ok("v1.2.3-rc.1+b5".to_string())
    );
    assert_eq!(
        render_tag_name("latest", "my-crate", &version("1.2.3"), 0),
        Ok("latest".to_string())
    );
    assert_eq!(
        render_tag_name("{{ crate }}/{{ crate }}{{version}}", "a", &version("1.2.3"), 3),
        Ok("a/a{{version}}".to_string())
    );
}

#[test]
fn release_payload_accepts_manifest_and_lockfile() {
    let files = texts(&[
        "Cargo.toml",
        "Cargo.lock",
        "crates/release-kthx-domain/Cargo.toml",
    ]);
    assert!(is_release_merge_payload(&files));
}

#[test]
fn release_payload_rejects_non_release_files() {
    let files = texts(&["Cargo.toml", "README.md"]);
    assert!(!is_release_merge_payload(&files));
}

#[test]
fn release_payload_needs_a_manifest() {
    assert!(!is_release_merge_payload(&Vec::new()));
    assert!(!is_release_merge_payload(&texts(&["Cargo.lock"])));
    assert!(!is_release_merge_payload(&texts(&["Cargo.toml", "a/Cargo.lock"])));
    assert!(is_release_merge_payload(&texts(&["a/NotCargo.toml"])));
}

#[test]
fn build_crate_release_notes_uses_previous_tag_boundary() {
    let files = vec![ManifestFile {
        path: "/repo/Cargo.toml".to_string(),
        content: "[package]\nname = \"demo\"\nversion = \"0.2.0\"\nedition = \"2024\"\n".to_string(),
    }];
    let crates = collect_crates("/repo", &files).expect("collect crates");
    let history = Recorded {
        tags: texts(&["demo-v0.1.0"]),
        previous: vec![(
            "Cargo.toml".to_string(),
            "0.2.0".to_string(),
            "0.1.0".to_string(),
        )],
        commits: vec![
            (
                Some("demo-v0.1.0".to_string()),
                "feat: add api".to_string(),
                texts(&["src/lib.rs"]),
            ),
            (None, "feat: initial release".to_string(), Vec::new()),
        ],
        ..Recorded::default()
    };

    let histories = build_crate_release_notes_with_history(
        &history,
        "/repo",
        "{{ crate }}-v{{ version }}",
        &crates,
    )
    .expect("build release notes");
    let commits = histories
        .iter()
        .map(|entry| {
            entry
                .commits
                .iter()
                .filter(|commit| {
                    directly_affected_crates(&crates, &commit.files).contains(&entry.crate_name)
                })
                .map(|commit| PlannedCommit {
                    hash: commit.hash.clone(),
                    subject: commit.subject.clone(),
                    kind: CommitKind::Feature,
                    breaking: false,
                })
                .collect::<Vec<_>>()
        })
        .collect::<Vec<_>>();
    let notes = build_crate_release_notes(histories, commits);
    assert_eq!(notes.len(), 1);
    assert_eq!(notes[0].crate_name, "demo");
    assert_eq!(notes[0].base_ref.as_deref(), Some("demo-v0.1.0"));
    assert_eq!(notes[0].commits.len(), 1);
    assert_eq!(notes[0].commits[0].subject, "feat: add api");
}

#[test]
fn base_reference_is_the_first_that_is_there() {
    let app = info("app", "crates/app", "0.3.0");
    let template = "{{ crate }}-v{{ version }}";
    let mut history = Recorded {
        tags: texts(&["app-v0.3.0"]),
        latest: Some("latest".to_string()),
        version_commits: vec![(
            "crates/app/Cargo.toml".to_string(),
            "0.3.0".to_string(),
            "abc".to_string(),
        )],
        ..Recorded::default()
    };
    assert_eq!(
        resolve_base_reference(&history, ".", Some("v9"), "v{{ version }}", &app, 2),
        Ok(Some("v9".to_string()))
    );
    assert_eq!(
        resolve_base_reference(&history, ".", None, "v{{ version }}", &app, 2),
        Err(ReleaseError::TagTemplate)
    );
    assert_eq!(
        resolve_base_reference(&history, ".", None, template, &app, 2),
        Ok(Some("app-v0.3.0".to_string()))
    );
    history.tags.clear();
    assert_eq!(
        resolve_base_reference(&history, ".", None, template, &app, 2),
        Ok(Some("abc".to_string()))
    );
    history.version_commits.clear();
    assert_eq!(
        resolve_base_reference(&history, ".", None, template, &app, 2),
        Ok(Some("latest".to_string()))
    );
    history.latest = None;
    assert_eq!(
        resolve_base_reference(&history, ".", None, template, &app, 2),
        Ok(None)
    );
}

#[test]
fn failures_of_the_history_are_handed_on() {
    let app = info("app", "crates/app", "0.3.0");
    for call in ["tag_exists", "find_version_commit", "latest_tag"] {
        let history = Recorded {
            failing: Some(call),
            ..Recorded::default()
        };
        let error = resolve_base_reference(&history, ".", None, "v{{ version }}", &app, 1)
            .expect_err("history fails");
        assert_eq!(error.message(), format!("{call} failed"));
    }
    let history = Recorded {
        failing: Some("previous_version"),
        ..Recorded::default()
    };
    assert_eq!(
        resolve_previous_base_reference(&history, ".", "v{{ version }}", &app, 1),
        Err(ReleaseError::History(GitError {
            message: "previous_version failed".to_string()
        }))
    );
    let history = Recorded {
        failing: Some("collect_commits"),
        ..Recorded::default()
    };
    let error =
        build_crate_release_plans_with_history(&history, ".", None, "v{{ version }}", &vec![app])
            .expect_err("history fails");
    assert_eq!(error.message(), "collect_commits failed");
}

#[test]
fn previous_base_reference_goes_back_one_version() {
    let app = info("app", "crates/app", "0.3.0");
    let previous = |text: &str| {
        vec![(
            "crates/app/Cargo.toml".to_string(),
            "0.3.0".to_string(),
            text.to_string(),
        )]
    };
    let mut history = Recorded {
        tags: texts(&["app-0.2.0", "app-0.3.0"]),
        latest: Some("latest".to_string()),
        previous: previous("0.2.0"),
        ..Recorded::default()
    };
    let template = "{{ crate }}-{{ version }}";
    assert_eq!(
        resolve_previous_base_reference(&history, ".", template, &app, 2),
        Ok(Some("app-0.2.0".to_string()))
    );
    assert_eq!(
        resolve_previous_base_reference(&history, ".", "{{ version }}", &app, 2),
        Err(ReleaseError::TagTemplate)
    );
    history.previous = previous("0.1.0");
    history.version_commits = vec![(
        "crates/app/Cargo.toml".to_string(),
        "0.1.0".to_string(),
        "abc".to_string(),
    )];
    assert_eq!(
        resolve_previous_base_reference(&history, ".", template, &app, 2),
        Ok(Some("abc".to_string()))
    );
    history.previous = Vec::new();
    assert_eq!(
        resolve_previous_base_reference(&history, ".", template, &app, 2),
        Ok(Some("latest".to_string()))
    );
    history.previous = previous("one");
    let error = resolve_previous_base_reference(&history, ".", template, &app, 2)
        .expect_err("not a version");
    assert!(error
        .message()
        .starts_with("invalid previous version for app in crates/app/Cargo.toml: "));
}

#[test]
fn plans_are_made_for_crates_with_commits() {
    let crates = vec![
        info("zeta", "crates/zeta", "0.1.0"),
        info("quiet", "crates/quiet", "0.1.0"),
        info("app", "crates/app", "0.2.0"),
    ];
    let history = Recorded {
        tags: texts(&["zeta-0.1.0", "quiet-0.1.0", "app-0.2.0"]),
        commits: vec![
            (Some("zeta-0.1.0".to_string()), "fix: z".to_string(), Vec::new()),
            (Some("app-0.2.0".to_string()), "feat: a".to_string(), Vec::new()),
        ],
        ..Recorded::default()
    };
    let histories = build_crate_release_plans_with_history(
        &history,
        ".",
        None,
        "{{ crate }}-{{ version }}",
        &crates,
    )
    .expect("histories");
    assert_eq!(histories.len(), 2);
    assert_eq!(histories[0].crate_name, "zeta");
    assert_eq!(histories[0].base_ref.as_deref(), Some("zeta-0.1.0"));
    assert_eq!(histories[1].crate_name, "app");
    assert_eq!(histories[1].version, version("0.2.0"));
    assert_eq!(histories[1].commits[0].subject, "feat: a");

    let plan = |current: &str, next: &str| ReleasePlan {
        base_tag: None,
        current_version: version(current),
        next_version: version(next),
        bump_level: "patch".to_string(),
        commits: Vec::new(),
    };
    let planned = vec![Some(plan("0.1.0", "0.1.1")), Some(plan("0.2.0", "0.3.0"))];
    let plans = build_crate_release_plans(histories, planned);
    assert_eq!(plans.len(), 2);
    assert_eq!(plans[0].crate_name, "app");
    assert_eq!(plans[0].manifest_path, "crates/app/Cargo.toml");
    assert_eq!(plans[0].plan.next_version, version("0.3.0"));
    assert_eq!(plans[1].crate_name, "zeta");
}

#[test]
fn crates_without_a_plan_or_notes_are_left_out() {
    let crates = vec![info("app", ".", "0.2.0")];
    let history = Recorded {
        commits: vec![(None, "docs: a".to_string(), Vec::new())],
        ..Recorded::default()
    };
    let gather = || {
        build_crate_release_plans_with_history(&history, ".", None, "v{{ version }}", &crates)
            .expect("histories")
    };
    assert_eq!(gather().len(), 1);
    assert!(build_crate_release_plans(gather(), vec![None]).is_empty());
    assert!(build_crate_release_notes(gather(), vec![Vec::new()]).is_empty());
}

#[test]
fn no_packages_is_an_error() {
    let history = Recorded::default();
    let error = build_crate_release_plans_with_history(&history, ".", Some("v1"), "v", &Vec::new())
        .expect_err("no crates");
    assert_eq!(error, ReleaseError::NoPackages);
    assert_eq!(error.message(), "no Cargo package manifests found");
    let error = build_crate_release_notes_with_history(&history, ".", "v", &Vec::new())
        .expect_err("no crates");
    assert_eq!(error, ReleaseError::NoPackages);
}

#[test]
fn files_belong_to_the_deepest_crate() {
    let crates = vec![
        info("root", ".", "0.1.0"),
        info("app", "crates/app", "0.1.0"),
        info("plugin", "crates/app/plugin", "0.1.0"),
        info("twin", "crates/app", "0.1.0"),
    ];
    assert_eq!(owning_crate(&crates, "README.md"), Some(0));
    assert_eq!(owning_crate(&crates, "crates/app/src/lib.rs"), Some(1));
    assert_eq!(owning_crate(&crates, "crates/app//plugin/./src/lib.rs"), Some(2));
    assert_eq!(owning_crate(&crates, "crates/apple/src/lib.rs"), Some(0));
    assert_eq!(
        directly_affected_crates(
            &crates,
            &texts(&[
                "crates/app/src/lib.rs",
                "README.md",
                "crates/app/src/main.rs",
                "crates/app/plugin/Cargo.toml"
            ])
        ),
        vec!["app", "plugin", "root"]
    );
    let members = vec![info("app", "crates/app", "0.1.0")];
    assert_eq!(owning_crate(&members, "README.md"), None);
    assert!(directly_affected_crates(&members, &texts(&["README.md"])).is_empty());
}

#[test]
fn directories_are_compared_by_components() {
    assert!(crate_contains_file(".", "anything"));
    assert!(crate_contains_file("./", "anything"));
    assert!(crate_contains_file("crates/app", "crates/app/src/lib.rs"));
    assert!(crate_contains_file("crates/app/", "crates/app"));
    assert!(!crate_contains_file("crates/app", "crates/apple"));
    assert!(!crate_contains_file("crates/app", "/crates/app/src/lib.rs"));
}

#[test]
fn commits_are_taken_as_they_are_part_of_the_release() {
    let commits = vec![
        record("a", "feat: a", &["x"]),
        record("b", "fix: b", &["y"]),
        record("c", "fix: c", &[]),
    ];
    let inputs = crate_commit_inputs(commits, &vec![true, false, true]);
    assert_eq!(inputs.len(), 2);
    assert_eq!(inputs[0].hash, "a");
    assert_eq!(inputs[1].subject, "fix: c");
    assert_eq!(inputs[1].body, "");
}

#[test]
fn answers_of_the_history_decide_the_reference() {
    let failure = || GitError { message: "gone".to_string() };
    let tag = || "v1".to_string();
    assert_eq!(base_after_tag(tag(), Ok(true)), Some(Ok(Some(tag()))));
    assert_eq!(base_after_tag(tag(), Ok(false)), None);
    assert_eq!(
        base_after_tag(tag(), Err(failure())),
        Some(Err(ReleaseError::History(failure())))
    );
    assert_eq!(base_after_commit(Ok(Some(tag()))), Some(Ok(Some(tag()))));
    assert_eq!(base_after_commit(Ok(None)), None);
    assert_eq!(
        base_after_commit(Err(failure())),
        Some(Err(ReleaseError::History(failure())))
    );
    assert_eq!(base_after_latest(Ok(None)), Ok(None));
    assert_eq!(base_after_latest(Ok(Some(tag()))), Ok(Some(tag())));
    assert_eq!(
        base_after_latest(Err(failure())),
        Err(ReleaseError::History(failure()))
    );

    let app = info("app", "crates/app", "0.3.0");
    assert!(matches!(
        after_previous_version(Ok(None), "v", &app, 1),
        PreviousStep::Latest
    ));
    match after_previous_version(Ok(Some("0.2.0".to_string())), "v{{ version }}", &app, 1) {
        PreviousStep::Version { version: before, tag } => {
            assert_eq!(before, version("0.2.0"));
            assert_eq!(tag, "v0.2.0");
        }
        other => panic!("unexpected {other:?}"),
    }
}

#[test]
fn notes_without_tags_start_where_the_prior_version_came() {
    let files = vec![ManifestFile {
        path: "/repo/Cargo.toml".to_string(),
        content: "[package]\nname = \"demo\"\nversion = \"0.2.0\"\nedition = \"2024\"\n".to_string(),
    }];
    let crates = collect_crates("/repo", &files).expect("collect crates");
    let commit = |version: &str, hash: &str| {
        ("Cargo.toml".to_string(), version.to_string(), hash.to_string())
    };
    let history = Recorded {
        previous: vec![commit("0.2.0", "0.1.0")],
        version_commits: vec![
            commit("0.2.0", "release"),
            commit("0.1.0", "release"),
            commit("0.1.0", "initial"),
        ],
        commits: vec![(
            Some("initial".to_string()),
            "feat: add api".to_string(),
            texts(&["src/lib.rs"]),
        )],
        ..Recorded::default()
    };
    let histories = build_crate_release_notes_with_history(
        &history,
        "/repo",
        "{{ crate }}-v{{ version }}",
        &crates,
    )
    .expect("histories");
    assert_eq!(histories.len(), 1);
    assert_eq!(histories[0].base_ref.as_deref(), Some("initial"));
    assert_eq!(histories[0].commits[0].subject, "feat: add api");
    assert_eq!(
        affected_by_commits(&crates, &histories[0].commits),
        vec![vec!["demo".to_string()]]
    );
    assert_eq!(
        resolve_base_reference(&history, "/repo", None, "v{{ version }}", &crates[0], 1),
        Ok(Some("release".to_string()))
    );
}
