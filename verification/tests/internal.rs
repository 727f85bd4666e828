use release_kthx::error::ReleaseError;
use release_kthx::internal::{
    internal_dependency_drifts, manifests_to_rewrite, rewrite_internal_dependency_requirements,
    set_internal_dependency_requirements, InternalDependencyEdit, ManifestChange, ManifestRewrite,
};
use release_kthx::plan::{CrateReleasePlan, ReleasePlan};
use release_kthx::normalize::{rewrite_workspace_requirements, FileWrite};
use release_kthx::requirements::{
    policy_asks_for_none, policy_named, DependencyEdge, DependencyOwner, DependencySource,
    InternalDependencyPolicy, Publication,
};
use release_kthx::version::Version;
use release_kthx::versions::set_manifest_version;
use release_kthx::workspace::{collect_crates, ManifestFile};

const MEMBERS: &str = "[workspace]\nmembers = [\"crates/app\", \"crates/domain\"]\n";

fn version(text: &str) -> Version {
    Version::parse(text).expect("valid semver")
}

fn test_plan(crate_name: &str, current: &str, next: &str) -> CrateReleasePlan {
    CrateReleasePlan {
        crate_name: crate_name.to_string(),
        manifest_path: format!("crates/{crate_name}/Cargo.toml"),
        plan: ReleasePlan {
            base_tag: None,
            current_version: version(current),
            next_version: version(next),
            bump_level: "patch".to_string(),
            commits: Vec::new(),
        },
    }
}

fn file(path: &str, content: &str) -> ManifestFile {
    ManifestFile {
        path: path.to_string(),
        content: content.to_string(),
    }
}

fn package(relative: &str, name: &str, text: &str, private: bool, extra: &str) -> ManifestFile {
    let publish = if private { "publish = false\n" } else { "" };
    file(
        &format!("{relative}/Cargo.toml"),
        &format!(
            "[package]\nname = \"{name}\"\n{publish}version = \"{text}\"\nedition = \"2024\"\n\n{extra}"
        ),
    )
}

/// The requirement in its own style for the version that is wanted.
fn styled(edge: &DependencyEdge) -> Result<Option<String>, String> {
    let wanted = edge.desired_version.to_text();
    match &edge.current_requirement {
        None => Ok(Some(wanted)),
        Some(current) if current.contains(',') || current.starts_with('>') => Err(format!(
            "unsupported internal dependency version requirement `{current}`"
        )),
        Some(current) if current.starts_with('^') => Ok(Some(format!("^{wanted}"))),
        Some(_) => Ok(Some(wanted)),
    }
}

fn strip(edge: &DependencyEdge) -> Result<Option<String>, String> {
    assert!(policy_asks_for_none(InternalDependencyPolicy::Strip, edge));
    Ok(None)
}

fn update(edge: &DependencyEdge) -> Result<Option<String>, String> {
    match edge.source {
        DependencySource::Path => styled(edge),
        DependencySource::Workspace => Ok(None),
    }
}

fn auto(edge: &DependencyEdge) -> Result<Option<String>, String> {
    let workspace_of_private_crates = edge.owner == DependencyOwner::Workspace
        && edge.dependency_publication == Publication::Private
        && edge.all_members_private;
    if policy_asks_for_none(InternalDependencyPolicy::Auto, edge) || workspace_of_private_crates {
        Ok(None)
    } else {
        styled(edge)
    }
}

type Choose = fn(&DependencyEdge) -> Result<Option<String>, String>;

fn changes(
    files: &Vec<ManifestFile>,
    plans: &Vec<CrateReleasePlan>,
    choose: Choose,
) -> Result<Vec<ManifestChange>, ReleaseError> {
    let crates = collect_crates("", files)?;
    let root_exists = files.iter().any(|file| file.path == "Cargo.toml");
    let mut result = Vec::new();
    for manifest_path in manifests_to_rewrite(&crates, root_exists) {
        let original = &files
            .iter()
            .find(|file| file.path == manifest_path)
            .expect("manifest")
            .content;
        let manifest =
            ManifestRewrite::prepare(&manifest_path, &manifest_path, original, &crates, plans)?;
        let choices = manifest.edges.iter().map(choose).collect::<Vec<_>>();
        if let Some(change) =
            rewrite_internal_dependency_requirements(manifest, &crates, plans, &choices)?
        {
            result.push(change);
        }
    }
    Ok(result)
}

fn changed(
    files: &Vec<ManifestFile>,
    plans: &Vec<CrateReleasePlan>,
    choose: Choose,
) -> (Vec<String>, Vec<ManifestFile>) {
    let list = changes(files, plans, choose).expect("rewrite internal deps");
    let updated = files
        .iter()
        .map(|old| {
            let text = list
                .iter()
                .find(|change| change.manifest_path == old.path)
                .map(|change| change.text.as_str())
                .unwrap_or(&old.content);
            file(&old.path, text)
        })
        .collect();
    let edits = internal_dependency_drifts(list);
    (set_internal_dependency_requirements(&edits), updated)
}

fn drifts(files: &Vec<ManifestFile>, choose: Choose) -> Vec<InternalDependencyEdit> {
    internal_dependency_drifts(changes(files, &Vec::new(), choose).expect("detect drifts"))
}

fn content<'a>(files: &'a [ManifestFile], path: &str) -> &'a str {
    &files.iter().find(|file| file.path == path).expect("file").content
}

#[test]
fn auto_policy_strips_private_internal_dependency_versions() {
    let files = vec![
        file("Cargo.toml", MEMBERS),
        package("crates/domain", "domain", "0.4.0", true, ""),
        package(
            "crates/app",
            "app",
            "0.1.0",
            true,
            "[dependencies]\ndomain = { path = \"../domain\", version = \"0.4.0\", features = [\"serde\"] }\n",
        ),
    ];

    let found = drifts(&files, auto);
    assert_eq!(found.len(), 1);
    assert_eq!(found[0].new_requirement, None);

    let (paths, updated) = changed(&files, &vec![test_plan("domain", "0.4.0", "0.5.0")], auto);
    assert_eq!(paths, vec!["crates/app/Cargo.toml"]);

    let updated = content(&updated, "crates/app/Cargo.toml");
    assert!(updated.contains("path = \"../domain\""));
    assert!(updated.contains("features = [\"serde\"]"));
    assert!(!updated.contains("version = \"0.4.0\""));
    assert!(!updated.contains("version = \"0.5.0\""));
}

#[test]
fn auto_policy_updates_non_private_internal_dependency_versions() {
    let files = vec![
        file("Cargo.toml", MEMBERS),
        package("crates/domain", "domain", "0.4.0", false, ""),
        package(
            "crates/app",
            "app",
            "0.1.0",
            true,
            "[dependencies]\ndomain = { path = \"../domain\", version = \"^0.4.0\" }\n",
        ),
    ];
    let (paths, updated) = changed(&files, &vec![test_plan("domain", "0.4.0", "0.5.0")], auto);
    assert_eq!(paths, vec!["crates/app/Cargo.toml"]);
    assert!(content(&updated, "crates/app/Cargo.toml").contains("version = \"^0.5.0\""));
}

#[test]
fn auto_policy_rewrites_workspace_dependency_versions() {
    let files = vec![
        file(
            "Cargo.toml",
            "[workspace]\nmembers = [\"crates/app\", \"crates/domain\"]\n\n[workspace.dependencies]\ndomain = { path = \"crates/domain\", version = \"0.4.0\" }\n",
        ),
        package("crates/domain", "domain", "0.4.0", true, ""),
        package(
            "crates/app",
            "app",
            "0.1.0",
            true,
            "[dependencies]\ndomain = { workspace = true }\n",
        ),
    ];
    let (paths, updated) = changed(&files, &vec![test_plan("domain", "0.4.0", "0.5.0")], auto);
    assert_eq!(paths, vec!["Cargo.toml"]);
    assert!(!content(&updated, "Cargo.toml").contains("version = \"0.4.0\""));
}

#[test]
fn auto_policy_preserves_missing_version_fields_for_non_private_edges() {
    let files = vec![
        file("Cargo.toml", MEMBERS),
        package("crates/domain", "domain", "0.4.0", false, ""),
        package(
            "crates/app",
            "app",
            "0.1.0",
            false,
            "[dependencies]\ndomain = { path = \"../domain\" }\n",
        ),
    ];
    assert!(drifts(&files, auto).is_empty());
}

#[test]
fn strip_policy_removes_versions_for_publishable_internal_edges() {
    let files = vec![
        file("Cargo.toml", MEMBERS),
        package("crates/domain", "domain", "0.4.0", false, ""),
        package(
            "crates/app",
            "app",
            "0.1.0",
            false,
            "[dependencies]\ndomain = { path = \"../domain\", version = \"^0.4.0\" }\n",
        ),
    ];
    let (paths, updated) = changed(&files, &Vec::new(), strip);
    assert_eq!(paths, vec!["crates/app/Cargo.toml"]);

    let text = content(&updated, "crates/app/Cargo.toml");
    assert!(text.contains("path = \"../domain\""));
    assert!(!text.contains("^0.4.0"));
    assert!(drifts(&updated, strip).is_empty());
}

#[test]
fn update_policy_inserts_missing_versions_for_internal_edges() {
    let files = vec![
        file("Cargo.toml", MEMBERS),
        package("crates/domain", "domain", "0.4.0", false, ""),
        package(
            "crates/app",
            "app",
            "0.1.0",
            false,
            "[dependencies]\ndomain = { path = \"../domain\" }\n",
        ),
    ];
    let (paths, updated) = changed(&files, &vec![test_plan("domain", "0.4.0", "0.5.0")], update);
    assert_eq!(paths, vec!["crates/app/Cargo.toml"]);

    let updated = content(&updated, "crates/app/Cargo.toml");
    assert!(updated.contains("path = \"../domain\""));
    assert!(updated.contains("version = \"0.5.0\""));
}

#[test]
fn update_policy_rewrites_renamed_and_target_specific_dependency_sections() {
    let files = vec![
        file(
            "Cargo.toml",
            "[workspace]\nmembers = [\"crates/app\", \"crates/domain\", \"crates/helper\"]\n",
        ),
        package("crates/domain", "domain", "0.4.0", false, ""),
        package("crates/helper", "helper", "0.2.0", false, ""),
        package(
            "crates/app",
            "app",
            "0.1.0",
            false,
            r#"[dependencies]
domain-api = { package = "domain", path = "../domain", version = "^0.4.0" }

[dev-dependencies]
helper = { path = "../helper", version = "0.2.0" }

[build-dependencies]
helper-build = { package = "helper", path = "../helper", version = "0.2.0" }

[target.'cfg(unix)'.dependencies]
domain-unix = { package = "domain", path = "../domain", version = "^0.4.0" }

[target.'cfg(unix)'.dev-dependencies]
helper = { path = "../helper", version = "0.2.0" }

[target.'cfg(unix)'.build-dependencies]
helper-build = { package = "helper", path = "../helper", version = "0.2.0" }
"#,
        ),
    ];
    let plans = vec![
        test_plan("domain", "0.4.0", "0.5.0"),
        test_plan("helper", "0.2.0", "0.3.0"),
    ];
    let (paths, updated) = changed(&files, &plans, update);
    assert_eq!(paths, vec!["crates/app/Cargo.toml"]);

    let text = content(&updated, "crates/app/Cargo.toml");
    assert_eq!(text.matches("version = \"^0.5.0\"").count(), 2);
    assert_eq!(text.matches("version = \"0.3.0\"").count(), 4);
    assert!(text.contains(
        "domain-api = { package = \"domain\", path = \"../domain\", version = \"^0.5.0\" }"
    ));
    assert!(text.contains(
        "domain-unix = { package = \"domain\", path = \"../domain\", version = \"^0.5.0\" }"
    ));
    assert!(text.contains(
        "helper-build = { package = \"helper\", path = \"../helper\", version = \"0.3.0\" }"
    ));

    assert!(changes(&updated, &plans, update).expect("rewrite again").is_empty());
}

#[test]
fn update_policy_rewrites_workspace_dependency_versions() {
    let files = vec![
        file(
            "Cargo.toml",
            "[workspace]\nmembers = [\"crates/app\", \"crates/domain\"]\n\n[workspace.dependencies]\ndomain = { path = \"crates/domain\", version = \"^0.4.0\" }\n",
        ),
        package("crates/domain", "domain", "0.4.0", false, ""),
        package(
            "crates/app",
            "app",
            "0.1.0",
            false,
            "[dependencies]\ndomain = { workspace = true }\n",
        ),
    ];
    let (paths, updated) = changed(&files, &vec![test_plan("domain", "0.4.0", "0.5.0")], update);
    assert_eq!(paths, vec!["Cargo.toml"]);

    assert!(content(&updated, "Cargo.toml")
        .contains("domain = { path = \"crates/domain\", version = \"^0.5.0\" }"));
    let app_manifest = content(&updated, "crates/app/Cargo.toml");
    assert!(app_manifest.contains("domain = { workspace = true }"));
    assert!(!app_manifest.contains("0.5.0"));
}

#[test]
fn unsupported_internal_dependency_requirements_fail_rewrite() {
    let files = vec![
        file("Cargo.toml", MEMBERS),
        package("crates/domain", "domain", "0.4.0", false, ""),
        package(
            "crates/app",
            "app",
            "0.1.0",
            false,
            "[dependencies]\ndomain = { path = \"../domain\", version = \">=0.4.0, <0.5.0\" }\n",
        ),
    ];
    let error = changes(&files, &vec![test_plan("domain", "0.4.0", "0.5.0")], update)
        .expect_err("rewrite should fail");
    let rendered = error.message();
    assert!(rendered.contains(
        "failed parsing internal dependency requirement for domain in crates/app/Cargo.toml"
    ));
    assert!(rendered
        .contains("unsupported internal dependency version requirement `>=0.4.0, <0.5.0`"));
}

#[test]
fn edges_say_who_depends_on_whom() {
    let files = vec![
        package("crates/domain", "domain", "0.4.0", true, ""),
        package(
            "crates/app",
            "app",
            "0.1.0",
            false,
            "[dependencies]\nd = { package = \"domain\", path = \"../domain\", version = \"0.4.0\" }\nserde = { version = \"1\" }\nother = \"1\"\nplain = { package = \"domain\", version = \"1\" }\n[dev-dependencies]\ndomain = { workspace = true }\n",
        ),
    ];
    let crates = collect_crates("", &files).expect("crates");
    let manifest = ManifestRewrite::prepare(
        "crates/app/Cargo.toml",
        "crates/app/Cargo.toml",
        &files[1].content,
        &crates,
        &vec![test_plan("domain", "0.4.0", "0.6.0")],
    )
    .expect("prepared");
    assert_eq!(manifest.edges.len(), 2);
    let first = &manifest.edges[0];
    assert_eq!(first.dependency_key, "d");
    assert_eq!(first.dependency_name, "domain");
    assert_eq!(
        first.owner,
        DependencyOwner::Member { publication: Publication::Publishable }
    );
    assert_eq!(first.source, DependencySource::Path);
    assert_eq!(first.dependency_publication, Publication::Private);
    assert!(!first.all_members_private);
    assert_eq!(first.current_requirement.as_deref(), Some("0.4.0"));
    assert_eq!(first.desired_version, version("0.6.0"));
    let second = &manifest.edges[1];
    assert_eq!(second.source, DependencySource::Workspace);
    assert_eq!(second.current_requirement, None);
}

#[test]
fn manifests_of_no_crate_have_an_unknown_owner() {
    let files = vec![package("crates/domain", "domain", "0.4.0", false, "")];
    let crates = collect_crates("", &files).expect("crates");
    let manifest = ManifestRewrite::prepare(
        "Cargo.toml",
        "Cargo.toml",
        "[dependencies]\ndomain = { path = \"crates/domain\" }\n[workspace.dependencies]\ndomain = { path = \"crates/domain\" }\n",
        &crates,
        &Vec::new(),
    )
    .expect("prepared");
    let owners = manifest.edges.iter().map(|edge| edge.owner).collect::<Vec<_>>();
    assert_eq!(owners, vec![DependencyOwner::UnknownMember, DependencyOwner::Workspace]);
    assert_eq!(manifest.edges[0].desired_version, version("0.4.0"));
}

#[test]
fn faulty_documents_are_reported_by_their_shown_path() {
    let error = ManifestRewrite::prepare("Cargo.toml", "/repo/Cargo.toml", "[", &Vec::new(), &Vec::new())
        .err()
        .expect("not a document");
    match error {
        ReleaseError::InvalidManifest { path, .. } => assert_eq!(path, "/repo/Cargo.toml"),
        other => panic!("unexpected {other:?}"),
    }
}

#[test]
fn comments_and_other_keys_survive_a_rewrite() {
    let files = vec![
        package("domain", "domain", "0.4.0", false, ""),
        file(
            "Cargo.toml",
            "# the root\n[package]\nname = \"app\" # its name\nversion = \"0.1.0\"\n\n[dependencies.domain] # inside\npath = \"domain\"\nversion = \"0.3.0\"\n\n[features]\nall = []\n",
        ),
    ];
    let (paths, updated) = changed(&files, &Vec::new(), update);
    assert_eq!(paths, vec!["Cargo.toml"]);
    assert_eq!(
        content(&updated, "Cargo.toml"),
        "# the root\n[package]\nname = \"app\" # its name\nversion = \"0.1.0\"\n\n[dependencies.domain] # inside\npath = \"domain\"\nversion = \"0.4.0\"\n\n[features]\nall = []\n"
    );
}

#[test]
fn drifts_are_sorted_by_manifest_key_and_name() {
    let edit = |path: &str, key: &str, name: &str| InternalDependencyEdit {
        manifest_path: path.to_string(),
        dependency_key: key.to_string(),
        dependency_name: name.to_string(),
        old_requirement: None,
        new_requirement: Some("1.0.0".to_string()),
    };
    let change = |path: &str, edits: Vec<InternalDependencyEdit>| ManifestChange {
        manifest_path: path.to_string(),
        text: String::new(),
        edits,
    };
    let sorted = internal_dependency_drifts(vec![
        change("b/Cargo.toml", vec![edit("b/Cargo.toml", "z", "z"), edit("b/Cargo.toml", "a", "y")]),
        change("a/Cargo.toml", vec![edit("a/Cargo.toml", "k", "n"), edit("a/Cargo.toml", "k", "m")]),
    ]);
    let keys = sorted
        .iter()
        .map(|edit| {
            (
                edit.manifest_path.as_str(),
                edit.dependency_key.as_str(),
                edit.dependency_name.as_str(),
            )
        })
        .collect::<Vec<_>>();
    assert_eq!(
        keys,
        vec![
            ("a/Cargo.toml", "k", "m"),
            ("a/Cargo.toml", "k", "n"),
            ("b/Cargo.toml", "a", "y"),
            ("b/Cargo.toml", "z", "z"),
        ]
    );
    assert_eq!(
        set_internal_dependency_requirements(&sorted),
        vec!["a/Cargo.toml", "b/Cargo.toml"]
    );
}

#[test]
fn manifests_are_rewritten_once_each() {
    let files = vec![
        package("crates/b", "b", "0.1.0", false, ""),
        file("Cargo.toml", "[package]\nname = \"root\"\nversion = \"0.1.0\"\n"),
    ];
    let crates = collect_crates("", &files).expect("crates");
    assert_eq!(
        manifests_to_rewrite(&crates, true),
        vec!["Cargo.toml", "crates/b/Cargo.toml"]
    );
    assert_eq!(
        manifests_to_rewrite(&crates, false),
        vec!["Cargo.toml", "crates/b/Cargo.toml"]
    );
    assert_eq!(manifests_to_rewrite(&Vec::new(), true), vec!["Cargo.toml"]);
    assert!(manifests_to_rewrite(&Vec::new(), false).is_empty());
}

#[test]
fn releases_leave_no_drift_behind() {
    let files = vec![
        file("Cargo.toml", MEMBERS),
        package("crates/domain", "domain", "0.4.0", false, ""),
        package(
            "crates/app",
            "app",
            "0.1.0",
            false,
            "[dependencies]\ndomain = { path = \"../domain\", version = \"^0.4.0\" }\n",
        ),
    ];
    let plans = vec![test_plan("domain", "0.4.0", "0.5.0")];
    let (paths, mut released) = changed(&files, &plans, update);
    assert_eq!(paths, vec!["crates/app/Cargo.toml"]);
    assert_eq!(drifts(&released, update).len(), 1);
    released[1].content =
        set_manifest_version(&released[1].content, "crates/domain/Cargo.toml", &version("0.5.0"))
            .expect("set version")
            .expect("changed");
    assert!(drifts(&released, update).is_empty());
}

#[test]
fn setting_a_version_keeps_the_edges() {
    let files = vec![package(
        "app",
        "app",
        "0.1.0",
        false,
        "[dependencies]\napp = { path = \".\", version = \"0.1.0\" }\n",
    )];
    let crates = collect_crates("", &files).expect("crates");
    let updated = set_manifest_version(&files[0].content, "app/Cargo.toml", &version("0.2.0"))
        .expect("set version")
        .expect("changed");
    let edges = |content: &str| {
        ManifestRewrite::prepare("app/Cargo.toml", "app/Cargo.toml", content, &crates, &Vec::new())
            .expect("prepared")
            .edges
            .into_iter()
            .map(|edge| (edge.dependency_key, edge.current_requirement, edge.desired_version))
            .collect::<Vec<_>>()
    };
    assert_eq!(edges(&updated), edges(&files[0].content));
    assert_eq!(
        edges(&updated),
        vec![("app".to_string(), Some("0.1.0".to_string()), version("0.1.0"))]
    );
}

fn prepared(
    files: &[ManifestFile],
    plans: &Vec<CrateReleasePlan>,
    choose: Choose,
) -> (
    Vec<release_kthx::plan::CrateInfo>,
    Vec<ManifestRewrite>,
    Vec<Vec<Result<Option<String>, String>>>,
) {
    let owned = files.iter().map(|old| file(&old.path, &old.content)).collect();
    let crates = collect_crates("", &owned).expect("crates");
    let manifests = manifests_to_rewrite(&crates, false)
        .iter()
        .map(|path| {
            ManifestRewrite::prepare(path, path, content(files, path), &crates, plans)
                .expect("prepared")
        })
        .collect::<Vec<_>>();
    let choices = manifests
        .iter()
        .map(|manifest| manifest.edges.iter().map(choose).collect())
        .collect();
    (crates, manifests, choices)
}

#[test]
fn checks_and_rewrites_agree_over_a_workspace() {
    let files = vec![
        package("domain", "domain", "0.4.0", false, ""),
        package(
            "b",
            "b",
            "0.1.0",
            false,
            "[dependencies]\ndomain = { path = \"../domain\", version = \"0.3.0\" }\n",
        ),
        package(
            "a",
            "a",
            "0.1.0",
            false,
            "[dependencies]\nb = { path = \"../b\" }\n",
        ),
    ];
    let run = |files: &[ManifestFile], write_changes: bool| {
        let plans = Vec::new();
        let (crates, manifests, choices) = prepared(files, &plans, update);
        rewrite_workspace_requirements(manifests, &crates, &plans, &choices, write_changes)
    };
    let checked = run(&files, false);
    let rewritten = run(&files, true);
    assert!(checked.writes.is_empty());
    let edits = checked.outcome.expect("edits");
    assert_eq!(edits, rewritten.outcome.expect("edits"));
    assert_eq!(
        edits.iter().map(|edit| edit.manifest_path.as_str()).collect::<Vec<_>>(),
        vec!["a/Cargo.toml", "b/Cargo.toml"]
    );
    assert_eq!(
        rewritten.writes.iter().map(|write| write.path.as_str()).collect::<Vec<_>>(),
        vec!["a/Cargo.toml", "b/Cargo.toml"]
    );
    let updated = files
        .iter()
        .map(|old| {
            let text = rewritten
                .writes
                .iter()
                .find(|write| write.path == old.path)
                .map(|write| write.content.as_str())
                .unwrap_or(&old.content);
            file(&old.path, text)
        })
        .collect::<Vec<_>>();
    let again = run(&updated, true);
    assert_eq!(again.writes, Vec::<FileWrite>::new());
    assert!(again.outcome.expect("no drift").is_empty());
}

#[test]
fn manifests_before_a_failing_one_are_written() {
    let files = vec![
        package("domain", "domain", "0.4.0", false, ""),
        package(
            "a",
            "a",
            "0.1.0",
            false,
            "[dependencies]\ndomain = { path = \"../domain\", version = \"0.3.0\" }\n",
        ),
        package(
            "b",
            "b",
            "0.1.0",
            false,
            "[dependencies]\ndomain = { path = \"../domain\", version = \">=0.3\" }\n",
        ),
    ];
    let plans = Vec::new();
    let (crates, manifests, choices) = prepared(&files, &plans, update);
    let rewritten = rewrite_workspace_requirements(manifests, &crates, &plans, &choices, true);
    assert_eq!(rewritten.writes.len(), 1);
    assert_eq!(rewritten.writes[0].path, "a/Cargo.toml");
    assert_eq!(
        rewritten.outcome.expect_err("unsupported").message(),
        "failed parsing internal dependency requirement for domain in b/Cargo.toml: \
         unsupported internal dependency version requirement `>=0.3`"
    );
}

#[test]
fn stripping_takes_unsupported_requirements_out() {
    let files = vec![
        package("domain", "domain", "0.4.0", false, ""),
        package(
            "app",
            "app",
            "0.1.0",
            false,
            "[dependencies]\ndomain = { path = \"../domain\", version = \">=0.4.0, <0.5.0\" }\n",
        ),
    ];
    let (paths, updated) = changed(&files, &Vec::new(), strip);
    assert_eq!(paths, vec!["app/Cargo.toml"]);
    assert!(!content(&updated, "app/Cargo.toml").contains(">=0.4.0"));
}

#[test]
fn policies_are_named() {
    assert_eq!(policy_named("auto"), Some(InternalDependencyPolicy::Auto));
    assert_eq!(policy_named("strip"), Some(InternalDependencyPolicy::Strip));
    assert_eq!(policy_named("update"), Some(InternalDependencyPolicy::Update));
    assert_eq!(policy_named("Auto"), None);
}

#[test]
fn numbers_arrays_and_comments_survive_a_rewrite() {
    let files = vec![
        package("domain", "domain", "0.4.0", false, ""),
        file(
            "app/Cargo.toml",
            "[package]\nname = \"app\"\nversion = \"0.1.0\"\n\n[dependencies]\n# why\ndomain = { path = '../domain', version = \"0.3.0\", features = [ \"x\" ], limit = 0x1F } # here\nother = '1' # there\n",
        ),
    ];
    let (_, updated) = changed(&files, &Vec::new(), strip);
    assert_eq!(
        content(&updated, "app/Cargo.toml"),
        "[package]\nname = \"app\"\nversion = \"0.1.0\"\n\n[dependencies]\n# why\ndomain = { path = '../domain', features = [ \"x\" ], limit = 0x1F } # here\nother = '1' # there\n"
    );
}
