use release_kthx::error::ReleaseError;
use release_kthx::plan::{CrateReleasePlan, ReleasePlan};
use release_kthx::version::Version;
use release_kthx::versions::{set_crate_versions, set_lockfile_versions, set_manifest_version};

fn version(text: &str) -> Version {
    Version::parse(text).expect("valid semver")
}

fn test_plan(crate_name: &str, current: &str, next: &str) -> CrateReleasePlan {
    CrateReleasePlan {
        crate_name: crate_name.to_string(),
        manifest_path: format!("crates/{crate_name}/Cargo.toml"),
        plan: ReleasePlan {
            base_tag: None,
            current_version: version(current),
            next_version: version(next),
            bump_level: "patch".to_string(),
            commits: Vec::new(),
        },
    }
}

#[test]
fn updates_workspace_package_versions_in_lockfile() {
    let lock = "version = 4\n\n[[package]]\nname = \"release-kthx\"\nversion = \"0.1.0\"\n\n[[package]]\nname = \"release-kthx-domain\"\nversion = \"0.1.0\"\n";
    let plans = vec![
        test_plan("release-kthx", "0.1.0", "0.1.1"),
        test_plan("release-kthx-domain", "0.1.0", "0.2.0"),
    ];

    let updated = set_lockfile_versions(lock, "Cargo.lock", &plans)
        .expect("lock update")
        .expect("changed");
    assert!(updated.contains("name = \"release-kthx\"\nversion = \"0.1.1\""));
    assert!(updated.contains("name = \"release-kthx-domain\"\nversion = \"0.2.0\""));

    assert_eq!(set_lockfile_versions(&updated, "Cargo.lock", &plans), Ok(None));
}

#[test]
fn lockfile_packages_without_a_plan_stay() {
    let lock = "version = 4\n\n[[package]]\nname = \"a\"\nversion = \"0.1.0\"\nsource = \"registry\"\n\n[[package]]\nname = \"b\"\n";
    let plans = vec![
        test_plan("b", "0.1.0", "0.2.0"),
        test_plan("b", "0.1.0", "0.9.0"),
    ];
    assert_eq!(
        set_lockfile_versions(lock, "Cargo.lock", &plans),
        Ok(Some(
            "version = 4\n\n[[package]]\nname = \"a\"\nversion = \"0.1.0\"\nsource = \"registry\"\n\n[[package]]\nname = \"b\"\nversion = \"0.2.0\"\n".to_string()
        ))
    );
    assert_eq!(set_lockfile_versions(lock, "Cargo.lock", &Vec::new()), Ok(None));
}

#[test]
fn lockfiles_without_packages_stay() {
    let plans = vec![test_plan("a", "0.1.0", "0.2.0")];
    assert_eq!(set_lockfile_versions("version = 4\n", "Cargo.lock", &plans), Ok(None));
    assert_eq!(
        set_lockfile_versions("[package]\nname = \"a\"\n", "Cargo.lock", &plans),
        Ok(None)
    );
    match set_lockfile_versions("[[package", "/repo/Cargo.lock", &plans) {
        Err(ReleaseError::InvalidManifest { path, detail }) => {
            assert_eq!(path, "/repo/Cargo.lock");
            assert!(!detail.is_empty());
        }
        other => panic!("unexpected {other:?}"),
    }
}

#[test]
fn manifest_versions_are_set_where_they_are_stated() {
    assert_eq!(
        set_manifest_version(
            "[package]\nname = \"a\" # name\nversion = \"0.1.0\"\n\n[dependencies]\nb = \"0.1.0\"\n",
            "Cargo.toml",
            &version("0.2.0")
        ),
        Ok(Some(
            "[package]\nname = \"a\" # name\nversion = \"0.2.0\"\n\n[dependencies]\nb = \"0.1.0\"\n"
                .to_string()
        ))
    );
    assert_eq!(
        set_manifest_version(
            "[workspace]\nmembers = []\n\n[workspace.package]\nversion = \"0.1.0\"\n",
            "Cargo.toml",
            &version("0.2.0")
        ),
        Ok(Some(
            "[workspace]\nmembers = []\n\n[workspace.package]\nversion = \"0.2.0\"\n".to_string()
        ))
    );
    assert_eq!(
        set_manifest_version(
            "[package]\nname = \"a\"\n\n[workspace.package]\nedition = \"2021\"\n",
            "Cargo.toml",
            &version("0.2.0")
        ),
        Ok(None)
    );
    assert_eq!(
        set_manifest_version("package = { version = \"0.1.0\" }\n", "Cargo.toml", &version("0.2.0")),
        Ok(Some("package = { version = \"0.2.0\" }\n".to_string()))
    );
    assert_eq!(
        set_manifest_version("[package]\nversion = \"0.2.0\"\n", "Cargo.toml", &version("0.2.0")),
        Ok(None)
    );
    let error = set_manifest_version("[", "/repo/Cargo.toml", &version("0.2.0"))
        .expect_err("not a document");
    assert!(error.message().starts_with("failed parsing /repo/Cargo.toml: "));
}

#[test]
fn changed_manifests_are_listed_once_each() {
    let mut plans = vec![
        test_plan("z", "0.1.0", "0.2.0"),
        test_plan("y", "0.1.0", "0.2.0"),
        test_plan("a", "0.1.0", "0.2.0"),
        test_plan("z", "0.1.0", "0.2.0"),
    ];
    plans[3].manifest_path = "crates//z/./Cargo.toml".to_string();
    assert_eq!(
        set_crate_versions(&plans, &vec![true, false, true, true]),
        vec!["crates/a/Cargo.toml", "crates/z/Cargo.toml"]
    );
    assert!(set_crate_versions(&plans, &vec![false, false, false, false]).is_empty());
}

#[test]
fn versions_are_read_and_written() {
    for text in ["0.1.0", "18446744073709551615.2.3", "1.2.3-alpha.1", "1.2.3+b.5", "1.2.3-rc+b"] {
        assert_eq!(version(text).to_text(), text);
    }
    let parsed = version("1.20.3-rc.1+b5");
    assert_eq!(
        (parsed.major, parsed.minor, parsed.patch, parsed.pre.as_str(), parsed.build.as_str()),
        (1, 20, 3, "rc.1", "b5")
    );
    assert_eq!(parsed.clone(), parsed);
    for text in ["", "1", "1.2", "01.2.3", "1.2.3-", "v1.2.3", " 1.2.3"] {
        assert!(Version::parse(text).is_err());
    }
}
