use release_kthx::error::ReleaseError;
use release_kthx::release::{crate_contains_file, is_release_merge_payload};
use release_kthx::workspace::{
    collect_cargo_manifests, collect_crates, parse_crate_info, EntryKind, EntryStep, ManifestFile,
};

fn file(path: &str, content: &str) -> ManifestFile {
    ManifestFile {
        path: path.to_string(),
        content: content.to_string(),
    }
}

#[test]
fn collect_crates_populates_local_dependencies() {
    let files = vec![
        file(
            "/repo/Cargo.toml",
            "[workspace]\nmembers = [\"crates/app\", \"crates/domain\"]\n",
        ),
        file(
            "/repo/crates/domain/Cargo.toml",
            "[package]\nname = \"domain\"\nversion = \"0.1.0\"\n\n[dependencies]\nserde = \"1\"\n",
        ),
        file(
            "/repo/crates/app/Cargo.toml",
            "[package]\nname = \"app\"\nversion = \"0.1.0\"\n\n[dependencies]\ndomain = { path = \"../domain\", version = \"0.1.0\" }\nserde = \"1\"\n",
        ),
    ];

    let crates = collect_crates("/repo", &files).expect("collect crates");

    let app = crates
        .iter()
        .find(|crate_info| crate_info.name == "app")
        .expect("app crate");
    assert_eq!(app.local_dependencies, vec!["domain"]);

    let domain = crates
        .iter()
        .find(|crate_info| crate_info.name == "domain")
        .expect("domain crate");
    assert!(domain.local_dependencies.is_empty());

    let paths = crates
        .iter()
        .map(|info| info.manifest_path.as_str())
        .collect::<Vec<_>>();
    assert_eq!(paths, vec!["crates/app/Cargo.toml", "crates/domain/Cargo.toml"]);
}

#[test]
fn local_dependencies_are_found_in_all_sections() {
    let package = |name: &str, extra: &str| {
        file(
            &format!("crates/{name}/Cargo.toml"),
            &format!("[package]\nname = \"{name}\"\nversion = \"0.1.0\"\n{extra}"),
        )
    };
    let files = vec![
        package("b", ""),
        package("c", ""),
        package("d", ""),
        package("e", ""),
        package(
            "a",
            "[dependencies]\nrenamed = { package = \"e\", path = \"../e\" }\nserde = \"1\"\na = { path = \".\" }\n\
             [dev-dependencies]\nd = { workspace = true }\n[build-dependencies]\nd = \"1\"\n\
             [target.'cfg(unix)'.dependencies]\nc = \"1\"\n\
             [target.'cfg(windows)'.build-dependencies]\nb = \"1\"\n",
        ),
    ];
    let crates = collect_crates(".", &files).expect("collect crates");
    let a = crates.iter().find(|info| info.name == "a").expect("crate a");
    assert_eq!(a.local_dependencies, vec!["b", "c", "d", "e"]);
}

#[test]
fn crate_info_is_read_from_the_manifest() {
    let raw = "[package]\nname = \"demo\"\nversion = \"1.2.3-rc.1\"\npublish = false\n";
    let info = parse_crate_info("/repo", "/repo/crates/demo/Cargo.toml", raw)
        .expect("parsed")
        .expect("a crate");
    assert_eq!(info.name, "demo");
    assert_eq!(info.manifest_path, "crates/demo/Cargo.toml");
    assert_eq!(info.crate_dir, "crates/demo");
    assert_eq!(info.version.to_text(), "1.2.3-rc.1");
    assert_eq!(info.version.major, 1);
    assert_eq!(info.version.pre, "rc.1");
    assert!(info.private);
    assert!(info.local_dependencies.is_empty());

    let root = parse_crate_info(".", "./Cargo.toml", raw)
        .expect("parsed")
        .expect("a crate");
    assert_eq!(root.manifest_path, "Cargo.toml");
    assert_eq!(root.crate_dir, ".");

    let elsewhere = parse_crate_info("/repo", "/other/demo/Cargo.toml", raw)
        .expect("parsed")
        .expect("a crate");
    assert_eq!(elsewhere.manifest_path, "/other/demo/Cargo.toml");
    assert_eq!(elsewhere.crate_dir, "/other/demo");
}

#[test]
fn publishing_is_off_only_where_it_says_so() {
    for (line, private) in [
        ("publish = false\n", true),
        ("publish = true\n", false),
        ("publish = []\n", false),
        ("", false),
    ] {
        let raw = format!("[package]\nname = \"demo\"\nversion = \"1.2.3\"\n{line}");
        let info = parse_crate_info("", "Cargo.toml", &raw)
            .expect("parsed")
            .expect("a crate");
        assert_eq!(info.private, private);
    }
}

#[test]
fn manifests_without_a_package_version_are_no_crates() {
    for raw in [
        "",
        "[workspace]\n",
        "[package]\nname = \"demo\"\n",
        "[package]\nversion = \"1.0.0\"\n",
        "[package]\nname = \"demo\"\nversion.workspace = true\n",
        "package = 1\n",
    ] {
        assert!(parse_crate_info("", "Cargo.toml", raw).expect("parsed").is_none());
    }
}

#[test]
fn the_first_faulty_manifest_is_reported() {
    let files = vec![
        file("a/Cargo.toml", "[package]\nname = \"a\"\nversion = \"1.0.0\"\n"),
        file("b/Cargo.toml", "[package]\nname = \"b\"\nversion = \"one\"\n"),
        file("c/Cargo.toml", "[package"),
    ];
    let error = collect_crates("", &files).expect_err("b is faulty");
    match &error {
        ReleaseError::InvalidVersion { path, .. } => assert_eq!(path, "b/Cargo.toml"),
        other => panic!("unexpected {other:?}"),
    }
    assert!(error
        .message()
        .starts_with("invalid semver version in b/Cargo.toml: "));
    let error = collect_crates("", &files[2..].iter().map(|f| file(&f.path, &f.content)).collect())
        .expect_err("c is faulty");
    assert!(error.message().starts_with("failed parsing c/Cargo.toml: "));
}

#[test]
fn the_search_passes_over_git_and_build_directories() {
    assert_eq!(collect_cargo_manifests(EntryKind::Directory, ".git"), EntryStep::Pass);
    assert_eq!(collect_cargo_manifests(EntryKind::Directory, "target"), EntryStep::Pass);
    assert_eq!(collect_cargo_manifests(EntryKind::Directory, "crates"), EntryStep::Descend);
    assert_eq!(collect_cargo_manifests(EntryKind::Directory, "Cargo.toml"), EntryStep::Descend);
    assert_eq!(collect_cargo_manifests(EntryKind::File, "Cargo.toml"), EntryStep::Take);
    assert_eq!(collect_cargo_manifests(EntryKind::File, "Cargo.lock"), EntryStep::Pass);
    assert_eq!(collect_cargo_manifests(EntryKind::Other, "Cargo.toml"), EntryStep::Pass);
}

#[test]
fn manifests_are_files_of_their_crates() {
    let raw = "[package]\nname = \"demo\"\nversion = \"1.2.3\"\n";
    for (root, manifest) in [
        ("/repo", "/repo/crates/demo/Cargo.toml"),
        ("/repo", "/repo/Cargo.toml"),
        (".", "./crates/demo/Cargo.toml"),
        ("", "crates/Cargo.toml"),
        ("../repo/", "../repo//crates/demo/Cargo.toml"),
    ] {
        let info = parse_crate_info(root, manifest, raw)
            .expect("parsed")
            .expect("a crate");
        assert!(crate_contains_file(&info.crate_dir, &info.manifest_path));
        assert!(is_release_merge_payload(&vec![info.manifest_path]));
    }
}
