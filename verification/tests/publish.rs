use release_kthx::error::ReleaseError;
use release_kthx::plan::{CrateInfo, CrateReleaseNotes};
use release_kthx::publish::{
    merge_steps, pending_publications, publish_notes, publish_on_merge, publish_report,
    publish_steps, publish_tags, skipped_merge, MergeDecision, PublishStep,
};
use release_kthx::version::Version;

fn version(text: &str) -> Version {
    Version::parse(text).expect("valid semver")
}

fn info(name: &str, current: &str) -> CrateInfo {
    CrateInfo {
        name: name.to_string(),
        manifest_path: format!("crates/{name}/Cargo.toml"),
        crate_dir: format!("crates/{name}"),
        version: version(current),
        private: false,
        local_dependencies: Vec::new(),
    }
}

fn texts(list: &[&str]) -> Vec<String> {
    list.iter().map(|text| text.to_string()).collect()
}

fn notes(base: &str) -> CrateReleaseNotes {
    CrateReleaseNotes {
        crate_name: "app".to_string(),
        manifest_path: "crates/app/Cargo.toml".to_string(),
        base_ref: Some(base.to_string()),
        commits: Vec::new(),
    }
}

fn create(tag: &str, message: &str) -> PublishStep {
    PublishStep::CreateTag {
        tag: tag.to_string(),
        message: message.to_string(),
    }
}

fn pushed(tag: &str) -> PublishStep {
    PublishStep::PushTag {
        tag: tag.to_string(),
    }
}

fn released(tag: &str, title: &str, notes: &str) -> PublishStep {
    PublishStep::CreateRelease {
        tag: tag.to_string(),
        title: title.to_string(),
        notes: notes.to_string(),
    }
}

#[test]
fn versions_without_a_tag_are_published() {
    let crates = vec![info("app", "0.1.0"), info("lib", "1.0.0")];
    let tags = publish_tags(&crates, "{{ crate }}-v{{ version }}").expect("tags");
    assert_eq!(tags, vec!["app-v0.1.0", "lib-v1.0.0"]);
    let pending = pending_publications(&crates, &tags, &vec![true, false], None);
    assert_eq!(pending.len(), 1);
    assert_eq!(pending[0].crate_name, "lib");
    assert_eq!(
        publish_report(&pending),
        "publish plan:\n- crate: lib version: 1.0.0 tag: lib-v1.0.0\n"
    );
    assert!(pending_publications(&crates, &tags, &vec![true, true], None).is_empty());
    assert_eq!(
        publish_report(&Vec::new()),
        "publish plan: no new crate versions to tag or release\n"
    );
    assert_eq!(publish_tags(&crates, "v{{ version }}"), Err(ReleaseError::TagTemplate));
    assert_eq!(publish_tags(&Vec::new(), "v"), Err(ReleaseError::NoPackages));
}

#[test]
fn merges_publish_the_crates_whose_manifests_they_changed() {
    let crates = vec![info("app", "0.1.0"), info("lib", "1.0.0")];
    let tags = texts(&["app-v0.1.0", "lib-v1.0.0"]);
    let files = texts(&["Cargo.lock", "crates//lib/Cargo.toml"]);
    let pending = pending_publications(&crates, &tags, &vec![false, false], Some(&files));
    assert_eq!(pending.len(), 1);
    assert_eq!(pending[0].tag, "lib-v1.0.0");
    assert_eq!(
        merge_steps(
            Some(&files),
            &crates,
            &tags,
            &vec![false, false],
            &Vec::new(),
            false,
            true,
            false
        ),
        vec![create("lib-v1.0.0", "Release lib 1.0.0"), pushed("lib-v1.0.0")]
    );
}

#[test]
fn other_pushes_publish_nothing() {
    let crates = vec![info("app", "0.1.0")];
    let tags = texts(&["app-v0.1.0"]);
    let exist = vec![false];
    let steps = |files: Option<&Vec<String>>, dry_run: bool| {
        merge_steps(files, &crates, &tags, &exist, &Vec::new(), dry_run, true, true)
    };
    assert!(steps(None, false).is_empty());
    assert!(steps(Some(&Vec::new()), false).is_empty());
    assert!(steps(Some(&texts(&["crates/app/Cargo.toml", "src/lib.rs"])), false).is_empty());
    assert!(steps(Some(&texts(&["crates/app/Cargo.toml"])), true).is_empty());
    assert_eq!(steps(Some(&texts(&["crates/app/Cargo.toml"])), false).len(), 3);
}

#[test]
fn publications_tag_push_and_release_in_turn() {
    let crates = vec![info("app", "0.1.0"), info("lib", "1.0.0")];
    let tags = texts(&["app-v0.1.0", "lib-v1.0.0"]);
    let pending = pending_publications(&crates, &tags, &vec![false, false], None);
    let notes = vec![notes("one")];
    assert_eq!(
        publish_steps(&pending, &notes, false, true, true),
        vec![
            create("app-v0.1.0", "Release app 0.1.0"),
            pushed("app-v0.1.0"),
            released("app-v0.1.0", "Release app 0.1.0", "Changes since `one`\n\n"),
            create("lib-v1.0.0", "Release lib 1.0.0"),
            pushed("lib-v1.0.0"),
            released(
                "lib-v1.0.0",
                "Release lib 1.0.0",
                "Automated publish for crate `lib` at version `1.0.0`."
            ),
        ]
    );
    assert_eq!(
        publish_steps(&pending, &notes, false, false, false),
        vec![
            create("app-v0.1.0", "Release app 0.1.0"),
            create("lib-v1.0.0", "Release lib 1.0.0"),
        ]
    );
    assert!(publish_steps(&pending, &notes, true, true, true).is_empty());
    let afterwards = pending_publications(&crates, &tags, &vec![true, true], None);
    assert!(publish_steps(&afterwards, &notes, false, true, true).is_empty());
}

#[test]
fn published_releases_have_notes() {
    assert_eq!(
        publish_notes("app", &version("0.2.0"), &vec![notes("one"), notes("two")]),
        "Changes since `two`\n\n"
    );
    assert_eq!(
        publish_notes("lib", &version("0.2.0"), &vec![notes("one")]),
        "Automated publish for crate `lib` at version `0.2.0`."
    );
}

#[test]
fn merges_of_releases_are_published() {
    assert_eq!(publish_on_merge(None), MergeDecision::NotAPush);
    assert_eq!(publish_on_merge(Some(&Vec::new())), MergeDecision::NoChanges);
    assert_eq!(
        publish_on_merge(Some(&texts(&["src/lib.rs"]))),
        MergeDecision::NotARelease
    );
    assert_eq!(publish_on_merge(Some(&texts(&["Cargo.toml"]))), MergeDecision::Publish);
    assert_eq!(skipped_merge(MergeDecision::Publish), None);
    assert_eq!(
        skipped_merge(MergeDecision::NotAPush).as_deref(),
        Some("publish-on-merge: skipped (not a push merge payload)")
    );
    assert_eq!(
        skipped_merge(MergeDecision::NoChanges).as_deref(),
        Some("publish-on-merge: skipped (no changed files)")
    );
    assert_eq!(
        skipped_merge(MergeDecision::NotARelease).as_deref(),
        Some("publish-on-merge: skipped (changes are not release payload)")
    );
    assert_eq!(
        ReleaseError::DependencyDrift.message(),
        "internal dependency manifests require updates"
    );
}
