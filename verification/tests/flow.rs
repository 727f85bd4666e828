use release_kthx::error::ReleaseError;
use release_kthx::flow::{release_pr_step, release_steps, PrAction, PrEvent, PrStage};
use release_kthx::plan::{CrateReleasePlan, ReleasePlan};
use release_kthx::publish::PublishStep;
use release_kthx::report::{release_pr_body, release_pr_title};
use release_kthx::version::Version;

fn plan(name: &str, current: &str, next: &str) -> CrateReleasePlan {
    CrateReleasePlan {
        crate_name: name.to_string(),
        manifest_path: format!("crates/{name}/Cargo.toml"),
        plan: ReleasePlan {
            base_tag: None,
            current_version: Version::parse(current).expect("valid semver"),
            next_version: Version::parse(next).expect("valid semver"),
            bump_level: "minor".to_string(),
            commits: Vec::new(),
        },
    }
}

fn texts(list: &[&str]) -> Vec<String> {
    list.iter().map(|text| text.to_string()).collect()
}

/// The actions of a pull request, for answers that were written down beforehand.
fn run(
    plans: &Vec<CrateReleasePlan>,
    versions: &[&str],
    staged: bool,
) -> Result<Vec<PrAction>, ReleaseError> {
    let mut actions = Vec::new();
    let mut stage = PrStage::Start;
    let mut event = PrEvent::Done;
    loop {
        let (next, action) = release_pr_step(stage, event, plans, "main", "release")?;
        event = match &action {
            PrAction::UpdateFiles => PrEvent::FilesChanged {
                versions: texts(versions),
                requirements: texts(versions),
                lockfile_changed: !versions.is_empty(),
            },
            PrAction::AskStaged => PrEvent::Staged { any: staged },
            _ => PrEvent::Done,
        };
        actions.push(action);
        if matches!(next, PrStage::Finished) {
            return Ok(actions);
        }
        stage = next;
    }
}

#[test]
fn releases_tag_and_push_in_turn() {
    let plans = vec![plan("app", "0.1.0", "0.2.0"), plan("lib", "1.0.0", "1.1.0")];
    let tags = texts(&["app-v0.2.0", "lib-v1.1.0"]);
    let create = |tag: &str, message: &str| PublishStep::CreateTag {
        tag: tag.to_string(),
        message: message.to_string(),
    };
    let push = |tag: &str| PublishStep::PushTag {
        tag: tag.to_string(),
    };
    assert_eq!(
        release_steps(&plans, &tags, false, true),
        vec![
            create("app-v0.2.0", "Release app 0.2.0"),
            push("app-v0.2.0"),
            create("lib-v1.1.0", "Release lib 1.1.0"),
            push("lib-v1.1.0"),
        ]
    );
    assert_eq!(
        release_steps(&plans, &tags, false, false),
        vec![
            create("app-v0.2.0", "Release app 0.2.0"),
            create("lib-v1.1.0", "Release lib 1.1.0"),
        ]
    );
    assert!(release_steps(&plans, &tags, true, true).is_empty());
}

#[test]
fn pull_requests_are_opened_after_the_branch_was_pushed() {
    let plans = vec![plan("app", "0.1.0", "0.2.0")];
    let files = texts(&["Cargo.lock", "crates/app/Cargo.toml"]);
    let actions = run(&plans, &["crates/app/Cargo.toml"], true).expect("actions");
    assert_eq!(
        actions,
        vec![
            PrAction::Checkout {
                branch: "release".to_string()
            },
            PrAction::UpdateFiles,
            PrAction::Stage {
                files: files.iter().map(|file| file.to_string()).collect()
            },
            PrAction::AskStaged,
            PrAction::Commit {
                message: "chore(release): app v0.2.0".to_string()
            },
            PrAction::Push {
                branch: "release".to_string()
            },
            PrAction::OpenRequest {
                base_branch: "main".to_string(),
                branch: "release".to_string(),
                title: release_pr_title(&plans),
                body: release_pr_body(&plans, &files),
            },
        ]
    );
}

#[test]
fn pull_requests_commit_only_what_is_staged() {
    let plans = vec![plan("app", "0.1.0", "0.2.0")];
    let actions = run(&plans, &["crates/app/Cargo.toml"], false).expect("actions");
    assert_eq!(actions[4], PrAction::KeepCommit);
    assert_eq!(actions.len(), 7);
}

#[test]
fn pull_requests_need_plans_and_changes() {
    assert_eq!(run(&Vec::new(), &[], true), Ok(vec![PrAction::Skip]));
    assert_eq!(
        run(&vec![plan("app", "0.1.0", "0.2.0")], &[], true),
        Err(ReleaseError::NothingToUpdate)
    );
}
