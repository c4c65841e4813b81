use releasy::error::BuildPlanError;
use releasy::event::{ClientPayload, Event, EventDetails, EventType};
use releasy::handle::{
    dependency_branch_name, rerun_commit_message, upstream_branch_name, EventHandler, HandleError,
    Task,
};
use releasy::manifest::Manifest;
use releasy::manifest_file::ManifestFile;
use releasy::repo::Repo;

const MANIFEST: &str = r#"
[current-repo]
name = "sway"
owner = "FuelLabs"

[repo.sway.details]
name = "sway"
owner = "FuelLabs"

[repo.sway]
dependencies = ["rust-sdk", "wallet"]

[repo.rust-sdk.details]
name = "fuels-rs"
owner = "FuelLabs"

[repo.wallet.details]
name = "forc-wallet"
owner = "FuelLabs"

[repo.wallet]
dependencies = ["rust-sdk"]
"#;

fn manifest(text: &str) -> Manifest {
    ManifestFile::try_from(text.to_string()).unwrap().manifest()
}

fn event(event_type: EventType, commit_hash: Option<&str>) -> Event {
    let repo = Repo::new("fuels-rs".to_string(), "FuelLabs".to_string());
    let details = EventDetails::new(commit_hash.map(|hash| hash.to_string()), None);
    Event::new(event_type, ClientPayload::new(repo, details))
}

#[test]
fn names_of_branches_and_commits() {
    let repo = Repo::new("fuels-rs".to_string(), "FuelLabs".to_string());
    assert_eq!(dependency_branch_name(&repo), "upgrade/fuels-rs-master");
    assert_eq!(upstream_branch_name(&repo), "upgrade/fuels-rs");
    assert_eq!(
        rerun_commit_message("337d0", &repo),
        "re-run CI after 337d0 commit merged to FuelLabs/fuels-rs"
    );
}

#[test]
fn new_commit_to_dependency_asks_for_its_tracking_branch() {
    let task = event(EventType::NewCommitToDependency, Some("337d0")).handle(manifest(MANIFEST));
    match task {
        Ok(Task::RerunTrackingBranch { commit_hash, tracking_branch, message }) => {
            assert_eq!(commit_hash, "337d0");
            assert_eq!(tracking_branch, "upgrade/fuels-rs-master");
            assert_eq!(message, "re-run CI after 337d0 commit merged to FuelLabs/fuels-rs");
        }
        other => panic!("unexpected {:?}", other),
    }
    let task = event(EventType::NewCommitToDependency, None).handle(manifest(MANIFEST));
    assert!(matches!(task, Err(HandleError::MissingCommitHash)));
}

#[test]
fn new_commit_to_self_asks_for_the_upstream_branches() {
    let task = event(EventType::NewCommitToSelf, Some("337d0")).handle(manifest(MANIFEST));
    match task {
        Ok(Task::RebaseTrackingBranches { commit_hash, tracking_branches }) => {
            assert_eq!(commit_hash, "337d0");
            assert_eq!(tracking_branches, vec!["upgrade/forc-wallet", "upgrade/fuels-rs"]);
        }
        other => panic!("unexpected {:?}", other),
    }
    let task = event(EventType::NewCommitToSelf, None).handle(manifest(MANIFEST));
    assert!(matches!(task, Err(HandleError::MissingCommitHash)));
    let stranger = MANIFEST.replacen("name = \"sway\"", "name = \"swa\"", 1);
    let task = event(EventType::NewCommitToSelf, None).handle(manifest(&stranger));
    match task {
        Err(HandleError::Plan(BuildPlanError::RepoNotFoundInGraph(repo))) => {
            assert_eq!(repo, Repo::new("swa".to_string(), "FuelLabs".to_string()))
        }
        other => panic!("unexpected {:?}", other),
    }
}

#[test]
fn new_release_asks_for_nothing() {
    let task = event(EventType::NewRelease, None).handle(manifest(MANIFEST));
    assert!(matches!(task, Ok(Task::NewRelease)));
}

#[test]
fn no_plan_no_task() {
    let broken = MANIFEST.replace("[\"rust-sdk\", \"wallet\"]", "[\"rust-sdk\", \"std\"]");
    for event_type in
        [EventType::NewCommitToDependency, EventType::NewCommitToSelf, EventType::NewRelease]
    {
        match event(event_type, Some("337d0")).handle(manifest(&broken)) {
            Err(HandleError::Plan(BuildPlanError::MissingProjectDefinition(name, key))) => {
                assert_eq!(name, "sway");
                assert_eq!(key, "std");
            }
            other => panic!("unexpected {:?}", other),
        }
    }
}
