use releasy::cmd::{Args, ArgsError, EmitArgs};
use releasy::error::ReleasyCoreError;
use releasy::event::{ClientPayload, Event, EventDetails, EventType};
use releasy::manifest_file::ManifestFile;
use releasy::repo::Repo;
use std::path::PathBuf;

const SWAY_WALLET_SDK_TEST_MANIFEST_FILE_NAME: &str = "repo-plan-sway-wallet-sdk.toml";

#[test]
fn parse_event_from_param_input() {
    let test_manifest_file = PathBuf::from("tests").join(SWAY_WALLET_SDK_TEST_MANIFEST_FILE_NAME);

    let repo_name = "fuels-rs".to_string();
    let repo_owner = "FuelLabs".to_string();
    let event_type = "new-commit-to-dependency".to_string();

    let expected_commit_hash = "337d0eaa130dd18e9e347f83ab4fab76b3a6bd2a".to_string();
    let args = Args {
        event: Some(event_type),
        event_commit_hash: Some(expected_commit_hash.clone()),
        event_release_tag: None,
        event_repo_name: Some(repo_name.clone()),
        event_repo_owner: Some(repo_owner.clone()),
        path: Some(test_manifest_file),
    };

    let parsed_event = Event::try_from(args).unwrap();
    let sway_repo = Repo::new(repo_name, repo_owner);
    let details = EventDetails::new(Some(expected_commit_hash), None);
    let client_payload = ClientPayload::new(sway_repo, details);
    let expected_event = Event::new(EventType::NewCommitToDependency, client_payload);

    assert_eq!(parsed_event, expected_event)
}

const SWAY_WALLET_SDK_TEST_MANIFEST: &str = r#"
[current-repo]
name = "fuels-rs"
owner = "FuelLabs"

[repo.sway.details]
name = "sway"
owner = "FuelLabs"

[repo.sway]
dependencies = ["rust-sdk", "wallet"]

[repo.rust-sdk.details]
name = "fuels-rs"
owner = "FuelLabs"

[repo.wallet.details]
name = "forc-wallet"
owner = "FuelLabs"

[repo.wallet]
dependencies = ["rust-sdk"]
"#;

#[test]
fn main_parse_event_from_param_input() {
    let test_manifest_file = PathBuf::from("tests").join(SWAY_WALLET_SDK_TEST_MANIFEST_FILE_NAME);
    let manifest =
        ManifestFile::try_from(SWAY_WALLET_SDK_TEST_MANIFEST.to_string()).unwrap().manifest();
    let repo_name = "fuels-rs".to_string();
    let repo_owner = "FuelLabs".to_string();
    let event_type = "new-commit-to-dependency".to_string();

    let expected_commit_hash = "337d0eaa130dd18e9e347f83ab4fab76b3a6bd2a".to_string();
    let args = EmitArgs {
        event: Some(event_type),
        path: Some(test_manifest_file),
        event_commit_hash: Some(expected_commit_hash.clone()),
        event_release_tag: None,
    };

    let parsed_event = Event::try_from_emit(args, manifest.current_repo()).unwrap();
    let sway_repo = Repo::new(repo_name, repo_owner);
    let details = EventDetails::new(Some(expected_commit_hash), None);
    let client_payload = ClientPayload::new(sway_repo, details);
    let expected_event = Event::new(EventType::NewCommitToDependency, client_payload);

    assert_eq!(parsed_event, expected_event)
}

#[test]
fn emitted_event_needs_a_type_that_there_is() {
    let current_repo = Repo::new("fuels-rs".to_string(), "FuelLabs".to_string());
    let args = EmitArgs { event: None, path: None, event_commit_hash: None, event_release_tag: None };
    assert!(matches!(Event::try_from_emit(args, &current_repo), Err(ArgsError::MissingEvent)));
    let args = EmitArgs {
        event: Some("new-commit".to_string()),
        path: None,
        event_commit_hash: None,
        event_release_tag: None,
    };
    match Event::try_from_emit(args, &current_repo) {
        Err(ArgsError::UnknownEvent(given)) => assert_eq!(given, "new-commit"),
        _ => panic!("there is no such event"),
    }
    let args = EmitArgs {
        event: Some("new-commit-to-self".to_string()),
        path: None,
        event_commit_hash: None,
        event_release_tag: Some("v1".to_string()),
    };
    let event = Event::try_from_emit(args, &current_repo).unwrap();
    assert_eq!(event.event_type(), &EventType::NewCommitToSelf);
    assert_eq!(event.client_payload().repo(), &current_repo);
    assert_eq!(event.client_payload().details().release_tag(), Some(&"v1".to_string()));
    assert_eq!(event.client_payload().details().commit_hash(), None);
}

fn args(event: Option<&str>, name: Option<&str>, owner: Option<&str>) -> Args {
    Args {
        event: event.map(|text| text.to_string()),
        event_repo_name: name.map(|text| text.to_string()),
        event_repo_owner: owner.map(|text| text.to_string()),
        event_commit_hash: None,
        event_release_tag: Some("v0.1.0".to_string()),
        path: None,
    }
}

#[test]
fn missing_arguments_are_told_in_order() {
    let error = Event::try_from(args(None, None, None)).unwrap_err();
    assert!(matches!(error, ArgsError::MissingEvent));
    assert_eq!(error.to_string(), "event should not be emtpy");
    let error = Event::try_from(args(Some("nothing"), None, None)).unwrap_err();
    assert!(matches!(error, ArgsError::MissingRepoName));
    assert_eq!(error.to_string(), "repo name should not be emtpy");
    let error = Event::try_from(args(Some("nothing"), Some("sway"), None)).unwrap_err();
    assert!(matches!(error, ArgsError::MissingRepoOwner));
    assert_eq!(error.to_string(), "repo owner should not be emtpy");
    let error = Event::try_from(args(Some("nothing"), Some("sway"), Some("FuelLabs"))).unwrap_err();
    assert!(matches!(error, ArgsError::UnknownEvent(_)));
    assert_eq!(
        error.to_string(),
        "failed to convert str (`nothing`) to `EventType`, possible values are: [`new-commit`, `new-release`]"
    );
    let event = Event::try_from(args(Some("new-release"), Some("sway"), Some("FuelLabs"))).unwrap();
    assert_eq!(event.event_type(), &EventType::NewRelease);
    assert_eq!(event.client_payload().repo().owner(), "FuelLabs");
    assert_eq!(event.client_payload().details().commit_hash(), None);
    assert_eq!(event.client_payload().details().release_tag(), Some(&"v0.1.0".to_string()));
}

#[test]
fn event_types_are_read_as_they_are_written() {
    let all =
        [EventType::NewCommitToDependency, EventType::NewCommitToSelf, EventType::NewRelease];
    for event_type in all {
        let text = event_type.to_string();
        assert_eq!(EventType::from_str(&text).unwrap(), event_type);
    }
    assert_eq!(EventType::NewCommitToDependency.to_string(), "new-commit-to-dependency");
    assert_eq!(EventType::NewCommitToSelf.to_string(), "new-commit-to-self");
    assert_eq!(EventType::NewRelease.to_string(), "new-release");
    match EventType::from_str("new-commit") {
        Err(ReleasyCoreError::FailedToConvertStrToEventType(text)) => {
            assert_eq!(text, "new-commit")
        }
        _ => panic!("there is no such event"),
    }
    assert!(EventType::from_str("").is_err());
    assert!(EventType::from_str("new-release ").is_err());
}
