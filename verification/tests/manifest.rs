use releasy::error::ManifestFileError;
use releasy::manifest::{Manifest, RepoEntry};
use releasy::manifest_file::ManifestFile;
use releasy::repo::Repo;

#[test]
fn parse_manifest_file_no_dependencies() {
    let manifest_str = r#"
[current-repo]
name = "sway"
owner = "FuelLabs"

[repo.sway.details]
name = "sway"
owner = "FuelLabs"
"#;

    let parsed = ManifestFile::try_from(manifest_str.to_string()).is_ok();
    assert!(parsed)
}

#[test]
fn parse_manifest_file_two_projects_with_dependencies() {
    let manifest_str = r#"
[current-repo]
name = "sway"
owner = "FuelLabs"

[repo.sway.details]
name = "sway"
owner = "FuelLabs"

[repo.sway]
dependencies = ["rust-sdk"]

[repo.rust-sdk.details]
name = "fuels-rs"
owner = "FuelLabs"
"#;

    let parsed = ManifestFile::try_from(manifest_str.to_string()).is_ok();
    assert!(parsed)
}

#[test]
fn parsed_manifest_holds_what_the_text_says() {
    let manifest_str = r#"
[current-repo]
name = "sway"
owner = "FuelLabs"

[repo.sway.details]
name = "sway"
owner = "FuelLabs"

[repo.sway]
dependencies = ["rust-sdk", "wallet"]

[repo.rust-sdk.details]
name = "fuels-rs"
owner = "FuelLabs"
"#;
    let file = ManifestFile::try_from(manifest_str.to_string()).unwrap();
    assert!(file.warnings().is_empty());
    let manifest = file.manifest();
    assert_eq!(manifest.current_repo(), &Repo::new("sway".to_string(), "FuelLabs".to_string()));
    assert_eq!(manifest.len(), 2);
    assert_eq!(manifest.key_at(0), "rust-sdk");
    assert_eq!(manifest.key_at(1), "sway");
    let sdk = manifest.entry_at(0);
    assert_eq!(sdk.details(), &Repo::new("fuels-rs".to_string(), "FuelLabs".to_string()));
    assert!(sdk.dependencies().is_empty());
    assert_eq!(
        sdk,
        &RepoEntry::new(Repo::new("fuels-rs".to_string(), "FuelLabs".to_string()), None)
    );
    let sway = manifest.entry_at(1);
    assert_eq!(sway.dependencies(), vec!["rust-sdk", "wallet"]);
    assert_eq!(manifest.position("sway"), Some(1));
    assert_eq!(manifest.position("wallet"), None);
    assert_eq!(manifest.get("rust-sdk"), Some(sdk));
    assert_eq!(manifest.get("fuels-rs"), None);
}

#[test]
fn unused_keys_are_reported_in_the_order_of_the_text() {
    let manifest_str = r#"
title = "plan"

[current-repo]
name = "sway"
owner = "FuelLabs"
branch = "master"

[repo.sway]
private = false

[repo.sway.details]
name = "sway"
owner = "FuelLabs"
url = "https://github.com/FuelLabs/sway"

[extra]
"#;
    let file = ManifestFile::try_from(manifest_str.to_string()).unwrap();
    let warnings: Vec<&str> = file.warnings().iter().map(|warning| warning.as_str()).collect();
    assert_eq!(
        warnings,
        vec![
            "  WARNING! unused manifest key: title",
            "  WARNING! unused manifest key: current-repo.branch",
            "  WARNING! unused manifest key: repo.sway.private",
            "  WARNING! unused manifest key: repo.sway.details.url",
            "  WARNING! unused manifest key: extra",
        ]
    );
}

#[test]
fn later_key_that_sorts_first_is_reported_later() {
    let manifest_str = r#"
zeta = 1
alpha = 2

[repo.wallet]
zeta = 1
alpha = 2

[repo.wallet.details]
owner = "FuelLabs"
zeta = 1
name = "forc-wallet"
alpha = 2

[repo.sway.details]
name = "sway"
owner = "FuelLabs"

[repo.sway]
dependencies = ["wallet"]
beta = true

[current-repo]
name = "sway"
owner = "FuelLabs"
"#;
    let file = ManifestFile::try_from(manifest_str.to_string()).unwrap();
    let warnings: Vec<&str> = file.warnings().iter().map(|warning| warning.as_str()).collect();
    assert_eq!(
        warnings,
        vec![
            "  WARNING! unused manifest key: zeta",
            "  WARNING! unused manifest key: alpha",
            "  WARNING! unused manifest key: repo.wallet.zeta",
            "  WARNING! unused manifest key: repo.wallet.alpha",
            "  WARNING! unused manifest key: repo.wallet.details.zeta",
            "  WARNING! unused manifest key: repo.wallet.details.alpha",
            "  WARNING! unused manifest key: repo.sway.beta",
        ]
    );
    let manifest = file.manifest();
    assert_eq!(manifest.key_at(0), "sway");
    assert_eq!(manifest.key_at(1), "wallet");
}

#[test]
fn text_that_is_no_toml_is_refused() {
    let result = ManifestFile::try_from("[current-repo".to_string());
    assert!(matches!(result, Err(ManifestFileError::FailedToParseManifest(_))));
}

fn malformed_at(manifest_str: &str) -> String {
    match ManifestFile::try_from(manifest_str.to_string()) {
        Err(ManifestFileError::MalformedManifest(path)) => path,
        other => panic!("expected a malformed manifest, got {:?}", other),
    }
}

#[test]
fn manifest_without_current_repo_is_refused() {
    let manifest_str = r#"
[repo.sway.details]
name = "sway"
owner = "FuelLabs"
"#;
    assert_eq!(malformed_at(manifest_str), "current-repo");
}

#[test]
fn current_repo_without_owner_is_refused() {
    let manifest_str = r#"
[current-repo]
name = "sway"

[repo.sway.details]
name = "sway"
owner = "FuelLabs"
"#;
    assert_eq!(malformed_at(manifest_str), "current-repo");
}

#[test]
fn manifest_without_repos_is_refused() {
    let manifest_str = r#"
[current-repo]
name = "sway"
owner = "FuelLabs"
"#;
    assert_eq!(malformed_at(manifest_str), "repo");
    let manifest_str = r#"
repo = "sway"

[current-repo]
name = "sway"
owner = "FuelLabs"
"#;
    assert_eq!(malformed_at(manifest_str), "repo");
}

#[test]
fn first_malformed_entry_is_named() {
    let manifest_str = r#"
[current-repo]
name = "sway"
owner = "FuelLabs"

[repo.wallet]
dependencies = ["rust-sdk"]

[repo.sway.details]
name = "sway"
owner = "FuelLabs"

[repo.sway]
dependencies = ["rust-sdk", 3]

[repo.rust-sdk.details]
name = "fuels-rs"
owner = "FuelLabs"
"#;
    assert_eq!(malformed_at(manifest_str), "repo.wallet");
    let manifest_str = r#"
[current-repo]
name = "sway"
owner = "FuelLabs"

[repo.sway.details]
name = "sway"
owner = "FuelLabs"

[repo.sway]
dependencies = "rust-sdk"
"#;
    assert_eq!(malformed_at(manifest_str), "repo.sway");
    let manifest_str = r#"
[current-repo]
name = "sway"
owner = "FuelLabs"

[repo]
sway = 1
"#;
    assert_eq!(malformed_at(manifest_str), "repo.sway");
}

#[test]
fn table_is_read_like_its_text() {
    let manifest_str = r#"
[current-repo]
name = "sway"
owner = "FuelLabs"

[repo.sway.details]
name = "sway"
owner = "FuelLabs"
"#;
    let table: toml::Table = toml::from_str(manifest_str).unwrap();
    let from_table = ManifestFile::from_table(&table).unwrap();
    let from_text = ManifestFile::try_from(manifest_str.to_string()).unwrap();
    assert_eq!(from_table, from_text);
}

#[test]
fn insert_keeps_the_keys_in_order_and_replaces() {
    let sway = Repo::new("sway".to_string(), "FuelLabs".to_string());
    let first = RepoEntry::new(sway.clone(), None);
    let second = RepoEntry::new(sway.clone(), Some(vec!["b".to_string()]));
    let mut manifest = Manifest::new(sway.clone());
    assert_eq!(manifest.len(), 0);
    assert_eq!(manifest.insert("b".to_string(), first.clone()), None);
    assert_eq!(manifest.insert("a".to_string(), first.clone()), None);
    assert_eq!(manifest.insert("c".to_string(), first.clone()), None);
    assert_eq!(manifest.insert("ab".to_string(), first.clone()), None);
    assert_eq!(manifest.insert("b".to_string(), second.clone()), Some(first.clone()));
    assert_eq!(manifest.len(), 4);
    assert_eq!(manifest.key_at(0), "a");
    assert_eq!(manifest.key_at(1), "ab");
    assert_eq!(manifest.key_at(2), "b");
    assert_eq!(manifest.key_at(3), "c");
    assert_eq!(manifest.entry_at(2), &second);
    assert_eq!(manifest.get("b"), Some(&second));
    assert_eq!(manifest.get("ab"), Some(&first));
}

#[test]
fn table_built_by_hand_is_read() {
    let mut details = toml::Table::new();
    details.insert("name".to_string(), toml::Value::String("sway".to_string()));
    details.insert("owner".to_string(), toml::Value::String("FuelLabs".to_string()));
    let mut entry = toml::Table::new();
    entry.insert("details".to_string(), toml::Value::Table(details.clone()));
    entry.insert(
        "dependencies".to_string(),
        toml::Value::Array(vec![toml::Value::String("sway".to_string())]),
    );
    let mut repos = toml::Table::new();
    repos.insert("sway".to_string(), toml::Value::Table(entry));
    let mut table = toml::Table::new();
    table.insert("repo".to_string(), toml::Value::Table(repos));
    table.insert("current-repo".to_string(), toml::Value::Integer(1));
    assert!(matches!(
        ManifestFile::from_table(&table),
        Err(ManifestFileError::MalformedManifest(path)) if path == "current-repo"
    ));
    table.insert("current-repo".to_string(), toml::Value::Table(details));
    let manifest = ManifestFile::from_table(&table).unwrap().manifest();
    assert_eq!(manifest.len(), 1);
    assert_eq!(manifest.entry_at(0).dependencies(), vec!["sway"]);
}

#[test]
fn arrays_stand_for_tables() {
    let manifest_str = r#"
current-repo = ["sway", "FuelLabs", "more"]

[repo]
sway = [{ name = "sway", owner = "FuelLabs", url = "x" }, ["rust-sdk"], 3]
rust-sdk = { details = ["fuels-rs", "FuelLabs"] }
"#;
    let file = ManifestFile::try_from(manifest_str.to_string()).unwrap();
    let warnings: Vec<&str> = file.warnings().iter().map(|warning| warning.as_str()).collect();
    assert_eq!(warnings, vec!["  WARNING! unused manifest key: repo.sway.0.url"]);
    let manifest = file.manifest();
    assert_eq!(manifest.current_repo(), &Repo::new("sway".to_string(), "FuelLabs".to_string()));
    assert_eq!(
        manifest.get("sway"),
        Some(&RepoEntry::new(
            Repo::new("sway".to_string(), "FuelLabs".to_string()),
            Some(vec!["rust-sdk".to_string()])
        ))
    );
    assert_eq!(
        manifest.get("rust-sdk"),
        Some(&RepoEntry::new(Repo::new("fuels-rs".to_string(), "FuelLabs".to_string()), None))
    );
    assert_eq!(malformed_at("current-repo = [\"sway\"]\n[repo]\n"), "current-repo");
    assert_eq!(malformed_at("current-repo = [\"sway\", 1]\n[repo]\n"), "current-repo");
    let short = "current-repo = [\"sway\", \"FuelLabs\"]\n[repo]\nsway = [[\"sway\", \"FuelLabs\"]]\n";
    assert_eq!(malformed_at(short), "repo.sway");
    let wrong = "current-repo = [\"sway\", \"FuelLabs\"]\n[repo]\nsway = [[\"sway\", \"FuelLabs\"], \"x\"]\n";
    assert_eq!(malformed_at(wrong), "repo.sway");
}
