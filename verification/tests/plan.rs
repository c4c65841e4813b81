use releasy::error::BuildPlanError;
use releasy::manifest::{Manifest, RepoEntry};
use releasy::manifest_file::ManifestFile;
use releasy::plan::Plan;
use releasy::repo::Repo;

fn repo(name: &str) -> Repo {
    Repo::new(name.to_string(), "FuelLabs".to_string())
}

fn entry(name: &str, dependencies: &[&str]) -> RepoEntry {
    let keys = dependencies.iter().map(|key| key.to_string()).collect();
    RepoEntry::new(repo(name), Some(keys))
}

fn names(repos: Vec<&Repo>) -> Vec<&str> {
    repos.into_iter().map(|repo| repo.name()).collect()
}

fn plan_of(manifest_str: &str) -> Plan {
    let manifest = ManifestFile::try_from(manifest_str.to_string()).unwrap().manifest();
    Plan::try_from_manifest(manifest).unwrap()
}

#[test]
fn generate_build_plan_with_two_projects() {
    let manifest_str = r#"
[current-repo]
name = "sway"
owner = "FuelLabs"

[repo.sway.details]
name = "sway"
owner = "FuelLabs"

[repo.sway]
dependencies = ["rust-sdk"]

[repo.rust-sdk.details]
name = "fuels-rs"
owner = "FuelLabs"
"#;
    let manifest = ManifestFile::try_from(manifest_str.to_string()).unwrap().manifest();

    let plan = Plan::try_from_manifest(manifest).unwrap();
    let graph = plan.graph();

    assert_eq!(graph.node_count(), 2);
    assert_eq!(graph.edge_count(), 1);
}

#[test]
fn generate_plan_with_two_projects() {
    let manifest_str = r#"
[current-repo]
name = "sway"
owner = "FuelLas"

[repo.sway.details]
name = "sway"
owner = "FuelLabs"

[repo.sway]
dependencies = ["rust-sdk"]

[repo.rust-sdk.details]
name = "fuels-rs"
owner = "FuelLabs"
"#;
    let manifest = ManifestFile::try_from(manifest_str.to_string()).unwrap().manifest();

    let plan = Plan::try_from_manifest(manifest).unwrap();
    let graph = plan.graph();

    assert_eq!(graph.node_count(), 2);
    assert_eq!(graph.edge_count(), 1);
}

#[test]
fn test_neighbor_query_with_cycle() {
    let manifest_str = r#"
[current-repo]
name = "sway"
owner = "FuelLas"

[repo.sway.details]
name = "sway"
owner = "FuelLabs"

[repo.sway]
dependencies = ["rust-sdk"]

[repo.rust-sdk.details]
name = "fuels-rs"
owner = "FuelLabs"

[repo.rust-sdk]
dependencies = ["sway"]
"#;
    let manifest = ManifestFile::try_from(manifest_str.to_string()).unwrap().manifest();
    let plan = Plan::try_from_manifest(manifest).unwrap();

    let sway_name = "sway".to_string();
    let sway_owner = "FuelLabs".to_string();
    let sway_repo = Repo::new(sway_name, sway_owner);

    let fuels_rs_name = "fuels-rs".to_string();
    let fuels_rs_owner = "FuelLabs".to_string();
    let fuels_rs_repo = Repo::new(fuels_rs_name, fuels_rs_owner);

    let sway_neighbors: Vec<_> =
        plan.neighbors(sway_repo.clone()).unwrap().into_iter().cloned().collect();
    assert_eq!(sway_neighbors.len(), 1);
    let expected_sway_neighbors = [fuels_rs_repo.clone()];
    assert_eq!(sway_neighbors, expected_sway_neighbors);

    let fuels_rs_neighbors: Vec<_> =
        plan.neighbors(fuels_rs_repo).unwrap().into_iter().cloned().collect();
    assert_eq!(fuels_rs_neighbors.len(), 1);
    let expected_fuels_rs_neighbors = [sway_repo];
    assert_eq!(fuels_rs_neighbors, expected_fuels_rs_neighbors)
}

#[test]
fn test_neighbor_query_without_cycle() {
    let manifest_str = r#"
[current-repo]
name = "sway"
owner = "FuelLas"

[repo.sway.details]
name = "sway"
owner = "FuelLabs"

[repo.sway]
dependencies = ["rust-sdk", "wallet"]

[repo.rust-sdk.details]
name = "fuels-rs"
owner = "FuelLabs"

[repo.wallet.details]
name = "forc-wallet"
owner = "FuelLabs"

[repo.wallet]
dependencies = ["rust-sdk"]
"#;
    let manifest = ManifestFile::try_from(manifest_str.to_string()).unwrap().manifest();
    let plan = Plan::try_from_manifest(manifest).unwrap();

    let sway_name = "sway".to_string();
    let sway_owner = "FuelLabs".to_string();
    let sway_repo = Repo::new(sway_name, sway_owner);

    let fuels_rs_name = "fuels-rs".to_string();
    let fuels_rs_owner = "FuelLabs".to_string();
    let fuels_rs_repo = Repo::new(fuels_rs_name, fuels_rs_owner);

    let forc_wallet_name = "forc-wallet".to_string();
    let forc_wallet_owner = "FuelLabs".to_string();
    let forc_wallet_repo = Repo::new(forc_wallet_name, forc_wallet_owner);

    let sway_neighbors: Vec<_> =
        plan.neighbors(sway_repo.clone()).unwrap().into_iter().cloned().collect();
    assert_eq!(sway_neighbors.len(), 0);
    let expected_sway_neighbors = vec![];
    assert_eq!(sway_neighbors, expected_sway_neighbors);

    let fuels_rs_neighbors: Vec<_> =
        plan.neighbors(fuels_rs_repo.clone()).unwrap().into_iter().cloned().collect();
    assert_eq!(fuels_rs_neighbors.len(), 2);
    let expected_fuels_rs_neighbors = vec![forc_wallet_repo.clone(), sway_repo.clone()];
    assert_eq!(fuels_rs_neighbors, expected_fuels_rs_neighbors);

    let forc_wallet_neighbors: Vec<_> =
        plan.neighbors(forc_wallet_repo).unwrap().into_iter().cloned().collect();
    assert_eq!(forc_wallet_neighbors.len(), 1);
    let expected_forc_wallet_neighbors = vec![sway_repo];
    assert_eq!(forc_wallet_neighbors, expected_forc_wallet_neighbors)
}

const SWAY_WALLET_SDK_MANIFEST: &str = r#"
[current-repo]
name = "sway"
owner = "FuelLabs"

[repo.sway.details]
name = "sway"
owner = "FuelLabs"

[repo.sway]
dependencies = ["rust-sdk", "wallet"]

[repo.rust-sdk.details]
name = "fuels-rs"
owner = "FuelLabs"

[repo.wallet.details]
name = "forc-wallet"
owner = "FuelLabs"

[repo.wallet]
dependencies = ["rust-sdk"]
"#;

/// In this test we have:
///  - forc-wallet
///  - sway
///  - fuels-rs
/// repositories present. The dependency graph between them looks like:
///
/// forc-wallet -> fuels-rs
/// sway -> fuels-rs
/// sway -> forc-wallet
///
/// and the `current_repo` is `sway`.
#[test]
fn sway_wallet_sdk_example_test_event_order() {
    let manifest = ManifestFile::try_from(SWAY_WALLET_SDK_MANIFEST.to_string()).unwrap().manifest();
    let current_repo = manifest.current_repo().clone();
    assert_eq!(current_repo.name(), "sway");

    let plan = Plan::try_from_manifest(manifest).unwrap();

    let upstream_repos = plan
        .upstream_repos(current_repo)
        .unwrap()
        .into_iter()
        .map(|repo| repo.name())
        .collect::<Vec<_>>();
    let expected_target_repos = vec!["forc-wallet", "fuels-rs"];

    assert_eq!(upstream_repos, expected_target_repos)
}

/// The same repositories, seen from `fuels-rs`: a change in it is told to
/// those that depend on it.
#[test]
fn main_sway_wallet_sdk_example_test_event_order() {
    let manifest_str = SWAY_WALLET_SDK_MANIFEST.replace("name = \"sway\"\nowner = \"FuelLabs\"\n\n[repo.sway.details]", "name = \"fuels-rs\"\nowner = \"FuelLabs\"\n\n[repo.sway.details]");
    let manifest = ManifestFile::try_from(manifest_str).unwrap().manifest();
    let current_repo = manifest.current_repo().clone();
    assert_eq!(current_repo.name(), "fuels-rs");
    let plan = Plan::try_from_manifest(manifest).unwrap();

    let target_repos = plan
        .neighbors(current_repo)
        .unwrap()
        .into_iter()
        .map(|repo| repo.name())
        .collect::<Vec<_>>();
    let expected_target_repos = vec!["forc-wallet", "sway"];

    assert_eq!(target_repos, expected_target_repos)
}

#[test]
fn fan_in_neighbors_and_upstream() {
    let mut manifest = Manifest::new(repo("sway"));
    manifest.insert("sway".to_string(), entry("sway", &["rust-sdk", "wallet"]));
    manifest.insert("rust-sdk".to_string(), entry("fuels-rs", &[]));
    manifest.insert("wallet".to_string(), entry("forc-wallet", &["rust-sdk"]));
    let plan = Plan::try_from_manifest(manifest).unwrap();
    assert_eq!(plan.graph().node_count(), 3);
    assert_eq!(plan.graph().edge_count(), 3);
    assert_eq!(names(plan.neighbors(repo("fuels-rs")).unwrap()), vec!["forc-wallet", "sway"]);
    assert_eq!(names(plan.neighbors(repo("forc-wallet")).unwrap()), vec!["sway"]);
    assert!(plan.neighbors(repo("sway")).unwrap().is_empty());
    assert_eq!(names(plan.upstream_repos(repo("sway")).unwrap()), vec!["forc-wallet", "fuels-rs"]);
    assert_eq!(names(plan.upstream_repos(repo("forc-wallet")).unwrap()), vec!["fuels-rs"]);
    assert!(plan.upstream_repos(repo("fuels-rs")).unwrap().is_empty());
}

#[test]
fn two_nodes_one_edge() {
    let mut manifest = Manifest::new(repo("sway"));
    manifest.insert("sway".to_string(), entry("sway", &["rust-sdk"]));
    manifest.insert("rust-sdk".to_string(), RepoEntry::new(repo("fuels-rs"), None));
    let plan = Plan::try_from_manifest(manifest).unwrap();
    assert_eq!(plan.graph().node_count(), 2);
    assert_eq!(plan.graph().edge_count(), 1);
    assert_eq!(names(plan.neighbors(repo("fuels-rs")).unwrap()), vec!["sway"]);
}

#[test]
fn upstream_of_a_cycle_ends_and_leaves_the_start_out() {
    let mut manifest = Manifest::new(repo("sway"));
    manifest.insert("sway".to_string(), entry("sway", &["rust-sdk"]));
    manifest.insert("rust-sdk".to_string(), entry("fuels-rs", &["sway"]));
    let plan = Plan::try_from_manifest(manifest).unwrap();
    assert_eq!(names(plan.upstream_repos(repo("sway")).unwrap()), vec!["fuels-rs"]);
    assert_eq!(names(plan.upstream_repos(repo("fuels-rs")).unwrap()), vec!["sway"]);
}

#[test]
fn upstream_goes_through_other_repos_and_lists_each_once() {
    let mut manifest = Manifest::new(repo("a"));
    manifest.insert("a".to_string(), entry("a", &["b", "c", "a"]));
    manifest.insert("b".to_string(), entry("b", &["d"]));
    manifest.insert("c".to_string(), entry("c", &["d", "b"]));
    manifest.insert("d".to_string(), entry("d", &["e"]));
    manifest.insert("e".to_string(), entry("e", &[]));
    manifest.insert("f".to_string(), entry("f", &["a"]));
    let plan = Plan::try_from_manifest(manifest).unwrap();
    assert_eq!(plan.graph().node_count(), 6);
    assert_eq!(plan.graph().edge_count(), 8);
    let mut upstream = names(plan.upstream_repos(repo("a")).unwrap());
    upstream.sort();
    assert_eq!(upstream, vec!["b", "c", "d", "e"]);
    assert_eq!(names(plan.upstream_repos(repo("f")).unwrap()).len(), 5);
    assert_eq!(names(plan.neighbors(repo("a")).unwrap()), vec!["f", "a"]);
    assert_eq!(names(plan.neighbors(repo("d")).unwrap()), vec!["c", "b"]);
}

#[test]
fn missing_dependency_names_the_repo_and_the_key() {
    let mut manifest = Manifest::new(repo("sway"));
    manifest.insert("sway".to_string(), entry("sway", &["rust-sdk", "wallet", "std"]));
    manifest.insert("rust-sdk".to_string(), entry("fuels-rs", &["core"]));
    match Plan::try_from_manifest(manifest) {
        Err(BuildPlanError::MissingProjectDefinition(name, key)) => {
            assert_eq!(name, "fuels-rs");
            assert_eq!(key, "core");
        }
        _ => panic!("the plan should not have been made"),
    }
    let mut manifest = Manifest::new(repo("sway"));
    manifest.insert("sway".to_string(), entry("sway", &["sway", "wallet", "std"]));
    match Plan::try_from_manifest(manifest) {
        Err(BuildPlanError::MissingProjectDefinition(name, key)) => {
            assert_eq!(name, "sway");
            assert_eq!(key, "wallet");
        }
        _ => panic!("the plan should not have been made"),
    }
}

#[test]
fn unknown_repo_is_not_found() {
    let mut manifest = Manifest::new(repo("sway"));
    manifest.insert("sway".to_string(), entry("sway", &[]));
    let plan = Plan::try_from_manifest(manifest).unwrap();
    let stranger = Repo::new("sway".to_string(), "FuelLas".to_string());
    match plan.neighbors(stranger.clone()) {
        Err(BuildPlanError::RepoNotFoundInGraph(repo)) => assert_eq!(repo, stranger),
        _ => panic!("the repo should not have been found"),
    }
    match plan.upstream_repos(stranger.clone()) {
        Err(BuildPlanError::RepoNotFoundInGraph(repo)) => assert_eq!(repo, stranger),
        _ => panic!("the repo should not have been found"),
    }
    assert!(plan.neighbors(repo("sway")).unwrap().is_empty());
}

#[test]
fn repo_under_two_keys_resolves_to_the_later_key() {
    let mut manifest = Manifest::new(repo("sway"));
    manifest.insert("a".to_string(), entry("twin", &[]));
    manifest.insert("b".to_string(), entry("twin", &[]));
    manifest.insert("x".to_string(), entry("x", &["a"]));
    manifest.insert("y".to_string(), entry("y", &["b"]));
    let plan = Plan::try_from_manifest(manifest).unwrap();
    assert_eq!(plan.graph().node_count(), 4);
    assert_eq!(plan.graph().edge_count(), 2);
    assert_eq!(names(plan.neighbors(repo("twin")).unwrap()), vec!["y"]);
    assert_eq!(names(plan.upstream_repos(repo("x")).unwrap()), vec!["twin"]);
}

#[test]
fn empty_manifest_gives_an_empty_plan() {
    let manifest = Manifest::new(repo("sway"));
    let plan = Plan::try_from_manifest(manifest).unwrap();
    assert_eq!(plan.graph().node_count(), 0);
    assert_eq!(plan.graph().edge_count(), 0);
    assert!(plan.neighbors(repo("sway")).is_err());
}

#[test]
fn plan_of_text() {
    let plan = plan_of(SWAY_WALLET_SDK_MANIFEST);
    assert_eq!(plan.graph().node_count(), 3);
}
