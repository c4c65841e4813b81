//! What an event that was received asks for.

use crate::error::{BuildPlanError, BuildPlanErrorView};
use crate::event::{Event, EventType, EventView};
use crate::laws::plan_of;
use crate::manifest::{Manifest, ManifestView};
use crate::plan::{is_first_missing, resolves, Plan};
use crate::repo::{Repo, RepoId};
use vstd::prelude::*;

verus! {

/// The branch that tracks the main branch of the dependency `source`.
pub open spec fn dependency_branch(source: RepoId) -> Seq<char> {
    "upgrade/"@ + source.name + "-master"@
}

/// The branch that tracks the upstream repository `repo`.
pub open spec fn upstream_branch(repo: RepoId) -> Seq<char> {
    "upgrade/"@ + repo.name
}

/// The message of the empty commit that makes the CI run again after the
/// commit `commit_hash` was merged to `source`.
pub open spec fn rerun_message(commit_hash: Seq<char>, source: RepoId) -> Seq<char> {
    "re-run CI after "@ + commit_hash + " commit merged to "@ + source.owner + "/"@ + source.name
}

/// The branches that track the repositories of `repos`.
pub open spec fn upstream_branches(repos: Seq<RepoId>) -> Seq<Seq<char>> {
    Seq::new(repos.len(), |k: int| upstream_branch(repos[k]))
}

/// What a [`Task`] stands for in specifications.
pub enum TaskView {
    RerunTrackingBranch { commit_hash: Seq<char>, tracking_branch: Seq<char>, message: Seq<char> },
    RebaseTrackingBranches { commit_hash: Seq<char>, tracking_branches: Seq<Seq<char>> },
    NewRelease,
}

/// The work that an event asks for in the current repository.
#[derive(Debug)]
pub enum Task {
    /// A dependency has a new commit: bring the branch that tracks it up to
    /// date and give it an empty commit with the message, so that its CI
    /// runs again.
    RerunTrackingBranch { commit_hash: String, tracking_branch: String, message: String },
    /// The current repository has a new commit: bring each of the branches
    /// that track its upstream repositories up to date.
    RebaseTrackingBranches { commit_hash: String, tracking_branches: Vec<String> },
    /// A release: nothing is done for it yet.
    NewRelease,
}

impl View for Task {
    type V = TaskView;

    open spec fn view(&self) -> TaskView {
        match self {
            Task::RerunTrackingBranch { commit_hash, tracking_branch, message } => {
                TaskView::RerunTrackingBranch {
                    commit_hash: commit_hash@,
                    tracking_branch: tracking_branch@,
                    message: message@,
                }
            },
            Task::RebaseTrackingBranches { commit_hash, tracking_branches } => {
                TaskView::RebaseTrackingBranches {
                    commit_hash: commit_hash@,
                    tracking_branches: tracking_branches.deep_view(),
                }
            },
            Task::NewRelease => TaskView::NewRelease,
        }
    }
}

/// Why an event asks for no work.
#[derive(Debug)]
pub enum HandleError {
    /// The manifest has no plan, or the plan does not know the current repository.
    Plan(BuildPlanError),
    /// The event does not say which commit it is about.
    MissingCommitHash,
}

/// The branch that tracks the main branch of the dependency `source`.
pub fn dependency_branch_name(source: &Repo) -> (name: String)
    ensures
        name@ == dependency_branch(source@),
{
    let mut name = "upgrade/".to_owned();
    name.append(source.name());
    name.append("-master");
    name
}

/// The branch that tracks the upstream repository `repo`.
pub fn upstream_branch_name(repo: &Repo) -> (name: String)
    ensures
        name@ == upstream_branch(repo@),
{
    let mut name = "upgrade/".to_owned();
    name.append(repo.name());
    name
}

/// The message of the empty commit that makes the CI run again.
pub fn rerun_commit_message(commit_hash: &str, source: &Repo) -> (message: String)
    ensures
        message@ == rerun_message(commit_hash@, source@),
{
    let mut message = "re-run CI after ".to_owned();
    message.append(commit_hash);
    message.append(" commit merged to ");
    message.append(source.owner());
    message.append("/");
    message.append(source.name());
    message
}

/// Whether `result` is what `event` asks for where `m` is the manifest.
///
/// First the plan of the manifest is made, and where there is none, that is
/// the error. A new commit to a dependency asks for the branch that tracks the
/// sender. A new commit to the current repository asks for the branches that
/// track its upstream repositories, which the plan must know the current
/// repository for. Both must say which commit it is.
pub open spec fn asks_for(event: EventView, m: ManifestView, result: Result<Task, HandleError>) -> bool {
    let plan = plan_of(m);
    let commit = event.client_payload.details.commit_hash;
    if !resolves(m) {
        match result {
            Err(HandleError::Plan(e)) => exists|i: int, j: int| #[trigger]
                is_first_missing(m, i, j) && e@ == BuildPlanErrorView::MissingProjectDefinition(
                    m.entry(i).details.name,
                    m.entry(i).dependency_keys()[j],
                ),
            _ => false,
        }
    } else {
        match event.event_type {
            EventType::NewCommitToDependency => match (commit, result) {
                (Some(commit_hash), Ok(task)) => task@ == (TaskView::RerunTrackingBranch {
                    commit_hash,
                    tracking_branch: dependency_branch(event.client_payload.repo),
                    message: rerun_message(commit_hash, event.client_payload.repo),
                }),
                (None, Err(HandleError::MissingCommitHash)) => true,
                _ => false,
            },
            EventType::NewCommitToSelf => if !plan.has_repo(m.current_repo) {
                match result {
                    Err(HandleError::Plan(e)) => e@ == BuildPlanErrorView::RepoNotFoundInGraph(
                        m.current_repo,
                    ),
                    _ => false,
                }
            } else {
                match (commit, result) {
                    (Some(commit_hash), Ok(task)) => task@ == (TaskView::RebaseTrackingBranches {
                        commit_hash,
                        tracking_branches: upstream_branches(plan.upstream(m.current_repo)),
                    }),
                    (None, Err(HandleError::MissingCommitHash)) => true,
                    _ => false,
                }
            },
            EventType::NewRelease => match result {
                Ok(task) => task@ == TaskView::NewRelease,
                _ => false,
            },
        }
    }
}

/// What handles an event that was received.
pub trait EventHandler {
    /// The work that the event asks for in the current repository of `manifest`.
    fn handle(&self, manifest: Manifest) -> (result: Result<Task, HandleError>)
        requires
            manifest.wf(),
    ;
}

impl EventHandler for Event {
    fn handle(&self, manifest: Manifest) -> (result: Result<Task, HandleError>)
        ensures
            asks_for(self@, manifest@, result),
    {
        let current_repo = manifest.current_repo().clone();
        let ghost m = manifest@;
        let plan = match Plan::try_from_manifest(manifest) {
            Ok(plan) => plan,
            Err(e) => {
                return Err(HandleError::Plan(e));
            },
        };
        assert(plan@ == plan_of(m));
        match self.event_type() {
            EventType::NewCommitToDependency => {
                let source = self.client_payload().repo();
                match self.client_payload().details().commit_hash() {
                    Some(commit_hash) => Ok(
                        Task::RerunTrackingBranch {
                            commit_hash: commit_hash.clone(),
                            tracking_branch: dependency_branch_name(source),
                            message: rerun_commit_message(commit_hash.as_str(), source),
                        },
                    ),
                    None => Err(HandleError::MissingCommitHash),
                }
            },
            EventType::NewCommitToSelf => {
                let upstream = match plan.upstream_repos(current_repo) {
                    Ok(upstream) => upstream,
                    Err(e) => {
                        return Err(HandleError::Plan(e));
                    },
                };
                match self.client_payload().details().commit_hash() {
                    Some(commit_hash) => {
                        let mut tracking_branches: Vec<String> = Vec::new();
                        let mut k: usize = 0;
                        while k < upstream.len()
                            invariant
                                k <= upstream.len(),
                                tracking_branches@.len() == k,
                                forall|l: int|
                                    0 <= l < k ==> (#[trigger] tracking_branches@[l])@
                                        == upstream_branch(upstream@[l]@),
                            decreases upstream.len() - k,
                        {
                            tracking_branches.push(upstream_branch_name(upstream[k]));
                            k += 1;
                        }
                        assert(tracking_branches.deep_view() =~= upstream_branches(
                            upstream.deep_view(),
                        ));
                        let task = Task::RebaseTrackingBranches {
                            commit_hash: commit_hash.clone(),
                            tracking_branches,
                        };
                        Ok(task)
                    },
                    None => Err(HandleError::MissingCommitHash),
                }
            },
            EventType::NewRelease => Ok(Task::NewRelease),
        }
    }
}

} // verus!
