//! The git commands that a task is carried out with.
//!
//! Nothing is run here. A command is the list of its arguments and the place
//! to run it in; a step is a command and what to run in its stead where it
//! fails. Who runs them goes through the steps one by one and asks
//! [`what_follows`] after each command.

use crate::text::{lines, lines_of, parts, split_at, starts_with, trim, trimmed};
use vstd::prelude::*;

verus! {

/// Where a command runs.
#[derive(Clone, Copy, Debug, PartialEq, Eq)]
pub enum Place {
    /// In the directory that the program was started in.
    Here,
    /// In the temporary directory that the repository is cloned into.
    TmpDir,
    /// In the clone of the repository.
    Checkout,
}

/// What a [`Command`] stands for in specifications.
pub struct CommandView {
    pub args: Seq<Seq<char>>,
    pub place: Place,
}

/// A call of `git`: its arguments, and where it runs.
#[derive(Clone, Debug, PartialEq, Eq)]
pub struct Command {
    pub args: Vec<String>,
    pub place: Place,
}

impl View for Command {
    type V = CommandView;

    open spec fn view(&self) -> CommandView {
        CommandView { args: self.args.deep_view(), place: self.place }
    }
}

impl DeepView for Command {
    type V = CommandView;

    open spec fn deep_view(&self) -> CommandView {
        self@
    }
}

/// What to do when a command of a step has run.
#[derive(Clone, Copy, Debug, PartialEq, Eq)]
pub enum Next {
    /// The step is done: go on with the step behind it.
    Step,
    /// Run the command at this place among those that stand for the step's own.
    Otherwise(usize),
    /// The step has failed for good: the work ends.
    GiveUp,
}

/// What a [`Step`] stands for in specifications.
pub struct StepView {
    pub command: CommandView,
    pub otherwise: Seq<CommandView>,
}

/// A command, and the commands to run in its stead where it fails. Where
/// there are none, its failure ends the work.
#[derive(Clone, Debug, PartialEq, Eq)]
pub struct Step {
    pub command: Command,
    pub otherwise: Vec<Command>,
}

impl View for Step {
    type V = StepView;

    open spec fn view(&self) -> StepView {
        StepView { command: self.command@, otherwise: self.otherwise.deep_view() }
    }
}

impl DeepView for Step {
    type V = StepView;

    open spec fn deep_view(&self) -> StepView {
        self@
    }
}

/// The command with the arguments `args`, run at `place`.
pub open spec fn command(args: Seq<Seq<char>>, place: Place) -> CommandView {
    CommandView { args, place }
}

/// The step that runs `command` and ends the work where it fails.
pub open spec fn must(command: CommandView) -> StepView {
    StepView { command, otherwise: Seq::empty() }
}

/// The commands that set the author of the commits to come, for the clone
/// of the repository only: nothing outside the clone is changed.
pub open spec fn git_user_commands(name: Seq<char>, email: Seq<char>) -> Seq<CommandView> {
    seq![
        command(seq!["config"@, "user.email"@, email], Place::Checkout),
        command(seq!["config"@, "user.name"@, name], Place::Checkout),
    ]
}

/// What follows when a command of `step` has run: the command itself where
/// `at` is `None`, else the one of those that stand for it at place `at`.
pub open spec fn follows(step: StepView, at: Option<usize>, succeeded: bool) -> Next {
    match at {
        None => if succeeded {
            Next::Step
        } else if step.otherwise.len() > 0 {
            Next::Otherwise(0)
        } else {
            Next::GiveUp
        },
        Some(i) => if !succeeded {
            Next::GiveUp
        } else if i + 1 < step.otherwise.len() {
            Next::Otherwise((i + 1) as usize)
        } else {
            Next::Step
        },
    }
}

/// The command that rebases the current branch onto `onto`.
pub open spec fn rebase_command(onto: Seq<char>) -> CommandView {
    command(seq!["rebase"@, "--onto"@, onto], Place::Checkout)
}

/// The commands that clone the repository at `repo_url` and let its origin
/// be that address.
pub open spec fn clone_commands(repo_url: Seq<char>) -> Seq<CommandView> {
    seq![
        command(seq!["clone"@, repo_url], Place::TmpDir),
        command(seq!["remote"@, "set-url"@, "origin"@, repo_url], Place::Checkout),
    ]
}

/// The command that asks the origin what it holds. It prints, among other
/// things, the name of the default branch.
pub open spec fn show_command() -> CommandView {
    command(seq!["remote"@, "show"@, "origin"@], Place::Checkout)
}

/// The command that pulls `branch` from the origin.
pub open spec fn pull_command(branch: Seq<char>) -> CommandView {
    command(seq!["pull"@, "origin"@, branch], Place::Checkout)
}

/// The steps that bring the tracking branch up to date: check it out from the
/// origin or, where the origin has none, make it from the default branch;
/// pull it; rebase it onto the default branch.
pub open spec fn tracking_steps(tracking_branch: Seq<char>, default_branch: Seq<char>) -> Seq<
    StepView,
> {
    seq![
        StepView {
            command: command(
                seq!["checkout"@, "-b"@, tracking_branch, "origin/"@ + tracking_branch],
                Place::Checkout,
            ),
            otherwise: seq![
                command(seq!["checkout"@, default_branch], Place::Checkout),
                command(seq!["checkout"@, "-b"@, tracking_branch], Place::Checkout),
            ],
        },
        must(pull_command(tracking_branch)),
        must(rebase_command(default_branch)),
    ]
}

/// The steps for a new commit to a dependency: bring the tracking branch up
/// to date, give it an empty commit with the message in quotes, and push it.
pub open spec fn dependency_steps(
    tracking_branch: Seq<char>,
    default_branch: Seq<char>,
    message: Seq<char>,
) -> Seq<StepView> {
    tracking_steps(tracking_branch, default_branch) + seq![
        must(
            command(
                seq!["commit"@, "--allow-empty"@, "-m"@, "\""@ + message + "\""@],
                Place::Checkout,
            ),
        ),
        must(command(seq!["push"@, "origin"@, "-f"@, tracking_branch], Place::Checkout)),
    ]
}

/// The steps for a new commit to the repository itself: bring the first `n`
/// of the tracking branches up to date, one after the other.
pub open spec fn self_steps(
    tracking_branches: Seq<Seq<char>>,
    default_branch: Seq<char>,
    n: int,
) -> Seq<StepView>
    decreases n,
{
    if n <= 0 {
        Seq::empty()
    } else {
        self_steps(tracking_branches, default_branch, n - 1) + tracking_steps(
            tracking_branches[n - 1],
            default_branch,
        )
    }
}

fn args2(a: &str, b: &str) -> (args: Vec<String>)
    ensures
        args.deep_view() == seq![a@, b@],
{
    let args = vec![a.to_owned(), b.to_owned()];
    assert(args.deep_view() =~= seq![a@, b@]);
    args
}

fn args3(a: &str, b: &str, c: &str) -> (args: Vec<String>)
    ensures
        args.deep_view() == seq![a@, b@, c@],
{
    let args = vec![a.to_owned(), b.to_owned(), c.to_owned()];
    assert(args.deep_view() =~= seq![a@, b@, c@]);
    args
}

fn args4(a: &str, b: &str, c: &str, d: &str) -> (args: Vec<String>)
    ensures
        args.deep_view() == seq![a@, b@, c@, d@],
{
    let args = vec![a.to_owned(), b.to_owned(), c.to_owned(), d.to_owned()];
    assert(args.deep_view() =~= seq![a@, b@, c@, d@]);
    args
}

fn must_run(command: Command) -> (step: Step)
    ensures
        step@ == must(command@),
{
    let step = Step { command, otherwise: Vec::new() };
    assert(step.otherwise.deep_view() =~= Seq::<CommandView>::empty());
    step
}

/// Sets the git config of the clone to use the given name and email for the
/// commit author.
pub fn set_git_user(name: &str, email: &str) -> (commands: Vec<Command>)
    ensures
        commands.deep_view() == git_user_commands(name@, email@),
{
    let commands = vec![
        Command { args: args3("config", "user.email", email), place: Place::Checkout },
        Command { args: args3("config", "user.name", name), place: Place::Checkout },
    ];
    assert(commands.deep_view() =~= git_user_commands(name@, email@));
    commands
}

/// What follows when a command of `step` has run. Where the step's own
/// command succeeds, the step is done. Where it fails, those that stand for
/// it run one after the other, and the step is done when the last of them
/// has succeeded; where there are none, or one of them fails, the work ends.
pub fn what_follows(step: &Step, at: Option<usize>, succeeded: bool) -> (next: Next)
    ensures
        next == follows(step@, at, succeeded),
{
    match at {
        None => {
            if succeeded {
                Next::Step
            } else if step.otherwise.len() > 0 {
                Next::Otherwise(0)
            } else {
                Next::GiveUp
            }
        },
        Some(i) => {
            if !succeeded {
                Next::GiveUp
            } else if i < step.otherwise.len() && i + 1 < step.otherwise.len() {
                Next::Otherwise(i + 1)
            } else {
                Next::Step
            }
        },
    }
}

/// Rebase the current repository onto given branch.
pub fn rebase_repo(onto: &str) -> (rebase: Command)
    ensures
        rebase@ == rebase_command(onto@),
{
    Command { args: args3("rebase", "--onto", onto), place: Place::Checkout }
}

/// Pull `branch` from the origin.
pub fn pull(branch: &str) -> (pull: Command)
    ensures
        pull@ == pull_command(branch@),
{
    Command { args: args3("pull", "origin", branch), place: Place::Checkout }
}

/// Clones the given repo into the temporary directory. Exact steps can be
/// listed as:
///
///  - git clone
///  - git remote set-url
pub fn with_repo(repo_url: &str) -> (commands: Vec<Command>)
    ensures
        commands.deep_view() == clone_commands(repo_url@),
{
    let commands = vec![
        Command { args: args2("clone", repo_url), place: Place::TmpDir },
        Command { args: args4("remote", "set-url", "origin", repo_url), place: Place::Checkout },
    ];
    assert(commands.deep_view() =~= clone_commands(repo_url@));
    commands
}

/// Ask the origin what it holds: see [`default_branch_name`].
pub fn remote_show() -> (show: Command)
    ensures
        show@ == show_command(),
{
    Command { args: args3("remote", "show", "origin"), place: Place::Checkout }
}

/// Checks if specified tracking branch is present in remote of the repo. If it is missing creates
/// a new branch from default branch.
///
/// After making sure that tracking branch is present, rebases is onto remote version of default
/// branch.
pub fn rebase_or_create_tracking_branch(tracking_branch_name: &str, default_branch: &str) -> (steps:
    Vec<Step>)
    ensures
        steps.deep_view() == tracking_steps(tracking_branch_name@, default_branch@),
{
    let mut remote_branch = "origin/".to_owned();
    remote_branch.append(tracking_branch_name);
    let otherwise = vec![
        Command { args: args2("checkout", default_branch), place: Place::Checkout },
        Command { args: args3("checkout", "-b", tracking_branch_name), place: Place::Checkout },
    ];
    assert(otherwise.deep_view() =~= seq![
        command(seq!["checkout"@, default_branch@], Place::Checkout),
        command(seq!["checkout"@, "-b"@, tracking_branch_name@], Place::Checkout),
    ]);
    let steps = vec![
        Step {
            command: Command {
                args: args4("checkout", "-b", tracking_branch_name, remote_branch.as_str()),
                place: Place::Checkout,
            },
            otherwise,
        },
        must_run(pull(tracking_branch_name)),
        must_run(rebase_repo(default_branch)),
    ];
    assert(steps.deep_view() =~= tracking_steps(tracking_branch_name@, default_branch@));
    steps
}

/// Handles the case when there is a new commit to an upstream repository.
///
/// For our needs, we want to make sure that our tracking branch (which contains patches in
/// `Cargo.toml`s that causes `master` version of upstream repos to be used, instead of the latest
/// released version) runs the CI again. To run the CI again new_commit handler, pushes a new commit
/// to the tracking branch.
pub fn handle_new_commit_to_dependency(
    tracking_branch_name: &str,
    default_branch: &str,
    commit_message: &str,
) -> (steps: Vec<Step>)
    ensures
        steps.deep_view() == dependency_steps(
            tracking_branch_name@,
            default_branch@,
            commit_message@,
        ),
{
    let mut steps = rebase_or_create_tracking_branch(tracking_branch_name, default_branch);
    let ghost first = steps.deep_view();
    let mut quoted = "\"".to_owned();
    quoted.append(commit_message);
    quoted.append("\"");
    steps.push(
        must_run(
            Command {
                args: args4("commit", "--allow-empty", "-m", quoted.as_str()),
                place: Place::Checkout,
            },
        ),
    );
    steps.push(
        must_run(
            Command {
                args: args4("push", "origin", "-f", tracking_branch_name),
                place: Place::Checkout,
            },
        ),
    );
    assert(steps.deep_view() =~= dependency_steps(
        tracking_branch_name@,
        default_branch@,
        commit_message@,
    ));
    steps
}

/// Handles the case when there is a new commit to the current repo.
///
/// All of the tracking branches should be rebased so that newest commit to master is taken into
/// account.
pub fn handle_new_commit_to_self(tracking_branches: &Vec<String>, default_branch: &str) -> (steps:
    Vec<Step>)
    ensures
        steps.deep_view() == self_steps(
            tracking_branches.deep_view(),
            default_branch@,
            tracking_branches@.len() as int,
        ),
{
    let mut steps: Vec<Step> = Vec::new();
    let mut k: usize = 0;
    assert(steps.deep_view() =~= self_steps(tracking_branches.deep_view(), default_branch@, 0));
    while k < tracking_branches.len()
        invariant
            k <= tracking_branches.len(),
            steps.deep_view() == self_steps(
                tracking_branches.deep_view(),
                default_branch@,
                k as int,
            ),
        decreases tracking_branches.len() - k,
    {
        let ghost before = steps.deep_view();
        let mut more = rebase_or_create_tracking_branch(
            tracking_branches[k].as_str(),
            default_branch,
        );
        let ghost added = more.deep_view();
        steps.append(&mut more);
        assert(steps.deep_view() =~= before + added);
        k += 1;
    }
    steps
}

/// The branch that a line names as the head of the remote: the third of the
/// parts between the spaces of a line that begins with `HEAD`.
pub open spec fn head_branch(line: Seq<char>) -> Option<Seq<char>> {
    if "HEAD"@.is_prefix_of(line) && parts(line, ' ').len() > 2 {
        Some(parts(line, ' ')[2])
    } else {
        None
    }
}

/// The branch that the first of the first `n` lines that names one names,
/// whitespace at the ends of a line apart.
pub open spec fn default_branch_in(lines: Seq<Seq<char>>, n: int) -> Option<Seq<char>>
    decreases n,
{
    if n <= 0 {
        None
    } else {
        match default_branch_in(lines, n - 1) {
            Some(branch) => Some(branch),
            None => head_branch(trimmed(lines[n - 1])),
        }
    }
}

/// The branch that `line` names as the head of the remote, if it names one.
pub fn branch_after_head(line: &str) -> (branch: Option<String>)
    ensures
        branch.deep_view() == head_branch(line@),
{
    if starts_with(line, "HEAD") {
        // We want the word after `HEAD branch:`, which is 2nd index.
        let words = split_at(line, ' ');
        if words.len() > 2 {
            assert(words[2]@ == words.deep_view()[2]);
            Some(words[2].clone())
        } else {
            None
        }
    } else {
        None
    }
}

/// The branch that the first of `lines` that names one names.
pub fn default_branch_among(lines: &Vec<String>) -> (branch: Option<String>)
    ensures
        branch.deep_view() == default_branch_in(lines.deep_view(), lines@.len() as int),
{
    let mut k: usize = 0;
    while k < lines.len()
        invariant
            k <= lines.len(),
            default_branch_in(lines.deep_view(), k as int) is None,
        decreases lines.len() - k,
    {
        assert(lines[k as int]@ == lines.deep_view()[k as int]);
        match branch_after_head(trim(lines[k].as_str())) {
            Some(branch) => {
                proof {
                    lemma_first_branch_stays(lines.deep_view(), k as int + 1, lines@.len() as int);
                }
                return Some(branch);
            },
            None => {},
        }
        k += 1;
    }
    None
}

/// Once a line has named a branch, later lines do not change the answer.
proof fn lemma_first_branch_stays(lines: Seq<Seq<char>>, k: int, n: int)
    requires
        0 <= k <= n,
        default_branch_in(lines, k) is Some,
    ensures
        default_branch_in(lines, n) == default_branch_in(lines, k),
    decreases n,
{
    if k < n {
        lemma_first_branch_stays(lines, k, n - 1);
    }
}

/// Get the default branch name from what `git remote show origin` printed.
pub fn default_branch_name(stdout: &str) -> (branch: Option<String>)
    ensures
        branch.deep_view() == default_branch_in(lines_of(stdout@), lines_of(stdout@).len() as int),
{
    let lines = lines(stdout);
    default_branch_among(&lines)
}

} // verus!
