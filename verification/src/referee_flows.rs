//! Installing and updating the managed referee, as state machines: each
//! step takes what the last Git command or build gave and says what to run
//! next. The application runs the commands and feeds the outcomes back.
use vstd::prelude::*;
use crate::config::ManagedCodingameRefereeConfig;
use crate::managed_referee::{clone_arguments, clone_arguments_of, update_target, selection_matches, ManagedMetadata, UpdateRefusal};
use crate::referee_checkout::CLI_PATH;
use crate::text::{chars_of, contains_text, contains_text_vec, lines_of, line_texts, string_from_chars, string_views, text_lines, trim_chars, trim_vec};

verus! {

/// The subject of the commit that holds the arena's adaptation.
pub const ADAPTATION_SUBJECT: &'static str = "CG Arena referee adapter v1";

/// The message of the stash that keeps the user's changes during an update.
pub const UPDATE_STASH: &'static str = "cgarena-managed-update";

/// What the application does next.
pub enum FlowAction {
    /// Run `git` with these arguments in the checkout and report the result.
    RunGit(Vec<String>),
    /// Learn whether a rebase is under way and whether the working tree has
    /// changes.
    InspectCheckout,
    /// Write the arena's adaptation into the checkout.
    Adapt,
    /// Build the referee and check the JAR.
    Build,
    /// The referee is ready, with this record.
    Done(ManagedMetadata),
    /// The action stops.
    Fail(FlowFailure),
}

/// What the application reports of the last action.
pub enum FlowEvent {
    /// The checkout: whether a rebase is under way, whether it has changes.
    Inspected { rebase_in_progress: bool, dirty: bool },
    /// The Git command succeeded with this standard output.
    GitDone(String),
    /// The Git command failed with this message.
    GitFailed(String),
    /// The adaptation was written.
    Adapted,
    /// The build and its check succeeded.
    Built,
    /// Adapting, building or checking failed with this message.
    Failed(String),
}

/// Why installing or updating stops.
#[derive(Debug, Clone, PartialEq, Eq)]
pub enum FlowFailure {
    NotInstalled,
    NotChecked,
    AlreadyUpToDate,
    SelectionDiffers,
    UserChanges,
    NoDefaultBranch,
    CannotContinueRebase,
    CannotReplay,
    NoAdaptationCommit,
    CannotRestoreChanges,
    /// A Git command failed with this message.
    Git(String),
    /// Adapting, building or checking failed with this message.
    Step(String),
    /// The report does not fit the step.
    Unexpected,
}

impl FlowFailure {
    /// The message shown for the failure.
    pub open spec fn message(&self) -> Seq<char> {
        match self {
            FlowFailure::NotInstalled => "no managed referee is installed"@,
            FlowFailure::NotChecked => "check for updates successfully before updating"@,
            FlowFailure::AlreadyUpToDate => "the managed referee is already up to date"@,
            FlowFailure::SelectionDiffers => "the selected repository differs from the installed referee; use Replace referee"@,
            FlowFailure::UserChanges => "cannot replace the managed referee while its checkout has committed, staged, unstaged, or untracked changes; preserve or remove those changes with Git first"@,
            FlowFailure::NoDefaultBranch => "the selected remote did not provide a default branch"@,
            FlowFailure::CannotContinueRebase => "cannot continue replaying user commits; resolve or abort the standard Git conflict, then retry"@,
            FlowFailure::CannotReplay => "cannot replay managed and user commits; resolve or abort the standard Git conflict, then retry"@,
            FlowFailure::NoAdaptationCommit => "the updated branch lost the identifiable CG Arena adaptation commit"@,
            FlowFailure::CannotRestoreChanges => "updated the managed branch but could not restore working-tree changes; resolve the standard Git conflict, then retry"@,
            FlowFailure::Git(m) => m@,
            FlowFailure::Step(m) => m@,
            FlowFailure::Unexpected => "unexpected report for the current step"@,
        }
    }

    /// The message shown for the failure.
    pub fn to_string(&self) -> (r: String)
        ensures
            r@ == self.message(),
    {
        match self {
            FlowFailure::NotInstalled => "no managed referee is installed".to_string(),
            FlowFailure::NotChecked => "check for updates successfully before updating".to_string(),
            FlowFailure::AlreadyUpToDate => "the managed referee is already up to date".to_string(),
            FlowFailure::SelectionDiffers => "the selected repository differs from the installed referee; use Replace referee".to_string(),
            FlowFailure::UserChanges => "cannot replace the managed referee while its checkout has committed, staged, unstaged, or untracked changes; preserve or remove those changes with Git first".to_string(),
            FlowFailure::NoDefaultBranch => "the selected remote did not provide a default branch".to_string(),
            FlowFailure::CannotContinueRebase => "cannot continue replaying user commits; resolve or abort the standard Git conflict, then retry".to_string(),
            FlowFailure::CannotReplay => "cannot replay managed and user commits; resolve or abort the standard Git conflict, then retry".to_string(),
            FlowFailure::NoAdaptationCommit => "the updated branch lost the identifiable CG Arena adaptation commit".to_string(),
            FlowFailure::CannotRestoreChanges => "updated the managed branch but could not restore working-tree changes; resolve the standard Git conflict, then retry".to_string(),
            FlowFailure::Git(m) => m.clone(),
            FlowFailure::Step(m) => m.clone(),
            FlowFailure::Unexpected => "unexpected report for the current step".to_string(),
        }
    }
}

/// The action's Git arguments, as texts, or none when it runs no Git.
pub open spec fn git_args(action: FlowAction) -> Option<Seq<Seq<char>>> {
    match action {
        FlowAction::RunGit(a) => Some(string_views(a@)),
        _ => None,
    }
}

fn push_arg(v: &mut Vec<String>, s: &str)
    ensures
        string_views(final(v)@) == string_views(old(v)@).push(s@),
{
    let ghost before = v@;
    v.push(s.to_string());
    assert(string_views(v@) =~= string_views(before).push(s@));
}

// ---------------------------------------------------------------- update

/// What an update knows once it may go ahead: the installed record and the
/// commit the last check observed.
pub struct UpdatePlan {
    pub metadata: ManagedMetadata,
    pub observed: String,
}

/// Where an update stands.
pub enum UpdateState {
    /// Waiting for the checkout's inspection.
    Inspecting(UpdatePlan),
    /// `rebase --continue` ran.
    Continuing(UpdatePlan),
    /// The user's changes were being stashed.
    Stashing(UpdatePlan),
    /// The managed and user commits were being replayed onto the observed
    /// commit.
    Replaying(UpdatePlan),
    /// The adaptation commit was being looked up.
    FindingAdaptation(UpdatePlan),
    /// The stashes were being listed; the adaptation commit is known.
    ListingStashes(UpdatePlan, String),
    /// The user's changes were being restored.
    Restoring(UpdatePlan, String),
    /// The referee was being built.
    Building(UpdatePlan, String),
    /// Nothing is left to do.
    Over,
}

pub open spec fn rebase_onto_args(plan: UpdatePlan) -> Seq<Seq<char>> {
    seq!["rebase"@, "--onto"@, plan.observed@, plan.metadata.upstream_commit@, "cgarena"@]
}

pub open spec fn adaptation_log_args(plan: UpdatePlan) -> Seq<Seq<char>> {
    seq!["log"@, "--reverse"@, "--format=%H"@, "--grep=^"@ + ADAPTATION_SUBJECT@ + "$"@, plan.observed@ + "..HEAD"@]
}

pub open spec fn stash_push_args() -> Seq<Seq<char>> {
    seq!["stash"@, "push"@, "--include-untracked"@, "--message"@, UPDATE_STASH@]
}

/// Some line of the stash list names the update's stash.
pub open spec fn lists_update_stash(out: Seq<char>) -> bool {
    exists|i: int| 0 <= i < text_lines(out).len() && contains_text(#[trigger] text_lines(out)[i], UPDATE_STASH@)
}

/// How an update begins: refused when no referee is installed, when no
/// check has observed a commit, when that commit is the installed one, or
/// when the selection differs from the installed referee (in this order);
/// otherwise it inspects the checkout.
pub open spec fn update_begun(
    metadata: Option<ManagedMetadata>,
    selected: ManagedCodingameRefereeConfig,
    next: UpdateState,
    action: FlowAction,
) -> bool {
    match metadata {
        None => next is Over && action == FlowAction::Fail(FlowFailure::NotInstalled),
        Some(m) => match m.observed_remote_commit {
            None => next is Over && action == FlowAction::Fail(FlowFailure::NotChecked),
            Some(observed) => if observed@ == m.upstream_commit@ {
                next is Over && action == FlowAction::Fail(FlowFailure::AlreadyUpToDate)
            } else if !selection_matches(m, selected) {
                next is Over && action == FlowAction::Fail(FlowFailure::SelectionDiffers)
            } else {
                next matches UpdateState::Inspecting(plan) && plan.metadata == m && plan.observed@ == observed@
                    && action is InspectCheckout
            },
        },
    }
}

/// One step of an update: what comes after `event` in `state`.
pub open spec fn update_transition(state: UpdateState, event: FlowEvent, next: UpdateState, action: FlowAction) -> bool {
    match (state, event) {
        (UpdateState::Inspecting(plan), FlowEvent::Inspected { rebase_in_progress, dirty }) => if rebase_in_progress {
            next == UpdateState::Continuing(plan) && git_args(action) == Some(seq!["rebase"@, "--continue"@])
        } else if dirty {
            next == UpdateState::Stashing(plan) && git_args(action) == Some(stash_push_args())
        } else {
            next == UpdateState::Replaying(plan) && git_args(action) == Some(rebase_onto_args(plan))
        },
        (UpdateState::Continuing(plan), FlowEvent::GitDone(_)) => next == UpdateState::FindingAdaptation(plan)
            && git_args(action) == Some(adaptation_log_args(plan)),
        (UpdateState::Continuing(_), FlowEvent::GitFailed(_)) => next is Over && action == FlowAction::Fail(
            FlowFailure::CannotContinueRebase,
        ),
        (UpdateState::Stashing(plan), FlowEvent::GitDone(_)) => next == UpdateState::Replaying(plan) && git_args(action)
            == Some(rebase_onto_args(plan)),
        (UpdateState::Replaying(plan), FlowEvent::GitDone(_)) => next == UpdateState::FindingAdaptation(plan)
            && git_args(action) == Some(adaptation_log_args(plan)),
        (UpdateState::Replaying(_), FlowEvent::GitFailed(_)) => next is Over && action == FlowAction::Fail(
            FlowFailure::CannotReplay,
        ),
        (UpdateState::FindingAdaptation(plan), FlowEvent::GitDone(out)) => if text_lines(out@).len() == 0 {
            next is Over && action == FlowAction::Fail(FlowFailure::NoAdaptationCommit)
        } else {
            next matches UpdateState::ListingStashes(p, a) && p == plan && a@ == text_lines(out@)[0]
                && git_args(action) == Some(seq!["stash"@, "list"@, "--format=%s"@])
        },
        (UpdateState::ListingStashes(plan, a), FlowEvent::GitDone(out)) => if lists_update_stash(out@) {
            next == UpdateState::Restoring(plan, a) && git_args(action) == Some(seq!["stash"@, "pop"@])
        } else {
            next == UpdateState::Building(plan, a) && action is Build
        },
        (UpdateState::Restoring(plan, a), FlowEvent::GitDone(_)) => next == UpdateState::Building(plan, a) && action is Build,
        (UpdateState::Restoring(_, _), FlowEvent::GitFailed(_)) => next is Over && action == FlowAction::Fail(
            FlowFailure::CannotRestoreChanges,
        ),
        (UpdateState::Building(plan, a), FlowEvent::Built) => next is Over && action == FlowAction::Done(
            ManagedMetadata { upstream_commit: plan.observed, adaptation_commit: a, ..plan.metadata },
        ),
        (UpdateState::Building(_, _), FlowEvent::Failed(m)) => next is Over && action == FlowAction::Fail(FlowFailure::Step(m)),
        (UpdateState::Over, _) => next is Over && action == FlowAction::Fail(FlowFailure::Unexpected),
        (_, FlowEvent::GitFailed(m)) => next is Over && action == FlowAction::Fail(FlowFailure::Git(m)),
        (_, _) => next is Over && action == FlowAction::Fail(FlowFailure::Unexpected),
    }
}

/// Begins an update of the installed referee (`metadata`, `None` when none
/// is installed) to the commit its last check observed.
pub fn update_begin(metadata: Option<ManagedMetadata>, selected: &ManagedCodingameRefereeConfig) -> (r: (UpdateState, FlowAction))
    ensures
        update_begun(metadata, *selected, r.0, r.1),
{
    match metadata {
        None => (UpdateState::Over, FlowAction::Fail(FlowFailure::NotInstalled)),
        Some(m) => match update_target(&m, selected) {
            Err(UpdateRefusal::NotChecked) => (UpdateState::Over, FlowAction::Fail(FlowFailure::NotChecked)),
            Err(UpdateRefusal::AlreadyUpToDate) => (UpdateState::Over, FlowAction::Fail(FlowFailure::AlreadyUpToDate)),
            Err(UpdateRefusal::SelectionDiffers) => (UpdateState::Over, FlowAction::Fail(FlowFailure::SelectionDiffers)),
            Ok(observed) => (UpdateState::Inspecting(UpdatePlan { metadata: m, observed }), FlowAction::InspectCheckout),
        },
    }
}

fn rebase_onto(plan: &UpdatePlan) -> (r: FlowAction)
    ensures
        git_args(r) == Some(rebase_onto_args(*plan)),
{
    let mut v: Vec<String> = Vec::new();
    push_arg(&mut v, "rebase");
    push_arg(&mut v, "--onto");
    push_arg(&mut v, plan.observed.as_str());
    push_arg(&mut v, plan.metadata.upstream_commit.as_str());
    push_arg(&mut v, "cgarena");
    assert(string_views(v@) =~= rebase_onto_args(*plan));
    FlowAction::RunGit(v)
}

fn adaptation_log(plan: &UpdatePlan) -> (r: FlowAction)
    ensures
        git_args(r) == Some(adaptation_log_args(*plan)),
{
    let mut v: Vec<String> = Vec::new();
    push_arg(&mut v, "log");
    push_arg(&mut v, "--reverse");
    push_arg(&mut v, "--format=%H");
    let grep = crate::text::concat_str("--grep=^", ADAPTATION_SUBJECT);
    let grep = crate::text::concat_str(grep.as_str(), "$");
    push_arg(&mut v, grep.as_str());
    let range = crate::text::concat_str(plan.observed.as_str(), "..HEAD");
    push_arg(&mut v, range.as_str());
    assert(string_views(v@) =~= adaptation_log_args(*plan));
    FlowAction::RunGit(v)
}

fn stash_push() -> (r: FlowAction)
    ensures
        git_args(r) == Some(stash_push_args()),
{
    let mut v: Vec<String> = Vec::new();
    push_arg(&mut v, "stash");
    push_arg(&mut v, "push");
    push_arg(&mut v, "--include-untracked");
    push_arg(&mut v, "--message");
    push_arg(&mut v, UPDATE_STASH);
    assert(string_views(v@) =~= stash_push_args());
    FlowAction::RunGit(v)
}

fn simple_git2(a: &str, b: &str) -> (r: FlowAction)
    ensures
        git_args(r) == Some(seq![a@, b@]),
{
    let mut v: Vec<String> = Vec::new();
    push_arg(&mut v, a);
    push_arg(&mut v, b);
    assert(string_views(v@) =~= seq![a@, b@]);
    FlowAction::RunGit(v)
}

fn simple_git3(a: &str, b: &str, c: &str) -> (r: FlowAction)
    ensures
        git_args(r) == Some(seq![a@, b@, c@]),
{
    let mut v: Vec<String> = Vec::new();
    push_arg(&mut v, a);
    push_arg(&mut v, b);
    push_arg(&mut v, c);
    assert(string_views(v@) =~= seq![a@, b@, c@]);
    FlowAction::RunGit(v)
}

/// Whether some line of `out` names the update's stash.
fn has_update_stash(out: &str) -> (r: bool)
    ensures
        r == lists_update_stash(out@),
{
    let lines = lines_of(out);
    let marker = chars_of(UPDATE_STASH);
    let ghost all = text_lines(out@);
    let mut i: usize = 0;
    while i < lines.len()
        invariant
            all == text_lines(out@),
            0 <= i <= lines@.len(),
            line_texts(lines@) == all,
            marker@ == UPDATE_STASH@,
            forall|j: int| 0 <= j < i ==> !contains_text(#[trigger] all[j], UPDATE_STASH@),
        decreases lines@.len() - i,
    {
        assert(all[i as int] == lines@[i as int]@);
        if contains_text_vec(&chars_of(lines[i].as_str()), &marker) {
            return true;
        }
        i = i + 1;
    }
    assert(lines@.len() == all.len());
    false
}

/// One step of an update.
pub fn update_step(state: UpdateState, event: FlowEvent) -> (r: (UpdateState, FlowAction))
    ensures
        update_transition(state, event, r.0, r.1),
{
    match (state, event) {
        (UpdateState::Inspecting(plan), FlowEvent::Inspected { rebase_in_progress, dirty }) => {
            if rebase_in_progress {
                let a = simple_git2("rebase", "--continue");
                (UpdateState::Continuing(plan), a)
            } else if dirty {
                (UpdateState::Stashing(plan), stash_push())
            } else {
                let a = rebase_onto(&plan);
                (UpdateState::Replaying(plan), a)
            }
        },
        (UpdateState::Continuing(plan), FlowEvent::GitDone(_)) => {
            let a = adaptation_log(&plan);
            (UpdateState::FindingAdaptation(plan), a)
        },
        (UpdateState::Continuing(_), FlowEvent::GitFailed(_)) => (UpdateState::Over, FlowAction::Fail(FlowFailure::CannotContinueRebase)),
        (UpdateState::Stashing(plan), FlowEvent::GitDone(_)) => {
            let a = rebase_onto(&plan);
            (UpdateState::Replaying(plan), a)
        },
        (UpdateState::Replaying(plan), FlowEvent::GitDone(_)) => {
            let a = adaptation_log(&plan);
            (UpdateState::FindingAdaptation(plan), a)
        },
        (UpdateState::Replaying(_), FlowEvent::GitFailed(_)) => (UpdateState::Over, FlowAction::Fail(FlowFailure::CannotReplay)),
        (UpdateState::FindingAdaptation(plan), FlowEvent::GitDone(out)) => {
            let lines = lines_of(out.as_str());
            if lines.len() == 0 {
                (UpdateState::Over, FlowAction::Fail(FlowFailure::NoAdaptationCommit))
            } else {
                let first = lines[0].clone();
                assert(first@ == text_lines(out@)[0]) by {
                    assert(line_texts(lines@)[0] == lines@[0]@);
                }
                (UpdateState::ListingStashes(plan, first), simple_git3("stash", "list", "--format=%s"))
            }
        },
        (UpdateState::ListingStashes(plan, a), FlowEvent::GitDone(out)) => {
            if has_update_stash(out.as_str()) {
                (UpdateState::Restoring(plan, a), simple_git2("stash", "pop"))
            } else {
                (UpdateState::Building(plan, a), FlowAction::Build)
            }
        },
        (UpdateState::Restoring(plan, a), FlowEvent::GitDone(_)) => (UpdateState::Building(plan, a), FlowAction::Build),
        (UpdateState::Restoring(_, _), FlowEvent::GitFailed(_)) => (UpdateState::Over, FlowAction::Fail(FlowFailure::CannotRestoreChanges)),
        (UpdateState::Building(plan, a), FlowEvent::Built) => {
            let UpdatePlan { metadata, observed } = plan;
            (UpdateState::Over, FlowAction::Done(ManagedMetadata { upstream_commit: observed, adaptation_commit: a, ..metadata }))
        },
        (UpdateState::Building(_, _), FlowEvent::Failed(m)) => (UpdateState::Over, FlowAction::Fail(FlowFailure::Step(m))),
        (UpdateState::Over, _) => (UpdateState::Over, FlowAction::Fail(FlowFailure::Unexpected)),
        (_, FlowEvent::GitFailed(m)) => (UpdateState::Over, FlowAction::Fail(FlowFailure::Git(m))),
        (_, _) => (UpdateState::Over, FlowAction::Fail(FlowFailure::Unexpected)),
    }
}

// --------------------------------------------------------------- install

/// What an installation has learnt of the fresh checkout.
pub struct InstallFacts {
    pub repository_url: String,
    pub branch: String,
    pub upstream: String,
}

/// Where an installation stands.
pub enum InstallState {
    /// The repository was being cloned (from this URL).
    Cloning(String),
    /// The current branch was being read.
    ReadingBranch(String),
    /// The current commit was being read; the branch is known.
    ReadingHead(String, String),
    /// The checkout was being detached at the upstream commit.
    Detaching(InstallFacts),
    /// An existing `cgarena` branch was being looked for.
    ListingBranch(InstallFacts),
    /// The existing `cgarena` branch was being deleted.
    DeletingBranch(InstallFacts),
    /// The `cgarena` branch was being created.
    CreatingBranch(InstallFacts),
    /// The adaptation was being written.
    Adapting(InstallFacts),
    /// The adapted files were being staged.
    Staging(InstallFacts),
    /// The adaptation was being committed.
    Committing(InstallFacts),
    /// The adaptation commit was being read.
    ReadingAdaptation(InstallFacts),
    /// The referee was being built; the adaptation commit is known.
    Building(InstallFacts, String),
    /// Nothing is left to do.
    Over,
}

pub open spec fn commit_args() -> Seq<Seq<char>> {
    seq!["-c"@, "user.name=CG Arena"@, "-c"@, "user.email=cgarena@localhost"@, "commit"@, "--allow-empty"@, "-m"@, ADAPTATION_SUBJECT@]
}

/// The record of a fresh installation.
pub open spec fn installed_metadata(f: InstallFacts, adaptation: String) -> ManagedMetadata {
    ManagedMetadata {
        repository_url: f.repository_url,
        branch: f.branch,
        upstream_commit: f.upstream,
        adaptation_commit: adaptation,
        last_successful_check: None,
        observed_remote_commit: None,
        observed_ahead: None,
        observed_behind: None,
    }
}

/// How an installation begins: refused while the current checkout has
/// user changes; otherwise it clones the selected repository into
/// `checkout`.
pub open spec fn install_begun(
    selected: ManagedCodingameRefereeConfig,
    user_changes: bool,
    checkout: Seq<char>,
    next: InstallState,
    action: FlowAction,
) -> bool {
    if user_changes {
        next is Over && action == FlowAction::Fail(FlowFailure::UserChanges)
    } else {
        next == InstallState::Cloning(selected.repository_url) && git_args(action) == Some(clone_arguments_of(selected, checkout))
    }
}

/// One step of an installation: what comes after `event` in `state`.
pub open spec fn install_transition(state: InstallState, event: FlowEvent, next: InstallState, action: FlowAction) -> bool {
    match (state, event) {
        (InstallState::Cloning(url), FlowEvent::GitDone(_)) => next == InstallState::ReadingBranch(url) && git_args(action)
            == Some(seq!["branch"@, "--show-current"@]),
        (InstallState::ReadingBranch(url), FlowEvent::GitDone(out)) => if trim_chars(out@).len() == 0 {
            next is Over && action == FlowAction::Fail(FlowFailure::NoDefaultBranch)
        } else {
            next matches InstallState::ReadingHead(u, b) && u == url && b@ == trim_chars(out@)
                && git_args(action) == Some(seq!["rev-parse"@, "HEAD"@])
        },
        (InstallState::ReadingHead(url, b), FlowEvent::GitDone(out)) => next matches InstallState::Detaching(f)
            && f.repository_url == url && f.branch == b && f.upstream@ == trim_chars(out@)
            && git_args(action) == Some(seq!["checkout"@, "--detach"@, trim_chars(out@)]),
        (InstallState::Detaching(f), FlowEvent::GitDone(_)) => next == InstallState::ListingBranch(f) && git_args(action)
            == Some(seq!["branch"@, "--list"@, "cgarena"@]),
        (InstallState::ListingBranch(f), FlowEvent::GitDone(out)) => if trim_chars(out@).len() == 0 {
            next == InstallState::CreatingBranch(f) && git_args(action) == Some(seq!["checkout"@, "-b"@, "cgarena"@])
        } else {
            next == InstallState::DeletingBranch(f) && git_args(action) == Some(seq!["branch"@, "-D"@, "cgarena"@])
        },
        (InstallState::DeletingBranch(f), FlowEvent::GitDone(_)) => next == InstallState::CreatingBranch(f) && git_args(
            action,
        ) == Some(seq!["checkout"@, "-b"@, "cgarena"@]),
        (InstallState::CreatingBranch(f), FlowEvent::GitDone(_)) => next == InstallState::Adapting(f) && action is Adapt,
        (InstallState::Adapting(f), FlowEvent::Adapted) => next == InstallState::Staging(f) && git_args(action) == Some(
            seq!["add"@, "pom.xml"@, CLI_PATH@],
        ),
        (InstallState::Adapting(_), FlowEvent::Failed(m)) => next is Over && action == FlowAction::Fail(FlowFailure::Step(m)),
        (InstallState::Staging(f), FlowEvent::GitDone(_)) => next == InstallState::Committing(f) && git_args(action) == Some(
            commit_args(),
        ),
        (InstallState::Committing(f), FlowEvent::GitDone(_)) => next == InstallState::ReadingAdaptation(f) && git_args(action)
            == Some(seq!["rev-parse"@, "HEAD"@]),
        (InstallState::ReadingAdaptation(f), FlowEvent::GitDone(out)) => next matches InstallState::Building(g, a) && g == f
            && a@ == trim_chars(out@) && action is Build,
        (InstallState::Building(f, a), FlowEvent::Built) => next is Over && action == FlowAction::Done(installed_metadata(f, a)),
        (InstallState::Building(_, _), FlowEvent::Failed(m)) => next is Over && action == FlowAction::Fail(FlowFailure::Step(m)),
        (InstallState::Over, _) => next is Over && action == FlowAction::Fail(FlowFailure::Unexpected),
        (_, FlowEvent::GitFailed(m)) => next is Over && action == FlowAction::Fail(FlowFailure::Git(m)),
        (_, _) => next is Over && action == FlowAction::Fail(FlowFailure::Unexpected),
    }
}

/// Begins installing the selected referee into the fresh directory
/// `checkout`; `user_changes` is whether the current checkout holds user
/// commits or changes.
pub fn install_begin(selected: &ManagedCodingameRefereeConfig, user_changes: bool, checkout: &str) -> (r: (InstallState, FlowAction))
    ensures
        install_begun(*selected, user_changes, checkout@, r.0, r.1),
{
    if user_changes {
        return (InstallState::Over, FlowAction::Fail(FlowFailure::UserChanges));
    }
    let arguments = clone_arguments(selected, checkout);
    assert(string_views(arguments@) =~= crate::referee_adapter::views(arguments@));
    (InstallState::Cloning(selected.repository_url.clone()), FlowAction::RunGit(arguments))
}

fn trimmed(out: &str) -> (r: String)
    ensures
        r@ == trim_chars(out@),
{
    string_from_chars(&trim_vec(&chars_of(out)))
}

fn commit_adaptation() -> (r: FlowAction)
    ensures
        git_args(r) == Some(commit_args()),
{
    let mut v: Vec<String> = Vec::new();
    push_arg(&mut v, "-c");
    push_arg(&mut v, "user.name=CG Arena");
    push_arg(&mut v, "-c");
    push_arg(&mut v, "user.email=cgarena@localhost");
    push_arg(&mut v, "commit");
    push_arg(&mut v, "--allow-empty");
    push_arg(&mut v, "-m");
    push_arg(&mut v, ADAPTATION_SUBJECT);
    assert(string_views(v@) =~= commit_args());
    FlowAction::RunGit(v)
}

/// One step of an installation.
pub fn install_step(state: InstallState, event: FlowEvent) -> (r: (InstallState, FlowAction))
    ensures
        install_transition(state, event, r.0, r.1),
{
    match (state, event) {
        (InstallState::Cloning(url), FlowEvent::GitDone(_)) => (InstallState::ReadingBranch(url), simple_git2("branch", "--show-current")),
        (InstallState::ReadingBranch(url), FlowEvent::GitDone(out)) => {
            let b = trimmed(out.as_str());
            if chars_of(b.as_str()).len() == 0 {
                (InstallState::Over, FlowAction::Fail(FlowFailure::NoDefaultBranch))
            } else {
                (InstallState::ReadingHead(url, b), simple_git2("rev-parse", "HEAD"))
            }
        },
        (InstallState::ReadingHead(url, b), FlowEvent::GitDone(out)) => {
            let upstream = trimmed(out.as_str());
            let a = simple_git3("checkout", "--detach", upstream.as_str());
            (InstallState::Detaching(InstallFacts { repository_url: url, branch: b, upstream }), a)
        },
        (InstallState::Detaching(f), FlowEvent::GitDone(_)) => (InstallState::ListingBranch(f), simple_git3("branch", "--list", "cgarena")),
        (InstallState::ListingBranch(f), FlowEvent::GitDone(out)) => {
            let listed = trimmed(out.as_str());
            if chars_of(listed.as_str()).len() == 0 {
                (InstallState::CreatingBranch(f), simple_git3("checkout", "-b", "cgarena"))
            } else {
                (InstallState::DeletingBranch(f), simple_git3("branch", "-D", "cgarena"))
            }
        },
        (InstallState::DeletingBranch(f), FlowEvent::GitDone(_)) => (InstallState::CreatingBranch(f), simple_git3("checkout", "-b", "cgarena")),
        (InstallState::CreatingBranch(f), FlowEvent::GitDone(_)) => (InstallState::Adapting(f), FlowAction::Adapt),
        (InstallState::Adapting(f), FlowEvent::Adapted) => (InstallState::Staging(f), simple_git3("add", "pom.xml", CLI_PATH)),
        (InstallState::Adapting(_), FlowEvent::Failed(m)) => (InstallState::Over, FlowAction::Fail(FlowFailure::Step(m))),
        (InstallState::Staging(f), FlowEvent::GitDone(_)) => (InstallState::Committing(f), commit_adaptation()),
        (InstallState::Committing(f), FlowEvent::GitDone(_)) => (InstallState::ReadingAdaptation(f), simple_git2("rev-parse", "HEAD")),
        (InstallState::ReadingAdaptation(f), FlowEvent::GitDone(out)) => {
            let a = trimmed(out.as_str());
            (InstallState::Building(f, a), FlowAction::Build)
        },
        (InstallState::Building(f, a), FlowEvent::Built) => {
            let InstallFacts { repository_url, branch, upstream } = f;
            (InstallState::Over, FlowAction::Done(ManagedMetadata {
                repository_url,
                branch,
                upstream_commit: upstream,
                adaptation_commit: a,
                last_successful_check: None,
                observed_remote_commit: None,
                observed_ahead: None,
                observed_behind: None,
            }))
        },
        (InstallState::Building(_, _), FlowEvent::Failed(m)) => (InstallState::Over, FlowAction::Fail(FlowFailure::Step(m))),
        (InstallState::Over, _) => (InstallState::Over, FlowAction::Fail(FlowFailure::Unexpected)),
        (_, FlowEvent::GitFailed(m)) => (InstallState::Over, FlowAction::Fail(FlowFailure::Git(m))),
        (_, _) => (InstallState::Over, FlowAction::Fail(FlowFailure::Unexpected)),
    }
}

} // verus!
