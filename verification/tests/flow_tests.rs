use cgarena::config::ManagedCodingameRefereeConfig;
use cgarena::managed_referee::{ManagedMetadata, OperationStatus, RefereeAction, UpdateRefusal};
use cgarena::referee_flows::{
    install_begin, install_step, update_begin, update_step, FlowAction, FlowEvent, FlowFailure, InstallState,
    UpdateState,
};

fn selected() -> ManagedCodingameRefereeConfig {
    ManagedCodingameRefereeConfig {
        repository_url: "https://example.com/r.git".to_string(),
        branch: None,
        maven: None,
        java: None,
    }
}

fn installed(observed: Option<&str>) -> ManagedMetadata {
    ManagedMetadata {
        repository_url: "https://example.com/r.git".to_string(),
        branch: "main".to_string(),
        upstream_commit: "old".to_string(),
        adaptation_commit: "adapt0".to_string(),
        last_successful_check: Some(5),
        observed_remote_commit: observed.map(str::to_string),
        observed_ahead: Some(1),
        observed_behind: Some(2),
    }
}

fn git(action: &FlowAction) -> Vec<String> {
    match action {
        FlowAction::RunGit(args) => args.clone(),
        _ => panic!("a Git command was expected"),
    }
}

fn strings(words: &[&str]) -> Vec<String> {
    words.iter().map(|w| w.to_string()).collect()
}

fn failure(action: FlowAction) -> FlowFailure {
    match action {
        FlowAction::Fail(f) => f,
        _ => panic!("a failure was expected"),
    }
}

#[test]
fn update_refusals_come_before_any_git_command() {
    assert_eq!(failure(update_begin(None, &selected()).1), FlowFailure::NotInstalled);
    assert_eq!(failure(update_begin(Some(installed(None)), &selected()).1), FlowFailure::NotChecked);
    assert_eq!(failure(update_begin(Some(installed(Some("old"))), &selected()).1), FlowFailure::AlreadyUpToDate);
    let mut other = selected();
    other.branch = Some("dev".to_string());
    assert_eq!(failure(update_begin(Some(installed(Some("new"))), &other).1), FlowFailure::SelectionDiffers);
    assert_eq!(FlowFailure::NotInstalled.to_string(), "no managed referee is installed");
    assert_eq!(UpdateRefusal::AlreadyUpToDate.to_string(), "the managed referee is already up to date");
}

#[test]
fn update_replays_onto_the_observed_commit() {
    let (state, action) = update_begin(Some(installed(Some("new"))), &selected());
    assert!(matches!(action, FlowAction::InspectCheckout));
    let (state, action) = update_step(state, FlowEvent::Inspected { rebase_in_progress: false, dirty: true });
    assert_eq!(git(&action), strings(&["stash", "push", "--include-untracked", "--message", "cgarena-managed-update"]));
    let (state, action) = update_step(state, FlowEvent::GitDone(String::new()));
    assert_eq!(git(&action), strings(&["rebase", "--onto", "new", "old", "cgarena"]));
    let (state, action) = update_step(state, FlowEvent::GitDone(String::new()));
    assert_eq!(
        git(&action),
        strings(&["log", "--reverse", "--format=%H", "--grep=^CG Arena referee adapter v1$", "new..HEAD"])
    );
    let (state, action) = update_step(state, FlowEvent::GitDone("adapt1\nlater\n".to_string()));
    assert_eq!(git(&action), strings(&["stash", "list", "--format=%s"]));
    let (state, action) = update_step(state, FlowEvent::GitDone("On cgarena: cgarena-managed-update\n".to_string()));
    assert_eq!(git(&action), strings(&["stash", "pop"]));
    let (state, action) = update_step(state, FlowEvent::GitDone(String::new()));
    assert!(matches!(action, FlowAction::Build));
    let (state, action) = update_step(state, FlowEvent::Built);
    assert!(matches!(state, UpdateState::Over));
    match action {
        FlowAction::Done(m) => {
            assert_eq!(m.upstream_commit, "new");
            assert_eq!(m.adaptation_commit, "adapt1");
            assert_eq!(m.branch, "main");
            assert_eq!(m.observed_remote_commit.as_deref(), Some("new"));
        }
        _ => panic!("the update must finish"),
    }
}

#[test]
fn update_continues_a_rebase_and_reports_conflicts() {
    let (state, _) = update_begin(Some(installed(Some("new"))), &selected());
    let (state, action) = update_step(state, FlowEvent::Inspected { rebase_in_progress: true, dirty: true });
    assert_eq!(git(&action), strings(&["rebase", "--continue"]));
    let (_, action) = update_step(state, FlowEvent::GitFailed("conflict".to_string()));
    assert_eq!(failure(action), FlowFailure::CannotContinueRebase);
    let (state, _) = update_begin(Some(installed(Some("new"))), &selected());
    let (state, _) = update_step(state, FlowEvent::Inspected { rebase_in_progress: false, dirty: false });
    let (state, _) = update_step(state, FlowEvent::GitDone(String::new()));
    let (_, action) = update_step(state, FlowEvent::GitDone(String::new()));
    assert_eq!(failure(action), FlowFailure::NoAdaptationCommit);
}

#[test]
fn install_clones_branches_adapts_and_records() {
    assert_eq!(failure(install_begin(&selected(), true, "/c").1), FlowFailure::UserChanges);
    let (state, action) = install_begin(&selected(), false, "/c");
    assert_eq!(git(&action), strings(&["clone", "--origin", "upstream", "--", "https://example.com/r.git", "/c"]));
    let (state, action) = install_step(state, FlowEvent::GitDone(String::new()));
    assert_eq!(git(&action), strings(&["branch", "--show-current"]));
    let (state, action) = install_step(state, FlowEvent::GitDone("main\n".to_string()));
    assert_eq!(git(&action), strings(&["rev-parse", "HEAD"]));
    let (state, action) = install_step(state, FlowEvent::GitDone("abc\n".to_string()));
    assert_eq!(git(&action), strings(&["checkout", "--detach", "abc"]));
    let (state, action) = install_step(state, FlowEvent::GitDone(String::new()));
    assert_eq!(git(&action), strings(&["branch", "--list", "cgarena"]));
    let (state, action) = install_step(state, FlowEvent::GitDone("  cgarena\n".to_string()));
    assert_eq!(git(&action), strings(&["branch", "-D", "cgarena"]));
    let (state, action) = install_step(state, FlowEvent::GitDone(String::new()));
    assert_eq!(git(&action), strings(&["checkout", "-b", "cgarena"]));
    let (state, action) = install_step(state, FlowEvent::GitDone(String::new()));
    assert!(matches!(action, FlowAction::Adapt));
    let (state, action) = install_step(state, FlowEvent::Adapted);
    assert_eq!(git(&action)[0], "add");
    let (state, action) = install_step(state, FlowEvent::GitDone(String::new()));
    assert_eq!(git(&action)[4], "commit");
    let (state, action) = install_step(state, FlowEvent::GitDone(String::new()));
    assert_eq!(git(&action), strings(&["rev-parse", "HEAD"]));
    let (state, action) = install_step(state, FlowEvent::GitDone("def\n".to_string()));
    assert!(matches!(action, FlowAction::Build));
    let (state, action) = install_step(state, FlowEvent::Built);
    assert!(matches!(state, InstallState::Over));
    match action {
        FlowAction::Done(m) => {
            assert_eq!(m.branch, "main");
            assert_eq!(m.upstream_commit, "abc");
            assert_eq!(m.adaptation_commit, "def");
            assert!(m.observed_remote_commit.is_none());
        }
        _ => panic!("the installation must finish"),
    }
    let (state, _) = install_begin(&selected(), false, "/c");
    let (state, _) = install_step(state, FlowEvent::GitDone(String::new()));
    let (_, action) = install_step(state, FlowEvent::GitDone("\n".to_string()));
    assert_eq!(failure(action), FlowFailure::NoDefaultBranch);
}

#[test]
fn a_running_action_refuses_others() {
    let mut status = OperationStatus::default();
    status.reserve(RefereeAction::Check).unwrap();
    let active = status.reserve(RefereeAction::Update).unwrap_err();
    assert_eq!(active.running_text(), "referee action Check is already running");
}
