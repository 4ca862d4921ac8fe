//! Decisions of the arena runtime: which configuration selects the managed
//! referee, and how a new managed referee is put in place and, on failure,
//! taken out again. The runtime itself (tasks, locks, files) belongs to the
//! application, which performs the steps decided here.
use vstd::prelude::*;
use crate::config::{ArenaConfig, EmbeddedWorkerConfig, ManagedCodingameRefereeConfig, RefereeConfig, WorkerConfig};

verus! {

/// The one embedded worker of a configuration, where it has exactly one.
pub fn single_embedded_worker(config: &ArenaConfig) -> (r: Option<&EmbeddedWorkerConfig>)
    ensures
        config.workers@.len() == 1 ==> (r matches Some(w) && config.workers@[0] == WorkerConfig::Embedded(*w)),
        config.workers@.len() != 1 ==> r is None,
{
    if config.workers.len() != 1 {
        return None;
    }
    match &config.workers[0] {
        WorkerConfig::Embedded(worker) => Some(worker),
    }
}

/// The managed referee a configuration selects: that of its one embedded
/// worker, where the worker uses one.
pub open spec fn managed_referee_of(config: ArenaConfig) -> Option<ManagedCodingameRefereeConfig> {
    if config.workers@.len() == 1 {
        match config.workers@[0] {
            WorkerConfig::Embedded(w) => match w.referee {
                RefereeConfig::ManagedCodingame(m) => Some(m),
                _ => None,
            },
        }
    } else {
        None
    }
}

pub fn managed_configuration(config: &ArenaConfig) -> (r: Option<&ManagedCodingameRefereeConfig>)
    ensures
        match r {
            Some(m) => managed_referee_of(*config) == Some(*m),
            None => managed_referee_of(*config) is None,
        },
{
    match single_embedded_worker(config) {
        None => None,
        Some(worker) => match &worker.referee {
            RefereeConfig::ManagedCodingame(managed) => Some(managed),
            _ => None,
        },
    }
}

/// Makes matchmaking start enabled or disabled with the configuration.
pub fn set_matchmaking_intent(config: &mut ArenaConfig, enabled: bool)
    ensures
        final(config).matchmaking.enabled_on_start == Some(enabled),
        final(config).matchmaking.algorithm == old(config).matchmaking.algorithm,
        final(config).workers == old(config).workers,
        final(config).game == old(config).game,
{
    config.matchmaking.enabled_on_start = Some(enabled);
}

/// What is moved aside before a new managed referee is put in place: the
/// referee JAR in use, where there is one, and the checkout, where the
/// candidate brings a new checkout and one exists.
#[derive(Clone, Copy, Debug, PartialEq, Eq, Structural)]
pub struct ActivationPlan {
    pub back_up_artifact: bool,
    pub back_up_checkout: bool,
    pub candidate_has_checkout: bool,
    pub restore_previous_runtime: bool,
}

pub fn activation_plan(
    artifact_is_file: bool,
    candidate_has_checkout: bool,
    checkout_is_dir: bool,
    previous_config_exists: bool,
) -> (r: ActivationPlan)
    ensures
        r.back_up_artifact == artifact_is_file,
        r.back_up_checkout == (candidate_has_checkout && checkout_is_dir),
        r.candidate_has_checkout == candidate_has_checkout,
        r.restore_previous_runtime == previous_config_exists,
{
    ActivationPlan {
        back_up_artifact: artifact_is_file,
        back_up_checkout: candidate_has_checkout && checkout_is_dir,
        candidate_has_checkout,
        restore_previous_runtime: previous_config_exists,
    }
}

/// The step at which putting a managed referee in place failed.
#[derive(Clone, Copy, Debug, PartialEq, Eq, Structural)]
pub enum ActivationFailure {
    /// Moving the current checkout aside.
    StageCheckout,
    /// Moving the candidate's checkout in.
    PublishCheckout,
    /// Moving the candidate's JAR in.
    PublishArtifact,
    /// Starting the runtime with the new referee.
    Activate,
    /// Recording the new referee and configuration.
    Persist,
}

/// One step of taking a failed activation back, or of cleaning up after a
/// successful one.
#[derive(Clone, Copy, Debug, PartialEq, Eq, Structural)]
pub enum RecoveryStep {
    ShutDownNewRuntime,
    RemovePublishedArtifact,
    RestoreArtifactBackup,
    ReturnCheckoutToCandidate,
    RemovePublishedCheckout,
    RestoreCheckoutBackup,
    RestoreMetadata,
    RestorePreviousRuntime,
    RemoveCandidateRoot,
    DiscardArtifactBackup,
    DiscardCheckoutBackup,
}

/// `step` when `present`, else nothing.
pub open spec fn step_if(present: bool, step: RecoveryStep) -> Seq<RecoveryStep> {
    if present { seq![step] } else { Seq::empty() }
}

/// The steps that take back an activation that failed at `failure`, in
/// order: what was published is removed before what was moved aside comes
/// back.
pub open spec fn recovery_steps(plan: ActivationPlan, failure: ActivationFailure) -> Seq<RecoveryStep> {
    match failure {
        ActivationFailure::StageCheckout => step_if(plan.back_up_artifact, RecoveryStep::RestoreArtifactBackup),
        ActivationFailure::PublishCheckout => step_if(plan.back_up_artifact, RecoveryStep::RestoreArtifactBackup)
            + step_if(plan.back_up_checkout, RecoveryStep::RestoreCheckoutBackup),
        ActivationFailure::PublishArtifact => step_if(plan.candidate_has_checkout, RecoveryStep::ReturnCheckoutToCandidate)
            + step_if(plan.back_up_checkout, RecoveryStep::RestoreCheckoutBackup)
            + step_if(plan.back_up_artifact, RecoveryStep::RestoreArtifactBackup),
        ActivationFailure::Activate => seq![RecoveryStep::RemovePublishedArtifact]
            + step_if(plan.back_up_artifact, RecoveryStep::RestoreArtifactBackup)
            + step_if(plan.candidate_has_checkout, RecoveryStep::RemovePublishedCheckout)
            + step_if(plan.back_up_checkout, RecoveryStep::RestoreCheckoutBackup)
            + step_if(plan.restore_previous_runtime, RecoveryStep::RestorePreviousRuntime)
            + step_if(plan.candidate_has_checkout, RecoveryStep::RemoveCandidateRoot),
        ActivationFailure::Persist => seq![RecoveryStep::ShutDownNewRuntime, RecoveryStep::RemovePublishedArtifact]
            + step_if(plan.back_up_artifact, RecoveryStep::RestoreArtifactBackup)
            + step_if(plan.candidate_has_checkout, RecoveryStep::RemovePublishedCheckout)
            + step_if(plan.back_up_checkout, RecoveryStep::RestoreCheckoutBackup)
            + seq![RecoveryStep::RestoreMetadata]
            + step_if(plan.restore_previous_runtime, RecoveryStep::RestorePreviousRuntime)
            + step_if(plan.candidate_has_checkout, RecoveryStep::RemoveCandidateRoot),
    }
}

/// The clean-up after a successful activation: the backups and the
/// candidate's directory are no longer needed.
pub open spec fn cleanup_steps(plan: ActivationPlan) -> Seq<RecoveryStep> {
    step_if(plan.back_up_artifact, RecoveryStep::DiscardArtifactBackup)
        + step_if(plan.back_up_checkout, RecoveryStep::DiscardCheckoutBackup)
        + step_if(plan.candidate_has_checkout, RecoveryStep::RemoveCandidateRoot)
}

fn push_if(steps: &mut Vec<RecoveryStep>, present: bool, step: RecoveryStep)
    ensures
        final(steps)@ == old(steps)@ + step_if(present, step),
{
    if present {
        steps.push(step);
    }
    assert(steps@ =~= old(steps)@ + step_if(present, step));
}

/// The steps that take back an activation that failed at `failure`.
pub fn recovery(plan: ActivationPlan, failure: ActivationFailure) -> (r: Vec<RecoveryStep>)
    ensures
        r@ == recovery_steps(plan, failure),
        (failure == ActivationFailure::Activate || failure == ActivationFailure::Persist) ==> r@.contains(
            RecoveryStep::RestorePreviousRuntime,
        ) == plan.restore_previous_runtime,
{
    proof {
        lemma_recovery_restarts_previous_runtime(plan, failure);
    }
    let mut steps: Vec<RecoveryStep> = Vec::new();
    match failure {
        ActivationFailure::StageCheckout => {
            push_if(&mut steps, plan.back_up_artifact, RecoveryStep::RestoreArtifactBackup);
        },
        ActivationFailure::PublishCheckout => {
            push_if(&mut steps, plan.back_up_artifact, RecoveryStep::RestoreArtifactBackup);
            push_if(&mut steps, plan.back_up_checkout, RecoveryStep::RestoreCheckoutBackup);
        },
        ActivationFailure::PublishArtifact => {
            push_if(&mut steps, plan.candidate_has_checkout, RecoveryStep::ReturnCheckoutToCandidate);
            push_if(&mut steps, plan.back_up_checkout, RecoveryStep::RestoreCheckoutBackup);
            push_if(&mut steps, plan.back_up_artifact, RecoveryStep::RestoreArtifactBackup);
        },
        ActivationFailure::Activate => {
            push_if(&mut steps, true, RecoveryStep::RemovePublishedArtifact);
            push_if(&mut steps, plan.back_up_artifact, RecoveryStep::RestoreArtifactBackup);
            push_if(&mut steps, plan.candidate_has_checkout, RecoveryStep::RemovePublishedCheckout);
            push_if(&mut steps, plan.back_up_checkout, RecoveryStep::RestoreCheckoutBackup);
            push_if(&mut steps, plan.restore_previous_runtime, RecoveryStep::RestorePreviousRuntime);
            push_if(&mut steps, plan.candidate_has_checkout, RecoveryStep::RemoveCandidateRoot);
        },
        ActivationFailure::Persist => {
            push_if(&mut steps, true, RecoveryStep::ShutDownNewRuntime);
            push_if(&mut steps, true, RecoveryStep::RemovePublishedArtifact);
            push_if(&mut steps, plan.back_up_artifact, RecoveryStep::RestoreArtifactBackup);
            push_if(&mut steps, plan.candidate_has_checkout, RecoveryStep::RemovePublishedCheckout);
            push_if(&mut steps, plan.back_up_checkout, RecoveryStep::RestoreCheckoutBackup);
            push_if(&mut steps, true, RecoveryStep::RestoreMetadata);
            push_if(&mut steps, plan.restore_previous_runtime, RecoveryStep::RestorePreviousRuntime);
            push_if(&mut steps, plan.candidate_has_checkout, RecoveryStep::RemoveCandidateRoot);
        },
    }
    proof {
        assert(seq![RecoveryStep::RemovePublishedArtifact] =~= step_if(true, RecoveryStep::RemovePublishedArtifact));
        assert(seq![RecoveryStep::ShutDownNewRuntime, RecoveryStep::RemovePublishedArtifact]
            =~= step_if(true, RecoveryStep::ShutDownNewRuntime) + step_if(true, RecoveryStep::RemovePublishedArtifact));
        assert(seq![RecoveryStep::RestoreMetadata] =~= step_if(true, RecoveryStep::RestoreMetadata));
        assert(steps@ =~= recovery_steps(plan, failure));
    }
    steps
}

/// The clean-up after a successful activation.
pub fn cleanup(plan: ActivationPlan) -> (r: Vec<RecoveryStep>)
    ensures
        r@ == cleanup_steps(plan),
{
    let mut steps: Vec<RecoveryStep> = Vec::new();
    push_if(&mut steps, plan.back_up_artifact, RecoveryStep::DiscardArtifactBackup);
    push_if(&mut steps, plan.back_up_checkout, RecoveryStep::DiscardCheckoutBackup);
    push_if(&mut steps, plan.candidate_has_checkout, RecoveryStep::RemoveCandidateRoot);
    assert(steps@ =~= cleanup_steps(plan));
    steps
}

proof fn lemma_concat_contains(a: Seq<RecoveryStep>, b: Seq<RecoveryStep>)
    ensures
        forall|x: RecoveryStep| #[trigger] (a + b).contains(x) == (a.contains(x) || b.contains(x)),
{
    assert forall|x: RecoveryStep| #[trigger] (a + b).contains(x) == (a.contains(x) || b.contains(x)) by {
        if a.contains(x) {
            let i = choose|i: int| 0 <= i < a.len() && a[i] == x;
            assert((a + b)[i] == x);
        }
        if b.contains(x) {
            let i = choose|i: int| 0 <= i < b.len() && b[i] == x;
            assert((a + b)[a.len() + i] == x);
        }
        if (a + b).contains(x) {
            let i = choose|i: int| 0 <= i < (a + b).len() && (a + b)[i] == x;
            if i < a.len() {
                assert(a[i] == x);
            } else {
                assert(b[i - a.len()] == x);
            }
        }
    }
}

proof fn lemma_step_if_contains(present: bool, step: RecoveryStep)
    ensures
        forall|x: RecoveryStep| #[trigger] step_if(present, step).contains(x) == (present && x == step),
{
    assert forall|x: RecoveryStep| #[trigger] step_if(present, step).contains(x) == (present && x == step) by {
        if present && x == step {
            assert(step_if(present, step)[0] == x);
        }
    }
}

proof fn lemma_single_contains(step: RecoveryStep)
    ensures
        forall|x: RecoveryStep| #[trigger] seq![step].contains(x) == (x == step),
{
    assert forall|x: RecoveryStep| #[trigger] seq![step].contains(x) == (x == step) by {
        if x == step {
            assert(seq![step][0] == x);
        }
    }
}

/// Whether the recovery from `failure` takes step `x`.
spec fn recovery_includes(plan: ActivationPlan, failure: ActivationFailure, x: RecoveryStep) -> bool {
    let artifact = x == RecoveryStep::RestoreArtifactBackup && plan.back_up_artifact;
    let checkout = x == RecoveryStep::RestoreCheckoutBackup && plan.back_up_checkout;
    let candidate = plan.candidate_has_checkout;
    match failure {
        ActivationFailure::StageCheckout => artifact,
        ActivationFailure::PublishCheckout => artifact || checkout,
        ActivationFailure::PublishArtifact => (x == RecoveryStep::ReturnCheckoutToCandidate && candidate) || checkout
            || artifact,
        ActivationFailure::Activate => x == RecoveryStep::RemovePublishedArtifact || artifact
            || (x == RecoveryStep::RemovePublishedCheckout && candidate) || checkout
            || (x == RecoveryStep::RestorePreviousRuntime && plan.restore_previous_runtime)
            || (x == RecoveryStep::RemoveCandidateRoot && candidate),
        ActivationFailure::Persist => x == RecoveryStep::ShutDownNewRuntime || x == RecoveryStep::RemovePublishedArtifact
            || artifact || (x == RecoveryStep::RemovePublishedCheckout && candidate) || checkout
            || x == RecoveryStep::RestoreMetadata
            || (x == RecoveryStep::RestorePreviousRuntime && plan.restore_previous_runtime)
            || (x == RecoveryStep::RemoveCandidateRoot && candidate),
    }
}

/// Whether the clean-up after success takes step `x`.
spec fn cleanup_includes(plan: ActivationPlan, x: RecoveryStep) -> bool {
    (x == RecoveryStep::DiscardArtifactBackup && plan.back_up_artifact)
        || (x == RecoveryStep::DiscardCheckoutBackup && plan.back_up_checkout)
        || (x == RecoveryStep::RemoveCandidateRoot && plan.candidate_has_checkout)
}

proof fn lemma_recovery_membership(plan: ActivationPlan, failure: ActivationFailure)
    ensures
        forall|x: RecoveryStep| #[trigger] recovery_steps(plan, failure).contains(x) == recovery_includes(plan, failure, x),
        forall|x: RecoveryStep| #[trigger] cleanup_steps(plan).contains(x) == cleanup_includes(plan, x),
{
    let artifact = step_if(plan.back_up_artifact, RecoveryStep::RestoreArtifactBackup);
    let checkout = step_if(plan.back_up_checkout, RecoveryStep::RestoreCheckoutBackup);
    let returned = step_if(plan.candidate_has_checkout, RecoveryStep::ReturnCheckoutToCandidate);
    let unpublished = step_if(plan.candidate_has_checkout, RecoveryStep::RemovePublishedCheckout);
    let previous = step_if(plan.restore_previous_runtime, RecoveryStep::RestorePreviousRuntime);
    let root = step_if(plan.candidate_has_checkout, RecoveryStep::RemoveCandidateRoot);
    lemma_step_if_contains(plan.back_up_artifact, RecoveryStep::RestoreArtifactBackup);
    lemma_step_if_contains(plan.back_up_checkout, RecoveryStep::RestoreCheckoutBackup);
    lemma_step_if_contains(plan.candidate_has_checkout, RecoveryStep::ReturnCheckoutToCandidate);
    lemma_step_if_contains(plan.candidate_has_checkout, RecoveryStep::RemovePublishedCheckout);
    lemma_step_if_contains(plan.restore_previous_runtime, RecoveryStep::RestorePreviousRuntime);
    lemma_step_if_contains(plan.candidate_has_checkout, RecoveryStep::RemoveCandidateRoot);
    lemma_single_contains(RecoveryStep::RemovePublishedArtifact);
    lemma_single_contains(RecoveryStep::RestoreMetadata);
    match failure {
        ActivationFailure::StageCheckout => {},
        ActivationFailure::PublishCheckout => {
            lemma_concat_contains(artifact, checkout);
        },
        ActivationFailure::PublishArtifact => {
            lemma_concat_contains(returned, checkout);
            lemma_concat_contains(returned + checkout, artifact);
        },
        ActivationFailure::Activate => {
            let first = seq![RecoveryStep::RemovePublishedArtifact];
            lemma_concat_contains(first, artifact);
            lemma_concat_contains(first + artifact, unpublished);
            lemma_concat_contains(first + artifact + unpublished, checkout);
            lemma_concat_contains(first + artifact + unpublished + checkout, previous);
            lemma_concat_contains(first + artifact + unpublished + checkout + previous, root);
        },
        ActivationFailure::Persist => {
            let first = seq![RecoveryStep::ShutDownNewRuntime, RecoveryStep::RemovePublishedArtifact];
            let metadata = seq![RecoveryStep::RestoreMetadata];
            assert forall|x: RecoveryStep| #[trigger] first.contains(x) == (x == RecoveryStep::ShutDownNewRuntime
                || x == RecoveryStep::RemovePublishedArtifact) by {
                if x == RecoveryStep::ShutDownNewRuntime {
                    assert(first[0] == x);
                }
                if x == RecoveryStep::RemovePublishedArtifact {
                    assert(first[1] == x);
                }
            }
            lemma_concat_contains(first, artifact);
            lemma_concat_contains(first + artifact, unpublished);
            lemma_concat_contains(first + artifact + unpublished, checkout);
            lemma_concat_contains(first + artifact + unpublished + checkout, metadata);
            lemma_concat_contains(first + artifact + unpublished + checkout + metadata, previous);
            lemma_concat_contains(first + artifact + unpublished + checkout + metadata + previous, root);
        },
    }
    let discard_artifact = step_if(plan.back_up_artifact, RecoveryStep::DiscardArtifactBackup);
    let discard_checkout = step_if(plan.back_up_checkout, RecoveryStep::DiscardCheckoutBackup);
    lemma_step_if_contains(plan.back_up_artifact, RecoveryStep::DiscardArtifactBackup);
    lemma_step_if_contains(plan.back_up_checkout, RecoveryStep::DiscardCheckoutBackup);
    lemma_concat_contains(discard_artifact, discard_checkout);
    lemma_concat_contains(discard_artifact + discard_checkout, root);
}

/// Whichever step of putting a managed referee in place fails, taking it
/// back restores the referee JAR that was in use exactly when it was
/// backed up, restores the checkout exactly when it was backed up (once the
/// failure came after it was moved aside), and discards no backup; the
/// clean-up after success restores nothing.
pub proof fn lemma_recovery_restores_backups(plan: ActivationPlan, failure: ActivationFailure)
    ensures
        recovery_steps(plan, failure).contains(RecoveryStep::RestoreArtifactBackup) == plan.back_up_artifact,
        failure != ActivationFailure::StageCheckout ==> recovery_steps(plan, failure).contains(
            RecoveryStep::RestoreCheckoutBackup,
        ) == plan.back_up_checkout,
        !recovery_steps(plan, failure).contains(RecoveryStep::DiscardArtifactBackup),
        !recovery_steps(plan, failure).contains(RecoveryStep::DiscardCheckoutBackup),
        !cleanup_steps(plan).contains(RecoveryStep::RestoreArtifactBackup),
        !cleanup_steps(plan).contains(RecoveryStep::RestoreCheckoutBackup),
{
    lemma_recovery_membership(plan, failure);
}

/// A failure once the new runtime was started (at activation or when
/// recording the result) is taken back by restarting the previous runtime
/// exactly when a previous configuration exists, after removing the
/// published JAR (and, at recording, after shutting the new runtime down
/// and restoring the metadata); a failure before that never restarts
/// anything, since the running runtime was not stopped.
pub proof fn lemma_recovery_restarts_previous_runtime(plan: ActivationPlan, failure: ActivationFailure)
    ensures
        (failure == ActivationFailure::Activate || failure == ActivationFailure::Persist) ==> {
            &&& recovery_steps(plan, failure).contains(RecoveryStep::RestorePreviousRuntime)
                == plan.restore_previous_runtime
            &&& recovery_steps(plan, failure).contains(RecoveryStep::RemovePublishedArtifact)
        },
        failure == ActivationFailure::Persist ==> {
            &&& recovery_steps(plan, failure).contains(RecoveryStep::ShutDownNewRuntime)
            &&& recovery_steps(plan, failure).contains(RecoveryStep::RestoreMetadata)
        },
        (failure != ActivationFailure::Activate && failure != ActivationFailure::Persist) ==> {
            &&& !recovery_steps(plan, failure).contains(RecoveryStep::RestorePreviousRuntime)
            &&& !recovery_steps(plan, failure).contains(RecoveryStep::ShutDownNewRuntime)
            &&& !recovery_steps(plan, failure).contains(RecoveryStep::RemovePublishedArtifact)
        },
        !cleanup_steps(plan).contains(RecoveryStep::RestorePreviousRuntime),
{
    lemma_recovery_membership(plan, failure);
}

/// The candidate's checkout is handled exactly when the candidate brought
/// one: a failure while publishing the JAR gives it back to the candidate; a
/// failure once the runtime was started removes the published checkout and
/// the candidate's directory; before that, neither happens.
pub proof fn lemma_recovery_handles_candidate_checkout(plan: ActivationPlan, failure: ActivationFailure)
    ensures
        recovery_steps(plan, failure).contains(RecoveryStep::ReturnCheckoutToCandidate) == (
            failure == ActivationFailure::PublishArtifact && plan.candidate_has_checkout),
        recovery_steps(plan, failure).contains(RecoveryStep::RemovePublishedCheckout) == (
            (failure == ActivationFailure::Activate || failure == ActivationFailure::Persist) && plan.candidate_has_checkout),
        recovery_steps(plan, failure).contains(RecoveryStep::RemoveCandidateRoot) == (
            (failure == ActivationFailure::Activate || failure == ActivationFailure::Persist) && plan.candidate_has_checkout),
        cleanup_steps(plan).contains(RecoveryStep::RemoveCandidateRoot) == plan.candidate_has_checkout,
{
    lemma_recovery_membership(plan, failure);
}

/// What applying a new arena configuration does.
#[derive(Clone, Copy, Debug, PartialEq, Eq, Structural)]
pub enum ApplyPlan {
    /// No configuration is stored yet: store the new one, then start the
    /// runtime with it; a failure to start is recorded, not returned.
    FirstActivation,
    /// The selected managed referee is not installed: store the new
    /// configuration and record that the referee must be installed first.
    AwaitInstallation,
    /// Check the prerequisites, stop the running runtime, start the new one
    /// and store its configuration.
    Replace,
}

/// The error recorded while the selected managed referee is not installed.
pub const REFEREE_NOT_INSTALLED: &'static str =
    "The selected managed referee is not installed; use Install referee or Replace referee";

/// How a new configuration is applied, given whether one is stored and,
/// where the configuration selects a managed referee, whether that referee
/// is installed.
pub fn apply_plan(has_stored_config: bool, selected_installed: Option<bool>) -> (r: ApplyPlan)
    ensures
        !has_stored_config ==> r == ApplyPlan::FirstActivation,
        has_stored_config && selected_installed == Some(false) ==> r == ApplyPlan::AwaitInstallation,
        has_stored_config && selected_installed != Some(false) ==> r == ApplyPlan::Replace,
{
    if !has_stored_config {
        ApplyPlan::FirstActivation
    } else {
        match selected_installed {
            Some(false) => ApplyPlan::AwaitInstallation,
            _ => ApplyPlan::Replace,
        }
    }
}

/// How a replacement ends.
#[derive(Clone, Copy, Debug, PartialEq, Eq, Structural)]
pub enum ReplaceOutcome {
    /// The new runtime runs and its configuration is stored.
    Activated,
    /// The new configuration could not be stored: the new runtime is shut
    /// down and the previous configuration started again.
    ShutDownAndRestore,
    /// The new runtime did not start: the previous configuration is started
    /// again.
    Restore,
}

/// How a replacement ends, given whether the new runtime started and
/// whether its configuration was then stored.
pub fn replace_outcome(started: bool, stored: bool) -> (r: ReplaceOutcome)
    ensures
        !started ==> r == ReplaceOutcome::Restore,
        started && !stored ==> r == ReplaceOutcome::ShutDownAndRestore,
        started && stored ==> r == ReplaceOutcome::Activated,
{
    if !started {
        ReplaceOutcome::Restore
    } else if !stored {
        ReplaceOutcome::ShutDownAndRestore
    } else {
        ReplaceOutcome::Activated
    }
}

} // verus!
