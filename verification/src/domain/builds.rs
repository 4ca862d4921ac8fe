use vstd::prelude::*;
use crate::domain::ids::BotId;
use crate::domain::names::WorkerName;

verus! {

/// How a finished build ended.
#[derive(Debug, Clone)]
pub enum BuildResult {
    Success,
    Failure { stderr: String },
}

/// Progress of building one bot on one worker.
#[derive(Debug, Clone)]
pub enum BuildStatus {
    Pending,
    Running,
    Finished(BuildResult),
}

/// The build of a bot on a worker: `Pending`, then `Running`, then
/// `Finished`; `reset` starts over.
#[derive(Debug, Clone)]
pub struct Build {
    pub bot_id: BotId,
    pub worker_name: WorkerName,
    pub status: BuildStatus,
}

impl Build {
    pub fn new(bot_id: BotId, worker_name: WorkerName) -> (r: Build)
        ensures
            r.bot_id == bot_id,
            r.worker_name == worker_name,
            r.status is Pending,
    {
        Build { bot_id, worker_name, status: BuildStatus::Pending }
    }

    /// Queues the build again.
    pub fn reset(&mut self)
        ensures
            final(self).status is Pending,
            final(self).bot_id == old(self).bot_id,
            final(self).worker_name == old(self).worker_name,
    {
        self.status = BuildStatus::Pending;
    }

    /// Starts a pending build.
    pub fn make_running(&mut self)
        requires
            old(self).status is Pending,
        ensures
            final(self).status is Running,
            final(self).bot_id == old(self).bot_id,
            final(self).worker_name == old(self).worker_name,
    {
        self.status = BuildStatus::Running;
    }

    /// Records the result of a running build.
    pub fn make_finished(&mut self, result: BuildResult)
        requires
            old(self).status is Running,
        ensures
            final(self).status == BuildStatus::Finished(result),
            final(self).bot_id == old(self).bot_id,
            final(self).worker_name == old(self).worker_name,
    {
        self.status = BuildStatus::Finished(result);
    }

    pub fn is_pending(&self) -> (r: bool)
        ensures
            r == self.status is Pending,
    {
        matches!(self.status, BuildStatus::Pending)
    }

    pub fn is_running(&self) -> (r: bool)
        ensures
            r == self.status is Running,
    {
        matches!(self.status, BuildStatus::Running)
    }

    pub fn was_finished_successfully(&self) -> (r: bool)
        ensures
            r == (self.status matches BuildStatus::Finished(BuildResult::Success)),
    {
        matches!(self.status, BuildStatus::Finished(BuildResult::Success))
    }
}

} // verus!
