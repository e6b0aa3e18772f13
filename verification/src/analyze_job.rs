//! The job of analyzing a code base, and the slot that lets one run at a time.
//!
//! The slot holds at most one running job, `current`, and beside it at most one
//! job of an earlier run that has come to its end. A job runs until it is
//! completed with a result or failed with a message.

use crate::clock::now_nanos_u64;
use crate::handlers::analyze::{AnalyzeResult, AnalyzeResultModel};
use crate::json::opt_view;
use crate::text::{
    lemma_last_digits_injective, lemma_padded_is_last_digits, owned, padded, padded_text, pow10,
};
use vstd::prelude::*;

verus! {

/// What part of indexing a job is in.
#[derive(Clone, Copy, Debug, PartialEq, Eq, Structural)]
pub enum AnalyzePhase {
    /// Reading the cache from disk.
    LoadingCache,
    /// Finding source files.
    Discovering,
    /// Parsing source files.
    Parsing,
    /// Resolving edges between files.
    Resolving,
    /// Writing the cache to disk.
    Persisting,
    /// Done. A failed job stays in the phase that it failed in.
    Completed,
}

/// How far a job has come.
pub enum JobStatus {
    Running,
    Completed(AnalyzeResult),
    Failed(String),
}

/// What a [`JobStatus`] stands for.
pub enum JobStatusModel {
    Running,
    Completed(AnalyzeResultModel),
    Failed(Seq<char>),
}

impl View for JobStatus {
    type V = JobStatusModel;

    open spec fn view(&self) -> JobStatusModel {
        match self {
            JobStatus::Running => JobStatusModel::Running,
            JobStatus::Completed(r) => JobStatusModel::Completed(r@),
            JobStatus::Failed(m) => JobStatusModel::Failed(m@),
        }
    }
}

/// What changes of a job while it runs.
pub struct JobMutableState {
    pub status: JobStatus,
    pub finished_at: Option<u64>,
    pub progress: u32,
    pub progress_total: u32,
    pub progress_message: String,
    pub current_phase: Option<AnalyzePhase>,
}

/// What a [`JobMutableState`] stands for.
pub struct JobStateModel {
    pub status: JobStatusModel,
    pub finished_at: Option<u64>,
    pub progress: u32,
    pub progress_total: u32,
    pub progress_message: Seq<char>,
    pub current_phase: Option<AnalyzePhase>,
}

impl View for JobMutableState {
    type V = JobStateModel;

    open spec fn view(&self) -> JobStateModel {
        JobStateModel {
            status: self.status@,
            finished_at: self.finished_at,
            progress: self.progress,
            progress_total: self.progress_total,
            progress_message: self.progress_message@,
            current_phase: self.current_phase,
        }
    }
}

impl JobStateModel {
    /// Whether the job has come to its end.
    pub open spec fn terminal(self) -> bool {
        !(self.status is Running)
    }

    /// A job has a time of finishing exactly when it has come to its end.
    pub open spec fn wf(self) -> bool {
        self.terminal() <==> self.finished_at is Some
    }
}

/// The state of a job that has just begun.
pub open spec fn fresh_state() -> JobStateModel {
    JobStateModel {
        status: JobStatusModel::Running,
        finished_at: None,
        progress: 0,
        progress_total: 0,
        progress_message: seq![],
        current_phase: None,
    }
}

impl Default for JobMutableState {
    fn default() -> (r: Self)
        ensures
            r@ == fresh_state(),
    {
        let none = String::new();
        assert(none@ =~= seq![]);
        JobMutableState {
            status: JobStatus::Running,
            finished_at: None,
            progress: 0,
            progress_total: 0,
            progress_message: none,
            current_phase: None,
        }
    }
}

impl JobMutableState {
    /// Whether the job has come to its end.
    pub fn is_terminal(&self) -> (r: bool)
        ensures
            r == self@.terminal(),
    {
        match self.status {
            JobStatus::Running => false,
            JobStatus::Completed(_) => true,
            JobStatus::Failed(_) => true,
        }
    }
}

/// A job of analyzing.
pub struct AnalyzeJob {
    pub job_id: String,
    pub path: String,
    pub force: bool,
    pub started_at: u64,
    pub state: JobMutableState,
}

/// What an [`AnalyzeJob`] stands for.
pub struct JobModel {
    pub job_id: Seq<char>,
    pub path: Seq<char>,
    pub force: bool,
    pub started_at: u64,
    pub state: JobStateModel,
}

impl View for AnalyzeJob {
    type V = JobModel;

    open spec fn view(&self) -> JobModel {
        JobModel {
            job_id: self.job_id@,
            path: self.path@,
            force: self.force,
            started_at: self.started_at,
            state: self.state@,
        }
    }
}

/// What a job says of its progress in a phase.
pub open spec fn phase_message(phase: AnalyzePhase) -> Seq<char> {
    match phase {
        AnalyzePhase::LoadingCache => "Loading cache from disk"@,
        AnalyzePhase::Discovering => "Discovering source files"@,
        AnalyzePhase::Parsing => "Parsing source files"@,
        AnalyzePhase::Resolving => "Resolving cross-file edges"@,
        AnalyzePhase::Persisting => "Persisting cache to disk"@,
        AnalyzePhase::Completed => "Analyze complete"@,
    }
}

/// A job's state at the beginning of a phase. Progress starts over. The total
/// is kept for the phases that go through the same files; the others are one
/// task, which is done when the job is.
pub open spec fn entered_phase(s: JobStateModel, phase: AnalyzePhase) -> JobStateModel {
    JobStateModel {
        current_phase: Some(phase),
        progress: if phase is Completed {
            1
        } else {
            0
        },
        progress_total: match phase {
            AnalyzePhase::LoadingCache | AnalyzePhase::Persisting | AnalyzePhase::Completed => 1,
            _ => s.progress_total,
        },
        progress_message: phase_message(phase),
        ..s
    }
}

/// A job's state after a report of progress.
pub open spec fn progressed(
    s: JobStateModel,
    progress: u32,
    total: u32,
    message: Seq<char>,
) -> JobStateModel {
    JobStateModel { progress, progress_total: total, progress_message: message, ..s }
}

/// A job's state once it is completed: it is in the last phase at the same time.
/// What was last reported of its progress stays.
pub open spec fn completed_state(s: JobStateModel, result: AnalyzeResultModel, now: u64) -> JobStateModel {
    JobStateModel {
        status: JobStatusModel::Completed(result),
        finished_at: Some(now),
        current_phase: Some(AnalyzePhase::Completed),
        ..s
    }
}

/// A job's state once it has failed. It stays in its phase.
pub open spec fn failed_state(s: JobStateModel, msg: Seq<char>, now: u64) -> JobStateModel {
    JobStateModel { status: JobStatusModel::Failed(msg), finished_at: Some(now), ..s }
}

/// A job that begins at a time.
pub open spec fn running_job(job_id: Seq<char>, path: Seq<char>, force: bool, started_at: u64) -> JobModel {
    JobModel { job_id, path, force, started_at, state: fresh_state() }
}

impl AnalyzeJob {
    /// A job that begins at a time.
    pub fn new_running(job_id: String, path: String, force: bool, started_at: u64) -> (r: Self)
        ensures
            r@ == running_job(job_id@, path@, force, started_at),
    {
        AnalyzeJob { job_id, path, force, started_at, state: JobMutableState::default() }
    }

    /// Begins a phase.
    pub fn set_phase(&mut self, phase: AnalyzePhase)
        ensures
            final(self)@ == (JobModel { state: entered_phase(old(self)@.state, phase), ..old(self)@ }),
    {
        self.state.current_phase = Some(phase);
        self.state.progress = 0;
        match phase {
            AnalyzePhase::LoadingCache => {
                self.state.progress_total = 1;
                self.state.progress_message = owned("Loading cache from disk");
            },
            AnalyzePhase::Discovering => {
                self.state.progress_message = owned("Discovering source files");
            },
            AnalyzePhase::Parsing => {
                self.state.progress_message = owned("Parsing source files");
            },
            AnalyzePhase::Resolving => {
                self.state.progress_message = owned("Resolving cross-file edges");
            },
            AnalyzePhase::Persisting => {
                self.state.progress_total = 1;
                self.state.progress_message = owned("Persisting cache to disk");
            },
            AnalyzePhase::Completed => {
                self.state.progress = 1;
                self.state.progress_total = 1;
                self.state.progress_message = owned("Analyze complete");
            },
        }
    }

    /// Notes a report of progress.
    pub fn record_progress(&mut self, progress: u32, total: u32, message: &str)
        ensures
            final(self)@ == (JobModel {
                state: progressed(old(self)@.state, progress, total, message@),
                ..old(self)@
            }),
    {
        self.state.progress = progress;
        self.state.progress_total = total;
        self.state.progress_message = owned(message);
    }

    /// Completes the job at a time.
    pub fn complete_at(&mut self, result: AnalyzeResult, now: u64)
        ensures
            final(self)@ == (JobModel {
                state: completed_state(old(self)@.state, result@, now),
                ..old(self)@
            }),
    {
        self.state.current_phase = Some(AnalyzePhase::Completed);
        self.state.status = JobStatus::Completed(result);
        self.state.finished_at = Some(now);
    }

    /// Fails the job at a time.
    pub fn fail_at(&mut self, msg: String, now: u64)
        ensures
            final(self)@ == (JobModel {
                state: failed_state(old(self)@.state, msg@, now),
                ..old(self)@
            }),
    {
        self.state.status = JobStatus::Failed(msg);
        self.state.finished_at = Some(now);
    }
}

/// Completes a job now.
pub fn finish_completed(job: &mut AnalyzeJob, result: AnalyzeResult)
    ensures
        exists|now: u64|
            final(job)@ == (JobModel {
                state: #[trigger] completed_state(old(job)@.state, result@, now),
                ..old(job)@
            }),
{
    let now: u64 = now_nanos_u64();
    job.complete_at(result, now);
    assert(final(job)@.state == completed_state(old(job)@.state, result@, now));
}

/// Fails a job now.
pub fn finish_failed(job: &mut AnalyzeJob, msg: String)
    ensures
        exists|now: u64|
            final(job)@ == (JobModel {
                state: #[trigger] failed_state(old(job)@.state, msg@, now),
                ..old(job)@
            }),
{
    let now: u64 = now_nanos_u64();
    job.fail_at(msg, now);
    assert(final(job)@.state == failed_state(old(job)@.state, msg@, now));
}

// ----- the slot -----

/// The place of the job that runs or ran last, and of one before it.
pub struct AnalyzeSlot {
    pub current: Option<AnalyzeJob>,
    pub previous_terminal: Option<AnalyzeJob>,
}

/// What an [`AnalyzeSlot`] stands for.
pub struct SlotModel {
    pub current: Option<JobModel>,
    pub previous_terminal: Option<JobModel>,
}

impl View for AnalyzeSlot {
    type V = SlotModel;

    open spec fn view(&self) -> SlotModel {
        SlotModel {
            current: opt_view(self.current),
            previous_terminal: opt_view(self.previous_terminal),
        }
    }
}

impl SlotModel {
    /// Whether a job is running.
    pub open spec fn busy(self) -> bool {
        self.current is Some && !self.current->0.state.terminal()
    }

    /// The earlier job has come to its end, and both jobs have a time of
    /// finishing exactly when they have.
    pub open spec fn wf(self) -> bool {
        &&& self.current is Some ==> self.current->0.state.wf()
        &&& self.previous_terminal is Some ==> self.previous_terminal->0.state.wf()
            && self.previous_terminal->0.state.terminal()
    }
}

/// The slot before any job.
pub open spec fn empty_slot() -> SlotModel {
    SlotModel { current: None, previous_terminal: None }
}

impl Default for AnalyzeSlot {
    fn default() -> (r: Self)
        ensures
            r@ == empty_slot(),
    {
        AnalyzeSlot { current: None, previous_terminal: None }
    }
}

impl AnalyzeSlot {
    /// Whether a job is running.
    pub fn is_busy(&self) -> (r: bool)
        ensures
            r == self@.busy(),
    {
        match &self.current {
            Some(job) => !job.state.is_terminal(),
            None => false,
        }
    }
}

/// The id of a job that begins at a time: the time in nanoseconds with twenty
/// digits.
pub open spec fn job_id_at(started_at: u64) -> Seq<char> {
    padded(started_at as nat, 20)
}

/// The slot with a new job that begins at a time. The job before it becomes the
/// earlier one.
pub open spec fn installed(s: SlotModel, path: Seq<char>, force: bool, started_at: u64) -> SlotModel {
    SlotModel {
        current: Some(running_job(job_id_at(started_at), path, force, started_at)),
        previous_terminal: if s.current is Some {
            s.current
        } else {
            s.previous_terminal
        },
    }
}

/// Puts a new job that begins at a time into the slot. The job before it
/// becomes the earlier one.
pub fn install_running_at(slot: &mut AnalyzeSlot, path: String, force: bool, started_at: u64)
    ensures
        final(slot)@ == installed(old(slot)@, path@, force, started_at),
{
    let job_id = padded_text(started_at, 20);
    let job = AnalyzeJob::new_running(job_id, path, force, started_at);
    let prev = slot.current.take();
    if prev.is_some() {
        slot.previous_terminal = prev;
    }
    slot.current = Some(job);
}

/// Puts a new job that begins now into the slot. The job before it becomes the
/// earlier one.
pub fn install_new_running(slot: &mut AnalyzeSlot, path: String, force: bool)
    ensures
        exists|started_at: u64|
            final(slot)@ == #[trigger] installed(old(slot)@, path@, force, started_at),
{
    let started_at: u64 = now_nanos_u64();
    install_running_at(slot, path, force, started_at);
    assert(final(slot)@ == installed(old(slot)@, path@, force, started_at));
}

// ----- laws -----

/// A new job keeps the slot in order, as long as none is running.
pub proof fn lemma_install_keeps_slot(s: SlotModel, path: Seq<char>, force: bool, started_at: u64)
    requires
        s.wf(),
        !s.busy(),
    ensures
        installed(s, path, force, started_at).wf(),
        installed(s, path, force, started_at).busy(),
{
}

/// What happens to the running job keeps the slot in order; coming to its end
/// makes the slot free.
pub proof fn lemma_job_steps_keep_slot(
    s: SlotModel,
    phase: AnalyzePhase,
    progress: u32,
    total: u32,
    message: Seq<char>,
    result: AnalyzeResultModel,
    now: u64,
)
    requires
        s.wf(),
        s.current is Some,
    ensures
        ({
            let job = s.current->0;
            let with = |state: JobStateModel|
                SlotModel { current: Some(JobModel { state, ..job }), ..s };
            &&& with(entered_phase(job.state, phase)).wf()
            &&& with(entered_phase(job.state, phase)).busy() == s.busy()
            &&& with(progressed(job.state, progress, total, message)).wf()
            &&& with(progressed(job.state, progress, total, message)).busy() == s.busy()
            &&& with(completed_state(job.state, result, now)).wf()
            &&& !with(completed_state(job.state, result, now)).busy()
            &&& with(failed_state(job.state, message, now)).wf()
            &&& !with(failed_state(job.state, message, now)).busy()
        }),
{
}

/// A completed job is in the last phase; a failed one is in the phase that it
/// failed in. Either way its progress is the last that was reported.
pub proof fn lemma_end_phases(s: JobStateModel, result: AnalyzeResultModel, msg: Seq<char>, now: u64)
    ensures
        completed_state(s, result, now).current_phase == Some(AnalyzePhase::Completed),
        failed_state(s, msg, now).current_phase == s.current_phase,
        ({
            let done = completed_state(s, result, now);
            let failed = failed_state(s, msg, now);
            &&& done.progress == s.progress && failed.progress == s.progress
            &&& done.progress_total == s.progress_total && failed.progress_total
                == s.progress_total
            &&& done.progress_message == s.progress_message && failed.progress_message
                == s.progress_message
        }),
{
}

/// The id of a job has twenty characters, and jobs that begin at different
/// times have different ids.
pub proof fn lemma_job_ids(a: u64, b: u64)
    ensures
        job_id_at(a).len() == 20,
        job_id_at(a) == job_id_at(b) ==> a == b,
{
    assert(pow10(20) > u64::MAX) by {
        reveal_with_fuel(pow10, 21);
    }
    lemma_padded_is_last_digits(a as nat, 20);
    lemma_padded_is_last_digits(b as nat, 20);
    if job_id_at(a) == job_id_at(b) {
        lemma_last_digits_injective(a as nat, b as nat, 20);
    }
}

} // verus!
