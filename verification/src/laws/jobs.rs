//! What is told of jobs of analyzing, and what becomes of them.

use crate::analyze_job::{
    completed_state, entered_phase, failed_state, installed, progressed, AnalyzePhase, JobModel,
    JobStateModel, JobStatusModel, SlotModel,
};
use crate::calendar::rfc3339;
use crate::handlers::analyze::{
    kicked_off, kickoff_of, refusal, terminal_reply, AnalyzeResult, AnalyzeResultModel,
    AsyncKickoffResponse,
};
use crate::handlers::status::{
    job_view, status_of, status_reply, AnalyzeJobView, ServerFacts, StatusResult,
};
use crate::json::{jsons, render, JsonModel, ToJson};
use crate::reply::ReplyModel;
use crate::text::padded;
use vstd::prelude::*;

verus! {

/// The result of a job as JSON. Warnings are left out where there are none.
pub open spec fn result_object(r: AnalyzeResultModel) -> JsonModel {
    JsonModel::Object(
        seq![
            ("files"@, JsonModel::Number(r.files as nat)),
            ("symbols"@, JsonModel::Number(r.symbols as nat)),
            ("edges"@, JsonModel::Number(r.edges as nat)),
            ("root_path"@, JsonModel::Text(r.root_path)),
        ] + if r.warnings.len() == 0 {
            seq![]
        } else {
            seq![
                (
                    "warnings"@,
                    JsonModel::Array(r.warnings.map_values(|w: Seq<char>| JsonModel::Text(w))),
                ),
            ]
        },
    )
}

/// A job as JSON: what was asked, when it began and ended, how far it is, and
/// what it came to.
pub open spec fn job_object(job: JobModel) -> JsonModel {
    let s = job.state;
    JsonModel::Object(
        seq![
            ("job_id"@, JsonModel::Text(job.job_id)),
            (
                "status"@,
                JsonModel::Text(
                    match s.status {
                        JobStatusModel::Running => "running"@,
                        JobStatusModel::Completed(_) => "completed"@,
                        JobStatusModel::Failed(_) => "failed"@,
                    },
                ),
            ),
            ("path"@, JsonModel::Text(job.path)),
            ("force"@, JsonModel::Bool(job.force)),
            ("started_at"@, JsonModel::Text(rfc3339(job.started_at as nat))),
            (
                "finished_at"@,
                match s.finished_at {
                    Some(t) => JsonModel::Text(rfc3339(t as nat)),
                    None => JsonModel::Null,
                },
            ),
            ("progress"@, JsonModel::Number(s.progress as nat)),
            ("progress_total"@, JsonModel::Number(s.progress_total as nat)),
            ("progress_message"@, JsonModel::Text(s.progress_message)),
            (
                "current_phase"@,
                match s.current_phase {
                    None => JsonModel::Null,
                    Some(AnalyzePhase::LoadingCache) => JsonModel::Text("loading_cache"@),
                    Some(AnalyzePhase::Discovering) => JsonModel::Text("discovering"@),
                    Some(AnalyzePhase::Parsing) => JsonModel::Text("parsing"@),
                    Some(AnalyzePhase::Resolving) => JsonModel::Text("resolving"@),
                    Some(AnalyzePhase::Persisting) => JsonModel::Text("persisting"@),
                    Some(AnalyzePhase::Completed) => JsonModel::Text("completed"@),
                },
            ),
            (
                "error"@,
                match s.status {
                    JobStatusModel::Failed(msg) => JsonModel::Text(msg),
                    _ => JsonModel::Null,
                },
            ),
            (
                "result"@,
                match s.status {
                    JobStatusModel::Completed(r) => result_object(r),
                    _ => JsonModel::Null,
                },
            ),
        ],
    )
}

/// A job as JSON, or null where there is none.
pub open spec fn job_json(job: Option<JobModel>) -> JsonModel {
    match job {
        Some(j) => job_object(j),
        None => JsonModel::Null,
    }
}

/// A request for the state of the server is answered with what the server knows
/// of itself and of its index, with the job that it has, and with the one before.
/// What is not there is null: the time of an index that was never built, and
/// whether one was built from scratch while there is none.
pub proof fn lemma_status_told(facts: ServerFacts, slot: SlotModel)
    ensures
        ({
            let r = status_reply(facts, slot);
            !r.is_error && r.text == render(
                JsonModel::Object(
                    seq![
                        ("binary_version"@, JsonModel::Text(facts.binary_version@)),
                        ("package_version"@, JsonModel::Text(facts.package_version@)),
                        ("release_build"@, JsonModel::Bool(facts.release_build)),
                        (
                            "config_path"@,
                            match facts.config_path {
                                Some(p) => JsonModel::Text(p@),
                                None => JsonModel::Null,
                            },
                        ),
                        (
                            "config_macro_strip_count"@,
                            JsonModel::Number(facts.macro_strip_count as nat),
                        ),
                        (
                            "config_macro_strip_with_args_count"@,
                            JsonModel::Number(facts.macro_strip_with_args_count as nat),
                        ),
                        ("indexed"@, JsonModel::Bool(facts.indexed)),
                        (
                            "indexed_root"@,
                            match facts.indexed_root {
                                Some(p) => JsonModel::Text(p@),
                                None => JsonModel::Null,
                            },
                        ),
                        ("index_files"@, JsonModel::Number(facts.stats.files as nat)),
                        ("index_symbols"@, JsonModel::Number(facts.stats.nodes as nat)),
                        ("index_edges"@, JsonModel::Number(facts.stats.edges as nat)),
                        (
                            "index_built_at"@,
                            if facts.built_at_nanos == 0 {
                                JsonModel::Null
                            } else {
                                JsonModel::Text(rfc3339(facts.built_at_nanos as nat))
                            },
                        ),
                        (
                            "index_force_built"@,
                            if facts.indexed {
                                JsonModel::Bool(facts.force_built)
                            } else {
                                JsonModel::Null
                            },
                        ),
                        ("analyze_job"@, job_json(slot.current)),
                        ("analyze_job_previous_terminal"@, job_json(slot.previous_terminal)),
                    ],
                ),
            )
        }),
{
    let shown = StatusResult::json_of(status_of(facts, slot))->Object_0;
    if slot.current is Some {
        lemma_job_shown(slot.current->0);
    }
    if slot.previous_terminal is Some {
        lemma_job_shown(slot.previous_terminal->0);
    }
    assert(shown[13].1 == job_json(slot.current));
    assert(shown[14].1 == job_json(slot.previous_terminal));
    assert(shown =~= seq![
        ("binary_version"@, JsonModel::Text(facts.binary_version@)),
        ("package_version"@, JsonModel::Text(facts.package_version@)),
        ("release_build"@, JsonModel::Bool(facts.release_build)),
        (
            "config_path"@,
            match facts.config_path {
                Some(p) => JsonModel::Text(p@),
                None => JsonModel::Null,
            },
        ),
        ("config_macro_strip_count"@, JsonModel::Number(facts.macro_strip_count as nat)),
        (
            "config_macro_strip_with_args_count"@,
            JsonModel::Number(facts.macro_strip_with_args_count as nat),
        ),
        ("indexed"@, JsonModel::Bool(facts.indexed)),
        (
            "indexed_root"@,
            match facts.indexed_root {
                Some(p) => JsonModel::Text(p@),
                None => JsonModel::Null,
            },
        ),
        ("index_files"@, JsonModel::Number(facts.stats.files as nat)),
        ("index_symbols"@, JsonModel::Number(facts.stats.nodes as nat)),
        ("index_edges"@, JsonModel::Number(facts.stats.edges as nat)),
        (
            "index_built_at"@,
            if facts.built_at_nanos == 0 {
                JsonModel::Null
            } else {
                JsonModel::Text(rfc3339(facts.built_at_nanos as nat))
            },
        ),
        (
            "index_force_built"@,
            if facts.indexed {
                JsonModel::Bool(facts.force_built)
            } else {
                JsonModel::Null
            },
        ),
        ("analyze_job"@, job_json(slot.current)),
        ("analyze_job_previous_terminal"@, job_json(slot.previous_terminal)),
    ]);
}

/// A job is shown with all of this.
pub proof fn lemma_job_shown(job: JobModel)
    ensures
        AnalyzeJobView::json_of(job_view(job)) == job_object(job),
{
    match job.state.status {
        JobStatusModel::Completed(r) => {
            lemma_result_shown(r);
        },
        _ => {},
    }
    assert(AnalyzeJobView::json_of(job_view(job))->Object_0 =~= job_object(job)->Object_0);
}

/// A result is shown with all of this.
pub proof fn lemma_result_shown(r: AnalyzeResultModel)
    ensures
        AnalyzeResult::json_of(r) == result_object(r),
{
    assert(jsons::<String>(r.warnings) =~= r.warnings.map_values(
        |w: Seq<char>| JsonModel::Text(w),
    ));
    assert(AnalyzeResult::json_of(r)->Object_0 =~= result_object(r)->Object_0);
}

/// A job that has come to its end is answered with its result, or with why it
/// failed as an error.
pub proof fn lemma_end_told(status: JobStatusModel)
    requires
        !(status is Running),
    ensures
        status is Completed ==> !terminal_reply(status).is_error && terminal_reply(status).text
            == render(result_object(status->Completed_0)),
        status is Failed ==> terminal_reply(status).is_error && terminal_reply(status).text
            == status->Failed_0,
{
    match status {
        JobStatusModel::Completed(r) => {
            lemma_result_shown(r);
        },
        _ => {},
    }
}

/// Whether a slot has a job that runs.
pub open spec fn runs(slot: SlotModel) -> bool {
    slot.current is Some && slot.current->0.state.status is Running
}

/// Whether a job has just begun, as it was asked for.
pub open spec fn just_begun(job: JobModel, path: Seq<char>, force: bool, now: u64) -> bool {
    &&& job.job_id == padded(now as nat, 20)
    &&& job.path == path
    &&& job.force == force
    &&& job.started_at == now
    &&& job.state.status is Running
    &&& job.state.finished_at is None
    &&& job.state.progress == 0
    &&& job.state.progress_total == 0
    &&& job.state.progress_message.len() == 0
    &&& job.state.current_phase is None
}

/// A request to analyze is refused without a path, and while a job runs. Else
/// the slot has the new job, as it was asked for, and the job before it as the
/// earlier one; where there was none the earlier one stays.
pub proof fn lemma_job_let_in(slot: SlotModel, path: Seq<char>, force: bool, now: u64)
    ensures
        refusal(slot, path) is Some <==> path.len() == 0 || runs(slot),
        path.len() == 0 ==> refusal(slot, path) == Some("'path' is required"@),
        path.len() > 0 && runs(slot) ==> refusal(slot, path) == Some(
            "indexing already in progress"@,
        ),
        installed(slot, path, force, now).current is Some,
        just_begun(installed(slot, path, force, now).current->0, path, force, now),
        slot.current is Some ==> installed(slot, path, force, now).previous_terminal
            == slot.current,
        slot.current is None ==> installed(slot, path, force, now).previous_terminal
            == slot.previous_terminal,
{
}

/// What the start of a job is told as.
pub open spec fn start_object(job: JobModel, existing: bool) -> JsonModel {
    JsonModel::Object(
        seq![
            ("job_id"@, JsonModel::Text(job.job_id)),
            ("status"@, JsonModel::Text("running"@)),
            ("started_at"@, JsonModel::Text(rfc3339(job.started_at as nat))),
            ("existing"@, JsonModel::Bool(existing)),
            (
                "note"@,
                JsonModel::Text(
                    if existing {
                        "analyze already in progress \u{2014} args ignored; poll get_status for progress"@
                    } else {
                        "analyze kicked off \u{2014} poll get_status for progress and the terminal result"@
                    },
                ),
            ),
        ],
    )
}

/// A request to start a job is refused without a path. While a job runs, that one
/// is told of and stays. Else the slot has the new job, as it was asked for, which
/// is told of and is to be run.
pub proof fn lemma_job_started(
    before: SlotModel,
    after: SlotModel,
    path: Seq<char>,
    force: bool,
    now: u64,
    reply: ReplyModel,
    started: bool,
)
    requires
        kicked_off(before, after, path, force, now, reply, started),
    ensures
        started <==> path.len() > 0 && !runs(before),
        !started ==> after == before,
        reply.is_error <==> path.len() == 0,
        path.len() == 0 ==> reply.text == "'path' is required"@,
        path.len() > 0 && runs(before) ==> reply.text == render(
            start_object(before.current->0, true),
        ),
        started ==> after.current is Some && just_begun(after.current->0, path, force, now),
        started ==> reply.text == render(start_object(after.current->0, false)),
        started && before.current is Some ==> after.previous_terminal == before.current,
        started && before.current is None ==> after.previous_terminal == before.previous_terminal,
{
    let job = if started {
        after.current->0
    } else {
        before.current->0
    };
    let existing = !started;
    assert(AsyncKickoffResponse::json_of(kickoff_of(job, existing))->Object_0
        =~= start_object(job, existing)->Object_0);
}

/// A job that enters a phase counts from the beginning, and says which phase it
/// is in; nothing else of it changes. Loading and saving the cache are one task
/// each; the other phases keep the number of files.
pub proof fn lemma_phase_entered(s: JobStateModel, phase: AnalyzePhase)
    ensures
        ({
            let t = entered_phase(s, phase);
            &&& t.current_phase == Some(phase)
            &&& t.status == s.status
            &&& t.finished_at == s.finished_at
            &&& !(phase is Completed) ==> t.progress == 0
            &&& phase is LoadingCache || phase is Persisting ==> t.progress_total == 1
            &&& phase is Discovering || phase is Parsing || phase is Resolving ==> t.progress_total
                == s.progress_total
            &&& phase is Completed ==> t.progress == 1 && t.progress_total == 1
            &&& phase is LoadingCache ==> t.progress_message == "Loading cache from disk"@
            &&& phase is Discovering ==> t.progress_message == "Discovering source files"@
            &&& phase is Parsing ==> t.progress_message == "Parsing source files"@
            &&& phase is Resolving ==> t.progress_message == "Resolving cross-file edges"@
            &&& phase is Persisting ==> t.progress_message == "Persisting cache to disk"@
            &&& phase is Completed ==> t.progress_message == "Analyze complete"@
        }),
{
}

/// A report is noted as it comes, and an end as it is; a job that is completed is
/// in its last phase, one that failed stays in the one it was in, and neither
/// forgets what was last reported.
pub proof fn lemma_reports_and_ends_noted(
    s: JobStateModel,
    progress: u32,
    total: u32,
    message: Seq<char>,
    result: AnalyzeResultModel,
    now: u64,
)
    ensures
        ({
            let t = progressed(s, progress, total, message);
            &&& t.progress == progress && t.progress_total == total && t.progress_message == message
            &&& t.status == s.status && t.finished_at == s.finished_at && t.current_phase
                == s.current_phase
        }),
        ({
            let t = completed_state(s, result, now);
            &&& t.status == JobStatusModel::Completed(result) && t.finished_at == Some(now)
            &&& t.current_phase == Some(AnalyzePhase::Completed)
            &&& t.progress == s.progress && t.progress_total == s.progress_total
                && t.progress_message == s.progress_message
        }),
        ({
            let t = failed_state(s, message, now);
            &&& t.status == JobStatusModel::Failed(message) && t.finished_at == Some(now)
            &&& t.current_phase == s.current_phase
            &&& t.progress == s.progress && t.progress_total == s.progress_total
                && t.progress_message == s.progress_message
        }),
{
}

} // verus!
