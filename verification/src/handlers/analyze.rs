//! Analyzing a code base: how a job is let in, what it decides on its way, and
//! what it answers.

use crate::json::{
    array_of, jsons, member_models, no_members, number, object, put, render, text, Json, JsonModel,
    ToJson,
};
use crate::analyze_job::{
    install_running_at, installed, AnalyzeJob, AnalyzeSlot, JobModel, JobStatus, JobStatusModel,
    SlotModel,
};
use crate::calendar::{format_unix_nanos_rfc3339, rfc3339};
use crate::reply::{failure, success, tool_error, tool_success_json, ReplyModel, ToolReply};
use crate::sort::views;
use crate::page::{lemma_key_size, lemma_members_step, lemma_quoted_size};
use crate::text::{lemma_size_ascii, lemma_size_concat, padded_text, size};
use vstd::prelude::*;

pub use crate::analyze_job::{finish_completed, finish_failed, install_new_running};
pub use crate::clock::now_nanos_u64;

verus! {

/// What an analysis found.
#[derive(Debug, Clone)]
pub struct AnalyzeResult {
    pub files: u32,
    pub symbols: u32,
    pub edges: u32,
    pub root_path: String,
    pub warnings: Vec<String>,
}

/// What an [`AnalyzeResult`] stands for.
pub struct AnalyzeResultModel {
    pub files: u32,
    pub symbols: u32,
    pub edges: u32,
    pub root_path: Seq<char>,
    pub warnings: Seq<Seq<char>>,
}

impl View for AnalyzeResult {
    type V = AnalyzeResultModel;

    open spec fn view(&self) -> AnalyzeResultModel {
        AnalyzeResultModel {
            files: self.files,
            symbols: self.symbols,
            edges: self.edges,
            root_path: self.root_path@,
            warnings: views(self.warnings@),
        }
    }
}

/// Warnings are left out where there are none.
impl ToJson for AnalyzeResult {
    open spec fn json_of(v: AnalyzeResultModel) -> JsonModel {
        let always = seq![
            ("files"@, JsonModel::Number(v.files as nat)),
            ("symbols"@, JsonModel::Number(v.symbols as nat)),
            ("edges"@, JsonModel::Number(v.edges as nat)),
            ("root_path"@, JsonModel::Text(v.root_path)),
        ];
        JsonModel::Object(
            if v.warnings.len() == 0 {
                always
            } else {
                always.push(("warnings"@, JsonModel::Array(jsons::<String>(v.warnings))))
            },
        )
    }

    fn to_json(&self) -> (r: Json) {
        let mut m = no_members();
        put(&mut m, "files", number(self.files));
        put(&mut m, "symbols", number(self.symbols));
        put(&mut m, "edges", number(self.edges));
        put(&mut m, "root_path", text(self.root_path.as_str()));
        if self.warnings.len() > 0 {
            put(&mut m, "warnings", array_of(&self.warnings));
        }
        assert(member_models(m@) =~= Self::json_of(self@)->Object_0);
        object(m)
    }
}

/// A copy of a list of texts.
pub fn copy_texts(v: &Vec<String>) -> (r: Vec<String>)
    ensures
        views(r@) == views(v@),
{
    let mut out: Vec<String> = Vec::new();
    let mut i: usize = 0;
    while i < v.len()
        invariant
            i <= v@.len(),
            out@.len() == i,
            forall|k: int| 0 <= k < i ==> (#[trigger] out@[k])@ == v@[k]@,
        decreases v@.len() - i,
    {
        out.push(v[i].clone());
        i = i + 1;
    }
    assert(views(out@) =~= views(v@));
    out
}

impl AnalyzeResult {
    /// A copy of a result.
    pub fn copy(&self) -> (r: Self)
        ensures
            r@ == self@,
    {
        AnalyzeResult {
            files: self.files,
            symbols: self.symbols,
            edges: self.edges,
            root_path: self.root_path.clone(),
            warnings: copy_texts(&self.warnings),
        }
    }
}

// ----- letting a job in -----

/// Why a request to analyze is refused, if it is: it needs a path, and the slot
/// must be free.
pub open spec fn refusal(slot: SlotModel, path: Seq<char>) -> Option<Seq<char>> {
    if path.len() == 0 {
        Some("'path' is required"@)
    } else if slot.busy() {
        Some("indexing already in progress"@)
    } else {
        None
    }
}

/// Lets a job that begins at a time into the slot, or gives the answer that
/// refuses it.
pub fn analyze_codebase_at(slot: &mut AnalyzeSlot, path_raw: String, force: bool, now: u64) -> (r:
    Result<(), ToolReply>)
    ensures
        match refusal(old(slot)@, path_raw@) {
            Some(msg) => r is Err && r->Err_0@ == failure(msg) && final(slot)@ == old(slot)@,
            None => r is Ok && final(slot)@ == installed(old(slot)@, path_raw@, force, now),
        },
{
    if path_raw.as_str().is_empty() {
        return Err(tool_error("'path' is required"));
    }
    if slot.is_busy() {
        return Err(tool_error("indexing already in progress"));
    }
    install_running_at(slot, path_raw, force, now);
    Ok(())
}

/// Lets a job that begins now into the slot, or gives the answer that refuses
/// it. The caller then runs the job to its end and answers with
/// [`analyze_reply`].
pub fn analyze_codebase(slot: &mut AnalyzeSlot, path_raw: String, force: bool) -> (r: Result<
    (),
    ToolReply,
>)
    ensures
        match refusal(old(slot)@, path_raw@) {
            Some(msg) => r is Err && r->Err_0@ == failure(msg) && final(slot)@ == old(slot)@,
            None => r is Ok && exists|now: u64|
                final(slot)@ == #[trigger] installed(old(slot)@, path_raw@, force, now),
        },
{
    let now: u64 = now_nanos_u64();
    let r = analyze_codebase_at(slot, path_raw, force, now);
    assert(r is Ok ==> final(slot)@ == installed(old(slot)@, path_raw@, force, now));
    r
}

/// What a job that came to its end answers.
pub open spec fn terminal_reply(status: JobStatusModel) -> ReplyModel
    recommends
        !(status is Running),
{
    match status {
        JobStatusModel::Completed(r) => success(render(AnalyzeResult::json_of(r))),
        JobStatusModel::Failed(msg) => failure(msg),
        JobStatusModel::Running => arbitrary(),
    }
}

/// What a job that came to its end answers: its result, or why it failed.
pub fn analyze_reply(status: &JobStatus) -> (r: ToolReply)
    requires
        !(*status is Running),
    ensures
        r@ == terminal_reply(status@),
{
    match status {
        JobStatus::Completed(result) => tool_success_json(result),
        JobStatus::Failed(msg) => tool_error(msg.as_str()),
        JobStatus::Running => tool_error(""),
    }
}

// ----- starting a job without waiting for it -----

/// What the start of a job answers.
pub struct AsyncKickoffResponse {
    pub job_id: String,
    pub status: &'static str,
    pub started_at: String,
    pub existing: bool,
    pub note: &'static str,
}

/// What an [`AsyncKickoffResponse`] stands for.
pub struct KickoffModel {
    pub job_id: Seq<char>,
    pub status: Seq<char>,
    pub started_at: Seq<char>,
    pub existing: bool,
    pub note: Seq<char>,
}

impl View for AsyncKickoffResponse {
    type V = KickoffModel;

    open spec fn view(&self) -> KickoffModel {
        KickoffModel {
            job_id: self.job_id@,
            status: self.status@,
            started_at: self.started_at@,
            existing: self.existing,
            note: self.note@,
        }
    }
}

impl ToJson for AsyncKickoffResponse {
    open spec fn json_of(v: KickoffModel) -> JsonModel {
        JsonModel::Object(
            seq![
                ("job_id"@, JsonModel::Text(v.job_id)),
                ("status"@, JsonModel::Text(v.status)),
                ("started_at"@, JsonModel::Text(v.started_at)),
                ("existing"@, JsonModel::Bool(v.existing)),
                ("note"@, JsonModel::Text(v.note)),
            ],
        )
    }

    fn to_json(&self) -> (r: Json) {
        let mut m = no_members();
        put(&mut m, "job_id", text(self.job_id.as_str()));
        put(&mut m, "status", text(self.status));
        put(&mut m, "started_at", text(self.started_at.as_str()));
        put(&mut m, "existing", Json::Bool(self.existing));
        put(&mut m, "note", text(self.note));
        assert(member_models(m@) =~= Self::json_of(self@)->Object_0);
        object(m)
    }
}

/// What the start of a job answers: the job that runs, and whether it ran
/// already.
pub open spec fn kickoff_of(job: JobModel, existing: bool) -> KickoffModel {
    KickoffModel {
        job_id: job.job_id,
        status: "running"@,
        started_at: rfc3339(job.started_at as nat),
        existing,
        note: if existing {
            "analyze already in progress — args ignored; poll get_status for progress"@
        } else {
            "analyze kicked off — poll get_status for progress and the terminal result"@
        },
    }
}

/// The answer that tells of the start of a job.
pub open spec fn kickoff_reply(job: JobModel, existing: bool) -> ReplyModel {
    success(render(AsyncKickoffResponse::json_of(kickoff_of(job, existing))))
}

fn reply_with_kickoff(job: &AnalyzeJob, existing: bool) -> (r: ToolReply)
    ensures
        r@ == kickoff_reply(job@, existing),
{
    let note = if existing {
        "analyze already in progress — args ignored; poll get_status for progress"
    } else {
        "analyze kicked off — poll get_status for progress and the terminal result"
    };
    tool_success_json(
        &AsyncKickoffResponse {
            job_id: job.job_id.clone(),
            status: "running",
            started_at: format_unix_nanos_rfc3339(job.started_at),
            existing,
            note,
        },
    )
}

/// An answer, and whether it started a job that is now to be run.
pub struct Kickoff {
    pub reply: ToolReply,
    pub started: bool,
}

/// Whether starting a job went as it should: without a path it is refused; while
/// a job is running that one is told of, and the request is ignored; else a job
/// that begins at `now` is put into the slot.
pub open spec fn kicked_off(
    before: SlotModel,
    after: SlotModel,
    path: Seq<char>,
    force: bool,
    now: u64,
    reply: ReplyModel,
    started: bool,
) -> bool {
    if path.len() == 0 {
        after == before && !started && reply == failure("'path' is required"@)
    } else if before.busy() {
        after == before && !started && reply == kickoff_reply(before.current->0, true)
    } else {
        after == installed(before, path, force, now) && started && reply == kickoff_reply(
            after.current->0,
            false,
        )
    }
}

/// Starts a job that begins at a time, unless one is running.
pub fn analyze_codebase_async_at(slot: &mut AnalyzeSlot, path_raw: String, force: bool, now: u64)
    -> (r: Kickoff)
    ensures
        kicked_off(
            old(slot)@,
            final(slot)@,
            path_raw@,
            force,
            now,
            r.reply@,
            r.started,
        ),
{
    if path_raw.as_str().is_empty() {
        return Kickoff { reply: tool_error("'path' is required"), started: false };
    }
    if let Some(job) = &slot.current {
        if !job.state.is_terminal() {
            return Kickoff { reply: reply_with_kickoff(job, true), started: false };
        }
    }
    let job_id = padded_text(now, 20);
    let announced = AnalyzeJob::new_running(job_id, path_raw.clone(), force, now);
    let reply = reply_with_kickoff(&announced, false);
    install_running_at(slot, path_raw, force, now);
    Kickoff { reply, started: true }
}

/// Starts a job that begins now, unless one is running. The caller runs it to
/// its end without being waited for.
pub fn analyze_codebase_async(slot: &mut AnalyzeSlot, path_raw: String, force: bool) -> (r: Kickoff)
    ensures
        exists|now: u64| #[trigger]
            kicked_off(
                old(slot)@,
                final(slot)@,
                path_raw@,
                force,
                now,
                r.reply@,
                r.started,
            ),
{
    let now: u64 = now_nanos_u64();
    let r = analyze_codebase_async_at(slot, path_raw, force, now);
    assert(kicked_off(
        old(slot)@,
        final(slot)@,
        path_raw@,
        force,
        now,
        r.reply@,
        r.started,
    ));
    r
}

// ----- laws -----

/// A running job is never replaced: while one runs, a request to analyze leaves
/// the slot as it is, whether it waits for the job or not.
pub proof fn lemma_running_job_stays(
    before: SlotModel,
    after: SlotModel,
    path: Seq<char>,
    force: bool,
    now: u64,
    reply: ReplyModel,
    started: bool,
)
    requires
        before.busy(),
    ensures
        refusal(before, path) is Some,
        kicked_off(before, after, path, force, now, reply, started) ==> after == before && !started,
{
}

/// Of two starts one after the other only the first starts a job, and the second
/// tells of the same one.
pub proof fn lemma_second_start_tells_of_first(
    s0: SlotModel,
    s1: SlotModel,
    s2: SlotModel,
    path: Seq<char>,
    force: bool,
    now: u64,
    reply: ReplyModel,
    path2: Seq<char>,
    force2: bool,
    now2: u64,
    reply2: ReplyModel,
    started2: bool,
)
    requires
        path2.len() > 0,
        kicked_off(s0, s1, path, force, now, reply, true),
        kicked_off(s1, s2, path2, force2, now2, reply2, started2),
    ensures
        !started2,
        s2 == s1,
        reply == kickoff_reply(s1.current->0, false),
        reply2 == kickoff_reply(s1.current->0, true),
{
}

/// Starting a job keeps the slot in order.
pub proof fn lemma_start_keeps_slot(
    before: SlotModel,
    after: SlotModel,
    path: Seq<char>,
    force: bool,
    now: u64,
    reply: ReplyModel,
    started: bool,
)
    requires
        before.wf(),
        kicked_off(before, after, path, force, now, reply, started),
    ensures
        after.wf(),
        path.len() > 0 ==> after.busy(),
{
}

/// The answer that tells of the start of a job takes less than a kilobyte.
pub proof fn lemma_kickoff_is_small(path: Seq<char>, force: bool, now: u64, existing: bool)
    ensures
        size(
            kickoff_reply(
                crate::analyze_job::running_job(
                    crate::analyze_job::job_id_at(now),
                    path,
                    force,
                    now,
                ),
                existing,
            ).text,
        ) < 1024,
{
    let job = crate::analyze_job::running_job(
        crate::analyze_job::job_id_at(now),
        path,
        force,
        now,
    );
    let k = kickoff_of(job, existing);
    crate::analyze_job::lemma_job_ids(now, now);
    crate::calendar::lemma_rfc3339_len(now);
    reveal_strlit("running");
    reveal_strlit("analyze already in progress — args ignored; poll get_status for progress");
    reveal_strlit("analyze kicked off — poll get_status for progress and the terminal result");
    reveal_strlit("job_id");
    reveal_strlit("status");
    reveal_strlit("started_at");
    reveal_strlit("existing");
    reveal_strlit("note");
    reveal_strlit("true");
    reveal_strlit("false");
    reveal_strlit("{");
    reveal_strlit("}");
    lemma_size_ascii("true"@);
    lemma_size_ascii("false"@);
    lemma_size_ascii("{"@);
    lemma_size_ascii("}"@);
    lemma_quoted_size(k.job_id);
    lemma_quoted_size(k.status);
    lemma_quoted_size(k.started_at);
    lemma_quoted_size(k.note);
    lemma_quoted_size("job_id"@);
    lemma_quoted_size("status"@);
    lemma_key_size("started_at"@);
    lemma_key_size("existing"@);
    lemma_key_size("note"@);
    let m = AsyncKickoffResponse::json_of(k)->Object_0;
    lemma_members_step(m, 1);
    lemma_members_step(m, 2);
    lemma_members_step(m, 3);
    lemma_members_step(m, 4);
    lemma_members_step(m, 5);
    assert(size(crate::json::render_members(m, 0)) == 0);
    let body = crate::json::render_members(m, 5);
    lemma_size_concat("{"@, body);
    lemma_size_concat("{"@ + body, "}"@);
}

} // verus!
