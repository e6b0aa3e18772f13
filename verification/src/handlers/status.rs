//! The state of the server: its build, its configuration, its index and its
//! jobs.

use super::analyze::{AnalyzeResult, AnalyzeResultModel};
use crate::analyze_job::{AnalyzeJob, AnalyzePhase, AnalyzeSlot, JobModel, JobStatus, JobStatusModel, SlotModel};
use crate::calendar::rfc3339;
use crate::json::{
    member_models, no_members, number, object, opt_view, optional_text, put, render, text,
    text_or_null, Json, JsonModel, ToJson,
};
use crate::model::GraphStats;
use crate::reply::{success, tool_success_json, ReplyModel, ToolReply};
use crate::text::{glue2, owned, same_text};
use vstd::prelude::*;

pub use crate::calendar::format_unix_nanos_rfc3339;

verus! {

/// A job as it is shown.
///
/// There is an error only where the job failed, and a result only where it was
/// completed.
pub struct AnalyzeJobView {
    pub job_id: String,
    pub status: String,
    pub path: String,
    pub force: bool,
    pub started_at: String,
    pub finished_at: Option<String>,
    pub progress: u32,
    pub progress_total: u32,
    pub progress_message: String,
    pub current_phase: Option<AnalyzePhase>,
    pub error: Option<String>,
    pub result: Option<AnalyzeResult>,
}

/// What an [`AnalyzeJobView`] stands for.
pub struct JobViewModel {
    pub job_id: Seq<char>,
    pub status: Seq<char>,
    pub path: Seq<char>,
    pub force: bool,
    pub started_at: Seq<char>,
    pub finished_at: Option<Seq<char>>,
    pub progress: u32,
    pub progress_total: u32,
    pub progress_message: Seq<char>,
    pub current_phase: Option<AnalyzePhase>,
    pub error: Option<Seq<char>>,
    pub result: Option<AnalyzeResultModel>,
}

impl View for AnalyzeJobView {
    type V = JobViewModel;

    open spec fn view(&self) -> JobViewModel {
        JobViewModel {
            job_id: self.job_id@,
            status: self.status@,
            path: self.path@,
            force: self.force,
            started_at: self.started_at@,
            finished_at: opt_view(self.finished_at),
            progress: self.progress,
            progress_total: self.progress_total,
            progress_message: self.progress_message@,
            current_phase: self.current_phase,
            error: opt_view(self.error),
            result: opt_view(self.result),
        }
    }
}

/// The name of a phase.
pub open spec fn phase_name(phase: AnalyzePhase) -> Seq<char> {
    match phase {
        AnalyzePhase::LoadingCache => "loading_cache"@,
        AnalyzePhase::Discovering => "discovering"@,
        AnalyzePhase::Parsing => "parsing"@,
        AnalyzePhase::Resolving => "resolving"@,
        AnalyzePhase::Persisting => "persisting"@,
        AnalyzePhase::Completed => "completed"@,
    }
}

/// The name of a phase.
pub fn phase_str(phase: AnalyzePhase) -> (r: &'static str)
    ensures
        r@ == phase_name(phase),
{
    match phase {
        AnalyzePhase::LoadingCache => "loading_cache",
        AnalyzePhase::Discovering => "discovering",
        AnalyzePhase::Parsing => "parsing",
        AnalyzePhase::Resolving => "resolving",
        AnalyzePhase::Persisting => "persisting",
        AnalyzePhase::Completed => "completed",
    }
}

/// The name of a status.
pub open spec fn status_name(status: JobStatusModel) -> Seq<char> {
    match status {
        JobStatusModel::Running => "running"@,
        JobStatusModel::Completed(_) => "completed"@,
        JobStatusModel::Failed(_) => "failed"@,
    }
}

/// A job as it is shown.
pub open spec fn job_view(job: JobModel) -> JobViewModel {
    JobViewModel {
        job_id: job.job_id,
        status: status_name(job.state.status),
        path: job.path,
        force: job.force,
        started_at: rfc3339(job.started_at as nat),
        finished_at: match job.state.finished_at {
            Some(t) => Some(rfc3339(t as nat)),
            None => None,
        },
        progress: job.state.progress,
        progress_total: job.state.progress_total,
        progress_message: job.state.progress_message,
        current_phase: job.state.current_phase,
        error: match job.state.status {
            JobStatusModel::Failed(msg) => Some(msg),
            _ => None,
        },
        result: match job.state.status {
            JobStatusModel::Completed(r) => Some(r),
            _ => None,
        },
    }
}

impl AnalyzeJobView {
    /// A job as it is shown.
    pub fn from_job(job: &AnalyzeJob) -> (r: Self)
        ensures
            r@ == job_view(job@),
    {
        let (status, error, result): (String, Option<String>, Option<AnalyzeResult>) = match &job.state.status {
            JobStatus::Running => (owned("running"), None, None),
            JobStatus::Completed(r) => (owned("completed"), None, Some(r.copy())),
            JobStatus::Failed(msg) => (owned("failed"), Some(msg.clone()), None),
        };
        AnalyzeJobView {
            job_id: job.job_id.clone(),
            status,
            path: job.path.clone(),
            force: job.force,
            started_at: format_unix_nanos_rfc3339(job.started_at),
            finished_at: match job.state.finished_at {
                Some(t) => Some(format_unix_nanos_rfc3339(t)),
                None => None,
            },
            progress: job.state.progress,
            progress_total: job.state.progress_total,
            progress_message: job.state.progress_message.clone(),
            current_phase: job.state.current_phase,
            error,
            result,
        }
    }
}

/// A phase as JSON, or null before the first.
pub open spec fn phase_or_null(phase: Option<AnalyzePhase>) -> JsonModel {
    match phase {
        Some(p) => JsonModel::Text(phase_name(p)),
        None => JsonModel::Null,
    }
}

/// A value as JSON, or null where there is none.
pub open spec fn json_or_null<T: ToJson>(o: Option<T::V>) -> JsonModel {
    match o {
        Some(v) => T::json_of(v),
        None => JsonModel::Null,
    }
}

fn optional_json<T: ToJson>(o: &Option<T>) -> (r: Json)
    ensures
        r.model() == json_or_null::<T>(opt_view(*o)),
{
    match o {
        Some(v) => v.to_json(),
        None => Json::Null,
    }
}

impl ToJson for AnalyzeJobView {
    open spec fn json_of(v: JobViewModel) -> JsonModel {
        JsonModel::Object(
            seq![
                ("job_id"@, JsonModel::Text(v.job_id)),
                ("status"@, JsonModel::Text(v.status)),
                ("path"@, JsonModel::Text(v.path)),
                ("force"@, JsonModel::Bool(v.force)),
                ("started_at"@, JsonModel::Text(v.started_at)),
                ("finished_at"@, text_or_null(v.finished_at)),
                ("progress"@, JsonModel::Number(v.progress as nat)),
                ("progress_total"@, JsonModel::Number(v.progress_total as nat)),
                ("progress_message"@, JsonModel::Text(v.progress_message)),
                ("current_phase"@, phase_or_null(v.current_phase)),
                ("error"@, text_or_null(v.error)),
                ("result"@, json_or_null::<AnalyzeResult>(v.result)),
            ],
        )
    }

    fn to_json(&self) -> (r: Json) {
        let phase = match self.current_phase {
            Some(p) => text(phase_str(p)),
            None => Json::Null,
        };
        let mut m = no_members();
        put(&mut m, "job_id", text(self.job_id.as_str()));
        put(&mut m, "status", text(self.status.as_str()));
        put(&mut m, "path", text(self.path.as_str()));
        put(&mut m, "force", Json::Bool(self.force));
        put(&mut m, "started_at", text(self.started_at.as_str()));
        put(&mut m, "finished_at", optional_text(&self.finished_at));
        put(&mut m, "progress", number(self.progress));
        put(&mut m, "progress_total", number(self.progress_total));
        put(&mut m, "progress_message", text(self.progress_message.as_str()));
        put(&mut m, "current_phase", phase);
        put(&mut m, "error", optional_text(&self.error));
        put(&mut m, "result", optional_json(&self.result));
        assert(member_models(m@) =~= Self::json_of(self@)->Object_0);
        object(m)
    }
}

/// The state of the server as it is shown.
pub struct StatusResult {
    /// The commit that the program was built from.
    pub binary_version: String,
    /// The version of the package.
    pub package_version: String,
    /// Whether this is a release build.
    pub release_build: bool,
    /// The configuration file that applies, if there is one.
    pub config_path: Option<String>,
    /// How many macros are stripped.
    pub config_macro_strip_count: usize,
    /// How many macros are stripped with their arguments.
    pub config_macro_strip_with_args_count: usize,
    /// Whether anything was indexed yet.
    pub indexed: bool,
    /// The root of what was indexed.
    pub indexed_root: Option<String>,
    /// How many files are indexed.
    pub index_files: u32,
    /// How many symbols are indexed.
    pub index_symbols: u32,
    /// How many edges are indexed.
    pub index_edges: u32,
    /// When the index was built.
    pub index_built_at: Option<String>,
    /// Whether the index was built from scratch.
    pub index_force_built: Option<bool>,
    /// The job that runs or ran last.
    pub analyze_job: Option<AnalyzeJobView>,
    /// The job before it.
    pub analyze_job_previous_terminal: Option<AnalyzeJobView>,
}

/// What a [`StatusResult`] stands for.
pub struct StatusModel {
    pub binary_version: Seq<char>,
    pub package_version: Seq<char>,
    pub release_build: bool,
    pub config_path: Option<Seq<char>>,
    pub config_macro_strip_count: nat,
    pub config_macro_strip_with_args_count: nat,
    pub indexed: bool,
    pub indexed_root: Option<Seq<char>>,
    pub index_files: u32,
    pub index_symbols: u32,
    pub index_edges: u32,
    pub index_built_at: Option<Seq<char>>,
    pub index_force_built: Option<bool>,
    pub analyze_job: Option<JobViewModel>,
    pub analyze_job_previous_terminal: Option<JobViewModel>,
}

impl View for StatusResult {
    type V = StatusModel;

    open spec fn view(&self) -> StatusModel {
        StatusModel {
            binary_version: self.binary_version@,
            package_version: self.package_version@,
            release_build: self.release_build,
            config_path: opt_view(self.config_path),
            config_macro_strip_count: self.config_macro_strip_count as nat,
            config_macro_strip_with_args_count: self.config_macro_strip_with_args_count as nat,
            indexed: self.indexed,
            indexed_root: opt_view(self.indexed_root),
            index_files: self.index_files,
            index_symbols: self.index_symbols,
            index_edges: self.index_edges,
            index_built_at: opt_view(self.index_built_at),
            index_force_built: self.index_force_built,
            analyze_job: opt_view(self.analyze_job),
            analyze_job_previous_terminal: opt_view(self.analyze_job_previous_terminal),
        }
    }
}

/// A flag as JSON, or null where there is none.
pub open spec fn flag_or_null(o: Option<bool>) -> JsonModel {
    match o {
        Some(b) => JsonModel::Bool(b),
        None => JsonModel::Null,
    }
}

/// Members without a value are written as null, so that they are told apart
/// from those that an older server does not have.
impl ToJson for StatusResult {
    open spec fn json_of(v: StatusModel) -> JsonModel {
        JsonModel::Object(
            seq![
                ("binary_version"@, JsonModel::Text(v.binary_version)),
                ("package_version"@, JsonModel::Text(v.package_version)),
                ("release_build"@, JsonModel::Bool(v.release_build)),
                ("config_path"@, text_or_null(v.config_path)),
                ("config_macro_strip_count"@, JsonModel::Number(v.config_macro_strip_count)),
                (
                    "config_macro_strip_with_args_count"@,
                    JsonModel::Number(v.config_macro_strip_with_args_count),
                ),
                ("indexed"@, JsonModel::Bool(v.indexed)),
                ("indexed_root"@, text_or_null(v.indexed_root)),
                ("index_files"@, JsonModel::Number(v.index_files as nat)),
                ("index_symbols"@, JsonModel::Number(v.index_symbols as nat)),
                ("index_edges"@, JsonModel::Number(v.index_edges as nat)),
                ("index_built_at"@, text_or_null(v.index_built_at)),
                ("index_force_built"@, flag_or_null(v.index_force_built)),
                ("analyze_job"@, json_or_null::<AnalyzeJobView>(v.analyze_job)),
                (
                    "analyze_job_previous_terminal"@,
                    json_or_null::<AnalyzeJobView>(v.analyze_job_previous_terminal),
                ),
            ],
        )
    }

    fn to_json(&self) -> (r: Json) {
        let force = match self.index_force_built {
            Some(b) => Json::Bool(b),
            None => Json::Null,
        };
        let mut m = no_members();
        put(&mut m, "binary_version", text(self.binary_version.as_str()));
        put(&mut m, "package_version", text(self.package_version.as_str()));
        put(&mut m, "release_build", Json::Bool(self.release_build));
        put(&mut m, "config_path", optional_text(&self.config_path));
        put(
            &mut m,
            "config_macro_strip_count",
            Json::Number(self.config_macro_strip_count as u64),
        );
        put(
            &mut m,
            "config_macro_strip_with_args_count",
            Json::Number(self.config_macro_strip_with_args_count as u64),
        );
        put(&mut m, "indexed", Json::Bool(self.indexed));
        put(&mut m, "indexed_root", optional_text(&self.indexed_root));
        put(&mut m, "index_files", number(self.index_files));
        put(&mut m, "index_symbols", number(self.index_symbols));
        put(&mut m, "index_edges", number(self.index_edges));
        put(&mut m, "index_built_at", optional_text(&self.index_built_at));
        put(&mut m, "index_force_built", force);
        put(&mut m, "analyze_job", optional_json(&self.analyze_job));
        put(
            &mut m,
            "analyze_job_previous_terminal",
            optional_json(&self.analyze_job_previous_terminal),
        );
        assert(member_models(m@) =~= Self::json_of(self@)->Object_0);
        object(m)
    }
}

/// The name of a build: the commit that it was made from, with a mark where the
/// sources had changed since, or `unknown` where the commit is not known.
pub open spec fn build_name(commit: Option<Seq<char>>, dirty: bool) -> Seq<char> {
    match commit {
        None => "unknown"@,
        Some(c) => if c.len() == 0 {
            "unknown"@
        } else if dirty && c != "unknown"@ {
            c + "-dirty"@
        } else {
            c
        },
    }
}

/// The name of a build.
pub fn build_label(commit: Option<&str>, dirty: bool) -> (r: String)
    ensures
        r@ == build_name(opt_view(commit), dirty),
{
    match commit {
        None => owned("unknown"),
        Some(c) => if c.is_empty() {
            owned("unknown")
        } else if dirty && !same_text(c, "unknown") {
            glue2(c, "-dirty")
        } else {
            owned(c)
        },
    }
}

/// What the server knows of itself when it is asked.
pub struct ServerFacts {
    pub binary_version: String,
    pub package_version: String,
    pub release_build: bool,
    /// The configuration file at the root, where it exists.
    pub config_path: Option<String>,
    pub macro_strip_count: usize,
    pub macro_strip_with_args_count: usize,
    pub indexed: bool,
    pub indexed_root: Option<String>,
    pub stats: GraphStats,
    /// When the index was built in nanoseconds, or zero.
    pub built_at_nanos: u64,
    /// Whether the index was built from scratch.
    pub force_built: bool,
}

/// The state of the server as it is shown. A time of zero is none, and whether
/// the index was built from scratch is told only where there is one.
pub open spec fn status_of(facts: ServerFacts, slot: SlotModel) -> StatusModel {
    StatusModel {
        binary_version: facts.binary_version@,
        package_version: facts.package_version@,
        release_build: facts.release_build,
        config_path: opt_view(facts.config_path),
        config_macro_strip_count: facts.macro_strip_count as nat,
        config_macro_strip_with_args_count: facts.macro_strip_with_args_count as nat,
        indexed: facts.indexed,
        indexed_root: opt_view(facts.indexed_root),
        index_files: facts.stats.files,
        index_symbols: facts.stats.nodes,
        index_edges: facts.stats.edges,
        index_built_at: if facts.built_at_nanos == 0 {
            None
        } else {
            Some(rfc3339(facts.built_at_nanos as nat))
        },
        index_force_built: if facts.indexed {
            Some(facts.force_built)
        } else {
            None
        },
        analyze_job: match slot.current {
            Some(j) => Some(job_view(j)),
            None => None,
        },
        analyze_job_previous_terminal: match slot.previous_terminal {
            Some(j) => Some(job_view(j)),
            None => None,
        },
    }
}

/// The answer to a request for the state of the server.
pub open spec fn status_reply(facts: ServerFacts, slot: SlotModel) -> ReplyModel {
    success(render(StatusResult::json_of(status_of(facts, slot))))
}

/// Answers a request for the state of the server.
pub fn get_status(facts: ServerFacts, slot: &AnalyzeSlot) -> (r: ToolReply)
    ensures
        r@ == status_reply(facts, slot@),
{
    let index_built_at = if facts.built_at_nanos == 0 {
        None
    } else {
        Some(format_unix_nanos_rfc3339(facts.built_at_nanos))
    };
    let index_force_built = if facts.indexed {
        Some(facts.force_built)
    } else {
        None
    };
    let analyze_job = match &slot.current {
        Some(j) => Some(AnalyzeJobView::from_job(j)),
        None => None,
    };
    let analyze_job_previous_terminal = match &slot.previous_terminal {
        Some(j) => Some(AnalyzeJobView::from_job(j)),
        None => None,
    };
    let result = StatusResult {
        binary_version: facts.binary_version,
        package_version: facts.package_version,
        release_build: facts.release_build,
        config_path: facts.config_path,
        config_macro_strip_count: facts.macro_strip_count,
        config_macro_strip_with_args_count: facts.macro_strip_with_args_count,
        indexed: facts.indexed,
        indexed_root: facts.indexed_root,
        index_files: facts.stats.files,
        index_symbols: facts.stats.nodes,
        index_edges: facts.stats.edges,
        index_built_at,
        index_force_built,
        analyze_job,
        analyze_job_previous_terminal,
    };
    tool_success_json(&result)
}

// ----- laws -----

/// A shown job has an error exactly where its status is failed, and a result
/// exactly where it is completed; never both.
pub proof fn lemma_job_view_consistent(job: JobModel)
    ensures
        ({
            let v = job_view(job);
            &&& v.error is Some <==> v.status == "failed"@
            &&& v.result is Some <==> v.status == "completed"@
            &&& !(v.error is Some && v.result is Some)
        }),
{
    reveal_strlit("running");
    reveal_strlit("completed");
    reveal_strlit("failed");
    assert("running"@.len() == 7);
    assert("completed"@.len() == 9);
    assert("failed"@.len() == 6);
}

} // verus!
