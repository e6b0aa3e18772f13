//! What a job of analyzing decides on its way.
//!
//! A run is always at one stage, which names the work that is to be done next
//! outside: finding the directory, reading the configuration, loading the
//! cache, indexing, and so on. What came of the work is handed back as an
//! event, and takes the run to its next stage. At the end stands a result or a
//! message of failure.

use crate::analyze_job::{
    entered_phase, phase_message, progressed, AnalyzeJob, AnalyzePhase, JobModel, JobStateModel,
};
use crate::handlers::analyze::{copy_texts, AnalyzeResult, AnalyzeResultModel};
use crate::json::opt_view;
use crate::model::GraphStats;
use crate::sort::{lemma_filter_ends, lemma_filter_from, lemma_filter_next, views};
use crate::text::{
    at_or_under, decimal, decimal_text, glue2, glue3, glue5, is_at_or_under, owned,
};
use vstd::hash_map::StringHashMap;
use vstd::prelude::*;

verus! {

/// How cached files under the directory are dealt with before indexing.
#[derive(Clone, Copy, Debug, PartialEq, Eq, Structural)]
pub enum Pruning {
    /// All of them are dropped.
    DropInScope,
    /// Those that are gone from disk are dropped.
    EvictMissing,
}

/// What is wrong with a configuration file.
#[derive(Clone, Copy, Debug, PartialEq, Eq, Structural)]
pub enum ConfigFault {
    /// It cannot be parsed.
    Toml,
    /// It cannot be read.
    Io,
    /// What it says is not allowed.
    Invalid,
}

/// What a run does next.
pub enum Stage {
    /// Find the directory.
    Locate,
    /// Read the configuration that applies to it.
    Configure,
    /// Wait for other indexing to end, and look for configuration and cache
    /// files.
    Inspect,
    /// Load the cache to see whether it is up to date.
    Probe,
    /// Make the probed cache the graph, after dropping deleted files elsewhere
    /// if `sweep` is set.
    Adopt(bool),
    /// Save the adopted cache.
    SaveAdopted,
    /// Load the cache to index on top of it.
    LoadCache,
    /// Drop cached files under the directory.
    Prune(Pruning),
    /// Find source files.
    Discover,
    /// Parse these source files.
    Parse(Vec<String>),
    /// Resolve edges and merge the files into the graph.
    Resolve,
    /// Drop deleted files elsewhere.
    Sweep,
    /// Make the new graph the one that is asked.
    Publish,
    /// Save the new graph.
    Persist,
    /// Nothing: the run has its result.
    Completed,
    /// Nothing: the run has failed.
    Failed(String),
}

/// What a [`Stage`] stands for.
pub enum StageModel {
    Locate,
    Configure,
    Inspect,
    Probe,
    Adopt(bool),
    SaveAdopted,
    LoadCache,
    Prune(Pruning),
    Discover,
    Parse(Seq<Seq<char>>),
    Resolve,
    Sweep,
    Publish,
    Persist,
    Completed,
    Failed(Seq<char>),
}

impl View for Stage {
    type V = StageModel;

    open spec fn view(&self) -> StageModel {
        match self {
            Stage::Locate => StageModel::Locate,
            Stage::Configure => StageModel::Configure,
            Stage::Inspect => StageModel::Inspect,
            Stage::Probe => StageModel::Probe,
            Stage::Adopt(sweep) => StageModel::Adopt(*sweep),
            Stage::SaveAdopted => StageModel::SaveAdopted,
            Stage::LoadCache => StageModel::LoadCache,
            Stage::Prune(p) => StageModel::Prune(*p),
            Stage::Discover => StageModel::Discover,
            Stage::Parse(files) => StageModel::Parse(views(files@)),
            Stage::Resolve => StageModel::Resolve,
            Stage::Sweep => StageModel::Sweep,
            Stage::Publish => StageModel::Publish,
            Stage::Persist => StageModel::Persist,
            Stage::Completed => StageModel::Completed,
            Stage::Failed(msg) => StageModel::Failed(msg@),
        }
    }
}

/// When deleted files elsewhere were last looked for.
#[derive(Clone, Copy, Debug, PartialEq, Eq, Structural)]
pub struct SweepClock {
    /// The time now in nanoseconds.
    pub now: u64,
    /// The time of the last sweep in nanoseconds, or zero.
    pub last: u64,
    /// After how many nanoseconds the next sweep is due.
    pub interval: u64,
}

/// What came of the work of a stage.
pub enum Event {
    /// The path names something: how it is shown, and whether it is a directory.
    Located { scope: String, is_dir: bool },
    /// The path names nothing.
    NotLocated,
    /// The configuration was read: the root that it belongs to, whether that is
    /// the directory itself, and what it warns of.
    Configured { root: String, scope_is_root: bool, warnings: Vec<String> },
    /// The configuration is no good.
    Misconfigured { fault: ConfigFault, detail: String },
    /// Whether there is a configuration file at the root, and where a cache lies
    /// in the directory, if there is one.
    Inspected { has_config: bool, scope_cache: Option<String> },
    /// Whether the cache could be loaded, how many files it has under the
    /// directory, and which of its files, anywhere, are out of date.
    Probed { loaded: bool, files_in_scope: usize, stale: Vec<String>, sweep: SweepClock },
    /// The probed cache is the graph: how many files were swept, and its size.
    Adopted { swept: usize, stats: GraphStats },
    /// The graph was saved, or why not.
    Saved { failure: Option<String> },
    /// Whether there was a cache to index on top of.
    CacheLoaded { loaded: bool },
    /// How many cached files were dropped.
    Pruned { dropped: usize },
    /// The source files under the directory, and of the files that are cached
    /// now, all of them and those that are out of date.
    Discovered { found: Vec<String>, cached: Vec<String>, stale: Vec<String> },
    /// Source files were parsed, with warnings.
    Indexed { warnings: Vec<String> },
    /// Indexing could not be begun.
    IndexFailed { error: String },
    /// The work of indexing broke off.
    Crashed { error: String },
    /// Edges were resolved and files merged: how many files the graph has.
    Resolved { files: u32, sweep: SweepClock },
    /// How many files were swept, and how many the graph has left.
    Swept { swept: usize, files: u32 },
    /// The new graph is the one that is asked: its size, and how many files it
    /// has under the directory.
    Published { stats: GraphStats, files_in_scope: usize },
}

/// A run of analyzing.
pub struct AnalyzeRun {
    /// The path as it was given.
    pub path: String,
    /// Whether cached files under the directory are to be ignored.
    pub force: bool,
    /// The directory as it is shown.
    pub scope: String,
    /// The root of the project as it is shown.
    pub root: String,
    /// Whether the directory is the root.
    pub scope_is_root: bool,
    /// What was warned of so far.
    pub warnings: Vec<String>,
    /// The size of the graph that was adopted or published.
    pub stats: GraphStats,
    /// What to do next.
    pub stage: Stage,
}

/// What an [`AnalyzeRun`] stands for.
pub struct RunModel {
    pub path: Seq<char>,
    pub force: bool,
    pub scope: Seq<char>,
    pub root: Seq<char>,
    pub scope_is_root: bool,
    pub warnings: Seq<Seq<char>>,
    pub stats: GraphStats,
    pub stage: StageModel,
}

impl View for AnalyzeRun {
    type V = RunModel;

    open spec fn view(&self) -> RunModel {
        RunModel {
            path: self.path@,
            force: self.force,
            scope: self.scope@,
            root: self.root@,
            scope_is_root: self.scope_is_root,
            warnings: views(self.warnings@),
            stats: self.stats,
            stage: self.stage@,
        }
    }
}

// ----- messages -----

/// What is said of a configuration file that is no good.
pub open spec fn config_message(fault: ConfigFault, detail: Seq<char>) -> Seq<char> {
    match fault {
        ConfigFault::Toml => "failed to parse .code-graph.toml: "@ + detail,
        ConfigFault::Io => "failed to read .code-graph.toml: "@ + detail,
        ConfigFault::Invalid => "invalid .code-graph.toml: "@ + detail,
    }
}

/// What is said of a configuration file that is no good.
pub fn config_error(fault: ConfigFault, detail: &str) -> (r: String)
    ensures
        r@ == config_message(fault, detail@),
{
    match fault {
        ConfigFault::Toml => glue2("failed to parse .code-graph.toml: ", detail),
        ConfigFault::Io => glue2("failed to read .code-graph.toml: ", detail),
        ConfigFault::Invalid => glue2("invalid .code-graph.toml: ", detail),
    }
}

/// The warning that a configuration file above the directory applies.
pub open spec fn parent_config_warning(scope: Seq<char>, root: Seq<char>) -> Seq<char> {
    "using .code-graph.toml found at "@ + root + " (parent of indexed root "@ + scope
        + "); cache lives at the project root, indexing scope stays at the invocation path"@
}

/// The warning that no configuration file applies.
pub open spec fn no_config_warning(scope: Seq<char>) -> Seq<char> {
    "no .code-graph.toml found between "@ + scope
        + " and filesystem root; using built-in defaults. C++ classes prefixed with API-export macros (e.g. `class CORE_API Foo`) will NOT be indexed. Place a .code-graph.toml with [cpp].macro_strip at your project root to enable engine-style support."@
}

/// The warning that a cache in the directory is not used.
pub open spec fn orphan_cache_warning(cache: Seq<char>, root: Seq<char>) -> Seq<char> {
    "orphan cache detected at "@ + cache
        + " — the indexer now caches at the project root ("@ + root
        + "). The orphan is not used and can be deleted to reclaim disk."@
}

/// What the configuration and cache files give reason to warn of.
pub open spec fn file_warnings(
    scope: Seq<char>,
    root: Seq<char>,
    scope_is_root: bool,
    has_config: bool,
    scope_cache: Option<Seq<char>>,
) -> Seq<Seq<char>> {
    let config = if !has_config {
        seq![no_config_warning(scope)]
    } else if scope_is_root {
        seq![]
    } else {
        seq![parent_config_warning(scope, root)]
    };
    if !scope_is_root && scope_cache is Some {
        config.push(orphan_cache_warning(scope_cache->0, root))
    } else {
        config
    }
}

/// What the configuration and cache files give reason to warn of.
pub fn inspect_warnings(
    scope: &str,
    root: &str,
    scope_is_root: bool,
    has_config: bool,
    scope_cache: &Option<String>,
) -> (r: Vec<String>)
    ensures
        views(r@) == file_warnings(
            scope@,
            root@,
            scope_is_root,
            has_config,
            opt_view(*scope_cache),
        ),
{
    let mut out: Vec<String> = Vec::new();
    if !has_config {
        out.push(
            glue3(
                "no .code-graph.toml found between ",
                scope,
                " and filesystem root; using built-in defaults. C++ classes prefixed with API-export macros (e.g. `class CORE_API Foo`) will NOT be indexed. Place a .code-graph.toml with [cpp].macro_strip at your project root to enable engine-style support.",
            ),
        );
    } else if !scope_is_root {
        out.push(
            glue5(
                "using .code-graph.toml found at ",
                root,
                " (parent of indexed root ",
                scope,
                "); cache lives at the project root, indexing scope stays at the invocation path",
            ),
        );
    }
    if !scope_is_root {
        if let Some(cache) = scope_cache {
            out.push(
                glue5(
                    "orphan cache detected at ",
                    cache.as_str(),
                    " — the indexer now caches at the project root (",
                    root,
                    "). The orphan is not used and can be deleted to reclaim disk.",
                ),
            );
        }
    }
    assert(views(out@) =~= file_warnings(
        scope@,
        root@,
        scope_is_root,
        has_config,
        opt_view(*scope_cache),
    ));
    out
}

/// The warning that cached files were dropped.
pub open spec fn pruning_warning(pruning: Pruning, dropped: nat, scope: Seq<char>) -> Seq<char> {
    match pruning {
        Pruning::DropInScope => "force=true dropped "@ + decimal(dropped)
            + " cached file(s) under "@ + scope + " before re-index"@,
        Pruning::EvictMissing => "evicted "@ + decimal(dropped) + " cached file(s) under "@ + scope
            + " (no longer present on disk)"@,
    }
}

/// The warning that cached files were dropped.
pub fn pruning_text(pruning: Pruning, dropped: usize, scope: &str) -> (r: String)
    ensures
        r@ == pruning_warning(pruning, dropped as nat, scope@),
{
    let n = decimal_text(dropped as u64);
    match pruning {
        Pruning::DropInScope => glue5(
            "force=true dropped ",
            n.as_str(),
            " cached file(s) under ",
            scope,
            " before re-index",
        ),
        Pruning::EvictMissing => glue5(
            "evicted ",
            n.as_str(),
            " cached file(s) under ",
            scope,
            " (no longer present on disk)",
        ),
    }
}

/// The warning that deleted files elsewhere were dropped.
pub open spec fn sweep_warning(swept: nat) -> Seq<char> {
    "out-of-scope sweep removed "@ + decimal(swept)
        + " stale cache entry(ies) (files deleted in subtrees not touched by this invocation)"@
}

/// The warning that deleted files elsewhere were dropped.
pub fn sweep_text(swept: usize) -> (r: String)
    ensures
        r@ == sweep_warning(swept as nat),
{
    let n = decimal_text(swept as u64);
    glue3(
        "out-of-scope sweep removed ",
        n.as_str(),
        " stale cache entry(ies) (files deleted in subtrees not touched by this invocation)",
    )
}

/// The warning that the graph has files outside the directory.
pub open spec fn out_of_scope_warning(files: nat, scope: Seq<char>, root: Seq<char>) -> Seq<char> {
    "project cache contains "@ + decimal(files) + " file(s) outside the current scope ("@ + scope
        + "); they are preserved across this invocation. Run analyze_codebase at "@ + root
        + " to refresh them, or force=true at any subtree to invalidate it."@
}

/// The warning that the graph has files outside the directory.
pub fn out_of_scope_text(files: u32, scope: &str, root: &str) -> (r: String)
    ensures
        r@ == out_of_scope_warning(files as nat, scope@, root@),
{
    let n = decimal_text(files as u64);
    let mut r = glue3("project cache contains ", n.as_str(), " file(s) outside the current scope (");
    r.append(scope);
    r.append("); they are preserved across this invocation. Run analyze_codebase at ");
    r.append(root);
    r.append(" to refresh them, or force=true at any subtree to invalidate it.");
    r
}

/// The warning that the graph could not be saved, if it could not.
pub open spec fn save_warnings(error: Option<Seq<char>>) -> Seq<Seq<char>> {
    match error {
        Some(e) => seq!["cache save failed: "@ + e],
        None => seq![],
    }
}

// ----- decisions -----

/// Whether none of these files lies under a directory.
pub open spec fn none_under(files: Seq<Seq<char>>, dir: Seq<char>) -> bool {
    forall|i: int| 0 <= i < files.len() ==> !at_or_under(#[trigger] files[i], dir)
}

/// Whether none of these files lies under a directory.
pub fn is_none_under(files: &Vec<String>, dir: &str) -> (r: bool)
    ensures
        r == none_under(views(files@), dir@),
{
    let ghost all = views(files@);
    let mut i: usize = 0;
    while i < files.len()
        invariant
            i <= files@.len(),
            all == views(files@),
            forall|k: int| 0 <= k < i ==> !at_or_under(#[trigger] all[k], dir@),
        decreases files@.len() - i,
    {
        if is_at_or_under(files[i].as_str(), dir) {
            assert(at_or_under(all[i as int], dir@));
            return false;
        }
        i = i + 1;
    }
    true
}

/// The files to parse again of those that were found, in their order: those
/// that are out of date and those that are not cached. All others are taken
/// from the cache.
pub open spec fn changed_files(
    found: Seq<Seq<char>>,
    cached: Seq<Seq<char>>,
    stale: Seq<Seq<char>>,
) -> Seq<Seq<char>> {
    found.filter(|f: Seq<char>| stale.contains(f) || !cached.contains(f))
}

/// These texts as a set.
fn text_set(texts: &Vec<String>) -> (r: StringHashMap<bool>)
    ensures
        forall|t: Seq<char>| #[trigger] r@.contains_key(t) <==> views(texts@).contains(t),
{
    let ghost all = views(texts@);
    let mut r: StringHashMap<bool> = StringHashMap::new();
    let mut i: usize = 0;
    while i < texts.len()
        invariant
            i <= texts@.len(),
            all == views(texts@),
            forall|t: Seq<char>| #[trigger] r@.contains_key(t) <==> all.take(i as int).contains(t),
        decreases texts@.len() - i,
    {
        let ghost before = r@;
        r.insert(texts[i].clone(), true);
        proof {
            let fewer = all.take(i as int);
            let more = all.take(i as int + 1);
            assert(more =~= fewer.push(all[i as int]));
            assert forall|t: Seq<char>| #[trigger] r@.contains_key(t) <==> more.contains(t) by {
                if before.contains_key(t) {
                    let k = choose|k: int| 0 <= k < fewer.len() && fewer[k] == t;
                    assert(more[k] == t);
                }
                if t == all[i as int] {
                    assert(more[i as int] == t);
                }
                if more.contains(t) && t != all[i as int] {
                    let k = choose|k: int| 0 <= k < more.len() && more[k] == t;
                    assert(fewer[k] == t);
                }
            }
        }
        i = i + 1;
    }
    assert(all.take(all.len() as int) =~= all);
    r
}

/// The files to parse again of those that were found: those that are out of date
/// and those that are not cached.
pub fn files_to_parse(found: &Vec<String>, cached: &Vec<String>, stale: &Vec<String>) -> (r: Vec<
    String,
>)
    ensures
        views(r@) == changed_files(views(found@), views(cached@), views(stale@)),
{
    let known = text_set(cached);
    let old_ones = text_set(stale);
    let ghost all = views(found@);
    let ghost pass = |f: Seq<char>| views(stale@).contains(f) || !views(cached@).contains(f);
    let mut out: Vec<String> = Vec::new();
    proof {
        lemma_filter_ends(all, pass);
    }
    assert(views(out@) =~= all.take(0).filter(pass));
    let mut i: usize = 0;
    while i < found.len()
        invariant
            i <= found@.len(),
            all == views(found@),
            pass == (|f: Seq<char>| views(stale@).contains(f) || !views(cached@).contains(f)),
            forall|t: Seq<char>| #[trigger] known@.contains_key(t) <==> views(cached@).contains(t),
            forall|t: Seq<char>| #[trigger]
                old_ones@.contains_key(t) <==> views(stale@).contains(t),
            views(out@) == all.take(i as int).filter(pass),
        decreases found@.len() - i,
    {
        proof {
            lemma_filter_next(all, pass, i as int);
        }
        let ghost before = out@;
        let f = found[i].as_str();
        if old_ones.contains_key(f) || !known.contains_key(f) {
            out.push(owned(f));
            assert(views(out@) =~= views(before).push(all[i as int]));
        }
        i = i + 1;
    }
    proof {
        lemma_filter_ends(all, pass);
    }
    out
}

/// Whether deleted files elsewhere are due to be looked for.
pub open spec fn sweep_is_due(c: SweepClock) -> bool {
    if c.now >= c.last {
        c.now - c.last >= c.interval
    } else {
        c.interval == 0
    }
}

/// Whether deleted files elsewhere are due to be looked for. A clock that was
/// set back counts as no time gone by.
pub fn sweep_due(c: SweepClock) -> (r: bool)
    ensures
        r == sweep_is_due(c),
{
    c.now.saturating_sub(c.last) >= c.interval
}

/// What comes first in indexing afresh. With `force` at the root of the project
/// the cache would be discarded at once, and is not loaded.
pub open spec fn reindex_stage(force: bool, scope_is_root: bool) -> StageModel {
    if force && scope_is_root {
        StageModel::Discover
    } else {
        StageModel::LoadCache
    }
}

/// How many files the graph has outside the directory.
pub open spec fn files_out_of_scope(files: u32, files_in_scope: usize) -> u32 {
    let inside = files_in_scope as u32;
    if files >= inside {
        (files - inside) as u32
    } else {
        0
    }
}

/// What comes once the new graph is ready: a graph without files is a failure.
pub open spec fn ready_stage(files: u32, scope: Seq<char>) -> StageModel {
    if files == 0 {
        StageModel::Failed("no supported source files found in "@ + scope)
    } else {
        StageModel::Publish
    }
}

/// A run with one warning more, if there is reason for it.
pub open spec fn warned(r: RunModel, reason: bool, warning: Seq<char>) -> RunModel {
    if reason {
        RunModel { warnings: r.warnings.push(warning), ..r }
    } else {
        r
    }
}

/// A run at another stage.
pub open spec fn at(r: RunModel, stage: StageModel) -> RunModel {
    RunModel { stage, ..r }
}

/// A run at its beginning.
pub open spec fn begun(path: Seq<char>, force: bool) -> RunModel {
    RunModel {
        path,
        force,
        scope: seq![],
        root: seq![],
        scope_is_root: false,
        warnings: seq![],
        stats: GraphStats { files: 0, nodes: 0, edges: 0 },
        stage: StageModel::Locate,
    }
}

/// Where an event takes a run. An event that is not of the run's stage changes
/// nothing.
pub open spec fn advanced(r: RunModel, e: Event) -> RunModel {
    match (r.stage, e) {
        (StageModel::Locate, Event::NotLocated) => at(
            r,
            StageModel::Failed("directory does not exist: "@ + r.path),
        ),
        (StageModel::Locate, Event::Located { scope, is_dir }) => if is_dir {
            RunModel { scope: scope@, stage: StageModel::Configure, ..r }
        } else {
            at(r, StageModel::Failed("path is not a directory: "@ + scope@))
        },
        (StageModel::Configure, Event::Misconfigured { fault, detail }) => at(
            r,
            StageModel::Failed(config_message(fault, detail@)),
        ),
        (StageModel::Configure, Event::Configured { root, scope_is_root, warnings }) => RunModel {
            root: root@,
            scope_is_root,
            warnings: r.warnings + views(warnings@),
            stage: StageModel::Inspect,
            ..r
        },
        (StageModel::Inspect, Event::Inspected { has_config, scope_cache }) => RunModel {
            warnings: r.warnings + file_warnings(
                r.scope,
                r.root,
                r.scope_is_root,
                has_config,
                opt_view(scope_cache),
            ),
            stage: if r.force {
                reindex_stage(r.force, r.scope_is_root)
            } else {
                StageModel::Probe
            },
            ..r
        },
        (
            StageModel::Probe,
            Event::Probed { loaded, files_in_scope, stale, sweep },
        ) => at(
            r,
            if loaded && files_in_scope > 0 && none_under(views(stale@), r.scope) {
                StageModel::Adopt(sweep_is_due(sweep))
            } else {
                reindex_stage(r.force, r.scope_is_root)
            },
        ),
        (StageModel::Adopt(sweep), Event::Adopted { swept, stats }) => warned(
            RunModel {
                stats,
                stage: if sweep {
                    StageModel::SaveAdopted
                } else {
                    StageModel::Completed
                },
                ..r
            },
            sweep && swept > 0,
            sweep_warning(swept as nat),
        ),
        (StageModel::SaveAdopted, Event::Saved { failure }) => RunModel {
            warnings: r.warnings + save_warnings(opt_view(failure)),
            stage: StageModel::Completed,
            ..r
        },
        (StageModel::LoadCache, Event::CacheLoaded { loaded }) => at(
            r,
            if !loaded {
                StageModel::Discover
            } else if r.force {
                StageModel::Prune(Pruning::DropInScope)
            } else {
                StageModel::Prune(Pruning::EvictMissing)
            },
        ),
        (StageModel::Prune(pruning), Event::Pruned { dropped }) => warned(
            at(r, StageModel::Discover),
            dropped > 0,
            pruning_warning(pruning, dropped as nat, r.scope),
        ),
        (StageModel::Discover, Event::Discovered { found, cached, stale }) => at(
            r,
            StageModel::Parse(
                if r.force {
                    views(found@)
                } else {
                    changed_files(views(found@), views(cached@), views(stale@))
                },
            ),
        ),
        (StageModel::Parse(_), Event::Indexed { warnings }) => RunModel {
            warnings: r.warnings + views(warnings@),
            stage: StageModel::Resolve,
            ..r
        },
        (StageModel::Parse(_), Event::IndexFailed { error }) => at(
            r,
            StageModel::Failed("indexing failed: "@ + error@),
        ),
        (
            StageModel::LoadCache
            | StageModel::Prune(_)
            | StageModel::Discover
            | StageModel::Parse(_)
            | StageModel::Resolve
            | StageModel::Sweep,
            Event::Crashed { error },
        ) => at(r, StageModel::Failed("indexing task panicked: "@ + error@)),
        (StageModel::Resolve, Event::Resolved { files, sweep }) => at(
            r,
            if sweep_is_due(sweep) {
                StageModel::Sweep
            } else {
                ready_stage(files, r.scope)
            },
        ),
        (StageModel::Sweep, Event::Swept { swept, files }) => warned(
            at(r, ready_stage(files, r.scope)),
            swept > 0,
            sweep_warning(swept as nat),
        ),
        (StageModel::Publish, Event::Published { stats, files_in_scope }) => warned(
            RunModel { stats, stage: StageModel::Persist, ..r },
            !r.scope_is_root && files_out_of_scope(stats.files, files_in_scope) > 0,
            out_of_scope_warning(
                files_out_of_scope(stats.files, files_in_scope) as nat,
                r.scope,
                r.root,
            ),
        ),
        (StageModel::Persist, Event::Saved { failure }) => RunModel {
            warnings: r.warnings + save_warnings(opt_view(failure)),
            stage: StageModel::Completed,
            ..r
        },
        _ => r,
    }
}

/// The phase that a job enters with a stage, if it is another one.
pub open spec fn stage_phase(stage: StageModel) -> Option<AnalyzePhase> {
    match stage {
        StageModel::Probe | StageModel::LoadCache => Some(AnalyzePhase::LoadingCache),
        StageModel::Discover => Some(AnalyzePhase::Discovering),
        StageModel::Parse(_) => Some(AnalyzePhase::Parsing),
        StageModel::Resolve => Some(AnalyzePhase::Resolving),
        StageModel::SaveAdopted | StageModel::Persist => Some(AnalyzePhase::Persisting),
        _ => None,
    }
}

/// A job's state when its run comes to a stage. How many files there are is not
/// known while they are looked for.
pub open spec fn stage_entered(s: JobStateModel, stage: StageModel) -> JobStateModel {
    match stage_phase(stage) {
        None => s,
        Some(phase) => if phase is Discovering {
            progressed(entered_phase(s, phase), 0, 0, phase_message(phase))
        } else {
            entered_phase(s, phase)
        },
    }
}

/// Notes in a job the stage that its run has come to.
pub fn enter_stage(job: &mut AnalyzeJob, run: &AnalyzeRun)
    ensures
        final(job)@ == (JobModel {
            state: stage_entered(old(job)@.state, run@.stage),
            ..old(job)@
        }),
{
    match run.phase() {
        None => {},
        Some(phase) => {
            job.set_phase(phase);
            if let AnalyzePhase::Discovering = phase {
                job.record_progress(0, 0, "Discovering source files");
            }
        },
    }
}

/// The result of a run, once it is completed.
pub open spec fn run_result(r: RunModel) -> AnalyzeResultModel {
    AnalyzeResultModel {
        files: r.stats.files,
        symbols: r.stats.nodes,
        edges: r.stats.edges,
        root_path: r.root,
        warnings: r.warnings,
    }
}

impl AnalyzeRun {
    /// A run at its beginning.
    pub fn begin(path: String, force: bool) -> (r: Self)
        ensures
            r@ == begun(path@, force),
    {
        let scope = String::new();
        let root = String::new();
        let warnings: Vec<String> = Vec::new();
        assert(scope@ =~= seq![]);
        assert(root@ =~= seq![]);
        assert(views(warnings@) =~= seq![]);
        AnalyzeRun {
            path,
            force,
            scope,
            root,
            scope_is_root: false,
            warnings,
            stats: GraphStats { files: 0, nodes: 0, edges: 0 },
            stage: Stage::Locate,
        }
    }

    /// The phase that the job enters with the run's stage, if it is another one.
    pub fn phase(&self) -> (r: Option<AnalyzePhase>)
        ensures
            r == stage_phase(self@.stage),
    {
        match self.stage {
            Stage::Probe | Stage::LoadCache => Some(AnalyzePhase::LoadingCache),
            Stage::Discover => Some(AnalyzePhase::Discovering),
            Stage::Parse(_) => Some(AnalyzePhase::Parsing),
            Stage::Resolve => Some(AnalyzePhase::Resolving),
            Stage::SaveAdopted | Stage::Persist => Some(AnalyzePhase::Persisting),
            _ => None,
        }
    }

    fn warn(&mut self, warning: String)
        ensures
            final(self)@ == (RunModel {
                warnings: old(self)@.warnings.push(warning@),
                ..old(self)@
            }),
    {
        self.warnings.push(warning);
        assert(views(self.warnings@) =~= views(old(self).warnings@).push(warning@));
    }

    fn warn_all(&mut self, warnings: Vec<String>)
        ensures
            final(self)@ == (RunModel {
                warnings: old(self)@.warnings + views(warnings@),
                ..old(self)@
            }),
    {
        let mut more = warnings;
        self.warnings.append(&mut more);
        assert(views(self.warnings@) =~= views(old(self).warnings@) + views(warnings@));
    }

    fn warn_of_save(&mut self, error: Option<String>)
        ensures
            final(self)@ == (RunModel {
                warnings: old(self)@.warnings + save_warnings(opt_view(error)),
                ..old(self)@
            }),
    {
        match error {
            Some(e) => {
                let w = glue2("cache save failed: ", e.as_str());
                self.warn(w);
                assert(old(self)@.warnings + save_warnings(opt_view(error))
                    =~= old(self)@.warnings.push("cache save failed: "@ + e@));
            },
            None => {
                assert(old(self)@.warnings + save_warnings(opt_view(error)) =~= old(
                    self,
                )@.warnings);
            },
        }
    }

    fn go_reindex(&mut self)
        ensures
            final(self)@ == at(
                old(self)@,
                reindex_stage(old(self)@.force, old(self)@.scope_is_root),
            ),
    {
        if self.force && self.scope_is_root {
            self.stage = Stage::Discover;
        } else {
            self.stage = Stage::LoadCache;
        }
    }

    fn go_ready(&mut self, files: u32)
        ensures
            final(self)@ == at(old(self)@, ready_stage(files, old(self)@.scope)),
    {
        if files == 0 {
            self.stage = Stage::Failed(
                glue2("no supported source files found in ", self.scope.as_str()),
            );
        } else {
            self.stage = Stage::Publish;
        }
    }

    fn advance_early(&mut self, e: Event)
        requires
            old(self)@.stage is Locate || old(self)@.stage is Configure || old(self)@.stage is Inspect,
        ensures
            final(self)@ == advanced(old(self)@, e),
    {
        match e {
            Event::NotLocated => {
                if let Stage::Locate = self.stage {
                    self.stage = Stage::Failed(
                        glue2("directory does not exist: ", self.path.as_str()),
                    );
                }
            },
            Event::Located { scope, is_dir } => {
                if let Stage::Locate = self.stage {
                    if is_dir {
                        self.scope = scope;
                        self.stage = Stage::Configure;
                    } else {
                        self.stage = Stage::Failed(
                            glue2("path is not a directory: ", scope.as_str()),
                        );
                    }
                }
            },
            Event::Misconfigured { fault, detail } => {
                if let Stage::Configure = self.stage {
                    self.stage = Stage::Failed(config_error(fault, detail.as_str()));
                }
            },
            Event::Configured { root, scope_is_root, warnings } => {
                if let Stage::Configure = self.stage {
                    self.root = root;
                    self.scope_is_root = scope_is_root;
                    self.warn_all(warnings);
                    self.stage = Stage::Inspect;
                }
            },
            Event::Inspected { has_config, scope_cache } => {
                if let Stage::Inspect = self.stage {
                    let ws = inspect_warnings(
                        self.scope.as_str(),
                        self.root.as_str(),
                        self.scope_is_root,
                        has_config,
                        &scope_cache,
                    );
                    self.warn_all(ws);
                    if self.force {
                        self.go_reindex();
                    } else {
                        self.stage = Stage::Probe;
                    }
                }
            },
            _ => {},
        }
    }

    /// Takes the run to where an event leads. An event that is not of the run's
    /// stage changes nothing.
    pub fn advance(&mut self, e: Event)
        ensures
            final(self)@ == advanced(old(self)@, e),
    {
        match self.stage {
            Stage::Locate | Stage::Configure | Stage::Inspect => {
                self.advance_early(e);
            },
            Stage::Probe => {
                if let Event::Probed { loaded, files_in_scope, stale, sweep } = e {
                    if loaded && files_in_scope > 0 && is_none_under(
                        &stale,
                        self.scope.as_str(),
                    ) {
                        self.stage = Stage::Adopt(sweep_due(sweep));
                    } else {
                        self.go_reindex();
                    }
                }
            },
            Stage::Adopt(sweep) => {
                if let Event::Adopted { swept, stats } = e {
                    self.stats = stats;
                    if sweep {
                        if swept > 0 {
                            self.warn(sweep_text(swept));
                        }
                        self.stage = Stage::SaveAdopted;
                    } else {
                        self.stage = Stage::Completed;
                    }
                }
            },
            Stage::SaveAdopted | Stage::Persist => {
                if let Event::Saved { failure } = e {
                    self.warn_of_save(failure);
                    self.stage = Stage::Completed;
                }
            },
            Stage::LoadCache => match e {
                Event::CacheLoaded { loaded } => {
                    if !loaded {
                        self.stage = Stage::Discover;
                    } else if self.force {
                        self.stage = Stage::Prune(Pruning::DropInScope);
                    } else {
                        self.stage = Stage::Prune(Pruning::EvictMissing);
                    }
                },
                Event::Crashed { error } => {
                    self.crash(error);
                },
                _ => {},
            },
            Stage::Prune(pruning) => match e {
                Event::Pruned { dropped } => {
                    if dropped > 0 {
                        let w = pruning_text(pruning, dropped, self.scope.as_str());
                        self.warn(w);
                    }
                    self.stage = Stage::Discover;
                },
                Event::Crashed { error } => {
                    self.crash(error);
                },
                _ => {},
            },
            Stage::Discover => match e {
                Event::Discovered { found, cached, stale } => {
                    if self.force {
                        self.stage = Stage::Parse(found);
                    } else {
                        self.stage = Stage::Parse(files_to_parse(&found, &cached, &stale));
                    }
                },
                Event::Crashed { error } => {
                    self.crash(error);
                },
                _ => {},
            },
            Stage::Parse(_) => match e {
                Event::Indexed { warnings } => {
                    self.warn_all(warnings);
                    self.stage = Stage::Resolve;
                },
                Event::IndexFailed { error } => {
                    self.stage = Stage::Failed(glue2("indexing failed: ", error.as_str()));
                },
                Event::Crashed { error } => {
                    self.crash(error);
                },
                _ => {},
            },
            Stage::Resolve => match e {
                Event::Resolved { files, sweep } => {
                    if sweep_due(sweep) {
                        self.stage = Stage::Sweep;
                    } else {
                        self.go_ready(files);
                    }
                },
                Event::Crashed { error } => {
                    self.crash(error);
                },
                _ => {},
            },
            Stage::Sweep => match e {
                Event::Swept { swept, files } => {
                    if swept > 0 {
                        self.warn(sweep_text(swept));
                    }
                    self.go_ready(files);
                },
                Event::Crashed { error } => {
                    self.crash(error);
                },
                _ => {},
            },
            Stage::Publish => {
                if let Event::Published { stats, files_in_scope } = e {
                    self.stats = stats;
                    if !self.scope_is_root {
                        let inside: u32 = #[verifier::truncate] (files_in_scope as u32);
                        let outside: u32 = stats.files.saturating_sub(inside);
                        if outside > 0 {
                            let w = out_of_scope_text(
                                outside,
                                self.scope.as_str(),
                                self.root.as_str(),
                            );
                            self.warn(w);
                        }
                    }
                    self.stage = Stage::Persist;
                }
            },
            Stage::Completed | Stage::Failed(_) => {},
        }
    }

    fn crash(&mut self, error: String)
        ensures
            final(self)@ == at(
                old(self)@,
                StageModel::Failed("indexing task panicked: "@ + error@),
            ),
    {
        self.stage = Stage::Failed(glue2("indexing task panicked: ", error.as_str()));
    }

    /// What the run came to, once it is at its end: its result, or why it
    /// failed.
    pub fn outcome(&self) -> (r: Option<Result<AnalyzeResult, String>>)
        ensures
            match self@.stage {
                StageModel::Completed => r matches Some(Ok(x)) && x@ == run_result(self@),
                StageModel::Failed(msg) => r matches Some(Err(m)) && m@ == msg,
                _ => r is None,
            },
    {
        match &self.stage {
            Stage::Completed => Some(
                Ok(
                    AnalyzeResult {
                        files: self.stats.files,
                        symbols: self.stats.nodes,
                        edges: self.stats.edges,
                        root_path: self.root.clone(),
                        warnings: copy_texts(&self.warnings),
                    },
                ),
            ),
            Stage::Failed(msg) => Some(Err(msg.clone())),
            _ => None,
        }
    }
}

// ----- laws -----

/// How far along a stage is.
pub open spec fn stage_rank(s: StageModel) -> nat {
    match s {
        StageModel::Locate => 0,
        StageModel::Configure => 1,
        StageModel::Inspect => 2,
        StageModel::Probe => 3,
        StageModel::Adopt(_) => 4,
        StageModel::SaveAdopted => 5,
        StageModel::LoadCache => 6,
        StageModel::Prune(_) => 7,
        StageModel::Discover => 8,
        StageModel::Parse(_) => 9,
        StageModel::Resolve => 10,
        StageModel::Sweep => 11,
        StageModel::Publish => 12,
        StageModel::Persist => 13,
        StageModel::Completed => 14,
        StageModel::Failed(_) => 14,
    }
}

/// A run only ever goes forward, so it comes to its end after at most fourteen
/// events that are of its stage; and at its end it stays.
pub proof fn lemma_run_goes_forward(r: RunModel, e: Event)
    ensures
        advanced(r, e) == r || stage_rank(advanced(r, e).stage) > stage_rank(r.stage),
        r.stage is Completed || r.stage is Failed ==> advanced(r, e) == r,
{
}

/// What a run was told and has warned of is never taken back.
pub proof fn lemma_run_keeps_warnings(r: RunModel, e: Event)
    ensures
        advanced(r, e).warnings.len() >= r.warnings.len(),
        advanced(r, e).warnings.take(r.warnings.len() as int) == r.warnings,
        advanced(r, e).path == r.path,
        advanced(r, e).force == r.force,
{
    assert(advanced(r, e).warnings.take(r.warnings.len() as int) =~= r.warnings);
}

/// A run that was told to ignore cached files never takes the cache for the
/// graph.
pub proof fn lemma_forced_run_indexes(r: RunModel, e: Event)
    requires
        r.force,
        !(r.stage is Probe),
    ensures
        !(advanced(r, e).stage is Probe),
        advanced(r, e).stage is Adopt ==> r.stage is Adopt,
{
}

/// Once a run has set about replacing the graph that is asked, it does not fail
/// any more: a run that failed has left that graph as it was.
pub proof fn lemma_no_failure_after_replacing(r: RunModel, e: Event)
    requires
        r.stage is Adopt || r.stage is SaveAdopted || r.stage is Publish || r.stage is Persist,
    ensures
        !(advanced(r, e).stage is Failed),
{
}

/// A cache is taken for the graph only where it could be loaded and has files
/// under the directory, none of them out of date.
pub proof fn lemma_only_fresh_cache_adopted(r: RunModel, e: Event)
    requires
        !(r.stage is Adopt),
        advanced(r, e).stage is Adopt,
    ensures
        !r.force || r.stage is Probe,
        e matches Event::Probed { loaded, files_in_scope, stale, sweep: _ } && loaded
            && files_in_scope > 0 && none_under(views(stale@), r.scope),
{
}

/// Only files that changed are parsed again: of those that were found, a run
/// parses, in their order, exactly the ones that are out of date or not cached.
/// A run that was told to ignore cached files parses all of them.
pub proof fn lemma_only_changed_files_parsed(r: RunModel, e: Event)
    requires
        r.stage is Discover,
        e is Discovered,
    ensures
        ({
            let next = advanced(r, e).stage;
            let found = views(e->found@);
            let cached = views(e->cached@);
            let stale = views(e->Discovered_stale@);
            &&& next is Parse
            &&& r.force ==> next->Parse_0 == found
            &&& !r.force ==> next->Parse_0 == changed_files(found, cached, stale)
            &&& !r.force ==> forall|f: Seq<char>|
                #![auto]
                next->Parse_0.contains(f) <==> found.contains(f) && (stale.contains(f)
                    || !cached.contains(f))
        }),
{
    broadcast use vstd::seq_lib::group_filter_ensures;

    let found = views(e->found@);
    let cached = views(e->cached@);
    let stale = views(e->Discovered_stale@);
    let pass = |f: Seq<char>| stale.contains(f) || !cached.contains(f);
    let kept = found.filter(pass);
    assert forall|f: Seq<char>|
        #![auto]
        kept.contains(f) <==> found.contains(f) && (stale.contains(f) || !cached.contains(f)) by {
        if kept.contains(f) {
            let k = choose|k: int| 0 <= k < kept.len() && kept[k] == f;
            assert(pass(kept[k]));
            lemma_filter_from(found, pass, k);
        }
        if found.contains(f) && pass(f) {
            let k = choose|k: int| 0 <= k < found.len() && found[k] == f;
            assert(kept.contains(found[k]));
        }
    }
}

/// While files are looked for, a job reports no total.
pub proof fn lemma_discovery_has_no_total(s: JobStateModel)
    ensures
        stage_entered(s, StageModel::Discover).progress == 0,
        stage_entered(s, StageModel::Discover).progress_total == 0,
        stage_entered(s, StageModel::Discover).current_phase == Some(AnalyzePhase::Discovering),
{
}

} // verus!
