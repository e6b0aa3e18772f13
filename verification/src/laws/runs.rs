//! What a run of analyzing does at each of its stages.

use super::lemma_same_filter;
use super::search::{lemma_lies_in, lies_in};
use crate::analyze_job::{AnalyzePhase, JobStateModel};
use crate::analyze_run::{
    advanced, begun, file_warnings, none_under, run_result, stage_entered, sweep_is_due,
    ConfigFault, Event, Pruning, RunModel, StageModel, SweepClock,
};
use crate::json::opt_view;
use crate::sort::views;
use crate::text::{at_or_under, decimal};
use vstd::prelude::*;

verus! {

/// Whether it is time to look for deleted files elsewhere: as long ago as that is
/// to be done. A clock that was set back counts as no time gone by.
pub open spec fn is_time(c: SweepClock) -> bool {
    let gone = if c.now >= c.last {
        c.now - c.last
    } else {
        0
    };
    gone >= c.interval
}

/// A run begins with finding the directory, and has nothing to warn of.
pub proof fn lemma_run_begins(path: Seq<char>, force: bool)
    ensures
        begun(path, force).stage is Locate,
        begun(path, force).path == path,
        begun(path, force).force == force,
        begun(path, force).warnings.len() == 0,
{
}

/// What a run does before it touches a cache. A path that names nothing or no
/// directory fails it, and so does a configuration that is no good; the message
/// says which. Else it knows its directory and its root, and goes on to probe the
/// cache; one that is to ignore cached files goes on to index, and loads the cache
/// only where that has files of other directories.
pub proof fn lemma_run_finds_its_way(r: RunModel, e: Event)
    ensures
        ({
            let n = advanced(r, e);
            &&& r.stage is Locate && e is NotLocated ==> n.stage == StageModel::Failed(
                "directory does not exist: "@ + r.path,
            )
            &&& r.stage is Locate && e is Located && !e->is_dir ==> n.stage == StageModel::Failed(
                "path is not a directory: "@ + e->scope@,
            )
            &&& r.stage is Locate && e is Located && e->is_dir ==> n.stage is Configure && n.scope
                == e->scope@
            &&& r.stage is Configure && e is Misconfigured ==> n.stage == StageModel::Failed(
                match e->fault {
                    ConfigFault::Toml => "failed to parse .code-graph.toml: "@,
                    ConfigFault::Io => "failed to read .code-graph.toml: "@,
                    ConfigFault::Invalid => "invalid .code-graph.toml: "@,
                } + e->detail@,
            )
            &&& r.stage is Configure && e is Configured ==> n.stage is Inspect && n.root
                == e->root@ && n.scope_is_root == e->scope_is_root && n.warnings == r.warnings
                + views(e->Configured_warnings@)
            &&& r.stage is Inspect && e is Inspected && !r.force ==> n.stage is Probe
            &&& r.stage is Inspect && e is Inspected && r.force && r.scope_is_root
                ==> n.stage is Discover
            &&& r.stage is Inspect && e is Inspected && r.force && !r.scope_is_root
                ==> n.stage is LoadCache
        }),
{
}

/// What a run warns of once it has looked for configuration and cache files: that
/// there is no configuration, or that one above the directory applies; and that a
/// cache in the directory is not used where it is not the root.
pub proof fn lemma_run_warns_of_files(r: RunModel, e: Event)
    requires
        r.stage is Inspect,
        e is Inspected,
    ensures
        ({
            let w = advanced(r, e).warnings.skip(r.warnings.len() as int);
            let none = "no .code-graph.toml found between "@ + r.scope
                + " and filesystem root; using built-in defaults. C++ classes prefixed with API-export macros (e.g. `class CORE_API Foo`) will NOT be indexed. Place a .code-graph.toml with [cpp].macro_strip at your project root to enable engine-style support."@;
            let above = "using .code-graph.toml found at "@ + r.root + " (parent of indexed root "@
                + r.scope
                + "); cache lives at the project root, indexing scope stays at the invocation path"@;
            &&& w.contains(none) <== !e->has_config
            &&& w.contains(above) <== e->has_config && !r.scope_is_root
            &&& w.len() == (if !e->has_config || !r.scope_is_root {
                1int
            } else {
                0
            }) + (if !r.scope_is_root && e->scope_cache is Some {
                1int
            } else {
                0
            })
            &&& !r.scope_is_root && e->scope_cache is Some ==> w.last()
                == "orphan cache detected at "@ + e->scope_cache->0@
                + " \u{2014} the indexer now caches at the project root ("@ + r.root
                + "). The orphan is not used and can be deleted to reclaim disk."@
        }),
{
    let n = advanced(r, e);
    let more = file_warnings(
        r.scope,
        r.root,
        r.scope_is_root,
        e->has_config,
        opt_view(e->scope_cache),
    );
    let w = n.warnings.skip(r.warnings.len() as int);
    assert(w =~= more);
    if w.len() > 0 {
        assert(w[0] == more[0]);
    }
}

/// A probed cache is taken for the graph exactly where it could be loaded, has
/// files in the directory, and none of those is out of date, whatever is out of
/// date elsewhere. Deleted files elsewhere are dropped where it is time, and only
/// then is the cache saved. The result has the size of the adopted graph.
pub proof fn lemma_run_adopts(r: RunModel, e: Event)
    requires
        r.scope.len() > 0,
    ensures
        ({
            let n = advanced(r, e);
            &&& r.stage is Probe && e is Probed ==> {
                let fresh = e->Probed_loaded && e->Probed_files_in_scope > 0 && forall|i: int|
                    0 <= i < e->Probed_stale@.len() ==> !lies_in(
                        (#[trigger] e->Probed_stale@[i])@,
                        r.scope,
                    );
                &&& n.warnings == r.warnings
                &&& fresh ==> n.stage == StageModel::Adopt(is_time(e->Probed_sweep))
                &&& !fresh ==> n.stage is LoadCache || (n.stage is Discover && r.force
                    && r.scope_is_root)
            }
            &&& r.stage is Adopt && e is Adopted ==> n.stats == e->Adopted_stats && (
            n.stage is SaveAdopted <==> r.stage->Adopt_0) && (n.stage is Completed
                <==> !r.stage->Adopt_0)
            &&& r.stage is Adopt && e is Adopted ==> n.warnings == r.warnings + (
            if r.stage->Adopt_0 && e->Adopted_swept > 0 {
                seq![removed(e->Adopted_swept as nat)]
            } else {
                seq![]
            })
            &&& (r.stage is SaveAdopted || r.stage is Persist) && e is Saved
                ==> n.stage is Completed && n.warnings == r.warnings + match e->failure {
                Some(why) => seq!["cache save failed: "@ + why@],
                None => seq![],
            }
        }),
{
    let n = advanced(r, e);
    if r.stage is Probe && e is Probed {
        let stale = e->Probed_stale@;
        assert forall|i: int| 0 <= i < stale.len() implies at_or_under(
            (#[trigger] stale[i])@,
            r.scope,
        ) == lies_in(stale[i]@, r.scope) by {
            lemma_lies_in(stale[i]@, r.scope);
        }
        let fresh = forall|i: int|
            0 <= i < stale.len() ==> !lies_in((#[trigger] stale[i])@, r.scope);
        if fresh {
            assert forall|i: int| 0 <= i < views(stale).len() implies !at_or_under(
                #[trigger] views(stale)[i],
                r.scope,
            ) by {
                assert(views(stale)[i] == stale[i]@);
            }
        } else {
            let i = choose|i: int| 0 <= i < stale.len() && lies_in((#[trigger] stale[i])@, r.scope);
            assert(views(stale)[i] == stale[i]@);
            assert(!none_under(views(stale), r.scope));
        }
        assert(sweep_is_due(e->Probed_sweep) == is_time(e->Probed_sweep));
    }
    if r.stage is Adopt && e is Adopted {
        assert(n.warnings =~= r.warnings + (if r.stage->Adopt_0 && e->Adopted_swept > 0 {
            seq![removed(e->Adopted_swept as nat)]
        } else {
            seq![]
        }));
    }
    if (r.stage is SaveAdopted || r.stage is Persist) && e is Saved {
        assert(n.warnings =~= r.warnings + match e->failure {
            Some(why) => seq!["cache save failed: "@ + why@],
            None => seq![],
        });
    }
}

/// What is said of deleted files elsewhere that were dropped.
pub open spec fn removed(swept: nat) -> Seq<char> {
    "out-of-scope sweep removed "@ + decimal(swept)
        + " stale cache entry(ies) (files deleted in subtrees not touched by this invocation)"@
}

/// What a run does when it indexes. It drops the cached files of its directory
/// where it is to ignore them, and else those that are gone; how many is a
/// warning. Then it looks for files, parses, resolves, sweeps where it is time,
/// and takes the new graph, unless that is empty. Warnings of parsing are kept.
pub proof fn lemma_run_indexes(r: RunModel, e: Event)
    ensures
        ({
            let n = advanced(r, e);
            &&& r.stage is LoadCache && e is CacheLoaded && !e->CacheLoaded_loaded
                ==> n.stage is Discover
            &&& r.stage is LoadCache && e is CacheLoaded && e->CacheLoaded_loaded ==> n.stage
                == StageModel::Prune(
                if r.force {
                    Pruning::DropInScope
                } else {
                    Pruning::EvictMissing
                },
            )
            &&& r.stage is Prune && e is Pruned ==> n.stage is Discover && n.warnings == r.warnings
                + (if e->dropped == 0 {
                seq![]
            } else if r.stage->Prune_0 is DropInScope {
                seq![
                    "force=true dropped "@ + decimal(e->dropped as nat) + " cached file(s) under "@
                        + r.scope + " before re-index"@,
                ]
            } else {
                seq![
                    "evicted "@ + decimal(e->dropped as nat) + " cached file(s) under "@ + r.scope
                        + " (no longer present on disk)"@,
                ]
            })
            &&& r.stage is Parse && e is Indexed ==> n.stage is Resolve && n.warnings == r.warnings
                + views(e->Indexed_warnings@)
            &&& r.stage is Parse && e is IndexFailed ==> n.stage == StageModel::Failed(
                "indexing failed: "@ + e->IndexFailed_error@,
            )
            &&& (r.stage is LoadCache || r.stage is Prune || r.stage is Discover
                || r.stage is Parse || r.stage is Resolve || r.stage is Sweep) && e is Crashed
                ==> n.stage == StageModel::Failed(
                "indexing task panicked: "@ + e->Crashed_error@,
            )
            &&& r.stage is Resolve && e is Resolved && is_time(e->Resolved_sweep)
                ==> n.stage is Sweep
            &&& r.stage is Resolve && e is Resolved && !is_time(e->Resolved_sweep)
                && e->Resolved_files > 0 ==> n.stage is Publish
            &&& r.stage is Resolve && e is Resolved && !is_time(e->Resolved_sweep)
                && e->Resolved_files == 0 ==> n.stage == StageModel::Failed(
                "no supported source files found in "@ + r.scope,
            )
            &&& r.stage is Sweep && e is Swept && e->Swept_files > 0 ==> n.stage is Publish
            &&& r.stage is Sweep && e is Swept && e->Swept_files == 0 ==> n.stage
                == StageModel::Failed("no supported source files found in "@ + r.scope)
            &&& r.stage is Sweep && e is Swept ==> n.warnings == r.warnings + (
            if e->Swept_swept > 0 {
                seq![removed(e->Swept_swept as nat)]
            } else {
                seq![]
            })
        }),
{
    let n = advanced(r, e);
    if e is Resolved {
        assert(sweep_is_due(e->Resolved_sweep) == is_time(e->Resolved_sweep));
    }
    if r.stage is Prune && e is Pruned {
        let more = if e->dropped == 0 {
            seq![]
        } else if r.stage->Prune_0 is DropInScope {
            seq![
                "force=true dropped "@ + decimal(e->dropped as nat) + " cached file(s) under "@
                    + r.scope + " before re-index"@,
            ]
        } else {
            seq![
                "evicted "@ + decimal(e->dropped as nat) + " cached file(s) under "@ + r.scope
                    + " (no longer present on disk)"@,
            ]
        };
        assert(n.warnings =~= r.warnings + more);
    }
    if r.stage is Sweep && e is Swept {
        assert(n.warnings =~= r.warnings + (if e->Swept_swept > 0 {
            seq![removed(e->Swept_swept as nat)]
        } else {
            seq![]
        }));
    }
}

/// A run parses, in the order in which they were found, all files where it is to
/// ignore cached ones, and else those that are out of date or not cached.
pub proof fn lemma_run_parses(r: RunModel, e: Event)
    requires
        r.stage is Discover,
        e is Discovered,
    ensures
        advanced(r, e).stage is Parse,
        advanced(r, e).warnings == r.warnings,
        r.force ==> advanced(r, e).stage->Parse_0 == views(e->found@),
        !r.force ==> advanced(r, e).stage->Parse_0 == to_parse(
            views(e->found@),
            views(e->cached@),
            views(e->Discovered_stale@),
        ),
{
    let found = views(e->found@);
    let cached = views(e->cached@);
    let stale = views(e->Discovered_stale@);
    lemma_same_filter(
        found,
        |f: Seq<char>| stale.contains(f) || !cached.contains(f),
        |f: Seq<char>| !cached.contains(f) || stale.contains(f),
    );
}

/// The files to parse of those that were found.
pub open spec fn to_parse(
    found: Seq<Seq<char>>,
    cached: Seq<Seq<char>>,
    stale: Seq<Seq<char>>,
) -> Seq<Seq<char>> {
    found.filter(|f: Seq<char>| !cached.contains(f) || stale.contains(f))
}

/// Once the new graph is the one that is asked, the run saves it. Files that the
/// graph has outside the directory are warned of where the directory is not the
/// root.
pub proof fn lemma_run_publishes(r: RunModel, e: Event)
    requires
        r.stage is Publish,
        e is Published,
        e->Published_files_in_scope <= e->Published_stats.files,
    ensures
        ({
            let n = advanced(r, e);
            let outside = (e->Published_stats.files - e->Published_files_in_scope) as nat;
            &&& n.stage is Persist
            &&& n.stats == e->Published_stats
            &&& n.warnings == r.warnings + (if !r.scope_is_root && outside > 0 {
                seq![
                    "project cache contains "@ + decimal(outside)
                        + " file(s) outside the current scope ("@ + r.scope
                        + "); they are preserved across this invocation. Run analyze_codebase at "@
                        + r.root
                        + " to refresh them, or force=true at any subtree to invalidate it."@,
                ]
            } else {
                seq![]
            })
        }),
{
    let n = advanced(r, e);
    let outside = (e->Published_stats.files - e->Published_files_in_scope) as nat;
    assert(n.warnings =~= r.warnings + (if !r.scope_is_root && outside > 0 {
        seq![
            "project cache contains "@ + decimal(outside) + " file(s) outside the current scope ("@
                + r.scope
                + "); they are preserved across this invocation. Run analyze_codebase at "@ + r.root
                + " to refresh them, or force=true at any subtree to invalidate it."@,
        ]
    } else {
        seq![]
    }));
}

/// The result of a run is the size of its graph, its root, and all that it warned
/// of.
pub proof fn lemma_run_result(r: RunModel)
    ensures
        run_result(r).files == r.stats.files,
        run_result(r).symbols == r.stats.nodes,
        run_result(r).edges == r.stats.edges,
        run_result(r).root_path == r.root,
        run_result(r).warnings == r.warnings,
{
}

/// What a job says of the stage of its run: that the cache is loaded, that files
/// are looked for, parsed or resolved, or that the graph is saved.
pub proof fn lemma_stages_shown(s: JobStateModel, stage: StageModel)
    ensures
        ({
            let t = stage_entered(s, stage);
            &&& stage is Probe || stage is LoadCache ==> t.current_phase == Some(
                AnalyzePhase::LoadingCache,
            )
            &&& stage is Discover ==> t.current_phase == Some(AnalyzePhase::Discovering)
                && t.progress_message == "Discovering source files"@
            &&& stage is Parse ==> t.current_phase == Some(AnalyzePhase::Parsing)
            &&& stage is Resolve ==> t.current_phase == Some(AnalyzePhase::Resolving)
            &&& stage is SaveAdopted || stage is Persist ==> t.current_phase == Some(
                AnalyzePhase::Persisting,
            )
            &&& stage is Locate || stage is Configure || stage is Inspect || stage is Adopt
                || stage is Prune || stage is Sweep || stage is Publish || stage is Completed
                || stage is Failed ==> t == s
            &&& t.status == s.status
            &&& t.finished_at == s.finished_at
        }),
{
}

} // verus!
