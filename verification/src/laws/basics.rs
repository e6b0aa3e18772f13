//! What the tools build on: names, parts of texts, sorting and reports.

use crate::clock::stored_nanos;
use crate::handlers::edge_kind_name;
use crate::handlers::status::build_name;
use crate::indexer::{told_of_resolving, ProgressSink};
use crate::model::{EdgeKind, FileGraphModel};
use crate::sort::{
    in_order, lemma_filter_from, lemma_stable_sorted_filter, lemma_stable_sorted_idempotent,
    stable_sorted, Sortable,
};
use crate::text::{contains, occurs_at, starts_with};
use vstd::prelude::*;

verus! {

/// Each kind of edge goes by its own name.
pub proof fn lemma_edge_kinds_named()
    ensures
        edge_kind_name(EdgeKind::Calls) == "calls"@,
        edge_kind_name(EdgeKind::Includes) == "includes"@,
        edge_kind_name(EdgeKind::Inherits) == "inherits"@,
        edge_kind_name(EdgeKind::Overrides) == "overrides"@,
{
}

/// A build goes by its commit, marked where the sources had changed since, and is
/// unknown where the commit is.
pub proof fn lemma_builds_named(commit: Seq<char>, dirty: bool)
    ensures
        build_name(None, dirty) == "unknown"@,
        commit.len() == 0 ==> build_name(Some(commit), dirty) == "unknown"@,
        build_name(Some("unknown"@), dirty) == "unknown"@,
        commit.len() > 0 && !dirty ==> build_name(Some(commit), dirty) == commit,
        commit.len() > 0 && dirty && commit != "unknown"@ ==> build_name(Some(commit), dirty)
            == commit + "-dirty"@,
{
}

/// A time is kept as it is as long as it can be, and as the latest that can be
/// kept beyond that. One before the epoch is none.
pub proof fn lemma_times_kept(nanos: u128)
    ensures
        stored_nanos(None) == 0,
        nanos <= u64::MAX ==> stored_nanos(Some(nanos)) == nanos,
        nanos > u64::MAX ==> stored_nanos(Some(nanos)) == u64::MAX,
{
}

/// A text is a part of another where that is made of something, the text, and
/// something more; it stands at the front where there is nothing before it.
pub proof fn lemma_parts_of_texts(s: Seq<char>, p: Seq<char>)
    ensures
        contains(s, p) <==> exists|a: Seq<char>, b: Seq<char>| s == #[trigger] (a + p + b),
        starts_with(s, p) <==> exists|b: Seq<char>| s == #[trigger] (p + b),
{
    if contains(s, p) {
        let at = choose|at: int| occurs_at(s, p, at);
        let a = s.take(at);
        let b = s.skip(at + p.len());
        assert forall|i: int| 0 <= i < p.len() implies s[at + i] == p[i] by {
            assert(s.subrange(at, at + p.len())[i] == p[i]);
        }
        assert(s =~= a + p + b);
    }
    if exists|a: Seq<char>, b: Seq<char>| s == #[trigger] (a + p + b) {
        let (a, b) = choose|a: Seq<char>, b: Seq<char>| s == #[trigger] (a + p + b);
        assert(s.subrange(a.len() as int, (a.len() + p.len()) as int) =~= p);
        assert(occurs_at(s, p, a.len() as int));
    }
    if starts_with(s, p) {
        let b = s.skip(p.len() as int);
        assert forall|i: int| 0 <= i < p.len() implies s[i] == p[i] by {
            assert(s.subrange(0, p.len() as int)[i] == p[i]);
        }
        assert(s =~= p + b);
    }
    if exists|b: Seq<char>| s == #[trigger] (p + b) {
        let b = choose|b: Seq<char>| s == #[trigger] (p + b);
        assert(s.subrange(0, p.len() as int) =~= p);
    }
}

/// Sorting keeps elements that rank the same in the order in which they were.
pub proof fn lemma_sorting_keeps_equals<T: Sortable>(s: Seq<T::V>, v: T::V)
    ensures
        stable_sorted::<T>(s).filter(|x: T::V| T::at_most(x, v) && T::at_most(v, x)) == s.filter(
            |x: T::V| T::at_most(x, v) && T::at_most(v, x),
        ),
{
    let same = |x: T::V| T::at_most(x, v) && T::at_most(v, x);
    let kept = s.filter(same);
    lemma_stable_sorted_filter::<T>(s, same);
    assert forall|i: int, j: int| 0 <= i < j < kept.len() implies T::at_most(
        #[trigger] kept[i],
        #[trigger] kept[j],
    ) by {
        lemma_filter_from(s, same, i);
        lemma_filter_from(s, same, j);
        T::lemma_transitive(kept[i], v, kept[j]);
    }
    assert(in_order::<T>(kept));
    lemma_stable_sorted_idempotent::<T>(kept);
}

/// Resolving reports each file in turn, counted from one, with the number of all.
pub proof fn lemma_files_reported<P: ProgressSink>(sink: P, graphs: Seq<FileGraphModel>, i: int)
    requires
        told_of_resolving(sink, graphs),
        graphs.len() <= u32::MAX,
        0 <= i < graphs.len(),
    ensures
        sink.was_told(
            (i + 1) as u32,
            graphs.len() as u32,
            "Resolving edges: "@ + graphs[i].path,
        ),
{
}

} // verus!
