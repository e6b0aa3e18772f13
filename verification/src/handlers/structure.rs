//! Tools on structure: cycles, orphans, class hierarchies, coupling and
//! diagrams.

use super::query::{resolve_depth, resolved_depth};
use super::{
    argument, argument_or_empty, first, given, given_argument, ids_of, kind_named,
    min_confidence_named, not_found, not_found_reply, parse_kind, parse_min_confidence,
    symbol_hint, symbol_not_found, symbol_row, symbol_rows, symbol_to_result, SymbolResult,
    SymbolRow,
};
use crate::json::{
    array_of, jsons, member_models, no_members, number, object, opt_view, put,
    render, text, Json, JsonModel, ToJson,
};
use crate::model::{id_of, symbol_id, Confidence, Symbol, SymbolKind, SymbolModel};
use crate::page::{
    all_pages, behind, cost, count_reply, lemma_all_pages_cover, lemma_filter_costs_less, page_of,
    page_reply, paginate, record_budget, reply_with_count, reply_with_page, resolve_limit,
    resolve_offset, resolved_limit, resolved_offset, Page, PageModel, ENVELOPE_OVERHEAD_BYTES,
    MAX_PAGE_LIMIT,
};
use crate::reply::{
    failure, success, tool_error, tool_success_json, tool_success_text, ReplyModel, ToolReply,
};
use crate::sort::{
    distinct_by, lemma_filter_all, lemma_filter_ends, lemma_filter_from, lemma_filter_map,
    lemma_filter_next, lemma_stable_sorted_distinct, lemma_stable_sorted_filter,
    lemma_stable_sorted_in_order, reversed, sort, stable_sorted, views, Sortable,
};
use crate::text::{
    contains, debug_quoted, debug_text, decimal, decimal_text, glue2, glue3, has_part, has_prefix,
    join, joined, lemma_text_le_total, lemma_text_le_transitive, owned, same_text, size,
    starts_with, text_at_most, text_le, texts,
};
use vstd::prelude::*;

verus! {

// ----- cycles -----

/// Texts are sorted as `str` compares.
impl Sortable for String {
    open spec fn at_most(a: Seq<char>, b: Seq<char>) -> bool {
        text_le(a, b)
    }

    proof fn lemma_total(a: Seq<char>, b: Seq<char>) {
        lemma_text_le_total(a, b);
    }

    proof fn lemma_transitive(a: Seq<char>, b: Seq<char>, c: Seq<char>) {
        lemma_text_le_transitive(a, b, c);
    }

    fn precedes(&self, other: &Self) -> (r: bool) {
        text_at_most(self.as_str(), other.as_str())
    }
}

/// The files of a cycle.
pub struct FileCycle {
    pub files: Vec<String>,
}

impl View for FileCycle {
    type V = Seq<Seq<char>>;

    open spec fn view(&self) -> Seq<Seq<char>> {
        views(self.files@)
    }
}

/// Cycles are sorted by their first file; one without files comes first.
impl Sortable for FileCycle {
    open spec fn at_most(a: Seq<Seq<char>>, b: Seq<Seq<char>>) -> bool {
        a.len() == 0 || (b.len() > 0 && text_le(a[0], b[0]))
    }

    proof fn lemma_total(a: Seq<Seq<char>>, b: Seq<Seq<char>>) {
        if a.len() > 0 && b.len() > 0 {
            lemma_text_le_total(a[0], b[0]);
        }
    }

    proof fn lemma_transitive(a: Seq<Seq<char>>, b: Seq<Seq<char>>, c: Seq<Seq<char>>) {
        if a.len() > 0 {
            lemma_text_le_transitive(a[0], b[0], c[0]);
        }
    }

    fn precedes(&self, other: &Self) -> (r: bool) {
        self.files.is_empty() || (!other.files.is_empty() && text_at_most(
            self.files[0].as_str(),
            other.files[0].as_str(),
        ))
    }
}

/// A cycle as it is listed. `truncated` says that files were left out, and
/// `original_len` how many there were.
#[derive(Debug, Clone)]
pub struct Cycle {
    pub files: Vec<String>,
    pub truncated: bool,
    pub original_len: Option<u32>,
}

/// What a [`Cycle`] stands for.
pub struct CycleModel {
    pub files: Seq<Seq<char>>,
    pub truncated: bool,
    pub original_len: Option<u32>,
}

impl View for Cycle {
    type V = CycleModel;

    open spec fn view(&self) -> CycleModel {
        CycleModel {
            files: views(self.files@),
            truncated: self.truncated,
            original_len: self.original_len,
        }
    }
}

impl ToJson for Cycle {
    open spec fn json_of(v: CycleModel) -> JsonModel {
        let always = seq![
            ("files"@, JsonModel::Array(jsons::<String>(v.files))),
            ("truncated"@, JsonModel::Bool(v.truncated)),
        ];
        JsonModel::Object(
            match v.original_len {
                Some(n) => always.push(("original_len"@, JsonModel::Number(n as nat))),
                None => always,
            },
        )
    }

    fn to_json(&self) -> (r: Json) {
        let mut m = no_members();
        put(&mut m, "files", array_of(&self.files));
        put(&mut m, "truncated", Json::Bool(self.truncated));
        match self.original_len {
            Some(n) => put(&mut m, "original_len", number(n)),
            None => {},
        }
        assert(member_models(m@) =~= Self::json_of(self@)->Object_0);
        object(m)
    }
}

/// A cycle with at most `most` of its files.
pub open spec fn capped_cycle(files: Seq<Seq<char>>, most: u32) -> CycleModel {
    if files.len() as u32 > most {
        CycleModel {
            files: first(files, most as nat),
            truncated: true,
            original_len: Some(files.len() as u32),
        }
    } else {
        CycleModel { files, truncated: false, original_len: None }
    }
}

/// A cycle with at most `most` of its files.
fn cap_cycle(files: Vec<String>, most: u32) -> (r: Cycle)
    ensures
        r@ == capped_cycle(views(files@), most),
{
    let n: u32 = #[verifier::truncate] (files.len() as u32);
    if n > most {
        let mut kept = files;
        kept.truncate(most as usize);
        assert(views(kept@) =~= first(views(files@), most as nat));
        Cycle { files: kept, truncated: true, original_len: Some(n) }
    } else {
        Cycle { files, truncated: false, original_len: None }
    }
}

/// Cycles in their order of listing: the files within each sorted, and the
/// cycles sorted by their first file.
pub open spec fn ordered_cycles(cycles: Seq<Seq<Seq<char>>>) -> Seq<Seq<Seq<char>>> {
    stable_sorted::<FileCycle>(
        cycles.map_values(|c: Seq<Seq<char>>| stable_sorted::<String>(c)),
    )
}

/// A page of cycles. It is cut by count alone, and goes on where it stopped as
/// long as there are more. Each cycle on it is cut to `most` files.
pub open spec fn cycles_page(
    cycles: Seq<Seq<Seq<char>>>,
    limit: u32,
    offset: u32,
    most: u32,
) -> PageModel<CycleModel> {
    let ordered = ordered_cycles(cycles);
    let shown = first(behind(ordered, offset), limit as nat);
    let total = ordered.len() as u32;
    let truncated = offset + shown.len() < total;
    PageModel {
        results: shown.map_values(|c: Seq<Seq<char>>| capped_cycle(c, most)),
        total,
        offset,
        limit,
        truncated,
        next_offset: if truncated {
            Some((offset + shown.len()) as u32)
        } else {
            None
        },
    }
}

/// Sorts the files of each cycle.
fn sort_files(cycles: Vec<FileCycle>) -> (r: Vec<FileCycle>)
    ensures
        views(r@) == views(cycles@).map_values(|c: Seq<Seq<char>>| stable_sorted::<String>(c)),
{
    let mut rest = reversed(cycles);
    let mut out: Vec<FileCycle> = Vec::new();
    while rest.len() > 0
        invariant
            out@.len() + rest@.len() == cycles@.len(),
            forall|k: int|
                0 <= k < rest@.len() ==> #[trigger] rest@[k] == cycles@[cycles@.len() - 1 - k],
            forall|k: int|
                0 <= k < out@.len() ==> #[trigger] out@[k]@ == stable_sorted::<String>(
                    cycles@[k]@,
                ),
        decreases rest@.len(),
    {
        if let Some(c) = rest.pop() {
            out.push(FileCycle { files: sort(c.files) });
        }
    }
    assert(views(out@) =~= views(cycles@).map_values(
        |c: Seq<Seq<char>>| stable_sorted::<String>(c),
    ));
    out
}

/// The answer to a request for cycles.
pub open spec fn cycles_reply(
    cycles: Seq<Seq<Seq<char>>>,
    limit: Option<u32>,
    offset: Option<u32>,
    max_cycle_size: Option<u32>,
) -> ReplyModel {
    success(
        render(
            Page::<Cycle>::json_of(
                cycles_page(
                    cycles,
                    resolved_limit(limit, 20, MAX_PAGE_LIMIT),
                    resolved_offset(offset),
                    resolved_limit(max_cycle_size, 50, 500),
                ),
            ),
        ),
    )
}

/// Answers a request for cycles of includes, where `cycles` are those that the
/// graph has.
pub fn detect_cycles(
    cycles: Vec<FileCycle>,
    limit: Option<u32>,
    offset: Option<u32>,
    max_cycle_size: Option<u32>,
) -> (r: ToolReply)
    ensures
        r@ == cycles_reply(views(cycles@), limit, offset, max_cycle_size),
{
    let limit: u32 = resolve_limit(limit, 20, MAX_PAGE_LIMIT);
    let offset: u32 = resolve_offset(offset);
    let most: u32 = resolve_limit(max_cycle_size, 50, 500);
    let mut ordered = sort(sort_files(cycles));
    let ghost all = ordered_cycles(views(cycles@));
    assert(views(ordered@) == all);
    assert(ordered@.len() == all.len());
    let total: u32 = #[verifier::truncate] (ordered.len() as u32);
    let start: usize = if (offset as usize) < ordered.len() {
        offset as usize
    } else {
        ordered.len()
    };
    let mut rest = ordered.split_off(start);
    rest.truncate(limit as usize);
    let ghost shown = first(behind(all, offset), limit as nat);
    assert(views(rest@) =~= shown);
    let emitted: usize = rest.len();
    assert(shown.len() == emitted);
    let mut rest = reversed(rest);
    let mut results: Vec<Cycle> = Vec::new();
    while rest.len() > 0
        invariant
            results@.len() + rest@.len() == shown.len(),
            forall|k: int|
                0 <= k < rest@.len() ==> (#[trigger] rest@[k])@ == shown[shown.len() - 1 - k],
            forall|k: int|
                0 <= k < results@.len() ==> #[trigger] results@[k]@ == capped_cycle(shown[k], most),
        decreases rest@.len(),
    {
        if let Some(c) = rest.pop() {
            results.push(cap_cycle(c.files, most));
        }
    }
    assert(views(results@) =~= shown.map_values(|c: Seq<Seq<char>>| capped_cycle(c, most)));
    let end: u64 = offset as u64 + emitted as u64;
    let truncated = end < total as u64;
    let next_offset: Option<u32> = if truncated {
        Some(end as u32)
    } else {
        None
    };
    tool_success_json(&Page { results, total, offset, limit, truncated, next_offset })
}

/// Pages of cycles go on where they stop: a page says so exactly while there
/// are more cycles behind it, and none is lost between them.
pub proof fn lemma_cycle_pages_resume(
    cycles: Seq<Seq<Seq<char>>>,
    limit: u32,
    offset: u32,
    most: u32,
)
    requires
        cycles.len() <= u32::MAX,
        limit > 0,
    ensures
        ({
            let p = cycles_page(cycles, limit, offset, most);
            let all = ordered_cycles(cycles);
            &&& p.total == cycles.len()
            &&& p.truncated <==> offset + p.results.len() < cycles.len()
            &&& p.truncated ==> p.next_offset == Some((offset + p.results.len()) as u32)
            &&& p.truncated ==> p.results.len() == limit
            &&& !p.truncated ==> p.next_offset is None
            &&& offset <= cycles.len() ==> p.results == all.subrange(
                offset as int,
                offset + p.results.len(),
            ).map_values(|c: Seq<Seq<char>>| capped_cycle(c, most))
        }),
{
    let sorted_files = cycles.map_values(|c: Seq<Seq<char>>| stable_sorted::<String>(c));
    lemma_stable_sorted_in_order::<FileCycle>(sorted_files);
    let p = cycles_page(cycles, limit, offset, most);
    let all = ordered_cycles(cycles);
    assert(all.len() == cycles.len());
    if offset <= cycles.len() {
        assert(p.results =~= all.subrange(offset as int, offset + p.results.len()).map_values(
            |c: Seq<Seq<char>>| capped_cycle(c, most),
        ));
    }
}

/// A listed cycle holds no more files than asked for, and says so exactly when
/// it leaves some out.
pub proof fn lemma_capped_cycle(files: Seq<Seq<char>>, most: u32)
    requires
        files.len() <= u32::MAX,
    ensures
        ({
            let c = capped_cycle(files, most);
            &&& c.files.len() <= most
            &&& c.truncated <==> c.files.len() < files.len()
            &&& c.files == files.take(c.files.len() as int)
            &&& c.original_len == if c.truncated {
                Some(files.len() as u32)
            } else {
                None
            }
        }),
{
    assert(files.take(files.len() as int) =~= files);
}

// ----- orphans -----

/// Whether a symbol without callers is likely one only for want of knowledge: a
/// virtual method, which may be called without being named, or a symbol that a
/// macro made.
pub open spec fn unreliable_orphan(s: SymbolModel) -> bool {
    starts_with(s.signature, "virtual "@) || contains(s.signature, " virtual "@) || starts_with(
        s.signature,
        "/* synthesized by [cpp].macro_define_function"@,
    )
}

/// Whether a symbol without callers is likely one only for want of knowledge.
pub fn is_unreliable_orphan(s: &Symbol) -> (r: bool)
    ensures
        r == unreliable_orphan(s@),
{
    let sig = s.signature.as_str();
    has_prefix(sig, "virtual ") || has_part(sig, " virtual ") || has_prefix(
        sig,
        "/* synthesized by [cpp].macro_define_function",
    )
}

/// Which orphans are asked for.
pub struct OrphanQuery {
    /// The kind to look at; functions and methods where it is absent.
    pub kind: Option<SymbolKind>,
    /// Whether to leave out those that are likely called.
    pub reliable_only: bool,
}

/// Which orphans are asked for, or why the request is refused.
pub open spec fn orphan_query(kind: Option<&str>, reliability: Option<&str>) -> Result<
    OrphanQuery,
    Seq<char>,
> {
    let k = argument(kind);
    let r = argument(reliability);
    if k.len() > 0 && kind_named(k) is None {
        Err("invalid kind: "@ + k)
    } else if r.len() > 0 && r != "all"@ && r != "high"@ {
        Err(bad_reliability(debug_text(r)))
    } else {
        Ok(
            OrphanQuery {
                kind: if k.len() == 0 {
                    None
                } else {
                    kind_named(k)
                },
                reliable_only: r == "high"@,
            },
        )
    }
}

/// What is said of a reliability that there is none of. `word` stands between
/// quotes already.
pub open spec fn bad_reliability(word: Seq<char>) -> Seq<char> {
    "invalid reliability: "@ + word + " (expected \"all\" or \"high\")"@
}

/// What is said of a reliability that there is none of. `word` stands between
/// quotes already.
pub fn bad_reliability_text(word: &str) -> (r: String)
    ensures
        r@ == bad_reliability(word@),
{
    glue3("invalid reliability: ", word, " (expected \"all\" or \"high\")")
}

/// Which orphans are asked for, or the answer that refuses the request.
pub fn plan_orphans(kind: Option<&str>, reliability: Option<&str>) -> (r: Result<
    OrphanQuery,
    ToolReply,
>)
    ensures
        match orphan_query(kind, reliability) {
            Ok(q) => r == Ok::<OrphanQuery, ToolReply>(q),
            Err(msg) => r is Err && r->Err_0@ == failure(msg),
        },
{
    let k = argument_or_empty(kind);
    let w = argument_or_empty(reliability);
    let parsed = parse_kind(k);
    if !k.is_empty() && parsed.is_none() {
        let msg = glue2("invalid kind: ", k);
        return Err(tool_error(msg.as_str()));
    }
    let high = same_text(w, "high");
    if !w.is_empty() && !same_text(w, "all") && !high {
        let q = debug_quoted(w);
        let msg = bad_reliability_text(q.as_str());
        return Err(tool_error(msg.as_str()));
    }
    Ok(
        OrphanQuery {
            kind: if k.is_empty() {
                None
            } else {
                parsed
            },
            reliable_only: high,
        },
    )
}

/// The orphans that a request asks for.
pub open spec fn wanted_orphans(orphans: Seq<SymbolModel>, reliable_only: bool) -> Seq<SymbolModel> {
    orphans.filter(|s: SymbolModel| !reliable_only || !unreliable_orphan(s))
}

/// The answer to a request for orphans.
pub open spec fn orphans_reply(
    orphans: Seq<SymbolModel>,
    kind: Option<&str>,
    limit: Option<u32>,
    offset: Option<u32>,
    brief: Option<bool>,
    count_only: bool,
    reliability: Option<&str>,
    max_bytes: usize,
) -> ReplyModel {
    match orphan_query(kind, reliability) {
        Err(msg) => failure(msg),
        Ok(q) => {
            let wanted = wanted_orphans(orphans, q.reliable_only);
            if count_only {
                count_reply(wanted.len() as u32)
            } else {
                page_reply::<SymbolResult>(
                    stable_sorted::<SymbolResult>(
                        symbol_rows(
                            wanted,
                            match brief {
                                Some(b) => b,
                                None => true,
                            },
                        ),
                    ),
                    resolved_offset(offset),
                    resolved_limit(limit, 20, MAX_PAGE_LIMIT),
                    max_bytes,
                )
            }
        },
    }
}

/// The records of the orphans that a request asks for.
fn orphan_results(orphans: &Vec<Symbol>, reliable_only: bool, brief: bool) -> (r: Vec<SymbolResult>)
    ensures
        views(r@) == symbol_rows(wanted_orphans(views(orphans@), reliable_only), brief),
{
    let mut out: Vec<SymbolResult> = Vec::new();
    let ghost all = views(orphans@);
    let ghost pass = |s: SymbolModel| !reliable_only || !unreliable_orphan(s);
    proof {
        lemma_filter_ends(all, pass);
    }
    assert(views(out@) =~= symbol_rows(all.take(0).filter(pass), brief));
    let mut i: usize = 0;
    while i < orphans.len()
        invariant
            i <= orphans@.len(),
            all == views(orphans@),
            pass == (|s: SymbolModel| !reliable_only || !unreliable_orphan(s)),
            views(out@) == symbol_rows(all.take(i as int).filter(pass), brief),
        decreases orphans@.len() - i,
    {
        proof {
            lemma_filter_next(all, pass, i as int);
        }
        let ghost before = out@;
        if !reliable_only || !is_unreliable_orphan(&orphans[i]) {
            out.push(symbol_to_result(&orphans[i], brief));
            assert(views(out@) =~= views(before).push(symbol_row(all[i as int], brief)));
            assert(symbol_rows(all.take(i as int + 1).filter(pass), brief) =~= symbol_rows(
                all.take(i as int).filter(pass),
                brief,
            ).push(symbol_row(all[i as int], brief)));
        }
        i = i + 1;
    }
    proof {
        lemma_filter_ends(all, pass);
    }
    out
}

/// Answers a request for orphans, where `orphans` are those that the graph has
/// of the kind of [`plan_orphans`].
pub fn get_orphans(
    orphans: &Vec<Symbol>,
    kind: Option<&str>,
    limit: Option<u32>,
    offset: Option<u32>,
    brief: Option<bool>,
    count_only: bool,
    reliability: Option<&str>,
    max_bytes: usize,
) -> (r: ToolReply)
    ensures
        r@ == orphans_reply(
            views(orphans@),
            kind,
            limit,
            offset,
            brief,
            count_only,
            reliability,
            max_bytes,
        ),
{
    match plan_orphans(kind, reliability) {
        Err(refusal) => refusal,
        Ok(q) => {
            let brief: bool = match brief {
                Some(b) => b,
                None => true,
            };
            let results = orphan_results(orphans, q.reliable_only, brief);
            if count_only {
                assert(views(results@).len() == wanted_orphans(
                    views(orphans@),
                    q.reliable_only,
                ).len());
                let total: u32 = #[verifier::truncate] (results.len() as u32);
                reply_with_count(total)
            } else {
                reply_with_page(
                    sort(results),
                    resolve_offset(offset),
                    resolve_limit(limit, 20, MAX_PAGE_LIMIT),
                    max_bytes,
                )
            }
        },
    }
}

/// Counting orphans and listing them agree on how many there are.
pub proof fn lemma_orphan_count_agrees(
    orphans: Seq<SymbolModel>,
    reliable_only: bool,
    brief: bool,
    offset: u32,
    limit: u32,
    max_bytes: usize,
)
    ensures
        page_of::<SymbolResult>(
            stable_sorted::<SymbolResult>(
                symbol_rows(wanted_orphans(orphans, reliable_only), brief),
            ),
            offset,
            limit,
            max_bytes,
        ).total == wanted_orphans(orphans, reliable_only).len() as u32,
{
    lemma_stable_sorted_in_order::<SymbolResult>(
        symbol_rows(wanted_orphans(orphans, reliable_only), brief),
    );
}

/// The records of the orphans that a request asks for, as they are listed.
pub open spec fn orphan_list(orphans: Seq<SymbolModel>, reliable_only: bool, brief: bool) -> Seq<
    SymbolRow,
> {
    stable_sorted::<SymbolResult>(symbol_rows(wanted_orphans(orphans, reliable_only), brief))
}

/// Whether a record is that of an orphan that is none for sure.
pub open spec fn of_unreliable(orphans: Seq<SymbolModel>, row: SymbolRow) -> bool {
    exists|i: int|
        0 <= i < orphans.len() && id_of(#[trigger] orphans[i]) == row.id && unreliable_orphan(
            orphans[i],
        )
}

/// Where no two orphans have the same id, both lists are strictly ascending by
/// id, the list of all holds each orphan once, and the list of high reliability
/// is the list of all without the unreliable ones, in the same order.
pub proof fn lemma_reliable_orphans_are_the_rest(orphans: Seq<SymbolModel>, brief: bool)
    requires
        forall|i: int, j: int|
            0 <= i < j < orphans.len() ==> id_of(#[trigger] orphans[i]) != id_of(
                #[trigger] orphans[j],
            ),
    ensures
        ({
            let all = orphan_list(orphans, false, brief);
            let high = orphan_list(orphans, true, brief);
            &&& all.len() == orphans.len()
            &&& all.to_multiset() == symbol_rows(orphans, brief).to_multiset()
            &&& strictly_ascending(all)
            &&& strictly_ascending(high)
            &&& high == all.filter(|row: SymbolRow| !of_unreliable(orphans, row))
        }),
{
    lemma_orphan_lists(orphans, brief, false, true);
}

/// The same of all pages put together, where the size leaves room for the
/// records; and every page says how many there are.
pub proof fn lemma_orphan_pages_cover(
    orphans: Seq<SymbolModel>,
    brief: bool,
    offset: u32,
    limit: Option<u32>,
    max_bytes: usize,
)
    requires
        orphans.len() <= u32::MAX,
        forall|i: int, j: int|
            0 <= i < j < orphans.len() ==> id_of(#[trigger] orphans[i]) != id_of(
                #[trigger] orphans[j],
            ),
        cost(jsons::<SymbolResult>(orphan_list(orphans, false, brief))) <= record_budget(
            max_bytes as nat,
        ),
    ensures
        ({
            let resolved = resolved_limit(limit, 20, MAX_PAGE_LIMIT);
            let any = orphan_list(orphans, false, brief);
            let reliable = orphan_list(orphans, true, brief);
            let all = all_pages::<SymbolResult>(any, 0, resolved, max_bytes);
            let high = all_pages::<SymbolResult>(reliable, 0, resolved, max_bytes);
            &&& all.len() == orphans.len()
            &&& all.to_multiset() == symbol_rows(orphans, brief).to_multiset()
            &&& strictly_ascending(all)
            &&& high == all.filter(|row: SymbolRow| !of_unreliable(orphans, row))
            &&& page_of::<SymbolResult>(any, offset, resolved, max_bytes).total == all.len()
            &&& page_of::<SymbolResult>(reliable, offset, resolved, max_bytes).total == high.len()
        }),
{
    let resolved = resolved_limit(limit, 20, MAX_PAGE_LIMIT);
    let any = orphan_list(orphans, false, brief);
    let reliable = orphan_list(orphans, true, brief);
    let rest = |row: SymbolRow| !of_unreliable(orphans, row);
    lemma_reliable_orphans_are_the_rest(orphans, brief);
    lemma_filter_costs_less::<SymbolResult>(any, rest);
    any.lemma_filter_len(rest);
    lemma_all_pages_cover::<SymbolResult>(any, offset, resolved, max_bytes);
    lemma_all_pages_cover::<SymbolResult>(reliable, offset, resolved, max_bytes);
}

proof fn lemma_orphan_lists(orphans: Seq<SymbolModel>, brief: bool, any: bool, high: bool)
    requires
        !any,
        high,
        forall|i: int, j: int|
            0 <= i < j < orphans.len() ==> id_of(#[trigger] orphans[i]) != id_of(
                #[trigger] orphans[j],
            ),
    ensures
        orphan_list(orphans, any, brief).len() == orphans.len(),
        orphan_list(orphans, any, brief).to_multiset() == symbol_rows(
            orphans,
            brief,
        ).to_multiset(),
        strictly_ascending(orphan_list(orphans, any, brief)),
        strictly_ascending(orphan_list(orphans, high, brief)),
        orphan_list(orphans, high, brief) == orphan_list(orphans, any, brief).filter(
            |row: SymbolRow| !of_unreliable(orphans, row),
        ),
{
    let rows = symbol_rows(orphans, brief);
    let record = |s: SymbolModel| symbol_row(s, brief);
    let reliable = |s: SymbolModel| !high || !unreliable_orphan(s);
    let rest = |row: SymbolRow| !of_unreliable(orphans, row);
    lemma_filter_all(orphans, |s: SymbolModel| !any || !unreliable_orphan(s));
    assert(wanted_orphans(orphans, any) == orphans);
    lemma_stable_sorted_in_order::<SymbolResult>(rows);
    lemma_rows_distinct(orphans, brief);
    lemma_list_ascends(rows);
    assert forall|i: int| 0 <= i < orphans.len() implies reliable(#[trigger] orphans[i]) == rest(
        record(orphans[i]),
    ) by {
        if of_unreliable(orphans, record(orphans[i])) {
            let k = choose|k: int|
                0 <= k < orphans.len() && id_of(#[trigger] orphans[k]) == record(orphans[i]).id
                    && unreliable_orphan(orphans[k]);
            if k < i {
                assert(id_of(orphans[k]) != id_of(orphans[i]));
            } else if i < k {
                assert(id_of(orphans[i]) != id_of(orphans[k]));
            }
        }
    }
    lemma_filter_map(orphans, record, reliable, rest);
    lemma_stable_sorted_filter::<SymbolResult>(rows, rest);
    lemma_wanted_distinct(orphans, reliable);
    lemma_rows_distinct(orphans.filter(reliable), brief);
    lemma_list_ascends(symbol_rows(orphans.filter(reliable), brief));
}

/// Whether each record comes before those behind it, and none has the id of
/// another.
pub open spec fn strictly_ascending(rows: Seq<SymbolRow>) -> bool {
    forall|i: int, j: int|
        0 <= i < j < rows.len() ==> text_le(#[trigger] rows[i].id, #[trigger] rows[j].id)
            && rows[i].id != rows[j].id
}

proof fn lemma_rows_distinct(symbols: Seq<SymbolModel>, brief: bool)
    requires
        forall|i: int, j: int|
            0 <= i < j < symbols.len() ==> id_of(#[trigger] symbols[i]) != id_of(
                #[trigger] symbols[j],
            ),
    ensures
        distinct_by(symbol_rows(symbols, brief), |row: SymbolRow| row.id),
{
    let rows = symbol_rows(symbols, brief);
    assert forall|i: int, j: int| 0 <= i < j < rows.len() implies #[trigger] rows[i].id
        != #[trigger] rows[j].id by {
        assert(rows[i].id == id_of(symbols[i]) && rows[j].id == id_of(symbols[j]));
    }
}

proof fn lemma_list_ascends(rows: Seq<SymbolRow>)
    requires
        distinct_by(rows, |row: SymbolRow| row.id),
    ensures
        strictly_ascending(stable_sorted::<SymbolResult>(rows)),
{
    let key = |row: SymbolRow| row.id;
    lemma_stable_sorted_in_order::<SymbolResult>(rows);
    lemma_stable_sorted_distinct::<SymbolResult, Seq<char>>(rows, key);
    let sorted = stable_sorted::<SymbolResult>(rows);
    assert forall|i: int, j: int| 0 <= i < j < sorted.len() implies text_le(
        #[trigger] sorted[i].id,
        #[trigger] sorted[j].id,
    ) && sorted[i].id != sorted[j].id by {
        assert(SymbolResult::at_most(sorted[i], sorted[j]));
        assert(key(sorted[i]) != key(sorted[j]));
    }
}

proof fn lemma_wanted_distinct(symbols: Seq<SymbolModel>, pass: spec_fn(SymbolModel) -> bool)
    requires
        forall|i: int, j: int|
            0 <= i < j < symbols.len() ==> id_of(#[trigger] symbols[i]) != id_of(
                #[trigger] symbols[j],
            ),
    ensures
        forall|i: int, j: int|
            0 <= i < j < symbols.filter(pass).len() ==> id_of(
                #[trigger] symbols.filter(pass)[i],
            ) != id_of(#[trigger] symbols.filter(pass)[j]),
    decreases symbols.len(),
{
    reveal(Seq::filter);
    if symbols.len() > 0 {
        let t = symbols.drop_last();
        assert forall|i: int, j: int| 0 <= i < j < t.len() implies id_of(#[trigger] t[i]) != id_of(
            #[trigger] t[j],
        ) by {
            assert(t[i] == symbols[i] && t[j] == symbols[j]);
        }
        lemma_wanted_distinct(t, pass);
        let kept = t.filter(pass);
        let out = symbols.filter(pass);
        assert forall|i: int, j: int| 0 <= i < j < out.len() implies id_of(#[trigger] out[i])
            != id_of(#[trigger] out[j]) by {
            assert(out[i] == kept[i]);
            if j < kept.len() {
                assert(out[j] == kept[j]);
            } else {
                lemma_filter_from(t, pass, i);
                let k = choose|k: int| 0 <= k < t.len() && t[k] == kept[i];
                assert(symbols[k] == kept[i]);
                assert(symbols[symbols.len() - 1] == out[j]);
            }
        }
    }
}

// ----- class hierarchies -----

/// Whether a kind is one of types that others derive from.
pub open spec fn class_like(kind: SymbolKind) -> bool {
    kind is Class || kind is Struct || kind is Interface || kind is Trait
}

/// Whether a kind is one of types that others derive from.
pub fn is_class_like(kind: SymbolKind) -> (r: bool)
    ensures
        r == class_like(kind),
{
    match kind {
        SymbolKind::Class | SymbolKind::Struct | SymbolKind::Interface | SymbolKind::Trait => true,
        _ => false,
    }
}

/// The names of the first `limit` class-like symbols among candidates.
pub open spec fn class_suggestions(candidates: Seq<SymbolModel>, limit: nat) -> Seq<Seq<char>> {
    first(candidates.filter(|s: SymbolModel| class_like(s.kind)), limit).map_values(
        |s: SymbolModel| s.name,
    )
}

/// The names of the first `limit` class-like symbols among candidates.
pub fn suggest_class_symbols(candidates: &Vec<Symbol>, limit: usize) -> (r: Vec<String>)
    ensures
        texts(r@) == class_suggestions(views(candidates@), limit as nat),
{
    let ghost all = views(candidates@);
    let ghost pass = |s: SymbolModel| class_like(s.kind);
    let mut out: Vec<String> = Vec::new();
    proof {
        lemma_filter_ends(all, pass);
    }
    let mut i: usize = 0;
    while i < candidates.len() && out.len() < limit
        invariant
            i <= candidates@.len(),
            all == views(candidates@),
            pass == (|s: SymbolModel| class_like(s.kind)),
            out@.len() <= limit,
            out@.len() == all.take(i as int).filter(pass).len(),
            forall|k: int|
                0 <= k < out@.len() ==> (#[trigger] out@[k])@ == all.take(i as int).filter(
                    pass,
                )[k].name,
        decreases candidates@.len() - i,
    {
        proof {
            lemma_filter_next(all, pass, i as int);
        }
        if is_class_like(candidates[i].kind) {
            out.push(candidates[i].name.clone());
        }
        i = i + 1;
    }
    proof {
        lemma_filter_ends(all, pass);
        if i < candidates@.len() {
            lemma_filter_prefix(all, pass, i as int);
        }
        assert(texts(out@) =~= class_suggestions(all, limit as nat));
    }
    out
}

/// Filtering a prefix gives a prefix of the filtered list.
proof fn lemma_filter_prefix<V>(s: Seq<V>, pass: spec_fn(V) -> bool, i: int)
    requires
        0 <= i <= s.len(),
    ensures
        s.take(i).filter(pass).len() <= s.filter(pass).len(),
        s.take(i).filter(pass) == s.filter(pass).take(s.take(i).filter(pass).len() as int),
{
    assert(s =~= s.take(i) + s.skip(i));
    Seq::filter_distributes_over_add(s.take(i), s.skip(i), pass);
    assert(s.filter(pass).take(s.take(i).filter(pass).len() as int) =~= s.take(i).filter(pass));
}

/// What is suggested for an unknown class, if anything.
pub open spec fn class_hint(candidates: Seq<SymbolModel>) -> Option<Seq<char>> {
    let names = class_suggestions(candidates, 5);
    if names.len() == 0 {
        None
    } else {
        Some(joined(names, ", "@))
    }
}

/// The answer for an unknown class, with suggestions where there are any.
fn class_not_found(class: &str, candidates: &Vec<Symbol>) -> (r: ToolReply)
    ensures
        r@ == not_found("class"@, debug_text(class@), class_hint(views(candidates@))),
{
    let names = suggest_class_symbols(candidates, 5);
    let quoted = debug_quoted(class);
    assert(texts(names@).len() == names@.len());
    if names.is_empty() {
        not_found_reply("class", quoted.as_str(), None)
    } else {
        let list = join(&names, ", ");
        not_found_reply("class", quoted.as_str(), Some(list.as_str()))
    }
}

/// A walk up and down a class hierarchy that the graph is asked for.
pub struct HierarchyWalk {
    pub class: String,
    pub depth: u32,
    pub max_nodes: u32,
}

/// The largest number of classes in a hierarchy that a request means.
pub open spec fn hierarchy_nodes(max_nodes: Option<u32>) -> u32 {
    resolved_limit(max_nodes, 250, 1000)
}

/// The walk that a request asks for, or the answer that refuses it.
pub fn plan_hierarchy(class: &str, depth: Option<u32>, max_nodes: Option<u32>) -> (r: Result<
    HierarchyWalk,
    ToolReply,
>)
    ensures
        class@.len() == 0 ==> r is Err && r->Err_0@ == failure("'class' is required"@),
        class@.len() > 0 ==> r is Ok && r->Ok_0.class@ == class@ && r->Ok_0.depth == resolved_depth(
            depth,
        ) && r->Ok_0.max_nodes == hierarchy_nodes(max_nodes),
        r is Ok && depth is Some && depth->0 > 0 ==> r->Ok_0.depth == depth->0,
        r is Ok && (depth is None || depth == Some(0u32)) ==> r->Ok_0.depth == 1,
        r is Ok && max_nodes is Some && 0 < max_nodes->0 <= 1000 ==> r->Ok_0.max_nodes
            == max_nodes->0,
        r is Ok && max_nodes is Some && max_nodes->0 > 1000 ==> r->Ok_0.max_nodes == 1000,
        r is Ok && (max_nodes is None || max_nodes == Some(0u32)) ==> r->Ok_0.max_nodes == 250,
{
    if class.is_empty() {
        return Err(tool_error("'class' is required"));
    }
    Ok(
        HierarchyWalk {
            class: owned(class),
            depth: resolve_depth(depth),
            max_nodes: resolve_limit(max_nodes, 250, 1000),
        },
    )
}

/// What the graph found on a walk through a class hierarchy.
pub struct Hierarchy {
    /// The classes, as nested nodes.
    pub tree: Json,
    /// How many different classes were walked.
    pub nodes_seen: u32,
    /// Whether the walk stopped for their number.
    pub truncated: bool,
}

/// What a [`Hierarchy`] stands for.
pub struct HierarchyModel {
    pub tree: JsonModel,
    pub nodes_seen: u32,
    pub truncated: bool,
}

impl View for Hierarchy {
    type V = HierarchyModel;

    open spec fn view(&self) -> HierarchyModel {
        HierarchyModel {
            tree: self.tree@,
            nodes_seen: self.nodes_seen,
            truncated: self.truncated,
        }
    }
}

/// A class hierarchy and how much of it was walked.
pub struct ClassHierarchyResponse {
    pub hierarchy: Json,
    pub truncated: bool,
    pub max_nodes: u32,
    pub total_nodes_seen: u32,
}

/// What a [`ClassHierarchyResponse`] stands for.
pub struct ClassHierarchyModel {
    pub hierarchy: JsonModel,
    pub truncated: bool,
    pub max_nodes: u32,
    pub total_nodes_seen: u32,
}

impl View for ClassHierarchyResponse {
    type V = ClassHierarchyModel;

    open spec fn view(&self) -> ClassHierarchyModel {
        ClassHierarchyModel {
            hierarchy: self.hierarchy@,
            truncated: self.truncated,
            max_nodes: self.max_nodes,
            total_nodes_seen: self.total_nodes_seen,
        }
    }
}

impl ToJson for ClassHierarchyResponse {
    open spec fn json_of(v: ClassHierarchyModel) -> JsonModel {
        JsonModel::Object(
            seq![
                ("hierarchy"@, v.hierarchy),
                ("truncated"@, JsonModel::Bool(v.truncated)),
                ("max_nodes"@, JsonModel::Number(v.max_nodes as nat)),
                ("total_nodes_seen"@, JsonModel::Number(v.total_nodes_seen as nat)),
            ],
        )
    }

    fn to_json(&self) -> (r: Json) {
        let mut m = no_members();
        put(&mut m, "hierarchy", self.hierarchy.copy());
        put(&mut m, "truncated", Json::Bool(self.truncated));
        put(&mut m, "max_nodes", number(self.max_nodes));
        put(&mut m, "total_nodes_seen", number(self.total_nodes_seen));
        assert(member_models(m@) =~= Self::json_of(self@)->Object_0);
        object(m)
    }
}

/// Ids as a list with one to a line, in order.
pub open spec fn bullet_list(ids: Seq<Seq<char>>) -> Seq<char> {
    joined(
        stable_sorted::<String>(ids).map_values(|id: Seq<char>| "  - "@ + id),
        "\n"@,
    )
}

/// Ids as a list with one to a line, in order.
pub fn bullets(ids: Vec<String>) -> (r: String)
    ensures
        r@ == bullet_list(texts(ids@)),
{
    assert(texts(ids@) =~= views(ids@));
    let sorted = sort(ids);
    let ghost all = views(sorted@);
    let mut lines: Vec<String> = Vec::new();
    let mut i: usize = 0;
    while i < sorted.len()
        invariant
            i <= sorted@.len(),
            all == views(sorted@),
            lines@.len() == i,
            forall|k: int| 0 <= k < i ==> (#[trigger] lines@[k])@ == "  - "@ + all[k],
        decreases sorted@.len() - i,
    {
        lines.push(glue2("  - ", sorted[i].as_str()));
        i = i + 1;
    }
    assert(texts(lines@) =~= all.map_values(|id: Seq<char>| "  - "@ + id));
    join(&lines, "\n")
}

/// What is said of a class name that several classes have. `class` stands
/// between quotes already.
pub open spec fn ambiguous_class(class: Seq<char>, ids: Seq<Seq<char>>) -> Seq<char> {
    "ambiguous class name "@ + class + " ("@ + decimal(ids.len()) + " candidates):\n"@
        + bullet_list(ids)
        + "\nUse find_class_candidates to discover candidates or pass the fully-qualified symbol_id to get_symbol_detail."@
}

/// What is said of a class name that several classes have. `class` stands
/// between quotes already.
pub fn ambiguous_class_text(class: &str, ids: Vec<String>) -> (r: String)
    ensures
        r@ == ambiguous_class(class@, texts(ids@)),
{
    let n: u64 = ids.len() as u64;
    assert(texts(ids@).len() == n);
    let mut msg = glue3("ambiguous class name ", class, " (");
    msg.append(decimal_text(n).as_str());
    msg.append(" candidates):\n");
    msg.append(bullets(ids).as_str());
    msg.append(
        "\nUse find_class_candidates to discover candidates or pass the fully-qualified symbol_id to get_symbol_detail.",
    );
    msg
}

/// The answer to a request for a class hierarchy.
pub open spec fn hierarchy_reply(
    class: Seq<char>,
    max_nodes: Option<u32>,
    same_name: Seq<SymbolModel>,
    found: Option<HierarchyModel>,
    candidates: Seq<SymbolModel>,
) -> ReplyModel {
    if class.len() == 0 {
        failure("'class' is required"@)
    } else if same_name.len() > 1 {
        failure(ambiguous_class(debug_text(class), ids_of(same_name)))
    } else {
        match found {
            Some(h) => success(
                render(
                    ClassHierarchyResponse::json_of(
                        ClassHierarchyModel {
                            hierarchy: h.tree,
                            truncated: h.truncated,
                            max_nodes: hierarchy_nodes(max_nodes),
                            total_nodes_seen: h.nodes_seen,
                        },
                    ),
                ),
            ),
            None => not_found("class"@, debug_text(class), class_hint(candidates)),
        }
    }
}

/// Answers a request for a class hierarchy: `same_name` are the classes of that
/// name, `found` is what the walk of [`plan_hierarchy`] found, and `candidates`
/// are the symbols with similar names.
///
/// A name that several classes have is refused, since a walk would mix them up.
pub fn get_class_hierarchy(
    class: &str,
    max_nodes: Option<u32>,
    same_name: &Vec<Symbol>,
    found: Option<Hierarchy>,
    candidates: &Vec<Symbol>,
) -> (r: ToolReply)
    ensures
        r@ == hierarchy_reply(
            class@,
            max_nodes,
            views(same_name@),
            opt_view(found),
            views(candidates@),
        ),
{
    if class.is_empty() {
        return tool_error("'class' is required");
    }
    if same_name.len() > 1 {
        let ids = super::first_ids(same_name, same_name.len());
        assert(first(views(same_name@), same_name@.len()) =~= views(same_name@));
        let quoted = debug_quoted(class);
        let msg = ambiguous_class_text(quoted.as_str(), ids);
        return tool_error(msg.as_str());
    }
    match found {
        Some(h) => tool_success_json(
            &ClassHierarchyResponse {
                hierarchy: h.tree,
                truncated: h.truncated,
                max_nodes: resolve_limit(max_nodes, 250, 1000),
                total_nodes_seen: h.nodes_seen,
            },
        ),
        None => class_not_found(class, candidates),
    }
}

// ----- class candidates -----

/// A symbol by its place in the sources.
pub struct PlacedSymbol<'a> {
    pub symbol: &'a Symbol,
}

impl<'a> View for PlacedSymbol<'a> {
    type V = SymbolModel;

    open spec fn view(&self) -> SymbolModel {
        self.symbol@
    }
}

/// Symbols by place are sorted by file, and by line within one.
impl<'a> Sortable for PlacedSymbol<'a> {
    open spec fn at_most(a: SymbolModel, b: SymbolModel) -> bool {
        if a.file == b.file {
            a.line <= b.line
        } else {
            text_le(a.file, b.file)
        }
    }

    proof fn lemma_total(a: SymbolModel, b: SymbolModel) {
        lemma_text_le_total(a.file, b.file);
    }

    proof fn lemma_transitive(a: SymbolModel, b: SymbolModel, c: SymbolModel) {
        if a.file != b.file && b.file != c.file {
            lemma_text_le_transitive(a.file, b.file, c.file);
            lemma_text_le_total(a.file, b.file);
        }
    }

    fn precedes(&self, other: &Self) -> (r: bool) {
        if same_text(self.symbol.file.as_str(), other.symbol.file.as_str()) {
            self.symbol.line <= other.symbol.line
        } else {
            text_at_most(self.symbol.file.as_str(), other.symbol.file.as_str())
        }
    }
}

/// The answer to a request for the classes of a name.
pub open spec fn class_candidates_reply(name: Seq<char>, classes: Seq<SymbolModel>) -> ReplyModel {
    if name.len() == 0 {
        failure("'name' is required"@)
    } else {
        success(
            render(
                JsonModel::Array(
                    jsons::<SymbolResult>(
                        symbol_rows(stable_sorted::<PlacedSymbol>(classes), false),
                    ),
                ),
            ),
        )
    }
}

/// Answers a request for the classes of a name, where `classes` are those that
/// the graph has. That there are none is an answer, and no error.
pub fn find_class_candidates(name: &str, classes: &Vec<Symbol>) -> (r: ToolReply)
    ensures
        r@ == class_candidates_reply(name@, views(classes@)),
{
    if name.is_empty() {
        return tool_error("'name' is required");
    }
    let mut placed: Vec<PlacedSymbol> = Vec::new();
    let mut i: usize = 0;
    while i < classes.len()
        invariant
            i <= classes@.len(),
            placed@.len() == i,
            forall|k: int| 0 <= k < i ==> (#[trigger] placed@[k])@ == classes@[k]@,
        decreases classes@.len() - i,
    {
        placed.push(PlacedSymbol { symbol: &classes[i] });
        i = i + 1;
    }
    assert(views(placed@) =~= views(classes@));
    let sorted = sort(placed);
    let ghost all = stable_sorted::<PlacedSymbol>(views(classes@));
    assert(views(sorted@) == all);
    let mut results: Vec<SymbolResult> = Vec::new();
    let mut j: usize = 0;
    while j < sorted.len()
        invariant
            j <= sorted@.len(),
            all == views(sorted@),
            results@.len() == j,
            forall|k: int| 0 <= k < j ==> (#[trigger] results@[k])@ == symbol_row(all[k], false),
        decreases sorted@.len() - j,
    {
        results.push(symbol_to_result(sorted[j].symbol, false));
        j = j + 1;
    }
    assert(views(results@) =~= symbol_rows(all, false));
    tool_success_json(&results)
}

// ----- coupling -----

/// Bytes set aside for what stands around the two pages of a coupling in both
/// directions.
pub const COUPLING_BOTH_WRAPPER_OVERHEAD: usize = 48;

/// How many edges connect a file to another one.
#[derive(Debug, Clone)]
pub struct CouplingEntry {
    pub file: String,
    pub count: u32,
}

/// What a [`CouplingEntry`] stands for.
pub struct CouplingModel {
    pub file: Seq<char>,
    pub count: u32,
}

impl View for CouplingEntry {
    type V = CouplingModel;

    open spec fn view(&self) -> CouplingModel {
        CouplingModel { file: self.file@, count: self.count }
    }
}

impl ToJson for CouplingEntry {
    open spec fn json_of(v: CouplingModel) -> JsonModel {
        JsonModel::Object(
            seq![
                ("file"@, JsonModel::Text(v.file)),
                ("count"@, JsonModel::Number(v.count as nat)),
            ],
        )
    }

    fn to_json(&self) -> (r: Json) {
        let mut m = no_members();
        put(&mut m, "file", text(self.file.as_str()));
        put(&mut m, "count", number(self.count));
        assert(member_models(m@) =~= Self::json_of(self@)->Object_0);
        object(m)
    }
}

/// Couplings are sorted by count, the largest first, and by file where the
/// count is the same.
impl Sortable for CouplingEntry {
    open spec fn at_most(a: CouplingModel, b: CouplingModel) -> bool {
        a.count > b.count || (a.count == b.count && text_le(a.file, b.file))
    }

    proof fn lemma_total(a: CouplingModel, b: CouplingModel) {
        lemma_text_le_total(a.file, b.file);
    }

    proof fn lemma_transitive(a: CouplingModel, b: CouplingModel, c: CouplingModel) {
        if a.count == b.count && b.count == c.count {
            lemma_text_le_transitive(a.file, b.file, c.file);
        }
    }

    fn precedes(&self, other: &Self) -> (r: bool) {
        self.count > other.count || (self.count == other.count && text_at_most(
            self.file.as_str(),
            other.file.as_str(),
        ))
    }
}

/// Sorts couplings by count, the largest first, and by file where the count is
/// the same.
pub fn sort_coupling_rows(rows: &mut Vec<CouplingEntry>)
    ensures
        views(final(rows)@) == stable_sorted::<CouplingEntry>(views(old(rows)@)),
{
    let mut taken: Vec<CouplingEntry> = Vec::new();
    core::mem::swap(rows, &mut taken);
    let mut sorted = sort(taken);
    core::mem::swap(rows, &mut sorted);
}

/// A file and how many edges connect it.
pub open spec fn coupling_row(c: (Seq<char>, u32)) -> CouplingModel {
    CouplingModel { file: c.0, count: c.1 }
}

/// The rows of couplings, sorted.
pub open spec fn sorted_couplings(counts: Seq<(Seq<char>, u32)>) -> Seq<CouplingModel> {
    stable_sorted::<CouplingEntry>(
        counts.map_values(|c: (Seq<char>, u32)| coupling_row(c)),
    )
}

/// The rows of couplings, sorted.
pub fn coupling_rows(counts: Vec<(String, u32)>) -> (r: Vec<CouplingEntry>)
    ensures
        views(r@) == sorted_couplings(views(counts@)),
{
    let mut rows: Vec<CouplingEntry> = Vec::new();
    let mut i: usize = 0;
    while i < counts.len()
        invariant
            i <= counts@.len(),
            rows@.len() == i,
            forall|k: int| 0 <= k < i ==> (#[trigger] rows@[k])@ == coupling_row(counts@[k]@),
        decreases counts@.len() - i,
    {
        rows.push(CouplingEntry { file: counts[i].0.clone(), count: counts[i].1 });
        i = i + 1;
    }
    assert(views(rows@) =~= views(counts@).map_values(|c: (Seq<char>, u32)| coupling_row(c)));
    sort_coupling_rows(&mut rows);
    rows
}

/// Couplings in both directions, each on a page of its own.
pub struct CouplingBoth {
    pub incoming: Page<CouplingEntry>,
    pub outgoing: Page<CouplingEntry>,
}

/// What a [`CouplingBoth`] stands for.
pub struct CouplingBothModel {
    pub incoming: PageModel<CouplingModel>,
    pub outgoing: PageModel<CouplingModel>,
}

impl View for CouplingBoth {
    type V = CouplingBothModel;

    open spec fn view(&self) -> CouplingBothModel {
        CouplingBothModel { incoming: self.incoming@, outgoing: self.outgoing@ }
    }
}

impl ToJson for CouplingBoth {
    open spec fn json_of(v: CouplingBothModel) -> JsonModel {
        JsonModel::Object(
            seq![
                ("incoming"@, Page::<CouplingEntry>::json_of(v.incoming)),
                ("outgoing"@, Page::<CouplingEntry>::json_of(v.outgoing)),
            ],
        )
    }

    fn to_json(&self) -> (r: Json) {
        let mut m = no_members();
        put(&mut m, "incoming", self.incoming.to_json());
        put(&mut m, "outgoing", self.outgoing.to_json());
        assert(member_models(m@) =~= Self::json_of(self@)->Object_0);
        object(m)
    }
}

/// Which way couplings are asked for.
#[derive(Clone, Copy, Debug, PartialEq, Eq, Structural)]
pub enum CouplingDirection {
    Outgoing,
    Incoming,
    Both,
}

/// Which way couplings are asked for: outgoing where nothing is said.
pub open spec fn coupling_direction(direction: Option<&str>) -> Option<CouplingDirection> {
    let d = argument(direction);
    if d.len() == 0 || d == "outgoing"@ {
        Some(CouplingDirection::Outgoing)
    } else if d == "incoming"@ {
        Some(CouplingDirection::Incoming)
    } else if d == "both"@ {
        Some(CouplingDirection::Both)
    } else {
        None
    }
}

/// Which way couplings are asked for, or why the request is refused.
pub open spec fn coupling_request(file: Seq<char>, direction: Option<&str>) -> Result<
    CouplingDirection,
    Seq<char>,
> {
    if file.len() == 0 {
        Err("'file' is required"@)
    } else {
        match coupling_direction(direction) {
            Some(d) => Ok(d),
            None => Err(
                "invalid direction: "@ + argument(direction)
                    + ". Expected one of: outgoing, incoming, both"@,
            ),
        }
    }
}

/// Which way couplings are asked for, or the answer that refuses the request.
pub fn plan_coupling(file: &str, direction: Option<&str>) -> (r: Result<
    CouplingDirection,
    ToolReply,
>)
    ensures
        match coupling_request(file@, direction) {
            Ok(d) => r == Ok::<CouplingDirection, ToolReply>(d),
            Err(msg) => r is Err && r->Err_0@ == failure(msg),
        },
{
    if file.is_empty() {
        return Err(tool_error("'file' is required"));
    }
    let d = argument_or_empty(direction);
    if d.is_empty() || same_text(d, "outgoing") {
        Ok(CouplingDirection::Outgoing)
    } else if same_text(d, "incoming") {
        Ok(CouplingDirection::Incoming)
    } else if same_text(d, "both") {
        Ok(CouplingDirection::Both)
    } else {
        let msg = glue3("invalid direction: ", d, ". Expected one of: outgoing, incoming, both");
        Err(tool_error(msg.as_str()))
    }
}

/// A number less another, or zero where the other is larger.
pub open spec fn less(a: nat, b: nat) -> nat {
    if a >= b {
        (a - b) as nat
    } else {
        0
    }
}

/// The pages of couplings in both directions. The incoming page comes first and
/// has the whole size; the outgoing one has what that page and the text around
/// both leave. Where they leave nothing the outgoing page is empty, and says to
/// start over at zero.
pub open spec fn coupling_pages(
    incoming: Seq<CouplingModel>,
    outgoing: Seq<CouplingModel>,
    offset: u32,
    limit: u32,
    max_bytes: usize,
) -> CouplingBothModel {
    let page = page_of::<CouplingEntry>(incoming, offset, limit, max_bytes);
    let remaining = less(
        less(max_bytes as nat, size(render(Page::<CouplingEntry>::json_of(page)))),
        COUPLING_BOTH_WRAPPER_OVERHEAD as nat,
    );
    CouplingBothModel {
        incoming: page,
        outgoing: if remaining == 0 {
            PageModel {
                results: seq![],
                total: outgoing.len() as u32,
                offset,
                limit,
                truncated: true,
                next_offset: Some(0),
            }
        } else {
            page_of::<CouplingEntry>(outgoing, offset, limit, remaining as usize)
        },
    }
}

/// The answer to a request for couplings.
pub open spec fn coupling_reply(
    file: Seq<char>,
    direction: Option<&str>,
    offset: Option<u32>,
    limit: Option<u32>,
    incoming: Seq<(Seq<char>, u32)>,
    outgoing: Seq<(Seq<char>, u32)>,
    max_bytes: usize,
) -> ReplyModel {
    let limit = resolved_limit(limit, 50, MAX_PAGE_LIMIT);
    let offset = resolved_offset(offset);
    match coupling_request(file, direction) {
        Err(msg) => failure(msg),
        Ok(CouplingDirection::Outgoing) => page_reply::<CouplingEntry>(
            sorted_couplings(outgoing),
            offset,
            limit,
            max_bytes,
        ),
        Ok(CouplingDirection::Incoming) => page_reply::<CouplingEntry>(
            sorted_couplings(incoming),
            offset,
            limit,
            max_bytes,
        ),
        Ok(CouplingDirection::Both) => success(
            render(
                CouplingBoth::json_of(
                    coupling_pages(
                        sorted_couplings(incoming),
                        sorted_couplings(outgoing),
                        offset,
                        limit,
                        max_bytes,
                    ),
                ),
            ),
        ),
    }
}

/// Answers a request for couplings of a file, where `incoming` and `outgoing`
/// count the edges that connect it to other files. Only those of the direction
/// of [`plan_coupling`] are looked at. A file that the graph does not know has
/// empty pages.
pub fn get_coupling(
    file: &str,
    direction: Option<&str>,
    offset: Option<u32>,
    limit: Option<u32>,
    incoming: Vec<(String, u32)>,
    outgoing: Vec<(String, u32)>,
    max_bytes: usize,
) -> (r: ToolReply)
    ensures
        r@ == coupling_reply(
            file@,
            direction,
            offset,
            limit,
            views(incoming@),
            views(outgoing@),
            max_bytes,
        ),
{
    let limit: u32 = resolve_limit(limit, 50, MAX_PAGE_LIMIT);
    let offset: u32 = resolve_offset(offset);
    match plan_coupling(file, direction) {
        Err(refusal) => refusal,
        Ok(CouplingDirection::Outgoing) => reply_with_page(
            coupling_rows(outgoing),
            offset,
            limit,
            max_bytes,
        ),
        Ok(CouplingDirection::Incoming) => reply_with_page(
            coupling_rows(incoming),
            offset,
            limit,
            max_bytes,
        ),
        Ok(CouplingDirection::Both) => {
            let incoming = paginate(coupling_rows(incoming), offset, limit, max_bytes);
            let rows = coupling_rows(outgoing);
            let spent: usize = incoming.to_json().text_size();
            let remaining: usize = max_bytes.saturating_sub(spent).saturating_sub(
                COUPLING_BOTH_WRAPPER_OVERHEAD,
            );
            assert(views(rows@).len() == rows@.len());
            let outgoing = if remaining == 0 {
                let total: u32 = #[verifier::truncate] (rows.len() as u32);
                let none: Vec<CouplingEntry> = Vec::new();
                assert(views(none@) =~= seq![]);
                Page {
                    results: none,
                    total,
                    offset,
                    limit,
                    truncated: true,
                    next_offset: Some(0),
                }
            } else {
                paginate(rows, offset, limit, remaining)
            };
            tool_success_json(&CouplingBoth { incoming, outgoing })
        },
    }
}

/// Couplings are listed with the strongest first, and none is lost by sorting.
pub proof fn lemma_strongest_coupling_first(counts: Seq<(Seq<char>, u32)>)
    ensures
        sorted_couplings(counts).len() == counts.len(),
        forall|i: int, j: int|
            0 <= i < j < sorted_couplings(counts).len() ==> (#[trigger] sorted_couplings(
                counts,
            )[i]).count >= (#[trigger] sorted_couplings(counts)[j]).count,
{
    let rows = counts.map_values(|c: (Seq<char>, u32)| coupling_row(c));
    lemma_stable_sorted_in_order::<CouplingEntry>(rows);
    let s = sorted_couplings(counts);
    assert forall|i: int, j: int| 0 <= i < j < s.len() implies (#[trigger] s[i]).count >= (
    #[trigger] s[j]).count by {
        assert(CouplingEntry::at_most(s[i], s[j]));
    }
}

/// Couplings in both directions stay within `max_bytes` together, where that is
/// at least what is set aside for an envelope. Where it is less they do so as
/// long as the outgoing page has a record, and without one take at most the
/// incoming page and 140 bytes.
pub proof fn lemma_coupling_fits(
    incoming: Seq<CouplingModel>,
    outgoing: Seq<CouplingModel>,
    offset: u32,
    limit: u32,
    max_bytes: usize,
)
    ensures
        ({
            let both = coupling_pages(incoming, outgoing, offset, limit, max_bytes);
            let bytes = size(render(CouplingBoth::json_of(both)));
            let first_page = size(render(Page::<CouplingEntry>::json_of(both.incoming)));
            &&& max_bytes >= ENVELOPE_OVERHEAD_BYTES ==> bytes <= max_bytes
            &&& both.outgoing.results.len() > 0 ==> bytes <= max_bytes
            &&& both.outgoing.results.len() == 0 ==> bytes <= first_page + 140
        }),
{
    let both = coupling_pages(incoming, outgoing, offset, limit, max_bytes);
    let a = Page::<CouplingEntry>::json_of(both.incoming);
    let b = Page::<CouplingEntry>::json_of(both.outgoing);
    let remaining = less(
        less(max_bytes as nat, size(render(a))),
        COUPLING_BOTH_WRAPPER_OVERHEAD as nat,
    );
    lemma_both_size(a, b);
    crate::page::lemma_page_fits::<CouplingEntry>(incoming, offset, limit, max_bytes);
    if remaining == 0 {
        let none = jsons::<CouplingEntry>(both.outgoing.results);
        assert(none =~= seq![]);
        crate::page::lemma_envelope_size(
            none,
            both.outgoing.total,
            offset,
            limit,
            true,
            Some(0),
        );
    } else {
        crate::page::lemma_page_fits::<CouplingEntry>(
            outgoing,
            offset,
            limit,
            remaining as usize,
        );
    }
}

/// Two values under their two directions take 25 bytes more than their texts.
proof fn lemma_both_size(a: JsonModel, b: JsonModel)
    ensures
        size(
            render(JsonModel::Object(seq![("incoming"@, a), ("outgoing"@, b)])),
        ) == size(render(a)) + size(render(b)) + 25,
{
    let m = seq![("incoming"@, a), ("outgoing"@, b)];
    reveal_strlit("incoming");
    reveal_strlit("outgoing");
    reveal_strlit("{");
    reveal_strlit("}");
    crate::text::lemma_size_ascii("{"@);
    crate::text::lemma_size_ascii("}"@);
    crate::page::lemma_key_size("incoming"@);
    crate::page::lemma_key_size("outgoing"@);
    crate::page::lemma_members_step(m, 1);
    crate::page::lemma_members_step(m, 2);
    assert(size(crate::json::render_members(m, 0)) == 0);
    let body = crate::json::render_members(m, 2);
    crate::text::lemma_size_concat("{"@, body);
    crate::text::lemma_size_concat("{"@ + body, "}"@);
}

// ----- diagrams -----

/// What to draw.
#[derive(Debug, Default)]
pub struct GenerateDiagramInput<'a> {
    /// A symbol, for a diagram of calls.
    pub symbol: Option<&'a str>,
    /// A file, for a diagram of includes.
    pub file: Option<&'a str>,
    /// A class, for a diagram of inheritance.
    pub class: Option<&'a str>,
    /// How far to go: one where it is absent or zero.
    pub depth: Option<u32>,
    /// How many nodes at most: 30 where it is absent or zero.
    pub max_nodes: Option<u32>,
    /// `edges`, which is the default, or `mermaid`.
    pub format: Option<&'a str>,
    /// Whether a drawing is styled.
    pub styled: bool,
    /// Which calls a diagram of calls follows: `callees`, `callers` or `both`,
    /// which is the default. The other diagrams ignore it.
    pub direction: Option<&'a str>,
    /// The least confidence of an edge in a diagram of calls: `any`, which is
    /// the default, or `resolved`.
    pub min_confidence: Option<&'a str>,
}

/// Which calls a diagram follows.
#[derive(Clone, Copy, Debug, PartialEq, Eq, Structural)]
pub enum DiagramDirection {
    Callees,
    Callers,
    Both,
}

/// How a diagram is answered.
#[derive(Clone, Copy, Debug, PartialEq, Eq, Structural)]
pub enum DiagramFormat {
    Edges,
    Mermaid,
}

/// What a diagram is drawn around.
pub enum DiagramSubject {
    Symbol(String, DiagramDirection),
    File(String),
    Class(String),
}

/// What a [`DiagramSubject`] stands for.
pub enum DiagramSubjectModel {
    Symbol(Seq<char>, DiagramDirection),
    File(Seq<char>),
    Class(Seq<char>),
}

impl View for DiagramSubject {
    type V = DiagramSubjectModel;

    open spec fn view(&self) -> DiagramSubjectModel {
        match self {
            DiagramSubject::Symbol(s, d) => DiagramSubjectModel::Symbol(s@, *d),
            DiagramSubject::File(s) => DiagramSubjectModel::File(s@),
            DiagramSubject::Class(s) => DiagramSubjectModel::Class(s@),
        }
    }
}

/// A diagram that the graph is asked for.
pub struct DiagramPlan {
    pub subject: DiagramSubject,
    pub depth: u32,
    pub max_nodes: u32,
    pub min_confidence: Option<Confidence>,
    pub format: DiagramFormat,
    pub styled: bool,
}

/// What a [`DiagramPlan`] stands for.
pub struct DiagramPlanModel {
    pub subject: DiagramSubjectModel,
    pub depth: u32,
    pub max_nodes: u32,
    pub min_confidence: Option<Confidence>,
    pub format: DiagramFormat,
    pub styled: bool,
}

impl View for DiagramPlan {
    type V = DiagramPlanModel;

    open spec fn view(&self) -> DiagramPlanModel {
        DiagramPlanModel {
            subject: self.subject@,
            depth: self.depth,
            max_nodes: self.max_nodes,
            min_confidence: self.min_confidence,
            format: self.format,
            styled: self.styled,
        }
    }
}

/// Which calls a diagram follows, if the word for it is known.
pub open spec fn diagram_direction(direction: Option<&str>) -> Option<DiagramDirection> {
    let d = argument(direction);
    if d.len() == 0 || d == "both"@ {
        Some(DiagramDirection::Both)
    } else if d == "callees"@ {
        Some(DiagramDirection::Callees)
    } else if d == "callers"@ {
        Some(DiagramDirection::Callers)
    } else {
        None
    }
}

/// How a diagram is answered, if the word for it is known.
pub open spec fn diagram_format(format: Option<&str>) -> Option<DiagramFormat> {
    let f = argument(format);
    if f.len() == 0 || f == "edges"@ {
        Some(DiagramFormat::Edges)
    } else if f == "mermaid"@ {
        Some(DiagramFormat::Mermaid)
    } else {
        None
    }
}

/// How many of three arguments are given.
pub open spec fn given_count(a: Option<&str>, b: Option<&str>, c: Option<&str>) -> int {
    (if given(a) is Some { 1int } else { 0 }) + (if given(b) is Some { 1int } else { 0 }) + (
    if given(c) is Some { 1int } else { 0 })
}

/// The diagram that a request asks for, or why it is refused: exactly one
/// subject, and known words for direction, format and confidence, looked at in
/// this order.
pub open spec fn diagram_plan(input: GenerateDiagramInput) -> Result<DiagramPlanModel, Seq<char>> {
    let direction = diagram_direction(input.direction);
    let format = diagram_format(input.format);
    let confidence = min_confidence_named(opt_view(input.min_confidence));
    if given_count(input.symbol, input.file, input.class) != 1 {
        Err("exactly one of 'symbol', 'file', or 'class' is required"@)
    } else if given(input.symbol) is Some && direction is None {
        Err(
            "invalid direction: "@ + argument(input.direction)
                + ". Expected one of: callees, callers, both"@,
        )
    } else if format is None {
        Err("invalid format: "@ + argument(input.format) + ". Expected 'edges' or 'mermaid'"@)
    } else if confidence is Err {
        Err(super::bad_confidence(debug_text(confidence->Err_0)))
    } else {
        Ok(
            DiagramPlanModel {
                subject: match given(input.symbol) {
                    Some(s) => DiagramSubjectModel::Symbol(s, direction->0),
                    None => match given(input.file) {
                        Some(f) => DiagramSubjectModel::File(f),
                        None => DiagramSubjectModel::Class(argument(input.class)),
                    },
                },
                depth: resolved_depth(input.depth),
                max_nodes: resolved_limit(input.max_nodes, 30, u32::MAX),
                min_confidence: confidence->Ok_0,
                format: format->0,
                styled: input.styled,
            },
        )
    }
}

fn parse_diagram_direction(direction: Option<&str>) -> (r: Option<DiagramDirection>)
    ensures
        r == diagram_direction(direction),
{
    let d = argument_or_empty(direction);
    if d.is_empty() || same_text(d, "both") {
        Some(DiagramDirection::Both)
    } else if same_text(d, "callees") {
        Some(DiagramDirection::Callees)
    } else if same_text(d, "callers") {
        Some(DiagramDirection::Callers)
    } else {
        None
    }
}

fn parse_diagram_format(format: Option<&str>) -> (r: Option<DiagramFormat>)
    ensures
        r == diagram_format(format),
{
    let f = argument_or_empty(format);
    if f.is_empty() || same_text(f, "edges") {
        Some(DiagramFormat::Edges)
    } else if same_text(f, "mermaid") {
        Some(DiagramFormat::Mermaid)
    } else {
        None
    }
}

/// The diagram that a request asks for, or the answer that refuses it.
pub fn plan_diagram(input: &GenerateDiagramInput) -> (r: Result<DiagramPlan, ToolReply>)
    ensures
        match diagram_plan(*input) {
            Ok(plan) => r is Ok && r->Ok_0@ == plan,
            Err(msg) => r is Err && r->Err_0@ == failure(msg),
        },
{
    let symbol = given_argument(input.symbol);
    let file = given_argument(input.file);
    let class = given_argument(input.class);
    let alone = match (symbol, file, class) {
        (Some(_), None, None) => true,
        (None, Some(_), None) => true,
        (None, None, Some(_)) => true,
        _ => false,
    };
    if !alone {
        return Err(tool_error("exactly one of 'symbol', 'file', or 'class' is required"));
    }
    let direction = match parse_diagram_direction(input.direction) {
        Some(d) => d,
        None => {
            if symbol.is_some() {
                let msg = glue3(
                    "invalid direction: ",
                    argument_or_empty(input.direction),
                    ". Expected one of: callees, callers, both",
                );
                return Err(tool_error(msg.as_str()));
            }
            DiagramDirection::Both
        },
    };
    let format = match parse_diagram_format(input.format) {
        Some(f) => f,
        None => {
            let msg = glue3(
                "invalid format: ",
                argument_or_empty(input.format),
                ". Expected 'edges' or 'mermaid'",
            );
            return Err(tool_error(msg.as_str()));
        },
    };
    let min_confidence = match parse_min_confidence(input.min_confidence) {
        Ok(c) => c,
        Err(msg) => {
            return Err(tool_error(msg.as_str()));
        },
    };
    let subject = match symbol {
        Some(s) => DiagramSubject::Symbol(owned(s), direction),
        None => match file {
            Some(f) => DiagramSubject::File(owned(f)),
            None => DiagramSubject::Class(owned(argument_or_empty(input.class))),
        },
    };
    Ok(
        DiagramPlan {
            subject,
            depth: resolve_depth(input.depth),
            max_nodes: resolve_limit(input.max_nodes, 30, u32::MAX),
            min_confidence,
            format,
            styled: input.styled,
        },
    )
}

/// An edge of a diagram.
#[derive(Debug, Clone)]
pub struct DiagramEdge {
    pub from: String,
    pub to: String,
    pub label: String,
}

/// What a [`DiagramEdge`] stands for.
pub struct DiagramEdgeModel {
    pub from: Seq<char>,
    pub to: Seq<char>,
    pub label: Seq<char>,
}

impl View for DiagramEdge {
    type V = DiagramEdgeModel;

    open spec fn view(&self) -> DiagramEdgeModel {
        DiagramEdgeModel { from: self.from@, to: self.to@, label: self.label@ }
    }
}

impl ToJson for DiagramEdge {
    open spec fn json_of(v: DiagramEdgeModel) -> JsonModel {
        JsonModel::Object(
            seq![
                ("from"@, JsonModel::Text(v.from)),
                ("to"@, JsonModel::Text(v.to)),
                ("label"@, JsonModel::Text(v.label)),
            ],
        )
    }

    fn to_json(&self) -> (r: Json) {
        let mut m = no_members();
        put(&mut m, "from", text(self.from.as_str()));
        put(&mut m, "to", text(self.to.as_str()));
        put(&mut m, "label", text(self.label.as_str()));
        assert(member_models(m@) =~= Self::json_of(self@)->Object_0);
        object(m)
    }
}

/// A diagram that the graph made.
pub struct Diagram {
    /// Its edges.
    pub edges: Vec<DiagramEdge>,
    /// Its drawing from top to bottom, needed only where that is asked for.
    pub drawing: String,
}

/// What a [`Diagram`] stands for.
pub struct DiagramModel {
    pub edges: Seq<DiagramEdgeModel>,
    pub drawing: Seq<char>,
}

impl View for Diagram {
    type V = DiagramModel;

    open spec fn view(&self) -> DiagramModel {
        DiagramModel { edges: views(self.edges@), drawing: self.drawing@ }
    }
}

/// The answer for a subject that the graph does not know: with suggestions for a
/// symbol or a class, and without for a file.
pub open spec fn unknown_subject(
    subject: DiagramSubjectModel,
    candidates: Seq<SymbolModel>,
) -> ReplyModel {
    match subject {
        DiagramSubjectModel::Symbol(s, _) => not_found(
            "symbol"@,
            debug_text(s),
            symbol_hint(candidates),
        ),
        DiagramSubjectModel::File(f) => not_found("file"@, debug_text(f), None),
        DiagramSubjectModel::Class(c) => not_found("class"@, debug_text(c), class_hint(candidates)),
    }
}

/// A diagram in the format asked for.
pub open spec fn diagram_text(diagram: DiagramModel, format: DiagramFormat) -> Seq<char> {
    match format {
        DiagramFormat::Edges => render(JsonModel::Array(jsons::<DiagramEdge>(diagram.edges))),
        DiagramFormat::Mermaid => diagram.drawing,
    }
}

/// The answer to a request for a diagram.
pub open spec fn diagram_reply(
    input: GenerateDiagramInput,
    found: Option<DiagramModel>,
    candidates: Seq<SymbolModel>,
) -> ReplyModel {
    match diagram_plan(input) {
        Err(msg) => failure(msg),
        Ok(plan) => match found {
            Some(d) => success(diagram_text(d, plan.format)),
            None => unknown_subject(plan.subject, candidates),
        },
    }
}

/// Answers a request for a diagram: `found` is what the graph made for
/// [`plan_diagram`], and `candidates` are the symbols with names similar to the
/// subject. No edges are an empty list.
pub fn generate_diagram(
    input: GenerateDiagramInput,
    found: Option<Diagram>,
    candidates: &Vec<Symbol>,
) -> (r: ToolReply)
    ensures
        r@ == diagram_reply(input, opt_view(found), views(candidates@)),
{
    let plan = match plan_diagram(&input) {
        Err(refusal) => {
            return refusal;
        },
        Ok(plan) => plan,
    };
    match found {
        Some(d) => match plan.format {
            DiagramFormat::Edges => tool_success_json(&d.edges),
            DiagramFormat::Mermaid => tool_success_text(d.drawing),
        },
        None => match plan.subject {
            DiagramSubject::Symbol(s, _) => symbol_not_found(s.as_str(), candidates),
            DiagramSubject::File(f) => {
                let quoted = debug_quoted(f.as_str());
                not_found_reply("file", quoted.as_str(), None)
            },
            DiagramSubject::Class(c) => class_not_found(c.as_str(), candidates),
        },
    }
}

} // verus!
