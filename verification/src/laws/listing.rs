//! What requests for the symbols of a file, for one symbol, for a summary, for
//! callers and callees and for dependencies are answered.

use super::{
    did_you_mean, five_ids, how_many, kind_word, lemma_lists_by_id, lemma_not_found,
    lemma_record_object, lemma_records, lemma_reply_shows_number, lemma_reply_shows_page,
    lemma_same_filter, list_by_id, record, record_object, records, shows_number, shows_page, start,
};
use crate::handlers::query::{
    call_walk_reply, dependencies_reply, dependency_rows, CallChain, CallChainModel,
    DependencyEntry, DependencyModel, IncludeModel,
};
use crate::handlers::symbols::{
    count_row, detail_reply, file_symbols_reply, is_top_level, lemma_rows_of_counts, listed,
    summary_counts, summary_reply, summary_rows, NamespaceCountsModel, SummaryRow, SummaryRowModel,
};
use crate::handlers::{kind_name, symbol_row, symbol_rows, SymbolResult, SymbolRow};
use crate::json::{render, JsonModel, ToJson};
use crate::model::{SymbolKind, SymbolModel};
use crate::sort::{lemma_filter_all, lemma_stable_sorted_in_order, stable_sorted, Sortable};
use crate::text::{debug_text, lemma_text_le_total, text_le};
use vstd::prelude::*;

verus! {

// ----- symbols of a file -----

/// The symbols that a listing is to show: those without a parent where only the
/// top level is asked for, and else all.
pub open spec fn to_list(symbols: Seq<SymbolModel>, top_level_only: bool) -> Seq<SymbolModel> {
    if top_level_only {
        symbols.filter(|s: SymbolModel| s.parent.len() == 0)
    } else {
        symbols
    }
}

/// A request for the symbols of a file is answered with the page of them, by id,
/// from the offset asked for, a hundred where there is no limit, or with their
/// number. Without a file, or where the graph has no symbols of it, the answer is
/// an error that says so.
pub proof fn lemma_file_listed(
    symbols: Seq<SymbolModel>,
    file: Seq<char>,
    top_level_only: bool,
    brief: bool,
    limit: Option<u32>,
    offset: Option<u32>,
    count_only: bool,
    max_bytes: usize,
)
    requires
        symbols.len() <= u32::MAX,
    ensures
        ({
            let r = file_symbols_reply(
                symbols,
                file,
                top_level_only,
                brief,
                limit,
                offset,
                count_only,
                max_bytes,
            );
            let shown = to_list(symbols, top_level_only);
            &&& r.is_error <==> file.len() == 0 || symbols.len() == 0
            &&& file.len() == 0 ==> r.text == "'file' is required"@
            &&& file.len() > 0 && symbols.len() == 0 ==> r.text == "no symbols found in file: "@
                + file
            &&& !r.is_error && count_only ==> shows_number(r, shown.len())
            &&& !r.is_error && !count_only ==> exists|rows: Seq<SymbolRow>| #[trigger]
                list_by_id(rows, shown, brief) && shows_page::<SymbolResult>(
                    r,
                    rows,
                    start(offset),
                    how_many(limit, 100),
                    max_bytes,
                )
        }),
{
    let shown = to_list(symbols, top_level_only);
    lemma_listed(symbols, top_level_only);
    lemma_reply_shows_number(shown.len() as u32);
    lemma_lists_by_id(shown, brief);
    lemma_reply_shows_page::<SymbolResult>(
        stable_sorted::<SymbolResult>(symbol_rows(shown, brief)),
        start(offset) as u32,
        how_many(limit, 100) as u32,
        max_bytes,
    );
}

proof fn lemma_listed(symbols: Seq<SymbolModel>, top_level_only: bool)
    ensures
        listed(symbols, top_level_only) == to_list(symbols, top_level_only),
        listed(symbols, top_level_only).len() <= symbols.len(),
{
    let pass = |s: SymbolModel| !top_level_only || is_top_level(s);
    if top_level_only {
        let other = |s: SymbolModel| s.parent.len() == 0;
        lemma_same_filter(symbols, pass, other);
    } else {
        lemma_filter_all(symbols, pass);
    }
    symbols.lemma_filter_len(pass);
}

// ----- one symbol -----

/// A request for one symbol is answered with its whole record, or with an error
/// that names it and suggests others.
pub proof fn lemma_symbol_told(
    symbol: Seq<char>,
    found: Option<SymbolModel>,
    candidates: Seq<SymbolModel>,
)
    ensures
        ({
            let r = detail_reply(symbol, found, candidates);
            &&& r.is_error <==> symbol.len() == 0 || found is None
            &&& symbol.len() == 0 ==> r.text == "'symbol' is required"@
            &&& symbol.len() > 0 && found is None ==> r.text == "symbol"@ + " not found: "@
                + debug_text(symbol) + did_you_mean(five_ids(candidates))
            &&& symbol.len() > 0 && found is Some ==> r.text == render(
                record_object(record(found->0, false)),
            )
        }),
{
    lemma_not_found("symbol"@, debug_text(symbol), candidates);
    if found is Some {
        lemma_records(seq![found->0], false);
        assert(symbol_rows(seq![found->0], false)[0] == symbol_row(found->0, false));
        assert(records(seq![found->0], false)[0] == record(found->0, false));
        lemma_record_object(record(found->0, false));
    }
}

// ----- summary -----

/// The row of a count: its namespace, or `<global>` where that is empty, the word
/// for its kind, and the number.
pub open spec fn counted(c: (Seq<char>, SymbolKind, u32)) -> SummaryRowModel {
    SummaryRowModel {
        namespace: if c.0.len() == 0 {
            "<global>"@
        } else {
            c.0
        },
        kind: kind_word(c.1),
        count: c.2,
    }
}

/// Whether rows list the counts of a summary: each once, by namespace and by kind
/// within one.
pub open spec fn list_counts(
    rows: Seq<SummaryRowModel>,
    summary: Seq<NamespaceCountsModel>,
) -> bool {
    &&& rows.len() == summary_counts(summary).len()
    &&& rows.to_multiset() == summary_counts(summary).map_values(
        |c: (Seq<char>, SymbolKind, u32)| counted(c),
    ).to_multiset()
    &&& forall|i: int, j: int|
        0 <= i < j < rows.len() ==> {
            let a = #[trigger] rows[i];
            let b = #[trigger] rows[j];
            text_le(a.namespace, b.namespace) && (a.namespace == b.namespace ==> text_le(
                a.kind,
                b.kind,
            ))
        }
}

/// A request for a summary is answered with the page of its rows, from the offset
/// asked for, a hundred where there is no limit, or with the number of rows.
pub proof fn lemma_summary_told(
    summary: Seq<NamespaceCountsModel>,
    limit: Option<u32>,
    offset: Option<u32>,
    count_only: bool,
    max_bytes: usize,
)
    requires
        summary_counts(summary).len() <= u32::MAX,
    ensures
        ({
            let r = summary_reply(summary, limit, offset, count_only, max_bytes);
            &&& count_only ==> shows_number(r, summary_counts(summary).len())
            &&& !count_only ==> exists|rows: Seq<SummaryRowModel>| #[trigger]
                list_counts(rows, summary) && shows_page::<SummaryRow>(
                    r,
                    rows,
                    start(offset),
                    how_many(limit, 100),
                    max_bytes,
                )
        }),
{
    let all = summary_rows(summary);
    let counts = summary_counts(summary);
    let rows = stable_sorted::<SummaryRow>(all);
    lemma_rows_of_counts(summary);
    assert forall|i: int| 0 <= i < counts.len() implies count_row(counts[i]) == counted(
        counts[i],
    ) by {
        assert(kind_word(counts[i].1) == kind_name(counts[i].1));
    }
    assert(all =~= counts.map_values(|c: (Seq<char>, SymbolKind, u32)| counted(c)));
    lemma_stable_sorted_in_order::<SummaryRow>(all);
    assert forall|i: int, j: int| 0 <= i < j < rows.len() implies {
        let a = #[trigger] rows[i];
        let b = #[trigger] rows[j];
        text_le(a.namespace, b.namespace) && (a.namespace == b.namespace ==> text_le(
            a.kind,
            b.kind,
        ))
    } by {
        assert(SummaryRow::at_most(rows[i], rows[j]));
        lemma_text_le_total(rows[i].namespace, rows[j].namespace);
    }
    assert(list_counts(rows, summary));
    lemma_reply_shows_number(counts.len() as u32);
    lemma_reply_shows_page::<SummaryRow>(
        rows,
        start(offset) as u32,
        how_many(limit, 100) as u32,
        max_bytes,
    );
}

// ----- callers and callees -----

/// Whether symbols along calls are others, each once, the nearest first and by id
/// where they are as near.
pub open spec fn list_chains(rows: Seq<CallChainModel>, chains: Seq<CallChainModel>) -> bool {
    &&& rows.len() == chains.len()
    &&& rows.to_multiset() == chains.to_multiset()
    &&& forall|i: int, j: int|
        0 <= i < j < rows.len() ==> {
            let a = #[trigger] rows[i];
            let b = #[trigger] rows[j];
            a.depth < b.depth || (a.depth == b.depth && text_le(a.symbol_id, b.symbol_id))
        }
}

/// A request for callers or callees is answered with the page of all that the
/// walk reached, from the offset asked for, a hundred where there is no limit. A
/// symbol that the graph knows may have none; one that it does not know is an
/// error that names it and suggests others.
pub proof fn lemma_calls_told(
    symbol: Seq<char>,
    chains: Seq<CallChainModel>,
    known: bool,
    candidates: Seq<SymbolModel>,
    limit: Option<u32>,
    offset: Option<u32>,
    max_bytes: usize,
)
    requires
        chains.len() <= u32::MAX,
    ensures
        ({
            let r = call_walk_reply(symbol, chains, known, candidates, limit, offset, max_bytes);
            &&& r.is_error <==> symbol.len() == 0 || (chains.len() == 0 && !known)
            &&& symbol.len() == 0 ==> r.text == "'symbol' is required"@
            &&& symbol.len() > 0 && r.is_error ==> r.text == "symbol"@ + " not found: "@
                + debug_text(symbol) + did_you_mean(five_ids(candidates))
            &&& !r.is_error ==> exists|rows: Seq<CallChainModel>| #[trigger]
                list_chains(rows, chains) && shows_page::<CallChain>(
                    r,
                    rows,
                    start(offset),
                    how_many(limit, 100),
                    max_bytes,
                )
        }),
{
    let rows = stable_sorted::<CallChain>(chains);
    lemma_not_found("symbol"@, debug_text(symbol), candidates);
    lemma_stable_sorted_in_order::<CallChain>(chains);
    assert forall|i: int, j: int| 0 <= i < j < rows.len() implies {
        let a = #[trigger] rows[i];
        let b = #[trigger] rows[j];
        a.depth < b.depth || (a.depth == b.depth && text_le(a.symbol_id, b.symbol_id))
    } by {
        assert(CallChain::at_most(rows[i], rows[j]));
    }
    assert(list_chains(rows, chains));
    lemma_reply_shows_page::<CallChain>(
        rows,
        start(offset) as u32,
        how_many(limit, 100) as u32,
        max_bytes,
    );
}

/// What a record along calls, a dependency and a row of a summary say, as JSON.
pub proof fn lemma_rows_as_json(c: CallChainModel, d: DependencyModel, s: SummaryRowModel)
    ensures
        CallChain::json_of(c) == JsonModel::Object(
            seq![
                ("symbol_id"@, JsonModel::Text(c.symbol_id)),
                ("file"@, JsonModel::Text(c.file)),
                ("line"@, JsonModel::Number(c.line as nat)),
                ("depth"@, JsonModel::Number(c.depth as nat)),
            ],
        ),
        DependencyEntry::json_of(d) == JsonModel::Object(
            seq![
                ("file"@, JsonModel::Text(d.file)),
                ("kind"@, JsonModel::Text(d.kind)),
                ("line"@, JsonModel::Number(d.line as nat)),
            ],
        ),
        SummaryRow::json_of(s) == JsonModel::Object(
            seq![
                ("namespace"@, JsonModel::Text(s.namespace)),
                ("kind"@, JsonModel::Text(s.kind)),
                ("count"@, JsonModel::Number(s.count as nat)),
            ],
        ),
{
}

// ----- dependencies -----

/// Whether rows list the includes of a file: each once, by file and by line
/// within one.
pub open spec fn list_includes(rows: Seq<DependencyModel>, deps: Seq<IncludeModel>) -> bool {
    &&& rows.len() == deps.len()
    &&& rows.to_multiset() == deps.map_values(
        |d: IncludeModel| DependencyModel { file: d.path, kind: "includes"@, line: d.line },
    ).to_multiset()
    &&& forall|i: int, j: int|
        0 <= i < j < rows.len() ==> {
            let a = #[trigger] rows[i];
            let b = #[trigger] rows[j];
            text_le(a.file, b.file) && (a.file == b.file ==> a.line <= b.line)
        }
}

/// A request for the dependencies of a file is answered with the page of its
/// includes, from the offset asked for, a hundred where there is no limit.
/// Without a file the answer is an error.
pub proof fn lemma_dependencies_told(
    file: Seq<char>,
    deps: Seq<IncludeModel>,
    limit: Option<u32>,
    offset: Option<u32>,
    max_bytes: usize,
)
    requires
        deps.len() <= u32::MAX,
    ensures
        ({
            let r = dependencies_reply(file, deps, limit, offset, max_bytes);
            &&& r.is_error <==> file.len() == 0
            &&& r.is_error ==> r.text == "'file' is required"@
            &&& !r.is_error ==> exists|rows: Seq<DependencyModel>| #[trigger]
                list_includes(rows, deps) && shows_page::<DependencyEntry>(
                    r,
                    rows,
                    start(offset),
                    how_many(limit, 100),
                    max_bytes,
                )
        }),
{
    let all = dependency_rows(deps);
    let rows = stable_sorted::<DependencyEntry>(all);
    assert(all =~= deps.map_values(
        |d: IncludeModel| DependencyModel { file: d.path, kind: "includes"@, line: d.line },
    ));
    lemma_stable_sorted_in_order::<DependencyEntry>(all);
    assert forall|i: int, j: int| 0 <= i < j < rows.len() implies {
        let a = #[trigger] rows[i];
        let b = #[trigger] rows[j];
        text_le(a.file, b.file) && (a.file == b.file ==> a.line <= b.line)
    } by {
        assert(DependencyEntry::at_most(rows[i], rows[j]));
        lemma_text_le_total(rows[i].file, rows[j].file);
    }
    assert(list_includes(rows, deps));
    lemma_reply_shows_page::<DependencyEntry>(
        rows,
        start(offset) as u32,
        how_many(limit, 100) as u32,
        max_bytes,
    );
}

} // verus!
