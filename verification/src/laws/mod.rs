//! What the tools do for those who ask, stated of requests and answers.
//!
//! Each law is stated over the request and over what the answer shows, with the
//! texts, fields and numbers written out.

pub mod basics;
pub mod classes;
pub mod coupling;
pub mod cycles;
pub mod diagrams;
pub mod jobs;
pub mod listing;
pub mod orphans;
pub mod resolution;
pub mod runs;
pub mod search;

use crate::json::{jsons, render, JsonModel, ToJson};
use crate::page::{
    behind, cost, count_reply, kept_count, lemma_kept_count, lemma_page_is_stretch,
    lemma_rest_has_room, page_json, page_of, page_reply, record_budget, Page, PageModel,
};
use crate::handlers::structure::{class_hint, class_like, class_suggestions};
use crate::handlers::{
    first, ids_of, kind_name, kind_named, lemma_kind_names, not_found, symbol_hint, symbol_row,
    symbol_rows, SymbolResult, SymbolRow,
};
use crate::model::{SymbolKind, SymbolModel};
use crate::reply::ReplyModel;
use crate::sort::{lemma_stable_sorted_in_order, stable_sorted, Sortable};
use crate::text::{joined, size, text_le};
use vstd::prelude::*;

verus! {

/// The word of a request: empty where it is absent.
pub open spec fn word(o: Option<&str>) -> Seq<char> {
    match o {
        Some(s) => s@,
        None => Seq::empty(),
    }
}

/// Where a request wants its answer to start.
pub open spec fn start(offset: Option<u32>) -> int {
    match offset {
        Some(o) => o as int,
        None => 0,
    }
}

/// How many records a request wants: the usual number where it says none or
/// zero, and a thousand at most.
pub open spec fn how_many(limit: Option<u32>, usual: int) -> int {
    match limit {
        Some(n) => if n == 0 {
            usual
        } else if n <= 1000 {
            n as int
        } else {
            1000
        },
        None => usual,
    }
}

/// The word for a kind of symbol.
pub open spec fn kind_word(kind: SymbolKind) -> Seq<char> {
    match kind {
        SymbolKind::Function => "function"@,
        SymbolKind::Method => "method"@,
        SymbolKind::Class => "class"@,
        SymbolKind::Struct => "struct"@,
        SymbolKind::Enum => "enum"@,
        SymbolKind::Typedef => "typedef"@,
        SymbolKind::Interface => "interface"@,
        SymbolKind::Trait => "trait"@,
    }
}

/// Whether a word is one for a kind of symbol.
pub open spec fn is_kind_word(w: Seq<char>) -> bool {
    exists|kind: SymbolKind| w == #[trigger] kind_word(kind)
}

/// A kind is parsed from the word for it, and from no other.
pub proof fn lemma_kind_word(w: Seq<char>)
    ensures
        is_kind_word(w) <==> kind_named(w) is Some,
        forall|kind: SymbolKind|
            kind_named(w) == Some(kind) <==> w == #[trigger] kind_word(kind),
        w.len() == 0 ==> !is_kind_word(w),
{
    assert forall|kind: SymbolKind|
        kind_named(w) == Some(kind) <==> w == #[trigger] kind_word(kind) by {
        lemma_kind_names(kind, w);
        assert(kind_word(kind) == kind_name(kind));
    }
    if kind_named(w) is Some {
        assert(w == kind_word(kind_named(w)->0));
    }
    reveal_strlit("function");
    reveal_strlit("method");
    reveal_strlit("class");
    reveal_strlit("struct");
    reveal_strlit("enum");
    reveal_strlit("typedef");
    reveal_strlit("interface");
    reveal_strlit("trait");
}

/// The id of a symbol: its file, a colon and its name, which stands behind its
/// parent where it has one.
pub open spec fn id_text(s: SymbolModel) -> Seq<char> {
    if s.parent.len() == 0 {
        s.file + ":"@ + s.name
    } else {
        s.file + ":"@ + (s.parent + "::"@ + s.name)
    }
}

/// The record of a symbol. A brief one is without column, end line and
/// signature.
pub open spec fn record(s: SymbolModel, brief: bool) -> SymbolRow {
    SymbolRow {
        id: id_text(s),
        name: s.name,
        kind: kind_word(s.kind),
        line: s.line,
        column: if brief {
            0
        } else {
            s.column
        },
        end_line: if brief {
            0
        } else {
            s.end_line
        },
        signature: if brief {
            Seq::empty()
        } else {
            s.signature
        },
        namespace: s.namespace,
        parent: s.parent,
    }
}

/// The record of a symbol as JSON. What is zero or empty is left out.
pub open spec fn record_object(v: SymbolRow) -> JsonModel {
    let none = Seq::<(Seq<char>, JsonModel)>::empty();
    JsonModel::Object(
        seq![
            ("id"@, JsonModel::Text(v.id)),
            ("name"@, JsonModel::Text(v.name)),
            ("kind"@, JsonModel::Text(v.kind)),
            ("line"@, JsonModel::Number(v.line as nat)),
        ] + (if v.column == 0 {
            none
        } else {
            seq![("column"@, JsonModel::Number(v.column as nat))]
        }) + (if v.end_line == 0 {
            none
        } else {
            seq![("end_line"@, JsonModel::Number(v.end_line as nat))]
        }) + (if v.signature.len() == 0 {
            none
        } else {
            seq![("signature"@, JsonModel::Text(v.signature))]
        }) + (if v.namespace.len() == 0 {
            none
        } else {
            seq![("namespace"@, JsonModel::Text(v.namespace))]
        }) + (if v.parent.len() == 0 {
            none
        } else {
            seq![("parent"@, JsonModel::Text(v.parent))]
        }),
    )
}

/// The record of a symbol has these members, in this order.
pub proof fn lemma_record_object(v: SymbolRow)
    ensures
        SymbolResult::json_of(v) == record_object(v),
{
    assert(SymbolResult::json_of(v)->Object_0 =~= record_object(v)->Object_0);
}

/// The records of symbols, in their order.
pub open spec fn records(symbols: Seq<SymbolModel>, brief: bool) -> Seq<SymbolRow> {
    symbols.map_values(|s: SymbolModel| record(s, brief))
}

/// A symbol is shown by its record.
pub proof fn lemma_records(symbols: Seq<SymbolModel>, brief: bool)
    ensures
        symbol_rows(symbols, brief) == records(symbols, brief),
{
    assert forall|i: int| 0 <= i < symbols.len() implies symbol_rows(symbols, brief)[i]
        == records(symbols, brief)[i] by {
        assert(symbol_row(symbols[i], brief) == record(symbols[i], brief));
    }
    assert(symbol_rows(symbols, brief) =~= records(symbols, brief));
}

/// The ids of symbols, up to five.
pub open spec fn five_ids(symbols: Seq<SymbolModel>) -> Seq<Seq<char>> {
    (if symbols.len() <= 5 {
        symbols
    } else {
        symbols.take(5)
    }).map_values(|s: SymbolModel| id_text(s))
}

/// The first five ids are those of the first five symbols.
pub proof fn lemma_five_ids(symbols: Seq<SymbolModel>)
    ensures
        ids_of(first(symbols, 5)) == five_ids(symbols),
{
    let some = first(symbols, 5);
    assert(ids_of(some) =~= five_ids(symbols));
}

/// The names of classes, structs, interfaces and traits among symbols, up to
/// five.
pub open spec fn five_class_names(symbols: Seq<SymbolModel>) -> Seq<Seq<char>> {
    let classes = symbols.filter(
        |s: SymbolModel|
            s.kind is Class || s.kind is Struct || s.kind is Interface || s.kind is Trait,
    );
    (if classes.len() <= 5 {
        classes
    } else {
        classes.take(5)
    }).map_values(|s: SymbolModel| s.name)
}

/// How names are suggested behind a message; nothing where there are none.
pub open spec fn did_you_mean(names: Seq<Seq<char>>) -> Seq<char> {
    if names.len() == 0 {
        Seq::empty()
    } else {
        ". Did you mean: "@ + joined(names, ", "@) + "?"@
    }
}

/// What is not found is answered with an error that names it, and with
/// suggestions where there are any: ids for a symbol, names for a class.
pub proof fn lemma_not_found(what: Seq<char>, name: Seq<char>, candidates: Seq<SymbolModel>)
    ensures
        not_found(what, name, None).is_error,
        not_found(what, name, None).text == what + " not found: "@ + name,
        not_found(what, name, symbol_hint(candidates)).is_error,
        not_found(what, name, symbol_hint(candidates)).text == what + " not found: "@ + name
            + did_you_mean(five_ids(candidates)),
        not_found(what, name, class_hint(candidates)).is_error,
        not_found(what, name, class_hint(candidates)).text == what + " not found: "@ + name
            + did_you_mean(five_class_names(candidates)),
{
    let head = what + " not found: "@ + name;
    let ids = five_ids(candidates);
    let names = five_class_names(candidates);
    lemma_five_ids(candidates);
    if ids.len() > 0 {
        let s = candidates[ids.len() - 1];
        assert(ids.last() == id_text(s));
        reveal_strlit(":");
        assert(id_text(s).len() > 0);
        lemma_joined_long(ids, ", "@);
    } else {
        assert(joined(ids, ", "@) =~= seq![]);
    }
    assert(head + Seq::<char>::empty() =~= head);
    assert(head + ". Did you mean: "@ + joined(ids, ", "@) + "?"@ =~= head + (". Did you mean: "@
        + joined(ids, ", "@) + "?"@));
    let classes = candidates.filter(|s: SymbolModel| class_like(s.kind));
    lemma_same_filter(
        candidates,
        |s: SymbolModel| class_like(s.kind),
        |s: SymbolModel|
            s.kind is Class || s.kind is Struct || s.kind is Interface || s.kind is Trait,
    );
    assert(class_suggestions(candidates, 5) =~= names);
    assert(head + ". Did you mean: "@ + joined(names, ", "@) + "?"@ =~= head + (
    ". Did you mean: "@ + joined(names, ", "@) + "?"@));
}

proof fn lemma_joined_long(parts: Seq<Seq<char>>, sep: Seq<char>)
    requires
        parts.len() > 0,
        parts.last().len() > 0,
    ensures
        joined(parts, sep).len() > 0,
{
}

/// Filters that agree let the same elements through.
pub proof fn lemma_same_filter<V>(s: Seq<V>, p: spec_fn(V) -> bool, q: spec_fn(V) -> bool)
    requires
        forall|i: int| 0 <= i < s.len() ==> p(#[trigger] s[i]) == q(s[i]),
    ensures
        s.filter(p) == s.filter(q),
    decreases s.len(),
{
    reveal(Seq::filter);
    if s.len() > 0 {
        let t = s.drop_last();
        assert forall|i: int| 0 <= i < t.len() implies p(#[trigger] t[i]) == q(t[i]) by {
            assert(t[i] == s[i]);
        }
        lemma_same_filter(t, p, q);
        assert(p(s[s.len() - 1]) == q(s[s.len() - 1]));
    }
}

/// Whether records list symbols: each of them once, by id.
pub open spec fn list_by_id(rows: Seq<SymbolRow>, symbols: Seq<SymbolModel>, brief: bool) -> bool {
    &&& rows.len() == symbols.len()
    &&& rows.to_multiset() == records(symbols, brief).to_multiset()
    &&& forall|i: int, j: int|
        0 <= i < j < rows.len() ==> text_le(#[trigger] rows[i].id, #[trigger] rows[j].id)
}

/// Sorted records list the symbols.
pub proof fn lemma_lists_by_id(symbols: Seq<SymbolModel>, brief: bool)
    ensures
        list_by_id(
            stable_sorted::<SymbolResult>(symbol_rows(symbols, brief)),
            symbols,
            brief,
        ),
{
    let rows = symbol_rows(symbols, brief);
    lemma_records(symbols, brief);
    lemma_stable_sorted_in_order::<SymbolResult>(rows);
    let sorted = stable_sorted::<SymbolResult>(rows);
    assert forall|i: int, j: int| 0 <= i < j < sorted.len() implies text_le(
        #[trigger] sorted[i].id,
        #[trigger] sorted[j].id,
    ) by {
        assert(SymbolResult::at_most(sorted[i], sorted[j]));
    }
}

/// A page as JSON.
pub open spec fn page_object<T: ToJson>(page: PageModel<T::V>) -> JsonModel {
    JsonModel::Object(
        seq![
            ("results"@, JsonModel::Array(jsons::<T>(page.results))),
            ("total"@, JsonModel::Number(page.total as nat)),
            ("offset"@, JsonModel::Number(page.offset as nat)),
            ("limit"@, JsonModel::Number(page.limit as nat)),
            ("truncated"@, JsonModel::Bool(page.truncated)),
            (
                "next_offset"@,
                match page.next_offset {
                    Some(n) => JsonModel::Number(n as nat),
                    None => JsonModel::Null,
                },
            ),
        ],
    )
}

/// Whether a page holds the records of a list from `offset` on, `limit` of them
/// or as many as there are. A page that was cut short says where to go on.
pub open spec fn is_page_at<V>(page: PageModel<V>, rows: Seq<V>, offset: int, limit: int) -> bool {
    &&& page.total == rows.len()
    &&& page.offset == offset
    &&& page.limit == limit
    &&& page.results.len() <= limit
    &&& forall|k: int|
        0 <= k < page.results.len() ==> offset + k < rows.len() && #[trigger] page.results[k]
            == rows[offset + k]
    &&& page.truncated ==> page.results.len() < limit && offset + page.results.len() < rows.len()
        && page.next_offset == Some((offset + page.results.len()) as u32)
    &&& !page.truncated ==> page.next_offset is None && page.results.len() == if offset
        >= rows.len() {
        0
    } else if rows.len() - offset < limit {
        rows.len() - offset
    } else {
        limit
    }
}

/// What records take: the text of each and a comma.
pub open spec fn taken(rows: Seq<JsonModel>) -> nat
    decreases rows.len(),
{
    if rows.len() == 0 {
        0
    } else {
        taken(rows.drop_last()) + size(render(rows.last())) + 1
    }
}

/// What records take is what they cost.
pub proof fn lemma_taken(rows: Seq<JsonModel>)
    ensures
        taken(rows) == cost(rows),
    decreases rows.len(),
{
    if rows.len() > 0 {
        lemma_taken(rows.drop_last());
    }
}

/// Whether a page is cut short for size as it should be: 512 bytes are set aside
/// for what is around the records, what is shown fits the rest, and one record
/// more would not.
pub open spec fn is_cut_for_size<T: ToJson>(
    page: PageModel<T::V>,
    rows: Seq<T::V>,
    offset: int,
    max_bytes: usize,
) -> bool {
    &&& page.results.len() > 0 ==> taken(jsons::<T>(page.results)) + 512 <= max_bytes
    &&& page.truncated ==> taken(
        jsons::<T>(rows.subrange(offset, offset + page.results.len() + 1)),
    ) + 512 > max_bytes
    &&& taken(jsons::<T>(rows)) + 512 <= max_bytes ==> !page.truncated
}

/// Whether an answer is the page of a list from `offset` on, cut short only
/// where the size leaves no room for the next record.
pub open spec fn shows_page<T: ToJson>(
    r: ReplyModel,
    rows: Seq<T::V>,
    offset: int,
    limit: int,
    max_bytes: usize,
) -> bool {
    exists|page: PageModel<T::V>|
        #![trigger page_object::<T>(page)]
        !r.is_error && r.text == render(page_object::<T>(page)) && is_page_at(
            page,
            rows,
            offset,
            limit,
        ) && is_cut_for_size::<T>(page, rows, offset, max_bytes)
}

/// Whether an answer is a number alone.
pub open spec fn shows_number(r: ReplyModel, total: nat) -> bool {
    !r.is_error && r.text == render(
        JsonModel::Object(
            seq![
                ("results"@, JsonModel::Array(seq![])),
                ("total"@, JsonModel::Number(total)),
                ("offset"@, JsonModel::Number(0)),
                ("limit"@, JsonModel::Number(0)),
                ("truncated"@, JsonModel::Bool(false)),
                ("next_offset"@, JsonModel::Null),
            ],
        ),
    )
}

/// A page of a list is that of the list from its offset on.
pub proof fn lemma_page_is_at<T: ToJson>(
    rows: Seq<T::V>,
    offset: u32,
    limit: u32,
    max_bytes: usize,
)
    requires
        rows.len() <= u32::MAX,
    ensures
        is_page_at(page_of::<T>(rows, offset, limit, max_bytes), rows, offset as int, limit as int),
        is_cut_for_size::<T>(
            page_of::<T>(rows, offset, limit, max_bytes),
            rows,
            offset as int,
            max_bytes,
        ),
{
    let page = page_of::<T>(rows, offset, limit, max_bytes);
    let rest = behind(rows, offset);
    let js = jsons::<T>(rest);
    let budget = record_budget(max_bytes as nat);
    lemma_page_is_stretch::<T>(rows, offset, limit, max_bytes);
    lemma_kept_count(js, limit as nat, budget);
    let k = kept_count(js, limit as nat, budget) as int;
    let shown = jsons::<T>(page.results);
    assert(shown =~= js.take(k));
    lemma_taken(shown);
    lemma_taken(jsons::<T>(rows));
    if k > 0 {
        assert(shown.len() > 0);
    }
    if page.truncated {
        let more = jsons::<T>(rows.subrange(offset as int, offset + k + 1));
        assert(more =~= js.take(k + 1));
        lemma_taken(more);
    }
    if cost(jsons::<T>(rows)) <= record_budget(max_bytes as nat) {
        lemma_rest_has_room::<T>(rows, offset, limit, max_bytes);
    }
}

/// An answer that holds a page of a list shows it.
pub proof fn lemma_reply_shows_page<T: ToJson>(
    rows: Seq<T::V>,
    offset: u32,
    limit: u32,
    max_bytes: usize,
)
    requires
        rows.len() <= u32::MAX,
    ensures
        shows_page::<T>(
            page_reply::<T>(rows, offset, limit, max_bytes),
            rows,
            offset as int,
            limit as int,
            max_bytes,
        ),
{
    let page = page_of::<T>(rows, offset, limit, max_bytes);
    lemma_page_is_at::<T>(rows, offset, limit, max_bytes);
    lemma_page_object::<T>(page);
}

/// An answer that counts alone shows the number.
pub proof fn lemma_reply_shows_number(total: u32)
    ensures
        shows_number(count_reply(total), total as nat),
{
    assert(page_json(seq![], total, 0, 0, false, None)->Object_0 =~= seq![
        ("results"@, JsonModel::Array(seq![])),
        ("total"@, JsonModel::Number(total as nat)),
        ("offset"@, JsonModel::Number(0)),
        ("limit"@, JsonModel::Number(0)),
        ("truncated"@, JsonModel::Bool(false)),
        ("next_offset"@, JsonModel::Null),
    ]);
}

/// The JSON of a page has these members, in this order.
pub proof fn lemma_page_object<T: ToJson>(page: PageModel<T::V>)
    ensures
        Page::<T>::json_of(page) == page_object::<T>(page),
{
    assert(Page::<T>::json_of(page)->Object_0 =~= page_object::<T>(page)->Object_0);
}

} // verus!
