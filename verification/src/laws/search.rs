//! What a search for symbols is answered.

use super::{
    five_ids, how_many, is_cut_for_size, is_kind_word, kind_word, lemma_five_ids, lemma_kind_word,
    lemma_page_object, lemma_records, lemma_reply_shows_number, lemma_reply_shows_page,
    lemma_same_filter, lemma_taken, page_object, records, shows_number, shows_page, start, word,
};
use crate::edit_distance::distance;
use crate::handlers::symbols::{
    hit_symbols, is_identifier_char, is_near, near_hits, near_miss, nearest, plain_identifier,
    search_plan, search_reply, suggested, text_array, NearHit, NearHitModel, NearParamsModel,
    SearchParamsModel, SearchPlanModel, SearchSymbolsInput,
};
use crate::handlers::{argument, kind_named, language_named, SymbolResult, SymbolRow};
use crate::json::{jsons, render, JsonModel};
use crate::model::{Language, SymbolModel};
use crate::page::{
    lemma_cost_grows, lemma_kept_count, record_budget, trimmed_page, PageModel,
};
use crate::reply::ReplyModel;
use crate::sort::{
    lemma_filter_from, lemma_sorted_mapped, lemma_stable_sorted_in_order, stable_sorted, Sortable,
};
use crate::text::{at_or_under, contains, lowercase, size, text_le};
use vstd::prelude::*;

verus! {

/// The word for a language.
pub open spec fn language_word(language: Language) -> Seq<char> {
    match language {
        Language::Cpp => "cpp"@,
        Language::Rust => "rust"@,
        Language::Go => "go"@,
        Language::Python => "python"@,
        Language::CSharp => "csharp"@,
        Language::Java => "java"@,
    }
}

/// Whether a word is one for a language.
pub open spec fn is_language_word(w: Seq<char>) -> bool {
    exists|language: Language| w == #[trigger] language_word(language)
}

/// A language is parsed from the word for it, and from no other.
pub proof fn lemma_language_word(w: Seq<char>)
    ensures
        is_language_word(w) <==> language_named(w) is Some,
        forall|language: Language|
            language_named(w) == Some(language) <==> w == #[trigger] language_word(language),
        w.len() == 0 ==> !is_language_word(w),
{
    reveal_strlit("cpp");
    reveal_strlit("rust");
    reveal_strlit("go");
    reveal_strlit("python");
    reveal_strlit("csharp");
    reveal_strlit("java");
    assert("cpp"@[0] == 'c' && "cpp"@.len() == 3);
    assert("rust"@[0] == 'r');
    assert("go"@[0] == 'g');
    assert("python"@[0] == 'p');
    assert("csharp"@[0] == 'c' && "csharp"@.len() == 6);
    assert("java"@[0] == 'j');
    if language_named(w) is Some {
        assert(w == language_word(language_named(w)->0));
    }
}

/// Whether a text is made of ASCII letters, digits and underscores, and not
/// empty.
pub open spec fn is_plain_name(w: Seq<char>) -> bool {
    w.len() > 0 && forall|i: int|
        0 <= i < w.len() ==> {
            let c = #[trigger] w[i];
            'a' <= c <= 'z' || 'A' <= c <= 'Z' || '0' <= c <= '9' || c == '_'
        }
}

/// Whether a path is that of a directory or of what lies in it.
pub open spec fn lies_in(path: Seq<char>, dir: Seq<char>) -> bool {
    ||| path == dir
    ||| dir.len() < path.len() && path.take(dir.len() as int) == dir && (dir.last() == '/'
        || path[dir.len() as int] == '/')
}

/// How many edits a name may be away: as many as the request says, up to eight,
/// or else the more the longer the query is.
pub open spec fn edits_allowed(max_distance: Option<u32>, query: Seq<char>) -> int {
    match max_distance {
        Some(d) => if d <= 8 {
            d as int
        } else {
            8
        },
        None => if size(query) <= 1 {
            0
        } else if size(query) <= 11 {
            1
        } else if size(query) <= 17 {
            2
        } else {
            3
        },
    }
}

/// Whether a symbol passes the filters of a request: kind, language, namespace,
/// whatever the case of its letters, and directory, each where it is given.
pub open spec fn passes(input: SearchSymbolsInput, s: SymbolModel) -> bool {
    &&& word(input.kind).len() > 0 ==> kind_word(s.kind) == word(input.kind)
    &&& word(input.language).len() > 0 ==> language_word(s.language) == word(input.language)
    &&& word(input.namespace).len() > 0 ==> contains(
        lowercase(s.namespace),
        lowercase(word(input.namespace)),
    )
    &&& word(input.subtree).len() > 0 ==> lies_in(s.file, word(input.subtree))
}

/// The symbols that a search by edit distance is to find.
pub open spec fn near_ones(input: SearchSymbolsInput, symbols: Seq<SymbolModel>) -> Seq<
    SymbolModel,
> {
    symbols.filter(
        |s: SymbolModel|
            passes(input, s) && distance(word(input.query), s.name) <= edits_allowed(
                input.max_distance,
                word(input.query),
            ),
    )
}

/// Whether symbols are in the order of a search by edit distance: the nearest
/// first, and by name where they are as near.
pub open spec fn nearest_first(found: Seq<SymbolModel>, query: Seq<char>) -> bool {
    forall|i: int, j: int|
        0 <= i < j < found.len() ==> {
            let a = distance(query, (#[trigger] found[i]).name);
            let b = distance(query, (#[trigger] found[j]).name);
            a < b || (a == b && text_le(found[i].name, found[j].name))
        }
}

/// Whether symbols are others in the order of a search by edit distance, each
/// once.
pub open spec fn lists_nearest(
    found: Seq<SymbolModel>,
    wanted: Seq<SymbolModel>,
    query: Seq<char>,
) -> bool {
    found.len() == wanted.len() && found.to_multiset() == wanted.to_multiset() && nearest_first(
        found,
        query,
    )
}

/// A search by edit distance finds a symbol exactly where it has the kind, the
/// language, the namespace and the directory asked for, each where one is asked
/// for, and its name is near enough; and the nearest come first.
pub proof fn lemma_nearest_meet_filters(p: NearParamsModel, symbols: Seq<SymbolModel>)
    ensures
        forall|i: int|
            0 <= i < nearest(p, symbols).len() ==> {
                let s = #[trigger] nearest(p, symbols)[i];
                &&& symbols.contains(s)
                &&& p.kind is Some ==> s.kind == p.kind->0
                &&& p.language is Some ==> s.language == p.language->0
                &&& p.namespace.len() > 0 ==> contains(
                    lowercase(s.namespace),
                    lowercase(p.namespace),
                )
                &&& p.subtree is Some && p.subtree->0.len() > 0 ==> lies_in(s.file, p.subtree->0)
                &&& distance(p.query, s.name) <= p.max_distance
            },
        forall|k: int|
            0 <= k < symbols.len() && {
                let s = #[trigger] symbols[k];
                &&& p.kind is Some ==> s.kind == p.kind->0
                &&& p.language is Some ==> s.language == p.language->0
                &&& p.namespace.len() > 0 ==> contains(
                    lowercase(s.namespace),
                    lowercase(p.namespace),
                )
                &&& p.subtree is Some && p.subtree->0.len() > 0 ==> lies_in(s.file, p.subtree->0)
                &&& distance(p.query, s.name) <= p.max_distance
            } ==> nearest(p, symbols).contains(symbols[k]),
        nearest_first(nearest(p, symbols), p.query),
{
    broadcast use vstd::seq_lib::group_to_multiset_ensures;
    broadcast use vstd::seq_lib::group_filter_ensures;

    let pass = |s: SymbolModel| is_near(p, s);
    let kept = symbols.filter(pass);
    let found = nearest(p, symbols);
    lemma_nearest_are_near(p, symbols);
    assert forall|i: int| 0 <= i < found.len() implies kept.contains(#[trigger] found[i]) by {
        assert(found.to_multiset().count(found[i]) > 0);
    }
    assert forall|i: int| 0 <= i < found.len() implies {
        let s = #[trigger] found[i];
        symbols.contains(s) && is_near(p, s)
    } by {
        let k = choose|k: int| 0 <= k < kept.len() && kept[k] == found[i];
        lemma_filter_from(symbols, pass, k);
    }
    assert forall|f: Seq<char>, d: Seq<char>|
        d.len() > 0 implies #[trigger] at_or_under(f, d) == lies_in(f, d) by {
        lemma_lies_in(f, d);
    }
    assert forall|k: int| 0 <= k < symbols.len() && is_near(p, #[trigger] symbols[k]) implies
        found.contains(symbols[k]) by {
        assert(pass(symbols[k]));
        assert(kept.contains(symbols[k]));
        assert(kept.to_multiset().count(symbols[k]) > 0);
        assert(found.to_multiset().count(symbols[k]) > 0);
    }
}

/// A search by edit distance finds those that are near, each once, in order.
proof fn lemma_nearest_are_near(p: NearParamsModel, symbols: Seq<SymbolModel>)
    ensures
        lists_nearest(
            nearest(p, symbols),
            symbols.filter(|s: SymbolModel| is_near(p, s)),
            p.query,
        ),
        nearest(p, symbols).len() <= symbols.len(),
{
    broadcast use vstd::seq_lib::group_to_multiset_ensures;

    let pass = |s: SymbolModel| is_near(p, s);
    let kept = symbols.filter(pass);
    let hits = near_hits(p, symbols);
    let sorted = stable_sorted::<NearHit>(hits);
    let symbol = |h: NearHitModel| h.symbol;
    lemma_sorted_mapped::<NearHit, SymbolModel>(hits, symbol);
    lemma_stable_sorted_in_order::<NearHit>(hits);
    assert(hit_symbols(hits) =~= kept);
    assert(hit_symbols(sorted) == sorted.map_values(symbol));
    symbols.lemma_filter_len(pass);
    assert forall|i: int| 0 <= i < sorted.len() implies (#[trigger] sorted[i]).distance == distance(
        p.query,
        sorted[i].symbol.name,
    ) by {
        assert(sorted.to_multiset().count(sorted[i]) > 0);
        assert(hits.contains(sorted[i]));
        let k = choose|k: int| 0 <= k < hits.len() && hits[k] == sorted[i];
        assert(hits[k].distance == distance(p.query, hits[k].symbol.name));
    }
    let found = nearest(p, symbols);
    assert forall|i: int, j: int| 0 <= i < j < found.len() implies {
        let a = distance(p.query, (#[trigger] found[i]).name);
        let b = distance(p.query, (#[trigger] found[j]).name);
        a < b || (a == b && text_le(found[i].name, found[j].name))
    } by {
        assert(found[i] == sorted[i].symbol && found[j] == sorted[j].symbol);
        assert(NearHit::at_most(sorted[i], sorted[j]));
    }
}

/// A path is at or under a directory where it lies in it.
pub proof fn lemma_lies_in(path: Seq<char>, dir: Seq<char>)
    requires
        dir.len() > 0,
    ensures
        at_or_under(path, dir) == lies_in(path, dir),
{
    if dir.len() <= path.len() {
        assert(path.take(dir.len() as int) =~= path.subrange(0, dir.len() as int));
    }
    if dir.len() == path.len() {
        assert(path.take(dir.len() as int) =~= path);
    }
}

/// Whether a request to search can be met: it gives a filter, its words for kind
/// and language are known, it does not count in near mode, and its query is a
/// plain name in near mode.
pub open spec fn can_be_searched(input: SearchSymbolsInput) -> bool {
    let kind = word(input.kind);
    let language = word(input.language);
    &&& word(input.query).len() > 0 || kind.len() > 0 || word(input.namespace).len() > 0
        || language.len() > 0
    &&& kind.len() == 0 || is_kind_word(kind)
    &&& language.len() == 0 || is_language_word(language)
    &&& !(input.count_only && input.near)
    &&& input.near ==> is_plain_name(word(input.query))
}

/// Whether what the graph is asked for is what a request says, but for how many
/// matches from where on.
pub open spec fn asks_for(p: SearchParamsModel, input: SearchSymbolsInput) -> bool {
    &&& p.pattern == word(input.query)
    &&& word(input.kind).len() == 0 ==> p.kind is None
    &&& word(input.kind).len() > 0 ==> p.kind is Some && kind_word(p.kind->0) == word(input.kind)
    &&& word(input.language).len() == 0 ==> p.language is None
    &&& word(input.language).len() > 0 ==> p.language is Some && language_word(p.language->0)
        == word(input.language)
    &&& p.namespace == word(input.namespace)
    &&& word(input.subtree).len() == 0 ==> p.subtree is None
    &&& word(input.subtree).len() > 0 ==> p.subtree == Some(word(input.subtree))
    &&& p.count_only == input.count_only
}

/// The graph is asked for what the request says: to count the matches of all its
/// filters, or to list them from its offset on, up to its limit, or twenty.
pub proof fn lemma_search_as_asked(input: SearchSymbolsInput)
    ensures
        ({
            let plan = search_plan(input);
            &&& plan is Ok <==> can_be_searched(input)
            &&& plan is Ok ==> (plan->Ok_0 is Near <==> input.near)
            &&& plan is Ok ==> (plan->Ok_0 is Count <==> input.count_only)
            &&& plan is Ok && input.count_only ==> asks_for(plan->Ok_0->Count_0, input)
                && plan->Ok_0->Count_0.limit == 0 && plan->Ok_0->Count_0.offset == 0
            &&& plan is Ok && !input.near && !input.count_only ==> asks_for(
                plan->Ok_0->Find_0,
                input,
            ) && plan->Ok_0->Find_0.limit == how_many(input.limit, 20)
                && plan->Ok_0->Find_0.offset == start(input.offset)
        }),
{
    lemma_search_words(input);
}

proof fn lemma_search_words(input: SearchSymbolsInput)
    ensures
        is_kind_word(word(input.kind)) <==> kind_named(word(input.kind)) is Some,
        kind_named(word(input.kind)) is Some ==> kind_word(
            kind_named(word(input.kind))->0,
        ) == word(input.kind),
        language_named(word(input.language)) is Some ==> language_word(
            language_named(word(input.language))->0,
        ) == word(input.language),
        is_language_word(word(input.language)) <==> language_named(word(input.language)) is Some,
        word(input.kind).len() == 0 ==> kind_named(word(input.kind)) is None,
        word(input.language).len() == 0 ==> language_named(word(input.language)) is None,
        is_plain_name(word(input.query)) == plain_identifier(word(input.query)),
        word(input.query) == argument(input.query),
        word(input.kind) == argument(input.kind),
        word(input.language) == argument(input.language),
        word(input.namespace) == argument(input.namespace),
        word(input.subtree) == argument(input.subtree),
{
    lemma_kind_word(word(input.kind));
    lemma_language_word(word(input.language));
    lemma_plain_name(word(input.query));
}

proof fn lemma_plain_name(w: Seq<char>)
    ensures
        is_plain_name(w) == plain_identifier(w),
{
    if is_plain_name(w) {
        assert forall|i: int| 0 <= i < w.len() implies
            is_identifier_char(#[trigger] w[i]) by {}
    }
    if plain_identifier(w) {
        assert forall|i: int| 0 <= i < w.len() implies {
            let c = #[trigger] w[i];
            'a' <= c <= 'z' || 'A' <= c <= 'Z' || '0' <= c <= '9' || c == '_'
        } by {
            assert(is_identifier_char(w[i]));
        }
    }
}

/// A request that cannot be met is refused, and no other.
pub proof fn lemma_search_refused(
    input: SearchSymbolsInput,
    symbols: Seq<SymbolModel>,
    total: u32,
    related: Seq<SymbolModel>,
    all_symbols: Seq<SymbolModel>,
    max_bytes: usize,
)
    ensures
        search_reply(input, symbols, total, related, all_symbols, max_bytes).is_error
            <==> !can_be_searched(input),
{
    lemma_search_as_asked(input);
}

/// A request to count is answered with the number of matches alone.
pub proof fn lemma_count_answered(
    input: SearchSymbolsInput,
    symbols: Seq<SymbolModel>,
    total: u32,
    related: Seq<SymbolModel>,
    all_symbols: Seq<SymbolModel>,
    max_bytes: usize,
)
    requires
        can_be_searched(input),
        input.count_only,
    ensures
        shows_number(
            search_reply(input, symbols, total, related, all_symbols, max_bytes),
            total as nat,
        ),
{
    lemma_search_as_asked(input);
    lemma_reply_shows_number(total);
}

/// A search by edit distance is answered with the page, from the offset asked
/// for, of all symbols that pass every filter of the request and are near enough,
/// and of no others, the nearest first and by name where they are as near.
pub proof fn lemma_near_answered(
    input: SearchSymbolsInput,
    symbols: Seq<SymbolModel>,
    total: u32,
    related: Seq<SymbolModel>,
    all_symbols: Seq<SymbolModel>,
    max_bytes: usize,
)
    requires
        can_be_searched(input),
        input.near,
        all_symbols.len() <= u32::MAX,
    ensures
        exists|found: Seq<SymbolModel>|
            #[trigger] lists_nearest(found, near_ones(input, all_symbols), word(input.query))
                && shows_page::<SymbolResult>(
                search_reply(input, symbols, total, related, all_symbols, max_bytes),
                records(found, input.brief),
                start(input.offset),
                how_many(input.limit, 20),
                max_bytes,
            ),
{
    lemma_search_as_asked(input);
    lemma_search_words(input);
    let p = search_plan(input)->Ok_0->Near_0;
    let found = nearest(p, all_symbols);
    lemma_nearest_are_near(p, all_symbols);
    let pass = |s: SymbolModel| is_near(p, s);
    let want = |s: SymbolModel|
        passes(input, s) && distance(word(input.query), s.name) <= edits_allowed(
            input.max_distance,
            word(input.query),
        );
    assert forall|i: int| 0 <= i < all_symbols.len() implies pass(#[trigger] all_symbols[i])
        == want(all_symbols[i]) by {
        lemma_passes(input, p, all_symbols[i]);
    }
    lemma_same_filter(all_symbols, pass, want);
    lemma_records(found, input.brief);
    lemma_reply_shows_page::<SymbolResult>(
        records(found, input.brief),
        start(input.offset) as u32,
        how_many(input.limit, 20) as u32,
        max_bytes,
    );
    assert(p.query == word(input.query));
    assert(p.offset == start(input.offset) && p.limit == how_many(input.limit, 20));
    assert(near_ones(input, all_symbols) == all_symbols.filter(want));
    assert(lists_nearest(found, near_ones(input, all_symbols), word(input.query)));
}

proof fn lemma_passes(input: SearchSymbolsInput, p: NearParamsModel, s: SymbolModel)
    requires
        search_plan(input) == Ok::<SearchPlanModel, Seq<char>>(SearchPlanModel::Near(p)),
    ensures
        is_near(p, s) <==> passes(input, s) && distance(word(input.query), s.name)
            <= edits_allowed(input.max_distance, word(input.query)),
{
    lemma_search_words(input);
    lemma_kind_word(kind_word(s.kind));
    lemma_language_word(language_word(s.language));
    if word(input.subtree).len() > 0 {
        lemma_lies_in(s.file, word(input.subtree));
    }
}

/// Whether a search that found `total` matches asked for one exact name and
/// found nothing.
pub open spec fn may_be_misspelt(query: Seq<char>, total: u32) -> bool {
    total == 0 && query.len() >= 3 && query[0] == '^' && query.last() == '$'
}

/// The symbols that a name may be a misspelling of.
pub open spec fn near_misses(name: Seq<char>, symbols: Seq<SymbolModel>) -> Seq<SymbolModel> {
    symbols.filter(|s: SymbolModel| distance(name, s.name) <= edits_allowed(None, name))
}

/// Whether ids are the suggestions for a search: none unless it asked for one
/// exact name and found nothing; then the first five related symbols, or where
/// there are none the five whose names come nearest.
pub open spec fn are_suggestions(
    hints: Seq<Seq<char>>,
    query: Seq<char>,
    total: u32,
    related: Seq<SymbolModel>,
    all_symbols: Seq<SymbolModel>,
) -> bool {
    let name = query.subrange(1, query.len() - 1);
    if !may_be_misspelt(query, total) {
        hints.len() == 0
    } else if related.len() > 0 {
        hints == five_ids(related)
    } else if !is_plain_name(name) {
        hints.len() == 0
    } else {
        exists|found: Seq<SymbolModel>|
            #[trigger] lists_nearest(found, near_misses(name, all_symbols), name) && hints
                == five_ids(found)
    }
}

/// Whether an answer shows matches and suggestions.
pub open spec fn shows_matches(
    r: ReplyModel,
    rows: Seq<SymbolRow>,
    hints: Seq<Seq<char>>,
    total: u32,
    offset: int,
    limit: int,
    max_bytes: usize,
) -> bool {
    exists|page: PageModel<SymbolRow>|
        #![trigger page_object::<SymbolResult>(page)]
        !r.is_error && r.text == render(
            JsonModel::Object(
                page_object::<SymbolResult>(page)->Object_0 + if hints.len() == 0 {
                    seq![]
                } else {
                    seq![
                        (
                            "suggestions"@,
                            JsonModel::Array(
                                hints.map_values(|id: Seq<char>| JsonModel::Text(id)),
                            ),
                        ),
                    ]
                },
            ),
        ) && page.total == total && page.offset == offset && page.limit == limit
            && page.results.len() <= rows.len() && page.results == rows.take(
            page.results.len() as int,
        ) && (page.truncated <==> page.results.len() < rows.len()) && page.next_offset == (
        if page.truncated {
            Some((offset + page.results.len()) as u32)
        } else {
            None
        }) && is_cut_for_size::<SymbolResult>(page, rows, 0, max_bytes)
}

/// A search by pattern is answered with the matches that the graph found, in
/// their order, with the number of all, the offset and the limit of the request,
/// and with suggestions where a name may be misspelt.
pub proof fn lemma_matches_answered(
    input: SearchSymbolsInput,
    symbols: Seq<SymbolModel>,
    total: u32,
    related: Seq<SymbolModel>,
    all_symbols: Seq<SymbolModel>,
    max_bytes: usize,
)
    requires
        can_be_searched(input),
        !input.near,
        !input.count_only,
        start(input.offset) + symbols.len() <= u32::MAX,
    ensures
        exists|hints: Seq<Seq<char>>|
            #[trigger] are_suggestions(hints, word(input.query), total, related, all_symbols)
                && shows_matches(
                search_reply(input, symbols, total, related, all_symbols, max_bytes),
                records(symbols, input.brief),
                hints,
                total,
                start(input.offset),
                how_many(input.limit, 20),
                max_bytes,
            ),
{
    lemma_search_as_asked(input);
    lemma_search_words(input);
    lemma_records(symbols, input.brief);
    let r = search_reply(input, symbols, total, related, all_symbols, max_bytes);
    let query = word(input.query);
    let hints = suggested(query, total, related, all_symbols);
    lemma_suggestions(query, total, related, all_symbols);
    let rows = records(symbols, input.brief);
    let o = start(input.offset) as u32;
    let n = how_many(input.limit, 20) as u32;
    let page = trimmed_page::<SymbolResult>(rows, total, o, n, max_bytes);
    lemma_trimmed_page(rows, total, o, n, max_bytes);
    lemma_page_object::<SymbolResult>(page);
    let tail = if hints.len() == 0 {
        seq![]
    } else {
        seq![
            (
                "suggestions"@,
                JsonModel::Array(hints.map_values(|id: Seq<char>| JsonModel::Text(id))),
            ),
        ]
    };
    let members = page_object::<SymbolResult>(page)->Object_0;
    if hints.len() == 0 {
        assert(members + tail =~= members);
    } else {
        assert(text_array(hints) =~= hints.map_values(
            |id: Seq<char>| JsonModel::Text(id),
        ));
        assert(members + tail =~= members.push(tail[0]));
    }
    assert(shows_matches(r, rows, hints, total, o as int, n as int, max_bytes));
}

proof fn lemma_trimmed_page(
    rows: Seq<SymbolRow>,
    total: u32,
    offset: u32,
    limit: u32,
    max_bytes: usize,
)
    requires
        rows.len() <= u32::MAX,
    ensures
        ({
            let page = trimmed_page::<SymbolResult>(rows, total, offset, limit, max_bytes);
            &&& page.results.len() <= rows.len()
            &&& page.results == rows.take(page.results.len() as int)
            &&& page.truncated <==> page.results.len() < rows.len()
            &&& offset + rows.len() <= u32::MAX && page.truncated ==> page.next_offset == Some(
                (offset + page.results.len()) as u32,
            )
            &&& !page.truncated ==> page.next_offset is None
            &&& is_cut_for_size::<SymbolResult>(page, rows, 0, max_bytes)
        }),
{
    let page = trimmed_page::<SymbolResult>(rows, total, offset, limit, max_bytes);
    let budget = record_budget(max_bytes as nat);
    let js = jsons::<SymbolResult>(rows);
    lemma_kept_count(js, rows.len(), budget);
    let shown = jsons::<SymbolResult>(page.results);
    let k = page.results.len() as int;
    assert(shown =~= js.take(k));
    assert(page.results =~= rows.take(k));
    lemma_taken(shown);
    lemma_taken(js);
    if page.truncated {
        let more = jsons::<SymbolResult>(rows.subrange(0, 0 + k + 1));
        assert(more =~= js.take(k + 1));
        lemma_taken(more);
        lemma_cost_grows(js, (k + 1) as nat);
    }
}

proof fn lemma_suggestions(
    query: Seq<char>,
    total: u32,
    related: Seq<SymbolModel>,
    all_symbols: Seq<SymbolModel>,
)
    ensures
        are_suggestions(
            suggested(query, total, related, all_symbols),
            query,
            total,
            related,
            all_symbols,
        ),
{
    if may_be_misspelt(query, total) {
        let name = query.subrange(1, query.len() - 1);
        lemma_five_ids(related);
        lemma_plain_name(name);
        if related.len() == 0 && is_plain_name(name) {
            let p = near_miss(name);
            let found = nearest(p, all_symbols);
            lemma_nearest_are_near(p, all_symbols);
            lemma_five_ids(found);
            let pass = |s: SymbolModel| is_near(p, s);
            let want = |s: SymbolModel| distance(name, s.name) <= edits_allowed(None, name);
            assert forall|i: int| 0 <= i < all_symbols.len() implies pass(#[trigger] all_symbols[i])
                == want(all_symbols[i]) by {}
            lemma_same_filter(all_symbols, pass, want);
            assert(near_misses(name, all_symbols) == all_symbols.filter(want));
            assert(lists_nearest(found, near_misses(name, all_symbols), name));
        }
    }
}

} // verus!
