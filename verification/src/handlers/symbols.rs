//! Tools on symbols: listing a file, searching, details and a summary.

use super::{
    argument, argument_or_empty, first, first_ids, given, given_argument, ids_of, kind_name,
    kind_named, kind_str, language_named, lemma_kind_names, not_found, parse_kind, parse_language,
    symbol_hint, symbol_not_found, symbol_results, symbol_row, symbol_rows, symbol_to_result,
    SymbolResult, SymbolRow,
};
use crate::edit_distance::{distance, max_distance_for_query, near_miss_edits, within_distance};
use crate::json::{
    array_of, jsons, member_models, no_members, number, object, opt_view, put, render, text, Json,
    JsonModel, ToJson,
};
use crate::model::{id_of, symbol_id, Language, Symbol, SymbolKind, SymbolModel};
use crate::page::{
    all_pages, cost, count_reply, lemma_all_pages_cover, page_of, page_reply, record_budget,
    reply_with_count, reply_with_page, resolve_limit, resolve_offset, resolved_limit,
    resolved_offset, trim_page, trimmed_page, Page, PageModel, MAX_PAGE_LIMIT,
};
use crate::reply::{failure, success, tool_error, tool_success_json, ReplyModel, ToolReply};
use crate::sort::{
    distinct_by, inserted, lemma_filter_all, lemma_filter_ends, lemma_filter_from,
    lemma_filter_next, lemma_stable_sorted_distinct, lemma_stable_sorted_in_order, sort,
    stable_sorted, views, Sortable,
};
use crate::text::{
    at_or_under, byte_size, chars_of, contains, debug_text, glue2, has_part, is_at_or_under,
    lemma_text_le_total, lemma_text_le_transitive, lowercase, lowercased, owned, same_text, size,
    text_at_most, text_le, texts,
};
use vstd::prelude::*;

verus! {

// ----- symbols of a file -----

/// Whether a symbol stands at the top level of its file.
pub open spec fn is_top_level(s: SymbolModel) -> bool {
    s.parent.len() == 0
}

/// The symbols that a listing shows.
pub open spec fn listed(symbols: Seq<SymbolModel>, top_level_only: bool) -> Seq<SymbolModel> {
    symbols.filter(|s: SymbolModel| !top_level_only || is_top_level(s))
}

/// The answer to a request for the symbols of a file, where `symbols` are those
/// that the graph has of it.
pub open spec fn file_symbols_reply(
    symbols: Seq<SymbolModel>,
    file: Seq<char>,
    top_level_only: bool,
    brief: bool,
    limit: Option<u32>,
    offset: Option<u32>,
    count_only: bool,
    max_bytes: usize,
) -> ReplyModel {
    if file.len() == 0 {
        failure("'file' is required"@)
    } else if symbols.len() == 0 {
        failure("no symbols found in file: "@ + file)
    } else if count_only {
        count_reply(listed(symbols, top_level_only).len() as u32)
    } else {
        page_reply::<SymbolResult>(
            stable_sorted::<SymbolResult>(symbol_rows(listed(symbols, top_level_only), brief)),
            resolved_offset(offset),
            resolved_limit(limit, 100, MAX_PAGE_LIMIT),
            max_bytes,
        )
    }
}

/// The records of the symbols that a listing shows.
fn listed_results(symbols: &Vec<Symbol>, top_level_only: bool, brief: bool) -> (r: Vec<SymbolResult>)
    ensures
        views(r@) == symbol_rows(listed(views(symbols@), top_level_only), brief),
{
    let mut out: Vec<SymbolResult> = Vec::new();
    let ghost all = views(symbols@);
    let ghost pass = |s: SymbolModel| !top_level_only || is_top_level(s);
    proof {
        lemma_filter_ends(all, pass);
    }
    assert(views(out@) =~= symbol_rows(all.take(0).filter(pass), brief));
    let mut i: usize = 0;
    while i < symbols.len()
        invariant
            i <= symbols@.len(),
            all == views(symbols@),
            pass == (|s: SymbolModel| !top_level_only || is_top_level(s)),
            views(out@) == symbol_rows(all.take(i as int).filter(pass), brief),
        decreases symbols@.len() - i,
    {
        proof {
            lemma_filter_next(all, pass, i as int);
        }
        let ghost before = out@;
        if !top_level_only || symbols[i].parent.as_str().is_empty() {
            out.push(symbol_to_result(&symbols[i], brief));
            assert(views(out@) =~= views(before).push(symbol_row(all[i as int], brief)));
            assert(symbol_rows(all.take(i as int + 1).filter(pass), brief) =~= symbol_rows(
                all.take(i as int).filter(pass),
                brief,
            ).push(symbol_row(all[i as int], brief)));
        }
        i = i + 1;
    }
    proof {
        lemma_filter_ends(all, pass);
    }
    out
}

/// Answers a request for the symbols of a file, where `symbols` are those that
/// the graph has of it.
///
/// A file without symbols is reported as an error, so that a misspelt name is
/// told apart from a filter that leaves nothing.
pub fn get_file_symbols(
    symbols: &Vec<Symbol>,
    file: &str,
    top_level_only: bool,
    brief: bool,
    limit: Option<u32>,
    offset: Option<u32>,
    count_only: bool,
    max_bytes: usize,
) -> (r: ToolReply)
    ensures
        r@ == file_symbols_reply(
            views(symbols@),
            file@,
            top_level_only,
            brief,
            limit,
            offset,
            count_only,
            max_bytes,
        ),
{
    if file.is_empty() {
        return tool_error("'file' is required");
    }
    if symbols.is_empty() {
        let msg = glue2("no symbols found in file: ", file);
        return tool_error(msg.as_str());
    }
    let results = listed_results(symbols, top_level_only, brief);
    if count_only {
        assert(views(results@).len() == listed(views(symbols@), top_level_only).len());
        let total: u32 = #[verifier::truncate] (results.len() as u32);
        return reply_with_count(total);
    }
    let sorted = sort(results);
    reply_with_page(
        sorted,
        resolve_offset(offset),
        resolve_limit(limit, 100, MAX_PAGE_LIMIT),
        max_bytes,
    )
}

// ----- search -----

/// What to search for.
#[derive(Debug, Default)]
pub struct SearchSymbolsInput<'a> {
    /// A pattern for the name.
    pub query: Option<&'a str>,
    /// The name of a symbol kind.
    pub kind: Option<&'a str>,
    /// A part of the namespace.
    pub namespace: Option<&'a str>,
    /// The name of a language.
    pub language: Option<&'a str>,
    /// A directory that the file is in. The whole graph where it is absent or
    /// empty.
    pub subtree: Option<&'a str>,
    /// How many records at most: 20 where it is absent or zero.
    pub limit: Option<u32>,
    /// How many records to pass over.
    pub offset: Option<u32>,
    /// Whether records leave out column, end line and signature.
    pub brief: bool,
    /// Whether only the number of matches is asked for. Not together with
    /// `near`.
    pub count_only: bool,
    /// Whether to search by edit distance. The query is a plain identifier
    /// then.
    pub near: bool,
    /// How many edits away a name may be in a search by edit distance, up to
    /// eight. Depends on the length of the query where it is absent.
    pub max_distance: Option<u32>,
}

/// What the graph is asked for in a search by pattern.
pub struct SearchParams {
    pub pattern: String,
    pub kind: Option<SymbolKind>,
    pub namespace: String,
    pub language: Option<Language>,
    pub limit: u32,
    pub offset: u32,
    pub count_only: bool,
    pub subtree: Option<String>,
}

/// What [`SearchParams`] stand for.
pub struct SearchParamsModel {
    pub pattern: Seq<char>,
    pub kind: Option<SymbolKind>,
    pub namespace: Seq<char>,
    pub language: Option<Language>,
    pub limit: u32,
    pub offset: u32,
    pub count_only: bool,
    pub subtree: Option<Seq<char>>,
}

impl View for SearchParams {
    type V = SearchParamsModel;

    open spec fn view(&self) -> SearchParamsModel {
        SearchParamsModel {
            pattern: self.pattern@,
            kind: self.kind,
            namespace: self.namespace@,
            language: self.language,
            limit: self.limit,
            offset: self.offset,
            count_only: self.count_only,
            subtree: opt_view(self.subtree),
        }
    }
}

/// What the graph's symbols are compared with in a search by edit distance.
pub struct NearParams {
    pub query: String,
    pub max_distance: usize,
    pub kind: Option<SymbolKind>,
    pub language: Option<Language>,
    pub namespace: String,
    pub subtree: Option<String>,
    pub limit: u32,
    pub offset: u32,
}

/// What [`NearParams`] stand for.
pub struct NearParamsModel {
    pub query: Seq<char>,
    pub max_distance: nat,
    pub kind: Option<SymbolKind>,
    pub language: Option<Language>,
    pub namespace: Seq<char>,
    pub subtree: Option<Seq<char>>,
    pub limit: u32,
    pub offset: u32,
}

impl View for NearParams {
    type V = NearParamsModel;

    open spec fn view(&self) -> NearParamsModel {
        NearParamsModel {
            query: self.query@,
            max_distance: self.max_distance as nat,
            kind: self.kind,
            language: self.language,
            namespace: self.namespace@,
            subtree: opt_view(self.subtree),
            limit: self.limit,
            offset: self.offset,
        }
    }
}

/// How a search goes about.
pub enum SearchPlan {
    /// Count the matches of a pattern.
    Count(SearchParams),
    /// Compare all symbols with the query.
    Near(NearParams),
    /// List the matches of a pattern.
    Find(SearchParams),
}

/// What a [`SearchPlan`] stands for.
pub enum SearchPlanModel {
    Count(SearchParamsModel),
    Near(NearParamsModel),
    Find(SearchParamsModel),
}

impl View for SearchPlan {
    type V = SearchPlanModel;

    open spec fn view(&self) -> SearchPlanModel {
        match self {
            SearchPlan::Count(p) => SearchPlanModel::Count(p@),
            SearchPlan::Near(p) => SearchPlanModel::Near(p@),
            SearchPlan::Find(p) => SearchPlanModel::Find(p@),
        }
    }
}

/// Whether a character may stand in a plain identifier.
pub open spec fn is_identifier_char(c: char) -> bool {
    'a' <= c <= 'z' || 'A' <= c <= 'Z' || '0' <= c <= '9' || c == '_'
}

/// Whether a text is a plain identifier: ASCII letters, digits and underscores,
/// and at least one of them.
pub open spec fn plain_identifier(s: Seq<char>) -> bool {
    s.len() > 0 && forall|i: int| 0 <= i < s.len() ==> is_identifier_char(#[trigger] s[i])
}

/// Whether a text is a plain identifier.
pub fn is_plain_identifier(s: &str) -> (r: bool)
    ensures
        r == plain_identifier(s@),
{
    let v = chars_of(s);
    let mut i: usize = 0;
    while i < v.len()
        invariant
            v@ == s@,
            i <= v@.len(),
            forall|k: int| 0 <= k < i ==> is_identifier_char(#[trigger] s@[k]),
        decreases v@.len() - i,
    {
        let c = v[i];
        let ok = ('a' <= c && c <= 'z') || ('A' <= c && c <= 'Z') || ('0' <= c && c <= '9') || c == '_';
        if !ok {
            assert(!is_identifier_char(s@[i as int]));
            return false;
        }
        i = i + 1;
    }
    v.len() > 0
}

/// How many edits away a name may be.
pub open spec fn allowed_distance(max_distance: Option<u32>, query: Seq<char>) -> nat {
    match max_distance {
        Some(d) => if d < 8 {
            d as nat
        } else {
            8
        },
        None => near_miss_edits(size(query)),
    }
}

/// How a search goes about, or why it is refused.
///
/// At least one filter is needed, kinds and languages must be known, and a
/// search by edit distance needs a plain identifier. The matches of a search by
/// edit distance are not to be had as a number alone, since finding them takes
/// the whole search.
pub open spec fn search_plan(input: SearchSymbolsInput) -> Result<SearchPlanModel, Seq<char>> {
    let query = argument(input.query);
    let kind = argument(input.kind);
    let namespace = argument(input.namespace);
    let language = argument(input.language);
    let limit = resolved_limit(input.limit, 20, MAX_PAGE_LIMIT);
    let offset = resolved_offset(input.offset);
    if query.len() == 0 && kind.len() == 0 && namespace.len() == 0 && language.len() == 0 {
        Err("'query', 'kind', 'namespace', or 'language' is required"@)
    } else if kind.len() > 0 && kind_named(kind) is None {
        Err("invalid kind: "@ + kind)
    } else if language.len() > 0 && language_named(language) is None {
        Err("invalid language: "@ + language)
    } else if input.count_only && input.near {
        Err("'count_only' and 'near' cannot be combined"@)
    } else if input.count_only {
        Ok(
            SearchPlanModel::Count(
                SearchParamsModel {
                    pattern: query,
                    kind: kind_named(kind),
                    namespace,
                    language: language_named(language),
                    limit: 0,
                    offset: 0,
                    count_only: true,
                    subtree: given(input.subtree),
                },
            ),
        )
    } else if input.near && query.len() == 0 {
        Err("near mode requires a non-empty 'query'"@)
    } else if input.near && !plain_identifier(query) {
        Err(
            "near mode requires a plain identifier query (no regex metacharacters); use the default mode if you need regex matching"@,
        )
    } else if input.near {
        Ok(
            SearchPlanModel::Near(
                NearParamsModel {
                    query,
                    max_distance: allowed_distance(input.max_distance, query),
                    kind: kind_named(kind),
                    language: language_named(language),
                    namespace,
                    subtree: given(input.subtree),
                    limit,
                    offset,
                },
            ),
        )
    } else {
        Ok(
            SearchPlanModel::Find(
                SearchParamsModel {
                    pattern: query,
                    kind: kind_named(kind),
                    namespace,
                    language: language_named(language),
                    limit,
                    offset,
                    count_only: false,
                    subtree: given(input.subtree),
                },
            ),
        )
    }
}

/// The empty text names no kind and no language.
proof fn lemma_empty_names_nothing()
    ensures
        kind_named(seq![]) is None,
        language_named(seq![]) is None,
{
    reveal_strlit("function");
    reveal_strlit("method");
    reveal_strlit("class");
    reveal_strlit("struct");
    reveal_strlit("enum");
    reveal_strlit("typedef");
    reveal_strlit("interface");
    reveal_strlit("trait");
    reveal_strlit("cpp");
    reveal_strlit("rust");
    reveal_strlit("go");
    reveal_strlit("python");
    reveal_strlit("csharp");
    reveal_strlit("java");
    assert("function"@.len() > 0);
    assert("method"@.len() > 0);
    assert("class"@.len() > 0);
    assert("struct"@.len() > 0);
    assert("enum"@.len() > 0);
    assert("typedef"@.len() > 0);
    assert("interface"@.len() > 0);
    assert("trait"@.len() > 0);
    assert("cpp"@.len() > 0);
    assert("rust"@.len() > 0);
    assert("go"@.len() > 0);
    assert("python"@.len() > 0);
    assert("csharp"@.len() > 0);
    assert("java"@.len() > 0);
}

/// How a search goes about, or the answer that refuses it.
pub fn plan_search(input: &SearchSymbolsInput) -> (r: Result<SearchPlan, ToolReply>)
    ensures
        match search_plan(*input) {
            Ok(plan) => r is Ok && r->Ok_0@ == plan,
            Err(msg) => r is Err && r->Err_0@ == failure(msg),
        },
{
    let query = argument_or_empty(input.query);
    let kind = argument_or_empty(input.kind);
    let namespace = argument_or_empty(input.namespace);
    let language = argument_or_empty(input.language);
    if query.is_empty() && kind.is_empty() && namespace.is_empty() && language.is_empty() {
        return Err(tool_error("'query', 'kind', 'namespace', or 'language' is required"));
    }
    proof {
        lemma_empty_names_nothing();
        assert(kind@.len() == 0 ==> kind@ =~= seq![]);
        assert(language@.len() == 0 ==> language@ =~= seq![]);
    }
    let parsed_kind = parse_kind(kind);
    if !kind.is_empty() && parsed_kind.is_none() {
        let msg = glue2("invalid kind: ", kind);
        return Err(tool_error(msg.as_str()));
    }
    let parsed_language = parse_language(language);
    if !language.is_empty() && parsed_language.is_none() {
        let msg = glue2("invalid language: ", language);
        return Err(tool_error(msg.as_str()));
    }
    if input.count_only && input.near {
        return Err(tool_error("'count_only' and 'near' cannot be combined"));
    }
    let limit: u32 = resolve_limit(input.limit, 20, MAX_PAGE_LIMIT);
    let offset: u32 = resolve_offset(input.offset);
    let subtree: Option<String> = match given_argument(input.subtree) {
        Some(d) => Some(owned(d)),
        None => None,
    };
    if input.count_only {
        return Ok(
            SearchPlan::Count(
                SearchParams {
                    pattern: owned(query),
                    kind: parsed_kind,
                    namespace: owned(namespace),
                    language: parsed_language,
                    limit: 0,
                    offset: 0,
                    count_only: true,
                    subtree,
                },
            ),
        );
    }
    if input.near {
        if query.is_empty() {
            return Err(tool_error("near mode requires a non-empty 'query'"));
        }
        if !is_plain_identifier(query) {
            return Err(
                tool_error(
                    "near mode requires a plain identifier query (no regex metacharacters); use the default mode if you need regex matching",
                ),
            );
        }
        let max_distance: usize = match input.max_distance {
            Some(d) => if d < 8 {
                d as usize
            } else {
                8
            },
            None => max_distance_for_query(byte_size(query)),
        };
        return Ok(
            SearchPlan::Near(
                NearParams {
                    query: owned(query),
                    max_distance,
                    kind: parsed_kind,
                    language: parsed_language,
                    namespace: owned(namespace),
                    subtree,
                    limit,
                    offset,
                },
            ),
        );
    }
    Ok(
        SearchPlan::Find(
            SearchParams {
                pattern: owned(query),
                kind: parsed_kind,
                namespace: owned(namespace),
                language: parsed_language,
                limit,
                offset,
                count_only: false,
                subtree,
            },
        ),
    )
}

// ----- search by edit distance -----

/// A symbol and how far its name is from what was looked for.
pub struct NearHit<'a> {
    pub distance: usize,
    pub symbol: &'a Symbol,
}

/// What a [`NearHit`] stands for.
pub struct NearHitModel {
    pub distance: nat,
    pub symbol: SymbolModel,
}

impl<'a> View for NearHit<'a> {
    type V = NearHitModel;

    open spec fn view(&self) -> NearHitModel {
        NearHitModel { distance: self.distance as nat, symbol: self.symbol@ }
    }
}

/// Hits are sorted by distance, and by name where the distance is the same.
impl<'a> Sortable for NearHit<'a> {
    open spec fn at_most(a: NearHitModel, b: NearHitModel) -> bool {
        a.distance < b.distance || (a.distance == b.distance && text_le(
            a.symbol.name,
            b.symbol.name,
        ))
    }

    proof fn lemma_total(a: NearHitModel, b: NearHitModel) {
        lemma_text_le_total(a.symbol.name, b.symbol.name);
    }

    proof fn lemma_transitive(a: NearHitModel, b: NearHitModel, c: NearHitModel) {
        if a.distance == b.distance && b.distance == c.distance {
            lemma_text_le_transitive(a.symbol.name, b.symbol.name, c.symbol.name);
        }
    }

    fn precedes(&self, other: &Self) -> (r: bool) {
        self.distance < other.distance || (self.distance == other.distance && text_at_most(
            self.symbol.name.as_str(),
            other.symbol.name.as_str(),
        ))
    }
}

/// Whether a namespace holds the one asked for; both are in lower case already.
/// Every namespace does where none is asked for.
pub fn namespace_admits(wanted: &str, own: &str) -> (r: bool)
    ensures
        r == (wanted@.len() == 0 || contains(own@, wanted@)),
{
    wanted.is_empty() || has_part(own, wanted)
}

/// Whether a symbol passes the filters of a search by edit distance and its
/// name is near enough.
pub open spec fn is_near(p: NearParamsModel, s: SymbolModel) -> bool {
    &&& p.kind is Some ==> s.kind == p.kind->0
    &&& p.language is Some ==> s.language == p.language->0
    &&& p.namespace.len() == 0 || contains(lowercase(s.namespace), lowercase(p.namespace))
    &&& p.subtree is Some && p.subtree->0.len() > 0 ==> at_or_under(s.file, p.subtree->0)
    &&& distance(p.query, s.name) <= p.max_distance
}

/// The symbols that a search by edit distance finds, each with its distance, in
/// the order of the graph.
pub open spec fn near_hits(p: NearParamsModel, symbols: Seq<SymbolModel>) -> Seq<NearHitModel> {
    symbols.filter(|s: SymbolModel| is_near(p, s)).map_values(
        |s: SymbolModel| NearHitModel { distance: distance(p.query, s.name), symbol: s },
    )
}

/// The symbols of hits.
pub open spec fn hit_symbols(hits: Seq<NearHitModel>) -> Seq<SymbolModel> {
    hits.map_values(|h: NearHitModel| h.symbol)
}

/// The symbols that a search by edit distance finds, the nearest first.
pub open spec fn nearest(p: NearParamsModel, symbols: Seq<SymbolModel>) -> Seq<SymbolModel> {
    hit_symbols(stable_sorted::<NearHit>(near_hits(p, symbols)))
}

/// The symbols that a search by edit distance finds, the nearest first.
fn find_nearest<'a>(p: &NearParams, symbols: &'a Vec<Symbol>) -> (r: Vec<NearHit<'a>>)
    ensures
        hit_symbols(views(r@)) == nearest(p@, views(symbols@)),
        r@.len() == nearest(p@, views(symbols@)).len(),
{
    let query = chars_of(p.query.as_str());
    let wanted = lowercased(p.namespace.as_str());
    let ghost all = views(symbols@);
    let ghost model = p@;
    let ghost pass = |s: SymbolModel| is_near(model, s);
    let ghost make = |s: SymbolModel|
        NearHitModel { distance: distance(model.query, s.name), symbol: s };
    let mut hits: Vec<NearHit<'a>> = Vec::new();
    proof {
        lemma_filter_ends(all, pass);
    }
    assert(views(hits@) =~= all.take(0).filter(pass).map_values(make));
    let mut i: usize = 0;
    while i < symbols.len()
        invariant
            i <= symbols@.len(),
            all == views(symbols@),
            model == p@,
            pass == (|s: SymbolModel| is_near(model, s)),
            make == (|s: SymbolModel|
                NearHitModel { distance: distance(model.query, s.name), symbol: s }),
            query@ == p.query@,
            wanted@ == lowercase(p.namespace@),
            wanted@.len() == 0 <==> p.namespace@.len() == 0,
            views(hits@) == all.take(i as int).filter(pass).map_values(make),
        decreases symbols@.len() - i,
    {
        let s = &symbols[i];
        proof {
            lemma_filter_next(all, pass, i as int);
            assert(all[i as int] == s@);
        }
        let kind_ok = match p.kind {
            Some(k) => s.kind == k,
            None => true,
        };
        let language_ok = match p.language {
            Some(l) => s.language == l,
            None => true,
        };
        let namespace_ok = if wanted.as_str().is_empty() {
            true
        } else {
            namespace_admits(wanted.as_str(), lowercased(s.namespace.as_str()).as_str())
        };
        let subtree_ok = match &p.subtree {
            Some(d) => d.as_str().is_empty() || is_at_or_under(s.file.as_str(), d.as_str()),
            None => true,
        };
        if kind_ok && language_ok && namespace_ok && subtree_ok {
            let name = chars_of(s.name.as_str());
            let ghost before = hits@;
            if let Some(d) = within_distance(query.as_slice(), name.as_slice(), p.max_distance) {
                assert(pass(s@));
                hits.push(NearHit { distance: d, symbol: s });
                assert(views(hits@) =~= views(before).push(make(s@)));
                assert(all.take(i as int + 1).filter(pass).map_values(make) =~= all.take(
                    i as int,
                ).filter(pass).map_values(make).push(make(s@)));
            }
        }
        i = i + 1;
    }
    proof {
        lemma_filter_ends(all, pass);
        assert(views(hits@) == near_hits(model, all));
    }
    sort(hits)
}

/// The answer to a search by edit distance among `symbols`.
pub open spec fn near_reply(
    p: NearParamsModel,
    symbols: Seq<SymbolModel>,
    brief: bool,
    max_bytes: usize,
) -> ReplyModel {
    page_reply::<SymbolResult>(
        symbol_rows(nearest(p, symbols), brief),
        p.offset,
        p.limit,
        max_bytes,
    )
}

/// Answers a search by edit distance among `symbols`, the nearest names first.
pub fn near_search(p: &NearParams, symbols: &Vec<Symbol>, brief: bool, max_bytes: usize) -> (r:
    ToolReply)
    requires
        p.limit > 0,
    ensures
        r@ == near_reply(p@, views(symbols@), brief, max_bytes),
{
    let hits = find_nearest(p, symbols);
    let mut rows: Vec<SymbolResult> = Vec::new();
    let mut i: usize = 0;
    while i < hits.len()
        invariant
            i <= hits@.len(),
            rows@.len() == i,
            forall|k: int| 0 <= k < i ==> #[trigger] rows@[k]@ == symbol_row(hits@[k].symbol@, brief),
        decreases hits@.len() - i,
    {
        rows.push(symbol_to_result(hits[i].symbol, brief));
        i = i + 1;
    }
    proof {
        let want = symbol_rows(nearest(p@, views(symbols@)), brief);
        assert forall|k: int| 0 <= k < rows@.len() implies rows@[k]@ == want[k] by {
            assert(hit_symbols(views(hits@))[k] == hits@[k].symbol@);
        }
        assert(views(rows@) =~= want);
    }
    reply_with_page(rows, p.offset, p.limit, max_bytes)
}

/// What a near miss of `name` is: any symbol within the number of edits that the
/// length of the name allows.
pub open spec fn near_miss(name: Seq<char>) -> NearParamsModel {
    NearParamsModel {
        query: name,
        max_distance: near_miss_edits(size(name)),
        kind: None,
        language: None,
        namespace: seq![],
        subtree: None,
        limit: 0,
        offset: 0,
    }
}

/// The ids of the `limit` symbols whose names come nearest to a name.
pub fn levenshtein_suggestions(symbols: &Vec<Symbol>, name: &str, limit: usize) -> (r: Vec<String>)
    ensures
        texts(r@) == ids_of(first(nearest(near_miss(name@), views(symbols@)), limit as nat)),
{
    let none = String::new();
    assert(none@ =~= seq![]);
    let p = NearParams {
        query: owned(name),
        max_distance: max_distance_for_query(byte_size(name)),
        kind: None,
        language: None,
        namespace: none,
        subtree: None,
        limit: 0,
        offset: 0,
    };
    assert(p@ == near_miss(name@));
    let hits = find_nearest(&p, symbols);
    let n: usize = if limit < hits.len() {
        limit
    } else {
        hits.len()
    };
    let mut out: Vec<String> = Vec::new();
    let mut i: usize = 0;
    while i < n
        invariant
            i <= n,
            n <= hits@.len(),
            out@.len() == i,
            forall|k: int| 0 <= k < i ==> #[trigger] out@[k]@ == id_of(hits@[k].symbol@),
        decreases n - i,
    {
        out.push(symbol_id(hits[i].symbol));
        i = i + 1;
    }
    proof {
        let want = ids_of(first(nearest(near_miss(name@), views(symbols@)), limit as nat));
        assert forall|k: int| 0 <= k < out@.len() implies out@[k]@ == want[k] by {
            assert(hit_symbols(views(hits@))[k] == hits@[k].symbol@);
        }
        assert(texts(out@) =~= want);
    }
    out
}

// ----- search by pattern -----

/// What the graph found in a search.
pub struct SearchAnswer {
    /// The matches at the offset and up to the limit that were asked for.
    pub symbols: Vec<Symbol>,
    /// The number of all matches.
    pub total: u32,
    /// The symbols whose names hold the text of [`suggestion_pattern`], where
    /// there is one.
    pub related: Vec<Symbol>,
    /// All symbols of the graph, for comparing names by edit distance.
    pub all_symbols: Vec<Symbol>,
}

/// A page of symbols, with suggestions where there are any.
pub struct SearchSymbolsResponse {
    pub page: Page<SymbolResult>,
    pub suggestions: Vec<String>,
}

/// What a [`SearchSymbolsResponse`] stands for.
pub struct SearchResponseModel {
    pub page: PageModel<SymbolRow>,
    pub suggestions: Seq<Seq<char>>,
}

impl View for SearchSymbolsResponse {
    type V = SearchResponseModel;

    open spec fn view(&self) -> SearchResponseModel {
        SearchResponseModel { page: self.page@, suggestions: texts(self.suggestions@) }
    }
}

/// The members of the page stand at the top level; suggestions follow them, and
/// are left out where there are none.
impl ToJson for SearchSymbolsResponse {
    open spec fn json_of(v: SearchResponseModel) -> JsonModel {
        let page = Page::<SymbolResult>::json_of(v.page)->Object_0;
        JsonModel::Object(
            if v.suggestions.len() == 0 {
                page
            } else {
                page.push(("suggestions"@, JsonModel::Array(text_array(v.suggestions))))
            },
        )
    }

    fn to_json(&self) -> (r: Json) {
        let mut m = self.page.members();
        if self.suggestions.len() > 0 {
            put(&mut m, "suggestions", array_of(&self.suggestions));
            assert(jsons::<String>(views(self.suggestions@)) =~= text_array(
                texts(self.suggestions@),
            ));
        }
        object(m)
    }
}

/// Texts as JSON.
pub open spec fn text_array(v: Seq<Seq<char>>) -> Seq<JsonModel> {
    v.map_values(|s: Seq<char>| JsonModel::Text(s))
}

/// Whether a query asks for one exact name: it begins with `^` and ends with
/// `$`.
pub open spec fn is_anchored(query: Seq<char>) -> bool {
    query.len() >= 2 && query[0] == '^' && query.last() == '$'
}

/// What stands between the anchors of a query.
pub open spec fn inner_pattern(query: Seq<char>) -> Seq<char> {
    query.subrange(1, query.len() - 1)
}

/// The text to look for suggestions with: what stands between the anchors of a
/// query for one exact name that found nothing.
pub open spec fn suggestion_text(query: Seq<char>, total: u32) -> Option<Seq<char>> {
    if total == 0 && is_anchored(query) && inner_pattern(query).len() > 0 {
        Some(inner_pattern(query))
    } else {
        None
    }
}

/// The text to look for suggestions with, if any.
///
/// Only a query for one exact name is taken for a misspelt one when it finds
/// nothing. For any other query, that there is nothing is the answer.
pub fn suggestion_pattern(query: &str, total: u32) -> (r: Option<String>)
    ensures
        opt_view(r) == suggestion_text(query@, total),
{
    if total != 0 {
        return None;
    }
    let v = chars_of(query);
    let n: usize = v.len();
    if n < 3 || v[0] != '^' || v[n - 1] != '$' {
        return None;
    }
    Some(owned(query.substring_char(1, n - 1)))
}

/// The ids that are suggested for a query: of the first five symbols related to
/// it, or else of the five that come nearest to it, where it is a plain
/// identifier.
pub open spec fn suggested(
    query: Seq<char>,
    total: u32,
    related: Seq<SymbolModel>,
    all_symbols: Seq<SymbolModel>,
) -> Seq<Seq<char>> {
    match suggestion_text(query, total) {
        None => seq![],
        Some(inner) => if related.len() > 0 {
            ids_of(first(related, 5))
        } else if plain_identifier(inner) {
            ids_of(first(nearest(near_miss(inner), all_symbols), 5))
        } else {
            seq![]
        },
    }
}

/// The answer to a search by pattern.
pub open spec fn find_reply(
    p: SearchParamsModel,
    symbols: Seq<SymbolModel>,
    total: u32,
    related: Seq<SymbolModel>,
    all_symbols: Seq<SymbolModel>,
    brief: bool,
    max_bytes: usize,
) -> ReplyModel {
    success(
        render(
            SearchSymbolsResponse::json_of(
                SearchResponseModel {
                    page: trimmed_page::<SymbolResult>(
                        symbol_rows(symbols, brief),
                        total,
                        p.offset,
                        p.limit,
                        max_bytes,
                    ),
                    suggestions: suggested(p.pattern, total, related, all_symbols),
                },
            ),
        ),
    )
}

/// The answer to a search.
pub open spec fn search_reply(
    input: SearchSymbolsInput,
    symbols: Seq<SymbolModel>,
    total: u32,
    related: Seq<SymbolModel>,
    all_symbols: Seq<SymbolModel>,
    max_bytes: usize,
) -> ReplyModel {
    match search_plan(input) {
        Err(msg) => failure(msg),
        Ok(SearchPlanModel::Count(_)) => count_reply(total),
        Ok(SearchPlanModel::Near(p)) => near_reply(p, all_symbols, input.brief, max_bytes),
        Ok(SearchPlanModel::Find(p)) => find_reply(
            p,
            symbols,
            total,
            related,
            all_symbols,
            input.brief,
            max_bytes,
        ),
    }
}

/// Answers a search, given what the graph found for its plan.
pub fn search_symbols(input: SearchSymbolsInput, answer: &SearchAnswer, max_bytes: usize) -> (r:
    ToolReply)
    ensures
        r@ == search_reply(
            input,
            views(answer.symbols@),
            answer.total,
            views(answer.related@),
            views(answer.all_symbols@),
            max_bytes,
        ),
{
    match plan_search(&input) {
        Err(refusal) => refusal,
        Ok(SearchPlan::Count(_)) => reply_with_count(answer.total),
        Ok(SearchPlan::Near(p)) => near_search(&p, &answer.all_symbols, input.brief, max_bytes),
        Ok(SearchPlan::Find(p)) => {
            let rows = symbol_results(&answer.symbols, input.brief);
            let page = trim_page(rows, answer.total, p.offset, p.limit, max_bytes);
            let suggestions: Vec<String> = match suggestion_pattern(
                p.pattern.as_str(),
                answer.total,
            ) {
                None => Vec::new(),
                Some(inner) => if answer.related.len() > 0 {
                    first_ids(&answer.related, 5)
                } else if is_plain_identifier(inner.as_str()) {
                    levenshtein_suggestions(&answer.all_symbols, inner.as_str(), 5)
                } else {
                    Vec::new()
                },
            };
            assert(texts(suggestions@) =~= suggested(
                p.pattern@,
                answer.total,
                views(answer.related@),
                views(answer.all_symbols@),
            ));
            tool_success_json(&SearchSymbolsResponse { page, suggestions })
        },
    }
}

// ----- details -----

/// The answer to a request for one symbol.
pub open spec fn detail_reply(
    symbol: Seq<char>,
    found: Option<SymbolModel>,
    candidates: Seq<SymbolModel>,
) -> ReplyModel {
    if symbol.len() == 0 {
        failure("'symbol' is required"@)
    } else {
        match found {
            Some(s) => success(render(SymbolResult::json_of(symbol_row(s, false)))),
            None => not_found("symbol"@, debug_text(symbol), symbol_hint(candidates)),
        }
    }
}

/// Answers a request for one symbol, where `found` is what the graph has under
/// that id and `candidates` are the symbols with similar names.
pub fn get_symbol_detail(symbol: &str, found: Option<&Symbol>, candidates: &Vec<Symbol>) -> (r:
    ToolReply)
    ensures
        r@ == detail_reply(symbol@, opt_view(found), views(candidates@)),
{
    if symbol.is_empty() {
        return tool_error("'symbol' is required");
    }
    match found {
        Some(s) => tool_success_json(&symbol_to_result(s, false)),
        None => symbol_not_found(symbol, candidates),
    }
}

// ----- summary -----

/// How many symbols of a kind a namespace has.
pub struct KindCount {
    pub kind: SymbolKind,
    pub count: u32,
}

/// The counts of a namespace.
pub struct NamespaceCounts {
    pub namespace: String,
    pub kinds: Vec<KindCount>,
}

/// What [`NamespaceCounts`] stand for.
pub struct NamespaceCountsModel {
    pub namespace: Seq<char>,
    pub kinds: Seq<KindCount>,
}

impl View for NamespaceCounts {
    type V = NamespaceCountsModel;

    open spec fn view(&self) -> NamespaceCountsModel {
        NamespaceCountsModel { namespace: self.namespace@, kinds: self.kinds@ }
    }
}

/// One row of a summary.
#[derive(Debug, Clone)]
pub struct SummaryRow {
    pub namespace: String,
    pub kind: &'static str,
    pub count: u32,
}

/// What a [`SummaryRow`] stands for.
pub struct SummaryRowModel {
    pub namespace: Seq<char>,
    pub kind: Seq<char>,
    pub count: u32,
}

impl View for SummaryRow {
    type V = SummaryRowModel;

    open spec fn view(&self) -> SummaryRowModel {
        SummaryRowModel { namespace: self.namespace@, kind: self.kind@, count: self.count }
    }
}

impl ToJson for SummaryRow {
    open spec fn json_of(v: SummaryRowModel) -> JsonModel {
        JsonModel::Object(
            seq![
                ("namespace"@, JsonModel::Text(v.namespace)),
                ("kind"@, JsonModel::Text(v.kind)),
                ("count"@, JsonModel::Number(v.count as nat)),
            ],
        )
    }

    fn to_json(&self) -> (r: Json) {
        let mut m = no_members();
        put(&mut m, "namespace", text(self.namespace.as_str()));
        put(&mut m, "kind", text(self.kind));
        put(&mut m, "count", number(self.count));
        assert(member_models(m@) =~= Self::json_of(self@)->Object_0);
        object(m)
    }
}

/// Rows are sorted by namespace, and by kind within one.
impl Sortable for SummaryRow {
    open spec fn at_most(a: SummaryRowModel, b: SummaryRowModel) -> bool {
        if a.namespace == b.namespace {
            text_le(a.kind, b.kind)
        } else {
            text_le(a.namespace, b.namespace)
        }
    }

    proof fn lemma_total(a: SummaryRowModel, b: SummaryRowModel) {
        lemma_text_le_total(a.namespace, b.namespace);
        lemma_text_le_total(a.kind, b.kind);
    }

    proof fn lemma_transitive(a: SummaryRowModel, b: SummaryRowModel, c: SummaryRowModel) {
        if a.namespace == b.namespace && b.namespace == c.namespace {
            lemma_text_le_transitive(a.kind, b.kind, c.kind);
        } else if a.namespace != b.namespace && b.namespace != c.namespace {
            lemma_text_le_transitive(a.namespace, b.namespace, c.namespace);
            lemma_text_le_total(a.namespace, b.namespace);
            lemma_text_le_total(b.namespace, c.namespace);
        }
    }

    fn precedes(&self, other: &Self) -> (r: bool) {
        if same_text(self.namespace.as_str(), other.namespace.as_str()) {
            text_at_most(self.kind, other.kind)
        } else {
            text_at_most(self.namespace.as_str(), other.namespace.as_str())
        }
    }
}

/// How a namespace is shown: the global one, which is empty, has a name of its
/// own.
pub open spec fn shown_namespace(ns: Seq<char>) -> Seq<char> {
    if ns.len() == 0 {
        "<global>"@
    } else {
        ns
    }
}

/// The rows of a namespace.
pub open spec fn namespace_rows(n: NamespaceCountsModel) -> Seq<SummaryRowModel> {
    n.kinds.map_values(
        |k: KindCount|
            SummaryRowModel {
                namespace: shown_namespace(n.namespace),
                kind: kind_name(k.kind),
                count: k.count,
            },
    )
}

/// The rows of a summary, one for each namespace and kind.
pub open spec fn summary_rows(summary: Seq<NamespaceCountsModel>) -> Seq<SummaryRowModel>
    decreases summary.len(),
{
    if summary.len() == 0 {
        seq![]
    } else {
        summary_rows(summary.drop_last()) + namespace_rows(summary.last())
    }
}

/// The rows of a summary, one for each namespace and kind.
pub fn flatten_summary(summary: &Vec<NamespaceCounts>) -> (r: Vec<SummaryRow>)
    ensures
        views(r@) == summary_rows(views(summary@)),
{
    let mut out: Vec<SummaryRow> = Vec::new();
    let ghost all = views(summary@);
    assert(all.take(0) =~= seq![]);
    assert(views(out@) =~= summary_rows(all.take(0)));
    let mut i: usize = 0;
    while i < summary.len()
        invariant
            i <= summary@.len(),
            all == views(summary@),
            views(out@) == summary_rows(all.take(i as int)),
        decreases summary@.len() - i,
    {
        let n = &summary[i];
        let ghost before = views(out@);
        let ghost rows = namespace_rows(n@);
        let mut j: usize = 0;
        assert(before + rows.take(0) =~= before);
        while j < n.kinds.len()
            invariant
                j <= n.kinds@.len(),
                rows == namespace_rows(n@),
                views(out@) == before + rows.take(j as int),
            decreases n.kinds@.len() - j,
        {
            let shown = if n.namespace.as_str().is_empty() {
                owned("<global>")
            } else {
                n.namespace.clone()
            };
            let ghost partial = out@;
            out.push(
                SummaryRow {
                    namespace: shown,
                    kind: kind_str(n.kinds[j].kind),
                    count: n.kinds[j].count,
                },
            );
            assert(out@.last()@ == rows[j as int]);
            assert(views(out@) =~= views(partial).push(rows[j as int]));
            assert(before + rows.take(j as int + 1) =~= (before + rows.take(j as int)).push(
                rows[j as int],
            ));
            j = j + 1;
        }
        proof {
            assert(rows.take(rows.len() as int) =~= rows);
            assert(all.take(i as int + 1).drop_last() =~= all.take(i as int));
            assert(all.take(i as int + 1).last() == n@);
        }
        i = i + 1;
    }
    assert(all.take(all.len() as int) =~= all);
    out
}

/// The answer to a request for a summary.
pub open spec fn summary_reply(
    summary: Seq<NamespaceCountsModel>,
    limit: Option<u32>,
    offset: Option<u32>,
    count_only: bool,
    max_bytes: usize,
) -> ReplyModel {
    let rows = summary_rows(summary);
    if count_only {
        count_reply(rows.len() as u32)
    } else {
        page_reply::<SummaryRow>(
            stable_sorted::<SummaryRow>(rows),
            resolved_offset(offset),
            resolved_limit(limit, 100, MAX_PAGE_LIMIT),
            max_bytes,
        )
    }
}

/// Answers a request for a summary, where `summary` holds the counts of each
/// namespace. A count is of rows, not of symbols.
pub fn get_symbol_summary(
    summary: &Vec<NamespaceCounts>,
    limit: Option<u32>,
    offset: Option<u32>,
    count_only: bool,
    max_bytes: usize,
) -> (r: ToolReply)
    ensures
        r@ == summary_reply(views(summary@), limit, offset, count_only, max_bytes),
{
    let rows = flatten_summary(summary);
    if count_only {
        assert(views(rows@).len() == rows@.len());
        let total: u32 = #[verifier::truncate] (rows.len() as u32);
        return reply_with_count(total);
    }
    reply_with_page(
        sort(rows),
        resolve_offset(offset),
        resolve_limit(limit, 100, MAX_PAGE_LIMIT),
        max_bytes,
    )
}

// ----- laws -----

/// The suggestions of a search are at most five, and there are none unless the
/// query asks for one exact name and finds nothing.
pub proof fn lemma_suggestions_are_few(
    query: Seq<char>,
    total: u32,
    related: Seq<SymbolModel>,
    all_symbols: Seq<SymbolModel>,
)
    ensures
        suggested(query, total, related, all_symbols).len() <= 5,
        suggested(query, total, related, all_symbols).len() > 0 ==> total == 0 && is_anchored(query)
            && query.len() > 2,
{
}

/// Without suggestions, the answer of a search is that of a bare page.
pub proof fn lemma_response_without_suggestions(page: PageModel<SymbolRow>)
    ensures
        SearchSymbolsResponse::json_of(SearchResponseModel { page, suggestions: seq![] })
            == Page::<SymbolResult>::json_of(page),
{
}

/// Every symbol that a search by edit distance finds passes its filters, the
/// subtree among them, and is within the distance asked for; nearer ones come
/// first.
pub proof fn lemma_nearest_first(p: NearParamsModel, symbols: Seq<SymbolModel>)
    ensures
        forall|i: int|
            0 <= i < nearest(p, symbols).len() ==> is_near(p, #[trigger] nearest(p, symbols)[i]),
        forall|i: int|
            0 <= i < nearest(p, symbols).len() ==> distance(
                p.query,
                #[trigger] nearest(p, symbols)[i].name,
            ) <= p.max_distance,
        forall|i: int, j: int|
            0 <= i < j < nearest(p, symbols).len() ==> distance(
                p.query,
                #[trigger] nearest(p, symbols)[i].name,
            ) <= distance(p.query, #[trigger] nearest(p, symbols)[j].name),
{
    let hits = near_hits(p, symbols);
    let sorted = stable_sorted::<NearHit>(hits);
    lemma_stable_sorted_in_order::<NearHit>(hits);
    broadcast use vstd::seq_lib::group_to_multiset_ensures;

    let pass = |s: SymbolModel| is_near(p, s);
    broadcast use vstd::seq_lib::group_filter_ensures;

    assert forall|i: int| 0 <= i < sorted.len() implies {
        let h = #[trigger] sorted[i];
        h.distance == distance(p.query, h.symbol.name) && is_near(p, h.symbol)
    } by {
        assert(sorted.to_multiset().contains(sorted[i]));
        assert(hits.to_multiset().contains(sorted[i]));
        assert(hits.contains(sorted[i]));
        let k = choose|k: int| 0 <= k < hits.len() && hits[k] == sorted[i];
        assert(pass(symbols.filter(pass)[k]));
    }
    assert forall|i: int, j: int| 0 <= i < j < nearest(p, symbols).len() implies distance(
        p.query,
        #[trigger] nearest(p, symbols)[i].name,
    ) <= distance(p.query, #[trigger] nearest(p, symbols)[j].name) by {
        assert(NearHit::at_most(sorted[i], sorted[j]));
        assert(sorted[i].distance == distance(p.query, sorted[i].symbol.name));
        assert(sorted[j].distance == distance(p.query, sorted[j].symbol.name));
    }
    assert forall|i: int| 0 <= i < nearest(p, symbols).len() implies is_near(
        p,
        #[trigger] nearest(p, symbols)[i],
    ) by {
        assert(is_near(p, sorted[i].symbol));
    }
    assert forall|i: int| 0 <= i < nearest(p, symbols).len() implies distance(
        p.query,
        #[trigger] nearest(p, symbols)[i].name,
    ) <= p.max_distance by {
        assert(sorted[i].distance == distance(p.query, sorted[i].symbol.name));
    }
}

/// A search page that was cut for size goes on where it stopped: with `matches`
/// as all matches in their order, the page and the matches from the next offset
/// on are the matches from the offset on.
pub proof fn lemma_search_resumes(
    matches: Seq<SymbolModel>,
    offset: u32,
    limit: u32,
    brief: bool,
    max_bytes: usize,
)
    requires
        matches.len() <= u32::MAX,
        offset <= matches.len(),
    ensures
        ({
            let shown = first(matches.skip(offset as int), limit as nat);
            let p = trimmed_page::<SymbolResult>(
                symbol_rows(shown, brief),
                matches.len() as u32,
                offset,
                limit,
                max_bytes,
            );
            &&& p.truncated <==> p.results.len() < shown.len()
            &&& p.truncated ==> p.next_offset == Some((offset + p.results.len()) as u32)
            &&& p.truncated ==> p.results + symbol_rows(
                matches.skip(p.next_offset->0 as int),
                brief,
            ) == symbol_rows(matches.skip(offset as int), brief)
            &&& p.total == matches.len()
        }),
{
    let shown = first(matches.skip(offset as int), limit as nat);
    let rows = symbol_rows(shown, brief);
    let p = trimmed_page::<SymbolResult>(rows, matches.len() as u32, offset, limit, max_bytes);
    crate::page::lemma_kept_count(
        jsons::<SymbolResult>(rows),
        rows.len(),
        crate::page::record_budget(max_bytes as nat),
    );
    if p.truncated {
        assert(p.results + symbol_rows(matches.skip(p.next_offset->0 as int), brief)
            =~= symbol_rows(matches.skip(offset as int), brief));
    }
}

/// Counting the symbols of a file and listing them agree on how many there are.
pub proof fn lemma_file_count_agrees(
    symbols: Seq<SymbolModel>,
    top_level_only: bool,
    brief: bool,
    offset: u32,
    limit: u32,
    max_bytes: usize,
)
    ensures
        page_of::<SymbolResult>(
            stable_sorted::<SymbolResult>(symbol_rows(listed(symbols, top_level_only), brief)),
            offset,
            limit,
            max_bytes,
        ).total == listed(symbols, top_level_only).len() as u32,
{
    lemma_stable_sorted_in_order::<SymbolResult>(
        symbol_rows(listed(symbols, top_level_only), brief),
    );
}

/// Counting the rows of a summary and listing them agree on how many there are.
pub proof fn lemma_summary_count_agrees(
    summary: Seq<NamespaceCountsModel>,
    offset: u32,
    limit: u32,
    max_bytes: usize,
)
    ensures
        page_of::<SummaryRow>(
            stable_sorted::<SummaryRow>(summary_rows(summary)),
            offset,
            limit,
            max_bytes,
        ).total == summary_rows(summary).len() as u32,
{
    lemma_stable_sorted_in_order::<SummaryRow>(summary_rows(summary));
}

/// The counts of a summary, each with its namespace and its kind.
pub open spec fn summary_counts(summary: Seq<NamespaceCountsModel>) -> Seq<
    (Seq<char>, SymbolKind, u32),
>
    decreases summary.len(),
{
    if summary.len() == 0 {
        seq![]
    } else {
        summary_counts(summary.drop_last()) + summary.last().kinds.map_values(
            |k: KindCount| (summary.last().namespace, k.kind, k.count),
        )
    }
}

/// Whether a summary counts no namespace and kind twice.
pub open spec fn counts_each_once(summary: Seq<NamespaceCountsModel>) -> bool {
    distinct_by(summary_counts(summary), |c: (Seq<char>, SymbolKind, u32)| (c.0, c.1))
}

/// Whether a symbol is among those that a count counts.
pub open spec fn is_counted(c: (Seq<char>, SymbolKind, u32), s: SymbolModel) -> bool {
    s.namespace == c.0 && s.kind == c.1
}

/// Whether a summary counts the given symbols: each namespace and kind that they
/// have once, with how many of them have it.
pub open spec fn counts_all(summary: Seq<NamespaceCountsModel>, symbols: Seq<SymbolModel>) -> bool {
    let counts = summary_counts(summary);
    &&& counts_each_once(summary)
    &&& forall|i: int|
        0 <= i < counts.len() ==> (#[trigger] counts[i]).2 == symbols.filter(
            |s: SymbolModel| is_counted(counts[i], s),
        ).len()
    &&& forall|k: int|
        0 <= k < symbols.len() ==> exists|i: int|
            0 <= i < counts.len() && #[trigger] is_counted(counts[i], #[trigger] symbols[k])
}

/// What the counts of rows come to.
pub open spec fn total_count(rows: Seq<SummaryRowModel>) -> nat
    decreases rows.len(),
{
    if rows.len() == 0 {
        0
    } else {
        rows[0].count as nat + total_count(rows.drop_first())
    }
}

/// The row of a count.
pub open spec fn count_row(c: (Seq<char>, SymbolKind, u32)) -> SummaryRowModel {
    SummaryRowModel { namespace: shown_namespace(c.0), kind: kind_name(c.1), count: c.2 }
}

/// The rows of a summary are those of its counts, one for each.
pub proof fn lemma_rows_of_counts(summary: Seq<NamespaceCountsModel>)
    ensures
        summary_rows(summary) == summary_counts(summary).map_values(
            |c: (Seq<char>, SymbolKind, u32)| count_row(c),
        ),
    decreases summary.len(),
{
    let f = |c: (Seq<char>, SymbolKind, u32)| count_row(c);
    if summary.len() > 0 {
        lemma_rows_of_counts(summary.drop_last());
        assert(summary_rows(summary) =~= summary_counts(summary).map_values(f));
    } else {
        assert(summary_rows(summary) =~= summary_counts(summary).map_values(f));
    }
}

proof fn lemma_total_concat(a: Seq<SummaryRowModel>, b: Seq<SummaryRowModel>)
    ensures
        total_count(a + b) == total_count(a) + total_count(b),
    decreases a.len(),
{
    if a.len() == 0 {
        assert(a + b =~= b);
    } else {
        lemma_total_concat(a.drop_first(), b);
        assert((a + b).drop_first() =~= a.drop_first() + b);
    }
}

proof fn lemma_total_inserted(rows: Seq<SummaryRowModel>, row: SummaryRowModel)
    ensures
        total_count(inserted::<SummaryRow>(rows, row)) == total_count(rows) + row.count,
    decreases rows.len(),
{
    let out = inserted::<SummaryRow>(rows, row);
    reveal_with_fuel(total_count, 2);
    if rows.len() == 0 {
        assert(out.drop_first() =~= seq![]);
    } else if SummaryRow::at_most(rows[0], row) {
        lemma_total_inserted(rows.drop_first(), row);
        assert(out.drop_first() =~= inserted::<SummaryRow>(rows.drop_first(), row));
    } else {
        assert(out.drop_first() =~= rows);
    }
}

proof fn lemma_total_sorted(rows: Seq<SummaryRowModel>)
    ensures
        total_count(stable_sorted::<SummaryRow>(rows)) == total_count(rows),
    decreases rows.len(),
{
    if rows.len() > 0 {
        let t = rows.drop_last();
        lemma_total_sorted(t);
        lemma_total_inserted(stable_sorted::<SummaryRow>(t), rows.last());
        lemma_total_concat(t, seq![rows.last()]);
        assert(t + seq![rows.last()] =~= rows);
        reveal_with_fuel(total_count, 2);
        assert(seq![rows.last()].drop_first() =~= seq![]);
    }
}

/// Where no element passes both of two filters, those that pass either are as
/// many as those that pass one and those that pass the other.
proof fn lemma_filter_either<V>(
    s: Seq<V>,
    p: spec_fn(V) -> bool,
    q: spec_fn(V) -> bool,
    either: spec_fn(V) -> bool,
)
    requires
        forall|i: int|
            0 <= i < s.len() ==> either(#[trigger] s[i]) == (p(s[i]) || q(s[i])) && !(p(s[i]) && q(
                s[i],
            )),
    ensures
        s.filter(either).len() == s.filter(p).len() + s.filter(q).len(),
    decreases s.len(),
{
    reveal(Seq::filter);
    if s.len() > 0 {
        let t = s.drop_last();
        assert forall|i: int| 0 <= i < t.len() implies either(#[trigger] t[i]) == (p(t[i]) || q(
            t[i],
        )) && !(p(t[i]) && q(t[i])) by {
            assert(t[i] == s[i]);
        }
        lemma_filter_either(t, p, q, either);
        assert(s[s.len() - 1] == s.last());
    }
}

/// Counts that are right, and count nothing twice, come to as many as there are
/// symbols among those that one of them counts.
proof fn lemma_counts_sum(counts: Seq<(Seq<char>, SymbolKind, u32)>, symbols: Seq<SymbolModel>)
    requires
        distinct_by(counts, |c: (Seq<char>, SymbolKind, u32)| (c.0, c.1)),
        forall|i: int|
            0 <= i < counts.len() ==> (#[trigger] counts[i]).2 == symbols.filter(
                |s: SymbolModel| is_counted(counts[i], s),
            ).len(),
    ensures
        total_count(counts.map_values(|c: (Seq<char>, SymbolKind, u32)| count_row(c)))
            == symbols.filter(
            |s: SymbolModel|
                exists|i: int| 0 <= i < counts.len() && #[trigger] is_counted(counts[i], s),
        ).len(),
    decreases counts.len(),
{
    let f = |c: (Seq<char>, SymbolKind, u32)| count_row(c);
    let key = |c: (Seq<char>, SymbolKind, u32)| (c.0, c.1);
    let all = |s: SymbolModel|
        exists|i: int| 0 <= i < counts.len() && #[trigger] is_counted(counts[i], s);
    if counts.len() == 0 {
        if symbols.filter(all).len() > 0 {
            lemma_filter_from(symbols, all, 0);
        }
    } else {
        let t = counts.drop_last();
        let c = counts.last();
        let n = counts.len() - 1;
        assert(counts[n] == c);
        assert forall|i: int, j: int| 0 <= i < j < t.len() implies key(#[trigger] t[i]) != key(
            #[trigger] t[j],
        ) by {
            assert(t[i] == counts[i] && t[j] == counts[j]);
            assert(key(counts[i]) != key(counts[j]));
        }
        assert forall|i: int| 0 <= i < t.len() implies (#[trigger] t[i]).2 == symbols.filter(
            |s: SymbolModel| is_counted(t[i], s),
        ).len() by {
            assert(t[i] == counts[i]);
        }
        lemma_counts_sum(t, symbols);
        let before = |s: SymbolModel|
            exists|i: int| 0 <= i < t.len() && #[trigger] is_counted(t[i], s);
        let last = |s: SymbolModel| is_counted(counts[n], s);
        assert forall|k: int| 0 <= k < symbols.len() implies all(#[trigger] symbols[k]) == (before(
            symbols[k],
        ) || last(symbols[k])) && !(before(symbols[k]) && last(symbols[k])) by {
            let s = symbols[k];
            if all(s) {
                let i = choose|i: int|
                    0 <= i < counts.len() && #[trigger] is_counted(counts[i], s);
                if i < n {
                    assert(is_counted(t[i], s));
                }
            }
            if last(s) {
                assert(is_counted(counts[n], s));
            }
            if before(s) {
                let i = choose|i: int| 0 <= i < t.len() && #[trigger] is_counted(t[i], s);
                assert(is_counted(counts[i], s));
                assert(key(counts[i]) != key(counts[n]));
            }
        }
        lemma_filter_either(symbols, before, last, all);
        lemma_total_concat(t.map_values(f), seq![count_row(c)]);
        assert(counts.map_values(f) =~= t.map_values(f) + seq![count_row(c)]);
        reveal_with_fuel(total_count, 2);
        assert(seq![count_row(c)].drop_first() =~= seq![]);
    }
}

/// The counts of a summary's list come to the number of symbols that it counts.
pub proof fn lemma_summary_counts_symbols(
    summary: Seq<NamespaceCountsModel>,
    symbols: Seq<SymbolModel>,
)
    requires
        counts_all(summary, symbols),
    ensures
        total_count(stable_sorted::<SummaryRow>(summary_rows(summary))) == symbols.len(),
{
    let counts = summary_counts(summary);
    lemma_total_sorted(summary_rows(summary));
    lemma_rows_of_counts(summary);
    lemma_counts_sum(counts, symbols);
    lemma_filter_all(
        symbols,
        |s: SymbolModel|
            exists|i: int| 0 <= i < counts.len() && #[trigger] is_counted(counts[i], s),
    );
}

/// A summary's list is in strict order, with one row for each namespace and
/// kind, unless a namespace has the name that the global one is shown by and a
/// kind in common with it.
pub proof fn lemma_summary_rows_ascend(summary: Seq<NamespaceCountsModel>)
    requires
        counts_each_once(summary),
        forall|i: int, j: int|
            #![trigger summary_counts(summary)[i], summary_counts(summary)[j]]
            0 <= i < summary_counts(summary).len() && 0 <= j < summary_counts(summary).len()
                && summary_counts(summary)[i].0.len() == 0 && summary_counts(summary)[j].0
                == "<global>"@ ==> summary_counts(summary)[i].1 != summary_counts(summary)[j].1,
    ensures
        stable_sorted::<SummaryRow>(summary_rows(summary)).len() == summary_counts(summary).len(),
        forall|i: int, j: int|
            0 <= i < j < summary_rows(summary).len() ==> SummaryRow::at_most(
                #[trigger] stable_sorted::<SummaryRow>(summary_rows(summary))[i],
                #[trigger] stable_sorted::<SummaryRow>(summary_rows(summary))[j],
            ),
        distinct_by(
            stable_sorted::<SummaryRow>(summary_rows(summary)),
            |row: SummaryRowModel| (row.namespace, row.kind),
        ),
{
    let counts = summary_counts(summary);
    let rows = summary_rows(summary);
    let key = |c: (Seq<char>, SymbolKind, u32)| (c.0, c.1);
    let shown = |row: SummaryRowModel| (row.namespace, row.kind);
    lemma_rows_of_counts(summary);
    assert forall|i: int, j: int| 0 <= i < j < rows.len() implies shown(#[trigger] rows[i])
        != shown(#[trigger] rows[j]) by {
        let a = counts[i];
        let b = counts[j];
        assert(rows[i] == count_row(a) && rows[j] == count_row(b));
        assert(key(a) != key(b));
        lemma_kind_names(a.1, kind_name(b.1));
        lemma_kind_names(b.1, kind_name(b.1));
        if a.0.len() == 0 && b.0.len() == 0 {
            assert(a.0 =~= b.0);
        }
    }
    lemma_stable_sorted_in_order::<SummaryRow>(rows);
    lemma_stable_sorted_distinct::<SummaryRow, (Seq<char>, Seq<char>)>(rows, shown);
}

/// All pages of a summary put together are its whole list, where the size leaves
/// room for the rows. Every page says how many rows there are, and so does an
/// answer that counts alone.
pub proof fn lemma_summary_pages_cover(
    summary: Seq<NamespaceCountsModel>,
    offset: u32,
    limit: Option<u32>,
    max_bytes: usize,
)
    requires
        summary_rows(summary).len() <= u32::MAX,
        cost(jsons::<SummaryRow>(stable_sorted::<SummaryRow>(summary_rows(summary))))
            <= record_budget(max_bytes as nat),
    ensures
        ({
            let resolved = resolved_limit(limit, 100, MAX_PAGE_LIMIT);
            let rows = stable_sorted::<SummaryRow>(summary_rows(summary));
            &&& all_pages::<SummaryRow>(rows, 0, resolved, max_bytes) == rows
            &&& page_of::<SummaryRow>(rows, offset, resolved, max_bytes).total == rows.len()
            &&& summary_reply(summary, limit, Some(offset), true, max_bytes) == count_reply(
                rows.len() as u32,
            )
        }),
{
    let resolved = resolved_limit(limit, 100, MAX_PAGE_LIMIT);
    let rows = stable_sorted::<SummaryRow>(summary_rows(summary));
    lemma_stable_sorted_in_order::<SummaryRow>(summary_rows(summary));
    lemma_all_pages_cover::<SummaryRow>(rows, offset, resolved, max_bytes);
}

/// No row of a summary has an empty namespace.
pub proof fn lemma_summary_namespaces_shown(summary: Seq<NamespaceCountsModel>)
    ensures
        forall|i: int|
            0 <= i < summary_rows(summary).len() ==> #[trigger] summary_rows(
                summary,
            )[i].namespace.len() > 0,
    decreases summary.len(),
{
    reveal_strlit("<global>");
    if summary.len() > 0 {
        lemma_summary_namespaces_shown(summary.drop_last());
        let a = summary_rows(summary.drop_last());
        let b = namespace_rows(summary.last());
        assert forall|i: int| 0 <= i < (a + b).len() implies #[trigger] (a
            + b)[i].namespace.len() > 0 by {
            if i < a.len() {
                assert((a + b)[i] == a[i]);
            } else {
                assert((a + b)[i] == b[i - a.len()]);
            }
        }
    }
}

} // verus!
