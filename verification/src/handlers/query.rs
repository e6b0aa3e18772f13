//! Tools on calls and includes.

use super::{
    edge_kind_name, edge_kind_str, not_found, symbol_hint, symbol_not_found,
};
use crate::json::{
    jsons, member_models, no_members, number, object, put, text, Json, JsonModel, ToJson,
};
use crate::model::{EdgeKind, Symbol, SymbolModel};
use crate::page::{
    all_pages, cost, lemma_all_pages_cover, page_of, page_reply, record_budget, reply_with_page,
    resolve_limit, resolve_offset, resolved_limit, resolved_offset, MAX_PAGE_LIMIT,
};
use crate::reply::{failure, tool_error, ReplyModel, ToolReply};
use crate::sort::{in_order, sort, stable_sorted, views, Sortable};
use crate::text::{
    debug_text, lemma_text_le_total, lemma_text_le_transitive, owned, same_text,
    text_at_most, text_le,
};
use vstd::prelude::*;

verus! {

// ----- callers and callees -----

/// Which way to follow calls.
#[derive(Clone, Copy, Debug, PartialEq, Eq, Structural)]
pub enum Direction {
    /// To those that call the symbol.
    Callers,
    /// To those that the symbol calls.
    Callees,
}

/// A symbol on the way along calls.
#[derive(Debug, Clone)]
pub struct CallChain {
    pub symbol_id: String,
    pub file: String,
    pub line: u32,
    pub depth: u32,
}

/// What a [`CallChain`] stands for.
pub struct CallChainModel {
    pub symbol_id: Seq<char>,
    pub file: Seq<char>,
    pub line: u32,
    pub depth: u32,
}

impl View for CallChain {
    type V = CallChainModel;

    open spec fn view(&self) -> CallChainModel {
        CallChainModel {
            symbol_id: self.symbol_id@,
            file: self.file@,
            line: self.line,
            depth: self.depth,
        }
    }
}

impl ToJson for CallChain {
    open spec fn json_of(v: CallChainModel) -> JsonModel {
        JsonModel::Object(
            seq![
                ("symbol_id"@, JsonModel::Text(v.symbol_id)),
                ("file"@, JsonModel::Text(v.file)),
                ("line"@, JsonModel::Number(v.line as nat)),
                ("depth"@, JsonModel::Number(v.depth as nat)),
            ],
        )
    }

    fn to_json(&self) -> (r: Json) {
        let mut m = no_members();
        put(&mut m, "symbol_id", text(self.symbol_id.as_str()));
        put(&mut m, "file", text(self.file.as_str()));
        put(&mut m, "line", number(self.line));
        put(&mut m, "depth", number(self.depth));
        assert(member_models(m@) =~= Self::json_of(self@)->Object_0);
        object(m)
    }
}

/// Symbols along calls are sorted by depth, and by id where the depth is the
/// same.
impl Sortable for CallChain {
    open spec fn at_most(a: CallChainModel, b: CallChainModel) -> bool {
        a.depth < b.depth || (a.depth == b.depth && text_le(a.symbol_id, b.symbol_id))
    }

    proof fn lemma_total(a: CallChainModel, b: CallChainModel) {
        lemma_text_le_total(a.symbol_id, b.symbol_id);
    }

    proof fn lemma_transitive(a: CallChainModel, b: CallChainModel, c: CallChainModel) {
        if a.depth == b.depth && b.depth == c.depth {
            lemma_text_le_transitive(a.symbol_id, b.symbol_id, c.symbol_id);
        }
    }

    fn precedes(&self, other: &Self) -> (r: bool) {
        self.depth < other.depth || (self.depth == other.depth && text_at_most(
            self.symbol_id.as_str(),
            other.symbol_id.as_str(),
        ))
    }
}

/// The depth that a request means: one where it is absent or zero.
pub open spec fn resolved_depth(depth: Option<u32>) -> u32 {
    match depth {
        Some(d) => if d == 0 {
            1
        } else {
            d
        },
        None => 1,
    }
}

/// The depth that a request means: one where it is absent or zero.
pub fn resolve_depth(depth: Option<u32>) -> (r: u32)
    ensures
        r == resolved_depth(depth),
        r > 0,
{
    match depth {
        Some(d) => if d > 0 {
            d
        } else {
            1
        },
        None => 1,
    }
}

/// A walk along calls that the graph is asked for.
pub struct CallWalk {
    pub symbol: String,
    pub depth: u32,
    pub direction: Direction,
}

/// The walk that a request asks for, or the answer that refuses it.
pub fn plan_call_walk(symbol: &str, depth: Option<u32>, direction: Direction) -> (r: Result<
    CallWalk,
    ToolReply,
>)
    ensures
        symbol@.len() == 0 ==> r is Err && r->Err_0@ == failure("'symbol' is required"@),
        symbol@.len() > 0 ==> r is Ok && r->Ok_0.symbol@ == symbol@ && r->Ok_0.depth
            == resolved_depth(depth) && r->Ok_0.direction == direction,
        r is Ok && depth is Some && depth->0 > 0 ==> r->Ok_0.depth == depth->0,
        r is Ok && (depth is None || depth == Some(0u32)) ==> r->Ok_0.depth == 1,
{
    if symbol.is_empty() {
        return Err(tool_error("'symbol' is required"));
    }
    Ok(CallWalk { symbol: owned(symbol), depth: resolve_depth(depth), direction })
}

/// The answer to a request for callers or callees.
///
/// A symbol that the graph does not know is an error; a known one without
/// callers or callees has an empty page.
pub open spec fn call_walk_reply(
    symbol: Seq<char>,
    chains: Seq<CallChainModel>,
    known: bool,
    candidates: Seq<SymbolModel>,
    limit: Option<u32>,
    offset: Option<u32>,
    max_bytes: usize,
) -> ReplyModel {
    if symbol.len() == 0 {
        failure("'symbol' is required"@)
    } else if chains.len() == 0 && !known {
        not_found("symbol"@, debug_text(symbol), symbol_hint(candidates))
    } else {
        page_reply::<CallChain>(
            stable_sorted::<CallChain>(chains),
            resolved_offset(offset),
            resolved_limit(limit, 100, MAX_PAGE_LIMIT),
            max_bytes,
        )
    }
}

/// Answers a request for callers or callees: `chains` is what the walk of
/// [`plan_call_walk`] reached, `known` whether the graph has the symbol, and
/// `candidates` are the symbols with similar names.
pub fn callers_or_callees(
    symbol: &str,
    chains: Vec<CallChain>,
    known: bool,
    candidates: &Vec<Symbol>,
    limit: Option<u32>,
    offset: Option<u32>,
    max_bytes: usize,
) -> (r: ToolReply)
    ensures
        r@ == call_walk_reply(
            symbol@,
            views(chains@),
            known,
            views(candidates@),
            limit,
            offset,
            max_bytes,
        ),
{
    if symbol.is_empty() {
        return tool_error("'symbol' is required");
    }
    if chains.is_empty() && !known {
        return symbol_not_found(symbol, candidates);
    }
    reply_with_page(
        sort(chains),
        resolve_offset(offset),
        resolve_limit(limit, 100, MAX_PAGE_LIMIT),
        max_bytes,
    )
}

// ----- dependencies -----

/// A file that another one includes, and where.
#[derive(Debug, Clone)]
pub struct IncludeEntry {
    pub path: String,
    pub line: u32,
}

/// What an [`IncludeEntry`] stands for.
pub struct IncludeModel {
    pub path: Seq<char>,
    pub line: u32,
}

impl View for IncludeEntry {
    type V = IncludeModel;

    open spec fn view(&self) -> IncludeModel {
        IncludeModel { path: self.path@, line: self.line }
    }
}

/// A row of a file's dependencies.
#[derive(Debug, Clone)]
pub struct DependencyEntry {
    pub file: String,
    pub kind: &'static str,
    pub line: u32,
}

/// What a [`DependencyEntry`] stands for.
pub struct DependencyModel {
    pub file: Seq<char>,
    pub kind: Seq<char>,
    pub line: u32,
}

impl View for DependencyEntry {
    type V = DependencyModel;

    open spec fn view(&self) -> DependencyModel {
        DependencyModel { file: self.file@, kind: self.kind@, line: self.line }
    }
}

impl ToJson for DependencyEntry {
    open spec fn json_of(v: DependencyModel) -> JsonModel {
        JsonModel::Object(
            seq![
                ("file"@, JsonModel::Text(v.file)),
                ("kind"@, JsonModel::Text(v.kind)),
                ("line"@, JsonModel::Number(v.line as nat)),
            ],
        )
    }

    fn to_json(&self) -> (r: Json) {
        let mut m = no_members();
        put(&mut m, "file", text(self.file.as_str()));
        put(&mut m, "kind", text(self.kind));
        put(&mut m, "line", number(self.line));
        assert(member_models(m@) =~= Self::json_of(self@)->Object_0);
        object(m)
    }
}

/// Dependencies are sorted by file, and by line within one.
impl Sortable for DependencyEntry {
    open spec fn at_most(a: DependencyModel, b: DependencyModel) -> bool {
        if a.file == b.file {
            a.line <= b.line
        } else {
            text_le(a.file, b.file)
        }
    }

    proof fn lemma_total(a: DependencyModel, b: DependencyModel) {
        lemma_text_le_total(a.file, b.file);
    }

    proof fn lemma_transitive(a: DependencyModel, b: DependencyModel, c: DependencyModel) {
        if a.file != b.file && b.file != c.file {
            lemma_text_le_transitive(a.file, b.file, c.file);
            lemma_text_le_total(a.file, b.file);
        }
    }

    fn precedes(&self, other: &Self) -> (r: bool) {
        if same_text(self.file.as_str(), other.file.as_str()) {
            self.line <= other.line
        } else {
            text_at_most(self.file.as_str(), other.file.as_str())
        }
    }
}

/// The rows of a file's includes.
pub open spec fn dependency_rows(deps: Seq<IncludeModel>) -> Seq<DependencyModel> {
    deps.map_values(
        |d: IncludeModel|
            DependencyModel { file: d.path, kind: edge_kind_name(EdgeKind::Includes), line: d.line },
    )
}

/// The answer to a request for the dependencies of a file.
pub open spec fn dependencies_reply(
    file: Seq<char>,
    deps: Seq<IncludeModel>,
    limit: Option<u32>,
    offset: Option<u32>,
    max_bytes: usize,
) -> ReplyModel {
    if file.len() == 0 {
        failure("'file' is required"@)
    } else {
        page_reply::<DependencyEntry>(
            stable_sorted::<DependencyEntry>(dependency_rows(deps)),
            resolved_offset(offset),
            resolved_limit(limit, 100, MAX_PAGE_LIMIT),
            max_bytes,
        )
    }
}

/// Answers a request for the dependencies of a file, where `deps` are its
/// includes. A file that the graph does not know has an empty page.
pub fn get_dependencies(
    file: &str,
    deps: Vec<IncludeEntry>,
    limit: Option<u32>,
    offset: Option<u32>,
    max_bytes: usize,
) -> (r: ToolReply)
    ensures
        r@ == dependencies_reply(file@, views(deps@), limit, offset, max_bytes),
{
    if file.is_empty() {
        return tool_error("'file' is required");
    }
    let mut rows: Vec<DependencyEntry> = Vec::new();
    let mut i: usize = 0;
    while i < deps.len()
        invariant
            i <= deps@.len(),
            rows@.len() == i,
            forall|k: int|
                0 <= k < i ==> #[trigger] rows@[k]@ == dependency_rows(views(deps@))[k],
        decreases deps@.len() - i,
    {
        rows.push(
            DependencyEntry {
                file: deps[i].path.clone(),
                kind: edge_kind_str(EdgeKind::Includes),
                line: deps[i].line,
            },
        );
        i = i + 1;
    }
    assert(views(rows@) =~= dependency_rows(views(deps@)));
    reply_with_page(
        sort(rows),
        resolve_offset(offset),
        resolve_limit(limit, 100, MAX_PAGE_LIMIT),
        max_bytes,
    )
}

// ----- laws -----

/// Along calls, what is nearer comes first, on every page.
pub proof fn lemma_nearer_calls_first(chains: Seq<CallChainModel>)
    ensures
        forall|i: int, j: int|
            0 <= i < j < stable_sorted::<CallChain>(chains).len() ==> (#[trigger] stable_sorted::<
                CallChain,
            >(chains)[i]).depth <= (#[trigger] stable_sorted::<CallChain>(chains)[j]).depth,
        stable_sorted::<CallChain>(chains).to_multiset() == chains.to_multiset(),
{
    crate::sort::lemma_stable_sorted_in_order::<CallChain>(chains);
    let s = stable_sorted::<CallChain>(chains);
    assert forall|i: int, j: int| 0 <= i < j < s.len() implies (#[trigger] s[i]).depth <= (
    #[trigger] s[j]).depth by {
        assert(CallChain::at_most(s[i], s[j]));
    }
}

/// The chains of all pages of a walk along calls are all that it reached, each
/// once, the nearest first and then by id, where the size leaves room for them;
/// and every page says how many there are and what its limit was.
pub proof fn lemma_call_pages_cover(
    chains: Seq<CallChainModel>,
    offset: u32,
    limit: Option<u32>,
    max_bytes: usize,
)
    requires
        chains.len() <= u32::MAX,
        cost(jsons::<CallChain>(stable_sorted::<CallChain>(chains))) <= record_budget(
            max_bytes as nat,
        ),
    ensures
        ({
            let resolved = resolved_limit(limit, 100, MAX_PAGE_LIMIT);
            let sorted = stable_sorted::<CallChain>(chains);
            let all = all_pages::<CallChain>(sorted, 0, resolved, max_bytes);
            let page = page_of::<CallChain>(sorted, offset, resolved, max_bytes);
            &&& all == sorted
            &&& all.to_multiset() == chains.to_multiset()
            &&& in_order::<CallChain>(all)
            &&& page.total == chains.len()
            &&& page.limit == resolved
            &&& offset >= chains.len() ==> page.results.len() == 0
        }),
{
    let resolved = resolved_limit(limit, 100, MAX_PAGE_LIMIT);
    crate::sort::lemma_stable_sorted_in_order::<CallChain>(chains);
    lemma_all_pages_cover::<CallChain>(
        stable_sorted::<CallChain>(chains),
        offset,
        resolved,
        max_bytes,
    );
}

} // verus!
