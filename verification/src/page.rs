//! Pages of a list, cut by count and by size.

use crate::json::{
    array_of, escaped, escaped_char, jsons, no_members, number, number_or_null, object,
    optional_number, put, quoted, render, render_elements, render_members, Json, JsonModel, ToJson,
};
use crate::reply::{success, tool_success_json, ReplyModel, ToolReply};
use crate::sort::views;
use crate::text::{
    decimal, lemma_decimal_ascii, lemma_decimal_len, lemma_size_ascii, lemma_size_concat, pow10, size,
};
use vstd::math::min;
use vstd::prelude::*;
use vstd::utf8::is_ascii_chars;

verus! {

/// Bytes set aside for the envelope of a page: its fixed text and numbers take
/// about a hundred.
pub const ENVELOPE_OVERHEAD_BYTES: usize = 512;

/// A size limit that is none.
pub const NO_BYTE_BUDGET: usize = usize::MAX;

/// The largest number of records on a page.
pub const MAX_PAGE_LIMIT: u32 = 1000;

/// A page of a list.
///
/// `total` counts the whole list. `truncated` says that records were left out
/// for size alone, and `next_offset` then says where the next page begins. The
/// members are written in the order in which they stand here, all of them
/// always.
pub struct Page<T> {
    pub results: Vec<T>,
    pub total: u32,
    pub offset: u32,
    pub limit: u32,
    pub truncated: bool,
    pub next_offset: Option<u32>,
}

/// What a [`Page`] stands for.
pub struct PageModel<V> {
    pub results: Seq<V>,
    pub total: u32,
    pub offset: u32,
    pub limit: u32,
    pub truncated: bool,
    pub next_offset: Option<u32>,
}

impl<T: View> View for Page<T> {
    type V = PageModel<T::V>;

    open spec fn view(&self) -> PageModel<T::V> {
        PageModel {
            results: views(self.results@),
            total: self.total,
            offset: self.offset,
            limit: self.limit,
            truncated: self.truncated,
            next_offset: self.next_offset,
        }
    }
}

impl<T: ToJson> ToJson for Page<T> {
    open spec fn json_of(v: PageModel<T::V>) -> JsonModel {
        page_json(
            jsons::<T>(v.results),
            v.total,
            v.offset,
            v.limit,
            v.truncated,
            v.next_offset,
        )
    }

    fn to_json(&self) -> (r: Json) {
        object(self.members())
    }
}

impl<T: ToJson> Page<T> {
    /// The members of the page's JSON.
    pub fn members(&self) -> (r: Vec<crate::json::Member>)
        ensures
            crate::json::member_models(r@) == page_members(
                jsons::<T>(views(self.results@)),
                self.total,
                self.offset,
                self.limit,
                self.truncated,
                self.next_offset,
            ),
    {
        let mut m = no_members();
        put(&mut m, "results", array_of(&self.results));
        put(&mut m, "total", number(self.total));
        put(&mut m, "offset", number(self.offset));
        put(&mut m, "limit", number(self.limit));
        put(&mut m, "truncated", Json::Bool(self.truncated));
        put(&mut m, "next_offset", optional_number(self.next_offset));
        m
    }
}

/// The members of a page's JSON, in their order.
pub open spec fn page_members(
    results: Seq<JsonModel>,
    total: u32,
    offset: u32,
    limit: u32,
    truncated: bool,
    next_offset: Option<u32>,
) -> Seq<(Seq<char>, JsonModel)> {
    seq![
        ("results"@, JsonModel::Array(results)),
        ("total"@, JsonModel::Number(total as nat)),
        ("offset"@, JsonModel::Number(offset as nat)),
        ("limit"@, JsonModel::Number(limit as nat)),
        ("truncated"@, JsonModel::Bool(truncated)),
        ("next_offset"@, number_or_null(next_offset)),
    ]
}

/// The JSON of a page.
pub open spec fn page_json(
    results: Seq<JsonModel>,
    total: u32,
    offset: u32,
    limit: u32,
    truncated: bool,
    next_offset: Option<u32>,
) -> JsonModel {
    JsonModel::Object(page_members(results, total, offset, limit, truncated, next_offset))
}

// ----- limits -----

/// The limit that a request means: the default where it is absent or zero, and
/// never more than the largest.
pub open spec fn resolved_limit(limit: Option<u32>, default: u32, largest: u32) -> u32 {
    match limit {
        Some(n) => if n == 0 {
            min(default as int, largest as int) as u32
        } else {
            min(n as int, largest as int) as u32
        },
        None => min(default as int, largest as int) as u32,
    }
}

/// The limit that a request means.
pub fn resolve_limit(limit: Option<u32>, default: u32, largest: u32) -> (r: u32)
    ensures
        r == resolved_limit(limit, default, largest),
{
    let n: u32 = match limit {
        Some(n) => if n != 0 {
            n
        } else {
            default
        },
        None => default,
    };
    if n < largest {
        n
    } else {
        largest
    }
}

/// The offset that a request means: zero where it is absent.
pub open spec fn resolved_offset(offset: Option<u32>) -> u32 {
    match offset {
        Some(n) => n,
        None => 0,
    }
}

/// The offset that a request means.
pub fn resolve_offset(offset: Option<u32>) -> (r: u32)
    ensures
        r == resolved_offset(offset),
{
    match offset {
        Some(n) => n,
        None => 0,
    }
}

// ----- cutting by size -----

/// What a record costs: its JSON text and a comma.
pub open spec fn record_cost(j: JsonModel) -> nat {
    size(render(j)) + 1
}

/// What records cost together.
pub open spec fn cost(rows: Seq<JsonModel>) -> nat
    decreases rows.len(),
{
    if rows.len() == 0 {
        0
    } else {
        cost(rows.drop_last()) + record_cost(rows.last())
    }
}

/// What the records of a page may cost.
pub open spec fn record_budget(max_bytes: nat) -> nat {
    if max_bytes >= ENVELOPE_OVERHEAD_BYTES {
        (max_bytes - ENVELOPE_OVERHEAD_BYTES) as nat
    } else {
        0
    }
}

/// How many of the first `limit` records, from the `n`-th on, are kept one
/// after the other as long as all of them together stay within the budget.
pub open spec fn kept_from(rows: Seq<JsonModel>, n: nat, limit: nat, budget: nat) -> nat
    decreases rows.len() - n,
{
    if n < rows.len() && n < limit && cost(rows.take(n as int + 1)) <= budget {
        kept_from(rows, n + 1, limit, budget)
    } else {
        n
    }
}

/// How many records from the front make a page: as many as the limit and the
/// budget allow.
pub open spec fn kept_count(rows: Seq<JsonModel>, limit: nat, budget: nat) -> nat {
    kept_from(rows, 0, limit, budget)
}

/// What is left of a list behind `offset`.
pub open spec fn behind<V>(rows: Seq<V>, offset: u32) -> Seq<V> {
    if offset <= rows.len() {
        rows.skip(offset as int)
    } else {
        seq![]
    }
}

/// The page of a list at `offset`, with at most `limit` records, whose text is
/// held to `max_bytes`.
pub open spec fn page_of<T: ToJson>(
    rows: Seq<T::V>,
    offset: u32,
    limit: u32,
    max_bytes: usize,
) -> PageModel<T::V> {
    let rest = behind(rows, offset);
    let k = kept_count(jsons::<T>(rest), limit as nat, record_budget(max_bytes as nat));
    let truncated = k < limit && k < rest.len();
    PageModel {
        results: rest.take(k as int),
        total: rows.len() as u32,
        offset,
        limit,
        truncated,
        next_offset: if truncated {
            Some(min(offset + k, u32::MAX as int) as u32)
        } else {
            None
        },
    }
}

/// The kept records fit the limit and the budget, and there is no room for one
/// more.
pub proof fn lemma_kept_count(rows: Seq<JsonModel>, limit: nat, budget: nat)
    ensures
        kept_count(rows, limit, budget) <= rows.len(),
        kept_count(rows, limit, budget) <= limit,
        cost(rows.take(kept_count(rows, limit, budget) as int)) <= budget,
        kept_count(rows, limit, budget) < rows.len() && kept_count(rows, limit, budget) < limit
            ==> cost(rows.take(kept_count(rows, limit, budget) as int + 1)) > budget,
{
    assert(rows.take(0) =~= seq![]);
    lemma_kept_from(rows, 0, limit, budget);
}

proof fn lemma_kept_from(rows: Seq<JsonModel>, n: nat, limit: nat, budget: nat)
    requires
        n <= rows.len(),
        n <= limit,
        cost(rows.take(n as int)) <= budget,
    ensures
        n <= kept_from(rows, n, limit, budget) <= rows.len(),
        kept_from(rows, n, limit, budget) <= limit,
        cost(rows.take(kept_from(rows, n, limit, budget) as int)) <= budget,
        kept_from(rows, n, limit, budget) < rows.len() && kept_from(rows, n, limit, budget) < limit
            ==> cost(rows.take(kept_from(rows, n, limit, budget) as int + 1)) > budget,
    decreases rows.len() - n,
{
    if n < rows.len() && n < limit && cost(rows.take(n as int + 1)) <= budget {
        lemma_kept_from(rows, n + 1, limit, budget);
    }
}

/// How many records from `start` on make a page: as many as the limit and the
/// budget allow.
fn count_kept<T: ToJson>(items: &Vec<T>, start: usize, limit: usize, max_bytes: usize) -> (r: usize)
    requires
        start <= items@.len(),
    ensures
        r == kept_count(
            jsons::<T>(views(items@).skip(start as int)),
            limit as nat,
            record_budget(max_bytes as nat),
        ),
        start + r <= items@.len(),
        r <= limit,
{
    let budget: usize = max_bytes.saturating_sub(ENVELOPE_OVERHEAD_BYTES);
    let ghost rows = jsons::<T>(views(items@).skip(start as int));
    assert(rows.take(0) =~= seq![]);
    let mut kept: usize = 0;
    let mut running: usize = 0;
    while kept < items.len() - start && kept < limit
        invariant
            start <= items@.len(),
            kept <= items@.len() - start,
            kept <= limit,
            rows == jsons::<T>(views(items@).skip(start as int)),
            rows.len() == items@.len() - start,
            budget == record_budget(max_bytes as nat),
            budget <= usize::MAX - ENVELOPE_OVERHEAD_BYTES,
            running == cost(rows.take(kept as int)),
            running <= budget,
            kept_count(rows, limit as nat, budget as nat) == kept_from(
                rows,
                kept as nat,
                limit as nat,
                budget as nat,
            ),
        decreases items@.len() - start - kept,
    {
        let len: usize = items[start + kept].to_json().text_size();
        proof {
            let t = rows.take(kept as int + 1);
            assert(t.drop_last() =~= rows.take(kept as int));
            assert(t.last() == T::json_of(items@[start + kept]@));
            assert(cost(t) == running + len + 1);
        }
        let projected: usize = running.saturating_add(len).saturating_add(1);
        if projected > budget {
            return kept;
        }
        running = projected;
        kept = kept + 1;
    }
    kept
}

/// Takes the records of a list from `offset` on, up to `limit`, as long as
/// their texts and commas together stay within `max_bytes` less the envelope.
///
/// Returns the records, their number, whether the size made it stop, and where
/// to go on if so. A first record that is too large for the budget leaves the
/// page empty, with `offset` as the place to go on.
pub fn byte_budget_take<T: ToJson>(items: Vec<T>, offset: u32, limit: u32, max_bytes: usize) -> (r: (
    Vec<T>,
    u32,
    bool,
    Option<u32>,
))
    requires
        limit > 0,
    ensures
        views(r.0@) == page_of::<T>(views(items@), offset, limit, max_bytes).results,
        r.1 == r.0@.len(),
        r.2 == page_of::<T>(views(items@), offset, limit, max_bytes).truncated,
        r.3 == page_of::<T>(views(items@), offset, limit, max_bytes).next_offset,
{
    let start: usize = if (offset as usize) < items.len() {
        offset as usize
    } else {
        items.len()
    };
    let ghost rest = views(items@).skip(start as int);
    assert(rest =~= behind(views(items@), offset));
    let kept: usize = count_kept(&items, start, limit as usize, max_bytes);
    let truncated = kept < limit as usize && kept < items.len() - start;
    let mut items = items;
    items.truncate(start + kept);
    let results = items.split_off(start);
    assert(views(results@) =~= rest.take(kept as int));
    let count: u32 = kept as u32;
    let next_offset: Option<u32> = if truncated {
        Some(offset.saturating_add(count))
    } else {
        None
    };
    (results, count, truncated, next_offset)
}

/// The page that a list of records already sliced to `offset` and `limit` makes
/// of a list of `total` ones, with its text held to `max_bytes`.
///
/// A short list is the end of what there is; only records left out for size
/// make the page a truncated one.
pub open spec fn trimmed_page<T: ToJson>(
    rows: Seq<T::V>,
    total: u32,
    offset: u32,
    limit: u32,
    max_bytes: usize,
) -> PageModel<T::V> {
    let k = kept_count(jsons::<T>(rows), rows.len(), record_budget(max_bytes as nat));
    PageModel {
        results: rows.take(k as int),
        total,
        offset,
        limit,
        truncated: k < rows.len(),
        next_offset: if k < rows.len() {
            Some(min(offset + k as u32, u32::MAX as int) as u32)
        } else {
            None
        },
    }
}

/// The page that a list of records already sliced to `offset` and `limit` makes
/// of a list of `total` ones, with its text held to `max_bytes`.
pub fn trim_page<T: ToJson>(
    rows: Vec<T>,
    total: u32,
    offset: u32,
    limit: u32,
    max_bytes: usize,
) -> (r: Page<T>)
    ensures
        r@ == trimmed_page::<T>(views(rows@), total, offset, limit, max_bytes),
{
    assert(views(rows@).skip(0) =~= views(rows@));
    let kept: usize = count_kept(&rows, 0, rows.len(), max_bytes);
    let truncated = kept < rows.len();
    let mut results = rows;
    results.truncate(kept);
    assert(views(results@) =~= views(rows@).take(kept as int));
    let count: u32 = #[verifier::truncate] (kept as u32);
    let next_offset: Option<u32> = if truncated {
        Some(offset.saturating_add(count))
    } else {
        None
    };
    Page { results, total, offset, limit, truncated, next_offset }
}

/// The page of a list at `offset`, with at most `limit` records, whose text is
/// held to `max_bytes`.
pub fn paginate<T: ToJson>(rows: Vec<T>, offset: u32, limit: u32, max_bytes: usize) -> (r: Page<T>)
    requires
        limit > 0,
    ensures
        r@ == page_of::<T>(views(rows@), offset, limit, max_bytes),
{
    let total: u32 = #[verifier::truncate] (rows.len() as u32);
    let (results, _, truncated, next_offset) = byte_budget_take(rows, offset, limit, max_bytes);
    Page { results, total, offset, limit, truncated, next_offset }
}

/// The answer that holds a page of a list.
pub open spec fn page_reply<T: ToJson>(
    rows: Seq<T::V>,
    offset: u32,
    limit: u32,
    max_bytes: usize,
) -> ReplyModel {
    success(render(Page::<T>::json_of(page_of::<T>(rows, offset, limit, max_bytes))))
}

/// The answer that holds a page of a list.
pub fn reply_with_page<T: ToJson>(rows: Vec<T>, offset: u32, limit: u32, max_bytes: usize) -> (r:
    ToolReply)
    requires
        limit > 0,
    ensures
        r@ == page_reply::<T>(views(rows@), offset, limit, max_bytes),
{
    tool_success_json(&paginate(rows, offset, limit, max_bytes))
}

// ----- counting only -----

/// The answer of a request that asks for the number of records alone: an empty
/// page with limit zero, whatever limit and offset were asked for.
pub open spec fn count_reply(total: u32) -> ReplyModel {
    success(render(page_json(seq![], total, 0, 0, false, None)))
}

/// The answer of a request that asks for the number of records alone.
pub fn reply_with_count(total: u32) -> (r: ToolReply)
    ensures
        r@ == count_reply(total),
{
    let page: Page<Json> = Page {
        results: Vec::new(),
        total,
        offset: 0,
        limit: 0,
        truncated: false,
        next_offset: None,
    };
    assert(jsons::<Json>(views(page.results@)) =~= seq![]);
    tool_success_json(&page)
}

// ----- laws -----

/// A page is a stretch of the list: the records from `offset` on, without a gap.
pub proof fn lemma_page_is_stretch<T: ToJson>(
    rows: Seq<T::V>,
    offset: u32,
    limit: u32,
    max_bytes: usize,
)
    ensures
        ({
            let p = page_of::<T>(rows, offset, limit, max_bytes);
            &&& p.results.len() <= limit
            &&& offset <= rows.len() ==> offset + p.results.len() <= rows.len() && p.results
                == rows.subrange(offset as int, offset + p.results.len())
            &&& offset >= rows.len() ==> p.results.len() == 0 && !p.truncated
            &&& p.truncated <==> p.next_offset is Some
            &&& !p.truncated && offset <= rows.len() ==> p.results.len() == min(
                limit as int,
                rows.len() - offset,
            )
        }),
{
    let rest = behind(rows, offset);
    let js = jsons::<T>(rest);
    let budget = record_budget(max_bytes as nat);
    lemma_kept_count(js, limit as nat, budget);
    let k = kept_count(js, limit as nat, budget) as int;
    if offset <= rows.len() {
        assert(rest.take(k) =~= rows.subrange(offset as int, offset + k));
    }
}

/// A page that was cut for size says where to go on: the next page begins with
/// the first record left out, so nothing is lost and nothing comes twice.
pub proof fn lemma_truncated_page_resumes<T: ToJson>(
    rows: Seq<T::V>,
    offset: u32,
    limit: u32,
    max_bytes: usize,
)
    requires
        rows.len() <= u32::MAX,
        page_of::<T>(rows, offset, limit, max_bytes).truncated,
    ensures
        ({
            let p = page_of::<T>(rows, offset, limit, max_bytes);
            let next = p.next_offset->0;
            &&& p.next_offset is Some
            &&& next == offset + p.results.len()
            &&& next < rows.len()
            &&& behind(rows, offset) == p.results + behind(rows, next)
        }),
{
    lemma_page_is_stretch::<T>(rows, offset, limit, max_bytes);
    let p = page_of::<T>(rows, offset, limit, max_bytes);
    let next = p.next_offset->0;
    assert(behind(rows, offset) =~= p.results + behind(rows, next));
}

/// Pages that were not cut for size partition the list: one page and the page
/// behind it are the records of one longer page, each once, and both report the
/// same total.
pub proof fn lemma_pages_partition<T: ToJson>(
    rows: Seq<T::V>,
    offset: u32,
    limit: u32,
    limit2: u32,
    max_bytes: usize,
)
    requires
        offset + limit <= u32::MAX,
        !page_of::<T>(rows, offset, limit, max_bytes).truncated,
        !page_of::<T>(rows, (offset + limit) as u32, limit2, max_bytes).truncated,
    ensures
        ({
            let p = page_of::<T>(rows, offset, limit, max_bytes);
            let q = page_of::<T>(rows, (offset + limit) as u32, limit2, max_bytes);
            let rest = behind(rows, offset);
            &&& p.results + q.results == rest.take(min(limit + limit2, rest.len() as int))
            &&& p.total == q.total
        }),
{
    let next = (offset + limit) as u32;
    lemma_page_is_stretch::<T>(rows, offset, limit, max_bytes);
    lemma_page_is_stretch::<T>(rows, next, limit2, max_bytes);
    let p = page_of::<T>(rows, offset, limit, max_bytes);
    let q = page_of::<T>(rows, next, limit2, max_bytes);
    let rest = behind(rows, offset);
    assert(p.results + q.results =~= rest.take(min(limit + limit2, rest.len() as int)));
}

/// The records of all pages of a list from an offset on, each page beginning
/// where the limit of the one before it ends.
pub open spec fn all_pages<T: ToJson>(
    rows: Seq<T::V>,
    offset: nat,
    limit: u32,
    max_bytes: usize,
) -> Seq<T::V>
    decreases
            (if offset < rows.len() {
                rows.len() - offset
            } else {
                0int
            }),
{
    if offset >= rows.len() || limit == 0 {
        seq![]
    } else {
        page_of::<T>(rows, offset as u32, limit, max_bytes).results + all_pages::<T>(
            rows,
            offset + limit as nat,
            limit,
            max_bytes,
        )
    }
}

/// All pages put together are the whole list, with nothing missing and nothing
/// twice, where the size leaves room for its records; and every page says how
/// long the list is and what its limit was.
pub proof fn lemma_all_pages_cover<T: ToJson>(
    rows: Seq<T::V>,
    offset: u32,
    limit: u32,
    max_bytes: usize,
)
    requires
        limit > 0,
        rows.len() <= u32::MAX,
        cost(jsons::<T>(rows)) <= record_budget(max_bytes as nat),
    ensures
        all_pages::<T>(rows, 0, limit, max_bytes) == rows,
        page_of::<T>(rows, offset, limit, max_bytes).total == rows.len(),
        page_of::<T>(rows, offset, limit, max_bytes).limit == limit,
        !page_of::<T>(rows, offset, limit, max_bytes).truncated,
        offset >= rows.len() ==> page_of::<T>(rows, offset, limit, max_bytes).results.len() == 0,
{
    lemma_pages_cover_rest::<T>(rows, 0, limit, max_bytes);
    assert(rows.skip(0) =~= rows);
    lemma_page_is_stretch::<T>(rows, offset, limit, max_bytes);
    lemma_rest_has_room::<T>(rows, offset, limit, max_bytes);
}

proof fn lemma_cost_concat(a: Seq<JsonModel>, b: Seq<JsonModel>)
    ensures
        cost(a + b) == cost(a) + cost(b),
    decreases b.len(),
{
    if b.len() == 0 {
        assert(a + b =~= a);
    } else {
        lemma_cost_concat(a, b.drop_last());
        assert((a + b).drop_last() =~= a + b.drop_last());
    }
}

/// Fewer records cost no more.
pub proof fn lemma_filter_costs_less<T: ToJson>(rows: Seq<T::V>, pass: spec_fn(T::V) -> bool)
    ensures
        cost(jsons::<T>(rows.filter(pass))) <= cost(jsons::<T>(rows)),
    decreases rows.len(),
{
    reveal(Seq::filter);
    if rows.len() > 0 {
        let t = rows.drop_last();
        lemma_filter_costs_less::<T>(t, pass);
        assert(jsons::<T>(rows).drop_last() =~= jsons::<T>(t));
        if pass(rows.last()) {
            let kept = t.filter(pass);
            assert(jsons::<T>(kept.push(rows.last())).drop_last() =~= jsons::<T>(kept));
        }
    }
}

/// No page is cut for size where the whole list fits.
pub proof fn lemma_rest_has_room<T: ToJson>(
    rows: Seq<T::V>,
    offset: u32,
    limit: u32,
    max_bytes: usize,
)
    requires
        cost(jsons::<T>(rows)) <= record_budget(max_bytes as nat),
    ensures
        !page_of::<T>(rows, offset, limit, max_bytes).truncated,
{
    let js = jsons::<T>(rows);
    let rest = jsons::<T>(behind(rows, offset));
    if offset <= rows.len() {
        let front = js.take(offset as int);
        assert(js =~= front + rest);
        lemma_cost_concat(front, rest);
    } else {
        assert(rest =~= seq![]);
    }
    lemma_page_with_room::<T>(rows, offset, limit, max_bytes);
}

proof fn lemma_pages_cover_rest<T: ToJson>(
    rows: Seq<T::V>,
    offset: nat,
    limit: u32,
    max_bytes: usize,
)
    requires
        limit > 0,
        rows.len() <= u32::MAX,
        cost(jsons::<T>(rows)) <= record_budget(max_bytes as nat),
    ensures
        offset <= rows.len() ==> all_pages::<T>(rows, offset, limit, max_bytes) == rows.skip(
            offset as int,
        ),
        offset >= rows.len() ==> all_pages::<T>(rows, offset, limit, max_bytes).len() == 0,
    decreases
            (if offset < rows.len() {
                rows.len() - offset
            } else {
                0int
            }),
{
    if offset >= rows.len() {
        if offset == rows.len() {
            assert(all_pages::<T>(rows, offset, limit, max_bytes) =~= rows.skip(offset as int));
        }
    } else {
        let at = offset as u32;
        let next = offset + limit as nat;
        lemma_rest_has_room::<T>(rows, at, limit, max_bytes);
        lemma_page_is_stretch::<T>(rows, at, limit, max_bytes);
        lemma_pages_cover_rest::<T>(rows, next, limit, max_bytes);
        let p = page_of::<T>(rows, at, limit, max_bytes);
        let rest = all_pages::<T>(rows, next, limit, max_bytes);
        assert(p.results + rest =~= rows.skip(offset as int));
    }
}

/// A page is not cut for size where all its records fit.
pub proof fn lemma_page_with_room<T: ToJson>(
    rows: Seq<T::V>,
    offset: u32,
    limit: u32,
    max_bytes: usize,
)
    requires
        cost(jsons::<T>(behind(rows, offset))) <= record_budget(max_bytes as nat),
    ensures
        !page_of::<T>(rows, offset, limit, max_bytes).truncated,
{
    let js = jsons::<T>(behind(rows, offset));
    let budget = record_budget(max_bytes as nat);
    lemma_kept_count(js, limit as nat, budget);
    let k = kept_count(js, limit as nat, budget);
    if k < js.len() {
        lemma_cost_grows(js, k + 1);
    }
}

/// Records from the front cost no more than all of them.
pub proof fn lemma_cost_grows(rows: Seq<JsonModel>, n: nat)
    requires
        n <= rows.len(),
    ensures
        cost(rows.take(n as int)) <= cost(rows),
    decreases rows.len() - n,
{
    if n == rows.len() {
        assert(rows.take(n as int) =~= rows);
    } else {
        lemma_cost_grows(rows, n + 1);
        assert(rows.take(n as int + 1).drop_last() =~= rows.take(n as int));
    }
}

proof fn lemma_escaped_plain(s: Seq<char>)
    requires
        forall|i: int| 0 <= i < s.len() ==> escaped_char(#[trigger] s[i]) == seq![s[i]],
    ensures
        escaped(s) == s,
    decreases s.len(),
{
    if s.len() > 0 {
        let t = s.drop_last();
        assert forall|i: int| 0 <= i < t.len() implies escaped_char(#[trigger] t[i]) == seq![t[i]] by {
            assert(t[i] == s[i]);
        }
        lemma_escaped_plain(t);
        assert(escaped_char(s[s.len() - 1]) == seq![s[s.len() - 1]]);
        assert(t + seq![s.last()] =~= s);
    } else {
        assert(escaped(s) =~= s);
    }
}

proof fn lemma_escaped_size(s: Seq<char>)
    ensures
        size(escaped(s)) <= 6 * s.len(),
    decreases s.len(),
{
    if s.len() > 0 {
        let c = s.last();
        let e = escaped_char(c);
        lemma_escaped_size(s.drop_last());
        lemma_size_concat(escaped(s.drop_last()), e);
        if e.len() == 1 && e[0] == c {
            assert(e.drop_first() =~= seq![]);
            assert(size(e.drop_first()) == 0);
            assert(size(e) <= 4);
        } else {
            assert(is_ascii_chars(e));
            lemma_size_ascii(e);
        }
    }
}

/// A text in JSON takes at most six bytes for each character, and the quotes.
pub proof fn lemma_quoted_size(s: Seq<char>)
    ensures
        size(quoted(s)) <= 6 * s.len() + 2,
{
    lemma_escaped_size(s);
    let q = seq!['"'];
    assert(is_ascii_chars(q));
    lemma_size_ascii(q);
    lemma_size_concat(q, escaped(s));
    lemma_size_concat(q + escaped(s), q);
}

/// A member name without characters to escape is written between quotes.
pub proof fn lemma_key_size(key: Seq<char>)
    requires
        is_ascii_chars(key),
        forall|i: int| 0 <= i < key.len() ==> escaped_char(#[trigger] key[i]) == seq![key[i]],
    ensures
        size(quoted(key)) == key.len() + 2,
{
    lemma_escaped_plain(key);
    let q = quoted(key);
    assert(q.len() == key.len() + 2);
    assert(is_ascii_chars(q)) by {
        assert forall|i: int| 0 <= i < q.len() implies '\0' <= #[trigger] q[i] <= '\u{7f}' by {
            if 0 < i < q.len() - 1 {
                assert(q[i] == key[i - 1]);
            }
        }
    }
    lemma_size_ascii(q);
}

proof fn lemma_number_size(n: u32)
    ensures
        1 <= size(render(JsonModel::Number(n as nat))) <= 10,
{
    assert(pow10(10) > u32::MAX) by {
        reveal_with_fuel(pow10, 11);
    }
    lemma_decimal_len(n as nat, 10);
    lemma_decimal_ascii(n as nat);
    lemma_size_ascii(decimal(n as nat));
}

/// The elements of an array take what they cost, less the comma that the last
/// one does not have.
pub proof fn lemma_elements_size(v: Seq<JsonModel>, n: nat)
    requires
        n <= v.len(),
    ensures
        n == 0 ==> size(render_elements(v, n)) == 0,
        n > 0 ==> size(render_elements(v, n)) + 1 == cost(v.take(n as int)),
    decreases n,
{
    if n > 0 {
        lemma_elements_size(v, (n - 1) as nat);
        let t = v.take(n as int);
        assert(t.drop_last() =~= v.take(n - 1));
        assert(t.last() == v[n - 1]);
        assert(cost(t) == cost(v.take(n - 1)) + record_cost(v[n - 1]));
        if n == 1 {
            assert(v.take(0) =~= seq![]);
            assert(cost(v.take(0)) == 0);
        } else {
            reveal_strlit(",");
            lemma_size_ascii(","@);
            let a = render_elements(v, (n - 1) as nat);
            lemma_size_concat(a, ","@);
            lemma_size_concat(a + ","@, render(v[n - 1]));
        }
    }
}

/// A member of an object adds its name, a colon and its value, and a comma where
/// it is not the first.
pub proof fn lemma_members_step(v: Seq<(Seq<char>, JsonModel)>, n: nat)
    requires
        1 <= n <= v.len(),
    ensures
        size(render_members(v, n)) == size(render_members(v, (n - 1) as nat)) + size(
            quoted(v[n - 1].0),
        ) + 1 + size(render(v[n - 1].1)) + if n == 1 {
            0int
        } else {
            1int
        },
{
    reveal_strlit(",");
    reveal_strlit(":");
    lemma_size_ascii(","@);
    lemma_size_ascii(":"@);
    let key = quoted(v[n - 1].0);
    let value = render(v[n - 1].1);
    lemma_size_concat(key, ":"@);
    lemma_size_concat(key + ":"@, value);
    let a = render_members(v, (n - 1) as nat);
    lemma_size_concat(a, ","@);
    lemma_size_concat(a + ","@, key + ":"@ + value);
    if n == 1 {
        assert(a =~= seq![]);
    }
}

/// The envelope of a page takes at most 115 bytes around its records.
pub proof fn lemma_envelope_size(
    results: Seq<JsonModel>,
    total: u32,
    offset: u32,
    limit: u32,
    truncated: bool,
    next_offset: Option<u32>,
)
    ensures
        size(render(page_json(results, total, offset, limit, truncated, next_offset))) <= 115 + cost(
            results,
        ),
{
    let m = page_members(results, total, offset, limit, truncated, next_offset);
    reveal_strlit("results");
    reveal_strlit("total");
    reveal_strlit("offset");
    reveal_strlit("limit");
    reveal_strlit("truncated");
    reveal_strlit("next_offset");
    reveal_strlit("{");
    reveal_strlit("}");
    reveal_strlit("[");
    reveal_strlit("]");
    reveal_strlit("true");
    reveal_strlit("false");
    reveal_strlit("null");
    lemma_size_ascii("{"@);
    lemma_size_ascii("}"@);
    lemma_size_ascii("["@);
    lemma_size_ascii("]"@);
    lemma_size_ascii("true"@);
    lemma_size_ascii("false"@);
    lemma_size_ascii("null"@);
    lemma_key_size("results"@);
    lemma_key_size("total"@);
    lemma_key_size("offset"@);
    lemma_key_size("limit"@);
    lemma_key_size("truncated"@);
    lemma_key_size("next_offset"@);
    lemma_number_size(total);
    lemma_number_size(offset);
    lemma_number_size(limit);
    if let Some(n) = next_offset {
        lemma_number_size(n);
    }
    lemma_elements_size(results, results.len());
    assert(results.take(results.len() as int) =~= results);
    let elements = render_elements(results, results.len());
    lemma_size_concat("["@, elements);
    lemma_size_concat("["@ + elements, "]"@);
    assert(size(render(m[0].1)) <= 2 + cost(results));
    lemma_members_step(m, 1);
    lemma_members_step(m, 2);
    lemma_members_step(m, 3);
    lemma_members_step(m, 4);
    lemma_members_step(m, 5);
    lemma_members_step(m, 6);
    assert(size(render_members(m, 0)) == 0);
    let body = render_members(m, 6);
    lemma_size_concat("{"@, body);
    lemma_size_concat("{"@ + body, "}"@);
}

/// The text of a page stays within `max_bytes`, or the page is empty, and then
/// takes at most 115 bytes. No more are ever taken beside what the records may
/// cost.
pub proof fn lemma_page_fits<T: ToJson>(
    rows: Seq<T::V>,
    offset: u32,
    limit: u32,
    max_bytes: usize,
)
    ensures
        ({
            let p = page_of::<T>(rows, offset, limit, max_bytes);
            let bytes = size(render(Page::<T>::json_of(p)));
            &&& p.results.len() > 0 ==> bytes <= max_bytes
            &&& p.results.len() == 0 ==> bytes <= 115
            &&& bytes <= 115 + record_budget(max_bytes as nat)
        }),
{
    let p = page_of::<T>(rows, offset, limit, max_bytes);
    let rest = behind(rows, offset);
    let js = jsons::<T>(rest);
    let budget = record_budget(max_bytes as nat);
    lemma_kept_count(js, limit as nat, budget);
    let k = kept_count(js, limit as nat, budget) as int;
    let shown = jsons::<T>(p.results);
    assert(shown =~= js.take(k));
    lemma_envelope_size(shown, p.total, p.offset, p.limit, p.truncated, p.next_offset);
    if k == 0 {
        assert(shown =~= seq![]);
    } else {
        assert(shown.len() > 0);
        assert(cost(shown) >= 1);
    }
}

/// The text of a trimmed page stays within `max_bytes`, or the page is empty, and
/// then takes at most 115 bytes.
pub proof fn lemma_trimmed_page_fits<T: ToJson>(
    rows: Seq<T::V>,
    total: u32,
    offset: u32,
    limit: u32,
    max_bytes: usize,
)
    ensures
        ({
            let p = trimmed_page::<T>(rows, total, offset, limit, max_bytes);
            let bytes = size(render(Page::<T>::json_of(p)));
            &&& p.results.len() > 0 ==> bytes <= max_bytes
            &&& p.results.len() == 0 ==> bytes <= 115
        }),
{
    let p = trimmed_page::<T>(rows, total, offset, limit, max_bytes);
    let js = jsons::<T>(rows);
    let budget = record_budget(max_bytes as nat);
    lemma_kept_count(js, rows.len(), budget);
    let k = kept_count(js, rows.len(), budget) as int;
    let shown = jsons::<T>(p.results);
    assert(shown =~= js.take(k));
    lemma_envelope_size(shown, p.total, p.offset, p.limit, p.truncated, p.next_offset);
    if k == 0 {
        assert(shown =~= seq![]);
    } else {
        assert(shown.len() > 0);
        assert(cost(shown) >= 1);
    }
}

/// A count takes less than a kilobyte, whatever was counted.
pub proof fn lemma_count_is_small(total: u32)
    ensures
        size(count_reply(total).text) < 1024,
{
    lemma_envelope_size(seq![], total, 0, 0, false, None);
}

} // verus!
