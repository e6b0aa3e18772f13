//! What a request for couplings is answered.

use super::{
    how_many, is_page_at, lemma_page_is_at, lemma_page_object, lemma_reply_shows_page, page_object,
    shows_page, start, word,
};
use crate::handlers::structure::{
    coupling_pages, coupling_reply, coupling_row, sorted_couplings, CouplingEntry, CouplingModel,
};
use crate::json::{render, JsonModel, ToJson};
use crate::page::PageModel;
use crate::reply::ReplyModel;
use crate::sort::{lemma_stable_sorted_in_order, Sortable};
use crate::text::{size, text_le};
use vstd::prelude::*;

verus! {

/// Whether records list couplings: each file with its count once, the largest
/// count first, and by file where the count is the same.
pub open spec fn list_couplings(rows: Seq<CouplingModel>, counts: Seq<(Seq<char>, u32)>) -> bool {
    &&& rows.len() == counts.len()
    &&& rows.to_multiset() == counts.map_values(
        |c: (Seq<char>, u32)| CouplingModel { file: c.0, count: c.1 },
    ).to_multiset()
    &&& forall|i: int, j: int|
        0 <= i < j < rows.len() ==> {
            ||| (#[trigger] rows[i]).count > (#[trigger] rows[j]).count
            ||| rows[i].count == rows[j].count && text_le(rows[i].file, rows[j].file)
        }
}

/// Whether an answer shows couplings in both directions from `offset` on. The
/// outgoing ones are left out where the incoming ones take up the size; the
/// answer says so, and how many there are.
pub open spec fn shows_both(
    r: ReplyModel,
    incoming: Seq<CouplingModel>,
    outgoing: Seq<CouplingModel>,
    offset: int,
    limit: int,
    max_bytes: usize,
) -> bool {
    exists|a: PageModel<CouplingModel>, b: PageModel<CouplingModel>|
        #![trigger page_object::<CouplingEntry>(a), page_object::<CouplingEntry>(b)]
        !r.is_error && r.text == render(
            JsonModel::Object(
                seq![
                    ("incoming"@, page_object::<CouplingEntry>(a)),
                    ("outgoing"@, page_object::<CouplingEntry>(b)),
                ],
            ),
        ) && is_page_at(a, incoming, offset, limit) && if size(
            render(page_object::<CouplingEntry>(a)),
        ) + 48 < max_bytes {
            is_page_at(b, outgoing, offset, limit)
        } else {
            b.results.len() == 0 && b.truncated && b.total == outgoing.len() && b.offset == offset
                && b.limit == limit
        }
}

/// A request for couplings is answered with the page of those asked for, from
/// the offset asked for: outgoing ones where nothing else is said, incoming ones,
/// or both. Without a limit there are fifty on a page.
pub proof fn lemma_couplings_from_the_offset(
    file: Seq<char>,
    direction: Option<&str>,
    offset: Option<u32>,
    limit: Option<u32>,
    incoming: Seq<(Seq<char>, u32)>,
    outgoing: Seq<(Seq<char>, u32)>,
    max_bytes: usize,
)
    requires
        file.len() > 0,
        incoming.len() <= u32::MAX,
        outgoing.len() <= u32::MAX,
    ensures
        ({
            let r = coupling_reply(file, direction, offset, limit, incoming, outgoing, max_bytes);
            let o = start(offset);
            let n = how_many(limit, 50);
            let d = word(direction);
            &&& d.len() == 0 || d == "outgoing"@ ==> exists|rows: Seq<CouplingModel>|
                #[trigger] list_couplings(rows, outgoing) && shows_page::<CouplingEntry>(
                    r,
                    rows,
                    o,
                    n,
                    max_bytes,
                )
            &&& d == "incoming"@ ==> exists|rows: Seq<CouplingModel>| #[trigger]
                list_couplings(rows, incoming) && shows_page::<CouplingEntry>(
                    r,
                    rows,
                    o,
                    n,
                    max_bytes,
                )
            &&& d == "both"@ ==> exists|a: Seq<CouplingModel>, b: Seq<CouplingModel>|
                #[trigger] list_couplings(a, incoming) && #[trigger] list_couplings(b, outgoing)
                    && shows_both(r, a, b, o, n, max_bytes)
        }),
{
    let r = coupling_reply(file, direction, offset, limit, incoming, outgoing, max_bytes);
    let o = start(offset) as u32;
    let n = how_many(limit, 50) as u32;
    let d = word(direction);
    let a = sorted_couplings(incoming);
    let b = sorted_couplings(outgoing);
    lemma_lists_couplings(incoming);
    lemma_lists_couplings(outgoing);
    lemma_directions_differ();
    assert(d.len() == 0 ==> d =~= Seq::<char>::empty());
    if d.len() == 0 || d == "outgoing"@ {
        lemma_reply_shows_page::<CouplingEntry>(b, o, n, max_bytes);
    } else if d == "incoming"@ {
        lemma_reply_shows_page::<CouplingEntry>(a, o, n, max_bytes);
    } else if d == "both"@ {
        let pages = coupling_pages(a, b, o, n, max_bytes);
        lemma_page_is_at::<CouplingEntry>(a, o, n, max_bytes);
        lemma_page_object::<CouplingEntry>(pages.incoming);
        lemma_page_object::<CouplingEntry>(pages.outgoing);
        let spent = size(render(page_object::<CouplingEntry>(pages.incoming)));
        if spent + 48 < max_bytes {
            lemma_page_is_at::<CouplingEntry>(b, o, n, (max_bytes - spent - 48) as usize);
        }
        assert(shows_both(r, a, b, o as int, n as int, max_bytes));
    }
}

/// Without a file, or with any other word for the direction, there is no answer
/// but an error that names what is wrong.
pub proof fn lemma_couplings_refused(
    file: Seq<char>,
    direction: Option<&str>,
    offset: Option<u32>,
    limit: Option<u32>,
    incoming: Seq<(Seq<char>, u32)>,
    outgoing: Seq<(Seq<char>, u32)>,
    max_bytes: usize,
)
    ensures
        ({
            let r = coupling_reply(file, direction, offset, limit, incoming, outgoing, max_bytes);
            let d = word(direction);
            let known = d.len() == 0 || d == "outgoing"@ || d == "incoming"@ || d == "both"@;
            &&& r.is_error <==> file.len() == 0 || !known
            &&& file.len() == 0 ==> r.text == "'file' is required"@
            &&& file.len() > 0 && !known ==> r.text == "invalid direction: "@ + d
                + ". Expected one of: outgoing, incoming, both"@
        }),
{
    assert(word(direction).len() == 0 ==> word(direction) =~= Seq::<char>::empty());
}

/// A coupling says its file and its count.
pub proof fn lemma_coupling_as_json(c: CouplingModel)
    ensures
        CouplingEntry::json_of(c) == JsonModel::Object(
            seq![
                ("file"@, JsonModel::Text(c.file)),
                ("count"@, JsonModel::Number(c.count as nat)),
            ],
        ),
{
}

proof fn lemma_lists_couplings(counts: Seq<(Seq<char>, u32)>)
    ensures
        list_couplings(sorted_couplings(counts), counts),
{
    let rows = counts.map_values(|c: (Seq<char>, u32)| coupling_row(c));
    assert(rows =~= counts.map_values(
        |c: (Seq<char>, u32)| CouplingModel { file: c.0, count: c.1 },
    ));
    lemma_stable_sorted_in_order::<CouplingEntry>(rows);
    let s = sorted_couplings(counts);
    assert forall|i: int, j: int| 0 <= i < j < s.len() implies {
        ||| (#[trigger] s[i]).count > (#[trigger] s[j]).count
        ||| s[i].count == s[j].count && text_le(s[i].file, s[j].file)
    } by {
        assert(CouplingEntry::at_most(s[i], s[j]));
    }
}

proof fn lemma_directions_differ()
    ensures
        "outgoing"@.len() > 0,
        "incoming"@.len() > 0,
        "both"@.len() > 0,
        "outgoing"@ != "incoming"@,
        "outgoing"@ != "both"@,
        "incoming"@ != "both"@,
{
    reveal_strlit("outgoing");
    reveal_strlit("incoming");
    reveal_strlit("both");
    assert("outgoing"@[0] == 'o');
    assert("incoming"@[0] == 'i');
    assert("both"@[0] == 'b');
}

} // verus!
