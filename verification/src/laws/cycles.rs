//! What a request for cycles is answered.

use super::{how_many, lemma_page_object, page_object, start};
use crate::handlers::structure::{
    capped_cycle, cycles_page, cycles_reply, ordered_cycles, Cycle, CycleModel, FileCycle,
};
use crate::json::{jsons, render, JsonModel, ToJson};
use crate::page::PageModel;
use crate::sort::{lemma_stable_sorted_in_order, stable_sorted, Sortable};
use crate::text::text_le;
use vstd::prelude::*;

verus! {

/// How many files of a cycle a request wants: fifty where it says none or zero,
/// and five hundred at most.
pub open spec fn cycle_size(max_cycle_size: Option<u32>) -> int {
    match max_cycle_size {
        Some(n) => if n == 0 {
            50
        } else if n <= 500 {
            n as int
        } else {
            500
        },
        None => 50,
    }
}

/// Whether cycles are others with the files of each in order.
pub open spec fn files_in_order(
    sorted: Seq<Seq<Seq<char>>>,
    cycles: Seq<Seq<Seq<char>>>,
) -> bool {
    &&& sorted.len() == cycles.len()
    &&& forall|i: int|
        0 <= i < cycles.len() ==> (#[trigger] sorted[i]).to_multiset() == cycles[i].to_multiset()
            && sorted[i].len() == cycles[i].len()
    &&& forall|i: int, a: int, b: int|
        0 <= i < sorted.len() && 0 <= a < b < sorted[i].len() ==> text_le(
            #[trigger] sorted[i][a],
            #[trigger] sorted[i][b],
        )
}

/// Whether cycles are others, each once, by their first file.
pub open spec fn by_first_file(
    ordered: Seq<Seq<Seq<char>>>,
    cycles: Seq<Seq<Seq<char>>>,
) -> bool {
    &&& ordered.len() == cycles.len()
    &&& ordered.to_multiset() == cycles.to_multiset()
    &&& forall|i: int, j: int|
        0 <= i < j < ordered.len() && (#[trigger] ordered[i]).len() > 0 ==> (
        #[trigger] ordered[j]).len() > 0 && text_le(ordered[i][0], ordered[j][0])
}

/// Whether a cycle is shown with at most `most` of its files, and says so where
/// that leaves some out.
pub open spec fn shows_cycle(c: CycleModel, files: Seq<Seq<char>>, most: int) -> bool {
    if files.len() > most {
        c.files == files.take(most) && c.truncated && c.original_len == Some(files.len() as u32)
    } else {
        c.files == files && !c.truncated && c.original_len is None
    }
}

/// Whether a page shows cycles from `offset` on, and says where to go on as long
/// as there are more.
pub open spec fn shows_cycles(
    page: PageModel<CycleModel>,
    ordered: Seq<Seq<Seq<char>>>,
    offset: int,
    limit: int,
    most: int,
) -> bool {
    &&& page.total == ordered.len()
    &&& page.offset == offset
    &&& page.limit == limit
    &&& page.results.len() == if offset >= ordered.len() {
        0
    } else if ordered.len() - offset < limit {
        ordered.len() - offset
    } else {
        limit
    }
    &&& forall|k: int|
        0 <= k < page.results.len() ==> shows_cycle(
            #[trigger] page.results[k],
            ordered[offset + k],
            most,
        )
    &&& page.truncated <==> offset + page.results.len() < ordered.len()
    &&& page.next_offset == if page.truncated {
        Some((offset + page.results.len()) as u32)
    } else {
        None
    }
}

/// A request for cycles is answered with the page of them, the files of each in
/// order and the cycles by their first file, from the offset asked for, twenty
/// where there is no limit, and with at most as many files of each as it says.
pub proof fn lemma_cycles_told(
    cycles: Seq<Seq<Seq<char>>>,
    limit: Option<u32>,
    offset: Option<u32>,
    max_cycle_size: Option<u32>,
)
    requires
        cycles.len() <= u32::MAX,
        forall|i: int| 0 <= i < cycles.len() ==> (#[trigger] cycles[i]).len() <= u32::MAX,
    ensures
        ({
            let r = cycles_reply(cycles, limit, offset, max_cycle_size);
            !r.is_error && exists|
                sorted: Seq<Seq<Seq<char>>>,
                ordered: Seq<Seq<Seq<char>>>,
                page: PageModel<CycleModel>,
            |
                #![trigger by_first_file(ordered, sorted), page_object::<Cycle>(page)]
                files_in_order(sorted, cycles) && by_first_file(ordered, sorted) && shows_cycles(
                    page,
                    ordered,
                    start(offset),
                    how_many(limit, 20),
                    cycle_size(max_cycle_size),
                ) && r.text == render(page_object::<Cycle>(page))
        }),
{
    let r = cycles_reply(cycles, limit, offset, max_cycle_size);
    let sorted = cycles.map_values(|c: Seq<Seq<char>>| stable_sorted::<String>(c));
    let ordered = ordered_cycles(cycles);
    let o = start(offset) as u32;
    let n = how_many(limit, 20) as u32;
    let most = cycle_size(max_cycle_size) as u32;
    let page = cycles_page(cycles, n, o, most);
    assert forall|i: int| 0 <= i < cycles.len() implies (#[trigger] sorted[i]).to_multiset()
        == cycles[i].to_multiset() && sorted[i].len() == cycles[i].len() by {
        lemma_stable_sorted_in_order::<String>(cycles[i]);
    }
    assert forall|i: int, a: int, b: int|
        0 <= i < sorted.len() && 0 <= a < b < sorted[i].len() implies text_le(
        #[trigger] sorted[i][a],
        #[trigger] sorted[i][b],
    ) by {
        lemma_stable_sorted_in_order::<String>(cycles[i]);
        assert(String::at_most(sorted[i][a], sorted[i][b]));
    }
    assert(files_in_order(sorted, cycles));
    lemma_stable_sorted_in_order::<FileCycle>(sorted);
    assert forall|i: int, j: int|
        0 <= i < j < ordered.len() && (#[trigger] ordered[i]).len() > 0 implies (
    #[trigger] ordered[j]).len() > 0 && text_le(ordered[i][0], ordered[j][0]) by {
        assert(FileCycle::at_most(ordered[i], ordered[j]));
    }
    assert(by_first_file(ordered, sorted));
    assert forall|k: int| 0 <= k < page.results.len() implies shows_cycle(
        #[trigger] page.results[k],
        ordered[o + k],
        most as int,
    ) by {
        lemma_listed_is_short(ordered, sorted, cycles, o + k);
        assert(page.results[k] == capped_cycle(ordered[o + k], most));
    }
    lemma_page_object::<Cycle>(page);
    assert(shows_cycles(page, ordered, o as int, n as int, most as int));
}

/// A cycle says its files, whether some were left out, and then how many there
/// were.
pub proof fn lemma_cycle_as_json(c: CycleModel)
    ensures
        Cycle::json_of(c) == JsonModel::Object(
            seq![
                (
                    "files"@,
                    JsonModel::Array(c.files.map_values(|f: Seq<char>| JsonModel::Text(f))),
                ),
                ("truncated"@, JsonModel::Bool(c.truncated)),
            ] + match c.original_len {
                Some(n) => seq![("original_len"@, JsonModel::Number(n as nat))],
                None => seq![],
            },
        ),
{
    assert(jsons::<String>(c.files) =~= c.files.map_values(|f: Seq<char>| JsonModel::Text(f)));
    assert(Cycle::json_of(c)->Object_0 =~= seq![
        ("files"@, JsonModel::Array(c.files.map_values(|f: Seq<char>| JsonModel::Text(f)))),
        ("truncated"@, JsonModel::Bool(c.truncated)),
    ] + match c.original_len {
        Some(n) => seq![("original_len"@, JsonModel::Number(n as nat))],
        None => seq![],
    });
}

proof fn lemma_listed_is_short(
    ordered: Seq<Seq<Seq<char>>>,
    sorted: Seq<Seq<Seq<char>>>,
    cycles: Seq<Seq<Seq<char>>>,
    k: int,
)
    requires
        by_first_file(ordered, sorted),
        files_in_order(sorted, cycles),
        forall|i: int| 0 <= i < cycles.len() ==> (#[trigger] cycles[i]).len() <= u32::MAX,
        0 <= k < ordered.len(),
    ensures
        ordered[k].len() <= u32::MAX,
{
    broadcast use vstd::seq_lib::group_to_multiset_ensures;

    assert(ordered.to_multiset().count(ordered[k]) > 0);
    assert(sorted.contains(ordered[k]));
    let i = choose|i: int| 0 <= i < sorted.len() && sorted[i] == ordered[k];
    assert(cycles[i].len() <= u32::MAX);
    assert(sorted[i].len() == cycles[i].len());
}

} // verus!
