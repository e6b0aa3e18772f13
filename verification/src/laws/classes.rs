//! What requests for class hierarchies and for the classes of a name are answered.

use super::{
    did_you_mean, five_class_names, how_many, id_text, lemma_not_found, lemma_record_object,
    lemma_records, record, record_object,
};
use crate::handlers::structure::{
    class_candidates_reply, hierarchy_reply, HierarchyModel, PlacedSymbol,
};
use crate::handlers::{ids_of, symbol_rows, SymbolResult};
use crate::json::{jsons, render, JsonModel};
use crate::model::SymbolModel;
use crate::sort::{lemma_stable_sorted_in_order, stable_sorted, Sortable};
use crate::text::{debug_text, decimal, joined, lemma_text_le_total, text_le};
use vstd::prelude::*;

verus! {

/// Whether texts are the ids of symbols, each once, in order.
pub open spec fn ids_in_order(ids: Seq<Seq<char>>, symbols: Seq<SymbolModel>) -> bool {
    &&& ids.to_multiset() == symbols.map_values(|s: SymbolModel| id_text(s)).to_multiset()
    &&& forall|i: int, j: int|
        0 <= i < j < ids.len() ==> text_le(#[trigger] ids[i], #[trigger] ids[j])
}

/// What is said of a name that several classes have: how many, and their ids.
pub open spec fn says_ambiguous(
    text: Seq<char>,
    class: Seq<char>,
    same_name: Seq<SymbolModel>,
) -> bool {
    exists|ids: Seq<Seq<char>>| #[trigger]
        ids_in_order(ids, same_name) && text == "ambiguous class name "@ + debug_text(class)
            + " ("@ + decimal(same_name.len()) + " candidates):\n"@ + joined(
            ids.map_values(|id: Seq<char>| "  - "@ + id),
            "\n"@,
        )
            + "\nUse find_class_candidates to discover candidates or pass the fully-qualified symbol_id to get_symbol_detail."@
}

/// A request for a class hierarchy is answered with what the graph found, how
/// many classes it walked, and the most that it was to walk: as many as the
/// request says, or 250, and a thousand at most. A name that several classes have
/// is refused with all their ids, and one that there is no class of with
/// suggestions.
pub proof fn lemma_hierarchy_told(
    class: Seq<char>,
    max_nodes: Option<u32>,
    same_name: Seq<SymbolModel>,
    found: Option<HierarchyModel>,
    candidates: Seq<SymbolModel>,
)
    ensures
        ({
            let r = hierarchy_reply(class, max_nodes, same_name, found, candidates);
            &&& r.is_error <==> class.len() == 0 || same_name.len() > 1 || found is None
            &&& class.len() == 0 ==> r.text == "'class' is required"@
            &&& class.len() > 0 && same_name.len() > 1 ==> says_ambiguous(r.text, class, same_name)
            &&& class.len() > 0 && same_name.len() <= 1 && found is None ==> r.text == "class"@
                + " not found: "@ + debug_text(class) + did_you_mean(five_class_names(candidates))
            &&& !r.is_error ==> r.text == render(
                JsonModel::Object(
                    seq![
                        ("hierarchy"@, found->0.tree),
                        ("truncated"@, JsonModel::Bool(found->0.truncated)),
                        ("max_nodes"@, JsonModel::Number(how_many(max_nodes, 250) as nat)),
                        ("total_nodes_seen"@, JsonModel::Number(found->0.nodes_seen as nat)),
                    ],
                ),
            )
        }),
{
    let r = hierarchy_reply(class, max_nodes, same_name, found, candidates);
    lemma_not_found("class"@, debug_text(class), candidates);
    if class.len() > 0 && same_name.len() > 1 {
        let all = ids_of(same_name);
        let ids = stable_sorted::<String>(all);
        lemma_stable_sorted_in_order::<String>(all);
        assert(all =~= same_name.map_values(|s: SymbolModel| id_text(s)));
        assert forall|i: int, j: int| 0 <= i < j < ids.len() implies text_le(
            #[trigger] ids[i],
            #[trigger] ids[j],
        ) by {
            assert(String::at_most(ids[i], ids[j]));
        }
        assert(ids_in_order(ids, same_name));
        assert(all.len() == same_name.len());
    }
}

/// Whether symbols are others, each once, by file and by line within one.
pub open spec fn list_by_place(listed: Seq<SymbolModel>, symbols: Seq<SymbolModel>) -> bool {
    &&& listed.len() == symbols.len()
    &&& listed.to_multiset() == symbols.to_multiset()
    &&& forall|i: int, j: int|
        0 <= i < j < listed.len() ==> {
            let a = #[trigger] listed[i];
            let b = #[trigger] listed[j];
            text_le(a.file, b.file) && (a.file == b.file ==> a.line <= b.line)
        }
}

/// A request for the classes of a name is answered with the whole records of all
/// that there are, by file and line; that there are none is no error.
pub proof fn lemma_candidates_told(name: Seq<char>, classes: Seq<SymbolModel>)
    ensures
        ({
            let r = class_candidates_reply(name, classes);
            &&& r.is_error <==> name.len() == 0
            &&& r.is_error ==> r.text == "'name' is required"@
            &&& !r.is_error ==> exists|listed: Seq<SymbolModel>| #[trigger]
                list_by_place(listed, classes) && r.text == render(
                    JsonModel::Array(
                        listed.map_values(|s: SymbolModel| record_object(record(s, false))),
                    ),
                )
        }),
{
    let listed = stable_sorted::<PlacedSymbol>(classes);
    lemma_stable_sorted_in_order::<PlacedSymbol>(classes);
    assert forall|i: int, j: int| 0 <= i < j < listed.len() implies {
        let a = #[trigger] listed[i];
        let b = #[trigger] listed[j];
        text_le(a.file, b.file) && (a.file == b.file ==> a.line <= b.line)
    } by {
        assert(PlacedSymbol::at_most(listed[i], listed[j]));
        lemma_text_le_total(listed[i].file, listed[j].file);
    }
    assert(list_by_place(listed, classes));
    lemma_records(listed, false);
    let js = jsons::<SymbolResult>(symbol_rows(listed, false));
    let want = listed.map_values(|s: SymbolModel| record_object(record(s, false)));
    assert forall|i: int| 0 <= i < listed.len() implies js[i] == want[i] by {
        lemma_record_object(record(listed[i], false));
    }
    assert(js =~= want);
}

} // verus!
