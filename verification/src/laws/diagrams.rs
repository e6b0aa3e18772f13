//! What a request for a diagram is answered.

use super::{did_you_mean, five_class_names, five_ids, lemma_not_found, word};
use crate::handlers::structure::{
    diagram_plan, diagram_reply, DiagramDirection, DiagramEdge, DiagramEdgeModel, DiagramFormat,
    DiagramModel, DiagramSubjectModel, GenerateDiagramInput,
};
use crate::json::{jsons, render, JsonModel};
use crate::model::{Confidence, SymbolModel};
use crate::text::debug_text;
use vstd::prelude::*;

verus! {

/// Whether a request names exactly one of symbol, file and class.
pub open spec fn names_one(input: GenerateDiagramInput) -> bool {
    let s = word(input.symbol).len() > 0;
    let f = word(input.file).len() > 0;
    let c = word(input.class).len() > 0;
    (s && !f && !c) || (!s && f && !c) || (!s && !f && c)
}

/// Whether a request for a diagram can be met: it names one subject, and its
/// words for format, confidence and, for a symbol, direction are known.
pub open spec fn can_be_drawn(input: GenerateDiagramInput) -> bool {
    let d = word(input.direction);
    let f = word(input.format);
    let c = word(input.min_confidence);
    &&& names_one(input)
    &&& word(input.symbol).len() > 0 ==> d.len() == 0 || d == "both"@ || d == "callees"@ || d
        == "callers"@
    &&& f.len() == 0 || f == "edges"@ || f == "mermaid"@
    &&& c.len() == 0 || c == "any"@ || c == "resolved"@
}

/// The diagram that the graph is asked for is the one that the request says: its
/// subject, its depth, or one where it says none or zero, and its number of
/// nodes, or thirty; calls in its direction, or both, of its confidence, or any;
/// in its format, or as edges.
pub proof fn lemma_diagram_as_asked(input: GenerateDiagramInput)
    ensures
        ({
            let plan = diagram_plan(input);
            let p = plan->Ok_0;
            let d = word(input.direction);
            let f = word(input.format);
            let c = word(input.min_confidence);
            let direction = if d == "callees"@ {
                DiagramDirection::Callees
            } else if d == "callers"@ {
                DiagramDirection::Callers
            } else {
                DiagramDirection::Both
            };
            &&& plan is Ok <==> can_be_drawn(input)
            &&& plan is Ok ==> {
                &&& word(input.symbol).len() > 0 ==> p.subject == DiagramSubjectModel::Symbol(
                    word(input.symbol),
                    direction,
                )
                &&& word(input.file).len() > 0 ==> p.subject == DiagramSubjectModel::File(
                    word(input.file),
                )
                &&& word(input.class).len() > 0 ==> p.subject == DiagramSubjectModel::Class(
                    word(input.class),
                )
                &&& input.depth is None || input.depth == Some(0u32) ==> p.depth == 1
                &&& input.depth is Some && input.depth->0 > 0 ==> p.depth == input.depth->0
                &&& input.max_nodes is None || input.max_nodes == Some(0u32) ==> p.max_nodes == 30
                &&& input.max_nodes is Some && input.max_nodes->0 > 0 ==> p.max_nodes
                    == input.max_nodes->0
                &&& p.min_confidence == if c == "resolved"@ {
                    Some(Confidence::Resolved)
                } else {
                    None
                }
                &&& p.format == if f == "mermaid"@ {
                    DiagramFormat::Mermaid
                } else {
                    DiagramFormat::Edges
                }
                &&& p.styled == input.styled
            }
        }),
{
    lemma_words_differ();
    assert(word(input.symbol).len() == 0 ==> word(input.symbol) =~= Seq::<char>::empty());
    assert(word(input.file).len() == 0 ==> word(input.file) =~= Seq::<char>::empty());
    assert(word(input.class).len() == 0 ==> word(input.class) =~= Seq::<char>::empty());
    assert(word(input.direction).len() == 0 ==> word(input.direction) =~= Seq::<char>::empty());
    assert(word(input.format).len() == 0 ==> word(input.format) =~= Seq::<char>::empty());
    assert(word(input.min_confidence).len() == 0 ==> word(input.min_confidence)
        =~= Seq::<char>::empty());
}

/// An edge of a diagram as JSON.
pub open spec fn edge_object(e: DiagramEdgeModel) -> JsonModel {
    JsonModel::Object(
        seq![
            ("from"@, JsonModel::Text(e.from)),
            ("to"@, JsonModel::Text(e.to)),
            ("label"@, JsonModel::Text(e.label)),
        ],
    )
}

/// A diagram that the graph made is answered with all its edges, in their order,
/// or with its drawing where that is asked for. Where the graph knows no such
/// subject, the answer is an error that names it, with suggestions for a symbol
/// or a class. A request that cannot be met is an error whatever the graph made.
pub proof fn lemma_diagram_answered(
    input: GenerateDiagramInput,
    found: Option<DiagramModel>,
    candidates: Seq<SymbolModel>,
)
    ensures
        ({
            let r = diagram_reply(input, found, candidates);
            let symbol = word(input.symbol);
            let file = word(input.file);
            let class = word(input.class);
            &&& r.is_error <==> !can_be_drawn(input) || found is None
            &&& can_be_drawn(input) && found is Some && word(input.format) == "mermaid"@ ==> r.text
                == found->0.drawing
            &&& can_be_drawn(input) && found is Some && word(input.format) != "mermaid"@ ==> r.text
                == render(
                JsonModel::Array(
                    found->0.edges.map_values(|e: DiagramEdgeModel| edge_object(e)),
                ),
            )
            &&& can_be_drawn(input) && found is None && file.len() > 0 ==> r.text
                == "file"@ + " not found: "@ + debug_text(file)
            &&& can_be_drawn(input) && found is None && symbol.len() > 0 ==> r.text == "symbol"@
                + " not found: "@ + debug_text(symbol) + did_you_mean(five_ids(candidates))
            &&& can_be_drawn(input) && found is None && class.len() > 0 ==> r.text == "class"@
                + " not found: "@ + debug_text(class) + did_you_mean(five_class_names(candidates))
        }),
{
    let r = diagram_reply(input, found, candidates);
    lemma_diagram_as_asked(input);
    lemma_words_differ();
    if found is Some {
        let edges = found->0.edges;
        assert(jsons::<DiagramEdge>(edges) =~= edges.map_values(
            |e: DiagramEdgeModel| edge_object(e),
        ));
    } else if can_be_drawn(input) {
        lemma_not_found("symbol"@, debug_text(word(input.symbol)), candidates);
        lemma_not_found("file"@, debug_text(word(input.file)), candidates);
        lemma_not_found("class"@, debug_text(word(input.class)), candidates);
    }
}

proof fn lemma_words_differ()
    ensures
        "both"@.len() > 0 && "callees"@.len() > 0 && "callers"@.len() > 0,
        "edges"@.len() > 0 && "mermaid"@.len() > 0 && "any"@.len() > 0 && "resolved"@.len() > 0,
        "both"@ != "callees"@ && "both"@ != "callers"@ && "callees"@ != "callers"@,
        "edges"@ != "mermaid"@ && "any"@ != "resolved"@,
{
    reveal_strlit("both");
    reveal_strlit("callees");
    reveal_strlit("callers");
    reveal_strlit("edges");
    reveal_strlit("mermaid");
    reveal_strlit("any");
    reveal_strlit("resolved");
    assert("both"@[0] == 'b');
    assert("callees"@[0] == 'c' && "callees"@[4] == 'e' && "callees"@[5] == 'e');
    assert("callers"@[0] == 'c' && "callers"@[5] == 'r');
    assert("edges"@[0] == 'e');
    assert("mermaid"@[0] == 'm');
    assert("any"@[0] == 'a');
    assert("resolved"@[0] == 'r');
}

} // verus!
