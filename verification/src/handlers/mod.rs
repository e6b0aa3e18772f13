//! The tools, and what they share: record shapes, names and error wording.

use crate::json::{
    member_models, no_members, number, object, opt_view, put, put_unless_empty, put_unless_zero, text, unless_empty,
    unless_zero, Json, JsonModel, ToJson,
};
use crate::model::{id_of, Confidence, symbol_id, EdgeKind, Language, Symbol, SymbolKind, SymbolModel};
use crate::reply::{failure, tool_error, ReplyModel, ToolReply};
use crate::sort::{views, Sortable};
use crate::text::{
    debug_quoted, debug_text, glue3, join, joined, lemma_text_le_total, lemma_text_le_transitive, owned,
    same_text, text_at_most, text_le, texts,
};
use vstd::math::min;
use vstd::prelude::*;

pub use crate::json::is_zero_u32;
pub use crate::page::{byte_budget_take, Page, ENVELOPE_OVERHEAD_BYTES, NO_BYTE_BUDGET};
pub use crate::reply::tool_success_json;

pub mod analyze;
pub mod query;
pub mod status;
pub mod structure;
pub mod symbols;

verus! {

// ----- arguments -----

/// The text of an optional argument: empty where it is absent.
pub open spec fn argument(o: Option<&str>) -> Seq<char> {
    match o {
        Some(s) => s@,
        None => seq![],
    }
}

/// The text of an optional argument: empty where it is absent.
pub fn argument_or_empty<'a>(o: Option<&'a str>) -> (r: &'a str)
    ensures
        r@ == argument(o),
{
    proof {
        reveal_strlit("");
    }
    match o {
        Some(s) => s,
        None => {
            assert(""@ =~= seq![]);
            ""
        },
    }
}

/// An optional argument that is given: one that is there and not empty.
pub open spec fn given(o: Option<&str>) -> Option<Seq<char>> {
    if argument(o).len() == 0 {
        None
    } else {
        Some(argument(o))
    }
}

/// An optional argument that is given: one that is there and not empty.
pub fn given_argument<'a>(o: Option<&'a str>) -> (r: Option<&'a str>)
    ensures
        opt_view(r) == given(o),
{
    match o {
        Some(s) => if s.is_empty() {
            None
        } else {
            Some(s)
        },
        None => None,
    }
}

// ----- names -----

/// The name of a symbol kind.
pub open spec fn kind_name(kind: SymbolKind) -> Seq<char> {
    match kind {
        SymbolKind::Function => "function"@,
        SymbolKind::Method => "method"@,
        SymbolKind::Class => "class"@,
        SymbolKind::Struct => "struct"@,
        SymbolKind::Enum => "enum"@,
        SymbolKind::Typedef => "typedef"@,
        SymbolKind::Interface => "interface"@,
        SymbolKind::Trait => "trait"@,
    }
}

/// The name of a symbol kind, in lower case.
pub fn kind_str(kind: SymbolKind) -> (r: &'static str)
    ensures
        r@ == kind_name(kind),
{
    match kind {
        SymbolKind::Function => "function",
        SymbolKind::Method => "method",
        SymbolKind::Class => "class",
        SymbolKind::Struct => "struct",
        SymbolKind::Enum => "enum",
        SymbolKind::Typedef => "typedef",
        SymbolKind::Interface => "interface",
        SymbolKind::Trait => "trait",
    }
}

/// The name of an edge kind on the wire: that of the kind in lower case.
pub open spec fn edge_kind_name(kind: EdgeKind) -> Seq<char> {
    match kind {
        EdgeKind::Calls => "calls"@,
        EdgeKind::Includes => "includes"@,
        EdgeKind::Inherits => "inherits"@,
        EdgeKind::Overrides => "overrides"@,
    }
}

/// The name of an edge kind on the wire.
pub fn edge_kind_str(kind: EdgeKind) -> (r: &'static str)
    ensures
        r@ == edge_kind_name(kind),
{
    match kind {
        EdgeKind::Calls => "calls",
        EdgeKind::Includes => "includes",
        EdgeKind::Inherits => "inherits",
        EdgeKind::Overrides => "overrides",
    }
}

/// The kind that a name stands for, if any. Case matters.
pub open spec fn kind_named(s: Seq<char>) -> Option<SymbolKind> {
    if s == "function"@ {
        Some(SymbolKind::Function)
    } else if s == "method"@ {
        Some(SymbolKind::Method)
    } else if s == "class"@ {
        Some(SymbolKind::Class)
    } else if s == "struct"@ {
        Some(SymbolKind::Struct)
    } else if s == "enum"@ {
        Some(SymbolKind::Enum)
    } else if s == "typedef"@ {
        Some(SymbolKind::Typedef)
    } else if s == "interface"@ {
        Some(SymbolKind::Interface)
    } else if s == "trait"@ {
        Some(SymbolKind::Trait)
    } else {
        None
    }
}

/// The kind that a name stands for, if any. Case matters.
pub fn parse_kind(s: &str) -> (r: Option<SymbolKind>)
    ensures
        r == kind_named(s@),
{
    if same_text(s, "function") {
        Some(SymbolKind::Function)
    } else if same_text(s, "method") {
        Some(SymbolKind::Method)
    } else if same_text(s, "class") {
        Some(SymbolKind::Class)
    } else if same_text(s, "struct") {
        Some(SymbolKind::Struct)
    } else if same_text(s, "enum") {
        Some(SymbolKind::Enum)
    } else if same_text(s, "typedef") {
        Some(SymbolKind::Typedef)
    } else if same_text(s, "interface") {
        Some(SymbolKind::Interface)
    } else if same_text(s, "trait") {
        Some(SymbolKind::Trait)
    } else {
        None
    }
}

/// Naming a kind and parsing a name undo each other.
pub proof fn lemma_kind_names(kind: SymbolKind, s: Seq<char>)
    ensures
        kind_named(kind_name(kind)) == Some(kind),
        kind_named(s) == Some(kind) <==> s == kind_name(kind),
{
    reveal_strlit("function");
    reveal_strlit("method");
    reveal_strlit("class");
    reveal_strlit("struct");
    reveal_strlit("enum");
    reveal_strlit("typedef");
    reveal_strlit("interface");
    reveal_strlit("trait");
    assert("function"@[0] == 'f');
    assert("method"@[0] == 'm');
    assert("class"@[0] == 'c');
    assert("struct"@[0] == 's');
    assert("enum"@[0] == 'e');
    assert("typedef"@[0] == 't' && "typedef"@[1] == 'y');
    assert("interface"@[0] == 'i');
    assert("trait"@[0] == 't' && "trait"@[1] == 'r');
}

/// The language that a name stands for, if any.
pub open spec fn language_named(s: Seq<char>) -> Option<Language> {
    if s == "cpp"@ {
        Some(Language::Cpp)
    } else if s == "rust"@ {
        Some(Language::Rust)
    } else if s == "go"@ {
        Some(Language::Go)
    } else if s == "python"@ {
        Some(Language::Python)
    } else if s == "csharp"@ {
        Some(Language::CSharp)
    } else if s == "java"@ {
        Some(Language::Java)
    } else {
        None
    }
}

/// The language that a name stands for, if any.
pub fn parse_language(s: &str) -> (r: Option<Language>)
    ensures
        r == language_named(s@),
{
    if same_text(s, "cpp") {
        Some(Language::Cpp)
    } else if same_text(s, "rust") {
        Some(Language::Rust)
    } else if same_text(s, "go") {
        Some(Language::Go)
    } else if same_text(s, "python") {
        Some(Language::Python)
    } else if same_text(s, "csharp") {
        Some(Language::CSharp)
    } else if same_text(s, "java") {
        Some(Language::Java)
    } else {
        None
    }
}

// ----- symbol records -----

/// A symbol as the tools list it.
///
/// There is no file: the id begins with it. Members that are zero or empty are
/// left out on the wire, but for the first four.
#[derive(Debug, Clone)]
pub struct SymbolResult {
    pub id: String,
    pub name: String,
    pub kind: String,
    pub line: u32,
    pub column: u32,
    pub end_line: u32,
    pub signature: String,
    pub namespace: String,
    pub parent: String,
}

/// What a [`SymbolResult`] stands for.
pub struct SymbolRow {
    pub id: Seq<char>,
    pub name: Seq<char>,
    pub kind: Seq<char>,
    pub line: u32,
    pub column: u32,
    pub end_line: u32,
    pub signature: Seq<char>,
    pub namespace: Seq<char>,
    pub parent: Seq<char>,
}

impl View for SymbolResult {
    type V = SymbolRow;

    open spec fn view(&self) -> SymbolRow {
        SymbolRow {
            id: self.id@,
            name: self.name@,
            kind: self.kind@,
            line: self.line,
            column: self.column,
            end_line: self.end_line,
            signature: self.signature@,
            namespace: self.namespace@,
            parent: self.parent@,
        }
    }
}

impl ToJson for SymbolResult {
    open spec fn json_of(v: SymbolRow) -> JsonModel {
        JsonModel::Object(
            seq![
                ("id"@, JsonModel::Text(v.id)),
                ("name"@, JsonModel::Text(v.name)),
                ("kind"@, JsonModel::Text(v.kind)),
                ("line"@, JsonModel::Number(v.line as nat)),
            ] + unless_zero("column"@, v.column) + unless_zero("end_line"@, v.end_line)
                + unless_empty("signature"@, v.signature) + unless_empty("namespace"@, v.namespace)
                + unless_empty("parent"@, v.parent),
        )
    }

    fn to_json(&self) -> (r: Json) {
        let mut m = no_members();
        put(&mut m, "id", text(self.id.as_str()));
        put(&mut m, "name", text(self.name.as_str()));
        put(&mut m, "kind", text(self.kind.as_str()));
        put(&mut m, "line", number(self.line));
        put_unless_zero(&mut m, "column", self.column);
        put_unless_zero(&mut m, "end_line", self.end_line);
        put_unless_empty(&mut m, "signature", self.signature.as_str());
        put_unless_empty(&mut m, "namespace", self.namespace.as_str());
        put_unless_empty(&mut m, "parent", self.parent.as_str());
        assert(member_models(m@) =~= Self::json_of(self@)->Object_0);
        object(m)
    }
}

/// Symbol records are sorted by id.
impl Sortable for SymbolResult {
    open spec fn at_most(a: SymbolRow, b: SymbolRow) -> bool {
        text_le(a.id, b.id)
    }

    proof fn lemma_total(a: SymbolRow, b: SymbolRow) {
        lemma_text_le_total(a.id, b.id);
    }

    proof fn lemma_transitive(a: SymbolRow, b: SymbolRow, c: SymbolRow) {
        lemma_text_le_transitive(a.id, b.id, c.id);
    }

    fn precedes(&self, other: &Self) -> (r: bool) {
        text_at_most(self.id.as_str(), other.id.as_str())
    }
}

/// The record of a symbol. A brief one leaves out column, end line and
/// signature.
pub open spec fn symbol_row(s: SymbolModel, brief: bool) -> SymbolRow {
    SymbolRow {
        id: id_of(s),
        name: s.name,
        kind: kind_name(s.kind),
        line: s.line,
        column: if brief {
            0
        } else {
            s.column
        },
        end_line: if brief {
            0
        } else {
            s.end_line
        },
        signature: if brief {
            seq![]
        } else {
            s.signature
        },
        namespace: s.namespace,
        parent: s.parent,
    }
}

/// The record of a symbol.
pub fn symbol_to_result(s: &Symbol, brief: bool) -> (r: SymbolResult)
    ensures
        r@ == symbol_row(s@, brief),
{
    let signature = if brief {
        String::new()
    } else {
        s.signature.clone()
    };
    assert(brief ==> signature@ =~= seq![]);
    SymbolResult {
        id: symbol_id(s),
        name: s.name.clone(),
        kind: owned(kind_str(s.kind)),
        line: s.line,
        column: if brief {
            0
        } else {
            s.column
        },
        end_line: if brief {
            0
        } else {
            s.end_line
        },
        signature,
        namespace: s.namespace.clone(),
        parent: s.parent.clone(),
    }
}

/// A brief record has no member for column, end line or signature.
pub proof fn lemma_brief_record_members(s: SymbolModel)
    ensures
        ({
            let row = SymbolResult::json_of(symbol_row(s, true));
            &&& row is Object
            &&& forall|i: int|
                0 <= i < row->Object_0.len() ==> {
                    let key = #[trigger] row->Object_0[i].0;
                    key != "column"@ && key != "end_line"@ && key != "signature"@
                }
        }),
{
    reveal_strlit("id");
    reveal_strlit("name");
    reveal_strlit("kind");
    reveal_strlit("line");
    reveal_strlit("column");
    reveal_strlit("end_line");
    reveal_strlit("signature");
    reveal_strlit("namespace");
    reveal_strlit("parent");
    assert("column"@[0] == 'c');
    assert("parent"@[0] == 'p');
    assert("signature"@[0] == 's');
    assert("namespace"@[0] == 'n');
    let row = symbol_row(s, true);
    let members = SymbolResult::json_of(row)->Object_0;
    assert(members =~= seq![
        ("id"@, JsonModel::Text(row.id)),
        ("name"@, JsonModel::Text(row.name)),
        ("kind"@, JsonModel::Text(row.kind)),
        ("line"@, JsonModel::Number(row.line as nat)),
    ] + unless_empty("namespace"@, row.namespace) + unless_empty("parent"@, row.parent));
    assert forall|i: int| 0 <= i < members.len() implies {
        let key = #[trigger] members[i].0;
        key != "column"@ && key != "end_line"@ && key != "signature"@
    } by {
        let n = unless_empty("namespace"@, row.namespace).len();
        if i >= 4 + n {
            assert(members[i].0 == "parent"@);
        } else if i >= 4 {
            assert(members[i].0 == "namespace"@);
        } else if i == 0 {
            assert(members[i].0 == "id"@);
        } else if i == 1 {
            assert(members[i].0 == "name"@);
        } else if i == 2 {
            assert(members[i].0 == "kind"@);
        } else {
            assert(members[i].0 == "line"@);
        }
        assert(members[i].0.len() != "end_line"@.len());
        assert(members[i].0.len() == "column"@.len() ==> members[i].0[0] != "column"@[0]);
        assert(members[i].0.len() == "signature"@.len() ==> members[i].0[0] != "signature"@[0]);
    }
}

/// The records of symbols, in their order.
pub open spec fn symbol_rows(symbols: Seq<SymbolModel>, brief: bool) -> Seq<SymbolRow> {
    symbols.map_values(|s: SymbolModel| symbol_row(s, brief))
}

/// The records of symbols, in their order.
pub fn symbol_results(symbols: &Vec<Symbol>, brief: bool) -> (r: Vec<SymbolResult>)
    ensures
        views(r@) == symbol_rows(views(symbols@), brief),
{
    let mut out: Vec<SymbolResult> = Vec::new();
    let mut i: usize = 0;
    while i < symbols.len()
        invariant
            i <= symbols@.len(),
            out@.len() == i,
            forall|k: int| 0 <= k < i ==> #[trigger] out@[k]@ == symbol_row(symbols@[k]@, brief),
        decreases symbols@.len() - i,
    {
        out.push(symbol_to_result(&symbols[i], brief));
        i = i + 1;
    }
    assert(views(out@) =~= symbol_rows(views(symbols@), brief));
    out
}

// ----- suggestions -----

/// The ids of symbols, in their order.
pub open spec fn ids_of(symbols: Seq<SymbolModel>) -> Seq<Seq<char>> {
    symbols.map_values(|s: SymbolModel| id_of(s))
}

/// The first `n` elements, or all of them where there are fewer.
pub open spec fn first<V>(s: Seq<V>, n: nat) -> Seq<V> {
    s.take(min(n as int, s.len() as int))
}

/// The ids of the first `limit` symbols.
pub fn first_ids(symbols: &Vec<Symbol>, limit: usize) -> (r: Vec<String>)
    ensures
        texts(r@) == ids_of(first(views(symbols@), limit as nat)),
{
    let mut out: Vec<String> = Vec::new();
    let n: usize = if limit < symbols.len() {
        limit
    } else {
        symbols.len()
    };
    let mut i: usize = 0;
    while i < n
        invariant
            i <= n,
            n <= symbols@.len(),
            out@.len() == i,
            forall|k: int| 0 <= k < i ==> #[trigger] out@[k]@ == id_of(symbols@[k]@),
        decreases n - i,
    {
        out.push(symbol_id(&symbols[i]));
        i = i + 1;
    }
    assert(texts(out@) =~= ids_of(first(views(symbols@), limit as nat)));
    out
}

/// The ids of the first `limit` candidates, with commas between them.
pub open spec fn suggestion_list(candidates: Seq<SymbolModel>, limit: nat) -> Seq<char> {
    joined(ids_of(first(candidates, limit)), ", "@)
}

/// The ids of the first `limit` candidates for an unknown symbol, with commas
/// between them: empty where there are no candidates.
pub fn suggest_symbols(candidates: &Vec<Symbol>, limit: usize) -> (r: String)
    ensures
        r@ == suggestion_list(views(candidates@), limit as nat),
{
    join(&first_ids(candidates, limit), ", ")
}

/// What is suggested for an unknown symbol, if anything.
pub open spec fn symbol_hint(candidates: Seq<SymbolModel>) -> Option<Seq<char>> {
    if suggestion_list(candidates, 5).len() == 0 {
        None
    } else {
        Some(suggestion_list(candidates, 5))
    }
}

/// The answer for an unknown name, with suggestions where there are any. `name`
/// stands between quotes already.
pub open spec fn not_found(what: Seq<char>, name: Seq<char>, hint: Option<Seq<char>>) -> ReplyModel {
    match hint {
        None => failure(what + " not found: "@ + name),
        Some(list) => failure(
            what + " not found: "@ + name + ". Did you mean: "@ + list + "?"@,
        ),
    }
}

/// The answer for an unknown name, with suggestions where there are any. `name`
/// stands between quotes already.
pub fn not_found_reply(what: &str, name: &str, hint: Option<&str>) -> (r: ToolReply)
    ensures
        r@ == not_found(what@, name@, opt_view(hint)),
{
    let mut msg = glue3(what, " not found: ", name);
    match hint {
        None => {},
        Some(list) => {
            msg.append(". Did you mean: ");
            msg.append(list);
            msg.append("?");
        },
    }
    tool_error(msg.as_str())
}

/// The answer for an unknown symbol, with suggestions where there are any.
pub fn symbol_not_found(symbol: &str, candidates: &Vec<Symbol>) -> (r: ToolReply)
    ensures
        r@ == not_found("symbol"@, debug_text(symbol@), symbol_hint(views(candidates@))),
{
    let list = suggest_symbols(candidates, 5);
    let quoted = debug_quoted(symbol);
    let hint = given_argument(Some(list.as_str()));
    not_found_reply("symbol", quoted.as_str(), hint)
}

// ----- confidence -----

/// The confidence that a request asks for: `None` for any, or the word it was
/// refused for.
pub open spec fn min_confidence_named(s: Option<Seq<char>>) -> Result<
    Option<Confidence>,
    Seq<char>,
> {
    match s {
        None => Ok(None),
        Some(w) => if w.len() == 0 || w == "any"@ {
            Ok(None)
        } else if w == "resolved"@ {
            Ok(Some(Confidence::Resolved))
        } else {
            Err(w)
        },
    }
}

/// The confidence that a request asks for: `None` for any, and an error for a
/// word that names none.
pub fn parse_min_confidence(s: Option<&str>) -> (r: Result<Option<Confidence>, String>)
    ensures
        match min_confidence_named(opt_view(s)) {
            Ok(c) => r == Ok::<Option<Confidence>, String>(c),
            Err(w) => r is Err && r->Err_0@ == bad_confidence(debug_text(w)),
        },
{
    match s {
        None => Ok(None),
        Some(w) => if w.is_empty() || same_text(w, "any") {
            Ok(None)
        } else if same_text(w, "resolved") {
            Ok(Some(Confidence::Resolved))
        } else {
            let q = debug_quoted(w);
            Err(bad_confidence_text(q.as_str()))
        },
    }
}

/// What is said of a confidence that there is none of. `word` stands between
/// quotes already.
pub open spec fn bad_confidence(word: Seq<char>) -> Seq<char> {
    "invalid min_confidence: "@ + word + " (expected \"any\" or \"resolved\")"@
}

/// What is said of a confidence that there is none of. `word` stands between
/// quotes already.
pub fn bad_confidence_text(word: &str) -> (r: String)
    ensures
        r@ == bad_confidence(word@),
{
    glue3("invalid min_confidence: ", word, " (expected \"any\" or \"resolved\")")
}

} // verus!
