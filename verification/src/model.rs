//! The records of a code graph that the tools read.

use crate::text::{chars_of, glue3, owned};
use vstd::prelude::*;

verus! {

/// What a symbol is.
#[derive(Clone, Copy, Debug, PartialEq, Eq, Structural)]
pub enum SymbolKind {
    Function,
    Method,
    Class,
    Struct,
    Enum,
    Typedef,
    Interface,
    Trait,
}

/// How one node of the graph relates to another.
#[derive(Clone, Copy, Debug, PartialEq, Eq, Structural)]
pub enum EdgeKind {
    Calls,
    Includes,
    Inherits,
    Overrides,
}

/// The language of a source file.
#[derive(Clone, Copy, Debug, PartialEq, Eq, Structural)]
pub enum Language {
    Cpp,
    Rust,
    Go,
    Python,
    CSharp,
    Java,
}

/// How sure the resolver is of an edge's target.
#[derive(Clone, Copy, Debug, PartialEq, Eq, Structural)]
pub enum Confidence {
    Resolved,
    Heuristic,
}

/// A symbol of a source file.
#[derive(Debug, Clone)]
pub struct Symbol {
    pub name: String,
    pub kind: SymbolKind,
    pub file: String,
    pub line: u32,
    pub column: u32,
    pub end_line: u32,
    pub signature: String,
    pub namespace: String,
    pub parent: String,
    pub language: Language,
}

/// What a [`Symbol`] stands for.
pub struct SymbolModel {
    pub name: Seq<char>,
    pub kind: SymbolKind,
    pub file: Seq<char>,
    pub line: u32,
    pub column: u32,
    pub end_line: u32,
    pub signature: Seq<char>,
    pub namespace: Seq<char>,
    pub parent: Seq<char>,
    pub language: Language,
}

impl View for Symbol {
    type V = SymbolModel;

    open spec fn view(&self) -> SymbolModel {
        SymbolModel {
            name: self.name@,
            kind: self.kind,
            file: self.file@,
            line: self.line,
            column: self.column,
            end_line: self.end_line,
            signature: self.signature@,
            namespace: self.namespace@,
            parent: self.parent@,
            language: self.language,
        }
    }
}

/// An edge of the graph, as a file gives rise to it.
#[derive(Debug, Clone)]
pub struct Edge {
    pub from: String,
    pub to: String,
    pub kind: EdgeKind,
    pub file: String,
    pub line: u32,
    pub confidence: Confidence,
}

/// What an [`Edge`] stands for.
pub struct EdgeModel {
    pub from: Seq<char>,
    pub to: Seq<char>,
    pub kind: EdgeKind,
    pub file: Seq<char>,
    pub line: u32,
    pub confidence: Confidence,
}

impl View for Edge {
    type V = EdgeModel;

    open spec fn view(&self) -> EdgeModel {
        EdgeModel {
            from: self.from@,
            to: self.to@,
            kind: self.kind,
            file: self.file@,
            line: self.line,
            confidence: self.confidence,
        }
    }
}

/// The symbols and edges of one source file.
#[derive(Debug, Clone)]
pub struct FileGraph {
    pub path: String,
    pub language: Language,
    pub symbols: Vec<Symbol>,
    pub edges: Vec<Edge>,
}

/// What a [`FileGraph`] stands for.
pub struct FileGraphModel {
    pub path: Seq<char>,
    pub language: Language,
    pub symbols: Seq<SymbolModel>,
    pub edges: Seq<EdgeModel>,
}

impl View for FileGraph {
    type V = FileGraphModel;

    open spec fn view(&self) -> FileGraphModel {
        FileGraphModel {
            path: self.path@,
            language: self.language,
            symbols: crate::sort::views(self.symbols@),
            edges: crate::sort::views(self.edges@),
        }
    }
}

/// The size of a graph.
#[derive(Clone, Copy, Debug, PartialEq, Eq, Structural)]
pub struct GraphStats {
    pub files: u32,
    pub nodes: u32,
    pub edges: u32,
}

// ----- symbol ids -----

/// A symbol's name behind its parent, where it has one.
pub open spec fn local_name(s: SymbolModel) -> Seq<char> {
    if s.parent.len() == 0 {
        s.name
    } else {
        s.parent + "::"@ + s.name
    }
}

/// The id of a symbol: `file:name`, or `file:Parent::name` for one with a
/// parent.
pub open spec fn id_of(s: SymbolModel) -> Seq<char> {
    s.file + ":"@ + local_name(s)
}

/// The id of a symbol.
pub fn symbol_id(s: &Symbol) -> (r: String)
    ensures
        r@ == id_of(s@),
{
    if s.parent.as_str().is_empty() {
        glue3(s.file.as_str(), ":", s.name.as_str())
    } else {
        let local = glue3(s.parent.as_str(), "::", s.name.as_str());
        glue3(s.file.as_str(), ":", local.as_str())
    }
}

/// Whether `s` holds at `i` a colon with no colon beside it.
pub open spec fn lone_colon(s: Seq<char>, i: int) -> bool {
    &&& 0 <= i < s.len()
    &&& s[i] == ':'
    &&& (i == 0 || s[i - 1] != ':')
    &&& (i + 1 == s.len() || s[i + 1] != ':')
}

/// The file part of a symbol id: what stands before its last lone colon, or the
/// whole where there is none.
pub open spec fn file_part(id: Seq<char>, r: Seq<char>) -> bool {
    if exists|i: int| lone_colon(id, i) {
        exists|i: int| #[trigger]
            lone_colon(id, i) && (forall|k: int| i < k < id.len() ==> !lone_colon(id, k)) && r
                == id.subrange(0, i)
    } else {
        r == id
    }
}

/// The file of a symbol, from its id.
pub fn id_to_file(id: &str) -> (r: String)
    ensures
        file_part(id@, r@),
{
    let c = chars_of(id);
    let n: usize = c.len();
    let mut i: usize = n;
    while i > 0
        invariant
            c@ == id@,
            n == c@.len(),
            i <= n,
            forall|k: int| i <= k < n ==> !lone_colon(id@, k),
        decreases i,
    {
        i = i - 1;
        if c[i] == ':' && (i == 0 || c[i - 1] != ':') && (i + 1 == n || c[i + 1] != ':') {
            assert(lone_colon(id@, i as int));
            return owned(id.substring_char(0, i));
        }
    }
    owned(id)
}

/// A symbol's file can be read off its id, unless the part behind the file
/// begins with a colon or holds a lone one, or the file ends with a colon.
pub proof fn lemma_id_gives_file(s: SymbolModel, r: Seq<char>)
    requires
        file_part(id_of(s), r),
        forall|i: int| !lone_colon(local_name(s), i),
        local_name(s).len() > 0 ==> local_name(s)[0] != ':',
        s.file.len() > 0 ==> s.file.last() != ':',
    ensures
        r == s.file,
{
    reveal_strlit(":");
    let id = id_of(s);
    let n = s.file.len() as int;
    let local = local_name(s);
    assert(id[n] == ':');
    assert(lone_colon(id, n));
    assert forall|k: int| n < k < id.len() implies !lone_colon(id, k) by {
        assert(id[k] == local[k - n - 1]);
        if lone_colon(id, k) {
            assert(lone_colon(local, k - n - 1)) by {
                if k - n - 1 > 0 {
                    assert(id[k - 1] == local[k - n - 2]);
                }
                if k + 1 < id.len() {
                    assert(id[k + 1] == local[k - n]);
                }
            }
        }
    }
    assert(id.subrange(0, n) =~= s.file);
}

} // verus!
