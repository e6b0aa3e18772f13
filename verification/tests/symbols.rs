//! Listing, searching and summing up symbols.

use code_graph_tools::handlers::query::{CallChain, Direction, IncludeEntry};
use code_graph_tools::handlers::structure::{
    is_class_like, Diagram, DiagramDirection, DiagramEdge, DiagramPlan, DiagramSubject, FileCycle,
    Hierarchy,
};
use code_graph_tools::handlers::symbols::{KindCount, NamespaceCounts, SearchParams};
use code_graph_tools::json::{Json, Member, ToJson};
use code_graph_tools::model::{
    id_to_file, symbol_id, Edge, EdgeKind, FileGraph, Language, Symbol, SymbolKind,
};
use rmcp::model::CallToolResult;
use code_graph_tools::edit_distance::{levenshtein, max_distance_for_query};
use code_graph_tools::handlers::symbols::{
    self, is_plain_identifier, SearchAnswer, SearchPlan, SearchSymbolsInput, SearchSymbolsResponse,
};
use code_graph_tools::handlers::{
    Page, SymbolResult, ENVELOPE_OVERHEAD_BYTES, NO_BYTE_BUDGET,
};

/// A code graph in memory, which answers what the tools ask.
#[derive(Default)]
struct Graph {
    files: Vec<FileGraph>,
}

#[allow(dead_code)]
impl Graph {
    fn new() -> Graph {
        Graph { files: Vec::new() }
    }

    fn merge_file_graph(&mut self, fg: FileGraph) {
        self.files.retain(|f| f.path != fg.path);
        self.files.push(fg);
    }

    fn all_symbols(&self) -> Vec<Symbol> {
        let mut v: Vec<Symbol> = self.files.iter().flat_map(|f| f.symbols.clone()).collect();
        v.sort_by_key(symbol_id);
        v
    }

    fn edges(&self, kind: EdgeKind) -> Vec<Edge> {
        self.files
            .iter()
            .flat_map(|f| f.edges.clone())
            .filter(|e| e.kind == kind)
            .collect()
    }

    fn knows_file(&self, path: &str) -> bool {
        self.files.iter().any(|f| f.path == path)
            || self.edges(EdgeKind::Includes).iter().any(|e| e.to == path)
    }

    fn file_symbols(&self, path: &str) -> Vec<Symbol> {
        self.files
            .iter()
            .filter(|f| f.path == path)
            .flat_map(|f| f.symbols.clone())
            .collect()
    }

    fn symbol_detail(&self, id: &str) -> Option<Symbol> {
        self.all_symbols().into_iter().find(|s| symbol_id(s) == id)
    }

    /// The symbols whose names hold a text, whatever its case.
    fn search_symbols(&self, name: &str) -> Vec<Symbol> {
        let wanted = name.to_lowercase();
        self.all_symbols()
            .into_iter()
            .filter(|s| s.name.to_lowercase().contains(&wanted))
            .collect()
    }

    /// Whether a name matches a pattern of literal text, anchors and `.*`.
    fn name_matches(pattern: &str, name: &str) -> bool {
        let name = name.to_lowercase();
        let pattern = pattern.to_lowercase();
        let start = pattern.starts_with('^');
        let end = pattern.ends_with('$');
        let core = pattern.trim_start_matches('^').trim_end_matches('$');
        if core.contains(".*") {
            return core.split(".*").all(|part| name.contains(part));
        }
        match (start, end) {
            (true, true) => name == core,
            (true, false) => name.starts_with(core),
            (false, true) => name.ends_with(core),
            (false, false) => name.contains(core),
        }
    }

    fn search(&self, p: &SearchParams) -> (Vec<Symbol>, u32) {
        let wanted = p.namespace.to_lowercase();
        let hits: Vec<Symbol> = self
            .all_symbols()
            .into_iter()
            .filter(|s| Graph::name_matches(&p.pattern, &s.name))
            .filter(|s| p.kind.map_or(true, |k| s.kind == k))
            .filter(|s| p.language.map_or(true, |l| s.language == l))
            .filter(|s| wanted.is_empty() || s.namespace.to_lowercase().contains(&wanted))
            .filter(|s| {
                p.subtree
                    .as_ref()
                    .map_or(true, |d| s.file.starts_with(&format!("{d}/")))
            })
            .collect();
        let total = hits.len() as u32;
        if p.count_only {
            return (Vec::new(), total);
        }
        let page = hits
            .into_iter()
            .skip(p.offset as usize)
            .take(p.limit as usize)
            .collect();
        (page, total)
    }

    fn symbol_summary(&self, file: Option<&str>) -> Vec<NamespaceCounts> {
        let mut counts: std::collections::HashMap<String, Vec<KindCount>> =
            std::collections::HashMap::new();
        for s in self.all_symbols() {
            if file.map_or(false, |f| s.file != f) {
                continue;
            }
            let kinds = counts.entry(s.namespace.clone()).or_default();
            match kinds.iter_mut().find(|k| k.kind == s.kind) {
                Some(k) => k.count += 1,
                None => kinds.push(KindCount {
                    kind: s.kind,
                    count: 1,
                }),
            }
        }
        counts
            .into_iter()
            .map(|(namespace, kinds)| NamespaceCounts { namespace, kinds })
            .collect()
    }

    fn walk(&self, start: &str, depth: u32, direction: Direction) -> Vec<CallChain> {
        let calls = self.edges(EdgeKind::Calls);
        let mut seen = vec![start.to_string()];
        let mut frontier = vec![start.to_string()];
        let mut out = Vec::new();
        for d in 1..=depth {
            let mut next = Vec::new();
            for at in &frontier {
                for e in &calls {
                    let (here, there) = match direction {
                        Direction::Callers => (&e.to, &e.from),
                        Direction::Callees => (&e.from, &e.to),
                    };
                    if here == at && !seen.contains(there) && self.symbol_detail(there).is_some() {
                        seen.push(there.clone());
                        next.push(there.clone());
                        out.push(CallChain {
                            symbol_id: there.clone(),
                            file: id_to_file(there),
                            line: e.line,
                            depth: d,
                        });
                    }
                }
            }
            frontier = next;
        }
        out
    }

    fn file_dependencies(&self, path: &str) -> Vec<IncludeEntry> {
        self.edges(EdgeKind::Includes)
            .into_iter()
            .filter(|e| e.file == path)
            .map(|e| IncludeEntry {
                path: e.to,
                line: e.line,
            })
            .collect()
    }

    fn detect_cycles(&self) -> Vec<FileCycle> {
        let edges = self.edges(EdgeKind::Includes);
        let mut next: std::collections::HashMap<String, Vec<String>> =
            std::collections::HashMap::new();
        for e in &edges {
            next.entry(e.file.clone()).or_default().push(e.to.clone());
        }
        let reach = |from: &str| -> std::collections::HashSet<String> {
            let mut seen = std::collections::HashSet::new();
            let mut todo = vec![from.to_string()];
            while let Some(at) = todo.pop() {
                for to in next.get(&at).cloned().unwrap_or_default() {
                    if seen.insert(to.clone()) {
                        todo.push(to);
                    }
                }
            }
            seen
        };
        let reachable: std::collections::HashMap<String, std::collections::HashSet<String>> =
            next.keys().map(|k| (k.clone(), reach(k))).collect();
        let mut done = std::collections::HashSet::new();
        let mut cycles = Vec::new();
        for (file, to) in &reachable {
            if !to.contains(file) || done.contains(file) {
                continue;
            }
            let files: Vec<String> = to
                .iter()
                .filter(|t| reachable.get(*t).map_or(false, |r| r.contains(file)))
                .cloned()
                .collect();
            for f in &files {
                done.insert(f.clone());
            }
            if files.len() > 1 {
                cycles.push(FileCycle { files });
            }
        }
        cycles
    }

    fn orphans(&self, kind: Option<SymbolKind>) -> Vec<Symbol> {
        let calls = self.edges(EdgeKind::Calls);
        self.all_symbols()
            .into_iter()
            .filter(|s| match kind {
                Some(k) => s.kind == k,
                None => matches!(s.kind, SymbolKind::Function | SymbolKind::Method),
            })
            .filter(|s| {
                let id = symbol_id(s);
                !calls.iter().any(|e| e.to == id)
            })
            .collect()
    }

    fn find_classes_named(&self, name: &str) -> Vec<Symbol> {
        self.all_symbols()
            .into_iter()
            .filter(|s| s.name == name && is_class_like(s.kind))
            .collect()
    }

    fn class_hierarchy(&self, class: &str, depth: u32, max_nodes: u32) -> Option<Hierarchy> {
        if self.find_classes_named(class).is_empty() {
            return None;
        }
        let mut seen = vec![class.to_string()];
        let mut truncated = false;
        let tree = self.hierarchy_node(class, depth, max_nodes, &mut seen, &mut truncated);
        Some(Hierarchy {
            tree,
            nodes_seen: seen.len() as u32,
            truncated,
        })
    }

    fn hierarchy_node(
        &self,
        class: &str,
        depth: u32,
        max_nodes: u32,
        seen: &mut Vec<String>,
        truncated: &mut bool,
    ) -> Json {
        let inherits = self.edges(EdgeKind::Inherits);
        let mut sides = Vec::new();
        for up in [true, false] {
            let mut nodes = Vec::new();
            for e in &inherits {
                let (here, there) = if up { (&e.from, &e.to) } else { (&e.to, &e.from) };
                if here != class || depth == 0 || seen.contains(there) {
                    continue;
                }
                if seen.len() as u32 >= max_nodes {
                    *truncated = true;
                    continue;
                }
                seen.push(there.clone());
                nodes.push(self.hierarchy_node(there, depth - 1, max_nodes, seen, truncated));
            }
            sides.push(nodes);
        }
        let derived = sides.pop().unwrap_or_default();
        let bases = sides.pop().unwrap_or_default();
        Json::Object(vec![
            Member {
                key: "name".to_string(),
                value: Json::Text(class.to_string()),
            },
            Member {
                key: "bases".to_string(),
                value: Json::Array(bases),
            },
            Member {
                key: "derived".to_string(),
                value: Json::Array(derived),
            },
        ])
    }

    /// The edges between files: the file that each leaves and the one it enters.
    fn file_links(&self) -> Vec<(String, String)> {
        let mut links: Vec<(String, String)> = Vec::new();
        for e in self.edges(EdgeKind::Calls) {
            links.push((id_to_file(&e.from), id_to_file(&e.to)));
        }
        for e in self.edges(EdgeKind::Includes) {
            links.push((e.file, e.to));
        }
        links.retain(|(a, b)| a != b);
        links
    }

    fn counted(files: Vec<String>) -> Vec<(String, u32)> {
        let mut counts: std::collections::HashMap<String, u32> = std::collections::HashMap::new();
        for f in files {
            *counts.entry(f).or_default() += 1;
        }
        counts.into_iter().collect()
    }

    fn coupling(&self, path: &str) -> Vec<(String, u32)> {
        let links = self.file_links();
        Graph::counted(links.into_iter().filter(|l| l.0 == path).map(|l| l.1).collect())
    }

    fn incoming_coupling(&self, path: &str) -> Vec<(String, u32)> {
        let links = self.file_links();
        Graph::counted(links.into_iter().filter(|l| l.1 == path).map(|l| l.0).collect())
    }

    fn short_name(id: &str) -> String {
        id.rsplit(':').next().unwrap_or(id).to_string()
    }

    fn diagram(&self, plan: &DiagramPlan) -> Option<Diagram> {
        let edges: Vec<DiagramEdge> = match &plan.subject {
            DiagramSubject::Symbol(id, direction) => {
                self.symbol_detail(id)?;
                self.edges(EdgeKind::Calls)
                    .into_iter()
                    .filter(|e| {
                        let out = e.from == *id && *direction != DiagramDirection::Callers;
                        let back = e.to == *id && *direction != DiagramDirection::Callees;
                        out || back
                    })
                    .filter(|e| {
                        self.symbol_detail(&e.from).is_some() && self.symbol_detail(&e.to).is_some()
                    })
                    .filter(|e| plan.min_confidence.map_or(true, |c| e.confidence == c))
                    .map(|e| DiagramEdge {
                        from: Graph::short_name(&e.from),
                        to: Graph::short_name(&e.to),
                        label: "calls".to_string(),
                    })
                    .collect()
            }
            DiagramSubject::File(path) => {
                if !self.knows_file(path) {
                    return None;
                }
                self.edges(EdgeKind::Includes)
                    .into_iter()
                    .filter(|e| e.file == *path || e.to == *path)
                    .map(|e| DiagramEdge {
                        from: e.file,
                        to: e.to,
                        label: "includes".to_string(),
                    })
                    .collect()
            }
            DiagramSubject::Class(name) => {
                if self.find_classes_named(name).is_empty() {
                    return None;
                }
                self.edges(EdgeKind::Inherits)
                    .into_iter()
                    .filter(|e| e.from == *name || e.to == *name)
                    .map(|e| DiagramEdge {
                        from: e.from,
                        to: e.to,
                        label: "inherits".to_string(),
                    })
                    .collect()
            }
        };
        let mut drawing = String::from("graph TD\n");
        for e in &edges {
            drawing.push_str(&format!("{} -->|{}| {}\n", e.from, e.label, e.to));
        }
        if plan.styled {
            drawing.push_str("subject:::center\nclassDef center fill:#f9f\n");
        }
        Some(Diagram { edges, drawing })
    }
}

fn locked(g: Graph) -> Graph {
    g
}

#[allow(dead_code)]
fn js<T: Into<serde_json::Value>>(v: T) -> serde_json::Value {
    v.into()
}

#[allow(dead_code)]
fn json_text<T: ToJson>(v: &T) -> String {
    v.to_json().to_text()
}

#[allow(dead_code)]
fn body_text(r: &CallToolResult) -> String {
    r.content
        .first()
        .and_then(|c| c.as_text())
        .map(|t| t.text.to_string())
        .unwrap_or_default()
}

#[allow(dead_code)]
fn page_parts(r: &CallToolResult) -> (Vec<serde_json::Value>, u32, u32, u32) {
    let parsed: serde_json::Value = serde_json::from_str(&body_text(r)).unwrap();
    let results = parsed["results"].as_array().cloned().unwrap_or_default();
    let total = parsed["total"].as_u64().unwrap_or(0) as u32;
    let offset = parsed["offset"].as_u64().unwrap_or(0) as u32;
    let limit = parsed["limit"].as_u64().unwrap_or(0) as u32;
    (results, total, offset, limit)
}

#[allow(dead_code)]
fn page_extras(r: &CallToolResult) -> (bool, Option<u32>) {
    let parsed: serde_json::Value = serde_json::from_str(&body_text(r)).unwrap();
    let truncated = parsed["truncated"].as_bool().expect("truncated");
    let next_offset = match &parsed["next_offset"] {
        serde_json::Value::Null => None,
        v => Some(v.as_u64().expect("next_offset") as u32),
    };
    (truncated, next_offset)
}

#[allow(clippy::too_many_arguments)]
fn get_file_symbols(
    g: &Graph,
    file: &str,
    top_level_only: bool,
    brief: bool,
    limit: Option<u32>,
    offset: Option<u32>,
    count_only: bool,
    max_bytes: usize,
) -> CallToolResult {
    symbols::get_file_symbols(
        &g.file_symbols(file),
        file,
        top_level_only,
        brief,
        limit,
        offset,
        count_only,
        max_bytes,
    )
    .into_call_tool_result()
}

fn search_symbols(g: &Graph, input: SearchSymbolsInput<'_>, max_bytes: usize) -> CallToolResult {
    let mut answer = SearchAnswer {
        symbols: Vec::new(),
        total: 0,
        related: Vec::new(),
        all_symbols: g.all_symbols(),
    };
    match symbols::plan_search(&input) {
        Ok(SearchPlan::Count(p)) | Ok(SearchPlan::Find(p)) => {
            let (page, total) = g.search(&p);
            answer.symbols = page;
            answer.total = total;
            if let Some(inner) = symbols::suggestion_pattern(&p.pattern, total) {
                answer.related = g.search_symbols(&inner);
            }
        }
        _ => {}
    }
    symbols::search_symbols(input, &answer, max_bytes).into_call_tool_result()
}

fn get_symbol_detail(g: &Graph, symbol: &str) -> CallToolResult {
    let found = g.symbol_detail(symbol);
    symbols::get_symbol_detail(symbol, found.as_ref(), &g.search_symbols(symbol))
        .into_call_tool_result()
}

fn get_symbol_summary(
    g: &Graph,
    file: Option<&str>,
    limit: Option<u32>,
    offset: Option<u32>,
    count_only: bool,
    max_bytes: usize,
) -> CallToolResult {
    let file = code_graph_tools::handlers::given_argument(file);
    symbols::get_symbol_summary(&g.symbol_summary(file), limit, offset, count_only, max_bytes)
        .into_call_tool_result()
}

fn sym(name: &str, kind: SymbolKind, file: &str, parent: &str) -> Symbol {
    Symbol {
        name: name.to_string(),
        kind,
        file: file.to_string(),
        line: 1,
        column: 0,
        end_line: 1,
        signature: format!("sig {name}"),
        namespace: String::new(),
        parent: parent.to_string(),
        language: Language::Cpp,
    }
}

fn small_graph() -> Graph {
    let mut g = Graph::new();
    g.merge_file_graph(FileGraph {
        path: "/a.cpp".to_string(),
        language: Language::Cpp,
        symbols: vec![
            sym("foo", SymbolKind::Function, "/a.cpp", ""),
            sym("Bar", SymbolKind::Class, "/a.cpp", ""),
            sym("do_thing", SymbolKind::Method, "/a.cpp", "Bar"),
        ],
        edges: Vec::new(),
    });
    g
}

#[test]
fn file_symbols_missing_file_param_errors() {
    let g = locked(Graph::new());
    let r = get_file_symbols(&g, "", false, true, None, None, false, NO_BYTE_BUDGET);
    assert_eq!(r.is_error, Some(true));
    assert_eq!(body_text(&r), "'file' is required");
}

#[test]
fn file_symbols_unknown_file_errors() {
    let g = locked(Graph::new());
    let r = get_file_symbols(
        &g,
        "/missing.cpp",
        false,
        true,
        None,
        None,
        false,
        NO_BYTE_BUDGET,
    );
    assert_eq!(r.is_error, Some(true));
    assert_eq!(body_text(&r), "no symbols found in file: /missing.cpp");
}

#[test]
fn file_symbols_empty_raw_set_returns_error() {
    let g = locked(Graph::new());
    let r = get_file_symbols(
        &g,
        "/missing.cpp",
        false,
        true,
        Some(50),
        Some(10),
        false,
        NO_BYTE_BUDGET,
    );
    assert_eq!(r.is_error, Some(true));
    assert_eq!(body_text(&r), "no symbols found in file: /missing.cpp");

    assert!(serde_json::from_str::<serde_json::Value>(&body_text(&r))
        .map(|v| v.get("results").is_none())
        .unwrap_or(true));
}

#[test]
fn file_symbols_empty_post_filter_returns_empty_envelope() {
    let mut g = Graph::new();
    g.merge_file_graph(FileGraph {
        path: "/methods_only.cpp".to_string(),
        language: Language::Cpp,
        symbols: vec![
            sym("a", SymbolKind::Method, "/methods_only.cpp", "Cls"),
            sym("b", SymbolKind::Method, "/methods_only.cpp", "Cls"),
            sym("c", SymbolKind::Method, "/methods_only.cpp", "Cls"),
        ],
        edges: Vec::new(),
    });
    let g = locked(g);
    let r = get_file_symbols(
        &g,
        "/methods_only.cpp",
        true,
        true,
        None,
        None,
        false,
        NO_BYTE_BUDGET,
    );

    assert!(r.is_error.is_none() || r.is_error == Some(false));
    let (arr, total, offset, limit) = page_parts(&r);
    assert!(arr.is_empty());
    assert_eq!(total, 0);
    assert_eq!(offset, 0);
    assert_eq!(limit, 100);
}

#[test]
fn file_symbols_returns_full_list_in_brief_mode() {
    let g = locked(small_graph());
    let r = get_file_symbols(&g, "/a.cpp", false, true, None, None, false, NO_BYTE_BUDGET);
    assert!(r.is_error.is_none() || r.is_error == Some(false));
    let (arr, total, _, _) = page_parts(&r);
    assert_eq!(arr.len(), 3);
    assert_eq!(total, 3);

    for entry in arr {
        assert!(entry.get("id").is_some());
        assert!(entry.get("name").is_some());
        assert!(entry.get("kind").is_some());

        assert!(entry.get("file").is_none());

        assert!(entry.get("signature").is_none());
    }
}

#[test]
fn file_symbols_top_level_only_filters_out_methods() {
    let g = locked(small_graph());
    let r = get_file_symbols(&g, "/a.cpp", true, true, None, None, false, NO_BYTE_BUDGET);
    let (arr, total, _, _) = page_parts(&r);

    assert_eq!(arr.len(), 2);
    assert_eq!(total, 2);
    for entry in arr {
        assert!(entry.get("parent").is_none());
    }
}

#[test]
fn file_symbols_brief_false_includes_signature() {
    let g = locked(small_graph());
    let r = get_file_symbols(
        &g,
        "/a.cpp",
        false,
        false,
        None,
        None,
        false,
        NO_BYTE_BUDGET,
    );
    let (arr, _, _, _) = page_parts(&r);
    for entry in arr {
        assert!(entry.get("signature").is_some());
    }
}

fn graph_with_n_file_symbols(n: usize) -> Graph {
    let mut g = Graph::new();
    let mut symbols: Vec<Symbol> = Vec::with_capacity(n);
    for i in 0..n {
        symbols.push(sym(
            &format!("func_{i:03}"),
            SymbolKind::Function,
            "/big.cpp",
            "",
        ));
    }
    g.merge_file_graph(FileGraph {
        path: "/big.cpp".to_string(),
        language: Language::Cpp,
        symbols,
        edges: vec![],
    });
    g
}

#[test]
fn file_symbols_default_limit_is_100() {
    let g = locked(graph_with_n_file_symbols(120));
    let r = get_file_symbols(
        &g,
        "/big.cpp",
        false,
        true,
        None,
        None,
        false,
        NO_BYTE_BUDGET,
    );
    let (arr, total, offset, limit) = page_parts(&r);
    assert_eq!(arr.len(), 100);
    assert_eq!(total, 120);
    assert_eq!(offset, 0);
    assert_eq!(limit, 100);
}

#[test]
fn file_symbols_page_1_and_page_2_cover_full_set() {
    let g = locked(graph_with_n_file_symbols(150));
    let p1 = get_file_symbols(
        &g,
        "/big.cpp",
        false,
        true,
        Some(100),
        Some(0),
        false,
        NO_BYTE_BUDGET,
    );
    let p2 = get_file_symbols(
        &g,
        "/big.cpp",
        false,
        true,
        Some(100),
        Some(100),
        false,
        NO_BYTE_BUDGET,
    );
    let (a1, t1, _, _) = page_parts(&p1);
    let (a2, t2, _, _) = page_parts(&p2);
    assert_eq!(a1.len(), 100);
    assert_eq!(a2.len(), 50);
    assert_eq!(t1, 150);
    assert_eq!(t2, 150);

    let mut ids: Vec<String> = a1
        .iter()
        .chain(a2.iter())
        .map(|e| e["id"].as_str().unwrap().to_string())
        .collect();
    ids.sort();
    ids.dedup();
    assert_eq!(ids.len(), 150);
}

#[test]
fn file_symbols_total_is_pre_pagination_count() {
    let g = locked(graph_with_n_file_symbols(150));
    let r1 = get_file_symbols(
        &g,
        "/big.cpp",
        false,
        true,
        Some(50),
        Some(0),
        false,
        NO_BYTE_BUDGET,
    );
    let r2 = get_file_symbols(
        &g,
        "/big.cpp",
        false,
        true,
        Some(50),
        Some(50),
        false,
        NO_BYTE_BUDGET,
    );
    let r3 = get_file_symbols(
        &g,
        "/big.cpp",
        false,
        true,
        Some(10),
        Some(140),
        false,
        NO_BYTE_BUDGET,
    );
    let (_, t1, _, _) = page_parts(&r1);
    let (_, t2, _, _) = page_parts(&r2);
    let (_, t3, _, _) = page_parts(&r3);
    assert_eq!(t1, 150);
    assert_eq!(t2, 150);
    assert_eq!(t3, 150);
}

#[test]
fn file_symbols_limit_clamps_at_1000() {
    let g = locked(graph_with_n_file_symbols(5));
    let r = get_file_symbols(
        &g,
        "/big.cpp",
        false,
        true,
        Some(999_999),
        None,
        false,
        NO_BYTE_BUDGET,
    );
    let (arr, _, _, limit) = page_parts(&r);
    assert_eq!(limit, 1000);
    assert_eq!(arr.len(), 5);
}

#[test]
fn file_symbols_zero_limit_uses_default() {
    let g = locked(graph_with_n_file_symbols(5));
    let r = get_file_symbols(
        &g,
        "/big.cpp",
        false,
        true,
        Some(0),
        None,
        false,
        NO_BYTE_BUDGET,
    );
    let (_, _, _, limit) = page_parts(&r);
    assert_eq!(limit, 100);
}

#[test]
fn file_symbols_offset_beyond_total_returns_empty() {
    let g = locked(graph_with_n_file_symbols(5));
    let r = get_file_symbols(
        &g,
        "/big.cpp",
        false,
        true,
        None,
        Some(999),
        false,
        NO_BYTE_BUDGET,
    );
    let (arr, total, offset, limit) = page_parts(&r);
    assert!(arr.is_empty());
    assert_eq!(total, 5);
    assert_eq!(offset, 999);
    assert_eq!(limit, 100);
}

#[test]
fn file_symbols_byte_budget_truncates_oversized_page() {
    let g = locked(graph_with_n_file_symbols(30));
    let max_bytes = ENVELOPE_OVERHEAD_BYTES + 300;
    let r = get_file_symbols(
        &g,
        "/big.cpp",
        false,
        true,
        Some(20),
        Some(0),
        false,
        max_bytes,
    );

    let (arr, total, offset, limit) = page_parts(&r);
    let (truncated, next_offset) = page_extras(&r);

    assert!(truncated);
    assert!((arr.len() as u32) < limit);
    assert!(!arr.is_empty());
    match next_offset {
        Some(n) => assert!(n > offset),
        None => panic!("truncated=true must set next_offset=Some(n)"),
    }
    assert!(total >= arr.len() as u32 + offset);

    assert_eq!(total, 30);
}

#[test]
fn file_symbols_byte_budget_no_truncation_with_no_budget() {
    let g = locked(graph_with_n_file_symbols(30));
    let r = get_file_symbols(
        &g,
        "/big.cpp",
        false,
        true,
        Some(20),
        Some(0),
        false,
        NO_BYTE_BUDGET,
    );
    let (arr, total, _, _) = page_parts(&r);
    let (truncated, next_offset) = page_extras(&r);
    assert_eq!(arr.len(), 20);
    assert_eq!(total, 30);
    assert!(!truncated);
    assert_eq!(next_offset, None);
}

#[test]
fn file_symbols_byte_budget_does_not_change_empty_raw_set_error() {
    let g = locked(Graph::new());

    let r = get_file_symbols(&g, "/missing.cpp", false, true, None, None, false, 0);
    assert_eq!(r.is_error, Some(true));
    assert_eq!(body_text(&r), "no symbols found in file: /missing.cpp");
}

#[test]
fn file_symbols_count_only_returns_sentinel_envelope_under_1kb() {
    let g = locked(graph_with_n_file_symbols(1000));
    let r = get_file_symbols(
        &g,
        "/big.cpp",
        false,
        true,
        None,
        None,
        true,
        NO_BYTE_BUDGET,
    );

    let body = body_text(&r);
    assert!(body.len() < 1024);

    let parsed: serde_json::Value = serde_json::from_str(&body).unwrap();
    let results = parsed["results"].as_array().unwrap();
    let total = parsed["total"].as_u64().unwrap();
    let offset = parsed["offset"].as_u64().unwrap();
    let limit = parsed["limit"].as_u64().unwrap();
    let truncated = parsed["truncated"].as_bool().unwrap();
    let next_offset = parsed["next_offset"].clone();

    assert!(results.is_empty());
    assert_eq!(total, 1000);
    assert_eq!(offset, 0);
    assert_eq!(limit, 0);
    assert!(!truncated);
    assert_eq!(next_offset, serde_json::Value::Null);
}

#[test]
fn file_symbols_count_only_respects_top_level_only_filter() {
    let g = locked(small_graph());

    let r = get_file_symbols(&g, "/a.cpp", false, true, None, None, true, NO_BYTE_BUDGET);
    let parsed: serde_json::Value = serde_json::from_str(&body_text(&r)).unwrap();
    assert_eq!(parsed["total"].as_u64().unwrap(), 3);
    assert!(parsed["results"].as_array().unwrap().is_empty());

    let r = get_file_symbols(&g, "/a.cpp", true, true, None, None, true, NO_BYTE_BUDGET);
    let parsed: serde_json::Value = serde_json::from_str(&body_text(&r)).unwrap();
    assert_eq!(parsed["total"].as_u64().unwrap(), 2);
    assert!(parsed["results"].as_array().unwrap().is_empty());
}

#[test]
fn file_symbols_count_only_empty_raw_set_still_errors() {
    let g = locked(Graph::new());
    let r = get_file_symbols(
        &g,
        "/missing.cpp",
        false,
        true,
        None,
        None,
        true,
        NO_BYTE_BUDGET,
    );
    assert_eq!(r.is_error, Some(true));
    assert_eq!(body_text(&r), "no symbols found in file: /missing.cpp");
}

#[test]
fn file_symbols_count_only_empty_file_param_still_errors() {
    let g = locked(Graph::new());
    let r = get_file_symbols(&g, "", false, true, None, None, true, NO_BYTE_BUDGET);
    assert_eq!(r.is_error, Some(true));
    assert_eq!(body_text(&r), "'file' is required");
}

fn search_input<'a>() -> SearchSymbolsInput<'a> {
    SearchSymbolsInput {
        subtree: None,
        brief: true,
        ..SearchSymbolsInput::default()
    }
}

fn graph_with_foos_in_two_subtrees() -> Graph {
    let mut g = Graph::new();
    g.merge_file_graph(FileGraph {
        path: "/a/x.cpp".to_string(),
        language: Language::Cpp,
        symbols: vec![sym_in("foo", SymbolKind::Function, "/a/x.cpp")],
        edges: vec![],
    });
    g.merge_file_graph(FileGraph {
        path: "/b/y.cpp".to_string(),
        language: Language::Cpp,
        symbols: vec![sym_in("foo", SymbolKind::Function, "/b/y.cpp")],
        edges: vec![],
    });
    g
}

fn sym_in(name: &str, kind: SymbolKind, file: &str) -> Symbol {
    Symbol {
        name: name.to_string(),
        kind,
        file: file.to_string(),
        line: 1,
        column: 0,
        end_line: 1,
        signature: String::new(),
        namespace: String::new(),
        parent: String::new(),
        language: Language::Cpp,
    }
}

#[test]
fn search_symbols_subtree_filter_narrows_via_trie_iter_subtree() {
    let g = locked(graph_with_foos_in_two_subtrees());
    let input = SearchSymbolsInput {
        query: Some("foo"),
        subtree: Some("/a"),
        ..search_input()
    };
    let r = search_symbols(&g, input, NO_BYTE_BUDGET);
    let body: serde_json::Value = serde_json::from_str(&body_text(&r)).unwrap();
    let results = body["results"].as_array().unwrap();
    assert_eq!(results.len(), 1);

    let sid = results[0]["id"].as_str().unwrap();
    assert!(sid.starts_with("/a/x.cpp"));
    assert_eq!(body["total"].as_u64().unwrap(), 1);

    let input_all = SearchSymbolsInput {
        query: Some("foo"),
        ..search_input()
    };
    let r_all = search_symbols(&g, input_all, NO_BYTE_BUDGET);
    let body_all: serde_json::Value = serde_json::from_str(&body_text(&r_all)).unwrap();
    assert_eq!(body_all["results"].as_array().unwrap().len(), 2);
    assert_eq!(body_all["total"].as_u64().unwrap(), 2);
}

#[test]
fn search_symbols_subtree_count_only_uses_subtree() {
    let g = locked(graph_with_foos_in_two_subtrees());
    let input = SearchSymbolsInput {
        query: Some("foo"),
        subtree: Some("/a"),
        count_only: true,
        ..search_input()
    };
    let r = search_symbols(&g, input, NO_BYTE_BUDGET);
    let body: serde_json::Value = serde_json::from_str(&body_text(&r)).unwrap();
    assert_eq!(body["total"].as_u64().unwrap(), 1);
    assert!(body["results"].as_array().unwrap().is_empty());
}

#[test]
fn search_symbols_response_flatten_hoists_page_fields_and_keeps_suggestions() {
    let resp = SearchSymbolsResponse {
        page: Page {
            results: vec![],
            total: 0,
            offset: 0,
            limit: 20,
            truncated: false,
            next_offset: None,
        },
        suggestions: vec!["Foo".into(), "Bar".into()],
    };
    let json = json_text(&resp);

    assert!(json.contains(r#""results":[]"#));
    assert!(json.contains(r#""total":0"#));
    assert!(json.contains(r#""offset":0"#));
    assert!(json.contains(r#""limit":20"#));

    assert!(!json.contains(r#""page""#));

    assert!(json.contains(r#""suggestions":["Foo","Bar"]"#));

    let v: serde_json::Value = serde_json::from_str(&json).unwrap();
    let obj = v.as_object().unwrap();
    assert!(obj.contains_key("results"));
    assert!(obj.contains_key("total"));
    assert!(obj.contains_key("truncated"));
    assert!(obj.contains_key("next_offset"));
    assert!(!obj.contains_key("page"));
    assert_eq!(obj["suggestions"], js(vec!["Foo", "Bar"]));
}

#[test]
fn search_symbols_response_empty_suggestions_omits_the_key_entirely() {
    let resp = SearchSymbolsResponse {
        page: Page {
            results: vec![],
            total: 0,
            offset: 0,
            limit: 20,
            truncated: false,
            next_offset: None,
        },
        suggestions: vec![],
    };
    let json = json_text(&resp);
    assert!(!json.contains("suggestions"));

    let bare: Page<SymbolResult> = Page {
        results: vec![],
        total: 0,
        offset: 0,
        limit: 20,
        truncated: false,
        next_offset: None,
    };
    assert_eq!(json, json_text(&bare));
}

#[test]
fn search_symbols_no_filter_errors() {
    let g = locked(small_graph());
    let r = search_symbols(&g, search_input(), NO_BYTE_BUDGET);
    assert_eq!(r.is_error, Some(true));
    assert_eq!(body_text(&r), "'query', 'kind', 'namespace', or 'language' is required");
}

#[test]
fn search_symbols_validation_lists_all_four_filters() {
    let g = locked(small_graph());
    let r = search_symbols(&g, search_input(), NO_BYTE_BUDGET);
    assert_eq!(body_text(&r), "'query', 'kind', 'namespace', or 'language' is required");
}

#[test]
fn search_symbols_all_empty_strings_errors() {
    let g = locked(small_graph());
    let r = search_symbols(
        &g,
        SearchSymbolsInput {
            subtree: None,
            query: Some(""),
            kind: Some(""),
            namespace: Some(""),
            language: Some(""),
            ..search_input()
        },
        NO_BYTE_BUDGET,
    );
    assert_eq!(r.is_error, Some(true));
}

#[test]
fn search_symbols_unknown_kind_errors() {
    let g = locked(small_graph());
    let r = search_symbols(
        &g,
        SearchSymbolsInput {
            subtree: None,
            kind: Some("widget"),
            ..search_input()
        },
        NO_BYTE_BUDGET,
    );
    assert_eq!(r.is_error, Some(true));
    assert_eq!(body_text(&r), "invalid kind: widget");
}

#[test]
fn search_symbols_unknown_language_errors() {
    let g = locked(small_graph());
    let r = search_symbols(
        &g,
        SearchSymbolsInput {
            subtree: None,
            language: Some("ruby"),
            ..search_input()
        },
        NO_BYTE_BUDGET,
    );
    assert_eq!(r.is_error, Some(true));
    assert_eq!(body_text(&r), "invalid language: ruby");
}

#[test]
fn search_symbols_returns_pagination_envelope() {
    let g = locked(small_graph());
    let r = search_symbols(
        &g,
        SearchSymbolsInput {
            subtree: None,
            query: Some("foo"),
            limit: Some(10),
            offset: Some(0),
            ..search_input()
        },
        NO_BYTE_BUDGET,
    );
    assert!(r.is_error.is_none() || r.is_error == Some(false));
    let parsed: serde_json::Value = serde_json::from_str(&body_text(&r)).unwrap();
    assert!(parsed.get("results").is_some());
    assert_eq!(parsed["total"], js(1));
    assert_eq!(parsed["offset"], js(0));
    assert_eq!(parsed["limit"], js(10));
}

#[test]
fn search_symbols_default_limit_when_zero() {
    let g = locked(small_graph());
    let r = search_symbols(
        &g,
        SearchSymbolsInput {
            subtree: None,
            query: Some("foo"),
            limit: Some(0),
            ..search_input()
        },
        NO_BYTE_BUDGET,
    );
    let parsed: serde_json::Value = serde_json::from_str(&body_text(&r)).unwrap();

    assert_eq!(parsed["limit"], js(20));
}

#[test]
fn search_symbols_anchored_typo_falls_back_to_levenshtein() {
    let mut g = Graph::new();
    g.merge_file_graph(FileGraph {
        path: "/x.cpp".to_string(),
        language: Language::Cpp,
        symbols: vec![sym("AActor", SymbolKind::Class, "/x.cpp", "")],
        edges: Vec::new(),
    });
    let g = locked(g);
    let r = search_symbols(
        &g,
        SearchSymbolsInput {
            query: Some("^AActr$"),
            ..search_input()
        },
        NO_BYTE_BUDGET,
    );
    let parsed: serde_json::Value = serde_json::from_str(&body_text(&r)).unwrap();
    assert_eq!(parsed["total"], js(0));
    let suggestions: Vec<String> = parsed["suggestions"]
        .as_array()
        .map(|arr| {
            arr.iter()
                .filter_map(|v| v.as_str().map(|s| s.to_string()))
                .collect()
        })
        .unwrap_or_default();
    assert!(suggestions.iter().any(|s| s.ends_with(":AActor")));
}

#[test]
fn search_symbols_anchored_long_typo_two_edits_returns_suggestion() {
    let mut g = Graph::new();
    g.merge_file_graph(FileGraph {
        path: "/x.cpp".to_string(),
        language: Language::Cpp,
        symbols: vec![sym("FAchievementsClient", SymbolKind::Class, "/x.cpp", "")],
        edges: Vec::new(),
    });
    let g = locked(g);

    let r = search_symbols(
        &g,
        SearchSymbolsInput {
            query: Some("^FAchievmentsClient$"),
            ..search_input()
        },
        NO_BYTE_BUDGET,
    );
    let parsed: serde_json::Value = serde_json::from_str(&body_text(&r)).unwrap();
    assert_eq!(parsed["total"], js(0));
    let suggestions: Vec<String> = parsed["suggestions"]
        .as_array()
        .map(|arr| {
            arr.iter()
                .filter_map(|v| v.as_str().map(|s| s.to_string()))
                .collect()
        })
        .unwrap_or_default();
    assert!(suggestions
            .iter()
            .any(|s| s.ends_with(":FAchievementsClient")));
}

#[test]
fn search_symbols_regex_query_does_not_fuzzy_match() {
    let mut g = Graph::new();
    g.merge_file_graph(FileGraph {
        path: "/x.cpp".to_string(),
        language: Language::Cpp,
        symbols: vec![sym("AActor", SymbolKind::Class, "/x.cpp", "")],
        edges: Vec::new(),
    });
    let g = locked(g);

    let r = search_symbols(
        &g,
        SearchSymbolsInput {
            query: Some("^.*ZZZNoSuchSymbol.*$"),
            ..search_input()
        },
        NO_BYTE_BUDGET,
    );
    let parsed: serde_json::Value = serde_json::from_str(&body_text(&r)).unwrap();
    assert_eq!(parsed["total"], js(0));

    assert!(parsed.get("suggestions").is_none()
            || parsed["suggestions"].as_array().unwrap().is_empty());
}

#[test]
fn levenshtein_distance_matches_known_pairs() {
    let a: Vec<char> = "kitten".chars().collect();
    let b: Vec<char> = "sitting".chars().collect();
    assert_eq!(levenshtein(&a, &b, 5), 3);
}

#[test]
fn levenshtein_early_exit_returns_over_cap_value() {
    let a: Vec<char> = "abcdef".chars().collect();
    let b: Vec<char> = "zzzzzz".chars().collect();

    let d = levenshtein(&a, &b, 2);
    assert!(d > 2);
}

#[test]
fn max_distance_for_query_length_adaptive() {
    assert_eq!(max_distance_for_query(0), 0);
    assert_eq!(max_distance_for_query(1), 0);
    assert_eq!(max_distance_for_query(5), 1);
    assert_eq!(max_distance_for_query(11), 1);
    assert_eq!(max_distance_for_query(12), 2);
    assert_eq!(max_distance_for_query(17), 2);
    assert_eq!(max_distance_for_query(100), 3);
}

#[test]
fn is_plain_identifier_basic_cases() {
    assert!(is_plain_identifier("AActor"));
    assert!(is_plain_identifier("snake_case_name"));
    assert!(is_plain_identifier("CamelCase123"));
    assert!(!is_plain_identifier(""));
    assert!(!is_plain_identifier("foo.bar"));
    assert!(!is_plain_identifier("foo*"));
    assert!(!is_plain_identifier("foo bar"));
    assert!(!is_plain_identifier(".*"));
}

#[test]
fn search_symbols_near_mode_returns_within_distance_sorted_by_closest() {
    let mut g = Graph::new();
    g.merge_file_graph(FileGraph {
        path: "/x.cpp".to_string(),
        language: Language::Cpp,
        symbols: vec![
            sym("Actor", SymbolKind::Class, "/x.cpp", ""),
            sym("AActor", SymbolKind::Class, "/x.cpp", ""),
            sym("Actr", SymbolKind::Class, "/x.cpp", ""),
            sym("Vector", SymbolKind::Class, "/x.cpp", ""),
            sym("Reactor", SymbolKind::Class, "/x.cpp", ""),
        ],
        edges: Vec::new(),
    });
    let g = locked(g);
    let r = search_symbols(
        &g,
        SearchSymbolsInput {
            query: Some("Actor"),
            near: true,
            max_distance: Some(2),
            ..search_input()
        },
        NO_BYTE_BUDGET,
    );
    let parsed: serde_json::Value = serde_json::from_str(&body_text(&r)).unwrap();
    let results: Vec<&str> = parsed["results"]
        .as_array()
        .unwrap()
        .iter()
        .map(|r| r["name"].as_str().unwrap())
        .collect();
    assert!(results.contains(&"Actor"));
    assert!(results.contains(&"AActor"));
    assert!(results.contains(&"Actr"));
    assert!(results.contains(&"Vector"));
    assert!(!results.contains(&"Reactor"));

    assert_eq!(results.first(), Some(&"Actor"));
}

#[test]
fn search_symbols_near_mode_rejects_regex_query() {
    let g = locked(small_graph());
    let r = search_symbols(
        &g,
        SearchSymbolsInput {
            query: Some("^Foo.*$"),
            near: true,
            ..search_input()
        },
        NO_BYTE_BUDGET,
    );
    assert_eq!(r.is_error, Some(true));
    let body = body_text(&r);
    assert!(body.contains("plain identifier"));
}

#[test]
fn search_symbols_near_mode_rejects_empty_query() {
    let g = locked(small_graph());
    let r = search_symbols(
        &g,
        SearchSymbolsInput {
            query: Some(""),
            kind: Some("function"),
            near: true,
            ..search_input()
        },
        NO_BYTE_BUDGET,
    );
    assert_eq!(r.is_error, Some(true));
    let body = body_text(&r);
    assert!(body.contains("non-empty 'query'"));
}

#[test]
fn search_symbols_near_mode_composes_with_kind_filter() {
    let mut g = Graph::new();
    g.merge_file_graph(FileGraph {
        path: "/a.cpp".to_string(),
        language: Language::Cpp,
        symbols: vec![sym("Actor", SymbolKind::Class, "/a.cpp", "")],
        edges: Vec::new(),
    });
    g.merge_file_graph(FileGraph {
        path: "/b.cpp".to_string(),
        language: Language::Cpp,
        symbols: vec![sym("Actor", SymbolKind::Function, "/b.cpp", "")],
        edges: Vec::new(),
    });
    let g = locked(g);
    let r = search_symbols(
        &g,
        SearchSymbolsInput {
            query: Some("Actor"),
            kind: Some("class"),
            near: true,
            max_distance: Some(0),
            ..search_input()
        },
        NO_BYTE_BUDGET,
    );
    let parsed: serde_json::Value = serde_json::from_str(&body_text(&r)).unwrap();
    let results: Vec<(&str, &str)> = parsed["results"]
        .as_array()
        .unwrap()
        .iter()
        .map(|r| (r["name"].as_str().unwrap(), r["kind"].as_str().unwrap()))
        .collect();
    assert_eq!(results.len(), 1);
    assert_eq!(results[0], ("Actor", "class"));
}

#[test]
fn search_symbols_near_mode_default_distance_is_length_adaptive() {
    let mut g = Graph::new();
    g.merge_file_graph(FileGraph {
        path: "/x.cpp".to_string(),
        language: Language::Cpp,
        symbols: vec![sym("AActor", SymbolKind::Class, "/x.cpp", "")],
        edges: Vec::new(),
    });
    let g = locked(g);

    let r = search_symbols(
        &g,
        SearchSymbolsInput {
            query: Some("AActr"),
            near: true,
            max_distance: None,
            ..search_input()
        },
        NO_BYTE_BUDGET,
    );
    let parsed: serde_json::Value = serde_json::from_str(&body_text(&r)).unwrap();
    assert_eq!(parsed["total"], js(1));
}

#[test]
fn search_symbols_kind_only_filter_accepted() {
    let g = locked(small_graph());
    let r = search_symbols(
        &g,
        SearchSymbolsInput {
            subtree: None,
            kind: Some("function"),
            ..search_input()
        },
        NO_BYTE_BUDGET,
    );
    let parsed: serde_json::Value = serde_json::from_str(&body_text(&r)).unwrap();

    assert_eq!(parsed["total"], js(1));
}

#[test]
fn search_symbols_language_only_filter_accepted() {
    let g = locked(small_graph());
    let r = search_symbols(
        &g,
        SearchSymbolsInput {
            subtree: None,
            language: Some("cpp"),
            ..search_input()
        },
        NO_BYTE_BUDGET,
    );
    let parsed: serde_json::Value = serde_json::from_str(&body_text(&r)).unwrap();

    assert_eq!(parsed["total"], js(3));
}

fn graph_with_n_broad_matches(n: usize) -> Graph {
    let mut g = Graph::new();
    let mut symbols: Vec<Symbol> = Vec::with_capacity(n);
    for i in 0..n {
        symbols.push(sym(
            &format!("match_{i:03}"),
            SymbolKind::Function,
            "/broad.cpp",
            "",
        ));
    }
    g.merge_file_graph(FileGraph {
        path: "/broad.cpp".to_string(),
        language: Language::Cpp,
        symbols,
        edges: Vec::new(),
    });
    g
}

#[test]
fn search_symbols_byte_budget_truncates_oversized_page() {
    let g = locked(graph_with_n_broad_matches(100));
    let max_bytes = ENVELOPE_OVERHEAD_BYTES + 400;
    let r = search_symbols(
        &g,
        SearchSymbolsInput {
            subtree: None,
            query: Some("match"),
            limit: Some(50),
            offset: Some(0),
            ..search_input()
        },
        max_bytes,
    );

    let parsed: serde_json::Value = serde_json::from_str(&body_text(&r)).unwrap();
    let truncated = parsed["truncated"].as_bool().expect("truncated field");
    let next_offset = parsed["next_offset"].as_u64();
    let total = parsed["total"].as_u64().unwrap();
    let results = parsed["results"].as_array().unwrap();
    let limit = parsed["limit"].as_u64().unwrap();

    assert!(truncated);
    let k = next_offset.expect("truncated=true must set next_offset=Some(n)");
    assert!(k < limit);
    assert!((results.len() as u64) < limit);
    assert!(!results.is_empty());

    assert_eq!(total, 100);
}

#[test]
fn search_symbols_byte_budget_records_not_corrupted_by_trim() {
    let g = locked(graph_with_n_broad_matches(100));
    let max_bytes = ENVELOPE_OVERHEAD_BYTES + 400;
    let r = search_symbols(
        &g,
        SearchSymbolsInput {
            subtree: None,
            query: Some("match"),
            limit: Some(50),
            offset: Some(0),
            ..search_input()
        },
        max_bytes,
    );

    let parsed: serde_json::Value = serde_json::from_str(&body_text(&r)).unwrap();
    let results = parsed["results"].as_array().unwrap();
    assert!(!results.is_empty());
    let last = results.last().unwrap();
    let id = last["id"].as_str().expect("last record has a string id");
    let file = id_to_file(id);
    assert!(!file.is_empty());
    assert_eq!(file, "/broad.cpp");
}

#[test]
fn search_symbols_byte_budget_re_paging_correctness() {
    let g = locked(graph_with_n_broad_matches(100));
    let max_bytes = ENVELOPE_OVERHEAD_BYTES + 400;

    let r1 = search_symbols(
        &g,
        SearchSymbolsInput {
            subtree: None,
            query: Some("match"),
            limit: Some(50),
            offset: Some(0),
            ..search_input()
        },
        max_bytes,
    );
    let p1: serde_json::Value = serde_json::from_str(&body_text(&r1)).unwrap();
    let truncated1 = p1["truncated"].as_bool().unwrap();
    let next_offset1 = p1["next_offset"]
        .as_u64()
        .expect("first call must truncate") as u32;
    let results1 = p1["results"].as_array().unwrap();
    assert!(truncated1);

    let expected_first_id_of_page_2 = format!("/broad.cpp:match_{next_offset1:03}");

    let r2 = search_symbols(
        &g,
        SearchSymbolsInput {
            subtree: None,
            query: Some("match"),
            limit: Some(50),
            offset: Some(next_offset1),
            ..search_input()
        },
        NO_BYTE_BUDGET,
    );
    let p2: serde_json::Value = serde_json::from_str(&body_text(&r2)).unwrap();
    let results2 = p2["results"].as_array().unwrap();
    assert!(!results2.is_empty());
    let first_id_of_page_2 = results2[0]["id"].as_str().unwrap();
    assert_eq!(first_id_of_page_2, expected_first_id_of_page_2);

    let last_id_of_page_1 = results1.last().expect("page 1 has at least one record")["id"]
        .as_str()
        .unwrap();
    assert_ne!(last_id_of_page_1, first_id_of_page_2);

    let last_seq: u32 = last_id_of_page_1
        .strip_prefix("/broad.cpp:match_")
        .and_then(|s| s.parse().ok())
        .expect("page 1 last id must end with a 3-digit suffix");
    let first_seq: u32 = first_id_of_page_2
        .strip_prefix("/broad.cpp:match_")
        .and_then(|s| s.parse().ok())
        .expect("page 2 first id must end with a 3-digit suffix");
    assert_eq!(first_seq, last_seq + 1);
}

#[test]
fn search_symbols_byte_budget_no_truncation_with_no_budget() {
    let g = locked(graph_with_n_broad_matches(100));
    let r = search_symbols(
        &g,
        SearchSymbolsInput {
            subtree: None,
            query: Some("match"),
            limit: Some(50),
            offset: Some(0),
            ..search_input()
        },
        NO_BYTE_BUDGET,
    );
    let parsed: serde_json::Value = serde_json::from_str(&body_text(&r)).unwrap();
    let results = parsed["results"].as_array().unwrap();
    let truncated = parsed["truncated"].as_bool().unwrap();
    let next_offset = parsed["next_offset"].clone();
    let total = parsed["total"].as_u64().unwrap();

    assert_eq!(results.len(), 50);
    assert!(!truncated);
    assert_eq!(next_offset, serde_json::Value::Null);
    assert_eq!(total, 100);
}

#[test]
fn search_symbols_short_page_not_marked_truncated() {
    let g = locked(graph_with_n_broad_matches(5));
    let r = search_symbols(
        &g,
        SearchSymbolsInput {
            subtree: None,
            query: Some("match"),
            limit: Some(20),
            offset: Some(0),
            ..search_input()
        },
        NO_BYTE_BUDGET,
    );
    let parsed: serde_json::Value = serde_json::from_str(&body_text(&r)).unwrap();
    let results = parsed["results"].as_array().unwrap();
    let truncated = parsed["truncated"].as_bool().unwrap();
    let next_offset = parsed["next_offset"].clone();
    assert_eq!(results.len(), 5);
    assert!(!truncated);
    assert_eq!(next_offset, serde_json::Value::Null);
}

#[test]
fn search_symbols_short_page_under_tight_but_sufficient_budget() {
    let g = locked(graph_with_n_broad_matches(5));
    let r = search_symbols(
        &g,
        SearchSymbolsInput {
            subtree: None,
            query: Some("match"),
            limit: Some(20),
            offset: Some(0),
            ..search_input()
        },
        ENVELOPE_OVERHEAD_BYTES + 2000,
    );
    let parsed: serde_json::Value = serde_json::from_str(&body_text(&r)).unwrap();
    let results = parsed["results"].as_array().unwrap();
    let truncated = parsed["truncated"].as_bool().unwrap();
    let next_offset = parsed["next_offset"].clone();
    assert_eq!(results.len(), 5);
    assert!(!truncated);
    assert_eq!(next_offset, serde_json::Value::Null);
}

#[test]
fn search_symbols_count_only_returns_sentinel_envelope_under_1kb() {
    let g = locked(graph_with_n_broad_matches(1000));
    let r = search_symbols(
        &g,
        SearchSymbolsInput {
            subtree: None,
            query: Some("match"),
            count_only: true,
            ..search_input()
        },
        NO_BYTE_BUDGET,
    );

    let body = body_text(&r);
    assert!(body.len() < 1024);

    let parsed: serde_json::Value = serde_json::from_str(&body).unwrap();
    let results = parsed["results"].as_array().unwrap();
    let total = parsed["total"].as_u64().unwrap();
    let offset = parsed["offset"].as_u64().unwrap();
    let limit = parsed["limit"].as_u64().unwrap();
    let truncated = parsed["truncated"].as_bool().unwrap();
    let next_offset = parsed["next_offset"].clone();

    assert!(results.is_empty());
    assert_eq!(total, 1000);
    assert_eq!(offset, 0);
    assert_eq!(limit, 0);
    assert!(!truncated);
    assert_eq!(next_offset, serde_json::Value::Null);
}

#[test]
fn search_symbols_count_only_total_matches_full_search_total() {
    let g = locked(graph_with_n_broad_matches(50));

    let r_count = search_symbols(
        &g,
        SearchSymbolsInput {
            subtree: None,
            query: Some("match"),
            count_only: true,
            ..search_input()
        },
        NO_BYTE_BUDGET,
    );
    let parsed: serde_json::Value = serde_json::from_str(&body_text(&r_count)).unwrap();
    let total_count_only = parsed["total"].as_u64().unwrap();

    let r_full = search_symbols(
        &g,
        SearchSymbolsInput {
            subtree: None,
            query: Some("match"),
            limit: Some(1),
            ..search_input()
        },
        NO_BYTE_BUDGET,
    );
    let parsed: serde_json::Value = serde_json::from_str(&body_text(&r_full)).unwrap();
    let total_full = parsed["total"].as_u64().unwrap();

    assert_eq!(total_count_only, total_full);
    assert_eq!(total_count_only, 50);
}

#[test]
fn search_symbols_count_only_still_validates_filters() {
    let g = locked(small_graph());

    let r = search_symbols(
        &g,
        SearchSymbolsInput {
            subtree: None,
            count_only: true,
            ..search_input()
        },
        NO_BYTE_BUDGET,
    );
    assert_eq!(r.is_error, Some(true));
    assert_eq!(body_text(&r), "'query', 'kind', 'namespace', or 'language' is required");

    let r = search_symbols(
        &g,
        SearchSymbolsInput {
            subtree: None,
            kind: Some("widget"),
            count_only: true,
            ..search_input()
        },
        NO_BYTE_BUDGET,
    );
    assert_eq!(r.is_error, Some(true));
    assert_eq!(body_text(&r), "invalid kind: widget");
}

fn suggestion_graph() -> Graph {
    let mut g = Graph::new();
    g.merge_file_graph(FileGraph {
        path: "/s.cpp".to_string(),
        language: Language::Cpp,
        symbols: vec![
            sym("ExistingClass", SymbolKind::Class, "/s.cpp", ""),
            sym("NotFoundClassHelper", SymbolKind::Class, "/s.cpp", ""),
        ],
        edges: Vec::new(),
    });
    g
}

#[test]
fn anchored_exact_zero_result_query_emits_substring_suggestions() {
    let g = locked(suggestion_graph());
    let r = search_symbols(
        &g,
        SearchSymbolsInput {
            subtree: None,
            query: Some("^NotFoundClass$"),
            ..search_input()
        },
        NO_BYTE_BUDGET,
    );
    let parsed: serde_json::Value = serde_json::from_str(&body_text(&r)).unwrap();
    assert_eq!(parsed["total"], js(0));
    let suggestions = parsed
        .get("suggestions")
        .expect("anchored zero-result query must emit a `suggestions` key");
    let arr = suggestions.as_array().expect("suggestions is an array");
    assert!(!arr.is_empty() && arr.len() <= 5);
    assert_eq!(arr[0], js("/s.cpp:NotFoundClassHelper"));
}

#[test]
fn non_anchored_zero_result_query_omits_suggestions_key() {
    let g = locked(suggestion_graph());
    let r = search_symbols(
        &g,
        SearchSymbolsInput {
            subtree: None,
            query: Some("Zzz_absent_Zzz"),
            ..search_input()
        },
        NO_BYTE_BUDGET,
    );
    let parsed: serde_json::Value = serde_json::from_str(&body_text(&r)).unwrap();
    assert_eq!(parsed["total"], js(0));
    assert!(parsed.get("suggestions").is_none());
    assert!(!body_text(&r).contains("suggestions"));
}

#[test]
fn anchored_query_with_results_omits_suggestions_key() {
    let g = locked(suggestion_graph());
    let r = search_symbols(
        &g,
        SearchSymbolsInput {
            subtree: None,
            query: Some("^ExistingClass$"),
            ..search_input()
        },
        NO_BYTE_BUDGET,
    );
    let parsed: serde_json::Value = serde_json::from_str(&body_text(&r)).unwrap();
    let total = parsed["total"].as_u64().unwrap();
    assert!(total >= 1);
    assert!(parsed.get("suggestions").is_none());
    assert!(!body_text(&r).contains("suggestions"));
}

#[test]
fn degenerate_caret_dollar_query_does_not_panic_and_omits_suggestions() {
    let g = locked(suggestion_graph());
    let r = search_symbols(
        &g,
        SearchSymbolsInput {
            subtree: None,
            query: Some("^$"),
            ..search_input()
        },
        NO_BYTE_BUDGET,
    );
    assert!(r.is_error.is_none() || r.is_error == Some(false));
    let parsed: serde_json::Value = serde_json::from_str(&body_text(&r)).unwrap();
    assert_eq!(parsed["total"], js(0));
    assert!(parsed.get("suggestions").is_none());
    assert!(!body_text(&r).contains("suggestions"));
}

#[test]
fn get_symbol_detail_missing_param_errors() {
    let g = locked(Graph::new());
    let r = get_symbol_detail(&g, "");
    assert_eq!(r.is_error, Some(true));
    assert_eq!(body_text(&r), "'symbol' is required");
}

#[test]
fn get_symbol_detail_known_id_returns_full_symbol() {
    let g = locked(small_graph());
    let r = get_symbol_detail(&g, "/a.cpp:foo");
    assert!(r.is_error.is_none() || r.is_error == Some(false));
    let parsed: serde_json::Value = serde_json::from_str(&body_text(&r)).unwrap();
    assert_eq!(parsed["name"], js("foo"));
    assert_eq!(parsed["kind"], js("function"));

    assert!(parsed.get("signature").is_some());
}

#[test]
fn get_symbol_detail_unknown_id_with_suggestions() {
    let g = locked(small_graph());

    let r = get_symbol_detail(&g, "fo");
    assert_eq!(r.is_error, Some(true));
    let text = body_text(&r);
    assert!(text.starts_with("symbol not found: \"fo\""));
    assert!(text.contains("Did you mean: "));
}

#[test]
fn get_symbol_detail_unknown_id_no_suggestions() {
    let g = locked(Graph::new());
    let r = get_symbol_detail(&g, "nope");
    assert_eq!(r.is_error, Some(true));
    assert_eq!(body_text(&r), "symbol not found: \"nope\"");
}

fn pick_count(results: &[serde_json::Value], namespace: &str, kind: &str) -> u32 {
    for row in results {
        if row["namespace"] == js(namespace)
            && row["kind"] == js(kind)
        {
            return row["count"].as_u64().expect("count is integer") as u32;
        }
    }
    panic!(
        "no row matched (namespace={namespace:?}, kind={kind:?}) in {:?}",
        results,
    );
}

fn has_row(results: &[serde_json::Value], namespace: &str, kind: &str) -> bool {
    results.iter().any(|row| {
        row["namespace"] == js(namespace)
            && row["kind"] == js(kind)
    })
}

#[test]
fn symbol_summary_whole_graph() {
    let g = locked(small_graph());
    let r = get_symbol_summary(&g, None, None, None, false, NO_BYTE_BUDGET);
    let parsed: serde_json::Value = serde_json::from_str(&body_text(&r)).unwrap();

    let results = parsed["results"].as_array().expect("results array");
    assert_eq!(pick_count(results, "<global>", "function"), 1);
    assert_eq!(pick_count(results, "<global>", "class"), 1);
    assert_eq!(pick_count(results, "<global>", "method"), 1);

    assert!(!has_row(results, "", "function"));
    assert!(!has_row(results, "", "class"));
    assert!(!has_row(results, "", "method"));

    assert_eq!(parsed["total"].as_u64().unwrap(), 3);
}

#[test]
fn symbol_summary_empty_graph_returns_empty_envelope() {
    let g = locked(Graph::new());
    let r = get_symbol_summary(&g, None, None, None, false, NO_BYTE_BUDGET);
    let parsed: serde_json::Value = serde_json::from_str(&body_text(&r)).unwrap();

    let results = parsed["results"].as_array().expect("results array");
    assert!(results.is_empty());
    assert_eq!(parsed["total"].as_u64().unwrap(), 0);
}

#[test]
fn symbol_summary_file_scoped() {
    let mut g = small_graph();
    g.merge_file_graph(FileGraph {
        path: "/b.cpp".to_string(),
        language: Language::Cpp,
        symbols: vec![sym("only_in_b", SymbolKind::Function, "/b.cpp", "")],
        edges: Vec::new(),
    });
    let g = locked(g);
    let r = get_symbol_summary(&g, Some("/b.cpp"), None, None, false, NO_BYTE_BUDGET);
    let parsed: serde_json::Value = serde_json::from_str(&body_text(&r)).unwrap();
    let results = parsed["results"].as_array().expect("results array");

    assert_eq!(pick_count(results, "<global>", "function"), 1);

    assert!(!has_row(results, "<global>", "method"));
    assert!(!has_row(results, "<global>", "class"));
}

fn multi_namespace_graph(n: usize) -> Graph {
    let mut g = Graph::new();
    for i in 0..n {
        let ns = format!("ns_{:04}", i);
        let file = format!("/f_{:04}.cpp", i);
        let s = Symbol {
            name: format!("func_{:04}", i),
            kind: SymbolKind::Function,
            file: file.clone(),
            line: 1,
            column: 0,
            end_line: 1,
            signature: String::new(),
            namespace: ns,
            parent: String::new(),
            language: Language::Cpp,
        };
        g.merge_file_graph(FileGraph {
            path: file,
            language: Language::Cpp,
            symbols: vec![s],
            edges: Vec::new(),
        });
    }
    g
}

#[test]
fn symbol_summary_basic_round_trip_multiple_namespaces() {
    let mut g = small_graph();
    g.merge_file_graph(FileGraph {
        path: "/alpha.cpp".to_string(),
        language: Language::Cpp,
        symbols: vec![Symbol {
            name: "a_fn".to_string(),
            kind: SymbolKind::Function,
            file: "/alpha.cpp".to_string(),
            line: 1,
            column: 0,
            end_line: 1,
            signature: String::new(),
            namespace: "alpha".to_string(),
            parent: String::new(),
            language: Language::Cpp,
        }],
        edges: Vec::new(),
    });
    g.merge_file_graph(FileGraph {
        path: "/beta.cpp".to_string(),
        language: Language::Cpp,
        symbols: vec![Symbol {
            name: "b_fn".to_string(),
            kind: SymbolKind::Function,
            file: "/beta.cpp".to_string(),
            line: 1,
            column: 0,
            end_line: 1,
            signature: String::new(),
            namespace: "beta".to_string(),
            parent: String::new(),
            language: Language::Cpp,
        }],
        edges: Vec::new(),
    });
    let g = locked(g);

    let r1 = get_symbol_summary(&g, None, None, None, false, NO_BYTE_BUDGET);
    let (results1, total1, offset1, limit1) = page_parts(&r1);
    let (truncated1, next1) = page_extras(&r1);

    assert_eq!(total1, 5);
    assert_eq!(results1.len(), 5);
    assert_eq!(offset1, 0);
    assert_eq!(limit1, 100);
    assert!(!truncated1);
    assert_eq!(next1, None);

    let r2 = get_symbol_summary(&g, None, None, None, false, NO_BYTE_BUDGET);
    let (results2, _, _, _) = page_parts(&r2);
    assert_eq!(results1, results2);

    let expected_ns_kind: Vec<(&str, &str)> = vec![
        ("<global>", "class"),
        ("<global>", "function"),
        ("<global>", "method"),
        ("alpha", "function"),
        ("beta", "function"),
    ];
    let got: Vec<(String, String)> = results1
        .iter()
        .map(|row| {
            (
                row["namespace"].as_str().unwrap().to_string(),
                row["kind"].as_str().unwrap().to_string(),
            )
        })
        .collect();
    let want: Vec<(String, String)> = expected_ns_kind
        .iter()
        .map(|(ns, k)| (ns.to_string(), k.to_string()))
        .collect();
    assert_eq!(got, want);
}

#[test]
fn symbol_summary_sort_stable_across_two_pages() {
    let g = locked(multi_namespace_graph(8));

    let full = get_symbol_summary(&g, None, None, None, false, NO_BYTE_BUDGET);
    let (full_rows, full_total, _, _) = page_parts(&full);
    assert_eq!(full_total, 8);
    assert_eq!(full_rows.len(), 8);

    let p1 = get_symbol_summary(&g, None, Some(4), Some(0), false, NO_BYTE_BUDGET);
    let (p1_rows, p1_total, p1_offset, p1_limit) = page_parts(&p1);
    let (p1_truncated, p1_next) = page_extras(&p1);
    assert_eq!(p1_total, 8);
    assert_eq!(p1_rows.len(), 4);
    assert_eq!(p1_offset, 0);
    assert_eq!(p1_limit, 4);

    assert!(!p1_truncated);
    assert_eq!(p1_next, None);

    let p2 = get_symbol_summary(&g, None, Some(4), Some(4), false, NO_BYTE_BUDGET);
    let (p2_rows, p2_total, p2_offset, p2_limit) = page_parts(&p2);
    assert_eq!(p2_total, 8);
    assert_eq!(p2_rows.len(), 4);
    assert_eq!(p2_offset, 4);
    assert_eq!(p2_limit, 4);

    let mut concat = p1_rows.clone();
    concat.extend(p2_rows.iter().cloned());
    assert_eq!(concat, full_rows);
}

#[test]
fn symbol_summary_limit_zero_resolves_to_default() {
    let g = locked(multi_namespace_graph(50));

    let r_zero = get_symbol_summary(&g, None, Some(0), None, false, NO_BYTE_BUDGET);
    let (rows_zero, total_zero, offset_zero, limit_zero) = page_parts(&r_zero);
    let r_none = get_symbol_summary(&g, None, None, None, false, NO_BYTE_BUDGET);
    let (rows_none, total_none, offset_none, limit_none) = page_parts(&r_none);

    assert_eq!(total_zero, 50);
    assert_eq!(total_none, 50);
    assert_eq!(limit_zero, 100);
    assert_eq!(limit_none, 100);
    assert_eq!(offset_zero, 0);
    assert_eq!(offset_none, 0);

    assert_eq!(rows_zero, rows_none);
}

#[test]
fn symbol_summary_offset_past_total_returns_empty_page() {
    let g = locked(multi_namespace_graph(5));

    let r = get_symbol_summary(&g, None, Some(10), Some(99), false, NO_BYTE_BUDGET);
    let (rows, total, offset, limit) = page_parts(&r);
    let (truncated, next) = page_extras(&r);
    assert!(rows.is_empty());
    assert_eq!(total, 5);
    assert_eq!(offset, 99);
    assert_eq!(limit, 10);
    assert!(!truncated);
    assert_eq!(next, None);
}

#[test]
fn symbol_summary_limit_clamped_to_thousand() {
    let g = locked(multi_namespace_graph(3));
    let r = get_symbol_summary(&g, None, Some(5000), None, false, NO_BYTE_BUDGET);
    let (_, _, _, limit) = page_parts(&r);
    assert_eq!(limit, 1000);
}

#[test]
fn symbol_summary_over_one_hundred_rows_caps_at_default_limit() {
    let g = locked(multi_namespace_graph(1200));

    let default_max_bytes = 100 * 1024;
    let r = get_symbol_summary(&g, None, None, None, false, default_max_bytes);
    let (rows, total, offset, limit) = page_parts(&r);
    let (truncated, next) = page_extras(&r);

    assert_eq!(total, 1200);
    assert_eq!(rows.len(), 100);
    assert_eq!(limit, 100);
    assert_eq!(offset, 0);

    assert!(!truncated);
    assert_eq!(next, None);
}

#[test]
fn symbol_summary_byte_budget_triggers_truncation_with_large_limit() {
    let g = locked(multi_namespace_graph(1200));

    let r = get_symbol_summary(&g, None, Some(1000), None, false, 2048);
    let (rows, total, offset, limit) = page_parts(&r);
    let (truncated, next) = page_extras(&r);

    assert_eq!(total, 1200);
    assert_eq!(offset, 0);
    assert_eq!(limit, 1000);
    assert!(rows.len() < 1000);
    assert!(truncated);
    let next_offset = next.expect("truncated pages must carry next_offset");
    assert_eq!(next_offset as usize, rows.len());
}

fn global_and_namespaced_graph() -> Graph {
    let mut g = Graph::new();
    g.merge_file_graph(FileGraph {
        path: "/lib.rs".to_string(),
        language: Language::Rust,
        symbols: vec![
            Symbol {
                name: "foo".to_string(),
                kind: SymbolKind::Function,
                file: "/lib.rs".to_string(),
                line: 1,
                column: 0,
                end_line: 1,
                signature: "fn foo()".to_string(),
                namespace: String::new(),
                parent: String::new(),
                language: Language::Rust,
            },
            Symbol {
                name: "inside_bar".to_string(),
                kind: SymbolKind::Function,
                file: "/lib.rs".to_string(),
                line: 5,
                column: 0,
                end_line: 5,
                signature: "fn inside_bar()".to_string(),
                namespace: "bar".to_string(),
                parent: String::new(),
                language: Language::Rust,
            },
        ],
        edges: Vec::new(),
    });
    g
}

#[test]
fn summary_renames_empty_namespace_to_global() {
    let g = locked(global_and_namespaced_graph());

    let r = get_symbol_summary(&g, None, None, None, false, NO_BYTE_BUDGET);
    let parsed: serde_json::Value = serde_json::from_str(&body_text(&r)).unwrap();
    let results = parsed["results"].as_array().expect("results array");

    assert_eq!(parsed["total"].as_u64().unwrap(), 2);
    assert_eq!(pick_count(results, "<global>", "function"), 1);
    assert_eq!(pick_count(results, "bar", "function"), 1);

    assert!(!has_row(results, "", "function"));

    let got: Vec<(String, String)> = results
        .iter()
        .map(|row| {
            (
                row["namespace"].as_str().unwrap().to_string(),
                row["kind"].as_str().unwrap().to_string(),
            )
        })
        .collect();
    assert_eq!(got, vec![
            ("<global>".to_string(), "function".to_string()),
            ("bar".to_string(), "function".to_string()),
        ]);
}

#[test]
fn search_symbols_with_empty_namespace_filter_still_finds_globals_after_summary() {
    let g = locked(global_and_namespaced_graph());

    let r_summary = get_symbol_summary(&g, None, None, None, false, NO_BYTE_BUDGET);
    let parsed_summary: serde_json::Value =
        serde_json::from_str(&body_text(&r_summary)).unwrap();
    let summary_results = parsed_summary["results"].as_array().expect("results array");
    assert!(has_row(summary_results, "<global>", "function"));

    let r_search = search_symbols(
        &g,
        SearchSymbolsInput {
            subtree: None,
            query: Some("foo"),
            namespace: Some(""),
            brief: true,
            ..SearchSymbolsInput::default()
        },
        NO_BYTE_BUDGET,
    );
    assert!(r_search.is_error.is_none() || r_search.is_error == Some(false));
    let parsed_search: serde_json::Value = serde_json::from_str(&body_text(&r_search)).unwrap();
    let search_results = parsed_search["results"].as_array().expect("results array");
    let names: Vec<&str> = search_results
        .iter()
        .map(|row| row["name"].as_str().unwrap())
        .collect();
    assert!(names.contains(&"foo"));

    for row in search_results {
        if let Some(ns) = row.get("namespace").and_then(|v| v.as_str()) {
            assert_ne!(ns, "<global>");
        }
    }
}

fn many_symbols_one_pair_graph(n: usize) -> Graph {
    let mut g = Graph::new();
    let mut symbols = Vec::with_capacity(n);
    for i in 0..n {
        symbols.push(Symbol {
            name: format!("func_{i:04}"),
            kind: SymbolKind::Function,
            file: "/foo.cpp".to_string(),
            line: (i as u32) + 1,
            column: 0,
            end_line: (i as u32) + 1,
            signature: String::new(),
            namespace: "foo".to_string(),
            parent: String::new(),
            language: Language::Cpp,
        });
    }
    g.merge_file_graph(FileGraph {
        path: "/foo.cpp".to_string(),
        language: Language::Cpp,
        symbols,
        edges: Vec::new(),
    });
    g
}

fn five_pair_graph() -> Graph {
    let mut g = Graph::new();

    let symbols = vec![
        Symbol {
            name: "a_fn".to_string(),
            kind: SymbolKind::Function,
            file: "/p.cpp".to_string(),
            line: 1,
            column: 0,
            end_line: 1,
            signature: String::new(),
            namespace: "alpha".to_string(),
            parent: String::new(),
            language: Language::Cpp,
        },
        Symbol {
            name: "AClass".to_string(),
            kind: SymbolKind::Class,
            file: "/p.cpp".to_string(),
            line: 2,
            column: 0,
            end_line: 2,
            signature: String::new(),
            namespace: "alpha".to_string(),
            parent: String::new(),
            language: Language::Cpp,
        },
        Symbol {
            name: "b_fn".to_string(),
            kind: SymbolKind::Function,
            file: "/p.cpp".to_string(),
            line: 3,
            column: 0,
            end_line: 3,
            signature: String::new(),
            namespace: "beta".to_string(),
            parent: String::new(),
            language: Language::Cpp,
        },
        Symbol {
            name: "b_method".to_string(),
            kind: SymbolKind::Method,
            file: "/p.cpp".to_string(),
            line: 4,
            column: 0,
            end_line: 4,
            signature: String::new(),
            namespace: "beta".to_string(),
            parent: "AClass".to_string(),
            language: Language::Cpp,
        },
        Symbol {
            name: "g_fn".to_string(),
            kind: SymbolKind::Function,
            file: "/p.cpp".to_string(),
            line: 5,
            column: 0,
            end_line: 5,
            signature: String::new(),
            namespace: String::new(),
            parent: String::new(),
            language: Language::Cpp,
        },
    ];
    g.merge_file_graph(FileGraph {
        path: "/p.cpp".to_string(),
        language: Language::Cpp,
        symbols,
        edges: Vec::new(),
    });
    g
}

#[test]
fn symbol_summary_count_only_returns_row_count() {
    let g = locked(five_pair_graph());

    let r = get_symbol_summary(&g, None, None, None, true, NO_BYTE_BUDGET);

    let body = body_text(&r);

    assert!(body.len() < 1024);

    let parsed: serde_json::Value = serde_json::from_str(&body).unwrap();
    let results = parsed["results"].as_array().unwrap();
    let total = parsed["total"].as_u64().unwrap();
    let offset = parsed["offset"].as_u64().unwrap();
    let limit = parsed["limit"].as_u64().unwrap();
    let truncated = parsed["truncated"].as_bool().unwrap();
    let next_offset = parsed["next_offset"].clone();

    assert!(results.is_empty());
    assert_eq!(total, 5);
    assert_eq!(offset, 0);
    assert_eq!(limit, 0);
    assert!(!truncated);
    assert_eq!(next_offset, serde_json::Value::Null);
}

#[test]
fn symbol_summary_count_only_total_matches_paginated_total() {
    let g = locked(five_pair_graph());

    let r_count = get_symbol_summary(&g, None, None, None, true, NO_BYTE_BUDGET);
    let parsed_count: serde_json::Value = serde_json::from_str(&body_text(&r_count)).unwrap();
    let total_count = parsed_count["total"].as_u64().unwrap();

    let r_page = get_symbol_summary(&g, None, None, None, false, NO_BYTE_BUDGET);
    let (_results, total_page, _offset, _limit) = page_parts(&r_page);

    assert_eq!(total_count, total_page as u64);
}

#[test]
fn symbol_summary_count_only_does_not_count_individual_symbols() {
    let g = locked(many_symbols_one_pair_graph(50));

    let r = get_symbol_summary(&g, None, None, None, true, NO_BYTE_BUDGET);
    let parsed: serde_json::Value = serde_json::from_str(&body_text(&r)).unwrap();
    let total = parsed["total"].as_u64().unwrap();

    assert_eq!(total, 1);

    let r_page = get_symbol_summary(&g, None, None, None, false, NO_BYTE_BUDGET);
    let (results, total_page, _offset, _limit) = page_parts(&r_page);
    assert_eq!(total_page, 1);
    assert_eq!(results.len(), 1);
    assert_eq!(results[0]["count"].as_u64().unwrap(), 50);
}
