//! Cycles, orphans, hierarchies, coupling and diagrams.

use code_graph_tools::handlers::query::{CallChain, Direction, IncludeEntry};
use code_graph_tools::handlers::structure::{
    is_class_like, Diagram, DiagramDirection, DiagramEdge, DiagramPlan, DiagramSubject, FileCycle,
    Hierarchy,
};
use code_graph_tools::handlers::symbols::{KindCount, NamespaceCounts, SearchParams};
use code_graph_tools::json::{Json, Member, ToJson};
use code_graph_tools::model::{
    id_to_file, symbol_id, Edge, EdgeKind, FileGraph, Language, Symbol, SymbolKind,
};
use rmcp::model::CallToolResult;
use code_graph_tools::handlers::query::DependencyEntry;
use code_graph_tools::handlers::structure::{
    self, is_unreliable_orphan, Cycle, GenerateDiagramInput,
};
use code_graph_tools::handlers::{ENVELOPE_OVERHEAD_BYTES, NO_BYTE_BUDGET};
use code_graph_tools::model::Confidence;

/// A code graph in memory, which answers what the tools ask.
#[derive(Default)]
struct Graph {
    files: Vec<FileGraph>,
}

#[allow(dead_code)]
impl Graph {
    fn new() -> Graph {
        Graph { files: Vec::new() }
    }

    fn merge_file_graph(&mut self, fg: FileGraph) {
        self.files.retain(|f| f.path != fg.path);
        self.files.push(fg);
    }

    fn all_symbols(&self) -> Vec<Symbol> {
        let mut v: Vec<Symbol> = self.files.iter().flat_map(|f| f.symbols.clone()).collect();
        v.sort_by_key(symbol_id);
        v
    }

    fn edges(&self, kind: EdgeKind) -> Vec<Edge> {
        self.files
            .iter()
            .flat_map(|f| f.edges.clone())
            .filter(|e| e.kind == kind)
            .collect()
    }

    fn knows_file(&self, path: &str) -> bool {
        self.files.iter().any(|f| f.path == path)
            || self.edges(EdgeKind::Includes).iter().any(|e| e.to == path)
    }

    fn file_symbols(&self, path: &str) -> Vec<Symbol> {
        self.files
            .iter()
            .filter(|f| f.path == path)
            .flat_map(|f| f.symbols.clone())
            .collect()
    }

    fn symbol_detail(&self, id: &str) -> Option<Symbol> {
        self.all_symbols().into_iter().find(|s| symbol_id(s) == id)
    }

    /// The symbols whose names hold a text, whatever its case.
    fn search_symbols(&self, name: &str) -> Vec<Symbol> {
        let wanted = name.to_lowercase();
        self.all_symbols()
            .into_iter()
            .filter(|s| s.name.to_lowercase().contains(&wanted))
            .collect()
    }

    /// Whether a name matches a pattern of literal text, anchors and `.*`.
    fn name_matches(pattern: &str, name: &str) -> bool {
        let name = name.to_lowercase();
        let pattern = pattern.to_lowercase();
        let start = pattern.starts_with('^');
        let end = pattern.ends_with('$');
        let core = pattern.trim_start_matches('^').trim_end_matches('$');
        if core.contains(".*") {
            return core.split(".*").all(|part| name.contains(part));
        }
        match (start, end) {
            (true, true) => name == core,
            (true, false) => name.starts_with(core),
            (false, true) => name.ends_with(core),
            (false, false) => name.contains(core),
        }
    }

    fn search(&self, p: &SearchParams) -> (Vec<Symbol>, u32) {
        let wanted = p.namespace.to_lowercase();
        let hits: Vec<Symbol> = self
            .all_symbols()
            .into_iter()
            .filter(|s| Graph::name_matches(&p.pattern, &s.name))
            .filter(|s| p.kind.map_or(true, |k| s.kind == k))
            .filter(|s| p.language.map_or(true, |l| s.language == l))
            .filter(|s| wanted.is_empty() || s.namespace.to_lowercase().contains(&wanted))
            .filter(|s| {
                p.subtree
                    .as_ref()
                    .map_or(true, |d| s.file.starts_with(&format!("{d}/")))
            })
            .collect();
        let total = hits.len() as u32;
        if p.count_only {
            return (Vec::new(), total);
        }
        let page = hits
            .into_iter()
            .skip(p.offset as usize)
            .take(p.limit as usize)
            .collect();
        (page, total)
    }

    fn symbol_summary(&self, file: Option<&str>) -> Vec<NamespaceCounts> {
        let mut counts: std::collections::HashMap<String, Vec<KindCount>> =
            std::collections::HashMap::new();
        for s in self.all_symbols() {
            if file.map_or(false, |f| s.file != f) {
                continue;
            }
            let kinds = counts.entry(s.namespace.clone()).or_default();
            match kinds.iter_mut().find(|k| k.kind == s.kind) {
                Some(k) => k.count += 1,
                None => kinds.push(KindCount {
                    kind: s.kind,
                    count: 1,
                }),
            }
        }
        counts
            .into_iter()
            .map(|(namespace, kinds)| NamespaceCounts { namespace, kinds })
            .collect()
    }

    fn walk(&self, start: &str, depth: u32, direction: Direction) -> Vec<CallChain> {
        let calls = self.edges(EdgeKind::Calls);
        let mut seen = vec![start.to_string()];
        let mut frontier = vec![start.to_string()];
        let mut out = Vec::new();
        for d in 1..=depth {
            let mut next = Vec::new();
            for at in &frontier {
                for e in &calls {
                    let (here, there) = match direction {
                        Direction::Callers => (&e.to, &e.from),
                        Direction::Callees => (&e.from, &e.to),
                    };
                    if here == at && !seen.contains(there) && self.symbol_detail(there).is_some() {
                        seen.push(there.clone());
                        next.push(there.clone());
                        out.push(CallChain {
                            symbol_id: there.clone(),
                            file: id_to_file(there),
                            line: e.line,
                            depth: d,
                        });
                    }
                }
            }
            frontier = next;
        }
        out
    }

    fn file_dependencies(&self, path: &str) -> Vec<IncludeEntry> {
        self.edges(EdgeKind::Includes)
            .into_iter()
            .filter(|e| e.file == path)
            .map(|e| IncludeEntry {
                path: e.to,
                line: e.line,
            })
            .collect()
    }

    fn detect_cycles(&self) -> Vec<FileCycle> {
        let edges = self.edges(EdgeKind::Includes);
        let mut next: std::collections::HashMap<String, Vec<String>> =
            std::collections::HashMap::new();
        for e in &edges {
            next.entry(e.file.clone()).or_default().push(e.to.clone());
        }
        let reach = |from: &str| -> std::collections::HashSet<String> {
            let mut seen = std::collections::HashSet::new();
            let mut todo = vec![from.to_string()];
            while let Some(at) = todo.pop() {
                for to in next.get(&at).cloned().unwrap_or_default() {
                    if seen.insert(to.clone()) {
                        todo.push(to);
                    }
                }
            }
            seen
        };
        let reachable: std::collections::HashMap<String, std::collections::HashSet<String>> =
            next.keys().map(|k| (k.clone(), reach(k))).collect();
        let mut done = std::collections::HashSet::new();
        let mut cycles = Vec::new();
        for (file, to) in &reachable {
            if !to.contains(file) || done.contains(file) {
                continue;
            }
            let files: Vec<String> = to
                .iter()
                .filter(|t| reachable.get(*t).map_or(false, |r| r.contains(file)))
                .cloned()
                .collect();
            for f in &files {
                done.insert(f.clone());
            }
            if files.len() > 1 {
                cycles.push(FileCycle { files });
            }
        }
        cycles
    }

    fn orphans(&self, kind: Option<SymbolKind>) -> Vec<Symbol> {
        let calls = self.edges(EdgeKind::Calls);
        self.all_symbols()
            .into_iter()
            .filter(|s| match kind {
                Some(k) => s.kind == k,
                None => matches!(s.kind, SymbolKind::Function | SymbolKind::Method),
            })
            .filter(|s| {
                let id = symbol_id(s);
                !calls.iter().any(|e| e.to == id)
            })
            .collect()
    }

    fn find_classes_named(&self, name: &str) -> Vec<Symbol> {
        self.all_symbols()
            .into_iter()
            .filter(|s| s.name == name && is_class_like(s.kind))
            .collect()
    }

    fn class_hierarchy(&self, class: &str, depth: u32, max_nodes: u32) -> Option<Hierarchy> {
        if self.find_classes_named(class).is_empty() {
            return None;
        }
        let mut seen = vec![class.to_string()];
        let mut truncated = false;
        let tree = self.hierarchy_node(class, depth, max_nodes, &mut seen, &mut truncated);
        Some(Hierarchy {
            tree,
            nodes_seen: seen.len() as u32,
            truncated,
        })
    }

    fn hierarchy_node(
        &self,
        class: &str,
        depth: u32,
        max_nodes: u32,
        seen: &mut Vec<String>,
        truncated: &mut bool,
    ) -> Json {
        let inherits = self.edges(EdgeKind::Inherits);
        let mut sides = Vec::new();
        for up in [true, false] {
            let mut nodes = Vec::new();
            for e in &inherits {
                let (here, there) = if up { (&e.from, &e.to) } else { (&e.to, &e.from) };
                if here != class || depth == 0 || seen.contains(there) {
                    continue;
                }
                if seen.len() as u32 >= max_nodes {
                    *truncated = true;
                    continue;
                }
                seen.push(there.clone());
                nodes.push(self.hierarchy_node(there, depth - 1, max_nodes, seen, truncated));
            }
            sides.push(nodes);
        }
        let derived = sides.pop().unwrap_or_default();
        let bases = sides.pop().unwrap_or_default();
        Json::Object(vec![
            Member {
                key: "name".to_string(),
                value: Json::Text(class.to_string()),
            },
            Member {
                key: "bases".to_string(),
                value: Json::Array(bases),
            },
            Member {
                key: "derived".to_string(),
                value: Json::Array(derived),
            },
        ])
    }

    /// The edges between files: the file that each leaves and the one it enters.
    fn file_links(&self) -> Vec<(String, String)> {
        let mut links: Vec<(String, String)> = Vec::new();
        for e in self.edges(EdgeKind::Calls) {
            links.push((id_to_file(&e.from), id_to_file(&e.to)));
        }
        for e in self.edges(EdgeKind::Includes) {
            links.push((e.file, e.to));
        }
        links.retain(|(a, b)| a != b);
        links
    }

    fn counted(files: Vec<String>) -> Vec<(String, u32)> {
        let mut counts: std::collections::HashMap<String, u32> = std::collections::HashMap::new();
        for f in files {
            *counts.entry(f).or_default() += 1;
        }
        counts.into_iter().collect()
    }

    fn coupling(&self, path: &str) -> Vec<(String, u32)> {
        let links = self.file_links();
        Graph::counted(links.into_iter().filter(|l| l.0 == path).map(|l| l.1).collect())
    }

    fn incoming_coupling(&self, path: &str) -> Vec<(String, u32)> {
        let links = self.file_links();
        Graph::counted(links.into_iter().filter(|l| l.1 == path).map(|l| l.0).collect())
    }

    fn short_name(id: &str) -> String {
        id.rsplit(':').next().unwrap_or(id).to_string()
    }

    fn diagram(&self, plan: &DiagramPlan) -> Option<Diagram> {
        let edges: Vec<DiagramEdge> = match &plan.subject {
            DiagramSubject::Symbol(id, direction) => {
                self.symbol_detail(id)?;
                self.edges(EdgeKind::Calls)
                    .into_iter()
                    .filter(|e| {
                        let out = e.from == *id && *direction != DiagramDirection::Callers;
                        let back = e.to == *id && *direction != DiagramDirection::Callees;
                        out || back
                    })
                    .filter(|e| {
                        self.symbol_detail(&e.from).is_some() && self.symbol_detail(&e.to).is_some()
                    })
                    .filter(|e| plan.min_confidence.map_or(true, |c| e.confidence == c))
                    .map(|e| DiagramEdge {
                        from: Graph::short_name(&e.from),
                        to: Graph::short_name(&e.to),
                        label: "calls".to_string(),
                    })
                    .collect()
            }
            DiagramSubject::File(path) => {
                if !self.knows_file(path) {
                    return None;
                }
                self.edges(EdgeKind::Includes)
                    .into_iter()
                    .filter(|e| e.file == *path || e.to == *path)
                    .map(|e| DiagramEdge {
                        from: e.file,
                        to: e.to,
                        label: "includes".to_string(),
                    })
                    .collect()
            }
            DiagramSubject::Class(name) => {
                if self.find_classes_named(name).is_empty() {
                    return None;
                }
                self.edges(EdgeKind::Inherits)
                    .into_iter()
                    .filter(|e| e.from == *name || e.to == *name)
                    .map(|e| DiagramEdge {
                        from: e.from,
                        to: e.to,
                        label: "inherits".to_string(),
                    })
                    .collect()
            }
        };
        let mut drawing = String::from("graph TD\n");
        for e in &edges {
            drawing.push_str(&format!("{} -->|{}| {}\n", e.from, e.label, e.to));
        }
        if plan.styled {
            drawing.push_str("subject:::center\nclassDef center fill:#f9f\n");
        }
        Some(Diagram { edges, drawing })
    }
}

fn locked(g: Graph) -> Graph {
    g
}

#[allow(dead_code)]
fn js<T: Into<serde_json::Value>>(v: T) -> serde_json::Value {
    v.into()
}

#[allow(dead_code)]
fn json_text<T: ToJson>(v: &T) -> String {
    v.to_json().to_text()
}

#[allow(dead_code)]
fn body_text(r: &CallToolResult) -> String {
    r.content
        .first()
        .and_then(|c| c.as_text())
        .map(|t| t.text.to_string())
        .unwrap_or_default()
}

#[allow(dead_code)]
fn page_parts(r: &CallToolResult) -> (Vec<serde_json::Value>, u32, u32, u32) {
    let parsed: serde_json::Value = serde_json::from_str(&body_text(r)).unwrap();
    let results = parsed["results"].as_array().cloned().unwrap_or_default();
    let total = parsed["total"].as_u64().unwrap_or(0) as u32;
    let offset = parsed["offset"].as_u64().unwrap_or(0) as u32;
    let limit = parsed["limit"].as_u64().unwrap_or(0) as u32;
    (results, total, offset, limit)
}

#[allow(dead_code)]
fn page_extras(r: &CallToolResult) -> (bool, Option<u32>) {
    let parsed: serde_json::Value = serde_json::from_str(&body_text(r)).unwrap();
    let truncated = parsed["truncated"].as_bool().expect("truncated");
    let next_offset = match &parsed["next_offset"] {
        serde_json::Value::Null => None,
        v => Some(v.as_u64().expect("next_offset") as u32),
    };
    (truncated, next_offset)
}

fn detect_cycles(
    g: &Graph,
    limit: Option<u32>,
    offset: Option<u32>,
    max_cycle_size: Option<u32>,
) -> CallToolResult {
    structure::detect_cycles(g.detect_cycles(), limit, offset, max_cycle_size)
        .into_call_tool_result()
}

#[allow(clippy::too_many_arguments)]
fn get_orphans(
    g: &Graph,
    kind: Option<&str>,
    limit: Option<u32>,
    offset: Option<u32>,
    brief: Option<bool>,
    count_only: bool,
    reliability: Option<&str>,
    max_bytes: usize,
) -> CallToolResult {
    let orphans = match structure::plan_orphans(kind, reliability) {
        Err(_) => Vec::new(),
        Ok(q) => g.orphans(q.kind),
    };
    structure::get_orphans(
        &orphans, kind, limit, offset, brief, count_only, reliability, max_bytes,
    )
    .into_call_tool_result()
}

fn get_class_hierarchy(
    g: &Graph,
    class: &str,
    depth: Option<u32>,
    max_nodes: Option<u32>,
) -> CallToolResult {
    let found = match structure::plan_hierarchy(class, depth, max_nodes) {
        Err(_) => None,
        Ok(w) => g.class_hierarchy(&w.class, w.depth, w.max_nodes),
    };
    structure::get_class_hierarchy(
        class,
        max_nodes,
        &g.find_classes_named(class),
        found,
        &g.search_symbols(class),
    )
    .into_call_tool_result()
}

fn find_class_candidates(g: &Graph, name: &str) -> CallToolResult {
    structure::find_class_candidates(name, &g.find_classes_named(name)).into_call_tool_result()
}

fn get_coupling(
    g: &Graph,
    file: &str,
    direction: Option<&str>,
    offset: Option<u32>,
    limit: Option<u32>,
    max_bytes: usize,
) -> CallToolResult {
    structure::get_coupling(
        file,
        direction,
        offset,
        limit,
        g.incoming_coupling(file),
        g.coupling(file),
        max_bytes,
    )
    .into_call_tool_result()
}

fn generate_diagram(g: &Graph, input: GenerateDiagramInput<'_>) -> CallToolResult {
    let (found, candidates) = match structure::plan_diagram(&input) {
        Err(_) => (None, Vec::new()),
        Ok(plan) => {
            let name = match &plan.subject {
                DiagramSubject::Symbol(s, _) => s.clone(),
                DiagramSubject::File(f) => f.clone(),
                DiagramSubject::Class(c) => c.clone(),
            };
            (g.diagram(&plan), g.search_symbols(&name))
        }
    };
    structure::generate_diagram(input, found, &candidates).into_call_tool_result()
}

fn sym(name: &str, kind: SymbolKind, file: &str) -> Symbol {
    sym_full(name, kind, file, "")
}

fn sym_full(name: &str, kind: SymbolKind, file: &str, parent: &str) -> Symbol {
    Symbol {
        name: name.to_string(),
        kind,
        file: file.to_string(),
        line: 1,
        column: 0,
        end_line: 1,
        signature: format!("sig {name}"),
        namespace: String::new(),
        parent: parent.to_string(),
        language: Language::Cpp,
    }
}

fn call_edge(from: &str, to: &str, file: &str) -> Edge {
    Edge {
        from: from.to_string(),
        to: to.to_string(),
        kind: EdgeKind::Calls,
        file: file.to_string(),
        line: 1,
        confidence: Confidence::Resolved,
    }
}

fn include_edge(from: &str, to: &str) -> Edge {
    Edge {
        from: from.to_string(),
        to: to.to_string(),
        kind: EdgeKind::Includes,
        file: from.to_string(),
        line: 1,
        confidence: Confidence::Resolved,
    }
}

fn inherit_edge(from: &str, to: &str, file: &str) -> Edge {
    Edge {
        from: from.to_string(),
        to: to.to_string(),
        kind: EdgeKind::Inherits,
        file: file.to_string(),
        line: 0,
        confidence: Confidence::Resolved,
    }
}

fn graph_with_n_cycles(n: usize) -> Graph {
    let mut g = Graph::new();
    for i in 0..n {
        let a = format!("/cycle_{i:03}_a.h");
        let b = format!("/cycle_{i:03}_b.h");
        g.merge_file_graph(FileGraph {
            path: a.clone(),
            language: Language::Cpp,
            symbols: vec![],
            edges: vec![include_edge(&a, &b)],
        });
        g.merge_file_graph(FileGraph {
            path: b.clone(),
            language: Language::Cpp,
            symbols: vec![],
            edges: vec![include_edge(&b, &a)],
        });
    }
    g
}

#[test]
fn detect_cycles_empty_graph_returns_empty_envelope() {
    let g = locked(Graph::new());
    let r = detect_cycles(&g, None, None, None);
    assert!(r.is_error.is_none() || r.is_error == Some(false));
    let (arr, total, offset, limit) = page_parts(&r);
    assert!(arr.is_empty());
    assert_eq!(total, 0);
    assert_eq!(offset, 0);
    assert_eq!(limit, 20);
}

#[test]
fn detect_cycles_acyclic_graph_returns_empty_envelope() {
    let mut g = Graph::new();
    g.merge_file_graph(FileGraph {
        path: "/a.h".to_string(),
        language: Language::Cpp,
        symbols: vec![],
        edges: vec![include_edge("/a.h", "/b.h")],
    });
    g.merge_file_graph(FileGraph {
        path: "/b.h".to_string(),
        language: Language::Cpp,
        symbols: vec![],
        edges: vec![],
    });
    let g = locked(g);
    let r = detect_cycles(&g, None, None, None);
    let (arr, total, _, _) = page_parts(&r);
    assert!(arr.is_empty());
    assert_eq!(total, 0);
}

#[test]
fn detect_cycles_two_node_cycle_returns_envelope_with_one_cycle() {
    let mut g = Graph::new();
    g.merge_file_graph(FileGraph {
        path: "/a.h".to_string(),
        language: Language::Cpp,
        symbols: vec![],
        edges: vec![include_edge("/a.h", "/b.h")],
    });
    g.merge_file_graph(FileGraph {
        path: "/b.h".to_string(),
        language: Language::Cpp,
        symbols: vec![],
        edges: vec![include_edge("/b.h", "/a.h")],
    });
    let g = locked(g);
    let r = detect_cycles(&g, None, None, None);
    let (arr, total, _, _) = page_parts(&r);
    assert_eq!(arr.len(), 1);
    assert_eq!(total, 1);
    let cycle = arr[0]["files"].as_array().unwrap();
    assert_eq!(cycle.len(), 2);

    let names: Vec<&str> = cycle.iter().map(|v| v.as_str().unwrap()).collect();
    assert_eq!(names, vec!["/a.h", "/b.h"]);

    assert_eq!(arr[0]["truncated"], js(false));
    assert!(arr[0].as_object().unwrap().get("original_len").is_none());
}

#[test]
fn detect_cycles_default_limit_is_20() {
    let g = locked(graph_with_n_cycles(25));
    let r = detect_cycles(&g, None, None, None);
    let (arr, total, _, limit) = page_parts(&r);
    assert_eq!(arr.len(), 20);
    assert_eq!(total, 25);
    assert_eq!(limit, 20);

    let (truncated, next_offset) = page_extras(&r);
    assert!(truncated);
    assert_eq!(next_offset, Some(20));
}

#[test]
fn detect_cycles_page_1_and_page_2_cover_full_set_no_overlap() {
    let g = locked(graph_with_n_cycles(30));
    let r1 = detect_cycles(&g, Some(20), Some(0), None);
    let (arr1, total1, _, _) = page_parts(&r1);
    let r2 = detect_cycles(&g, Some(20), Some(20), None);
    let (arr2, total2, _, _) = page_parts(&r2);
    assert_eq!(total1, 30);
    assert_eq!(total2, 30);
    assert_eq!(arr1.len(), 20);
    assert_eq!(arr2.len(), 10);

    let mut all_first_paths: Vec<String> = arr1
        .iter()
        .chain(arr2.iter())
        .map(|c| {
            c["files"].as_array().unwrap()[0]
                .as_str()
                .unwrap()
                .to_string()
        })
        .collect();
    let len_before_dedup = all_first_paths.len();
    all_first_paths.sort();
    all_first_paths.dedup();
    assert_eq!(all_first_paths.len(), len_before_dedup);
    assert_eq!(all_first_paths.len(), 30);

    let (t1, n1) = page_extras(&r1);
    assert!(t1);
    assert_eq!(n1, Some(20));
    let (t2, n2) = page_extras(&r2);
    assert!(!t2);
    assert_eq!(n2, None);
}

#[test]
fn detect_cycles_partial_first_page_envelope_reports_truncated_with_next_offset() {
    let g = locked(graph_with_n_cycles(100));
    let r = detect_cycles(&g, Some(10), Some(0), None);
    let (arr, total, offset, limit) = page_parts(&r);
    assert_eq!(arr.len(), 10);
    assert_eq!(total, 100);
    assert_eq!(offset, 0);
    assert_eq!(limit, 10);
    let (truncated, next_offset) = page_extras(&r);
    assert!(truncated);
    assert_eq!(next_offset, Some(10));
}

#[test]
fn detect_cycles_final_partial_page_envelope_reports_not_truncated() {
    let g = locked(graph_with_n_cycles(100));
    let r = detect_cycles(&g, Some(10), Some(95), None);
    let (arr, total, offset, _) = page_parts(&r);
    assert_eq!(arr.len(), 5);
    assert_eq!(total, 100);
    assert_eq!(offset, 95);
    let (truncated, next_offset) = page_extras(&r);
    assert!(!truncated);
    assert_eq!(next_offset, None);
}

#[test]
fn detect_cycles_offset_beyond_total_returns_empty_envelope() {
    let g = locked(graph_with_n_cycles(3));
    let r = detect_cycles(&g, None, Some(999), None);
    let (arr, total, offset, _) = page_parts(&r);
    assert!(arr.is_empty());
    assert_eq!(total, 3);
    assert_eq!(offset, 999);

    let (truncated, next_offset) = page_extras(&r);
    assert!(!truncated);
    assert_eq!(next_offset, None);
}

#[test]
fn detect_cycles_limit_clamps_at_1000() {
    let g = locked(graph_with_n_cycles(3));
    let r = detect_cycles(&g, Some(999_999), None, None);
    let (arr, _, _, limit) = page_parts(&r);
    assert_eq!(limit, 1000);
    assert_eq!(arr.len(), 3);
}

#[test]
fn detect_cycles_zero_limit_uses_default() {
    let g = locked(graph_with_n_cycles(3));
    let r = detect_cycles(&g, Some(0), None, None);
    let (_, _, _, limit) = page_parts(&r);
    assert_eq!(limit, 20);
}

#[test]
fn untruncated_cycle_serializes_with_files_and_truncated_only() {
    let c = Cycle {
        files: vec!["a".into(), "b".into()],
        truncated: false,
        original_len: None,
    };
    let json = json_text(&c);
    assert_eq!(json, r#"{"files":["a","b"],"truncated":false}"#);
}

fn graph_with_one_cycle_of_n_files(n: usize) -> Graph {
    let mut g = Graph::new();
    for i in 0..n {
        let from = format!("/ring_{i:03}.h");
        let to = format!("/ring_{:03}.h", (i + 1) % n);
        g.merge_file_graph(FileGraph {
            path: from.clone(),
            language: Language::Cpp,
            symbols: vec![],
            edges: vec![include_edge(&from, &to)],
        });
    }
    g
}

#[test]
fn detect_cycles_explicit_max_cycle_size_truncates_oversized_cycle() {
    let g = locked(graph_with_one_cycle_of_n_files(100));
    let r = detect_cycles(&g, None, None, Some(50));
    let (arr, total, _, _) = page_parts(&r);
    assert_eq!(total, 1);
    assert_eq!(arr.len(), 1);
    let files = arr[0]["files"].as_array().unwrap();
    assert_eq!(files.len(), 50);
    assert_eq!(arr[0]["truncated"], js(true));
    assert_eq!(arr[0]["original_len"], js(100));
}

#[test]
fn detect_cycles_default_max_cycle_size_is_50() {
    let g = locked(graph_with_one_cycle_of_n_files(100));
    let r = detect_cycles(&g, None, None, None);
    let (arr, _, _, _) = page_parts(&r);
    assert_eq!(arr.len(), 1);
    let files = arr[0]["files"].as_array().unwrap();
    assert_eq!(files.len(), 50);
    assert_eq!(arr[0]["truncated"], js(true));
    assert_eq!(arr[0]["original_len"], js(100));
}

#[test]
fn detect_cycles_cycle_at_or_under_cap_is_not_truncated() {
    let g = locked(graph_with_one_cycle_of_n_files(10));
    let r = detect_cycles(&g, None, None, None);
    let (arr, total, _, _) = page_parts(&r);
    assert_eq!(total, 1);
    assert_eq!(arr.len(), 1);
    let files = arr[0]["files"].as_array().unwrap();
    assert_eq!(files.len(), 10);
    assert_eq!(arr[0]["truncated"], js(false));
    assert!(arr[0].as_object().unwrap().get("original_len").is_none());
}

#[test]
fn detect_cycles_envelope_and_per_cycle_truncation_are_independent() {
    let g = locked(graph_with_one_cycle_of_n_files(100));
    let r = detect_cycles(&g, Some(1000), Some(0), Some(50));
    let (arr, total, _, _) = page_parts(&r);
    assert_eq!(total, 1);
    assert_eq!(arr.len(), 1);

    let (env_truncated, env_next) = page_extras(&r);
    assert!(!env_truncated);
    assert_eq!(env_next, None);

    assert_eq!(arr[0]["truncated"], js(true));
    assert_eq!(arr[0]["original_len"], js(100));
}

fn graph_with_orphans() -> Graph {
    let mut g = Graph::new();
    g.merge_file_graph(FileGraph {
        path: "/x.cpp".to_string(),
        language: Language::Cpp,
        symbols: vec![
            sym("foo", SymbolKind::Function, "/x.cpp"),
            sym("bar", SymbolKind::Function, "/x.cpp"),
            sym("baz", SymbolKind::Function, "/x.cpp"),
            sym("cls", SymbolKind::Class, "/x.cpp"),
        ],
        edges: vec![call_edge("/x.cpp:foo", "/x.cpp:bar", "/x.cpp")],
    });
    g
}

fn graph_with_reliable_and_unreliable_orphans() -> Graph {
    let mut g = Graph::new();
    let mut sym_plain = sym("plain_orphan", SymbolKind::Function, "/x.cpp");
    sym_plain.signature = "void plain_orphan()".to_string();
    let mut sym_virtual = sym("virtual_orphan", SymbolKind::Method, "/x.cpp");
    sym_virtual.parent = "Base".to_string();
    sym_virtual.signature = "virtual void virtual_orphan()".to_string();
    let mut sym_synth = sym("synth_orphan", SymbolKind::Function, "/x.cpp");
    sym_synth.signature =
        "/* synthesized by [cpp].macro_define_function: MAKE_FN */".to_string();
    g.merge_file_graph(FileGraph {
        path: "/x.cpp".to_string(),
        language: Language::Cpp,
        symbols: vec![sym_plain, sym_virtual, sym_synth],
        edges: Vec::new(),
    });
    g
}

#[test]
fn orphans_reliability_high_drops_virtual_and_synth() {
    let g = locked(graph_with_reliable_and_unreliable_orphans());
    let r = get_orphans(&g, None, None, None, None, false, Some("high"), NO_BYTE_BUDGET);
    let (arr, total, _, _) = page_parts(&r);
    let names: Vec<&str> = arr.iter().map(|e| e["name"].as_str().unwrap()).collect();
    assert_eq!(total, 1);
    assert_eq!(names, vec!["plain_orphan"]);
}

#[test]
fn orphans_reliability_all_returns_every_orphan() {
    let g = locked(graph_with_reliable_and_unreliable_orphans());
    let r = get_orphans(&g, None, None, None, None, false, Some("all"), NO_BYTE_BUDGET);
    let (arr, total, _, _) = page_parts(&r);
    assert_eq!(arr.len(), 3);
    assert_eq!(total, 3);
}

#[test]
fn orphans_reliability_default_matches_all() {
    let g = locked(graph_with_reliable_and_unreliable_orphans());
    let r = get_orphans(&g, None, None, None, None, false, None, NO_BYTE_BUDGET);
    let (_, total, _, _) = page_parts(&r);
    assert_eq!(total, 3);
}

#[test]
fn orphans_reliability_invalid_errors() {
    let g = locked(graph_with_reliable_and_unreliable_orphans());
    let r = get_orphans(
        &g,
        None,
        None,
        None,
        None,
        false,
        Some("approximate"),
        NO_BYTE_BUDGET,
    );
    assert_eq!(r.is_error, Some(true));
    let body = body_text(&r);
    assert!(body.contains("invalid reliability") && body.contains("approximate"));
}

#[test]
fn orphans_count_only_with_reliability_high_returns_filtered_count() {
    let g = locked(graph_with_reliable_and_unreliable_orphans());
    let r = get_orphans(&g, None, None, None, None, true, Some("high"), NO_BYTE_BUDGET);
    let parsed: serde_json::Value =
        serde_json::from_str(&body_text(&r)).unwrap();
    assert_eq!(parsed["total"], js(1));
    assert_eq!(parsed["limit"], js(0));
    assert_eq!(parsed["results"].as_array().unwrap().len(), 0);
}

#[test]
fn is_unreliable_orphan_predicate_table() {
    let plain = sym("f", SymbolKind::Function, "/x.cpp");
    let mut virt = sym("g", SymbolKind::Method, "/x.cpp");
    virt.signature = "virtual void g()".to_string();
    let mut virt_inline = sym("h", SymbolKind::Method, "/x.cpp");
    virt_inline.signature = "inline virtual void h() const".to_string();
    let mut synth = sym("i", SymbolKind::Function, "/x.cpp");
    synth.signature =
        "/* synthesized by [cpp].macro_define_function: FOO */".to_string();
    let mut decoy = sym("j", SymbolKind::Function, "/x.cpp");
    decoy.signature = "void virtualize()".to_string();

    assert!(!is_unreliable_orphan(&plain));
    assert!(is_unreliable_orphan(&virt));
    assert!(is_unreliable_orphan(&virt_inline));
    assert!(is_unreliable_orphan(&synth));
    assert!(!is_unreliable_orphan(&decoy));
}

#[test]
fn orphans_default_returns_callables() {
    let g = locked(graph_with_orphans());
    let r = get_orphans(&g, None, None, None, None, false, None, NO_BYTE_BUDGET);
    let (arr, total, offset, limit) = page_parts(&r);

    let names: Vec<&str> = arr.iter().map(|e| e["name"].as_str().unwrap()).collect();
    assert_eq!(arr.len(), 2);
    assert!(names.contains(&"foo"));
    assert!(names.contains(&"baz"));
    assert!(!names.contains(&"bar"));
    assert!(!names.contains(&"cls"));
    assert_eq!(total, 2);
    assert_eq!(offset, 0);
    assert_eq!(limit, 20);
}

#[test]
fn orphans_kind_class_returns_only_classes() {
    let g = locked(graph_with_orphans());
    let r = get_orphans(&g, Some("class"), None, None, None, false, None, NO_BYTE_BUDGET);
    let (arr, total, _, _) = page_parts(&r);
    assert_eq!(arr.len(), 1);
    assert_eq!(arr[0]["name"], js("cls"));
    assert_eq!(arr[0]["kind"], js("class"));
    assert_eq!(total, 1);
}

#[test]
fn orphans_invalid_kind_errors() {
    let g = locked(Graph::new());
    let r = get_orphans(&g, Some("widget"), None, None, None, false, None, NO_BYTE_BUDGET);
    assert_eq!(r.is_error, Some(true));
    assert_eq!(body_text(&r), "invalid kind: widget");
}

#[test]
fn orphans_empty_graph_returns_empty_envelope() {
    let g = locked(Graph::new());
    let r = get_orphans(&g, None, None, None, None, false, None, NO_BYTE_BUDGET);
    let (arr, total, offset, limit) = page_parts(&r);
    assert!(arr.is_empty());
    assert_eq!(total, 0);
    assert_eq!(offset, 0);
    assert_eq!(limit, 20);
}

#[test]
fn orphans_empty_string_kind_treated_as_default() {
    let g = locked(graph_with_orphans());
    let r = get_orphans(&g, Some(""), None, None, None, false, None, NO_BYTE_BUDGET);
    let (arr, _, _, _) = page_parts(&r);
    assert_eq!(arr.len(), 2);
}

#[test]
fn orphans_brief_mode_omits_signature() {
    let g = locked(graph_with_orphans());
    let r = get_orphans(&g, None, None, None, None, false, None, NO_BYTE_BUDGET);
    let (arr, _, _, _) = page_parts(&r);
    for entry in arr {
        assert!(entry.get("signature").is_none());
    }
}

fn graph_with_n_orphan_functions(n: usize) -> Graph {
    let mut g = Graph::new();
    let mut symbols: Vec<Symbol> = Vec::with_capacity(n);
    for i in 0..n {
        symbols.push(sym(
            &format!("func_{i:03}"),
            SymbolKind::Function,
            "/big.cpp",
        ));
    }
    g.merge_file_graph(FileGraph {
        path: "/big.cpp".to_string(),
        language: Language::Cpp,
        symbols,
        edges: vec![],
    });
    g
}

#[test]
fn orphans_default_limit_is_20() {
    let g = locked(graph_with_n_orphan_functions(25));
    let r = get_orphans(&g, None, None, None, None, false, None, NO_BYTE_BUDGET);
    let (arr, total, offset, limit) = page_parts(&r);
    assert_eq!(arr.len(), 20);
    assert_eq!(total, 25);
    assert_eq!(offset, 0);
    assert_eq!(limit, 20);
}

#[test]
fn orphans_page_1_and_page_2_cover_full_set() {
    let g = locked(graph_with_n_orphan_functions(30));

    let p1 = get_orphans(&g, None, Some(20), Some(0), None, false, None, NO_BYTE_BUDGET);
    let (a1, t1, _, _) = page_parts(&p1);
    let p2 = get_orphans(&g, None, Some(20), Some(20), None, false, None, NO_BYTE_BUDGET);
    let (a2, t2, _, _) = page_parts(&p2);

    assert_eq!(a1.len(), 20);
    assert_eq!(a2.len(), 10);
    assert_eq!(t1, 30);
    assert_eq!(t2, 30);

    let mut ids: Vec<String> = a1
        .iter()
        .chain(a2.iter())
        .map(|e| e["id"].as_str().unwrap().to_string())
        .collect();
    ids.sort();
    ids.dedup();
    assert_eq!(ids.len(), 30);
}

#[test]
fn orphans_total_is_pre_pagination_count() {
    let g = locked(graph_with_n_orphan_functions(30));
    let r1 = get_orphans(&g, None, Some(20), Some(0), None, false, None, NO_BYTE_BUDGET);
    let r2 = get_orphans(&g, None, Some(20), Some(20), None, false, None, NO_BYTE_BUDGET);
    let r3 = get_orphans(&g, None, Some(5), Some(10), None, false, None, NO_BYTE_BUDGET);
    let (_, t1, _, _) = page_parts(&r1);
    let (_, t2, _, _) = page_parts(&r2);
    let (_, t3, _, _) = page_parts(&r3);
    assert_eq!(t1, 30);
    assert_eq!(t2, 30);
    assert_eq!(t3, 30);
}

#[test]
fn orphans_limit_clamps_at_1000() {
    let g = locked(graph_with_n_orphan_functions(5));
    let r = get_orphans(&g, None, Some(999_999), None, None, false, None, NO_BYTE_BUDGET);
    let (arr, _, _, limit) = page_parts(&r);
    assert_eq!(limit, 1000);
    assert_eq!(arr.len(), 5);
}

#[test]
fn orphans_zero_limit_uses_default() {
    let g = locked(graph_with_n_orphan_functions(5));
    let r = get_orphans(&g, None, Some(0), None, None, false, None, NO_BYTE_BUDGET);
    let (_, _, _, limit) = page_parts(&r);
    assert_eq!(limit, 20);
}

#[test]
fn orphans_offset_beyond_total_returns_empty() {
    let g = locked(graph_with_orphans());
    let r = get_orphans(&g, None, None, Some(999), None, false, None, NO_BYTE_BUDGET);
    let (arr, total, offset, limit) = page_parts(&r);
    assert!(arr.is_empty());
    assert_eq!(total, 2);
    assert_eq!(offset, 999);
    assert_eq!(limit, 20);
}

#[test]
fn orphans_kind_filter_combined_with_pagination() {
    let mut g = Graph::new();
    let mut symbols: Vec<Symbol> = Vec::new();
    for i in 0..12 {
        symbols.push(sym(&format!("Class_{i:03}"), SymbolKind::Class, "/m.cpp"));
    }
    for i in 0..5 {
        symbols.push(sym(&format!("func_{i:03}"), SymbolKind::Function, "/m.cpp"));
    }
    g.merge_file_graph(FileGraph {
        path: "/m.cpp".to_string(),
        language: Language::Cpp,
        symbols,
        edges: vec![],
    });
    let g = locked(g);
    let r = get_orphans(
        &g,
        Some("class"),
        Some(10),
        None,
        None,
        false,
        None,
        NO_BYTE_BUDGET,
    );
    let (arr, total, _, _) = page_parts(&r);
    assert_eq!(arr.len(), 10);
    assert_eq!(total, 12);
    for entry in &arr {
        assert_eq!(entry["kind"], js("class"));
    }
}

#[test]
fn orphans_brief_false_includes_signature() {
    let g = locked(graph_with_orphans());
    let r = get_orphans(&g, None, None, None, Some(false), false, None, NO_BYTE_BUDGET);
    let (arr, _, _, _) = page_parts(&r);
    assert!(!arr.is_empty());
    for entry in &arr {
        assert!(entry.get("signature").is_some());
    }
}

#[test]
fn orphans_byte_budget_truncates_oversized_page() {
    let g = locked(graph_with_n_orphan_functions(30));
    let max_bytes = ENVELOPE_OVERHEAD_BYTES + 300;
    let r = get_orphans(&g, None, Some(20), Some(0), None, false, None, max_bytes);

    let (arr, total, offset, limit) = page_parts(&r);
    let (truncated, next_offset) = page_extras(&r);

    assert!(truncated);
    assert!((arr.len() as u32) < limit);
    assert!(!arr.is_empty());
    match next_offset {
        Some(n) => assert!(n > offset),
        None => panic!("truncated=true must set next_offset=Some(n)"),
    }
    assert!(total >= arr.len() as u32 + offset);

    assert_eq!(total, 30);
}

#[test]
fn orphans_byte_budget_no_truncation_with_no_budget() {
    let g = locked(graph_with_n_orphan_functions(30));
    let r = get_orphans(&g, None, Some(20), Some(0), None, false, None, NO_BYTE_BUDGET);
    let (arr, total, _, _) = page_parts(&r);
    let (truncated, next_offset) = page_extras(&r);
    assert_eq!(arr.len(), 20);
    assert_eq!(total, 30);
    assert!(!truncated);
    assert_eq!(next_offset, None);
}

#[test]
fn orphans_count_only_returns_sentinel_envelope_under_1kb() {
    let g = locked(graph_with_n_orphan_functions(1000));
    let r = get_orphans(&g, None, None, None, None, true, None, NO_BYTE_BUDGET);

    let body = body_text(&r);
    assert!(body.len() < 1024);

    let parsed: serde_json::Value = serde_json::from_str(&body).unwrap();
    let results = parsed["results"].as_array().unwrap();
    let total = parsed["total"].as_u64().unwrap();
    let offset = parsed["offset"].as_u64().unwrap();
    let limit = parsed["limit"].as_u64().unwrap();
    let truncated = parsed["truncated"].as_bool().unwrap();
    let next_offset = parsed["next_offset"].clone();

    assert!(results.is_empty());
    assert_eq!(total, 1000);
    assert_eq!(offset, 0);
    assert_eq!(limit, 0);
    assert!(!truncated);
    assert_eq!(next_offset, serde_json::Value::Null);
}

#[test]
fn orphans_count_only_respects_kind_filter() {
    let g = locked(graph_with_orphans());

    let r = get_orphans(&g, Some("function"), None, None, None, true, None, NO_BYTE_BUDGET);
    let parsed: serde_json::Value = serde_json::from_str(&body_text(&r)).unwrap();
    assert_eq!(parsed["total"].as_u64().unwrap(), 2);
    assert!(parsed["results"].as_array().unwrap().is_empty());

    let r = get_orphans(&g, Some("class"), None, None, None, true, None, NO_BYTE_BUDGET);
    let parsed: serde_json::Value = serde_json::from_str(&body_text(&r)).unwrap();
    assert_eq!(parsed["total"].as_u64().unwrap(), 1);
    assert!(parsed["results"].as_array().unwrap().is_empty());
}

#[test]
fn orphans_count_only_invalid_kind_still_errors() {
    let g = locked(Graph::new());
    let r = get_orphans(&g, Some("widget"), None, None, None, true, None, NO_BYTE_BUDGET);
    assert_eq!(r.is_error, Some(true));
    assert_eq!(body_text(&r), "invalid kind: widget");
}

fn class_graph() -> Graph {
    let mut g = Graph::new();
    g.merge_file_graph(FileGraph {
        path: "/cls.cpp".to_string(),
        language: Language::Cpp,
        symbols: vec![
            sym("Base", SymbolKind::Class, "/cls.cpp"),
            sym("Mid", SymbolKind::Class, "/cls.cpp"),
            sym("Leaf", SymbolKind::Class, "/cls.cpp"),
            sym(
                "looks_like_a_class_but_isnt",
                SymbolKind::Function,
                "/cls.cpp",
            ),
        ],
        edges: vec![
            inherit_edge("Mid", "Base", "/cls.cpp"),
            inherit_edge("Leaf", "Mid", "/cls.cpp"),
        ],
    });
    g
}

#[test]
fn class_hierarchy_missing_class_param_errors() {
    let g = locked(Graph::new());
    let r = get_class_hierarchy(&g, "", None, None);
    assert_eq!(r.is_error, Some(true));
    assert_eq!(body_text(&r), "'class' is required");
}

#[test]
fn class_hierarchy_ambiguous_name_errors_listing_candidates() {
    let mut g = Graph::new();
    g.merge_file_graph(FileGraph {
        path: "/lib_a/object.h".to_string(),
        language: Language::Cpp,
        symbols: vec![sym("SharedName", SymbolKind::Class, "/lib_a/object.h")],
        edges: Vec::new(),
    });
    g.merge_file_graph(FileGraph {
        path: "/lib_b/object.h".to_string(),
        language: Language::Cpp,
        symbols: vec![sym("SharedName", SymbolKind::Class, "/lib_b/object.h")],
        edges: Vec::new(),
    });
    let g = locked(g);
    let r = get_class_hierarchy(&g, "SharedName", Some(1), None);
    assert_eq!(r.is_error, Some(true));
    let body = body_text(&r);
    assert!(body.contains("ambiguous"));
    assert!(body.contains("/lib_a/object.h:SharedName"));
    assert!(body.contains("/lib_b/object.h:SharedName"));
    assert!(body.contains("find_class_candidates"));
}

#[test]
fn class_hierarchy_single_class_unambiguous_walks_as_before() {
    let g = locked(class_graph());
    let r = get_class_hierarchy(&g, "Base", Some(1), None);
    assert!(r.is_error.is_none() || r.is_error == Some(false));
}

#[test]
fn find_class_candidates_returns_each_match_sorted() {
    let mut g = Graph::new();
    g.merge_file_graph(FileGraph {
        path: "/b.h".to_string(),
        language: Language::Cpp,
        symbols: vec![sym("Foo", SymbolKind::Class, "/b.h")],
        edges: Vec::new(),
    });
    g.merge_file_graph(FileGraph {
        path: "/a.h".to_string(),
        language: Language::Cpp,
        symbols: vec![sym("Foo", SymbolKind::Struct, "/a.h")],
        edges: Vec::new(),
    });
    let g = locked(g);
    let r = find_class_candidates(&g, "Foo");
    assert!(r.is_error.is_none() || r.is_error == Some(false));
    let parsed: serde_json::Value = serde_json::from_str(&body_text(&r)).unwrap();
    let arr = parsed.as_array().unwrap();
    assert_eq!(arr.len(), 2);

    assert_eq!(arr[0]["id"].as_str().unwrap(), "/a.h:Foo");
    assert_eq!(arr[1]["id"].as_str().unwrap(), "/b.h:Foo");

    assert_eq!(arr[0]["kind"].as_str().unwrap(), "struct");
    assert_eq!(arr[1]["kind"].as_str().unwrap(), "class");
}

#[test]
fn find_class_candidates_empty_name_errors_unknown_name_returns_empty_array() {
    let g = locked(class_graph());
    let r = find_class_candidates(&g, "");
    assert_eq!(r.is_error, Some(true));

    let r = find_class_candidates(&g, "NoSuchClass");
    assert!(r.is_error.is_none() || r.is_error == Some(false));
    assert_eq!(body_text(&r), "[]");
}

#[test]
fn find_class_candidates_filters_to_class_like_kinds() {
    let mut g = Graph::new();
    g.merge_file_graph(FileGraph {
        path: "/a.cpp".to_string(),
        language: Language::Cpp,
        symbols: vec![sym("Widget", SymbolKind::Class, "/a.cpp")],
        edges: Vec::new(),
    });
    g.merge_file_graph(FileGraph {
        path: "/b.cpp".to_string(),
        language: Language::Cpp,
        symbols: vec![sym("Widget", SymbolKind::Function, "/b.cpp")],
        edges: Vec::new(),
    });
    let g = locked(g);
    let r = find_class_candidates(&g, "Widget");
    let parsed: serde_json::Value = serde_json::from_str(&body_text(&r)).unwrap();
    let arr = parsed.as_array().unwrap();
    assert_eq!(arr.len(), 1);
    assert_eq!(arr[0]["kind"].as_str().unwrap(), "class");
}

#[test]
fn class_hierarchy_returns_node_tree() {
    let g = locked(class_graph());
    let r = get_class_hierarchy(&g, "Mid", Some(1), None);
    assert!(r.is_error.is_none() || r.is_error == Some(false));
    let parsed: serde_json::Value = serde_json::from_str(&body_text(&r)).unwrap();

    let hierarchy = &parsed["hierarchy"];
    assert_eq!(hierarchy["name"], js("Mid"));
    let bases = hierarchy["bases"].as_array().unwrap();
    assert_eq!(bases.len(), 1);
    assert_eq!(bases[0]["name"], js("Base"));
    let derived = hierarchy["derived"].as_array().unwrap();
    assert_eq!(derived.len(), 1);
    assert_eq!(derived[0]["name"], js("Leaf"));

    assert_eq!(parsed["truncated"], js(false));
    assert_eq!(parsed["max_nodes"], js(250));

    assert_eq!(parsed["total_nodes_seen"], js(3));
}

#[test]
fn class_hierarchy_unknown_with_no_suggestions() {
    let g = locked(Graph::new());
    let r = get_class_hierarchy(&g, "Nope", None, None);
    assert_eq!(r.is_error, Some(true));
    assert_eq!(body_text(&r), "class not found: \"Nope\"");
}

#[test]
fn class_hierarchy_unknown_with_suggestions_filters_to_class_like() {
    let g = locked(class_graph());
    let r = get_class_hierarchy(&g, "B", None, None);
    assert_eq!(r.is_error, Some(true));
    let text = body_text(&r);
    assert!(text.starts_with("class not found: \"B\""));
    assert!(text.contains("Base"));
    assert!(text.contains("Did you mean: "));
}

#[test]
fn class_hierarchy_function_kind_not_suggested() {
    let mut g = Graph::new();
    g.merge_file_graph(FileGraph {
        path: "/x.cpp".to_string(),
        language: Language::Cpp,
        symbols: vec![sym(
            "looks_like_a_class_but_isnt",
            SymbolKind::Function,
            "/x.cpp",
        )],
        edges: vec![],
    });
    let g = locked(g);
    let r = get_class_hierarchy(&g, "looks", None, None);
    assert_eq!(r.is_error, Some(true));
    let text = body_text(&r);

    assert_eq!(text, "class not found: \"looks\"");
}

#[test]
fn class_hierarchy_depth_zero_normalized_to_one() {
    let g = locked(class_graph());
    let with_zero = get_class_hierarchy(&g, "Mid", Some(0), None);
    let with_none = get_class_hierarchy(&g, "Mid", None, None);
    assert_eq!(body_text(&with_zero), body_text(&with_none));
}

#[test]
fn class_hierarchy_handler_zero_max_nodes_uses_default_250() {
    let g = locked(class_graph());
    let r = get_class_hierarchy(&g, "Mid", Some(1), Some(0));
    let parsed: serde_json::Value = serde_json::from_str(&body_text(&r)).unwrap();
    assert_eq!(parsed["max_nodes"], js(250));
    assert_eq!(parsed["truncated"], js(false));
}

#[test]
fn class_hierarchy_handler_max_nodes_clamps_at_1000() {
    let g = locked(class_graph());
    let r = get_class_hierarchy(&g, "Mid", Some(1), Some(999_999));
    let parsed: serde_json::Value = serde_json::from_str(&body_text(&r)).unwrap();
    assert_eq!(parsed["max_nodes"], js(1000));
}

#[test]
fn class_hierarchy_handler_truncates_when_budget_exceeded() {
    let g = locked(class_graph());
    let r = get_class_hierarchy(&g, "Mid", Some(1), Some(2));
    let parsed: serde_json::Value = serde_json::from_str(&body_text(&r)).unwrap();
    assert_eq!(parsed["truncated"], js(true));
    assert_eq!(parsed["max_nodes"], js(2));
    assert_eq!(parsed["total_nodes_seen"], js(2));
}

fn coupling_graph() -> Graph {
    let mut g = Graph::new();
    g.merge_file_graph(FileGraph {
        path: "/a.cpp".to_string(),
        language: Language::Cpp,
        symbols: vec![sym("caller", SymbolKind::Function, "/a.cpp")],
        edges: vec![
            call_edge("/a.cpp:caller", "/b.cpp:target", "/a.cpp"),
            include_edge("/a.cpp", "/b.cpp"),
        ],
    });
    g.merge_file_graph(FileGraph {
        path: "/b.cpp".to_string(),
        language: Language::Cpp,
        symbols: vec![sym("target", SymbolKind::Function, "/b.cpp")],
        edges: vec![],
    });
    g
}

fn coupling_page(r: &CallToolResult) -> (Vec<(String, u32)>, u32, bool, Option<u32>) {
    let parsed: serde_json::Value = serde_json::from_str(&body_text(r)).unwrap();
    let rows = parsed["results"]
        .as_array()
        .cloned()
        .unwrap_or_default()
        .into_iter()
        .map(|v| {
            (
                v["file"].as_str().unwrap().to_string(),
                v["count"].as_u64().unwrap() as u32,
            )
        })
        .collect();
    let total = parsed["total"].as_u64().unwrap_or(0) as u32;
    let truncated = parsed["truncated"].as_bool().unwrap_or(false);
    let next_offset = parsed["next_offset"].as_u64().map(|n| n as u32);
    (rows, total, truncated, next_offset)
}

#[test]
fn coupling_missing_file_param_errors() {
    let g = locked(Graph::new());
    let r = get_coupling(&g, "", None, None, None, NO_BYTE_BUDGET);
    assert_eq!(r.is_error, Some(true));
    assert_eq!(body_text(&r), "'file' is required");
}

#[test]
fn coupling_outgoing_default_returns_page() {
    let g = locked(coupling_graph());
    let r = get_coupling(&g, "/a.cpp", None, None, None, NO_BYTE_BUDGET);
    assert!(r.is_error.is_none() || r.is_error == Some(false));
    let (rows, total, truncated, next) = coupling_page(&r);

    assert_eq!(rows, vec![("/b.cpp".to_string(), 2)]);
    assert_eq!(total, 1);
    assert!(!truncated);
    assert_eq!(next, None);
}

#[test]
fn coupling_incoming_returns_callers_and_includers_page() {
    let g = locked(coupling_graph());
    let r = get_coupling(&g, "/b.cpp", Some("incoming"), None, None, NO_BYTE_BUDGET);
    let (rows, total, _, _) = coupling_page(&r);
    assert_eq!(rows, vec![("/a.cpp".to_string(), 2)]);
    assert_eq!(total, 1);
}

#[test]
fn coupling_sorts_desc_count_then_asc_file() {
    let mut g = Graph::new();

    g.merge_file_graph(FileGraph {
        path: "/hub.cpp".to_string(),
        language: Language::Cpp,
        symbols: vec![],
        edges: vec![
            include_edge("/hub.cpp", "/c.cpp"),
            include_edge("/hub.cpp", "/c.cpp"),
            include_edge("/hub.cpp", "/b.cpp"),
            include_edge("/hub.cpp", "/b.cpp"),
            include_edge("/hub.cpp", "/a.cpp"),
            include_edge("/hub.cpp", "/a.cpp"),
        ],
    });
    let g = locked(g);
    let r = get_coupling(&g, "/hub.cpp", Some("outgoing"), None, None, NO_BYTE_BUDGET);
    let (rows, total, _, _) = coupling_page(&r);
    assert_eq!(rows, vec![
            ("/a.cpp".to_string(), 2),
            ("/b.cpp".to_string(), 2),
            ("/c.cpp".to_string(), 2),
        ]);
    assert_eq!(total, 3);
}

#[test]
fn coupling_both_returns_both_pages_populated() {
    let mut g = Graph::new();
    g.merge_file_graph(FileGraph {
        path: "/a.cpp".to_string(),
        language: Language::Cpp,
        symbols: vec![sym("caller", SymbolKind::Function, "/a.cpp")],
        edges: vec![call_edge("/a.cpp:caller", "/b.cpp:target", "/a.cpp")],
    });
    g.merge_file_graph(FileGraph {
        path: "/b.cpp".to_string(),
        language: Language::Cpp,
        symbols: vec![sym("target", SymbolKind::Function, "/b.cpp")],
        edges: vec![],
    });
    g.merge_file_graph(FileGraph {
        path: "/c.cpp".to_string(),
        language: Language::Cpp,
        symbols: vec![],
        edges: vec![include_edge("/c.cpp", "/a.cpp")],
    });
    let g = locked(g);
    let r = get_coupling(&g, "/a.cpp", Some("both"), None, None, NO_BYTE_BUDGET);
    let parsed: serde_json::Value = serde_json::from_str(&body_text(&r)).unwrap();
    let incoming = &parsed["incoming"]["results"];
    let outgoing = &parsed["outgoing"]["results"];

    assert_eq!(outgoing[0]["file"], js("/b.cpp"));
    assert_eq!(outgoing[0]["count"], js(1));

    assert_eq!(incoming[0]["file"], js("/c.cpp"));
    assert_eq!(incoming[0]["count"], js(1));
    assert_eq!(parsed["outgoing"]["total"], js(1));
    assert_eq!(parsed["incoming"]["total"], js(1));
}

#[test]
fn coupling_both_sequential_budget_starves_outgoing() {
    let mut g = Graph::new();

    g.merge_file_graph(FileGraph {
        path: "/target.cpp".to_string(),
        language: Language::Cpp,
        symbols: vec![],
        edges: vec![include_edge("/target.cpp", "/out_dep.cpp")],
    });
    for name in ["/in_a.cpp", "/in_b.cpp", "/in_c.cpp", "/in_d.cpp"] {
        g.merge_file_graph(FileGraph {
            path: name.to_string(),
            language: Language::Cpp,
            symbols: vec![],
            edges: vec![include_edge(name, "/target.cpp")],
        });
    }
    let g = locked(g);
    let r = get_coupling(&g, "/target.cpp", Some("both"), None, None, 560);
    let parsed: serde_json::Value = serde_json::from_str(&body_text(&r)).unwrap();

    assert_eq!(parsed["incoming"]["total"], js(4));
    let outgoing = &parsed["outgoing"];
    assert_eq!(outgoing["results"], js(Vec::<String>::new()));
    assert_eq!(outgoing["truncated"], js(true));
    assert_eq!(outgoing["next_offset"], js(0));

    assert_eq!(outgoing["total"], js(1));
}

#[test]
fn coupling_invalid_direction_errors() {
    let g = locked(Graph::new());
    let r = get_coupling(&g, "/a.cpp", Some("sideways"), None, None, NO_BYTE_BUDGET);
    assert_eq!(r.is_error, Some(true));
    assert_eq!(body_text(&r), "invalid direction: sideways. Expected one of: outgoing, incoming, both");
}

#[test]
fn coupling_unknown_file_returns_empty_page() {
    let g = locked(Graph::new());
    let r = get_coupling(&g, "/never.cpp", None, None, None, NO_BYTE_BUDGET);
    assert!(r.is_error.is_none() || r.is_error == Some(false));
    let (rows, total, truncated, next) = coupling_page(&r);
    assert!(rows.is_empty());
    assert_eq!(total, 0);
    assert!(!truncated);
    assert_eq!(next, None);
}

#[test]
fn dependency_entry_serializes_with_expected_shape() {
    let entry = DependencyEntry {
        file: "/dep.cpp".to_string(),
        kind: "includes",
        line: 7,
    };
    let json: serde_json::Value =
        serde_json::from_str(&json_text(&entry)).unwrap();
    assert_eq!(json["file"], js("/dep.cpp"));
    assert_eq!(json["kind"], js("includes"));
    assert_eq!(json["line"], js(7));
}

fn diagram_graph() -> Graph {
    let mut g = Graph::new();
    g.merge_file_graph(FileGraph {
        path: "/x.cpp".to_string(),
        language: Language::Cpp,
        symbols: vec![
            sym("a", SymbolKind::Function, "/x.cpp"),
            sym("b", SymbolKind::Function, "/x.cpp"),
        ],
        edges: vec![call_edge("/x.cpp:a", "/x.cpp:b", "/x.cpp")],
    });
    g.merge_file_graph(FileGraph {
        path: "/y.cpp".to_string(),
        language: Language::Cpp,
        symbols: vec![],
        edges: vec![include_edge("/y.cpp", "/x.cpp")],
    });
    g.merge_file_graph(FileGraph {
        path: "/cls.cpp".to_string(),
        language: Language::Cpp,
        symbols: vec![
            sym("Base", SymbolKind::Class, "/cls.cpp"),
            sym("Derived", SymbolKind::Class, "/cls.cpp"),
        ],
        edges: vec![inherit_edge("Derived", "Base", "/cls.cpp")],
    });
    g
}

#[test]
fn diagram_no_param_errors() {
    let g = locked(Graph::new());
    let r = generate_diagram(&g, GenerateDiagramInput::default());
    assert_eq!(r.is_error, Some(true));
    assert_eq!(body_text(&r), "exactly one of 'symbol', 'file', or 'class' is required");
}

#[test]
fn diagram_two_params_errors() {
    let g = locked(Graph::new());
    let r = generate_diagram(
        &g,
        GenerateDiagramInput {
            symbol: Some("/x.cpp:a"),
            file: Some("/x.cpp"),
            ..GenerateDiagramInput::default()
        },
    );
    assert_eq!(r.is_error, Some(true));
    assert_eq!(body_text(&r), "exactly one of 'symbol', 'file', or 'class' is required");
}

#[test]
fn diagram_three_params_errors() {
    let g = locked(Graph::new());
    let r = generate_diagram(
        &g,
        GenerateDiagramInput {
            symbol: Some("a"),
            file: Some("/x.cpp"),
            class: Some("Base"),
            ..GenerateDiagramInput::default()
        },
    );
    assert_eq!(r.is_error, Some(true));
}

#[test]
fn diagram_empty_strings_treated_as_absent() {
    let g = locked(Graph::new());
    let r = generate_diagram(
        &g,
        GenerateDiagramInput {
            symbol: Some(""),
            file: Some(""),
            class: Some(""),
            ..GenerateDiagramInput::default()
        },
    );
    assert_eq!(r.is_error, Some(true));
    assert_eq!(body_text(&r), "exactly one of 'symbol', 'file', or 'class' is required");
}

#[test]
fn diagram_symbol_edges_format() {
    let g = locked(diagram_graph());
    let r = generate_diagram(
        &g,
        GenerateDiagramInput {
            symbol: Some("/x.cpp:a"),
            ..GenerateDiagramInput::default()
        },
    );
    assert!(r.is_error.is_none() || r.is_error == Some(false));
    let parsed: serde_json::Value = serde_json::from_str(&body_text(&r)).unwrap();
    let arr = parsed.as_array().unwrap();
    assert_eq!(arr.len(), 1);
    assert_eq!(arr[0]["from"], js("a"));
    assert_eq!(arr[0]["to"], js("b"));
    assert_eq!(arr[0]["label"], js("calls"));
}

#[test]
fn diagram_file_edges_format() {
    let g = locked(diagram_graph());
    let r = generate_diagram(
        &g,
        GenerateDiagramInput {
            file: Some("/x.cpp"),
            ..GenerateDiagramInput::default()
        },
    );
    let parsed: serde_json::Value = serde_json::from_str(&body_text(&r)).unwrap();
    let arr = parsed.as_array().unwrap();

    assert_eq!(arr.len(), 1);
    assert_eq!(arr[0]["label"], js("includes"));
}

#[test]
fn diagram_class_edges_format() {
    let g = locked(diagram_graph());
    let r = generate_diagram(
        &g,
        GenerateDiagramInput {
            class: Some("Base"),
            ..GenerateDiagramInput::default()
        },
    );
    let parsed: serde_json::Value = serde_json::from_str(&body_text(&r)).unwrap();
    let arr = parsed.as_array().unwrap();
    assert_eq!(arr.len(), 1);
    assert_eq!(arr[0]["from"], js("Derived"));
    assert_eq!(arr[0]["to"], js("Base"));
    assert_eq!(arr[0]["label"], js("inherits"));
}

#[test]
fn diagram_mermaid_format() {
    let g = locked(diagram_graph());
    let r = generate_diagram(
        &g,
        GenerateDiagramInput {
            symbol: Some("/x.cpp:a"),
            format: Some("mermaid"),
            ..GenerateDiagramInput::default()
        },
    );
    let text = body_text(&r);
    assert!(text.starts_with("graph TD\n"));
    assert!(text.contains("calls"));
}

#[test]
fn diagram_mermaid_styled_marks_center() {
    let g = locked(diagram_graph());
    let r = generate_diagram(
        &g,
        GenerateDiagramInput {
            symbol: Some("/x.cpp:a"),
            format: Some("mermaid"),
            styled: true,
            ..GenerateDiagramInput::default()
        },
    );
    let text = body_text(&r);
    assert!(text.contains(":::center"));
    assert!(text.contains("classDef center"));
}

#[test]
fn diagram_invalid_format_errors() {
    let g = locked(diagram_graph());
    let r = generate_diagram(
        &g,
        GenerateDiagramInput {
            symbol: Some("/x.cpp:a"),
            format: Some("svg"),
            ..GenerateDiagramInput::default()
        },
    );
    assert_eq!(r.is_error, Some(true));
    assert_eq!(body_text(&r), "invalid format: svg. Expected 'edges' or 'mermaid'");
}

#[test]
fn diagram_invalid_direction_errors_in_symbol_mode() {
    let g = locked(diagram_graph());
    let r = generate_diagram(
        &g,
        GenerateDiagramInput {
            symbol: Some("/x.cpp:a"),
            direction: Some("calle_es"),
            ..GenerateDiagramInput::default()
        },
    );
    assert_eq!(r.is_error, Some(true));
    assert_eq!(body_text(&r), "invalid direction: calle_es. Expected one of: callees, callers, both");
}

#[test]
fn diagram_invalid_direction_ignored_in_file_mode() {
    let g = locked(diagram_graph());
    let r = generate_diagram(
        &g,
        GenerateDiagramInput {
            file: Some("/x.cpp"),
            direction: Some("not-a-direction"),
            ..GenerateDiagramInput::default()
        },
    );
    assert_ne!(r.is_error, Some(true));
}

#[test]
fn diagram_unknown_symbol_did_you_mean() {
    let g = locked(diagram_graph());

    let r = generate_diagram(
        &g,
        GenerateDiagramInput {
            symbol: Some("a"),
            ..GenerateDiagramInput::default()
        },
    );
    assert_eq!(r.is_error, Some(true));
    let text = body_text(&r);
    assert!(text.starts_with("symbol not found: \"a\""));
    assert!(text.contains("Did you mean: "));
}

#[test]
fn diagram_unknown_file_no_did_you_mean() {
    let g = locked(diagram_graph());
    let r = generate_diagram(
        &g,
        GenerateDiagramInput {
            file: Some("/never.cpp"),
            ..GenerateDiagramInput::default()
        },
    );
    assert_eq!(r.is_error, Some(true));

    assert_eq!(body_text(&r), "file not found: \"/never.cpp\"");
}

#[test]
fn diagram_unknown_class_with_suggestion() {
    let g = locked(diagram_graph());

    let r = generate_diagram(
        &g,
        GenerateDiagramInput {
            class: Some("B"),
            ..GenerateDiagramInput::default()
        },
    );
    assert_eq!(r.is_error, Some(true));
    let text = body_text(&r);
    assert!(text.starts_with("class not found: \"B\""));
    assert!(text.contains("Base"));
}

#[test]
fn diagram_empty_edges_serializes_as_array() {
    let mut g = Graph::new();
    g.merge_file_graph(FileGraph {
        path: "/x.cpp".to_string(),
        language: Language::Cpp,
        symbols: vec![sym("Solo", SymbolKind::Class, "/x.cpp")],
        edges: vec![],
    });
    let g = locked(g);
    let r = generate_diagram(
        &g,
        GenerateDiagramInput {
            class: Some("Solo"),
            ..GenerateDiagramInput::default()
        },
    );
    assert_eq!(body_text(&r), "[]");
}

fn directional_call_graph() -> Graph {
    let mut g = Graph::new();
    g.merge_file_graph(FileGraph {
        path: "/x.cpp".to_string(),
        language: Language::Cpp,
        symbols: vec![
            sym("a", SymbolKind::Function, "/x.cpp"),
            sym("b", SymbolKind::Function, "/x.cpp"),
            sym("c", SymbolKind::Function, "/x.cpp"),
        ],
        edges: vec![
            call_edge("/x.cpp:a", "/x.cpp:b", "/x.cpp"),
            call_edge("/x.cpp:c", "/x.cpp:a", "/x.cpp"),
        ],
    });
    g
}

fn directional_call_graph_with_heuristic_outbound() -> Graph {
    let mut g = Graph::new();
    g.merge_file_graph(FileGraph {
        path: "/x.cpp".to_string(),
        language: Language::Cpp,
        symbols: vec![
            sym("a", SymbolKind::Function, "/x.cpp"),
            sym("b", SymbolKind::Function, "/x.cpp"),
            sym("c", SymbolKind::Function, "/x.cpp"),
        ],
        edges: vec![
            Edge {
                from: "/x.cpp:a".to_string(),
                to: "/x.cpp:b".to_string(),
                kind: EdgeKind::Calls,
                file: "/x.cpp".to_string(),
                line: 1,
                confidence: Confidence::Heuristic,
            },
            call_edge("/x.cpp:c", "/x.cpp:a", "/x.cpp"),
        ],
    });
    g
}

#[test]
fn generate_diagram_min_confidence_any_includes_heuristic_outbound() {
    let g = locked(directional_call_graph_with_heuristic_outbound());
    let r = generate_diagram(
        &g,
        GenerateDiagramInput {
            symbol: Some("/x.cpp:a"),
            direction: Some("both"),
            ..GenerateDiagramInput::default()
        },
    );
    let parsed: serde_json::Value = serde_json::from_str(&body_text(&r)).unwrap();
    let arr = parsed.as_array().unwrap();
    assert_eq!(arr.len(), 2);
}

#[test]
fn generate_diagram_min_confidence_resolved_drops_heuristic_outbound() {
    let g = locked(directional_call_graph_with_heuristic_outbound());
    let r = generate_diagram(
        &g,
        GenerateDiagramInput {
            symbol: Some("/x.cpp:a"),
            direction: Some("both"),
            min_confidence: Some("resolved"),
            ..GenerateDiagramInput::default()
        },
    );
    let parsed: serde_json::Value = serde_json::from_str(&body_text(&r)).unwrap();
    let arr = parsed.as_array().unwrap();
    assert_eq!(arr.len(), 1);
    assert_eq!(arr[0]["from"], js("c"));
    assert_eq!(arr[0]["to"], js("a"));
}

#[test]
fn generate_diagram_min_confidence_invalid_value_errors() {
    let g = locked(directional_call_graph_with_heuristic_outbound());
    let r = generate_diagram(
        &g,
        GenerateDiagramInput {
            symbol: Some("/x.cpp:a"),
            min_confidence: Some("low"),
            ..GenerateDiagramInput::default()
        },
    );
    assert_eq!(r.is_error, Some(true));
    let text = body_text(&r);
    assert!(text.contains("invalid min_confidence") && text.contains("\"low\""));
}

#[test]
fn generate_diagram_direction_callees_only() {
    let g = locked(directional_call_graph());
    let r = generate_diagram(
        &g,
        GenerateDiagramInput {
            symbol: Some("/x.cpp:a"),
            direction: Some("callees"),
            ..GenerateDiagramInput::default()
        },
    );
    assert!(r.is_error.is_none() || r.is_error == Some(false));
    let parsed: serde_json::Value = serde_json::from_str(&body_text(&r)).unwrap();
    let arr = parsed.as_array().unwrap();
    assert_eq!(arr.len(), 1);
    assert_eq!(arr[0]["from"], js("a"));
    assert_eq!(arr[0]["to"], js("b"));

    assert!(!arr.iter()
            .any(|e| e["from"] == js("c") || e["to"] == js("c")));
}

#[test]
fn generate_diagram_direction_callers_only() {
    let g = locked(directional_call_graph());
    let r = generate_diagram(
        &g,
        GenerateDiagramInput {
            symbol: Some("/x.cpp:a"),
            direction: Some("callers"),
            ..GenerateDiagramInput::default()
        },
    );
    assert!(r.is_error.is_none() || r.is_error == Some(false));
    let parsed: serde_json::Value = serde_json::from_str(&body_text(&r)).unwrap();
    let arr = parsed.as_array().unwrap();
    assert_eq!(arr.len(), 1);
    assert_eq!(arr[0]["from"], js("c"));
    assert_eq!(arr[0]["to"], js("a"));

    assert!(!arr.iter()
            .any(|e| e["from"] == js("b") || e["to"] == js("b")));
}
