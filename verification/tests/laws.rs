//! What holds of the library as a whole, on chosen values.

use code_graph_tools::analyze_job::{AnalyzeJob, AnalyzeSlot};
use code_graph_tools::edit_distance::{levenshtein, within_distance};
use code_graph_tools::calendar::format_unix_nanos_rfc3339;
use code_graph_tools::handlers::analyze::analyze_codebase_async_at;
use code_graph_tools::handlers::query::{self, CallChain, IncludeEntry};
use code_graph_tools::handlers::structure::{self, CouplingEntry, FileCycle};
use code_graph_tools::handlers::symbols::{
    self, KindCount, NamespaceCounts, NearParams, SearchAnswer, SearchSymbolsInput,
};
use code_graph_tools::handlers::{
    kind_str, parse_kind, symbol_to_result, ENVELOPE_OVERHEAD_BYTES, NO_BYTE_BUDGET,
};
use code_graph_tools::json::ToJson;
use code_graph_tools::model::{id_to_file, symbol_id, Language, Symbol, SymbolKind};
use code_graph_tools::page::{byte_budget_take, paginate, resolve_limit};
use code_graph_tools::sort::sort;
use code_graph_tools::text::is_at_or_under;

fn sym(name: &str, file: &str) -> Symbol {
    Symbol {
        name: name.to_string(),
        kind: SymbolKind::Function,
        file: file.to_string(),
        line: 3,
        column: 4,
        end_line: 5,
        signature: format!("void {name}()"),
        namespace: String::new(),
        parent: String::new(),
        language: Language::Cpp,
    }
}

fn entry(file: &str, count: u32) -> CouplingEntry {
    CouplingEntry {
        file: file.to_string(),
        count,
    }
}

fn chars(s: &str) -> Vec<char> {
    s.chars().collect()
}

#[test]
fn sorting_keeps_equal_records_in_order() {
    let rows: Vec<CallChain> = [(2, "a", 1), (1, "b", 2), (2, "a", 3), (1, "a", 4), (1, "b", 5)]
        .iter()
        .map(|(depth, id, line)| CallChain {
            symbol_id: id.to_string(),
            file: "/f".to_string(),
            line: *line,
            depth: *depth,
        })
        .collect();
    let lines: Vec<u32> = sort(rows).iter().map(|c| c.line).collect();
    assert_eq!(lines, vec![4, 2, 5, 1, 3]);
}

#[test]
fn texts_are_sorted_as_strings_compare() {
    let words = ["b", "", "a", "ab", "Z", "é", "z", "aa", "\u{ffff}", "\u{10000}"];
    let mut expected: Vec<String> = words.iter().map(|w| w.to_string()).collect();
    let sorted = sort(expected.clone());
    expected.sort();
    assert_eq!(sorted, expected);
}

#[test]
fn sorting_many_agrees_with_std() {
    let mut x: u32 = 7;
    let mut rows = Vec::new();
    for i in 0..500 {
        x = x.wrapping_mul(1_664_525).wrapping_add(1_013_904_223);
        rows.push(entry(&format!("/f{}", x % 13), (x >> 8) % 5 + i % 2));
    }
    let mut expected: Vec<(u32, String)> =
        rows.iter().map(|r| (r.count, r.file.clone())).collect();
    expected.sort_by(|a, b| b.0.cmp(&a.0).then_with(|| a.1.cmp(&b.1)));
    structure::sort_coupling_rows(&mut rows);
    let got: Vec<(u32, String)> = rows.into_iter().map(|r| (r.count, r.file)).collect();
    assert_eq!(got, expected);
}

#[test]
fn distances_are_symmetric_and_zero_for_equals() {
    for (a, b, d) in [
        ("kitten", "sitting", 3),
        ("", "abc", 3),
        ("flaw", "lawn", 2),
        ("same", "same", 0),
        ("é", "e", 1),
        ("abc", "cba", 2),
    ] {
        assert_eq!(levenshtein(&chars(a), &chars(b), 10), d);
        assert_eq!(levenshtein(&chars(b), &chars(a), 10), d);
    }
    assert_eq!(within_distance(&chars("abc"), &chars("abcdef"), 2), None);
    assert_eq!(within_distance(&chars("abc"), &chars("abd"), 1), Some(1));
    assert_eq!(within_distance(&chars("abc"), &chars("xyz"), 2), None);
}

#[test]
fn distance_at_the_cap_is_exact() {
    let a = chars("abcdefgh");
    let b = chars("abxdefyz");
    assert_eq!(levenshtein(&a, &b, 3), 3);
    assert!(levenshtein(&a, &b, 2) > 2);
    assert_eq!(levenshtein(&a, &b, usize::MAX), 3);
}

#[test]
fn pages_side_by_side_are_one_longer_page() {
    let rows = || (0..7).map(|i| entry(&format!("/f{i}"), i)).collect::<Vec<_>>();
    let files = |v: Vec<CouplingEntry>| v.into_iter().map(|e| e.file).collect::<Vec<_>>();
    let mut joined = files(paginate(rows(), 1, 2, NO_BYTE_BUDGET).results);
    joined.extend(files(paginate(rows(), 3, 3, NO_BYTE_BUDGET).results));
    assert_eq!(joined, files(paginate(rows(), 1, 5, NO_BYTE_BUDGET).results));
    assert_eq!(paginate(rows(), 1, 2, NO_BYTE_BUDGET).total, 7);
    assert_eq!(paginate(rows(), 99, 2, NO_BYTE_BUDGET).total, 7);
}

#[test]
fn a_page_stays_within_its_size() {
    for max in [0, 100, 512, 530, 560, 600, 700, 2000] {
        let rows: Vec<CouplingEntry> = (0..40).map(|i| entry(&format!("/file_{i}"), i)).collect();
        let page = paginate(rows, 0, 100, max);
        let size = page.to_json().text_size();
        assert!(size <= max || page.results.is_empty());
        assert!(!page.results.is_empty() || size <= 115);
    }
}

#[test]
fn limits_are_resolved() {
    assert_eq!(resolve_limit(None, 20, 1000), 20);
    assert_eq!(resolve_limit(Some(0), 20, 1000), 20);
    assert_eq!(resolve_limit(Some(7), 20, 1000), 7);
    assert_eq!(resolve_limit(Some(5000), 20, 1000), 1000);
    assert_eq!(resolve_limit(None, 50, 10), 10);
}

#[test]
fn both_couplings_share_one_size() {
    let many = |side: &str| {
        (0..30)
            .map(|i| (format!("/{side}_{i:02}.cpp"), 30 - i))
            .collect::<Vec<(String, u32)>>()
    };
    for max in [700, 900, 1500, 3000, 100_000] {
        let r = structure::get_coupling(
            "/x.cpp",
            Some("both"),
            None,
            None,
            many("in"),
            many("out"),
            max,
        );
        let v: serde_json::Value = serde_json::from_str(&r.text).unwrap();
        let outgoing = v["outgoing"]["results"].as_array().unwrap().len();
        assert!(outgoing == 0 || r.text.len() <= max);
        let first = serde_json::to_string(&v["incoming"]).unwrap().len();
        assert!(outgoing > 0 || r.text.len() <= first + 140);
    }
}

#[test]
fn an_empty_outgoing_page_may_exceed_the_size() {
    let incoming: Vec<(String, u32)> = vec![(format!("/{}", "a".repeat(300)), 1)];
    let r = structure::get_coupling(
        "/x.cpp",
        Some("both"),
        None,
        None,
        incoming,
        vec![("/out.cpp".to_string(), 1)],
        900,
    );
    assert!(r.text.len() <= 900);
    let full: Vec<(String, u32)> = vec![("/a.cpp".to_string(), 1)];
    let tight = structure::get_coupling("/x.cpp", Some("both"), None, None, full, vec![], 150);
    assert!(tight.text.len() > 150);
}

#[test]
fn names_and_kinds_undo_each_other() {
    for name in [
        "function", "method", "class", "struct", "enum", "typedef", "interface", "trait",
    ] {
        assert_eq!(kind_str(parse_kind(name).unwrap()), name);
    }
}

#[test]
fn an_id_gives_back_the_file() {
    for file in ["/a.cpp", "C:\\x\\a.cpp", "", "dir:1/a.rs"] {
        let mut s = sym("f", file);
        assert_eq!(id_to_file(&symbol_id(&s)), file);
        s.parent = "A::B".to_string();
        assert_eq!(id_to_file(&symbol_id(&s)), file);
    }
    let odd = sym("a:b", "/a.cpp");
    assert_ne!(id_to_file(&symbol_id(&odd)), "/a.cpp");
}

#[test]
fn cycles_on_pages_resume_and_are_capped() {
    let cycles = || {
        (0..5)
            .map(|i| FileCycle {
                files: vec![
                    format!("/{i}/c.h"),
                    format!("/{i}/a.h"),
                    format!("/{i}/b.h"),
                ],
            })
            .rev()
            .collect::<Vec<_>>()
    };
    let r = structure::detect_cycles(cycles(), Some(2), Some(1), Some(2));
    assert_eq!(
        r.text,
        concat_parts(&[
            r#"{"results":[{"files":["/1/a.h","/1/b.h"],"truncated":true,"original_len":3},"#,
            r#"{"files":["/2/a.h","/2/b.h"],"truncated":true,"original_len":3}],"#,
            r#""total":5,"offset":1,"limit":2,"truncated":true,"next_offset":3}"#,
        ])
    );
    let last = structure::detect_cycles(cycles(), Some(2), Some(4), Some(3));
    assert!(last.text.contains(r#""truncated":false,"next_offset":null"#));
    let past = structure::detect_cycles(cycles(), None, Some(u32::MAX), None);
    assert!(past.text.starts_with(r#"{"results":[],"total":5"#));
}

fn concat_parts(parts: &[&str]) -> String {
    parts.concat()
}

#[test]
fn dependencies_are_written_exactly() {
    let deps = vec![
        IncludeEntry {
            path: "/z.h".to_string(),
            line: 1,
        },
        IncludeEntry {
            path: "/a.h".to_string(),
            line: 9,
        },
        IncludeEntry {
            path: "/a.h".to_string(),
            line: 2,
        },
    ];
    let r = query::get_dependencies("/x.cpp", deps, None, None, NO_BYTE_BUDGET);
    assert_eq!(
        r.text,
        concat_parts(&[
            r#"{"results":[{"file":"/a.h","kind":"includes","line":2},"#,
            r#"{"file":"/a.h","kind":"includes","line":9},"#,
            r#"{"file":"/z.h","kind":"includes","line":1}],"#,
            r#""total":3,"offset":0,"limit":100,"truncated":false,"next_offset":null}"#,
        ])
    );
}

#[test]
fn global_namespaces_are_named_in_summaries_only() {
    let summary = vec![
        NamespaceCounts {
            namespace: "ns".to_string(),
            kinds: vec![KindCount {
                kind: SymbolKind::Class,
                count: 2,
            }],
        },
        NamespaceCounts {
            namespace: String::new(),
            kinds: vec![
                KindCount {
                    kind: SymbolKind::Method,
                    count: 1,
                },
                KindCount {
                    kind: SymbolKind::Enum,
                    count: 7,
                },
            ],
        },
    ];
    let r = symbols::get_symbol_summary(&summary, None, None, false, NO_BYTE_BUDGET);
    assert_eq!(
        r.text,
        concat_parts(&[
            r#"{"results":[{"namespace":"<global>","kind":"enum","count":7},"#,
            r#"{"namespace":"<global>","kind":"method","count":1},"#,
            r#"{"namespace":"ns","kind":"class","count":2}],"#,
            r#""total":3,"offset":0,"limit":100,"truncated":false,"next_offset":null}"#,
        ])
    );
    let n = symbols::get_symbol_summary(&summary, None, None, true, NO_BYTE_BUDGET);
    assert!(n.text.contains(r#""total":3"#) && n.text.len() < 1024);
    assert!(!symbol_to_result(&sym("f", "/a"), false)
        .to_json()
        .to_text()
        .contains("<global>"));
}

#[test]
fn namespaces_are_compared_without_case() {
    let mut a = sym("run", "/a.cpp");
    a.namespace = "App::CORE".to_string();
    let b = sym("run", "/b.cpp");
    let p = NearParams {
        query: "ran".to_string(),
        max_distance: 1,
        kind: None,
        language: None,
        namespace: "Core".to_string(),
        subtree: None,
        limit: 10,
        offset: 0,
    };
    let r = symbols::near_search(&p, &vec![a, b], true, NO_BYTE_BUDGET);
    assert!(r.text.contains("/a.cpp:run"));
    assert!(!r.text.contains("/b.cpp:run"));
    assert!(symbols::namespace_admits("", "x"));
    assert!(symbols::namespace_admits("cor", "app::core"));
    assert!(!symbols::namespace_admits("core", "cor"));
}

#[test]
fn near_names_come_first_and_ties_by_name() {
    let all = vec![sym("cart", "/1"), sym("bat", "/2"), sym("cat", "/3"), sym("at", "/4")];
    let input = SearchSymbolsInput {
        query: Some("cat"),
        near: true,
        max_distance: Some(99),
        brief: true,
        ..SearchSymbolsInput::default()
    };
    let answer = SearchAnswer {
        symbols: vec![],
        total: 0,
        related: vec![],
        all_symbols: all,
    };
    let r = symbols::search_symbols(input, &answer, NO_BYTE_BUDGET);
    let v: serde_json::Value = serde_json::from_str(&r.text).unwrap();
    let names: Vec<&str> = v["results"]
        .as_array()
        .unwrap()
        .iter()
        .map(|r| r["name"].as_str().unwrap())
        .collect();
    assert_eq!(names, vec!["cat", "at", "bat", "cart"]);
}

#[test]
fn suggestions_are_five_at_most_and_only_for_exact_names() {
    let many: Vec<Symbol> = (0..9).map(|i| sym(&format!("name{i}"), "/f")).collect();
    let ask = |query: &'static str, related: Vec<Symbol>| {
        let input = SearchSymbolsInput {
            query: Some(query),
            ..SearchSymbolsInput::default()
        };
        let answer = SearchAnswer {
            symbols: vec![],
            total: 0,
            related,
            all_symbols: (0..9).map(|i| sym(&format!("name{i}"), "/f")).collect(),
        };
        let r = symbols::search_symbols(input, &answer, NO_BYTE_BUDGET);
        let v: serde_json::Value = serde_json::from_str(&r.text).unwrap();
        v["suggestions"].as_array().map_or(0, |a| a.len())
    };
    assert_eq!(ask("^name$", many.clone()), 5);
    assert_eq!(ask("^name$", vec![]), 5);
    assert_eq!(ask("^na.me$", vec![]), 0);
    assert_eq!(ask("name", many.clone()), 0);
    assert_eq!(ask("^name", many.clone()), 0);
    assert_eq!(ask("^$", many), 0);
    assert_eq!(symbols::suggestion_pattern("^é$", 0), Some("é".to_string()));
    assert_eq!(symbols::suggestion_pattern("^é$", 1), None);
}

#[test]
fn names_in_messages_are_quoted() {
    let r = symbols::get_symbol_detail("a\"b\\c\n", None, &vec![]);
    assert_eq!(r.text, "symbol not found: \"a\\\"b\\\\c\\n\"");
    let r = structure::get_orphans(
        &vec![],
        None,
        None,
        None,
        None,
        false,
        Some("most"),
        NO_BYTE_BUDGET,
    );
    assert_eq!(
        r.text,
        "invalid reliability: \"most\" (expected \"all\" or \"high\")"
    );
}

#[test]
fn ambiguous_classes_are_listed() {
    let two = vec![sym("Foo", "/b.h"), sym("Foo", "/a.h")];
    let r = structure::get_class_hierarchy("Foo", None, &two, None, &vec![]);
    assert!(r.is_error);
    assert_eq!(
        r.text,
        "ambiguous class name \"Foo\" (2 candidates):\n  - /a.h:Foo\n  - /b.h:Foo\nUse find_class_candidates to discover candidates or pass the fully-qualified symbol_id to get_symbol_detail."
    );
}

#[test]
fn a_record_too_large_leaves_the_page_empty() {
    let rows = vec![entry(&"x".repeat(600), 1), entry("/b", 1)];
    let (kept, n, truncated, next) = byte_budget_take(rows, 0, 10, ENVELOPE_OVERHEAD_BYTES + 100);
    assert!(kept.is_empty() && n == 0 && truncated);
    assert_eq!(next, Some(0));
}

#[test]
fn a_running_job_is_never_replaced() {
    let mut slot = AnalyzeSlot::default();
    slot.current = Some(AnalyzeJob::new_running("a".to_string(), "/a".to_string(), false, 1));
    for i in 0..3 {
        let k = analyze_codebase_async_at(&mut slot, format!("/{i}"), true, 10 + i);
        assert!(!k.started);
        assert_eq!(slot.current.as_ref().unwrap().job_id, "a");
        assert!(slot.previous_terminal.is_none());
    }
}

#[test]
fn near_search_stays_in_the_subtree() {
    let search = |subtree: &'static str| {
        let input = SearchSymbolsInput {
            query: Some("foo"),
            near: true,
            max_distance: Some(0),
            subtree: Some(subtree),
            brief: true,
            ..SearchSymbolsInput::default()
        };
        let answer = SearchAnswer {
            symbols: vec![],
            total: 0,
            related: vec![],
            all_symbols: vec![sym("foo", "/a/x.cpp"), sym("foo", "/b/y.cpp")],
        };
        let r = symbols::search_symbols(input, &answer, NO_BYTE_BUDGET);
        let v: serde_json::Value = serde_json::from_str(&r.text).unwrap();
        v
    };
    let ids = |v: &serde_json::Value| -> Vec<String> {
        v["results"]
            .as_array()
            .unwrap()
            .iter()
            .map(|r| r["id"].as_str().unwrap().to_string())
            .collect()
    };
    let a = search("/a");
    assert_eq!(a["total"].as_u64(), Some(1));
    assert_eq!(ids(&a), vec!["/a/x.cpp:foo"]);
    assert_eq!(search("/b/y.cpp")["total"].as_u64(), Some(1));
    assert_eq!(search("/c")["total"].as_u64(), Some(0));
    assert_eq!(ids(&search("")).len(), 2);
}

#[test]
fn counting_is_refused_in_near_mode() {
    let search = |query: &'static str, kind: &'static str, count_only: bool, near: bool| {
        let input = SearchSymbolsInput {
            query: Some(query),
            kind: Some(kind),
            count_only,
            near,
            ..SearchSymbolsInput::default()
        };
        let answer = SearchAnswer {
            symbols: vec![],
            total: 0,
            related: vec![],
            all_symbols: vec![],
        };
        symbols::search_symbols(input, &answer, usize::MAX)
    };
    for query in ["foo", "^Foo.*$"] {
        let r = search(query, "", true, true).into_call_tool_result();
        assert_eq!(r.is_error, Some(true));
        let refused = search(query, "function", true, true);
        assert!(refused.is_error);
        assert_eq!(refused.text, "'count_only' and 'near' cannot be combined");
        assert!(!search(query, "", true, false).is_error);
    }
    assert_eq!(search("", "method", true, true).text, "'count_only' and 'near' cannot be combined");
    assert_eq!(search("foo", "gizmo", true, true).text, "invalid kind: gizmo");
    assert!(!search("foo", "", false, true).is_error);
    assert!(search("^Foo.*$", "", false, true).is_error);
}

#[test]
fn a_directory_holds_what_lies_behind_a_slash() {
    for (file, dir, held) in [
        ("/a/x.cpp", "/a", true),
        ("/a/x.cpp", "/a/", true),
        ("/a/x.cpp", "/a/x.cpp", true),
        ("/a/x.cpp", "/", true),
        ("/ab/x.cpp", "/a", false),
        ("/a", "/a/x.cpp", false),
        ("/é/x.cpp", "/é", true),
    ] {
        assert_eq!(is_at_or_under(file, dir), held, "{file} in {dir}");
    }
}

#[test]
fn later_times_are_written_as_greater_texts() {
    let times: Vec<u64> = vec![
        0,
        999_999_999,
        1_000_000_000,
        59_000_000_000,
        60_000_000_000,
        86_399_000_000_000,
        86_400_000_000_000,
        951_782_399_000_000_000,
        951_782_400_000_000_000,
        1_735_689_599_000_000_000,
        1_735_689_600_000_000_000,
        u64::MAX,
    ];
    for pair in times.windows(2) {
        let (a, b) = (format_unix_nanos_rfc3339(pair[0]), format_unix_nanos_rfc3339(pair[1]));
        assert!(a <= b);
        assert_eq!(a == b, pair[0] / 1_000_000_000 == pair[1] / 1_000_000_000);
    }
}

#[test]
fn all_pages_of_callers_are_the_whole_list() {
    let chains = || {
        (0..7)
            .map(|i| CallChain {
                symbol_id: format!("/f.cpp:f{}", 6 - i),
                file: "/f.cpp".to_string(),
                line: i,
                depth: 1 + i % 2,
            })
            .collect::<Vec<_>>()
    };
    let page = |limit: u32, offset: u32| {
        let r = query::callers_or_callees(
            "/f.cpp:g",
            chains(),
            true,
            &vec![],
            Some(limit),
            Some(offset),
            NO_BYTE_BUDGET,
        );
        let v: serde_json::Value = serde_json::from_str(&r.text).unwrap();
        assert_eq!(v["total"].as_u64(), Some(7));
        v["results"].as_array().unwrap().clone()
    };
    let whole = page(100, 0);
    assert_eq!(whole.len(), 7);
    for limit in 1..8 {
        let mut joined = Vec::new();
        let mut offset = 0;
        while offset < 7 {
            joined.extend(page(limit, offset));
            offset += limit;
        }
        assert_eq!(joined, whole);
    }
}

#[test]
fn reliable_orphans_are_all_orphans_but_the_unreliable() {
    let mut orphans: Vec<Symbol> = ["d", "b", "e", "a", "c"]
        .iter()
        .map(|name| sym(name, "/f.cpp"))
        .collect();
    orphans[0].signature = "virtual void d()".to_string();
    orphans[3].signature = "static virtual void a()".to_string();
    let ids = |reliability: &'static str| -> Vec<String> {
        let r = structure::get_orphans(
            &orphans,
            None,
            None,
            None,
            None,
            false,
            Some(reliability),
            NO_BYTE_BUDGET,
        );
        let v: serde_json::Value = serde_json::from_str(&r.text).unwrap();
        let rows = v["results"].as_array().unwrap();
        assert_eq!(v["total"].as_u64(), Some(rows.len() as u64));
        rows.iter().map(|r| r["id"].as_str().unwrap().to_string()).collect()
    };
    let all = ids("all");
    assert_eq!(all.len(), 5);
    assert!(all.windows(2).all(|w| w[0] < w[1]));
    let rest: Vec<String> = all
        .into_iter()
        .filter(|id| id != "/f.cpp:d" && id != "/f.cpp:a")
        .collect();
    assert_eq!(ids("high"), rest);
    assert_eq!(rest, vec!["/f.cpp:b", "/f.cpp:c", "/f.cpp:e"]);
}

#[test]
fn a_summary_counts_every_symbol_once() {
    let counts = |namespace: &str, kinds: &[(SymbolKind, u32)]| NamespaceCounts {
        namespace: namespace.to_string(),
        kinds: kinds.iter().map(|(kind, count)| KindCount { kind: *kind, count: *count }).collect(),
    };
    let summary = vec![
        counts("z", &[(SymbolKind::Struct, 4), (SymbolKind::Class, 1)]),
        counts("", &[(SymbolKind::Trait, 2)]),
        counts("a", &[(SymbolKind::Struct, 3), (SymbolKind::Function, 5)]),
    ];
    let r = symbols::get_symbol_summary(&summary, None, None, false, NO_BYTE_BUDGET);
    let v: serde_json::Value = serde_json::from_str(&r.text).unwrap();
    let rows: Vec<(String, String)> = v["results"]
        .as_array()
        .unwrap()
        .iter()
        .map(|r| {
            let text = |key: &str| r[key].as_str().unwrap().to_string();
            (text("namespace"), text("kind"))
        })
        .collect();
    assert!(rows.windows(2).all(|w| w[0] < w[1]));
    assert_eq!(rows.len(), 5);
    let sum: u64 = v["results"]
        .as_array()
        .unwrap()
        .iter()
        .map(|r| r["count"].as_u64().unwrap())
        .sum();
    assert_eq!(sum, 15);
}

#[test]
fn both_couplings_stay_within_a_size_of_an_envelope() {
    let many = |side: &str| {
        (0..30)
            .map(|i| (format!("/{side}_{i:02}.cpp"), 30 - i))
            .collect::<Vec<(String, u32)>>()
    };
    for max in [512, 513, 560, 640, 700, 900, 1500, 3000] {
        let r = structure::get_coupling(
            "/x.cpp",
            Some("both"),
            None,
            None,
            many("in"),
            many("out"),
            max,
        );
        assert!(r.text.len() <= max);
    }
}
