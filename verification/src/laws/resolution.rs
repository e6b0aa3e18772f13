//! What becomes of the edges of files, and of what was parsed.

use crate::indexer::{
    are_answers_for, are_names_of, came_of, is_answer_for, is_layered, is_plain_path,
    last_part, layered_files, layered_symbols, lemma_file_index_layers, lemma_symbol_index_layers,
    offered, outcome_warning, outcome_warnings, parsed_graphs, resolved_edge, resolved_edges, resolved_file,
    with_files, with_paths, EdgeAnswer, EdgeResolver, FileIndexModel, ParseOutcome,
    ProgressModel, SymbolEntryModel, SymbolIndexModel, TargetModel, ThrottleModel,
};
use crate::model::{EdgeModel, FileGraphModel, Language};
use vstd::prelude::*;

verus! {

/// Whether an edge is what a resolver makes of one of a file: of the same kind,
/// from the same place. An include leads to a file that the resolver gave for
/// what it names, which is a source file. A call or an override leads to a symbol
/// that the resolver gave for what it names, from where it stands, or is as it
/// was where the resolver gave none. Inheritance is as it was.
pub open spec fn is_made_of<R: EdgeResolver>(
    resolver: R,
    symbols: SymbolIndexModel,
    files: FileIndexModel,
    g: FileGraphModel,
    before: EdgeModel,
    after: EdgeModel,
) -> bool {
    &&& after.kind == before.kind
    &&& after.from == before.from
    &&& after.file == before.file
    &&& after.line == before.line
    &&& before.kind is Inherits ==> after == before
    &&& before.kind is Includes ==> resolver.may_include(
        g.language,
        before.to,
        files,
        Some(TargetModel { to: after.to, confidence: after.confidence }),
    ) && resolver.may_be_source(after.to, true)
    &&& before.kind is Calls || before.kind is Overrides ==> resolver.may_call(
        g.language,
        before.to,
        before.from,
        g.path,
        symbols,
        Some(TargetModel { to: after.to, confidence: after.confidence }),
    ) || (after == before && resolver.may_call(
        g.language,
        before.to,
        before.from,
        g.path,
        symbols,
        None,
    ))
}

/// Whether an edge may be dropped: an include for which the resolver may give no
/// file, or one that is no source file.
pub open spec fn may_drop<R: EdgeResolver>(
    resolver: R,
    files: FileIndexModel,
    g: FileGraphModel,
    e: EdgeModel,
) -> bool {
    e.kind is Includes && (resolver.may_include(g.language, e.to, files, None) || exists|
        t: TargetModel,
    |
        #[trigger] resolver.may_include(g.language, e.to, files, Some(t)) && resolver.may_be_source(
            t.to,
            false,
        ))
}

/// Whether `at` says where the edges of a file after resolving come from: each
/// from one before, in the same order, and those that are gone may be dropped.
pub open spec fn traces<R: EdgeResolver>(
    at: Seq<int>,
    resolver: R,
    symbols: SymbolIndexModel,
    files: FileIndexModel,
    before: FileGraphModel,
    after: FileGraphModel,
) -> bool {
    &&& at.len() == after.edges.len()
    &&& forall|k: int| 0 <= k < at.len() ==> 0 <= #[trigger] at[k] < before.edges.len()
    &&& forall|k: int, l: int| 0 <= k < l < at.len() ==> #[trigger] at[k] < #[trigger] at[l]
    &&& forall|k: int|
        0 <= k < at.len() ==> is_made_of(
            resolver,
            symbols,
            files,
            before,
            before.edges[#[trigger] at[k]],
            after.edges[k],
        )
    &&& forall|i: int|
        0 <= i < before.edges.len() && !at.contains(i) ==> may_drop(
            resolver,
            files,
            before,
            #[trigger] before.edges[i],
        )
}

/// Resolving leaves path, language and symbols of a file alone, and all of a file
/// whose language has no plugin. Else every edge is resolved as the resolver says
/// for what it names, in its place, and nothing is dropped but includes that lead
/// to no source file.
pub proof fn lemma_edges_as_resolved<R: EdgeResolver>(
    resolver: R,
    symbols: SymbolIndexModel,
    files: FileIndexModel,
    before: FileGraphModel,
    after: FileGraphModel,
)
    requires
        came_of(resolver, symbols, files, before, after),
    ensures
        after.path == before.path,
        after.language == before.language,
        after.symbols == before.symbols,
        !resolver.may_handle(before.language, true) ==> after == before,
        !resolver.may_handle(before.language, false) ==> exists|at: Seq<int>| #[trigger]
            traces(at, resolver, symbols, files, before, after),
        after == before || exists|at: Seq<int>| #[trigger]
            traces(at, resolver, symbols, files, before, after),
{
    let answers = choose|answers: Option<Seq<EdgeAnswer>>| #[trigger]
        are_answers_for(resolver, symbols, files, before, answers) && after == resolved_file(
            before,
            answers,
        );
    if answers is Some {
        let said = answers->0;
        let at = lemma_traced(before.edges, said);
        assert forall|k: int| 0 <= k < at.len() implies is_made_of(
            resolver,
            symbols,
            files,
            before,
            before.edges[#[trigger] at[k]],
            after.edges[k],
        ) by {
            let i = at[k];
            assert(is_answer_for(resolver, symbols, files, before, before.edges[i], said[i]));
            assert(resolved_edge(before.edges[i], said[i]) == Some(after.edges[k]));
            match said[i].target {
                Some(t) => {
                    assert(t == TargetModel { to: t.to, confidence: t.confidence });
                },
                None => {},
            }
        }
        assert forall|i: int| 0 <= i < before.edges.len() && !at.contains(i) implies may_drop(
            resolver,
            files,
            before,
            #[trigger] before.edges[i],
        ) by {
            assert(is_answer_for(resolver, symbols, files, before, before.edges[i], said[i]));
            assert(resolved_edge(before.edges[i], said[i]) is None);
            match said[i].target {
                Some(t) => {
                    assert(resolver.may_include(
                        before.language,
                        before.edges[i].to,
                        files,
                        Some(t),
                    ));
                },
                None => {},
            }
        }
        assert(traces(at, resolver, symbols, files, before, after));
    }
}

/// Edges of fresh files are looked up among the cached files and the fresh ones
/// together: the indexes are those of all these files, the cached ones first.
pub proof fn lemma_fresh_files_see_all(
    cached: Seq<FileGraphModel>,
    fresh: Seq<FileGraphModel>,
    files: FileIndexModel,
)
    requires
        is_layered(files, cached, fresh),
    ensures
        layered_symbols(cached, fresh) == with_files(
            Map::<(Language, Seq<char>), Seq<SymbolEntryModel>>::empty(),
            cached + fresh,
        ),
        exists|names: Seq<Option<Seq<char>>>| #[trigger]
            are_names_of(names, cached + fresh) && files == with_paths(
                Map::<Seq<char>, Seq<Seq<char>>>::empty(),
                cached + fresh,
                names,
            ),
{
    lemma_symbol_index_layers(
        Map::<(Language, Seq<char>), Seq<SymbolEntryModel>>::empty(),
        cached,
        fresh,
    );
    let (a, b) = choose|a: Seq<Option<Seq<char>>>, b: Seq<Option<Seq<char>>>|
        #![trigger layered_files(cached, fresh, a, b)]
        are_names_of(a, cached) && are_names_of(b, fresh) && files == layered_files(
            cached,
            fresh,
            a,
            b,
        );
    let names = a + b;
    let all = cached + fresh;
    lemma_file_index_layers(Map::<Seq<char>, Seq<Seq<char>>>::empty(), cached, fresh, a, b);
    assert forall|i: int|
        0 <= i < all.len() && is_plain_path(#[trigger] all[i].path) implies names[i] == Some(
        last_part(all[i].path),
    ) by {
        if i < cached.len() {
            assert(is_plain_path(cached[i].path));
        } else {
            assert(is_plain_path(fresh[i - cached.len()].path));
        }
    }
    assert(are_names_of(names, all));
}

/// The last part of a path is what stands behind its last slash: it has no slash,
/// the path ends with it, and it is the whole path or a slash stands before it.
pub proof fn lemma_last_part(path: Seq<char>)
    ensures
        ({
            let name = last_part(path);
            &&& name.len() <= path.len()
            &&& path.skip(path.len() - name.len()) == name
            &&& forall|i: int| 0 <= i < name.len() ==> #[trigger] name[i] != '/'
            &&& name.len() < path.len() ==> path[path.len() - name.len() - 1] == '/'
        }),
    decreases path.len(),
{
    let name = last_part(path);
    if path.len() > 0 && path.last() != '/' {
        lemma_last_part(path.drop_last());
        let fewer = last_part(path.drop_last());
        assert(path.skip(path.len() - name.len()) =~= fewer.push(path.last())) by {
            assert forall|i: int| 0 <= i < fewer.len() implies path.skip(
                path.len() - name.len(),
            )[i] == fewer[i] by {
                assert(path.drop_last().skip(path.drop_last().len() - fewer.len())[i] == fewer[i]);
            }
        }
    } else {
        assert(path.skip(path.len() - name.len()) =~= name);
    }
}

/// What an index of files lists under a name is the path of one of them, and the
/// name is the last part of it where it is plain.
pub proof fn lemma_only_named_files_found(
    graphs: Seq<FileGraphModel>,
    names: Seq<Option<Seq<char>>>,
    name: Seq<char>,
    k: int,
)
    requires
        are_names_of(names, graphs),
        ({
            let index = with_paths(Map::<Seq<char>, Seq<Seq<char>>>::empty(), graphs, names);
            index.contains_key(name) && 0 <= k < index[name].len()
        }),
    ensures
        exists|f: int|
            0 <= f < graphs.len() && (#[trigger] graphs[f]).path == with_paths(
                Map::<Seq<char>, Seq<Seq<char>>>::empty(),
                graphs,
                names,
            )[name][k] && (is_plain_path(graphs[f].path) ==> last_part(graphs[f].path) == name),
    decreases graphs.len(),
{
    let empty = Map::<Seq<char>, Seq<Seq<char>>>::empty();
    let found = with_paths(empty, graphs, names)[name][k];
    assert(graphs.len() > 0);
    let n = graphs.len() - 1;
    let fewer = graphs.drop_last();
    let rest = names.drop_last();
    let before = with_paths(empty, fewer, rest);
    assert(graphs[n] == graphs.last() && names[n] == names.last());
    assert(is_plain_path(graphs[n].path) ==> names[n] == Some(last_part(graphs[n].path)));
    if before.contains_key(name) && k < before[name].len() {
        assert(before[name][k] == found);
        assert(are_names_of(rest, fewer)) by {
            assert forall|i: int|
                0 <= i < fewer.len() && is_plain_path(#[trigger] fewer[i].path) implies rest[i]
                == Some(last_part(fewer[i].path)) by {
                assert(fewer[i] == graphs[i]);
                assert(is_plain_path(graphs[i].path));
            }
        }
        lemma_only_named_files_found(fewer, rest, name, k);
        let f = choose|f: int|
            0 <= f < fewer.len() && (#[trigger] fewer[f]).path == found && (is_plain_path(
                fewer[f].path,
            ) ==> last_part(fewer[f].path) == name);
        assert(graphs[f] == fewer[f]);
    } else {
        assert(names[n] == Some(name));
        assert(graphs[n].path == found);
    }
}

/// What was parsed is sorted out: the graphs of all files that were parsed, and a
/// warning for each that was not, which names it and says why; both in the order
/// of the files.
pub proof fn lemma_parsed_and_warned(outcomes: Seq<ParseOutcome>)
    ensures
        parsed_graphs(outcomes) == outcomes.filter(|o: ParseOutcome| o is Parsed).map_values(
            |o: ParseOutcome| o->Parsed_0,
        ),
        outcome_warnings(outcomes) == outcomes.filter(
            |o: ParseOutcome| !(o is Parsed),
        ).map_values(|o: ParseOutcome| why_not_parsed(o)),
    decreases outcomes.len(),
{
    reveal(Seq::filter);
    let parsed = |o: ParseOutcome| o is Parsed;
    let failed = |o: ParseOutcome| !(o is Parsed);
    let graph = |o: ParseOutcome| o->Parsed_0;
    let why = |o: ParseOutcome| why_not_parsed(o);
    if outcomes.len() == 0 {
        assert(parsed_graphs(outcomes) =~= outcomes.filter(parsed).map_values(graph));
        assert(outcome_warnings(outcomes) =~= outcomes.filter(failed).map_values(why));
    } else {
        let fewer = outcomes.drop_last();
        let o = outcomes.last();
        lemma_parsed_and_warned(fewer);
        if o is Parsed {
            assert(fewer.filter(parsed).push(o).map_values(graph) =~= fewer.filter(
                parsed,
            ).map_values(graph).push(graph(o)));
        } else {
            assert(fewer.filter(failed).push(o).map_values(why) =~= fewer.filter(failed).map_values(
                why,
            ).push(why(o)));
            assert(outcome_warning(o) == Some(why_not_parsed(o)));
        }
    }
}

/// What is said of a file that was not parsed.
pub open spec fn why_not_parsed(o: ParseOutcome) -> Seq<char> {
    match o {
        ParseOutcome::Parsed(_) => Seq::empty(),
        ParseOutcome::NoPlugin { path, language } => path@ + ": no plugin for language "@
            + match language {
            Language::Cpp => "Cpp"@,
            Language::Rust => "Rust"@,
            Language::Go => "Go"@,
            Language::Python => "Python"@,
            Language::CSharp => "CSharp"@,
            Language::Java => "Java"@,
        },
        ParseOutcome::ReadFailed { path, error } => path@ + ": read error: "@ + error@,
        ParseOutcome::ParseFailed { path, error } => path@ + ": parse error: "@ + error@,
    }
}

/// An event is passed on where the last one that was lies a tenth of a second
/// back or more, and nothing waits then. Else it waits, in place of one that
/// waited.
pub proof fn lemma_events_spaced(t: ThrottleModel, event: ProgressModel, now: u64)
    ensures
        now - t.last_sent >= 100_000_000 ==> offered(t, event, now) == (
            ThrottleModel { last_sent: now, waiting: None },
            Some(event),
        ),
        now - t.last_sent < 100_000_000 ==> offered(t, event, now) == (
            ThrottleModel { last_sent: t.last_sent, waiting: Some(event) },
            None::<ProgressModel>,
        ),
{
}

/// Where the edges that are kept come from.
proof fn lemma_traced(edges: Seq<EdgeModel>, answers: Seq<EdgeAnswer>) -> (at: Seq<int>)
    requires
        answers.len() == edges.len(),
    ensures
        at.len() == resolved_edges(edges, answers).len(),
        forall|k: int| 0 <= k < at.len() ==> 0 <= #[trigger] at[k] < edges.len(),
        forall|k: int, l: int| 0 <= k < l < at.len() ==> #[trigger] at[k] < #[trigger] at[l],
        forall|k: int|
            0 <= k < at.len() ==> resolved_edge(edges[#[trigger] at[k]], answers[at[k]]) == Some(
                resolved_edges(edges, answers)[k],
            ),
        forall|i: int|
            0 <= i < edges.len() && !at.contains(i) ==> resolved_edge(
                #[trigger] edges[i],
                answers[i],
            ) is None,
    decreases edges.len(),
{
    if edges.len() == 0 {
        Seq::empty()
    } else {
        let n = edges.len() - 1;
        let fewer = edges.drop_last();
        let said = answers.drop_last();
        let rest = lemma_traced(fewer, said);
        let at = match resolved_edge(edges.last(), answers.last()) {
            Some(_) => rest.push(n),
            None => rest,
        };
        assert forall|k: int| 0 <= k < rest.len() implies #[trigger] rest[k] < n && fewer[rest[k]]
            == edges[rest[k]] && said[rest[k]] == answers[rest[k]] by {}
        assert forall|i: int| 0 <= i < edges.len() && !at.contains(i) implies resolved_edge(
            #[trigger] edges[i],
            answers[i],
        ) is None by {
            if i < n {
                if rest.contains(i) {
                    let k = choose|k: int| 0 <= k < rest.len() && rest[k] == i;
                    assert(at[k] == i);
                }
                assert(fewer[i] == edges[i] && said[i] == answers[i]);
            } else if resolved_edge(edges[n], answers[n]) is Some {
                assert(at[at.len() - 1] == n);
            }
        }
        at
    }
}

} // verus!
