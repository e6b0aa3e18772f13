//! Indexing: progress, sorting out what was parsed, indexes by name, and the
//! resolution of edges.

use crate::json::opt_view;
use crate::model::{
    id_of, symbol_id, Confidence, Edge, EdgeKind, EdgeModel, FileGraph, FileGraphModel, Language,
    Symbol, SymbolModel,
};
use crate::sort::{reversed, views};
use crate::table::{listed_under, put_under, Table};
use crate::text::{glue2, glue3, glue5, owned};
use tokio::sync::mpsc::Sender;
use vstd::prelude::*;

verus! {

// ----- progress -----

/// What an indexing pass came to.
#[derive(Debug, Clone)]
pub struct IndexResult {
    pub files: u32,
    pub symbols: u32,
    pub edges: u32,
    pub root_path: String,
    pub warnings: Vec<String>,
}

/// Why an indexing pass could not be begun. What goes wrong with single files
/// is warned of instead.
#[derive(Debug)]
pub enum IndexError {
    /// The threads for parsing could not be started.
    PoolInit(String),
}

impl IndexError {
    /// What is said of the error.
    pub fn message(&self) -> (r: String)
        ensures
            r@ == "rayon pool init failed: "@ + self->PoolInit_0@,
    {
        match self {
            IndexError::PoolInit(e) => glue2("rayon pool init failed: ", e.as_str()),
        }
    }
}

/// A report of progress: how many of how many, and with what. A total of zero
/// says that it is not known.
#[derive(Debug, Clone)]
pub struct ProgressEvent {
    pub progress: u32,
    pub total: u32,
    pub message: String,
}

/// Where progress is reported to. A report does not wait.
pub trait ProgressSink: Send + Sync {
    /// Whether the sink was told that `progress` of `total` are done. What a sink
    /// makes of it is its own affair.
    open spec fn was_told(&self, progress: u32, total: u32, message: Seq<char>) -> bool {
        true
    }

    /// Reports that `progress` of `total` are done.
    fn report(&self, progress: u32, total: u32, message: &str)
        ensures
            self.was_told(progress, total, message@),
    ;
}

/// Reports to no one.
pub struct NoopProgressSink;

impl ProgressSink for NoopProgressSink {
    fn report(&self, progress: u32, total: u32, message: &str) {
    }
}

#[verifier::external_type_specification]
#[verifier::external_body]
#[verifier::reject_recursive_types(T)]
pub struct ExSender<T>(tokio::sync::mpsc::Sender<T>);

/// Reports through a channel. A report is dropped where the channel is full.
pub struct ChannelProgressSink(pub Sender<ProgressEvent>);

/// `tokio::sync::mpsc::Sender::try_send`: puts an event into the channel if
/// there is room, without waiting, and says whether there was. Nothing is
/// claimed of the result: it depends on what the receiver has taken out.
#[verifier::external_body]
fn offer(channel: &Sender<ProgressEvent>, event: ProgressEvent) -> bool {
    channel.try_send(event).is_ok()
}

/// The event of a report.
pub fn progress_event(progress: u32, total: u32, message: &str) -> (r: ProgressEvent)
    ensures
        r.progress == progress,
        r.total == total,
        r.message@ == message@,
{
    ProgressEvent { progress, total, message: owned(message) }
}

impl ProgressSink for ChannelProgressSink {
    fn report(&self, progress: u32, total: u32, message: &str) {
        let _sent = offer(&self.0, progress_event(progress, total, message));
    }
}

/// What is reported of a file that was parsed.
pub fn parsing_message(path: &str) -> (r: String)
    ensures
        r@ == "Parsing: "@ + path@,
{
    glue2("Parsing: ", path)
}

/// What is reported of a file whose edges are resolved.
pub fn resolving_message(path: &str) -> (r: String)
    ensures
        r@ == "Resolving edges: "@ + path@,
{
    glue2("Resolving edges: ", path)
}

// ----- passing progress on -----

/// What a [`ProgressEvent`] stands for.
pub struct ProgressModel {
    pub progress: u32,
    pub total: u32,
    pub message: Seq<char>,
}

impl View for ProgressEvent {
    type V = ProgressModel;

    open spec fn view(&self) -> ProgressModel {
        ProgressModel { progress: self.progress, total: self.total, message: self.message@ }
    }
}

/// How many nanoseconds lie at least between two events that are passed on.
pub const THROTTLE_NANOS: u64 = 100_000_000;

/// Passes on only so many events that the one who listens can keep up. An event
/// that comes too early waits, and gives way to the next one.
pub struct ProgressThrottle {
    last_sent: u64,
    waiting: Option<ProgressEvent>,
}

/// What a [`ProgressThrottle`] stands for.
pub struct ThrottleModel {
    pub last_sent: u64,
    pub waiting: Option<ProgressModel>,
}

impl View for ProgressThrottle {
    type V = ThrottleModel;

    closed spec fn view(&self) -> ThrottleModel {
        ThrottleModel { last_sent: self.last_sent, waiting: opt_view(self.waiting) }
    }
}

/// Whether an event at a time is passed on at once.
pub open spec fn is_send_due(last_sent: u64, now: u64) -> bool {
    now >= last_sent + THROTTLE_NANOS
}

/// A throttle after an event at a time, and the event if it is passed on at once.
pub open spec fn offered(t: ThrottleModel, event: ProgressModel, now: u64) -> (
    ThrottleModel,
    Option<ProgressModel>,
) {
    if is_send_due(t.last_sent, now) {
        (ThrottleModel { last_sent: now, waiting: None }, Some(event))
    } else {
        (ThrottleModel { last_sent: t.last_sent, waiting: Some(event) }, None)
    }
}

impl ProgressThrottle {
    /// A throttle that takes a time for that of the last event passed on.
    pub fn new(last_sent: u64) -> (r: Self)
        ensures
            r@ == (ThrottleModel { last_sent, waiting: None }),
    {
        ProgressThrottle { last_sent, waiting: None }
    }

    /// Takes an event that comes at a time, and gives it back if it is to be
    /// passed on at once.
    pub fn offer(&mut self, event: ProgressEvent, now: u64) -> (r: Option<ProgressEvent>)
        ensures
            (final(self)@, opt_view(r)) == offered(old(self)@, event@, now),
            is_send_due(old(self)@.last_sent, now) ==> r is Some && r->0@ == event@ && final(self)@
                == (ThrottleModel { last_sent: now, waiting: None }),
            !is_send_due(old(self)@.last_sent, now) ==> r is None && final(self)@ == (
            ThrottleModel { last_sent: old(self)@.last_sent, waiting: Some(event@) }),
    {
        if now.saturating_sub(self.last_sent) >= THROTTLE_NANOS {
            self.last_sent = now;
            self.waiting = None;
            Some(event)
        } else {
            self.waiting = Some(event);
            None
        }
    }

    /// The event that still waits when there are no more: it is passed on then.
    pub fn flush(self) -> (r: Option<ProgressEvent>)
        ensures
            opt_view(r) == self@.waiting,
    {
        self.waiting
    }
}

/// A throttle after events, each with its time.
pub open spec fn throttled(t: ThrottleModel, events: Seq<(ProgressModel, u64)>) -> ThrottleModel
    decreases events.len(),
{
    if events.len() == 0 {
        t
    } else {
        let (event, now) = events.last();
        offered(throttled(t, events.drop_last()), event, now).0
    }
}

/// The last of the events is never lost: it was passed on at once, or it is the
/// one that waits.
pub proof fn lemma_last_event_not_lost(t: ThrottleModel, events: Seq<(ProgressModel, u64)>)
    requires
        events.len() > 0,
    ensures
        ({
            let before = throttled(t, events.drop_last());
            let after = throttled(t, events);
            is_send_due(before.last_sent, events.last().1) || after.waiting == Some(events.last().0)
        }),
{
}

// ----- what was parsed -----

/// What came of parsing a file.
pub enum ParseOutcome {
    Parsed(FileGraph),
    /// No plugin is there for the language.
    NoPlugin { path: String, language: Language },
    /// The file could not be read.
    ReadFailed { path: String, error: String },
    /// The file could not be parsed.
    ParseFailed { path: String, error: String },
}

/// The name of a language in warnings.
pub open spec fn language_label(language: Language) -> Seq<char> {
    match language {
        Language::Cpp => "Cpp"@,
        Language::Rust => "Rust"@,
        Language::Go => "Go"@,
        Language::Python => "Python"@,
        Language::CSharp => "CSharp"@,
        Language::Java => "Java"@,
    }
}

fn language_text(language: Language) -> (r: &'static str)
    ensures
        r@ == language_label(language),
{
    match language {
        Language::Cpp => "Cpp",
        Language::Rust => "Rust",
        Language::Go => "Go",
        Language::Python => "Python",
        Language::CSharp => "CSharp",
        Language::Java => "Java",
    }
}

/// The graphs of the files that were parsed, in their order.
pub open spec fn parsed_graphs(outcomes: Seq<ParseOutcome>) -> Seq<FileGraph>
    decreases outcomes.len(),
{
    if outcomes.len() == 0 {
        seq![]
    } else {
        let rest = parsed_graphs(outcomes.drop_last());
        match outcomes.last() {
            ParseOutcome::Parsed(g) => rest.push(g),
            _ => rest,
        }
    }
}

/// The warning of a file that was not parsed.
pub open spec fn outcome_warning(o: ParseOutcome) -> Option<Seq<char>> {
    match o {
        ParseOutcome::Parsed(_) => None,
        ParseOutcome::NoPlugin { path, language } => Some(
            path@ + ": no plugin for language "@ + language_label(language),
        ),
        ParseOutcome::ReadFailed { path, error } => Some(path@ + ": read error: "@ + error@),
        ParseOutcome::ParseFailed { path, error } => Some(path@ + ": parse error: "@ + error@),
    }
}

/// The warnings of the files that were not parsed, in their order.
pub open spec fn outcome_warnings(outcomes: Seq<ParseOutcome>) -> Seq<Seq<char>>
    decreases outcomes.len(),
{
    if outcomes.len() == 0 {
        seq![]
    } else {
        let rest = outcome_warnings(outcomes.drop_last());
        match outcome_warning(outcomes.last()) {
            Some(w) => rest.push(w),
            None => rest,
        }
    }
}

/// Sorts out what was parsed: the graphs of the files, and the warnings of
/// finding them followed by those of the files that were not parsed.
pub fn index_directory(discovery_warnings: Vec<String>, outcomes: Vec<ParseOutcome>) -> (r: (
    Vec<FileGraph>,
    Vec<String>,
))
    ensures
        r.0@ == parsed_graphs(outcomes@),
        views(r.1@) == views(discovery_warnings@) + outcome_warnings(outcomes@),
{
    let ghost all = outcomes@;
    let mut rest = reversed(outcomes);
    let mut graphs: Vec<FileGraph> = Vec::new();
    let mut warnings = discovery_warnings;
    let ghost n = 0int;
    assert(all.take(0) =~= seq![]);
    assert(graphs@ =~= parsed_graphs(all.take(0)));
    assert(views(warnings@) =~= views(discovery_warnings@) + outcome_warnings(all.take(0)));
    while rest.len() > 0
        invariant
            0 <= n <= all.len(),
            rest@.len() == all.len() - n,
            forall|k: int| 0 <= k < rest@.len() ==> #[trigger] rest@[k] == all[all.len() - 1 - k],
            graphs@ == parsed_graphs(all.take(n)),
            views(warnings@) == views(discovery_warnings@) + outcome_warnings(all.take(n)),
        decreases rest@.len(),
    {
        proof {
            assert(all.take(n + 1).drop_last() =~= all.take(n));
            assert(all.take(n + 1).last() == all[n]);
        }
        if let Some(o) = rest.pop() {
            assert(o == all[n]);
            let ghost before = warnings@;
            match o {
                ParseOutcome::Parsed(g) => {
                    graphs.push(g);
                },
                ParseOutcome::NoPlugin { path, language } => {
                    warnings.push(
                        glue3(path.as_str(), ": no plugin for language ", language_text(language)),
                    );
                },
                ParseOutcome::ReadFailed { path, error } => {
                    warnings.push(glue3(path.as_str(), ": read error: ", error.as_str()));
                },
                ParseOutcome::ParseFailed { path, error } => {
                    warnings.push(glue3(path.as_str(), ": parse error: ", error.as_str()));
                },
            }
            proof {
                let first = views(discovery_warnings@);
                let had = outcome_warnings(all.take(n));
                match outcome_warning(all[n]) {
                    Some(w) => {
                        assert(views(warnings@) =~= views(before).push(w));
                        assert(first + had.push(w) =~= (first + had).push(w));
                    },
                    None => {},
                }
                n = n + 1;
            }
        }
    }
    assert(all.take(all.len() as int) =~= all);
    (graphs, warnings)
}

// ----- symbols by name -----

/// What the index keeps of a symbol.
#[derive(Debug, Clone)]
pub struct SymbolEntry {
    pub id: String,
    pub file: String,
    pub parent: String,
    pub namespace: String,
}

/// What a [`SymbolEntry`] stands for.
pub struct SymbolEntryModel {
    pub id: Seq<char>,
    pub file: Seq<char>,
    pub parent: Seq<char>,
    pub namespace: Seq<char>,
}

impl View for SymbolEntry {
    type V = SymbolEntryModel;

    open spec fn view(&self) -> SymbolEntryModel {
        SymbolEntryModel {
            id: self.id@,
            file: self.file@,
            parent: self.parent@,
            namespace: self.namespace@,
        }
    }
}

/// What the index keeps of a symbol.
pub open spec fn entry_of(s: SymbolModel) -> SymbolEntryModel {
    SymbolEntryModel { id: id_of(s), file: s.file, parent: s.parent, namespace: s.namespace }
}

/// What the index keeps of a symbol.
pub fn symbol_entry(s: &Symbol) -> (r: SymbolEntry)
    ensures
        r@ == entry_of(s@),
{
    SymbolEntry {
        id: symbol_id(s),
        file: s.file.clone(),
        parent: s.parent.clone(),
        namespace: s.namespace.clone(),
    }
}

/// The key of a language and a name: a character for the language before the
/// name.
spec fn tagged(language: Language, name: Seq<char>) -> Seq<char> {
    language_tag(language) + name
}

spec fn language_tag(language: Language) -> Seq<char> {
    match language {
        Language::Cpp => "c"@,
        Language::Rust => "r"@,
        Language::Go => "g"@,
        Language::Python => "p"@,
        Language::CSharp => "s"@,
        Language::Java => "j"@,
    }
}

fn tag(language: Language) -> (r: &'static str)
    ensures
        r@ == language_tag(language),
{
    match language {
        Language::Cpp => "c",
        Language::Rust => "r",
        Language::Go => "g",
        Language::Python => "p",
        Language::CSharp => "s",
        Language::Java => "j",
    }
}

proof fn lemma_tagged_injective(l1: Language, n1: Seq<char>, l2: Language, n2: Seq<char>)
    ensures
        tagged(l1, n1) == tagged(l2, n2) <==> l1 == l2 && n1 == n2,
{
    reveal_strlit("c");
    reveal_strlit("r");
    reveal_strlit("g");
    reveal_strlit("p");
    reveal_strlit("s");
    reveal_strlit("j");
    let a = tagged(l1, n1);
    let b = tagged(l2, n2);
    assert(language_tag(l1).len() == 1 && language_tag(l2).len() == 1);
    assert(a.skip(1) =~= n1);
    assert(b.skip(1) =~= n2);
    assert(a[0] == language_tag(l1)[0]);
    assert(b[0] == language_tag(l2)[0]);
}

/// The symbols of each language by name.
pub struct SymbolIndex {
    by_name: Table<SymbolEntry>,
}

/// What a [`SymbolIndex`] stands for.
pub type SymbolIndexModel = Map<(Language, Seq<char>), Seq<SymbolEntryModel>>;

impl View for SymbolIndex {
    type V = SymbolIndexModel;

    closed spec fn view(&self) -> SymbolIndexModel {
        Map::new(
            |k: (Language, Seq<char>)| self.by_name@.contains_key(tagged(k.0, k.1)),
            |k: (Language, Seq<char>)| self.by_name@[tagged(k.0, k.1)],
        )
    }
}

impl SymbolIndex {
    /// An index without symbols.
    pub fn new() -> (r: Self)
        ensures
            r@ == Map::<(Language, Seq<char>), Seq<SymbolEntryModel>>::empty(),
    {
        let r = SymbolIndex { by_name: Table::new() };
        assert(r@ =~= Map::<(Language, Seq<char>), Seq<SymbolEntryModel>>::empty());
        r
    }

    /// The symbols of a language under a name.
    pub fn get(&self, language: Language, name: &str) -> (r: Option<&Vec<SymbolEntry>>)
        ensures
            match r {
                Some(v) => self@.contains_key((language, name@)) && views(v@) == self@[(
                    language,
                    name@,
                )],
                None => !self@.contains_key((language, name@)),
            },
    {
        let key = glue2(tag(language), name);
        self.by_name.get(key.as_str())
    }
}

/// Puts a symbol into the index under a name of a language.
pub fn push(index: &mut SymbolIndex, language: Language, name: &str, entry: SymbolEntry)
    ensures
        final(index)@ == put_under(old(index)@, (language, name@), entry@),
{
    let key = glue2(tag(language), name);
    index.by_name.push(key.as_str(), entry);
    proof {
        let want = put_under(old(index)@, (language, name@), entry@);
        assert forall|k: (Language, Seq<char>)|
            #[trigger] index@.contains_key(k) == want.contains_key(k) by {
            lemma_tagged_injective(k.0, k.1, language, name@);
        }
        assert forall|k: (Language, Seq<char>)| index@.contains_key(k) implies #[trigger] index@[k]
            == want[k] by {
            lemma_tagged_injective(k.0, k.1, language, name@);
        }
        assert(index@ =~= want);
    }
}

/// The names that a symbol is indexed under: its own; behind its parent; behind
/// its namespace; and behind both.
pub open spec fn index_names(s: SymbolModel) -> Seq<Seq<char>> {
    let own = seq![s.name];
    let with_parent = if s.parent.len() == 0 {
        own
    } else {
        own.push(s.parent + "::"@ + s.name)
    };
    let with_namespace = if s.namespace.len() == 0 {
        with_parent
    } else {
        with_parent.push(s.namespace + "::"@ + s.name)
    };
    if s.namespace.len() == 0 || s.parent.len() == 0 {
        with_namespace
    } else {
        with_namespace.push(s.namespace + "::"@ + s.parent + "::"@ + s.name)
    }
}

/// The index with an entry more under each of these names.
pub open spec fn indexed_under(
    m: SymbolIndexModel,
    language: Language,
    names: Seq<Seq<char>>,
    entry: SymbolEntryModel,
) -> SymbolIndexModel
    decreases names.len(),
{
    if names.len() == 0 {
        m
    } else {
        put_under(
            indexed_under(m, language, names.drop_last(), entry),
            (language, names.last()),
            entry,
        )
    }
}

/// The index with these symbols more.
pub open spec fn with_symbols(
    m: SymbolIndexModel,
    language: Language,
    symbols: Seq<SymbolModel>,
) -> SymbolIndexModel
    decreases symbols.len(),
{
    if symbols.len() == 0 {
        m
    } else {
        indexed_under(
            with_symbols(m, language, symbols.drop_last()),
            language,
            index_names(symbols.last()),
            entry_of(symbols.last()),
        )
    }
}

/// The index with the symbols of these files more.
pub open spec fn with_files(m: SymbolIndexModel, graphs: Seq<FileGraphModel>) -> SymbolIndexModel
    decreases graphs.len(),
{
    if graphs.len() == 0 {
        m
    } else {
        with_symbols(
            with_files(m, graphs.drop_last()),
            graphs.last().language,
            graphs.last().symbols,
        )
    }
}

/// Puts a symbol into the index under all its names.
fn index_symbol(index: &mut SymbolIndex, language: Language, s: &Symbol)
    ensures
        final(index)@ == indexed_under(old(index)@, language, index_names(s@), entry_of(s@)),
{
    let ghost m0 = index@;
    let ghost e = entry_of(s@);
    let ghost own = seq![s@.name];
    push(index, language, s.name.as_str(), symbol_entry(s));
    proof {
        assert(own.drop_last() =~= seq![]);
        assert(indexed_under(m0, language, own.drop_last(), e) == m0);
        assert(index@ == indexed_under(m0, language, own, e));
    }
    let ghost names = own;
    if !s.parent.as_str().is_empty() {
        let qualified = glue3(s.parent.as_str(), "::", s.name.as_str());
        push(index, language, qualified.as_str(), symbol_entry(s));
        proof {
            let more = names.push(qualified@);
            assert(more.drop_last() =~= names);
            names = more;
        }
    }
    assert(index@ == indexed_under(m0, language, names, e));
    if !s.namespace.as_str().is_empty() {
        let qualified = glue3(s.namespace.as_str(), "::", s.name.as_str());
        push(index, language, qualified.as_str(), symbol_entry(s));
        proof {
            let more = names.push(qualified@);
            assert(more.drop_last() =~= names);
            names = more;
        }
        assert(index@ == indexed_under(m0, language, names, e));
        if !s.parent.as_str().is_empty() {
            let full = glue5(
                s.namespace.as_str(),
                "::",
                s.parent.as_str(),
                "::",
                s.name.as_str(),
            );
            push(index, language, full.as_str(), symbol_entry(s));
            proof {
                let more = names.push(full@);
                assert(more.drop_last() =~= names);
                names = more;
            }
        }
    }
    assert(names =~= index_names(s@));
}

/// Adds the symbols of files to an index.
pub fn extend_symbol_index(index: &mut SymbolIndex, graphs: &Vec<FileGraph>)
    ensures
        final(index)@ == with_files(old(index)@, views(graphs@)),
{
    let ghost m0 = index@;
    let ghost all = views(graphs@);
    let mut i: usize = 0;
    assert(all.take(0) =~= seq![]);
    while i < graphs.len()
        invariant
            i <= graphs@.len(),
            all == views(graphs@),
            index@ == with_files(m0, all.take(i as int)),
        decreases graphs@.len() - i,
    {
        let fg = &graphs[i];
        let ghost m1 = index@;
        let ghost symbols = fg@.symbols;
        let mut j: usize = 0;
        assert(symbols.take(0) =~= seq![]);
        while j < fg.symbols.len()
            invariant
                j <= fg.symbols@.len(),
                symbols == views(fg.symbols@),
                    index@ == with_symbols(m1, fg.language, symbols.take(j as int)),
            decreases fg.symbols@.len() - j,
        {
            index_symbol(index, fg.language, &fg.symbols[j]);
            proof {
                assert(symbols.take(j as int + 1).drop_last() =~= symbols.take(j as int));
                assert(symbols.take(j as int + 1).last() == fg.symbols@[j as int]@);
            }
            j = j + 1;
        }
        proof {
            assert(symbols.take(symbols.len() as int) =~= symbols);
            assert(all.take(i as int + 1).drop_last() =~= all.take(i as int));
            assert(all.take(i as int + 1).last() == fg@);
        }
        i = i + 1;
    }
    assert(all.take(all.len() as int) =~= all);
}

/// The index of the symbols of files.
pub fn build_symbol_index(graphs: &Vec<FileGraph>) -> (r: SymbolIndex)
    ensures
        r@ == with_files(
            Map::<(Language, Seq<char>), Seq<SymbolEntryModel>>::empty(),
            views(graphs@),
        ),
{
    let mut index = SymbolIndex::new();
    extend_symbol_index(&mut index, graphs);
    index
}

// ----- files by name -----

/// Files by the last part of their paths.
pub struct FileIndex {
    by_basename: Table<String>,
}

/// What a [`FileIndex`] stands for.
pub type FileIndexModel = Map<Seq<char>, Seq<Seq<char>>>;

impl View for FileIndex {
    type V = FileIndexModel;

    closed spec fn view(&self) -> FileIndexModel {
        self.by_basename@
    }
}

impl FileIndex {
    /// An index without files.
    pub fn new() -> (r: Self)
        ensures
            r@ == Map::<Seq<char>, Seq<Seq<char>>>::empty(),
    {
        FileIndex { by_basename: Table::new() }
    }

    /// The paths that end in a name.
    pub fn get(&self, name: &str) -> (r: Option<&Vec<String>>)
        ensures
            match r {
                Some(v) => self@.contains_key(name@) && views(v@) == self@[name@],
                None => !self@.contains_key(name@),
            },
    {
        self.by_basename.get(name)
    }
}

/// Whether a path is written plainly, so that its last part is what stands
/// behind its last slash on every platform: no backslash, no drive letter
/// without a slash behind it, no double slash at the front, and neither nothing
/// nor dots alone behind the last slash.
pub open spec fn is_plain_path(p: Seq<char>) -> bool {
    &&& !p.contains('\\')
    &&& !(p.len() >= 2 && p[1] == ':' && !p.skip(2).contains('/'))
    &&& !(p.len() >= 2 && p[0] == '/' && p[1] == '/')
    &&& last_part(p).len() > 0
    &&& last_part(p) != seq!['.']
    &&& last_part(p) != seq!['.', '.']
}

/// What stands behind the last slash of a path.
pub open spec fn last_part(p: Seq<char>) -> Seq<char>
    decreases p.len(),
{
    if p.len() == 0 || p.last() == '/' {
        seq![]
    } else {
        last_part(p.drop_last()).push(p.last())
    }
}

/// `std::path::Path::file_name`, where the name is valid UTF-8.
///
/// Claimed of it: the name of a plain path is what stands behind its last
/// slash. Of other paths nothing is claimed: what separates their parts depends
/// on the platform.
#[verifier::external_body]
fn base_name(path: &str) -> (r: Option<String>)
    ensures
        is_plain_path(path@) ==> r is Some && r->0@ == last_part(path@),
{
    std::path::Path::new(path).file_name().and_then(|name| name.to_str()).map(str::to_owned)
}

/// The index with these files more, each under the name given for it. Files
/// without a name are left out.
pub open spec fn with_paths(
    m: FileIndexModel,
    graphs: Seq<FileGraphModel>,
    names: Seq<Option<Seq<char>>>,
) -> FileIndexModel
    decreases graphs.len(),
{
    if graphs.len() == 0 || names.len() != graphs.len() {
        m
    } else {
        let rest = with_paths(m, graphs.drop_last(), names.drop_last());
        match names.last() {
            Some(name) => put_under(rest, name, graphs.last().path),
            None => rest,
        }
    }
}

/// Whether names are those of the files: for a plain path, what stands behind
/// its last slash.
pub open spec fn are_names_of(names: Seq<Option<Seq<char>>>, graphs: Seq<FileGraphModel>) -> bool {
    &&& names.len() == graphs.len()
    &&& forall|i: int|
        0 <= i < graphs.len() && is_plain_path(#[trigger] graphs[i].path) ==> names[i] == Some(
            last_part(graphs[i].path),
        )
}

/// Adds a file to an index, under the name given for it if there is one.
pub fn index_file(index: &mut FileIndex, path: &str, name: Option<&str>)
    ensures
        final(index)@ == match name {
            Some(n) => put_under(old(index)@, n@, path@),
            None => old(index)@,
        },
{
    match name {
        Some(n) => {
            index.by_basename.push(n, owned(path));
        },
        None => {},
    }
}

/// Adds files to an index, each under the last part of its path.
pub fn extend_file_index(index: &mut FileIndex, graphs: &Vec<FileGraph>)
    ensures
        exists|names: Seq<Option<Seq<char>>>| #[trigger]
            are_names_of(names, views(graphs@)) && final(index)@ == with_paths(
                old(index)@,
                views(graphs@),
                names,
            ),
{
    let ghost m0 = index@;
    let ghost all = views(graphs@);
    let ghost names: Seq<Option<Seq<char>>> = seq![];
    let mut i: usize = 0;
    assert(all.take(0) =~= seq![]);
    while i < graphs.len()
        invariant
            i <= graphs@.len(),
            all == views(graphs@),
            names.len() == i,
            index@ == with_paths(m0, all.take(i as int), names),
            forall|k: int|
                0 <= k < i && is_plain_path(#[trigger] all[k].path) ==> names[k] == Some(
                    last_part(all[k].path),
                ),
        decreases graphs@.len() - i,
    {
        let path = graphs[i].path.as_str();
        let name = base_name(path);
        proof {
            let more = names.push(opt_view(name));
            assert(all.take(i as int + 1).drop_last() =~= all.take(i as int));
            assert(all.take(i as int + 1).last() == graphs@[i as int]@);
            assert(more.drop_last() =~= names);
            names = more;
        }
        match name {
            Some(n) => {
                index_file(index, path, Some(n.as_str()));
            },
            None => {
                index_file(index, path, None);
            },
        }
        i = i + 1;
    }
    assert(all.take(all.len() as int) =~= all);
    assert(are_names_of(names, all));
}

/// The index of files, each under the last part of its path.
pub fn build_file_index(graphs: &Vec<FileGraph>) -> (r: FileIndex)
    ensures
        exists|names: Seq<Option<Seq<char>>>| #[trigger]
            are_names_of(names, views(graphs@)) && r@ == with_paths(
                Map::<Seq<char>, Seq<Seq<char>>>::empty(),
                views(graphs@),
                names,
            ),
{
    let mut index = FileIndex::new();
    extend_file_index(&mut index, graphs);
    index
}

// ----- laws of the indexes -----

/// Adding files to an index is the same as building it with them from the
/// start.
pub proof fn lemma_symbol_index_layers(
    m: SymbolIndexModel,
    a: Seq<FileGraphModel>,
    b: Seq<FileGraphModel>,
)
    ensures
        with_files(with_files(m, a), b) == with_files(m, a + b),
    decreases b.len(),
{
    if b.len() == 0 {
        assert(a + b =~= a);
    } else {
        lemma_symbol_index_layers(m, a, b.drop_last());
        assert((a + b).drop_last() =~= a + b.drop_last());
        assert((a + b).last() == b.last());
    }
}

/// The symbols of one language are never found under another: files of other
/// languages leave what is listed under a language's names as it is.
pub proof fn lemma_languages_apart(
    m: SymbolIndexModel,
    graphs: Seq<FileGraphModel>,
    language: Language,
    name: Seq<char>,
)
    requires
        forall|i: int| 0 <= i < graphs.len() ==> (#[trigger] graphs[i]).language != language,
    ensures
        listed_under(with_files(m, graphs), (language, name)) == listed_under(m, (language, name)),
    decreases graphs.len(),
{
    if graphs.len() > 0 {
        let g = graphs.last();
        assert(graphs[graphs.len() - 1].language != language);
        lemma_languages_apart(m, graphs.drop_last(), language, name);
        lemma_other_language(
            with_files(m, graphs.drop_last()),
            g.language,
            g.symbols,
            language,
            name,
        );
    }
}

proof fn lemma_other_language(
    m: SymbolIndexModel,
    other: Language,
    symbols: Seq<SymbolModel>,
    language: Language,
    name: Seq<char>,
)
    requires
        other != language,
    ensures
        listed_under(with_symbols(m, other, symbols), (language, name)) == listed_under(
            m,
            (language, name),
        ),
    decreases symbols.len(),
{
    if symbols.len() > 0 {
        lemma_other_language(m, other, symbols.drop_last(), language, name);
        lemma_other_names(
            with_symbols(m, other, symbols.drop_last()),
            other,
            index_names(symbols.last()),
            entry_of(symbols.last()),
            language,
            name,
        );
    }
}

proof fn lemma_other_names(
    m: SymbolIndexModel,
    other: Language,
    names: Seq<Seq<char>>,
    entry: SymbolEntryModel,
    language: Language,
    name: Seq<char>,
)
    requires
        other != language || !names.contains(name),
    ensures
        listed_under(indexed_under(m, other, names, entry), (language, name)) == listed_under(
            m,
            (language, name),
        ),
    decreases names.len(),
{
    if names.len() > 0 {
        if names.drop_last().contains(name) {
            let k = choose|k: int| 0 <= k < names.drop_last().len() && names.drop_last()[k] == name;
            assert(names[k] == name);
        }
        lemma_other_names(m, other, names.drop_last(), entry, language, name);
        assert(names.last() == names[names.len() - 1]);
    }
}

/// What is listed under a name is never taken away, and keeps its order.
pub proof fn lemma_symbol_index_keeps(
    m: SymbolIndexModel,
    language: Language,
    symbols: Seq<SymbolModel>,
    key: (Language, Seq<char>),
)
    ensures
        ({
            let before = listed_under(m, key);
            let after = listed_under(with_symbols(m, language, symbols), key);
            before.len() <= after.len() && after.take(before.len() as int) == before
        }),
    decreases symbols.len(),
{
    if symbols.len() == 0 {
        assert(listed_under(m, key).take(listed_under(m, key).len() as int) =~= listed_under(
            m,
            key,
        ));
    } else {
        let rest = with_symbols(m, language, symbols.drop_last());
        lemma_symbol_index_keeps(m, language, symbols.drop_last(), key);
        lemma_names_keep(
            rest,
            language,
            index_names(symbols.last()),
            entry_of(symbols.last()),
            key,
        );
        let before = listed_under(m, key);
        let middle = listed_under(rest, key);
        let after = listed_under(with_symbols(m, language, symbols), key);
        assert(after.take(before.len() as int) =~= after.take(middle.len() as int).take(
            before.len() as int,
        ));
    }
}

proof fn lemma_names_keep(
    m: SymbolIndexModel,
    language: Language,
    names: Seq<Seq<char>>,
    entry: SymbolEntryModel,
    key: (Language, Seq<char>),
)
    ensures
        ({
            let before = listed_under(m, key);
            let after = listed_under(indexed_under(m, language, names, entry), key);
            &&& before.len() <= after.len()
            &&& after.take(before.len() as int) == before
            &&& key.0 == language && names.contains(key.1) ==> after.contains(entry)
        }),
    decreases names.len(),
{
    let before = listed_under(m, key);
    let after = listed_under(indexed_under(m, language, names, entry), key);
    if names.len() == 0 {
        assert(after.take(before.len() as int) =~= before);
    } else {
        let middle = listed_under(indexed_under(m, language, names.drop_last(), entry), key);
        lemma_names_keep(m, language, names.drop_last(), entry, key);
        assert(after.take(before.len() as int) =~= middle.take(before.len() as int));
        if key.0 == language && names.contains(key.1) {
            if key.1 == names.last() {
                assert(after.last() == entry);
            } else {
                let k = choose|k: int| 0 <= k < names.len() && names[k] == key.1;
                assert(names.drop_last()[k] == key.1);
                assert(after == middle);
            }
        }
    }
}

/// A symbol is found under each of its names once its file is indexed, and stays
/// there.
pub proof fn lemma_symbol_found(
    m: SymbolIndexModel,
    language: Language,
    symbols: Seq<SymbolModel>,
    i: int,
    name: Seq<char>,
)
    requires
        0 <= i < symbols.len(),
        index_names(symbols[i]).contains(name),
    ensures
        listed_under(with_symbols(m, language, symbols), (language, name)).contains(
            entry_of(symbols[i]),
        ),
    decreases symbols.len(),
{
    let s = symbols.last();
    let rest = with_symbols(m, language, symbols.drop_last());
    let key = (language, name);
    lemma_names_keep(rest, language, index_names(s), entry_of(s), key);
    if i < symbols.len() - 1 {
        lemma_symbol_found(m, language, symbols.drop_last(), i, name);
        let had = listed_under(rest, key);
        let after = listed_under(with_symbols(m, language, symbols), key);
        let e = entry_of(symbols[i]);
        assert(symbols.drop_last()[i] == symbols[i]);
        let k = choose|k: int| 0 <= k < had.len() && had[k] == e;
        assert(after.take(had.len() as int)[k] == e);
        assert(after[k] == e);
    }
}

/// What is listed under a name stays listed when files are added.
proof fn lemma_files_keep(
    m: SymbolIndexModel,
    graphs: Seq<FileGraphModel>,
    key: (Language, Seq<char>),
    entry: SymbolEntryModel,
)
    requires
        listed_under(m, key).contains(entry),
    ensures
        listed_under(with_files(m, graphs), key).contains(entry),
    decreases graphs.len(),
{
    if graphs.len() > 0 {
        let g = graphs.last();
        let rest = with_files(m, graphs.drop_last());
        lemma_files_keep(m, graphs.drop_last(), key, entry);
        lemma_symbol_index_keeps(rest, g.language, g.symbols, key);
        let had = listed_under(rest, key);
        let after = listed_under(with_files(m, graphs), key);
        let k = choose|k: int| 0 <= k < had.len() && had[k] == entry;
        assert(after.take(had.len() as int)[k] == entry);
        assert(after[k] == entry);
    }
}

/// Every symbol of the files is found in their index, in its language and under
/// each of its names.
pub proof fn lemma_symbols_of_files_found(
    m: SymbolIndexModel,
    graphs: Seq<FileGraphModel>,
    f: int,
    i: int,
    name: Seq<char>,
)
    requires
        0 <= f < graphs.len(),
        0 <= i < graphs[f].symbols.len(),
        index_names(graphs[f].symbols[i]).contains(name),
    ensures
        listed_under(with_files(m, graphs), (graphs[f].language, name)).contains(
            entry_of(graphs[f].symbols[i]),
        ),
{
    let g = graphs[f];
    let before = graphs.take(f);
    let up_to = graphs.take(f + 1);
    let later = graphs.skip(f + 1);
    assert(up_to.drop_last() =~= before);
    assert(up_to.last() == g);
    lemma_symbol_found(with_files(m, before), g.language, g.symbols, i, name);
    lemma_symbol_index_layers(m, up_to, later);
    assert(up_to + later =~= graphs);
    lemma_files_keep(with_files(m, up_to), later, (g.language, name), entry_of(g.symbols[i]));
}

/// A symbol of an indexed file is found by its name; by its name behind its
/// parent, where it has one; by its name behind its namespace, where it has one,
/// with a parent or without; and by its name behind both. What is found says its
/// id, file, parent and namespace.
pub proof fn lemma_qualified_names_found(
    m: SymbolIndexModel,
    graphs: Seq<FileGraphModel>,
    f: int,
    i: int,
)
    requires
        0 <= f < graphs.len(),
        0 <= i < graphs[f].symbols.len(),
    ensures
        ({
            let s = graphs[f].symbols[i];
            let language = graphs[f].language;
            let index = with_files(m, graphs);
            let entry = SymbolEntryModel {
                id: s.file + ":"@ + if s.parent.len() == 0 {
                    s.name
                } else {
                    s.parent + "::"@ + s.name
                },
                file: s.file,
                parent: s.parent,
                namespace: s.namespace,
            };
            &&& index.contains_key((language, s.name)) && index[(language, s.name)].contains(entry)
            &&& s.parent.len() > 0 ==> index.contains_key((language, s.parent + "::"@ + s.name))
                && index[(language, s.parent + "::"@ + s.name)].contains(entry)
            &&& s.namespace.len() > 0 ==> index.contains_key(
                (language, s.namespace + "::"@ + s.name),
            ) && index[(language, s.namespace + "::"@ + s.name)].contains(entry)
            &&& s.namespace.len() > 0 && s.parent.len() > 0 ==> index.contains_key(
                (language, s.namespace + "::"@ + s.parent + "::"@ + s.name),
            ) && index[(language, s.namespace + "::"@ + s.parent + "::"@ + s.name)].contains(entry)
        }),
{
    let s = graphs[f].symbols[i];
    let names = index_names(s);
    assert(names[0] == s.name);
    lemma_symbols_of_files_found(m, graphs, f, i, s.name);
    if s.parent.len() > 0 {
        assert(names[1] == s.parent + "::"@ + s.name);
        lemma_symbols_of_files_found(m, graphs, f, i, s.parent + "::"@ + s.name);
    }
    if s.namespace.len() > 0 {
        let k = if s.parent.len() > 0 {
            2int
        } else {
            1
        };
        assert(names[k] == s.namespace + "::"@ + s.name);
        lemma_symbols_of_files_found(m, graphs, f, i, s.namespace + "::"@ + s.name);
    }
    if s.namespace.len() > 0 && s.parent.len() > 0 {
        assert(names[3] == s.namespace + "::"@ + s.parent + "::"@ + s.name);
        lemma_symbols_of_files_found(
            m,
            graphs,
            f,
            i,
            s.namespace + "::"@ + s.parent + "::"@ + s.name,
        );
    }
}

/// Nothing else is found: what the index of files lists for a language and a
/// name is the entry of a symbol of a file in that language that goes by this
/// name, alone or behind its parent, its namespace or both.
pub proof fn lemma_only_named_symbols_found(
    graphs: Seq<FileGraphModel>,
    language: Language,
    name: Seq<char>,
    k: int,
)
    requires
        ({
            let index = with_files(
                Map::<(Language, Seq<char>), Seq<SymbolEntryModel>>::empty(),
                graphs,
            );
            index.contains_key((language, name)) && 0 <= k < index[(language, name)].len()
        }),
    ensures
        ({
            let found = with_files(
                Map::<(Language, Seq<char>), Seq<SymbolEntryModel>>::empty(),
                graphs,
            )[(language, name)][k];
            exists|f: int, i: int|
                0 <= f < graphs.len() && 0 <= i < graphs[f].symbols.len() && {
                    let s = #[trigger] graphs[f].symbols[i];
                    &&& graphs[f].language == language
                    &&& found.file == s.file
                    &&& found.parent == s.parent
                    &&& found.namespace == s.namespace
                    &&& s.parent.len() == 0 ==> found.id == s.file + ":"@ + s.name
                    &&& s.parent.len() > 0 ==> found.id == s.file + ":"@ + (s.parent + "::"@
                        + s.name)
                    &&& {
                        ||| name == s.name
                        ||| s.parent.len() > 0 && name == s.parent + "::"@ + s.name
                        ||| s.namespace.len() > 0 && name == s.namespace + "::"@ + s.name
                        ||| s.parent.len() > 0 && s.namespace.len() > 0 && name == s.namespace
                            + "::"@ + s.parent + "::"@ + s.name
                    }
                }
        }),
    decreases graphs.len(),
{
    let empty = Map::<(Language, Seq<char>), Seq<SymbolEntryModel>>::empty();
    let key = (language, name);
    let found = with_files(empty, graphs)[key][k];
    let g = graphs.last();
    let fewer = graphs.drop_last();
    let n = graphs.len() - 1;
    assert(graphs.len() > 0);
    assert(listed_under(with_files(empty, graphs), key)[k] == found);
    lemma_listed_from(with_files(empty, fewer), g.language, g.symbols, key, k);
    let had = listed_under(with_files(empty, fewer), key);
    if k < had.len() && had[k] == found {
        lemma_only_named_symbols_found(fewer, language, name, k);
        let (f, i) = choose|f: int, i: int|
            0 <= f < fewer.len() && 0 <= i < fewer[f].symbols.len() && {
                let s = #[trigger] fewer[f].symbols[i];
                &&& fewer[f].language == language
                &&& found.file == s.file
                &&& found.parent == s.parent
                &&& found.namespace == s.namespace
                &&& s.parent.len() == 0 ==> found.id == s.file + ":"@ + s.name
                &&& s.parent.len() > 0 ==> found.id == s.file + ":"@ + (s.parent + "::"@ + s.name)
                &&& {
                    ||| name == s.name
                    ||| s.parent.len() > 0 && name == s.parent + "::"@ + s.name
                    ||| s.namespace.len() > 0 && name == s.namespace + "::"@ + s.name
                    ||| s.parent.len() > 0 && s.namespace.len() > 0 && name == s.namespace + "::"@
                        + s.parent + "::"@ + s.name
                }
            };
        assert(graphs[f] == fewer[f]);
        assert(graphs[f].symbols[i] == fewer[f].symbols[i]);
    } else {
        let i = choose|i: int|
            0 <= i < g.symbols.len() && #[trigger] entry_of(g.symbols[i]) == found && g.language
                == key.0 && index_names(g.symbols[i]).contains(key.1);
        let s = graphs[n].symbols[i];
        let at = choose|at: int| 0 <= at < index_names(s).len() && index_names(s)[at] == name;
        assert(index_names(s)[at] == name);
    }
}

/// What is listed after symbols are added was listed before, at the same place,
/// or is the entry of one of them that goes by the name.
proof fn lemma_listed_from(
    m: SymbolIndexModel,
    language: Language,
    symbols: Seq<SymbolModel>,
    key: (Language, Seq<char>),
    k: int,
)
    requires
        0 <= k < listed_under(with_symbols(m, language, symbols), key).len(),
    ensures
        ({
            let found = listed_under(with_symbols(m, language, symbols), key)[k];
            ||| k < listed_under(m, key).len() && listed_under(m, key)[k] == found
            ||| exists|i: int|
                0 <= i < symbols.len() && #[trigger] entry_of(symbols[i]) == found && language
                    == key.0 && index_names(symbols[i]).contains(key.1)
        }),
    decreases symbols.len(),
{
    if symbols.len() > 0 {
        let fewer = symbols.drop_last();
        let rest = with_symbols(m, language, fewer);
        let s = symbols.last();
        let found = listed_under(with_symbols(m, language, symbols), key)[k];
        let n = symbols.len() - 1;
        assert(symbols[n] == s);
        lemma_listed_under_from(rest, language, index_names(s), entry_of(s), key, k);
        if k < listed_under(rest, key).len() && listed_under(rest, key)[k] == found {
            lemma_listed_from(m, language, fewer, key, k);
            if !(k < listed_under(m, key).len() && listed_under(m, key)[k] == found) {
                let i = choose|i: int|
                    0 <= i < fewer.len() && #[trigger] entry_of(fewer[i]) == found && language
                        == key.0 && index_names(fewer[i]).contains(key.1);
                assert(symbols[i] == fewer[i]);
                assert(entry_of(symbols[i]) == found);
            }
        } else {
            assert(entry_of(symbols[n]) == found);
        }
    }
}

proof fn lemma_listed_under_from(
    m: SymbolIndexModel,
    language: Language,
    names: Seq<Seq<char>>,
    entry: SymbolEntryModel,
    key: (Language, Seq<char>),
    k: int,
)
    requires
        0 <= k < listed_under(indexed_under(m, language, names, entry), key).len(),
    ensures
        ({
            let found = listed_under(indexed_under(m, language, names, entry), key)[k];
            ||| k < listed_under(m, key).len() && listed_under(m, key)[k] == found
            ||| found == entry && language == key.0 && names.contains(key.1)
        }),
    decreases names.len(),
{
    if names.len() > 0 {
        let fewer = names.drop_last();
        let rest = indexed_under(m, language, fewer, entry);
        assert(names[names.len() - 1] == names.last());
        if k < listed_under(rest, key).len() {
            lemma_listed_under_from(m, language, fewer, entry, key, k);
            if fewer.contains(key.1) {
                let j = choose|j: int| 0 <= j < fewer.len() && fewer[j] == key.1;
                assert(names[j] == key.1);
            }
        }
    }
}

/// Adding files to an index by path is the same as building it with them from
/// the start.
pub proof fn lemma_file_index_layers(
    m: FileIndexModel,
    a: Seq<FileGraphModel>,
    b: Seq<FileGraphModel>,
    names_a: Seq<Option<Seq<char>>>,
    names_b: Seq<Option<Seq<char>>>,
)
    requires
        names_a.len() == a.len(),
        names_b.len() == b.len(),
    ensures
        with_paths(with_paths(m, a, names_a), b, names_b) == with_paths(m, a + b, names_a + names_b),
    decreases b.len(),
{
    if b.len() == 0 {
        assert(a + b =~= a);
        assert(names_a + names_b =~= names_a);
    } else {
        lemma_file_index_layers(m, a, b.drop_last(), names_a, names_b.drop_last());
        assert((a + b).drop_last() =~= a + b.drop_last());
        assert((names_a + names_b).drop_last() =~= names_a + names_b.drop_last());
        assert((a + b).last() == b.last());
        assert((names_a + names_b).last() == names_b.last());
    }
}

/// A file whose path is plain is found under the last part of it.
pub proof fn lemma_file_found(
    m: FileIndexModel,
    graphs: Seq<FileGraphModel>,
    names: Seq<Option<Seq<char>>>,
    f: int,
)
    requires
        are_names_of(names, graphs),
        0 <= f < graphs.len(),
        is_plain_path(graphs[f].path),
    ensures
        listed_under(with_paths(m, graphs, names), last_part(graphs[f].path)).contains(
            graphs[f].path,
        ),
    decreases graphs.len(),
{
    let rest = with_paths(m, graphs.drop_last(), names.drop_last());
    let key = last_part(graphs[f].path);
    let path = graphs[f].path;
    let after = listed_under(with_paths(m, graphs, names), key);
    assert(names[f] == Some(key));
    if f == graphs.len() - 1 {
        assert(after.last() == path);
    } else {
        let fewer = graphs.drop_last();
        assert(are_names_of(names.drop_last(), fewer)) by {
            assert forall|i: int|
                0 <= i < fewer.len() && is_plain_path(#[trigger] fewer[i].path) implies names.drop_last()[i]
                == Some(last_part(fewer[i].path)) by {
                assert(fewer[i] == graphs[i]);
                assert(is_plain_path(graphs[i].path));
            }
        }
        assert(fewer[f] == graphs[f]);
        lemma_file_found(m, fewer, names.drop_last(), f);
        let had = listed_under(rest, key);
        let k = choose|k: int| 0 <= k < had.len() && had[k] == path;
        assert(after[k] == path);
    }
}

// ----- resolving edges -----

/// A target that a resolver found, and how sure it is.
#[derive(Debug, Clone)]
pub struct Target {
    pub to: String,
    pub confidence: Confidence,
}

/// What a [`Target`] stands for.
pub struct TargetModel {
    pub to: Seq<char>,
    pub confidence: Confidence,
}

impl View for Target {
    type V = TargetModel;

    open spec fn view(&self) -> TargetModel {
        TargetModel { to: self.to@, confidence: self.confidence }
    }
}

/// What the plugins of the languages know of targets.
///
/// What a plugin may answer is its own affair, and anything unless it says more;
/// the relations only say which question an answer belongs to.
pub trait EdgeResolver {
    /// Whether `answer` may be given to the question of whether there is a plugin
    /// for a language.
    open spec fn may_handle(&self, language: Language, answer: bool) -> bool {
        true
    }

    /// Whether `found` may be what an include of a language means.
    open spec fn may_include(
        &self,
        language: Language,
        raw: Seq<char>,
        files: FileIndexModel,
        found: Option<TargetModel>,
    ) -> bool {
        true
    }

    /// Whether `found` may be what a call or an override of a language means.
    open spec fn may_call(
        &self,
        language: Language,
        raw: Seq<char>,
        caller_id: Seq<char>,
        caller_file: Seq<char>,
        symbols: SymbolIndexModel,
        found: Option<TargetModel>,
    ) -> bool {
        true
    }

    /// Whether `answer` may be given to the question of whether a path is one of
    /// a source file.
    open spec fn may_be_source(&self, path: Seq<char>, answer: bool) -> bool {
        true
    }

    /// Whether there is a plugin for a language.
    fn handles(&self, language: Language) -> (r: bool)
        ensures
            self.may_handle(language, r),
    ;

    /// The file that an include of a language means, if any.
    fn resolve_include(&self, language: Language, raw: &str, files: &FileIndex) -> (r: Option<
        Target,
    >)
        ensures
            self.may_include(language, raw@, files@, opt_view(r)),
    ;

    /// The symbol that a call or an override of a language means, if any.
    fn resolve_call(
        &self,
        language: Language,
        raw: &str,
        caller_id: &str,
        caller_file: &str,
        symbols: &SymbolIndex,
    ) -> (r: Option<Target>)
        ensures
            self.may_call(language, raw@, caller_id@, caller_file@, symbols@, opt_view(r)),
    ;

    /// Whether a path is one of a source file in any language.
    fn is_source(&self, path: &str) -> (r: bool)
        ensures
            self.may_be_source(path@, r),
    ;
}

/// What a resolver said of an edge: the target that it found, and whether that
/// is a source file.
pub struct EdgeAnswer {
    pub target: Option<TargetModel>,
    pub is_source: bool,
}

/// An edge with a target.
pub open spec fn retargeted(e: EdgeModel, target: Option<TargetModel>) -> EdgeModel {
    match target {
        Some(t) => EdgeModel { to: t.to, confidence: t.confidence, ..e },
        None => e,
    }
}

/// What becomes of an edge. An include is kept only where its target is a source
/// file; a call or an override gets its target where there is one, and is kept
/// as it is otherwise; inheritance is left alone.
pub open spec fn resolved_edge(e: EdgeModel, answer: EdgeAnswer) -> Option<EdgeModel> {
    match e.kind {
        EdgeKind::Includes => if answer.target is Some && answer.is_source {
            Some(retargeted(e, answer.target))
        } else {
            None
        },
        EdgeKind::Calls | EdgeKind::Overrides => Some(retargeted(e, answer.target)),
        EdgeKind::Inherits => Some(e),
    }
}

/// What becomes of the edges of a file, in their order.
pub open spec fn resolved_edges(edges: Seq<EdgeModel>, answers: Seq<EdgeAnswer>) -> Seq<EdgeModel>
    decreases edges.len(),
{
    if edges.len() == 0 || answers.len() != edges.len() {
        seq![]
    } else {
        let rest = resolved_edges(edges.drop_last(), answers.drop_last());
        match resolved_edge(edges.last(), answers.last()) {
            Some(e) => rest.push(e),
            None => rest,
        }
    }
}

/// What becomes of a file: nothing where there is no plugin for its language.
pub open spec fn resolved_file(g: FileGraphModel, answers: Option<Seq<EdgeAnswer>>) -> FileGraphModel {
    match answers {
        Some(a) => FileGraphModel { edges: resolved_edges(g.edges, a), ..g },
        None => g,
    }
}

/// Whether an answer is one that a resolver may give for an edge of a file: an
/// include is looked up among the files by what it names, and its target tested
/// for being a source file; a call or an override is looked up among the symbols
/// by what it names, from where it stands; inheritance is not asked about.
pub open spec fn is_answer_for<R: EdgeResolver>(
    resolver: R,
    symbols: SymbolIndexModel,
    files: FileIndexModel,
    g: FileGraphModel,
    e: EdgeModel,
    answer: EdgeAnswer,
) -> bool {
    match e.kind {
        EdgeKind::Includes => resolver.may_include(g.language, e.to, files, answer.target) && (
        answer.target matches Some(t) ==> resolver.may_be_source(t.to, answer.is_source)),
        EdgeKind::Calls | EdgeKind::Overrides => resolver.may_call(
            g.language,
            e.to,
            e.from,
            g.path,
            symbols,
            answer.target,
        ),
        EdgeKind::Inherits => true,
    }
}

/// Whether answers are those that a resolver may give for a file: none where it
/// has no plugin for the language, and else one for each edge.
pub open spec fn are_answers_for<R: EdgeResolver>(
    resolver: R,
    symbols: SymbolIndexModel,
    files: FileIndexModel,
    g: FileGraphModel,
    answers: Option<Seq<EdgeAnswer>>,
) -> bool {
    match answers {
        None => resolver.may_handle(g.language, false),
        Some(a) => resolver.may_handle(g.language, true) && a.len() == g.edges.len() && forall|
            i: int,
        |
            0 <= i < a.len() ==> is_answer_for(
                resolver,
                symbols,
                files,
                g,
                g.edges[i],
                #[trigger] a[i],
            ),
    }
}

/// Whether a file came of resolving the edges of another against indexes, with
/// answers that the resolver may give.
pub open spec fn came_of<R: EdgeResolver>(
    resolver: R,
    symbols: SymbolIndexModel,
    files: FileIndexModel,
    before: FileGraphModel,
    after: FileGraphModel,
) -> bool {
    exists|answers: Option<Seq<EdgeAnswer>>| #[trigger]
        are_answers_for(resolver, symbols, files, before, answers) && after == resolved_file(
            before,
            answers,
        )
}

/// What becomes of an edge, given what a resolver said of it.
pub fn apply_answer(edge: Edge, target: Option<Target>, is_source: bool) -> (r: Option<Edge>)
    ensures
        opt_view(r) == resolved_edge(
            edge@,
            (EdgeAnswer { target: opt_view(target), is_source }),
        ),
{
    let mut edge = edge;
    match edge.kind {
        EdgeKind::Includes => match target {
            Some(t) => if is_source {
                edge.to = t.to;
                edge.confidence = t.confidence;
                Some(edge)
            } else {
                None
            },
            None => None,
        },
        EdgeKind::Calls | EdgeKind::Overrides => {
            match target {
                Some(t) => {
                    edge.to = t.to;
                    edge.confidence = t.confidence;
                },
                None => {},
            }
            Some(edge)
        },
        EdgeKind::Inherits => Some(edge),
    }
}

/// Resolves the edges of a file.
pub fn resolve_file_edges<R: EdgeResolver>(
    graph: FileGraph,
    symbols: &SymbolIndex,
    files: &FileIndex,
    resolver: &R,
) -> (r: FileGraph)
    ensures
        came_of(*resolver, symbols@, files@, graph@, r@),
{
    if !resolver.handles(graph.language) {
        assert(are_answers_for(*resolver, symbols@, files@, graph@, None));
        return graph;
    }
    let path = graph.path;
    let language = graph.language;
    let ghost all = graph@.edges;
    let ghost answers: Seq<EdgeAnswer> = seq![];
    let mut rest = reversed(graph.edges);
    let mut kept: Vec<Edge> = Vec::new();
    assert(all.take(0) =~= seq![]);
    assert(views(kept@) =~= seq![]);
    while rest.len() > 0
        invariant
            answers.len() + rest@.len() == all.len(),
            forall|k: int|
                0 <= k < rest@.len() ==> (#[trigger] rest@[k])@ == all[all.len() - 1 - k],
            views(kept@) == resolved_edges(all.take(answers.len() as int), answers),
            path@ == graph@.path,
            language == graph@.language,
            all == graph@.edges,
            forall|k: int|
                0 <= k < answers.len() ==> is_answer_for(
                    *resolver,
                    symbols@,
                    files@,
                    graph@,
                    all[k],
                    #[trigger] answers[k],
                ),
        decreases rest@.len(),
    {
        if let Some(edge) = rest.pop() {
            let ghost n = answers.len() as int;
            assert(edge@ == all[n]);
            let target: Option<Target> = match edge.kind {
                EdgeKind::Includes => resolver.resolve_include(language, edge.to.as_str(), files),
                EdgeKind::Calls | EdgeKind::Overrides => resolver.resolve_call(
                    language,
                    edge.to.as_str(),
                    edge.from.as_str(),
                    path.as_str(),
                    symbols,
                ),
                EdgeKind::Inherits => None,
            };
            let is_source = match (edge.kind, &target) {
                (EdgeKind::Includes, Some(t)) => resolver.is_source(t.to.as_str()),
                _ => false,
            };
            let ghost answer = EdgeAnswer { target: opt_view(target), is_source };
            let ghost before = kept@;
            proof {
                let more = answers.push(answer);
                assert(all.take(n + 1).drop_last() =~= all.take(n));
                assert(all.take(n + 1).last() == all[n]);
                assert(more.drop_last() =~= answers);
                assert(more.last() == answer);
                answers = more;
            }
            match apply_answer(edge, target, is_source) {
                Some(e) => {
                    kept.push(e);
                    assert(views(kept@) =~= views(before).push(e@));
                },
                None => {},
            }
        }
    }
    proof {
        assert(all.take(all.len() as int) =~= all);
        assert(are_answers_for(*resolver, symbols@, files@, graph@, Some(answers)));
    }
    FileGraph { path, language, symbols: graph.symbols, edges: kept }
}

/// Whether a sink was told of each of these files, in turn and with their number,
/// that its edges are resolved; also of those that no plugin is there for.
pub open spec fn told_of_resolving<P: ProgressSink>(sink: P, graphs: Seq<FileGraphModel>) -> bool {
    forall|i: int|
        0 <= i < graphs.len() ==> sink.was_told(
            (i + 1) as u32,
            graphs.len() as u32,
            "Resolving edges: "@ + (#[trigger] graphs[i]).path,
        )
}

/// Resolves the edges of files against indexes, and reports each file.
///
/// The indexes may hold more than the files: an edge of a file that is indexed
/// afresh finds its target in one that was indexed before.
pub fn resolve_edges_with_indexes<R: EdgeResolver, P: ProgressSink>(
    graphs: &mut Vec<FileGraph>,
    symbols: &SymbolIndex,
    files: &FileIndex,
    resolver: &R,
    progress: &P,
)
    ensures
        final(graphs)@.len() == old(graphs)@.len(),
        forall|i: int|
            0 <= i < old(graphs)@.len() ==> came_of(
                *resolver,
                symbols@,
                files@,
                old(graphs)@[i]@,
                (#[trigger] final(graphs)@[i])@,
            ),
        told_of_resolving(*progress, views(old(graphs)@)),
{
    let ghost all = graphs@;
    let count: usize = graphs.len();
    let total: u32 = #[verifier::truncate] (count as u32);
    let mut taken: Vec<FileGraph> = Vec::new();
    core::mem::swap(graphs, &mut taken);
    let mut rest = reversed(taken);
    let mut out: Vec<FileGraph> = Vec::new();
    while rest.len() > 0
        invariant
            all == old(graphs)@,
            all.len() == count,
            out@.len() + rest@.len() == all.len(),
            forall|k: int| 0 <= k < rest@.len() ==> #[trigger] rest@[k] == all[all.len() - 1 - k],
            forall|i: int|
                0 <= i < out@.len() ==> came_of(
                    *resolver,
                    symbols@,
                    files@,
                    all[i]@,
                    (#[trigger] out@[i])@,
                ),
            total == all.len() as u32,
            forall|i: int|
                0 <= i < out@.len() ==> progress.was_told(
                    (i + 1) as u32,
                    total,
                    "Resolving edges: "@ + (#[trigger] views(all)[i]).path,
                ),
        decreases rest@.len(),
    {
        if let Some(g) = rest.pop() {
            let ghost n = out@.len() as int;
            assert(g == all[n]);
            let done: u32 = #[verifier::truncate] ((out.len() + 1) as u32);
            progress.report(done, total, resolving_message(g.path.as_str()).as_str());
            out.push(resolve_file_edges(g, symbols, files, resolver));
        }
    }
    core::mem::swap(graphs, &mut out);
}

/// Resolves the edges of files against what the files themselves hold, and
/// reports each file.
pub fn resolve_all_edges<R: EdgeResolver, P: ProgressSink>(
    graphs: &mut Vec<FileGraph>,
    resolver: &R,
    progress: &P,
)
    ensures
        final(graphs)@.len() == old(graphs)@.len(),
        exists|names: Seq<Option<Seq<char>>>| #[trigger]
            are_names_of(names, views(old(graphs)@)) && forall|i: int|
                0 <= i < old(graphs)@.len() ==> came_of(
                    *resolver,
                    with_files(
                        Map::<(Language, Seq<char>), Seq<SymbolEntryModel>>::empty(),
                        views(old(graphs)@),
                    ),
                    with_paths(
                        Map::<Seq<char>, Seq<Seq<char>>>::empty(),
                        views(old(graphs)@),
                        names,
                    ),
                    old(graphs)@[i]@,
                    (#[trigger] final(graphs)@[i])@,
                ),
        told_of_resolving(*progress, views(old(graphs)@)),
{
    let symbols = build_symbol_index(graphs);
    let files = build_file_index(graphs);
    let ghost names = choose|names: Seq<Option<Seq<char>>>| #[trigger]
        are_names_of(names, views(graphs@)) && files@ == with_paths(
            Map::<Seq<char>, Seq<Seq<char>>>::empty(),
            views(graphs@),
            names,
        );
    resolve_edges_with_indexes(graphs, &symbols, &files, resolver, progress);
    assert(are_names_of(names, views(old(graphs)@)));
}

/// What the fresh files are resolved against: the symbols of the cached files and
/// then those of the fresh ones.
pub open spec fn layered_symbols(
    cached: Seq<FileGraphModel>,
    fresh: Seq<FileGraphModel>,
) -> SymbolIndexModel {
    with_files(
        with_files(Map::<(Language, Seq<char>), Seq<SymbolEntryModel>>::empty(), cached),
        fresh,
    )
}

/// What the fresh files are resolved against: the cached files and then the fresh
/// ones, each under the name given for it.
pub open spec fn layered_files(
    cached: Seq<FileGraphModel>,
    fresh: Seq<FileGraphModel>,
    cached_names: Seq<Option<Seq<char>>>,
    fresh_names: Seq<Option<Seq<char>>>,
) -> FileIndexModel {
    with_paths(
        with_paths(Map::<Seq<char>, Seq<Seq<char>>>::empty(), cached, cached_names),
        fresh,
        fresh_names,
    )
}

/// Whether an index is that of the cached files and then the fresh ones.
pub open spec fn is_layered(
    files: FileIndexModel,
    cached: Seq<FileGraphModel>,
    fresh: Seq<FileGraphModel>,
) -> bool {
    exists|cached_names: Seq<Option<Seq<char>>>, fresh_names: Seq<Option<Seq<char>>>|
        #![trigger layered_files(cached, fresh, cached_names, fresh_names)]
        are_names_of(cached_names, cached) && are_names_of(fresh_names, fresh) && files
            == layered_files(cached, fresh, cached_names, fresh_names)
}

/// The indexes that fresh files are resolved against: those of the cached files,
/// extended by the fresh ones.
pub fn fresh_indexes(cached: &Vec<FileGraph>, fresh: &Vec<FileGraph>) -> (r: (
    SymbolIndex,
    FileIndex,
))
    ensures
        r.0@ == layered_symbols(views(cached@), views(fresh@)),
        is_layered(r.1@, views(cached@), views(fresh@)),
{
    let mut symbols = build_symbol_index(cached);
    extend_symbol_index(&mut symbols, fresh);
    let mut files = build_file_index(cached);
    let ghost base = files@;
    let ghost cached_names = choose|names: Seq<Option<Seq<char>>>| #[trigger]
        are_names_of(names, views(cached@)) && base == with_paths(
            Map::<Seq<char>, Seq<Seq<char>>>::empty(),
            views(cached@),
            names,
        );
    extend_file_index(&mut files, fresh);
    proof {
        let fresh_names = choose|names: Seq<Option<Seq<char>>>| #[trigger]
            are_names_of(names, views(fresh@)) && files@ == with_paths(base, views(fresh@), names);
        assert(files@ == layered_files(
            views(cached@),
            views(fresh@),
            cached_names,
            fresh_names,
        ));
    }
    (symbols, files)
}

/// Resolves the edges of fresh files, and reports each of them. Their targets are
/// looked for among the cached files and the fresh ones; the edges of the cached
/// files stay as they are.
pub fn resolve_fresh<R: EdgeResolver, P: ProgressSink>(
    cached: &Vec<FileGraph>,
    fresh: Vec<FileGraph>,
    resolver: &R,
    progress: &P,
) -> (r: Vec<FileGraph>)
    ensures
        r@.len() == fresh@.len(),
        exists|files: FileIndexModel| #[trigger]
            is_layered(files, views(cached@), views(fresh@)) && forall|i: int|
                0 <= i < fresh@.len() ==> came_of(
                    *resolver,
                    layered_symbols(views(cached@), views(fresh@)),
                    files,
                    fresh@[i]@,
                    (#[trigger] r@[i])@,
                ),
        told_of_resolving(*progress, views(fresh@)),
{
    let (symbols, files) = fresh_indexes(cached, &fresh);
    let mut graphs = fresh;
    resolve_edges_with_indexes(&mut graphs, &symbols, &files, resolver, progress);
    assert(is_layered(files@, views(cached@), views(fresh@)));
    graphs
}

// ----- laws of resolution -----

/// Whatever a resolver says, edges that are kept stay in order and in place:
/// each comes from one edge of the file, of the same kind, source and line, and
/// inheritance is as it was. Where there is a plugin, every include that is kept
/// leads to a source file, and nothing but includes is dropped.
pub proof fn lemma_resolution_keeps(edges: Seq<EdgeModel>, answers: Seq<EdgeAnswer>)
    requires
        answers.len() == edges.len(),
    ensures
        resolved_edges(edges, answers).len() <= edges.len(),
        forall|k: int|
            0 <= k < resolved_edges(edges, answers).len() ==> {
                let e = #[trigger] resolved_edges(edges, answers)[k];
                exists|i: int|
                    0 <= i < edges.len() && #[trigger] resolved_edge(edges[i], answers[i]) == Some(e)
                        && e.kind == edges[i].kind && e.from == edges[i].from && e.file
                        == edges[i].file && e.line == edges[i].line && (e.kind is Inherits ==> e
                        == edges[i]) && (e.kind is Includes ==> answers[i].is_source
                        && answers[i].target is Some)
            },
        forall|i: int|
            0 <= i < edges.len() && !((#[trigger] edges[i]).kind is Includes) ==> resolved_edge(
                edges[i],
                answers[i],
            ) is Some,
    decreases edges.len(),
{
    let out = resolved_edges(edges, answers);
    if edges.len() > 0 {
        let before = edges.drop_last();
        let said = answers.drop_last();
        lemma_resolution_keeps(before, said);
        let rest = resolved_edges(before, said);
        let n = edges.len() - 1;
        assert forall|k: int| 0 <= k < out.len() implies {
            let e = #[trigger] out[k];
            exists|i: int|
                0 <= i < edges.len() && #[trigger] resolved_edge(edges[i], answers[i]) == Some(e)
                    && e.kind == edges[i].kind && e.from == edges[i].from && e.file
                    == edges[i].file && e.line == edges[i].line && (e.kind is Inherits ==> e
                    == edges[i]) && (e.kind is Includes ==> answers[i].is_source
                    && answers[i].target is Some)
        } by {
            let e = out[k];
            if k < rest.len() {
                assert(e == rest[k]);
                let i = choose|i: int|
                    0 <= i < before.len() && #[trigger] resolved_edge(before[i], said[i]) == Some(e)
                        && e.kind == before[i].kind && e.from == before[i].from && e.file
                        == before[i].file && e.line == before[i].line && (e.kind is Inherits ==> e
                        == before[i]) && (e.kind is Includes ==> said[i].is_source
                        && said[i].target is Some);
                assert(before[i] == edges[i] && said[i] == answers[i]);
                assert(resolved_edge(edges[i], answers[i]) == Some(e));
            } else {
                assert(resolved_edge(edges[n], answers[n]) == Some(e));
            }
        }
    }
}

/// Edges that no plugin has a say in are left alone, and so are files in a
/// language without one.
pub proof fn lemma_unhandled_file_untouched(g: FileGraphModel)
    ensures
        resolved_file(g, None) == g,
{
}

} // verus!
