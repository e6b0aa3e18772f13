//! What a request for orphans is answered.

use super::{
    how_many, is_kind_word, kind_word, lemma_kind_word, lemma_lists_by_id, lemma_reply_shows_number,
    lemma_reply_shows_page, lemma_same_filter, list_by_id, shows_number, shows_page, start, word,
};
use crate::handlers::structure::{
    orphan_query, orphans_reply, unreliable_orphan, wanted_orphans,
};
use crate::handlers::{symbol_rows, SymbolResult, SymbolRow};
use crate::model::SymbolModel;
use crate::sort::{lemma_filter_all, stable_sorted};
use crate::text::{contains, debug_text, starts_with};
use vstd::prelude::*;

verus! {

/// Whether a symbol may well be called though no call names it: it is virtual,
/// or a macro made it.
pub open spec fn may_be_called(s: SymbolModel) -> bool {
    ||| starts_with(s.signature, "virtual "@)
    ||| contains(s.signature, " virtual "@)
    ||| starts_with(s.signature, "/* synthesized by [cpp].macro_define_function"@)
}

/// Whether a word is one for a reliability; none at all stands for all orphans.
pub open spec fn is_reliability_word(w: Seq<char>) -> bool {
    w.len() == 0 || w == "all"@ || w == "high"@
}

/// Whether records are to be brief: unless the request says that they are not.
pub open spec fn is_brief(brief: Option<bool>) -> bool {
    brief != Some(false)
}

/// The orphans that a reliability asks for: without those that may be called
/// where it is `high`, and else all.
pub open spec fn asked_for(orphans: Seq<SymbolModel>, reliability: Seq<char>) -> Seq<SymbolModel> {
    if reliability == "high"@ {
        orphans.filter(|s: SymbolModel| !may_be_called(s))
    } else {
        orphans
    }
}

/// Which orphans the graph is asked for, and which of them are left out, goes by
/// the words of the request alone, each for itself: the kind by the word for it,
/// and those that may be called exactly where the reliability is `high`, whatever
/// the kind.
pub proof fn lemma_orphans_planned(kind: Option<&str>, reliability: Option<&str>)
    ensures
        ({
            let plan = orphan_query(kind, reliability);
            let k = word(kind);
            let w = word(reliability);
            &&& plan is Ok <==> (k.len() == 0 || is_kind_word(k)) && is_reliability_word(w)
            &&& plan is Ok ==> (plan->Ok_0.reliable_only <==> w == "high"@)
            &&& plan is Ok && k.len() == 0 ==> plan->Ok_0.kind is None
            &&& plan is Ok && k.len() > 0 ==> plan->Ok_0.kind is Some && kind_word(
                plan->Ok_0.kind->0,
            ) == k
            &&& k.len() > 0 && !is_kind_word(k) ==> plan is Err && plan->Err_0 == "invalid kind: "@
                + k
            &&& (k.len() == 0 || is_kind_word(k)) && !is_reliability_word(w) ==> plan is Err
                && plan->Err_0 == "invalid reliability: "@ + debug_text(w)
                + " (expected \"all\" or \"high\")"@
        }),
{
    let k = word(kind);
    let w = word(reliability);
    lemma_kind_word(k);
    assert(k.len() == 0 ==> k =~= Seq::<char>::empty());
    assert(w.len() == 0 ==> w =~= Seq::<char>::empty());
    reveal_strlit("high");
    reveal_strlit("all");
    assert("high"@.len() == 4 && "all"@.len() == 3);
}

/// A request for orphans is answered with the page of those asked for, by id,
/// from the offset asked for, or with their number. Those that may be called are
/// left out exactly where the reliability is `high`, whatever the kind. Without a
/// limit there are twenty on a page, and records are brief unless they are not to
/// be.
pub proof fn lemma_orphans_asked_for(
    orphans: Seq<SymbolModel>,
    kind: Option<&str>,
    limit: Option<u32>,
    offset: Option<u32>,
    brief: Option<bool>,
    count_only: bool,
    reliability: Option<&str>,
    max_bytes: usize,
)
    requires
        orphans.len() <= u32::MAX,
        word(kind).len() == 0 || is_kind_word(word(kind)),
        is_reliability_word(word(reliability)),
    ensures
        ({
            let r = orphans_reply(
                orphans,
                kind,
                limit,
                offset,
                brief,
                count_only,
                reliability,
                max_bytes,
            );
            let shown = asked_for(orphans, word(reliability));
            let short = is_brief(brief);
            &&& count_only ==> shows_number(r, shown.len())
            &&& !count_only ==> exists|rows: Seq<SymbolRow>| #[trigger]
                list_by_id(rows, shown, short) && shows_page::<SymbolResult>(
                    r,
                    rows,
                    start(offset),
                    how_many(limit, 20),
                    max_bytes,
                )
        }),
{
    let high = word(reliability) == "high"@;
    let shown = asked_for(orphans, word(reliability));
    lemma_orphans_planned(kind, reliability);
    lemma_wanted(orphans, high, word(reliability));
    let short = is_brief(brief);
    let rows = stable_sorted::<SymbolResult>(symbol_rows(shown, short));
    lemma_reply_shows_number(shown.len() as u32);
    lemma_lists_by_id(shown, short);
    lemma_reply_shows_page::<SymbolResult>(
        rows,
        start(offset) as u32,
        how_many(limit, 20) as u32,
        max_bytes,
    );
}

/// A request with an unknown kind or reliability is refused, and no other.
pub proof fn lemma_orphans_refused(
    orphans: Seq<SymbolModel>,
    kind: Option<&str>,
    limit: Option<u32>,
    offset: Option<u32>,
    brief: Option<bool>,
    count_only: bool,
    reliability: Option<&str>,
    max_bytes: usize,
)
    ensures
        orphans_reply(
            orphans,
            kind,
            limit,
            offset,
            brief,
            count_only,
            reliability,
            max_bytes,
        ).is_error <==> (word(kind).len() > 0 && !is_kind_word(word(kind)))
            || !is_reliability_word(word(reliability)),
{
    lemma_orphans_planned(kind, reliability);
}

proof fn lemma_wanted(orphans: Seq<SymbolModel>, high: bool, reliability: Seq<char>)
    requires
        high == (reliability == "high"@),
    ensures
        wanted_orphans(orphans, high) == asked_for(orphans, reliability),
        wanted_orphans(orphans, high).len() <= orphans.len(),
{
    let pass = |s: SymbolModel| !high || !unreliable_orphan(s);
    if high {
        let other = |s: SymbolModel| !may_be_called(s);
        assert forall|s: SymbolModel| #[trigger] pass(s) == other(s) by {}
        lemma_same_filter(orphans, pass, other);
    } else {
        lemma_filter_all(orphans, pass);
    }
    orphans.lemma_filter_len(pass);
}

} // verus!
