//! Stable sorting.

use vstd::prelude::*;

verus! {

/// The views of a list of values.
pub open spec fn views<T: View>(v: Seq<T>) -> Seq<T::V> {
    v.map_values(|t: T| t@)
}

/// Filtering one element more adds it if it passes.
pub proof fn lemma_filter_next<V>(s: Seq<V>, pass: spec_fn(V) -> bool, i: int)
    requires
        0 <= i < s.len(),
    ensures
        s.take(i + 1).filter(pass) == if pass(s[i]) {
            s.take(i).filter(pass).push(s[i])
        } else {
            s.take(i).filter(pass)
        },
{
    reveal(Seq::filter);
    assert(s.take(i + 1).drop_last() =~= s.take(i));
    assert(s.take(i + 1).last() == s[i]);
}

/// Filtering none leaves none, and filtering all of the elements is filtering
/// the list.
pub proof fn lemma_filter_ends<V>(s: Seq<V>, pass: spec_fn(V) -> bool)
    ensures
        s.take(0).filter(pass) == Seq::<V>::empty(),
        s.take(s.len() as int).filter(pass) == s.filter(pass),
{
    reveal(Seq::filter);
    assert(s.take(0).filter(pass) =~= Seq::<V>::empty());
    assert(s.take(s.len() as int) =~= s);
}

/// Values with an order: a total preorder on their views.
pub trait Sortable: View + Sized {
    /// Whether `a` may stand before `b`.
    spec fn at_most(a: Self::V, b: Self::V) -> bool;

    /// Any two values are comparable.
    proof fn lemma_total(a: Self::V, b: Self::V)
        ensures
            Self::at_most(a, b) || Self::at_most(b, a),
    ;

    /// The order is transitive.
    proof fn lemma_transitive(a: Self::V, b: Self::V, c: Self::V)
        requires
            Self::at_most(a, b),
            Self::at_most(b, c),
        ensures
            Self::at_most(a, c),
    ;

    /// Whether `self` may stand before `other`.
    fn precedes(&self, other: &Self) -> (r: bool)
        ensures
            r == Self::at_most(self@, other@),
    ;
}

/// `x` put into `s` behind everything that may stand before it.
pub open spec fn inserted<T: Sortable>(s: Seq<T::V>, x: T::V) -> Seq<T::V>
    decreases s.len(),
{
    if s.len() == 0 {
        seq![x]
    } else if T::at_most(s[0], x) {
        seq![s[0]] + inserted::<T>(s.drop_first(), x)
    } else {
        seq![x] + s
    }
}

/// The stable sort of `s`: its elements, each put in turn behind those that may
/// stand before it.
pub open spec fn stable_sorted<T: Sortable>(s: Seq<T::V>) -> Seq<T::V>
    decreases s.len(),
{
    if s.len() == 0 {
        s
    } else {
        inserted::<T>(stable_sorted::<T>(s.drop_last()), s.last())
    }
}

/// Whether every element may stand before all that follow it.
pub open spec fn in_order<T: Sortable>(s: Seq<T::V>) -> bool {
    forall|i: int, j: int| 0 <= i < j < s.len() ==> T::at_most(#[trigger] s[i], #[trigger] s[j])
}

/// Sorting keeps the elements and puts them in order.
pub proof fn lemma_stable_sorted_in_order<T: Sortable>(s: Seq<T::V>)
    ensures
        in_order::<T>(stable_sorted::<T>(s)),
        stable_sorted::<T>(s).to_multiset() == s.to_multiset(),
        stable_sorted::<T>(s).len() == s.len(),
    decreases s.len(),
{
    if s.len() > 0 {
        let t = s.drop_last();
        lemma_stable_sorted_in_order::<T>(t);
        lemma_inserted_in_order::<T>(stable_sorted::<T>(t), s.last());
        assert(s =~= t.push(s.last()));
        broadcast use vstd::seq_lib::group_to_multiset_ensures;
    }
}

proof fn lemma_inserted_in_order<T: Sortable>(s: Seq<T::V>, x: T::V)
    requires
        in_order::<T>(s),
    ensures
        in_order::<T>(inserted::<T>(s, x)),
        inserted::<T>(s, x).to_multiset() == s.to_multiset().insert(x),
        inserted::<T>(s, x).len() == s.len() + 1,
        forall|i: int|
            0 <= i < inserted::<T>(s, x).len() ==> (#[trigger] inserted::<T>(s, x)[i] == x
                || s.contains(inserted::<T>(s, x)[i])),
    decreases s.len(),
{
    broadcast use vstd::seq_lib::group_to_multiset_ensures;

    let r = inserted::<T>(s, x);
    if s.len() == 0 {
        assert(s =~= Seq::<T::V>::empty());
        assert(r =~= Seq::<T::V>::empty().push(x));
    } else if T::at_most(s[0], x) {
        let rest = s.drop_first();
        assert forall|i: int, j: int| 0 <= i < j < rest.len() implies T::at_most(
            #[trigger] rest[i],
            #[trigger] rest[j],
        ) by {
            assert(rest[i] == s[i + 1]);
            assert(rest[j] == s[j + 1]);
        }
        lemma_inserted_in_order::<T>(rest, x);
        let tail = inserted::<T>(rest, x);
        assert forall|i: int| 0 <= i < r.len() implies (#[trigger] r[i] == x || s.contains(r[i])) by {
            if i == 0 {
                assert(s[0] == r[0]);
            } else {
                assert(r[i] == tail[i - 1]);
                if tail[i - 1] != x {
                    let k = choose|k: int| 0 <= k < rest.len() && rest[k] == tail[i - 1];
                    assert(s[k + 1] == rest[k]);
                }
            }
        }
        assert forall|i: int, j: int| 0 <= i < j < r.len() implies T::at_most(
            #[trigger] r[i],
            #[trigger] r[j],
        ) by {
            assert(r[j] == tail[j - 1]);
            if i == 0 {
                if tail[j - 1] != x {
                    let k = choose|k: int| 0 <= k < rest.len() && rest[k] == tail[j - 1];
                    assert(s[k + 1] == rest[k]);
                    assert(T::at_most(s[0], s[k + 1]));
                }
            } else {
                assert(r[i] == tail[i - 1]);
                assert(T::at_most(tail[i - 1], tail[j - 1]));
            }
        }
        assert(s =~= seq![s[0]] + rest);
        vstd::seq_lib::lemma_multiset_commutative(seq![s[0]], rest);
        vstd::seq_lib::lemma_multiset_commutative(seq![s[0]], tail);
        let one = seq![s[0]].to_multiset();
        assert(r.to_multiset() =~= one.add(rest.to_multiset().insert(x)));
        assert(s.to_multiset().insert(x) =~= one.add(rest.to_multiset()).insert(x));
        assert(one.add(rest.to_multiset().insert(x)) =~= one.add(rest.to_multiset()).insert(x));
    } else {
        T::lemma_total(s[0], x);
        assert forall|i: int, j: int| 0 <= i < j < r.len() implies T::at_most(
            #[trigger] r[i],
            #[trigger] r[j],
        ) by {
            assert(r[j] == s[j - 1]);
            if i == 0 {
                if j > 1 {
                    assert(T::at_most(s[0], s[j - 1]));
                    T::lemma_transitive(x, s[0], s[j - 1]);
                }
            } else {
                assert(r[i] == s[i - 1]);
                assert(T::at_most(s[i - 1], s[j - 1]));
            }
        }
        assert forall|i: int| 0 <= i < r.len() implies (#[trigger] r[i] == x || s.contains(r[i])) by {
            if i > 0 {
                assert(r[i] == s[i - 1]);
            }
        }
        vstd::seq_lib::lemma_multiset_commutative(seq![x], s);
        assert(seq![x] =~= Seq::<T::V>::empty().push(x));
        assert(r.to_multiset() =~= s.to_multiset().insert(x));
    }
}

/// Sorting leaves a list alone that is in order.
pub proof fn lemma_stable_sorted_idempotent<T: Sortable>(s: Seq<T::V>)
    requires
        in_order::<T>(s),
    ensures
        stable_sorted::<T>(s) == s,
    decreases s.len(),
{
    if s.len() > 0 {
        let t = s.drop_last();
        assert forall|i: int, j: int| 0 <= i < j < t.len() implies T::at_most(
            #[trigger] t[i],
            #[trigger] t[j],
        ) by {
            assert(t[i] == s[i] && t[j] == s[j]);
        }
        lemma_stable_sorted_idempotent::<T>(t);
        assert forall|i: int| 0 <= i < t.len() implies T::at_most(#[trigger] t[i], s.last()) by {
            assert(t[i] == s[i]);
        }
        lemma_inserted_last::<T>(t, s.last());
        assert(s =~= t.push(s.last()));
    }
}

proof fn lemma_inserted_last<T: Sortable>(s: Seq<T::V>, x: T::V)
    requires
        forall|i: int| 0 <= i < s.len() ==> T::at_most(#[trigger] s[i], x),
    ensures
        inserted::<T>(s, x) == s.push(x),
    decreases s.len(),
{
    if s.len() == 0 {
        assert(inserted::<T>(s, x) =~= s.push(x));
    } else {
        let rest = s.drop_first();
        assert forall|i: int| 0 <= i < rest.len() implies T::at_most(#[trigger] rest[i], x) by {
            assert(rest[i] == s[i + 1]);
        }
        lemma_inserted_last::<T>(rest, x);
        assert(T::at_most(s[0], x));
        assert(seq![s[0]] + rest.push(x) =~= s.push(x));
    }
}

/// Whether no two elements have the same key.
pub open spec fn distinct_by<V, K>(s: Seq<V>, key: spec_fn(V) -> K) -> bool {
    forall|i: int, j: int|
        0 <= i < j < s.len() ==> key(#[trigger] s[i]) != key(#[trigger] s[j])
}

/// An element is put in at one place.
proof fn lemma_inserted_at<T: Sortable>(s: Seq<T::V>, x: T::V) -> (k: int)
    ensures
        0 <= k <= s.len(),
        inserted::<T>(s, x) == s.insert(k, x),
    decreases s.len(),
{
    if s.len() == 0 {
        assert(inserted::<T>(s, x) =~= s.insert(0, x));
        0
    } else if T::at_most(s[0], x) {
        let rest = s.drop_first();
        let k = lemma_inserted_at::<T>(rest, x);
        assert(inserted::<T>(s, x) =~= s.insert(k + 1, x));
        k + 1
    } else {
        assert(inserted::<T>(s, x) =~= s.insert(0, x));
        0
    }
}

/// Sorting and then looking at one side of each element shows what was there,
/// each as often.
pub proof fn lemma_sorted_mapped<T: Sortable, B>(s: Seq<T::V>, f: spec_fn(T::V) -> B)
    ensures
        stable_sorted::<T>(s).map_values(f).to_multiset() == s.map_values(f).to_multiset(),
    decreases s.len(),
{
    if s.len() > 0 {
        let t = s.drop_last();
        let x = s.last();
        lemma_sorted_mapped::<T, B>(t, f);
        let u = stable_sorted::<T>(t);
        let k = lemma_inserted_at::<T>(u, x);
        assert(u.insert(k, x).map_values(f) =~= u.map_values(f).insert(k, f(x)));
        vstd::seq_lib::to_multiset_insert(u.map_values(f), k, f(x));
        assert(s.map_values(f) =~= t.map_values(f).push(f(x)));
        vstd::seq_lib::to_multiset_build(t.map_values(f), f(x));
    } else {
        assert(stable_sorted::<T>(s) =~= s);
    }
}

/// What sorting gives was there before.
proof fn lemma_sorted_contains<T: Sortable>(s: Seq<T::V>, i: int)
    requires
        0 <= i < stable_sorted::<T>(s).len(),
    ensures
        s.contains(stable_sorted::<T>(s)[i]),
{
    broadcast use vstd::seq_lib::group_to_multiset_ensures;

    lemma_stable_sorted_in_order::<T>(s);
    let x = stable_sorted::<T>(s)[i];
    assert(stable_sorted::<T>(s).to_multiset().contains(x));
    assert(s.to_multiset().contains(x));
}

/// Sorting makes no two elements have the same key that did not before.
pub proof fn lemma_stable_sorted_distinct<T: Sortable, K>(s: Seq<T::V>, key: spec_fn(T::V) -> K)
    requires
        distinct_by(s, key),
    ensures
        distinct_by(stable_sorted::<T>(s), key),
    decreases s.len(),
{
    if s.len() > 0 {
        let t = s.drop_last();
        let x = s.last();
        assert forall|i: int, j: int| 0 <= i < j < t.len() implies key(#[trigger] t[i]) != key(
            #[trigger] t[j],
        ) by {
            assert(t[i] == s[i] && t[j] == s[j]);
        }
        lemma_stable_sorted_distinct::<T, K>(t, key);
        let u = stable_sorted::<T>(t);
        let k = lemma_inserted_at::<T>(u, x);
        let r = u.insert(k, x);
        assert forall|i: int| 0 <= i < u.len() implies key(#[trigger] u[i]) != key(x) by {
            lemma_sorted_contains::<T>(t, i);
            let m = choose|m: int| 0 <= m < t.len() && t[m] == u[i];
            assert(s[m] == u[i]);
            assert(key(s[m]) != key(s[s.len() - 1]));
        }
        assert forall|i: int, j: int| 0 <= i < j < r.len() implies key(#[trigger] r[i]) != key(
            #[trigger] r[j],
        ) by {
            let a = if i < k {
                i
            } else {
                i - 1
            };
            let b = if j < k {
                j
            } else {
                j - 1
            };
            if i == k {
                assert(r[j] == u[b]);
            } else if j == k {
                assert(r[i] == u[a]);
            } else {
                assert(r[i] == u[a] && r[j] == u[b]);
            }
        }
    }
}

/// Filtering and putting an element in can be done in either order.
proof fn lemma_inserted_filter<T: Sortable>(s: Seq<T::V>, x: T::V, pass: spec_fn(T::V) -> bool)
    requires
        in_order::<T>(s),
    ensures
        inserted::<T>(s, x).filter(pass) == if pass(x) {
            inserted::<T>(s.filter(pass), x)
        } else {
            s.filter(pass)
        },
    decreases s.len(),
{
    lemma_filter_one(x, pass);
    if s.len() == 0 {
        reveal(Seq::filter);
        assert(s.filter(pass) =~= s);
    } else {
        let head = s[0];
        let rest = s.drop_first();
        lemma_filter_one(head, pass);
        assert(s =~= seq![head] + rest);
        Seq::filter_distributes_over_add(seq![head], rest, pass);
        if T::at_most(head, x) {
            assert forall|i: int, j: int| 0 <= i < j < rest.len() implies T::at_most(
                #[trigger] rest[i],
                #[trigger] rest[j],
            ) by {
                assert(rest[i] == s[i + 1] && rest[j] == s[j + 1]);
            }
            lemma_inserted_filter::<T>(rest, x, pass);
            let more = inserted::<T>(rest, x);
            Seq::filter_distributes_over_add(seq![head], more, pass);
            let kept = rest.filter(pass);
            if pass(head) {
                assert((seq![head] + kept).drop_first() =~= kept);
                assert(inserted::<T>(seq![head] + kept, x) =~= seq![head] + inserted::<T>(kept, x));
            } else {
                assert(Seq::<T::V>::empty() + kept =~= kept);
                assert(Seq::<T::V>::empty() + more.filter(pass) =~= more.filter(pass));
            }
        } else {
            Seq::filter_distributes_over_add(seq![x], s, pass);
            let kept = s.filter(pass);
            if pass(x) {
                if kept.len() > 0 {
                    lemma_filter_from(s, pass, 0);
                    let k = choose|k: int| 0 <= k < s.len() && s[k] == kept[0];
                    if k > 0 && T::at_most(kept[0], x) {
                        assert(T::at_most(s[0], s[k]));
                        T::lemma_transitive(s[0], s[k], x);
                    }
                } else {
                    assert(seq![x] + kept =~= seq![x]);
                }
            } else {
                assert(Seq::<T::V>::empty() + kept =~= kept);
            }
        }
    }
}

/// Filtering one element.
proof fn lemma_filter_one<V>(x: V, pass: spec_fn(V) -> bool)
    ensures
        seq![x].filter(pass) == if pass(x) {
            seq![x]
        } else {
            Seq::<V>::empty()
        },
{
    reveal(Seq::filter);
    assert(seq![x].drop_last() =~= Seq::<V>::empty());
    assert(Seq::<V>::empty().filter(pass) =~= Seq::<V>::empty());
    assert(seq![x].last() == x);
    assert(Seq::<V>::empty().push(x) =~= seq![x]);
}

/// A filter that lets every element through changes nothing.
pub proof fn lemma_filter_all<V>(s: Seq<V>, pass: spec_fn(V) -> bool)
    requires
        forall|i: int| 0 <= i < s.len() ==> pass(#[trigger] s[i]),
    ensures
        s.filter(pass) == s,
    decreases s.len(),
{
    reveal(Seq::filter);
    if s.len() > 0 {
        let t = s.drop_last();
        assert forall|i: int| 0 <= i < t.len() implies pass(#[trigger] t[i]) by {
            assert(t[i] == s[i]);
        }
        lemma_filter_all(t, pass);
        assert(pass(s[s.len() - 1]));
        assert(t.push(s.last()) =~= s);
    } else {
        assert(s.filter(pass) =~= s);
    }
}

/// What a filter lets through was there before.
pub proof fn lemma_filter_from<V>(s: Seq<V>, pass: spec_fn(V) -> bool, i: int)
    requires
        0 <= i < s.filter(pass).len(),
    ensures
        s.contains(s.filter(pass)[i]),
        pass(s.filter(pass)[i]),
    decreases s.len(),
{
    reveal(Seq::filter);
    if s.len() > 0 {
        let t = s.drop_last();
        if i < t.filter(pass).len() {
            lemma_filter_from(t, pass, i);
            let k = choose|k: int| 0 <= k < t.len() && t[k] == t.filter(pass)[i];
            assert(s[k] == t[k]);
        } else {
            assert(s[s.len() - 1] == s.last());
        }
    }
}

/// Filtering and sorting can be done in either order.
pub proof fn lemma_stable_sorted_filter<T: Sortable>(s: Seq<T::V>, pass: spec_fn(T::V) -> bool)
    ensures
        stable_sorted::<T>(s.filter(pass)) == stable_sorted::<T>(s).filter(pass),
    decreases s.len(),
{
    reveal(Seq::filter);
    if s.len() == 0 {
    } else {
        let t = s.drop_last();
        let x = s.last();
        lemma_stable_sorted_filter::<T>(t, pass);
        lemma_stable_sorted_in_order::<T>(t);
        lemma_inserted_filter::<T>(stable_sorted::<T>(t), x, pass);
        if pass(x) {
            assert(t.filter(pass).push(x).drop_last() =~= t.filter(pass));
        }
    }
}

/// Filtering and mapping can be done in either order, where the two filters
/// agree.
pub proof fn lemma_filter_map<A, B>(
    s: Seq<A>,
    f: spec_fn(A) -> B,
    before: spec_fn(A) -> bool,
    after: spec_fn(B) -> bool,
)
    requires
        forall|i: int| 0 <= i < s.len() ==> before(#[trigger] s[i]) == after(f(s[i])),
    ensures
        s.filter(before).map_values(f) == s.map_values(f).filter(after),
    decreases s.len(),
{
    reveal(Seq::filter);
    if s.len() == 0 {
        assert(s.filter(before).map_values(f) =~= s.map_values(f).filter(after));
    } else {
        let t = s.drop_last();
        assert forall|i: int| 0 <= i < t.len() implies before(#[trigger] t[i]) == after(f(t[i])) by {
            assert(t[i] == s[i]);
        }
        lemma_filter_map(t, f, before, after);
        assert(s.map_values(f).drop_last() =~= t.map_values(f));
        assert(s.map_values(f).last() == f(s.last()));
        assert(before(s[s.len() - 1]) == after(f(s[s.len() - 1])));
        if before(s.last()) {
            assert(t.filter(before).push(s.last()).map_values(f) =~= t.filter(before).map_values(
                f,
            ).push(f(s.last())));
        }
    }
}

/// Two lists merged: at each step the smaller head, and of equal ones that of
/// `a`.
spec fn merged<T: Sortable>(a: Seq<T::V>, b: Seq<T::V>) -> Seq<T::V>
    decreases a.len() + b.len(),
{
    if a.len() == 0 {
        b
    } else if b.len() == 0 {
        a
    } else if T::at_most(a[0], b[0]) {
        seq![a[0]] + merged::<T>(a.drop_first(), b)
    } else {
        seq![b[0]] + merged::<T>(a, b.drop_first())
    }
}

/// Putting an element into a merged list is merging with a list that holds it.
proof fn lemma_inserted_merged<T: Sortable>(a: Seq<T::V>, b: Seq<T::V>, x: T::V)
    ensures
        inserted::<T>(merged::<T>(a, b), x) == merged::<T>(a, inserted::<T>(b, x)),
    decreases a.len() + b.len(),
{
    let m = merged::<T>(a, b);
    let bx = inserted::<T>(b, x);
    if a.len() == 0 {
    } else if b.len() == 0 {
        lemma_inserted_merged::<T>(a.drop_first(), b, x);
        assert(bx =~= seq![x]);
        assert(bx.drop_first() =~= b);
        if !T::at_most(a[0], x) {
            assert(merged::<T>(a, bx) =~= seq![x] + a);
        }
        if a.drop_first().len() == 0 {
            assert(merged::<T>(a.drop_first(), b) =~= a.drop_first());
        }
    } else if T::at_most(a[0], b[0]) {
        let rest = merged::<T>(a.drop_first(), b);
        assert(m.drop_first() =~= rest);
        lemma_inserted_merged::<T>(a.drop_first(), b, x);
        if T::at_most(a[0], x) {
            assert(bx[0] == b[0] || bx[0] == x);
        } else {
            if T::at_most(b[0], x) {
                T::lemma_transitive(a[0], b[0], x);
            }
            assert(bx =~= seq![x] + b);
            assert(bx.drop_first() =~= b);
        }
    } else {
        let rest = merged::<T>(a, b.drop_first());
        assert(m.drop_first() =~= rest);
        lemma_inserted_merged::<T>(a, b.drop_first(), x);
        if T::at_most(b[0], x) {
            assert(bx.drop_first() =~= inserted::<T>(b.drop_first(), x));
        } else {
            T::lemma_total(b[0], x);
            if T::at_most(a[0], x) {
                T::lemma_transitive(a[0], x, b[0]);
            }
            assert(bx =~= seq![x] + b);
            assert(bx.drop_first() =~= b);
        }
    }
}

/// Sorting two halves and merging them is sorting the whole.
proof fn lemma_merged_halves<T: Sortable>(a: Seq<T::V>, b: Seq<T::V>)
    ensures
        stable_sorted::<T>(a + b) == merged::<T>(stable_sorted::<T>(a), stable_sorted::<T>(b)),
    decreases b.len(),
{
    if b.len() == 0 {
        assert(a + b =~= a);
        assert(merged::<T>(stable_sorted::<T>(a), b) =~= stable_sorted::<T>(a)) by {
            if stable_sorted::<T>(a).len() == 0 {
                assert(b =~= stable_sorted::<T>(a));
            }
        }
    } else {
        let c = b.drop_last();
        let x = b.last();
        lemma_merged_halves::<T>(a, c);
        assert((a + b).drop_last() =~= a + c);
        assert((a + b).last() == x);
        lemma_inserted_merged::<T>(stable_sorted::<T>(a), stable_sorted::<T>(c), x);
    }
}

/// The elements in the opposite order.
pub fn reversed<T>(v: Vec<T>) -> (r: Vec<T>)
    ensures
        r@ == v@.reverse(),
{
    let mut v = v;
    let ghost all = v@;
    let mut r: Vec<T> = Vec::new();
    while v.len() > 0
        invariant
            v@.len() <= all.len(),
            v@ == all.take(v@.len() as int),
            r@ == all.skip(v@.len() as int).reverse(),
        decreases v@.len(),
    {
        let ghost n = v@.len() as int;
        if let Some(x) = v.pop() {
            r.push(x);
            assert(x == all[n - 1]);
            assert(v@ =~= all.take(n - 1));
            assert(r@ =~= all.skip(n - 1).reverse());
        }
    }
    assert(all.skip(0) =~= all);
    r
}

/// Merges two lists.
fn merge<T: Sortable>(a: Vec<T>, b: Vec<T>) -> (r: Vec<T>)
    ensures
        views(r@) == merged::<T>(views(a@), views(b@)),
{
    let ghost whole = merged::<T>(views(a@), views(b@));
    let mut x = reversed(a);
    let mut y = reversed(b);
    let mut out: Vec<T> = Vec::new();
    assert(views(x@.reverse()) =~= views(a@));
    assert(views(y@.reverse()) =~= views(b@));
    assert(views(out@) + whole =~= whole);
    while x.len() > 0 && y.len() > 0
        invariant
            whole == views(out@) + merged::<T>(views(x@.reverse()), views(y@.reverse())),
        decreases x@.len() + y@.len(),
    {
        let ghost p = views(x@.reverse());
        let ghost q = views(y@.reverse());
        let ghost done = views(out@);
        let i: usize = x.len() - 1;
        let j: usize = y.len() - 1;
        assert(p[0] == x@[i as int]@);
        assert(q[0] == y@[j as int]@);
        if x[i].precedes(&y[j]) {
            if let Some(t) = x.pop() {
                out.push(t);
                assert(views(x@.reverse()) =~= p.drop_first());
                assert(views(out@) =~= done.push(p[0]));
                assert(done + (seq![p[0]] + merged::<T>(p.drop_first(), q)) =~= done.push(p[0])
                    + merged::<T>(p.drop_first(), q));
            }
        } else {
            if let Some(t) = y.pop() {
                out.push(t);
                assert(views(y@.reverse()) =~= q.drop_first());
                assert(views(out@) =~= done.push(q[0]));
                assert(done + (seq![q[0]] + merged::<T>(p, q.drop_first())) =~= done.push(q[0])
                    + merged::<T>(p, q.drop_first()));
            }
        }
    }
    let ghost p = views(x@.reverse());
    let ghost q = views(y@.reverse());
    let ghost done = views(out@);
    let nothing_left_of_first = x.len() == 0;
    let mut rest = if nothing_left_of_first {
        reversed(y)
    } else {
        reversed(x)
    };
    proof {
        if p.len() == 0 {
            assert(merged::<T>(p, q) =~= q);
        } else {
            assert(q.len() == 0);
            assert(merged::<T>(p, q) =~= p);
        }
    }
    let ghost tail = views(rest@);
    let ghost head = out@;
    let ghost last = rest@;
    out.append(&mut rest);
    assert(views(head + last) =~= done + tail);
    out
}

/// Sorts a list, keeping equal elements in their order.
pub fn sort<T: Sortable>(v: Vec<T>) -> (r: Vec<T>)
    ensures
        views(r@) == stable_sorted::<T>(views(v@)),
    decreases v@.len(),
{
    let n: usize = v.len();
    if n == 0 {
        return v;
    }
    if n == 1 {
        proof {
            let s = views(v@);
            assert(s.drop_last() =~= Seq::<T::V>::empty());
            assert(stable_sorted::<T>(s.drop_last()) =~= Seq::<T::V>::empty());
            assert(stable_sorted::<T>(s) =~= s);
        }
        return v;
    }
    let mut front = v;
    let ghost all = front@;
    let mid: usize = n / 2;
    let back = front.split_off(mid);
    proof {
        assert(views(all) =~= views(front@) + views(back@));
        lemma_merged_halves::<T>(views(front@), views(back@));
    }
    merge(sort(front), sort(back))
}

} // verus!
