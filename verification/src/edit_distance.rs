//! Edit distance between names.

use vstd::math::{max, min};
use vstd::prelude::*;

verus! {

/// The edit distance of two texts: the least number of insertions, deletions
/// and substitutions of single characters that turn one into the other.
pub open spec fn distance(a: Seq<char>, b: Seq<char>) -> nat
    decreases a.len() + b.len(),
{
    if a.len() == 0 {
        b.len()
    } else if b.len() == 0 {
        a.len()
    } else {
        let deleted = distance(a.drop_last(), b) + 1;
        let added = distance(a, b.drop_last()) + 1;
        let kept = distance(a.drop_last(), b.drop_last()) + if a.last() == b.last() {
            0nat
        } else {
            1nat
        };
        min(min(added as int, deleted as int), kept as int) as nat
    }
}

/// Whether one edit of `a` at position `i` gives `b`: `c` put in there, the
/// character there taken out, or `c` put in its place.
pub open spec fn is_edit(a: Seq<char>, b: Seq<char>, i: int, c: char) -> bool {
    ||| 0 <= i <= a.len() && b == a.insert(i, c)
    ||| 0 <= i < a.len() && b == a.remove(i)
    ||| 0 <= i < a.len() && b == a.update(i, c)
}

/// Whether one edit of `a` gives `b`.
pub open spec fn one_edit(a: Seq<char>, b: Seq<char>) -> bool {
    exists|i: int, c: char| is_edit(a, b, i, c)
}

/// Whether `n` edits of `a`, one after the other, give `b`.
pub open spec fn edits(a: Seq<char>, b: Seq<char>, n: nat) -> bool
    decreases n,
{
    if n == 0 {
        a == b
    } else {
        exists|m: Seq<char>| #[trigger] one_edit(a, m) && edits(m, b, (n - 1) as nat)
    }
}

/// The distance is the least number of edits: that many give `b`, and fewer do
/// not.
pub proof fn lemma_distance_is_least(a: Seq<char>, b: Seq<char>, n: nat)
    ensures
        edits(a, b, distance(a, b)),
        edits(a, b, n) ==> distance(a, b) <= n,
{
    lemma_distance_reached(a, b);
    if edits(a, b, n) {
        lemma_edits_bound(a, b, n);
    }
}

/// A last edit makes one edit more.
proof fn lemma_edits_then(a: Seq<char>, m: Seq<char>, b: Seq<char>, n: nat)
    requires
        edits(a, m, n),
        one_edit(m, b),
    ensures
        edits(a, b, n + 1),
    decreases n,
{
    if n == 0 {
        assert(edits(b, b, 0));
    } else {
        let k = choose|k: Seq<char>| #[trigger] one_edit(a, k) && edits(k, m, (n - 1) as nat);
        lemma_edits_then(k, m, b, (n - 1) as nat);
        assert(one_edit(a, k) && edits(k, b, n));
    }
}

/// An edit is one also with the same character behind both texts.
proof fn lemma_edit_before(a: Seq<char>, b: Seq<char>, x: char)
    requires
        one_edit(a, b),
    ensures
        one_edit(a.push(x), b.push(x)),
{
    let (i, c) = choose|i: int, c: char| is_edit(a, b, i, c);
    let p = a.push(x);
    let q = b.push(x);
    if 0 <= i <= a.len() && b == a.insert(i, c) {
        assert(q =~= p.insert(i, c));
    } else if 0 <= i < a.len() && b == a.remove(i) {
        assert(q =~= p.remove(i));
    } else {
        assert(q =~= p.update(i, c));
    }
    assert(is_edit(p, q, i, c));
}

proof fn lemma_edits_before(a: Seq<char>, b: Seq<char>, x: char, n: nat)
    requires
        edits(a, b, n),
    ensures
        edits(a.push(x), b.push(x), n),
    decreases n,
{
    if n > 0 {
        let k = choose|k: Seq<char>| #[trigger] one_edit(a, k) && edits(k, b, (n - 1) as nat);
        lemma_edit_before(a, k, x);
        lemma_edits_before(k, b, x, (n - 1) as nat);
        assert(one_edit(a.push(x), k.push(x)));
    }
}

proof fn lemma_distance_reached(a: Seq<char>, b: Seq<char>)
    ensures
        edits(a, b, distance(a, b)),
    decreases a.len() + b.len(),
{
    if a.len() == 0 && b.len() == 0 {
        assert(a =~= b);
    } else if a.len() == 0 {
        let c = b.drop_last();
        lemma_distance_reached(a, c);
        assert(b =~= c.insert(c.len() as int, b.last()));
        assert(is_edit(c, b, c.len() as int, b.last()));
        lemma_edits_then(a, c, b, distance(a, c));
    } else if b.len() == 0 {
        let t = a.drop_last();
        lemma_distance_reached(t, b);
        assert(t =~= a.remove(a.len() - 1));
        assert(is_edit(a, t, a.len() - 1, 'x'));
        assert(one_edit(a, t));
    } else {
        let t = a.drop_last();
        let c = b.drop_last();
        let d = distance(a, b);
        assert(a =~= t.push(a.last()));
        assert(b =~= c.push(b.last()));
        if d == distance(t, b) + 1 {
            lemma_distance_reached(t, b);
            assert(t =~= a.remove(a.len() - 1));
            assert(is_edit(a, t, a.len() - 1, 'x'));
            assert(one_edit(a, t));
        } else if d == distance(a, c) + 1 {
            lemma_distance_reached(a, c);
            assert(b =~= c.insert(c.len() as int, b.last()));
            assert(is_edit(c, b, c.len() as int, b.last()));
            lemma_edits_then(a, c, b, distance(a, c));
        } else {
            lemma_distance_reached(t, c);
            lemma_edits_before(t, c, a.last(), distance(t, c));
            let m = c.push(a.last());
            if a.last() != b.last() {
                assert(b =~= m.update(c.len() as int, b.last()));
                assert(is_edit(m, b, c.len() as int, b.last()));
                lemma_edits_then(a, m, b, distance(t, c));
            }
        }
    }
}

/// A character more at the end changes the distance by at most one.
proof fn lemma_shorter_by_one(a: Seq<char>, b: Seq<char>)
    requires
        a.len() > 0,
    ensures
        distance(a.drop_last(), b) <= distance(a, b) + 1,
        distance(a, b) <= distance(a.drop_last(), b) + 1,
    decreases b.len(),
{
    if b.len() > 0 {
        lemma_shorter_by_one(a, b.drop_last());
        let t = a.drop_last();
        if t.len() > 0 {
            assert(distance(t, b) <= distance(t, b.drop_last()) + 1);
        }
    }
}

/// One edit changes the distance to any text by at most one.
proof fn lemma_one_edit_bound(a: Seq<char>, m: Seq<char>, b: Seq<char>, i: int, c: char)
    requires
        is_edit(a, m, i, c),
    ensures
        distance(a, b) <= distance(m, b) + 1,
    decreases a.len() + b.len(), 1nat,
{
    lemma_distance_bounds(a, b);
    lemma_distance_bounds(m, b);
    if 0 <= i <= a.len() && m == a.insert(i, c) {
        if i == a.len() {
            assert(m.drop_last() =~= a);
            lemma_shorter_by_one(m, b);
        } else {
            let t = a.drop_last();
            let u = m.drop_last();
            assert(u =~= t.insert(i, c));
            assert(m.last() == a.last());
            lemma_same_end_bound(a, m, b, i, c);
        }
    } else if 0 <= i < a.len() && m == a.remove(i) {
        if i == a.len() - 1 {
            assert(m =~= a.drop_last());
            lemma_shorter_by_one(a, b);
        } else {
            let t = a.drop_last();
            let u = m.drop_last();
            assert(u =~= t.remove(i));
            assert(m.last() == a.last());
            lemma_same_end_bound(a, m, b, i, c);
        }
    } else {
        if i == a.len() - 1 {
            let t = a.drop_last();
            assert(m.drop_last() =~= t);
            if b.len() > 0 {
                lemma_one_edit_bound(a, m, b.drop_last(), i, c);
            }
        } else {
            let t = a.drop_last();
            let u = m.drop_last();
            assert(u =~= t.update(i, c));
            assert(m.last() == a.last());
            lemma_same_end_bound(a, m, b, i, c);
        }
    }
}

/// The step of the bound for texts that end in the same character.
proof fn lemma_same_end_bound(a: Seq<char>, m: Seq<char>, b: Seq<char>, i: int, c: char)
    requires
        a.len() > 0,
        m.len() > 0,
        a.last() == m.last(),
        is_edit(a, m, i, c),
        is_edit(a.drop_last(), m.drop_last(), i, c),
    ensures
        distance(a, b) <= distance(m, b) + 1,
    decreases a.len() + b.len(), 0nat,
{
    if b.len() == 0 {
    } else {
        lemma_one_edit_bound(a.drop_last(), m.drop_last(), b, i, c);
        lemma_one_edit_bound(a.drop_last(), m.drop_last(), b.drop_last(), i, c);
        lemma_same_end_bound(a, m, b.drop_last(), i, c);
    }
}

proof fn lemma_edits_bound(a: Seq<char>, b: Seq<char>, n: nat)
    requires
        edits(a, b, n),
    ensures
        distance(a, b) <= n,
    decreases n,
{
    if n == 0 {
        lemma_distance_zero(a, b);
    } else {
        let m = choose|m: Seq<char>| #[trigger] one_edit(a, m) && edits(m, b, (n - 1) as nat);
        lemma_edits_bound(m, b, (n - 1) as nat);
        let (i, c) = choose|i: int, c: char| is_edit(a, m, i, c);
        lemma_one_edit_bound(a, m, b, i, c);
    }
}

/// The distance is the same in both directions.
pub proof fn lemma_distance_symmetric(a: Seq<char>, b: Seq<char>)
    ensures
        distance(a, b) == distance(b, a),
    decreases a.len() + b.len(),
{
    if a.len() > 0 && b.len() > 0 {
        lemma_distance_symmetric(a.drop_last(), b);
        lemma_distance_symmetric(a, b.drop_last());
        lemma_distance_symmetric(a.drop_last(), b.drop_last());
    }
}

/// Texts whose lengths differ by more than a number of edits are further apart
/// than that, and no two texts are further apart than the longer one is long.
pub proof fn lemma_distance_bounds(a: Seq<char>, b: Seq<char>)
    ensures
        distance(a, b) >= a.len() - b.len(),
        distance(a, b) >= b.len() - a.len(),
        distance(a, b) <= max(a.len() as int, b.len() as int),
    decreases a.len() + b.len(),
{
    if a.len() > 0 && b.len() > 0 {
        lemma_distance_bounds(a.drop_last(), b);
        lemma_distance_bounds(a, b.drop_last());
        lemma_distance_bounds(a.drop_last(), b.drop_last());
    }
}

/// Only equal texts are at distance zero.
pub proof fn lemma_distance_zero(a: Seq<char>, b: Seq<char>)
    ensures
        distance(a, b) == 0 <==> a == b,
    decreases a.len() + b.len(),
{
    if a.len() == 0 || b.len() == 0 {
        if a.len() == b.len() {
            assert(a =~= b);
        }
    } else {
        lemma_distance_zero(a.drop_last(), b.drop_last());
        assert(a =~= a.drop_last().push(a.last()));
        assert(b =~= b.drop_last().push(b.last()));
    }
}

/// The distance of a prefix of `a` to a prefix of `b`.
spec fn cell(a: Seq<char>, b: Seq<char>, i: int, j: int) -> nat {
    distance(a.take(i), b.take(j))
}

proof fn lemma_cell(a: Seq<char>, b: Seq<char>, i: int, j: int)
    requires
        0 <= i <= a.len(),
        0 <= j <= b.len(),
    ensures
        i == 0 ==> cell(a, b, i, j) == j,
        j == 0 ==> cell(a, b, i, j) == i,
        i > 0 && j > 0 ==> cell(a, b, i, j) == min(
            min(cell(a, b, i, j - 1) as int + 1, cell(a, b, i - 1, j) as int + 1),
            cell(a, b, i - 1, j - 1) as int + if a[i - 1] == b[j - 1] {
                0int
            } else {
                1int
            },
        ),
        cell(a, b, i, j) <= max(i, j),
{
    lemma_distance_bounds(a.take(i), b.take(j));
    if i > 0 && j > 0 {
        assert(a.take(i).drop_last() =~= a.take(i - 1));
        assert(b.take(j).drop_last() =~= b.take(j - 1));
    }
}

/// Where a whole row lies above `cap`, so do all later rows.
proof fn lemma_rows_grow(a: Seq<char>, b: Seq<char>, i: int, k: int, j: int, cap: nat)
    requires
        0 <= i <= k <= a.len(),
        0 <= j <= b.len(),
        forall|t: int| 0 <= t <= b.len() ==> #[trigger] cell(a, b, i, t) > cap,
    ensures
        cell(a, b, k, j) > cap,
    decreases k, j,
{
    if k > i {
        lemma_cell(a, b, k, j);
        if j == 0 {
            lemma_rows_grow(a, b, i, k - 1, 0, cap);
            lemma_cell(a, b, k - 1, 0);
        } else {
            lemma_rows_grow(a, b, i, k, j - 1, cap);
            lemma_rows_grow(a, b, i, k - 1, j, cap);
            lemma_rows_grow(a, b, i, k - 1, j - 1, cap);
        }
    }
}

/// The edit distance of two texts where it is at most `cap`, and otherwise some
/// number above `cap`.
///
/// Works row by row, and stops early at a row that lies above `cap` everywhere.
/// A row leaves out its first cell, which is the number of the row.
pub fn levenshtein(a: &[char], b: &[char], cap: usize) -> (r: usize)
    ensures
        distance(a@, b@) <= cap ==> r == distance(a@, b@),
        distance(a@, b@) > cap ==> r > cap,
{
    let n: usize = a.len();
    let m: usize = b.len();
    if n == 0 {
        return m;
    }
    if m == 0 {
        return n;
    }
    let mut prev: Vec<usize> = Vec::new();
    let mut fill: usize = 0;
    while fill < m
        invariant
            m == b@.len(),
            fill <= m,
            prev@.len() == fill,
            forall|t: int| 0 <= t < fill ==> prev@[t] == #[trigger] cell(a@, b@, 0, t + 1),
        decreases m - fill,
    {
        fill = fill + 1;
        proof {
            lemma_cell(a@, b@, 0, fill as int);
        }
        prev.push(fill);
    }
    let mut curr: Vec<usize> = vec![0; m];
    let mut i: usize = 0;
    while i < n
        invariant
            n == a@.len(),
            m == b@.len(),
            m > 0,
            i <= n,
            prev@.len() == m,
            curr@.len() == m,
            forall|t: int| 0 <= t < m ==> prev@[t] == #[trigger] cell(a@, b@, i as int, t + 1),
        decreases n - i,
    {
        let row: usize = i + 1;
        let mut row_min: usize = row;
        proof {
            lemma_cell(a@, b@, row as int, 0);
        }
        let mut j: usize = 0;
        while j < m
            invariant
                n == a@.len(),
                m == b@.len(),
                i < n,
                row == i + 1,
                j <= m,
                prev@.len() == m,
                curr@.len() == m,
                forall|t: int| 0 <= t < m ==> prev@[t] == #[trigger] cell(a@, b@, i as int, t + 1),
                forall|t: int| 0 <= t < j ==> curr@[t] == #[trigger] cell(a@, b@, row as int, t + 1),
                forall|t: int| 0 <= t <= j ==> row_min <= #[trigger] cell(a@, b@, row as int, t),
            decreases m - j,
        {
            proof {
                lemma_cell(a@, b@, row as int, j + 1);
                lemma_cell(a@, b@, row as int, j as int);
                lemma_cell(a@, b@, i as int, j + 1);
                lemma_cell(a@, b@, i as int, j as int);
                if j > 0 {
                    assert(curr@[j - 1] == cell(a@, b@, row as int, (j - 1) + 1));
                    assert(prev@[j - 1] == cell(a@, b@, i as int, (j - 1) + 1));
                }
                assert(prev@[j as int] == cell(a@, b@, i as int, j + 1));
            }
            let cost: usize = if a[i] == b[j] {
                0
            } else {
                1
            };
            let left: usize = if j == 0 {
                row
            } else {
                curr[j - 1]
            };
            let corner: usize = if j == 0 {
                i
            } else {
                prev[j - 1]
            };
            let added: usize = left.saturating_add(1);
            let deleted: usize = prev[j].saturating_add(1);
            let kept: usize = corner.saturating_add(cost);
            let edit: usize = if deleted < added {
                deleted
            } else {
                added
            };
            let best: usize = if kept < edit {
                kept
            } else {
                edit
            };
            assert(best == cell(a@, b@, row as int, j + 1));
            curr.set(j, best);
            if best < row_min {
                row_min = best;
            }
            j = j + 1;
        }
        if row_min > cap {
            proof {
                lemma_rows_grow(a@, b@, row as int, n as int, m as int, cap as nat);
                assert(a@.take(n as int) =~= a@);
                assert(b@.take(m as int) =~= b@);
            }
            return cap + 1;
        }
        core::mem::swap(&mut prev, &mut curr);
        i = row;
    }
    proof {
        assert(a@.take(n as int) =~= a@);
        assert(b@.take(m as int) =~= b@);
        assert(prev@[m - 1] == cell(a@, b@, i as int, (m - 1) + 1));
    }
    prev[m - 1]
}

/// How many edits a name of a given length may be away and still count as a
/// near miss: none up to one character, one up to eleven, two up to seventeen,
/// and three beyond.
pub open spec fn near_miss_edits(len: nat) -> nat {
    if len <= 1 {
        0
    } else if len <= 11 {
        1
    } else if len <= 17 {
        2
    } else {
        3
    }
}

/// How many edits a name of a given length may be away and still count as a
/// near miss.
pub fn max_distance_for_query(len: usize) -> (r: usize)
    ensures
        r == near_miss_edits(len as nat),
{
    if len <= 1 {
        0
    } else if len <= 11 {
        1
    } else if len <= 17 {
        2
    } else {
        3
    }
}

/// Whether `name` is within `cap` edits of `query`.
pub fn within_distance(query: &[char], name: &[char], cap: usize) -> (r: Option<usize>)
    ensures
        distance(query@, name@) <= cap ==> r == Some(distance(query@, name@) as usize),
        distance(query@, name@) > cap ==> r is None,
{
    proof {
        lemma_distance_bounds(query@, name@);
    }
    let apart: usize = if name.len() >= query.len() {
        name.len() - query.len()
    } else {
        query.len() - name.len()
    };
    if apart > cap {
        return None;
    }
    let d: usize = levenshtein(query, name, cap);
    if d <= cap {
        Some(d)
    } else {
        None
    }
}

} // verus!
