//! Stable orders of rows by a key.

use vstd::prelude::*;

use crate::strings;

verus! {

/// Where a row goes among rows that are in order: behind all that it does not
/// precede.
pub open spec fn slot(order: Seq<int>, x: int, before: spec_fn(int, int) -> bool) -> int
    decreases order.len(),
{
    if order.len() == 0 {
        0
    } else if before(x, order.last()) {
        slot(order.drop_last(), x, before)
    } else {
        order.len() as int
    }
}

/// The rows from 0 up to `n` in order; rows that do not precede each other
/// stay as they were.
pub open spec fn ranked(n: int, before: spec_fn(int, int) -> bool) -> Seq<int>
    decreases n,
{
    if n <= 0 {
        Seq::empty()
    } else {
        let order = ranked(n - 1, before);
        order.insert(slot(order, n - 1, before), n - 1)
    }
}

/// The slot is a position.
pub proof fn lemma_slot_bounds(order: Seq<int>, x: int, before: spec_fn(int, int) -> bool)
    ensures
        0 <= slot(order, x, before) <= order.len(),
    decreases order.len(),
{
    if order.len() > 0 && before(x, order.last()) {
        lemma_slot_bounds(order.drop_last(), x, before);
    }
}

/// Ordering loses no row and repeats none.
pub proof fn law_ranked_permutation(n: int, before: spec_fn(int, int) -> bool)
    requires
        0 <= n,
    ensures
        ranked(n, before).len() == n,
        ranked(n, before).no_duplicates(),
        forall|i: int| 0 <= i < n ==> 0 <= #[trigger] ranked(n, before)[i] < n,
        forall|x: int| 0 <= x < n ==> #[trigger] ranked(n, before).contains(x),
    decreases n,
{
    if n > 0 {
        let order = ranked(n - 1, before);
        let p = slot(order, n - 1, before);
        let r = ranked(n, before);
        law_ranked_permutation(n - 1, before);
        lemma_slot_bounds(order, n - 1, before);
        assert forall|i: int, j: int| 0 <= i < r.len() && 0 <= j < r.len() && i != j implies r[i]
            != r[j] by {
            let a = if i < p { i } else { i - 1 };
            let b = if j < p { j } else { j - 1 };
            if i != p && j != p {
                assert(order[a] != order[b]);
            } else if i != p {
                assert(0 <= order[a] < n - 1);
            } else {
                assert(0 <= order[b] < n - 1);
            }
        }
        assert forall|i: int| 0 <= i < n implies 0 <= #[trigger] r[i] < n by {
            if i < p {
                assert(r[i] == order[i]);
            } else if i > p {
                assert(r[i] == order[i - 1]);
            }
        }
        assert forall|x: int| 0 <= x < n implies #[trigger] r.contains(x) by {
            if x == n - 1 {
                assert(r[p] == x);
            } else {
                assert(order.contains(x));
                let k = choose|k: int| 0 <= k < order.len() && order[k] == x;
                if k < p {
                    assert(r[k] == x);
                } else {
                    assert(r[k + 1] == x);
                }
            }
        }
    }
}

/// The relation is that of a key: no two rows precede each other, and if one
/// row precedes another, any third follows the one or precedes the other.
pub open spec fn by_key(before: spec_fn(int, int) -> bool) -> bool {
    &&& forall|a: int, b: int| #[trigger] before(a, b) ==> !before(b, a)
    &&& forall|a: int, b: int, c: int|
        #[trigger] before(a, b) && !before(a, c) ==> #[trigger] before(c, b)
}

/// Rows before the slot are not preceded by the new row, those behind it are.
proof fn lemma_slot_sorted(order: Seq<int>, x: int, before: spec_fn(int, int) -> bool)
    requires
        by_key(before),
        forall|i: int, j: int| 0 <= i < j < order.len() ==> !before(order[j], order[i]),
    ensures
        forall|i: int|
            0 <= i < slot(order, x, before) ==> !before(x, #[trigger] order[i]),
        forall|i: int| slot(order, x, before) <= i < order.len() ==> before(x, #[trigger] order[i]),
    decreases order.len(),
{
    if order.len() > 0 {
        let last = order.last();
        if before(x, last) {
            lemma_slot_sorted(order.drop_last(), x, before);
            lemma_slot_bounds(order.drop_last(), x, before);
            assert forall|i: int| 0 <= i < slot(order, x, before) implies !before(
                x,
                #[trigger] order[i],
            ) by {
                assert(order.drop_last()[i] == order[i]);
            }
            assert forall|i: int| slot(order, x, before) <= i < order.len() implies before(
                x,
                #[trigger] order[i],
            ) by {
                if i < order.len() - 1 {
                    assert(order.drop_last()[i] == order[i]);
                }
            }
        } else {
            assert forall|i: int| 0 <= i < order.len() implies !before(x, #[trigger] order[i]) by {
                if before(x, order[i]) {
                    assert(before(last, order[i]));
                    assert(order[order.len() - 1] == last);
                    if i < order.len() - 1 {
                        assert(!before(order[order.len() - 1], order[i]));
                    }
                }
            }
        }
    }
}

/// Ordering by a key sorts: no row precedes one that stands before it, and
/// rows with equal keys keep their order.
pub proof fn law_ranked_sorted(n: int, before: spec_fn(int, int) -> bool)
    requires
        0 <= n,
        by_key(before),
    ensures
        forall|i: int, j: int|
            0 <= i < j < n ==> !before(
                #[trigger] ranked(n, before)[j],
                #[trigger] ranked(n, before)[i],
            ),
        forall|i: int, j: int|
            0 <= i < j < n ==> before(
                #[trigger] ranked(n, before)[i],
                #[trigger] ranked(n, before)[j],
            ) || ranked(n, before)[i] < ranked(n, before)[j],
    decreases n,
{
    if n > 0 {
        let order = ranked(n - 1, before);
        let x = n - 1;
        let p = slot(order, x, before);
        let r = ranked(n, before);
        law_ranked_permutation(n - 1, before);
        law_ranked_sorted(n - 1, before);
        lemma_slot_bounds(order, x, before);
        lemma_slot_sorted(order, x, before);
        assert forall|i: int, j: int| 0 <= i < j < n implies !before(
            #[trigger] r[j],
            #[trigger] r[i],
        ) && (before(r[i], r[j]) || r[i] < r[j]) by {
            let a = if i < p { i } else { i - 1 };
            let b = if j < p { j } else { j - 1 };
            if i == p {
                assert(r[j] == order[b]);
                assert(before(x, order[b]));
            } else if j == p {
                assert(r[i] == order[a]);
                assert(!before(x, order[a]));
                assert(0 <= order[a] < x);
            } else {
                assert(r[i] == order[a] && r[j] == order[b]);
            }
        }
    }
}

/// The rows of a list of keys, the higher score first and then the lower
/// number.
pub open spec fn score_before(keys: Seq<(i128, i64)>) -> spec_fn(int, int) -> bool {
    |a: int, b: int|
        keys[a].0 > keys[b].0 || (keys[a].0 == keys[b].0 && keys[a].1 < keys[b].1)
}

/// Scores are a key.
pub proof fn lemma_score_by_key(keys: Seq<(i128, i64)>)
    ensures
        by_key(score_before(keys)),
{
}

/// A text comes before another in the order of code points.
pub open spec fn text_less(a: Seq<char>, b: Seq<char>) -> bool
    decreases a.len(),
{
    if b.len() == 0 {
        false
    } else if a.len() == 0 {
        true
    } else if a[0] != b[0] {
        a[0] < b[0]
    } else {
        text_less(a.drop_first(), b.drop_first())
    }
}

/// The rows of a list of texts in the order of code points.
pub open spec fn text_before(keys: Seq<Seq<char>>) -> spec_fn(int, int) -> bool {
    |a: int, b: int| text_less(keys[a], keys[b])
}

/// No two texts come before each other.
pub proof fn lemma_text_asymmetric(a: Seq<char>, b: Seq<char>)
    requires
        text_less(a, b),
    ensures
        !text_less(b, a),
    decreases a.len(),
{
    if a.len() > 0 && b.len() > 0 && a[0] == b[0] {
        lemma_text_asymmetric(a.drop_first(), b.drop_first());
    }
}

/// If one text comes before another, any third comes after the one or before
/// the other.
pub proof fn lemma_text_between(a: Seq<char>, b: Seq<char>, c: Seq<char>)
    requires
        text_less(a, b),
        !text_less(a, c),
    ensures
        text_less(c, b),
    decreases a.len(),
{
    if a.len() > 0 && b.len() > 0 && c.len() > 0 && a[0] == b[0] && a[0] == c[0] {
        lemma_text_between(a.drop_first(), b.drop_first(), c.drop_first());
    }
}

/// Texts that do not come before each other are equal.
pub proof fn lemma_text_total(a: Seq<char>, b: Seq<char>)
    requires
        !text_less(a, b),
        !text_less(b, a),
    ensures
        a == b,
    decreases a.len(),
{
    if a.len() > 0 && b.len() > 0 {
        lemma_text_total(a.drop_first(), b.drop_first());
        assert(a =~= seq![a[0]] + a.drop_first());
        assert(b =~= seq![b[0]] + b.drop_first());
    } else {
        assert(a =~= b);
    }
}

/// Texts are a key.
pub proof fn lemma_text_by_key(keys: Seq<Seq<char>>)
    ensures
        by_key(text_before(keys)),
{
    let before = text_before(keys);
    assert forall|a: int, b: int| #[trigger] before(a, b) implies !before(b, a) by {
        lemma_text_asymmetric(keys[a], keys[b]);
    }
    assert forall|a: int, b: int, c: int|
        #[trigger] before(a, b) && !before(a, c) implies #[trigger] before(c, b) by {
        lemma_text_between(keys[a], keys[b], keys[c]);
    }
}

/// See [`text_less`].
pub fn is_text_less(a: &str, b: &str) -> (r: bool)
    ensures
        r == text_less(a@, b@),
{
    let x = strings::chars_of(a);
    let y = strings::chars_of(b);
    let mut i: usize = 0;
    assert(x@.skip(0) =~= x@ && y@.skip(0) =~= y@);
    while i < x.len() && i < y.len() && x[i] == y[i]
        invariant
            i <= x@.len(),
            i <= y@.len(),
            text_less(x@, y@) == text_less(x@.skip(i as int), y@.skip(i as int)),
        decreases x@.len() - i,
    {
        assert(x@.skip(i as int).drop_first() =~= x@.skip(i + 1));
        assert(y@.skip(i as int).drop_first() =~= y@.skip(i + 1));
        i += 1;
    }
    if i >= y.len() {
        false
    } else if i >= x.len() {
        true
    } else {
        x[i] < y[i]
    }
}

/// The positions in a list as mathematical numbers.
pub open spec fn positions(v: Seq<usize>) -> Seq<int> {
    v.map_values(|i: usize| i as int)
}

/// A row put into its slot keeps the list a list of positions.
proof fn lemma_positions_insert(v: Seq<usize>, p: int, x: usize)
    requires
        0 <= p <= v.len(),
    ensures
        positions(v.insert(p, x)) == positions(v).insert(p, x as int),
{
    assert(positions(v.insert(p, x)) =~= positions(v).insert(p, x as int));
}

/// The order of rows by score: see [`ranked`].
pub fn rank_scores(keys: &Vec<(i128, i64)>) -> (r: Vec<usize>)
    ensures
        positions(r@) == ranked(keys@.len() as int, score_before(keys@)),
        r@.len() == keys@.len(),
        forall|i: int| 0 <= i < r@.len() ==> #[trigger] r@[i] < keys@.len(),
{
    let ghost before = score_before(keys@);
    let mut r: Vec<usize> = Vec::new();
    let mut n: usize = 0;
    assert(positions(r@) =~= ranked(0, before));
    while n < keys.len()
        invariant
            n <= keys@.len(),
            before == score_before(keys@),
            r@.len() == n,
            positions(r@) == ranked(n as int, before),
            forall|i: int| 0 <= i < r@.len() ==> #[trigger] r@[i] < n,
        decreases keys@.len() - n,
    {
        let ghost order = positions(r@);
        let mut p: usize = r.len();
        assert(order.take(p as int) =~= order);
        while p > 0 && (keys[n].0 > keys[r[p - 1]].0 || (keys[n].0 == keys[r[p - 1]].0 && keys[n].1
            < keys[r[p - 1]].1))
            invariant
                n < keys@.len(),
                p <= r@.len(),
                before == score_before(keys@),
                order == positions(r@),
                forall|i: int| 0 <= i < r@.len() ==> #[trigger] r@[i] < n,
                slot(order, n as int, before) == slot(order.take(p as int), n as int, before),
            decreases p,
        {
            assert(order.take(p as int).last() == r@[p - 1] as int);
            assert(order.take(p as int).drop_last() =~= order.take(p - 1));
            p -= 1;
        }
        proof {
            if p > 0 {
                assert(order.take(p as int).last() == r@[p - 1] as int);
            }
            assert(slot(order, n as int, before) == p);
            lemma_positions_insert(r@, p as int, n);
        }
        let ghost was = r@;
        r.insert(p, n);
        assert forall|i: int| 0 <= i < r@.len() implies #[trigger] r@[i] < n + 1 by {
            if i < p {
                assert(r@[i] == was[i]);
            } else if i > p {
                assert(r@[i] == was[i - 1]);
            }
        }
        n += 1;
    }
    r
}

/// The order of rows by text: see [`ranked`].
pub fn rank_texts(keys: &Vec<String>) -> (r: Vec<usize>)
    ensures
        positions(r@) == ranked(keys@.len() as int, text_before(strings::views(keys@))),
        r@.len() == keys@.len(),
        forall|i: int| 0 <= i < r@.len() ==> #[trigger] r@[i] < keys@.len(),
{
    let ghost texts = strings::views(keys@);
    let ghost before = text_before(texts);
    let mut r: Vec<usize> = Vec::new();
    let mut n: usize = 0;
    assert(positions(r@) =~= ranked(0, before));
    while n < keys.len()
        invariant
            n <= keys@.len(),
            texts == strings::views(keys@),
            before == text_before(texts),
            r@.len() == n,
            positions(r@) == ranked(n as int, before),
            forall|i: int| 0 <= i < r@.len() ==> #[trigger] r@[i] < n,
        decreases keys@.len() - n,
    {
        let ghost order = positions(r@);
        let mut p: usize = r.len();
        assert(order.take(p as int) =~= order);
        while p > 0 && is_text_less(keys[n].as_str(), keys[r[p - 1]].as_str())
            invariant
                n < keys@.len(),
                p <= r@.len(),
                texts == strings::views(keys@),
                before == text_before(texts),
                order == positions(r@),
                forall|i: int| 0 <= i < r@.len() ==> #[trigger] r@[i] < n,
                slot(order, n as int, before) == slot(order.take(p as int), n as int, before),
            decreases p,
        {
            assert(order.take(p as int).last() == r@[p - 1] as int);
            assert(order.take(p as int).drop_last() =~= order.take(p - 1));
            p -= 1;
        }
        proof {
            if p > 0 {
                assert(order.take(p as int).last() == r@[p - 1] as int);
            }
            assert(slot(order, n as int, before) == p);
            lemma_positions_insert(r@, p as int, n);
        }
        let ghost was = r@;
        r.insert(p, n);
        assert forall|i: int| 0 <= i < r@.len() implies #[trigger] r@[i] < n + 1 by {
            if i < p {
                assert(r@[i] == was[i]);
            } else if i > p {
                assert(r@[i] == was[i - 1]);
            }
        }
        n += 1;
    }
    r
}

/// Texts are ordered by the first character in which they differ; a text comes
/// before what continues it.
pub proof fn law_text_order(common: Seq<char>, x: char, a: Seq<char>, y: char, b: Seq<char>)
    requires
        x != y,
    ensures
        text_less(common + seq![x] + a, common + seq![y] + b) <==> x < y,
        text_less(common, common + seq![y] + b),
        !text_less(common + seq![x] + a, common),
        !text_less(common, common),
    decreases common.len(),
{
    let l = common + seq![x] + a;
    let r = common + seq![y] + b;
    if common.len() > 0 {
        let rest = common.drop_first();
        law_text_order(rest, x, a, y, b);
        assert(l.drop_first() =~= rest + seq![x] + a);
        assert(r.drop_first() =~= rest + seq![y] + b);
    }
}

} // verus!
