//! Times of requests within a sliding window.

use std::collections::HashMap;
use std::hash::Hash;
use vstd::prelude::*;

verus! {

/// How long ago a moment was; zero for a moment to come.
pub open spec fn age(now: u64, t: u64) -> int {
    if now >= t {
        now - t
    } else {
        0
    }
}

/// The moments that lie within the window.
pub open spec fn recent(times: Seq<u64>, now: u64, window: u64) -> Seq<u64>
    decreases times.len(),
{
    if times.len() == 0 {
        Seq::empty()
    } else {
        let rest = recent(times.drop_last(), now, window);
        if age(now, times.last()) < window {
            rest.push(times.last())
        } else {
            rest
        }
    }
}

/// See [`recent`].
pub fn recent_of(times: &Vec<u64>, now: u64, window: u64) -> (r: Vec<u64>)
    ensures
        r@ == recent(times@, now, window),
{
    let mut r: Vec<u64> = Vec::new();
    let mut i: usize = 0;
    assert(times@.take(0) =~= Seq::<u64>::empty());
    while i < times.len()
        invariant
            i <= times@.len(),
            r@ == recent(times@.take(i as int), now, window),
        decreases times@.len() - i,
    {
        assert(times@.take(i + 1).drop_last() =~= times@.take(i as int));
        let t: u64 = times[i];
        let old: u64 = if now >= t {
            now - t
        } else {
            0
        };
        if old < window {
            r.push(t);
        }
        i += 1;
    }
    assert(times@.take(times@.len() as int) =~= times@);
    r
}

/// What a table holds for each user.
pub open spec fn time_views<K>(m: Map<K, Vec<u64>>) -> Map<K, Seq<u64>> {
    m.map_values(|v: Vec<u64>| v@)
}

/// What is known of a user; nothing if there is no entry.
pub open spec fn times_of<K>(m: Map<K, Seq<u64>>, user_id: K) -> Seq<u64> {
    if m.contains_key(user_id) {
        m[user_id]
    } else {
        Seq::empty()
    }
}

/// The users with a moment within the window.
pub open spec fn live<K>(m: Map<K, Seq<u64>>, now: u64, window: u64) -> Set<K> {
    Set::new(|u: K| m.contains_key(u) && recent(m[u], now, window).len() > 0)
}

/// The entries of the users with a moment within the window, cut to the
/// moments within it.
pub open spec fn cut_entries<K>(m: Map<K, Seq<u64>>, now: u64, window: u64) -> Map<K, Seq<u64>> {
    Map::new(|u: K| live(m, now, window).contains(u), |u: K| recent(m[u], now, window))
}

/// The entries of the users with a moment within the window, as they are.
pub open spec fn live_entries<K>(m: Map<K, Seq<u64>>, now: u64, window: u64) -> Map<K, Seq<u64>> {
    Map::new(|u: K| live(m, now, window).contains(u), |u: K| m[u])
}

/// See [`cut_entries`] and [`live_entries`].
pub fn pruned<K: Copy + Eq + Hash>(m: &HashMap<K, Vec<u64>>, now: u64, window: u64, cut: bool) -> (r: HashMap<
    K,
    Vec<u64>,
>)
    requires
        vstd::std_specs::hash::obeys_key_model::<K>(),
    ensures
        time_views(r@) == if cut {
            cut_entries(time_views(m@), now, window)
        } else {
            live_entries(time_views(m@), now, window)
        },
{
    let ghost all = time_views(m@);
    let keys = keys_of(m);
    let mut r: HashMap<K, Vec<u64>> = HashMap::new();
    let mut i: usize = 0;
    while i < keys.len()
        invariant
            i <= keys@.len(),
            vstd::std_specs::hash::obeys_key_model::<K>(),
            all == time_views(m@),
            forall|u: K| #[trigger] keys@.contains(u) <==> m@.contains_key(u),
            forall|u: K|
                #[trigger] r@.contains_key(u) <==> seen(keys@, i as int, u) && recent(
                    all[u],
                    now,
                    window,
                ).len() > 0,
            forall|u: K|
                #[trigger] r@.contains_key(u) ==> r@[u]@ == if cut {
                    recent(all[u], now, window)
                } else {
                    all[u]
                },
        decreases keys@.len() - i,
    {
        let k: K = keys[i];
        let ghost before = r@;
        assert(keys@.contains(k));
        match m.get(&k) {
            Some(times) => {
                let fresh = recent_of(times, now, window);
                assert(all[k] == times@);
                if fresh.len() > 0 {
                    if cut {
                        r.insert(k, fresh);
                    } else {
                        r.insert(k, copied(times));
                    }
                }
            },
            None => {},
        }
        assert forall|u: K|
            #[trigger] r@.contains_key(u) <==> seen(keys@, i + 1, u) && recent(
                all[u],
                now,
                window,
            ).len() > 0 by {
            assert(before.contains_key(u) <==> seen(keys@, i as int, u) && recent(
                all[u],
                now,
                window,
            ).len() > 0);
            if u == k {
                assert(keys@[i as int] == u);
            }
            if seen(keys@, i + 1, u) && u != k {
                let p = choose|p: int| 0 <= p < i + 1 && #[trigger] keys@[p] == u;
                assert(p < i);
            }
        }
        i += 1;
    }
    proof {
        let goal = if cut {
            cut_entries(all, now, window)
        } else {
            live_entries(all, now, window)
        };
        assert forall|u: K| #[trigger] r@.contains_key(u) <==> goal.contains_key(u) by {
            assert(keys@.contains(u) <==> m@.contains_key(u));
            assert(seen(keys@, keys@.len() as int, u) <==> keys@.contains(u));
        }
        assert(time_views(r@).dom() =~= goal.dom());
        assert(time_views(r@) =~= goal);
    }
    r
}

/// The users that a table knows, in some order.
fn keys_of<K: Copy + Eq + Hash>(m: &HashMap<K, Vec<u64>>) -> (r: Vec<K>)
    requires
        vstd::std_specs::hash::obeys_key_model::<K>(),
    ensures
        forall|u: K| #[trigger] r@.contains(u) <==> m@.contains_key(u),
{
    let mut r: Vec<K> = Vec::new();
    for k in it: m.keys()
        invariant
            vstd::std_specs::hash::obeys_key_model::<K>(),
            it.seq().unref().to_set() == m@.dom(),
            r@ == it.seq().unref().take(it.index() as int),
            it.index() == it.seq().len() ==> r@.to_set() == m@.dom(),
    {
        r.push(*k);
        assert(it.seq().unref()[it.index() as int] == *k);
        assert(it.seq().unref().take(it.index() as int).push(*k) =~= it.seq().unref().take(
            it.index() + 1,
        ));
        assert(it.index() + 1 == it.seq().len() ==> it.seq().unref().take(it.index() + 1)
            =~= it.seq().unref());
    }
    assert forall|u: K| #[trigger] r@.contains(u) <==> m@.contains_key(u) by {
        assert(r@.to_set().contains(u) <==> m@.dom().contains(u));
    }
    r
}

/// The user is among the first `n` keys.
spec fn seen<K>(keys: Seq<K>, n: int, u: K) -> bool {
    exists|p: int| 0 <= p < n && #[trigger] keys[p] == u
}

/// A copy of a list of moments.
pub fn copied(times: &Vec<u64>) -> (r: Vec<u64>)
    ensures
        r@ == times@,
{
    let mut r: Vec<u64> = Vec::new();
    let mut i: usize = 0;
    while i < times.len()
        invariant
            i <= times@.len(),
            r@ == times@.take(i as int),
        decreases times@.len() - i,
    {
        r.push(times[i]);
        assert(times@.take(i as int).push(times@[i as int]) =~= times@.take(i + 1));
        i += 1;
    }
    assert(times@.take(times@.len() as int) =~= times@);
    r
}

/// The moments within the window are, in their order, those that are less than
/// the window old or still to come.
pub proof fn law_recent(times: Seq<u64>, now: u64, window: u64)
    requires
        window > 0,
    ensures
        recent(times, now, window) == times.filter(|t: u64| now < t + window),
    decreases times.len(),
{
    reveal(Seq::filter);
    if times.len() > 0 {
        law_recent(times.drop_last(), now, window);
    }
}

/// Cutting twice is cutting once.
pub proof fn lemma_recent_twice(times: Seq<u64>, now: u64, window: u64)
    ensures
        recent(recent(times, now, window), now, window) == recent(times, now, window),
    decreases times.len(),
{
    if times.len() > 0 {
        lemma_recent_twice(times.drop_last(), now, window);
        let rest = recent(times.drop_last(), now, window);
        assert(rest.push(times.last()).drop_last() =~= rest);
    }
}

} // verus!
