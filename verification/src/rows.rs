//! Tables as lists of rows.

use vstd::prelude::*;


verus! {

/// The rows among the first `k` that are kept.
pub open spec fn survivors<R>(all: Seq<R>, k: int, keep: spec_fn(int) -> bool) -> Seq<R>
    decreases k,
{
    if k <= 0 {
        Seq::empty()
    } else if keep(k - 1) {
        survivors(all, k - 1, keep).push(all[k - 1])
    } else {
        survivors(all, k - 1, keep)
    }
}

/// If every row is kept, nothing changes.
pub proof fn lemma_survivors_all<R>(all: Seq<R>, k: int, keep: spec_fn(int) -> bool)
    requires
        0 <= k <= all.len(),
        forall|i: int| 0 <= i < k ==> #[trigger] keep(i),
    ensures
        survivors(all, k, keep) == all.take(k),
    decreases k,
{
    if k > 0 {
        lemma_survivors_all(all, k - 1, keep);
        assert(keep(k - 1));
        assert(all.take(k - 1).push(all[k - 1]) =~= all.take(k));
    } else {
        assert(all.take(0) =~= Seq::<R>::empty());
    }
}

/// The part of a text before its first null character.
pub open spec fn before_nul(s: Seq<char>) -> Seq<char>
    decreases s.len(),
{
    if s.len() == 0 || s[0] == '\0' {
        Seq::empty()
    } else {
        seq![s[0]] + before_nul(s.drop_first())
    }
}

/// The part before the first null character starts the text.
pub proof fn lemma_before_nul(s: Seq<char>)
    ensures
        before_nul(s).len() <= s.len(),
        before_nul(s) == s.take(before_nul(s).len() as int),
    decreases s.len(),
{
    if s.len() > 0 && s[0] != '\0' {
        lemma_before_nul(s.drop_first());
        let n = before_nul(s.drop_first()).len() as int;
        assert(seq![s[0]] + s.drop_first().take(n) =~= s.take(n + 1));
    } else {
        assert(s.take(0) =~= Seq::<char>::empty());
    }
}

/// See [`before_nul`].
pub fn slice_before_nul(s: &[char]) -> (r: &[char])
    ensures
        r@ == before_nul(s@),
{
    let n: usize = s.len();
    let mut i: usize = 0;
    proof {
        assert(s@.skip(0) =~= s@);
        lemma_before_nul(s@);
    }
    while i < n && s[i] != '\0'
        invariant
            i <= n == s@.len(),
            before_nul(s@).len() == i + before_nul(s@.skip(i as int)).len(),
        decreases n - i,
    {
        assert(s@.skip(i as int).drop_first() =~= s@.skip(i + 1));
        i += 1;
    }
    let r = vstd::slice::slice_subrange(s, 0, i);
    proof {
        assert(s@.subrange(0, i as int) =~= s@.take(i as int));
    }
    r
}

/// A list in reverse order.
pub fn reversed<T>(v: Vec<T>) -> (r: Vec<T>)
    ensures
        r@ == v@.reverse(),
{
    let ghost all = v@;
    let mut v = v;
    let mut r: Vec<T> = Vec::new();
    while v.len() > 0
        invariant
            v@.len() <= all.len(),
            v@ == all.take(v@.len() as int),
            r@ == all.skip(v@.len() as int).reverse(),
        decreases v@.len(),
    {
        let ghost n = v@.len() as int;
        match v.pop() {
            Some(x) => {
                r.push(x);
                assert(v@ =~= all.take(n - 1));
                assert(r@ =~= all.skip(n - 1).reverse());
            },
            None => {},
        }
    }
    assert(all.skip(0) =~= all);
    r
}

} // verus!
