//! Named settings.

use vstd::prelude::*;

use crate::sort;
use crate::strings;

verus! {

/// Settings by name, kept in the order of their names.
#[derive(Debug)]
pub struct Settings {
    rows: Vec<(String, String)>,
}

/// The views of the rows.
pub open spec fn pair_views(v: Seq<(String, String)>) -> Seq<(Seq<char>, Seq<char>)> {
    v.map_values(|r: (String, String)| (r.0@, r.1@))
}

/// The settings that the rows stand for.
pub open spec fn as_map(rows: Seq<(Seq<char>, Seq<char>)>) -> Map<Seq<char>, Seq<char>>
    decreases rows.len(),
{
    if rows.len() == 0 {
        Map::empty()
    } else {
        as_map(rows.drop_last()).insert(rows.last().0, rows.last().1)
    }
}

/// Names that rise strictly.
pub open spec fn rising(names: Seq<Seq<char>>) -> bool {
    forall|i: int, j: int|
        0 <= i < j < names.len() ==> sort::text_less(#[trigger] names[i], #[trigger] names[j])
}

/// The names of the rows.
pub open spec fn names(rows: Seq<(Seq<char>, Seq<char>)>) -> Seq<Seq<char>> {
    rows.map_values(|r: (Seq<char>, Seq<char>)| r.0)
}

/// The map knows the names of the rows and no others.
proof fn lemma_map_names(rows: Seq<(Seq<char>, Seq<char>)>, name: Seq<char>)
    ensures
        as_map(rows).contains_key(name) <==> names(rows).contains(name),
    decreases rows.len(),
{
    let ns = names(rows);
    if rows.len() > 0 {
        let init = rows.drop_last();
        lemma_map_names(init, name);
        assert(names(init) =~= ns.drop_last());
        if names(init).contains(name) {
            let i = choose|i: int| 0 <= i < names(init).len() && names(init)[i] == name;
            assert(ns[i] == name);
        }
        if rows.last().0 == name {
            assert(ns[rows.len() - 1] == name);
        }
        if ns.contains(name) && rows.last().0 != name {
            let i = choose|i: int| 0 <= i < ns.len() && ns[i] == name;
            assert(names(init)[i] == name);
        }
    }
}

/// In rows with rising names a row is what the map knows of its name.
proof fn lemma_map_row(rows: Seq<(Seq<char>, Seq<char>)>, i: int)
    requires
        rising(names(rows)),
        0 <= i < rows.len(),
    ensures
        as_map(rows).contains_key(rows[i].0),
        as_map(rows)[rows[i].0] == rows[i].1,
    decreases rows.len(),
{
    let init = rows.drop_last();
    let ns = names(rows);
    assert(names(init) =~= ns.drop_last());
    if i < rows.len() - 1 {
        assert(rising(names(init))) by {
            assert forall|a: int, b: int| 0 <= a < b < names(init).len() implies sort::text_less(
                #[trigger] names(init)[a],
                #[trigger] names(init)[b],
            ) by {
                assert(sort::text_less(ns[a], ns[b]));
            }
        }
        lemma_map_row(init, i);
        assert(init[i] == rows[i]);
        assert(sort::text_less(ns[i], ns[rows.len() - 1]));
        if rows[i].0 == rows.last().0 {
            sort::lemma_text_asymmetric(ns[i], ns[i]);
        }
    }
}

/// A row put among others.
proof fn lemma_map_insert(rows: Seq<(Seq<char>, Seq<char>)>, p: int, k: Seq<char>, v: Seq<char>)
    requires
        0 <= p <= rows.len(),
        !names(rows).contains(k),
    ensures
        as_map(rows.insert(p, (k, v))) == as_map(rows).insert(k, v),
    decreases rows.len(),
{
    let after = rows.insert(p, (k, v));
    if p == rows.len() {
        assert(after.drop_last() =~= rows);
    } else {
        let init = rows.drop_last();
        let last = rows.last();
        assert(after.last() == last);
        assert(after.drop_last() =~= init.insert(p, (k, v)));
        assert(!names(init).contains(k)) by {
            if names(init).contains(k) {
                let i = choose|i: int| 0 <= i < names(init).len() && names(init)[i] == k;
                assert(names(rows)[i] == k);
            }
        }
        lemma_map_insert(init, p, k, v);
        assert(names(rows)[rows.len() - 1] == last.0);
        assert(as_map(init).insert(k, v).insert(last.0, last.1) =~= as_map(init).insert(
            last.0,
            last.1,
        ).insert(k, v));
    }
}

/// A row with a new value.
proof fn lemma_map_update(rows: Seq<(Seq<char>, Seq<char>)>, p: int, v: Seq<char>)
    requires
        0 <= p < rows.len(),
        rising(names(rows)),
    ensures
        as_map(rows.update(p, (rows[p].0, v))) == as_map(rows).insert(rows[p].0, v),
    decreases rows.len(),
{
    let k = rows[p].0;
    let after = rows.update(p, (k, v));
    let init = rows.drop_last();
    let last = rows.last();
    let ns = names(rows);
    assert(names(init) =~= ns.drop_last());
    if p == rows.len() - 1 {
        assert(after.drop_last() =~= init);
        assert(as_map(after) =~= as_map(rows).insert(k, v));
    } else {
        assert(after.drop_last() =~= init.update(p, (k, v)));
        assert(rising(names(init))) by {
            assert forall|a: int, b: int| 0 <= a < b < names(init).len() implies sort::text_less(
                #[trigger] names(init)[a],
                #[trigger] names(init)[b],
            ) by {
                assert(sort::text_less(ns[a], ns[b]));
            }
        }
        lemma_map_update(init, p, v);
        assert(sort::text_less(ns[p], ns[rows.len() - 1]));
        if k == last.0 {
            sort::lemma_text_asymmetric(k, k);
        }
        assert(as_map(init).insert(k, v).insert(last.0, last.1) =~= as_map(init).insert(
            last.0,
            last.1,
        ).insert(k, v));
    }
}

/// A row taken out.
proof fn lemma_map_remove(rows: Seq<(Seq<char>, Seq<char>)>, p: int)
    requires
        0 <= p < rows.len(),
        rising(names(rows)),
    ensures
        as_map(rows.remove(p)) == as_map(rows).remove(rows[p].0),
    decreases rows.len(),
{
    let k = rows[p].0;
    let after = rows.remove(p);
    let init = rows.drop_last();
    let last = rows.last();
    let ns = names(rows);
    assert(names(init) =~= ns.drop_last());
    assert(rising(names(init))) by {
        assert forall|a: int, b: int| 0 <= a < b < names(init).len() implies sort::text_less(
            #[trigger] names(init)[a],
            #[trigger] names(init)[b],
        ) by {
            assert(sort::text_less(ns[a], ns[b]));
        }
    }
    if p == rows.len() - 1 {
        assert(after =~= init);
        lemma_map_names(init, k);
        if names(init).contains(k) {
            let i = choose|i: int| 0 <= i < names(init).len() && names(init)[i] == k;
            assert(sort::text_less(ns[i], ns[p]));
            sort::lemma_text_asymmetric(k, k);
        }
        assert(as_map(init) =~= as_map(rows).remove(k));
    } else {
        assert(after.last() == last);
        assert(after.drop_last() =~= init.remove(p));
        lemma_map_remove(init, p);
        assert(sort::text_less(ns[p], ns[rows.len() - 1]));
        if k == last.0 {
            sort::lemma_text_asymmetric(k, k);
        }
        assert(as_map(init).remove(k).insert(last.0, last.1) =~= as_map(init).insert(
            last.0,
            last.1,
        ).remove(k));
    }
}

impl View for Settings {
    type V = Map<Seq<char>, Seq<char>>;

    closed spec fn view(&self) -> Map<Seq<char>, Seq<char>> {
        as_map(pair_views(self.rows@))
    }
}

impl Settings {
    /// The rows are in the order of their names, each name once.
    pub closed spec fn wf(&self) -> bool {
        rising(names(pair_views(self.rows@)))
    }

    /// No settings.
    pub fn new() -> (r: Settings)
        ensures
            r.wf(),
            r@ == Map::<Seq<char>, Seq<char>>::empty(),
    {
        Settings { rows: Vec::new() }
    }

    /// The first row whose name does not come before the given one.
    fn place(&self, name: &str) -> (p: usize)
        ensures
            p <= self.rows@.len(),
            forall|i: int|
                0 <= i < p ==> sort::text_less(#[trigger] pair_views(self.rows@)[i].0, name@),
            p < self.rows@.len() ==> !sort::text_less(pair_views(self.rows@)[p as int].0, name@),
    {
        let mut p: usize = 0;
        while p < self.rows.len() && sort::is_text_less(self.rows[p].0.as_str(), name)
            invariant
                p <= self.rows@.len(),
                forall|i: int|
                    0 <= i < p ==> sort::text_less(#[trigger] pair_views(self.rows@)[i].0, name@),
            decreases self.rows@.len() - p,
        {
            assert(pair_views(self.rows@)[p as int].0 == self.rows@[p as int].0@);
            p += 1;
        }
        p
    }

    /// The row at its place decides whether the name is known.
    proof fn lemma_place(&self, p: int, name: Seq<char>)
        requires
            self.wf(),
            0 <= p <= self.rows@.len(),
            forall|i: int|
                0 <= i < p ==> sort::text_less(#[trigger] pair_views(self.rows@)[i].0, name),
            p < self.rows@.len() ==> !sort::text_less(pair_views(self.rows@)[p].0, name),
        ensures
            self@.contains_key(name) <==> p < self.rows@.len() && pair_views(self.rows@)[p].0
                == name,
            !self@.contains_key(name) ==> !names(pair_views(self.rows@)).contains(name),
            !self@.contains_key(name) ==> forall|i: int|
                p <= i < self.rows@.len() ==> sort::text_less(
                    name,
                    #[trigger] pair_views(self.rows@)[i].0,
                ),
    {
        let rows = pair_views(self.rows@);
        let ns = names(rows);
        lemma_map_names(rows, name);
        if p < rows.len() && rows[p].0 == name {
            assert(ns[p] == name);
        } else {
            assert forall|i: int| p <= i < rows.len() implies sort::text_less(
                name,
                #[trigger] rows[i].0,
            ) by {
                if !sort::text_less(name, rows[p].0) {
                    sort::lemma_text_total(name, rows[p].0);
                }
                if i > p {
                    assert(sort::text_less(ns[p], ns[i]));
                    if !sort::text_less(name, ns[i]) {
                        sort::lemma_text_between(ns[p], ns[i], name);
                        sort::lemma_text_between(name, ns[p], ns[i]);
                        sort::lemma_text_asymmetric(ns[p], ns[i]);
                    }
                }
            }
            if ns.contains(name) {
                let i = choose|i: int| 0 <= i < ns.len() && ns[i] == name;
                if i < p {
                    assert(sort::text_less(rows[i].0, name));
                } else {
                    assert(sort::text_less(name, rows[i].0));
                }
                sort::lemma_text_asymmetric(name, name);
            }
        }
    }

    /// The value of a setting, if it is set.
    pub fn get(&self, name: &str) -> (r: Option<String>)
        requires
            self.wf(),
        ensures
            match r {
                Some(v) => self@.get(name@) == Some(v@),
                None => self@.get(name@) is None,
            },
    {
        let p: usize = self.place(name);
        proof {
            self.lemma_place(p as int, name@);
        }
        if p < self.rows.len() && strings::str_eq(self.rows[p].0.as_str(), name) {
            proof {
                lemma_map_row(pair_views(self.rows@), p as int);
            }
            Some(self.rows[p].1.clone())
        } else {
            None
        }
    }

    /// Sets a setting.
    pub fn set(&mut self, name: &str, value: &str)
        requires
            old(self).wf(),
        ensures
            final(self).wf(),
            final(self)@ == old(self)@.insert(name@, value@),
    {
        let p: usize = self.place(name);
        let ghost before = pair_views(self.rows@);
        proof {
            self.lemma_place(p as int, name@);
        }
        if p < self.rows.len() && strings::str_eq(self.rows[p].0.as_str(), name) {
            let row = (name.to_owned(), value.to_owned());
            self.rows.set(p, row);
            proof {
                lemma_map_update(before, p as int, value@);
                assert(pair_views(self.rows@) =~= before.update(p as int, (name@, value@)));
                assert(names(pair_views(self.rows@)) =~= names(before));
            }
        } else {
            let row = (name.to_owned(), value.to_owned());
            self.rows.insert(p, row);
            proof {
                lemma_map_insert(before, p as int, name@, value@);
                let after = pair_views(self.rows@);
                assert(after =~= before.insert(p as int, (name@, value@)));
                let ns = names(before);
                assert forall|i: int, j: int| 0 <= i < j < names(after).len() implies sort::text_less(
                    #[trigger] names(after)[i],
                    #[trigger] names(after)[j],
                ) by {
                    let a = if i < p { i } else { i - 1 };
                    let b = if j < p { j } else { j - 1 };
                    if i == p {
                        assert(names(after)[j] == before[b].0);
                    } else if j == p {
                        assert(names(after)[i] == before[a].0);
                    } else {
                        assert(sort::text_less(ns[a], ns[b]));
                    }
                }
            }
        }
    }

    /// Removes a setting. Tells whether it was set.
    pub fn remove(&mut self, name: &str) -> (r: bool)
        requires
            old(self).wf(),
        ensures
            final(self).wf(),
            final(self)@ == old(self)@.remove(name@),
            r == old(self)@.contains_key(name@),
    {
        let p: usize = self.place(name);
        let ghost before = pair_views(self.rows@);
        proof {
            self.lemma_place(p as int, name@);
        }
        if p < self.rows.len() && strings::str_eq(self.rows[p].0.as_str(), name) {
            let _ = self.rows.remove(p);
            proof {
                lemma_map_remove(before, p as int);
                let after = pair_views(self.rows@);
                assert(after =~= before.remove(p as int));
                let ns = names(before);
                assert forall|i: int, j: int| 0 <= i < j < names(after).len() implies sort::text_less(
                    #[trigger] names(after)[i],
                    #[trigger] names(after)[j],
                ) by {
                    let a = if i < p { i } else { i + 1 };
                    let b = if j < p { j } else { j + 1 };
                    assert(sort::text_less(ns[a], ns[b]));
                }
            }
            true
        } else {
            assert(self@ =~= old(self)@.remove(name@));
            false
        }
    }

    /// The names of all settings in order.
    pub fn names(&self) -> (r: Vec<String>)
        requires
            self.wf(),
        ensures
            rising(strings::views(r@)),
            forall|k: Seq<char>|
                #[trigger] strings::views(r@).contains(k) <==> self@.contains_key(k),
    {
        let ghost ns = names(pair_views(self.rows@));
        let mut r: Vec<String> = Vec::new();
        let mut i: usize = 0;
        assert(strings::views(r@) =~= ns.take(0));
        while i < self.rows.len()
            invariant
                i <= self.rows@.len(),
                ns == names(pair_views(self.rows@)),
                strings::views(r@) == ns.take(i as int),
            decreases self.rows@.len() - i,
        {
            let name = self.rows[i].0.clone();
            proof {
                strings::lemma_views_push(r@, name);
                assert(ns.take(i as int).push(name@) =~= ns.take(i + 1));
            }
            r.push(name);
            i += 1;
        }
        proof {
            assert(ns.take(ns.len() as int) =~= ns);
            assert forall|k: Seq<char>|
                #[trigger] strings::views(r@).contains(k) <==> self@.contains_key(k) by {
                lemma_map_names(pair_views(self.rows@), k);
            }
        }
        r
    }
}

} // verus!
