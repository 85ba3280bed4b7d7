//! A map from names to values that keeps its entries in name order.

use vstd::prelude::*;

use crate::text;
use crate::text::{str_eq, text_lt};

verus! {

/// A map keyed by strings. Entries stand in dictionary order of their names
/// and no name occurs twice.
pub struct StrMap<V> {
    entries: Vec<(String, V)>,
}

/// Names in strictly increasing dictionary order.
pub open spec fn name_sorted<V>(p: Seq<(Seq<char>, V)>) -> bool {
    forall|i: int, j: int|
        0 <= i < j < p.len() ==> text::lex_lt(#[trigger] p[i].0, #[trigger] p[j].0)
}

pub open spec fn has_name<V>(p: Seq<(Seq<char>, V)>, name: Seq<char>) -> bool {
    exists|i: int| 0 <= i < p.len() && #[trigger] p[i].0 == name
}

/// The map that a sequence of entries denotes.
pub open spec fn entries_map<V>(p: Seq<(Seq<char>, V)>) -> Map<Seq<char>, V> {
    Map::new(
        |k: Seq<char>| has_name(p, k),
        |k: Seq<char>| p[choose|i: int| 0 <= i < p.len() && #[trigger] p[i].0 == k].1,
    )
}

impl<V> StrMap<V> {
    /// The entries in name order.
    pub closed spec fn pairs(self) -> Seq<(Seq<char>, V)> {
        self.entries@.map_values(|e: (String, V)| (e.0@, e.1))
    }

    /// Names are in order and distinct.
    pub open spec fn wf(self) -> bool {
        name_sorted(self.pairs())
    }
}

impl<V> View for StrMap<V> {
    type V = Map<Seq<char>, V>;

    open spec fn view(&self) -> Map<Seq<char>, V> {
        entries_map(self.pairs())
    }
}

/// What a map holds is smaller than the map, for a recursion over it.
pub proof fn lemma_entry_is_smaller<V>(m: StrMap<V>, i: int)
    requires
        0 <= i < m.pairs().len(),
    ensures
        decreases_to!(m => m.pairs()[i].1),
{
    assert(m.pairs()[i].1 == m.entries@[i].1);
    assert(decreases_to!(m => m.entries));
    assert(decreases_to!(m.entries => m.entries@));
    assert(decreases_to!(m.entries@ => m.entries@[i]));
    assert(decreases_to!(m.entries@[i] => m.entries@[i].1));
}

/// In sorted entries each entry is what the map holds under its name.
pub proof fn lemma_entry_value<V>(p: Seq<(Seq<char>, V)>, i: int)
    requires
        name_sorted(p),
        0 <= i < p.len(),
    ensures
        entries_map(p).contains_key(p[i].0),
        entries_map(p)[p[i].0] == p[i].1,
{
    let k = p[i].0;
    assert(has_name(p, k));
    let c = choose|c: int| 0 <= c < p.len() && #[trigger] p[c].0 == k;
    text::lemma_lex_irreflexive(k);
    if c < i {
        assert(text::lex_lt(p[c].0, p[i].0));
    } else if i < c {
        assert(text::lex_lt(p[i].0, p[c].0));
    }
}

proof fn lemma_drop_last_entry<V>(p: Seq<(Seq<char>, V)>)
    requires
        name_sorted(p),
        p.len() > 0,
    ensures
        name_sorted(p.drop_last()),
        entries_map(p.drop_last()) == entries_map(p).remove(p.last().0),
{
    let q = p.drop_last();
    let m = entries_map(p).remove(p.last().0);
    assert forall|i: int, j: int| 0 <= i < j < q.len() implies text::lex_lt(
        #[trigger] q[i].0,
        #[trigger] q[j].0,
    ) by {
        assert(text::lex_lt(p[i].0, p[j].0));
    }
    assert forall|k: Seq<char>| entries_map(q).contains_key(k) == m.contains_key(k) by {
        if has_name(q, k) {
            let i = choose|i: int| 0 <= i < q.len() && #[trigger] q[i].0 == k;
            assert(p[i].0 == k);
            assert(text::lex_lt(p[i].0, p.last().0));
            text::lemma_lex_irreflexive(k);
        }
        if m.contains_key(k) {
            let i = choose|i: int| 0 <= i < p.len() && #[trigger] p[i].0 == k;
            assert(i < p.len() - 1);
            assert(q[i].0 == k);
        }
    }
    assert forall|k: Seq<char>| #[trigger] entries_map(q).contains_key(k) implies entries_map(q)[k]
        == m[k] by {
        assert(m.contains_key(k));
        assert(has_name(q, k));
        let i = choose|i: int| 0 <= i < q.len() && #[trigger] q[i].0 == k;
        lemma_entry_value(q, i);
        lemma_entry_value(p, i);
        assert(p[i] == q[i]);
    }
    assert(entries_map(q) =~= m);
}

/// Two ordered maps that hold the same values under the same names have the
/// same entries in the same order.
pub proof fn lemma_order_determined<V>(p: Seq<(Seq<char>, V)>, q: Seq<(Seq<char>, V)>)
    requires
        name_sorted(p),
        name_sorted(q),
        entries_map(p) == entries_map(q),
    ensures
        p == q,
    decreases p.len(),
{
    if p.len() == 0 {
        if q.len() > 0 {
            lemma_entry_value(q, 0);
        }
        assert(p =~= q);
    } else if q.len() == 0 {
        lemma_entry_value(p, 0);
    } else {
        let a = p.last();
        let b = q.last();
        lemma_entry_value(p, p.len() - 1);
        lemma_entry_value(q, q.len() - 1);
        if a.0 != b.0 {
            let i = choose|i: int| 0 <= i < q.len() && #[trigger] q[i].0 == a.0;
            let j = choose|j: int| 0 <= j < p.len() && #[trigger] p[j].0 == b.0;
            assert(text::lex_lt(q[i].0, q[q.len() - 1].0));
            assert(text::lex_lt(p[j].0, p[p.len() - 1].0));
            text::lemma_lex_transitive(a.0, b.0, a.0);
            text::lemma_lex_irreflexive(a.0);
        }
        lemma_drop_last_entry(p);
        lemma_drop_last_entry(q);
        lemma_order_determined(p.drop_last(), q.drop_last());
        assert(p =~= p.drop_last().push(a));
        assert(q =~= q.drop_last().push(b));
    }
}

/// The entries of a map in name order, for a map that a `StrMap` can hold.
pub open spec fn in_order<V>(m: Map<Seq<char>, V>) -> Seq<(Seq<char>, V)> {
    choose|p: Seq<(Seq<char>, V)>| name_sorted(p) && #[trigger] entries_map(p) == m
}

pub proof fn lemma_in_order<V>(p: Seq<(Seq<char>, V)>)
    requires
        name_sorted(p),
    ensures
        in_order(entries_map(p)) == p,
{
    let q = in_order(entries_map(p));
    assert(name_sorted(q) && entries_map(q) == entries_map(p));
    lemma_order_determined(q, p);
}

impl<V> StrMap<V> {
    /// The map without entries.
    pub fn new() -> (r: Self)
        ensures
            r.wf(),
            r.pairs() == Seq::<(Seq<char>, V)>::empty(),
            r@ == Map::<Seq<char>, V>::empty(),
    {
        let r = StrMap { entries: Vec::new() };
        assert(r.pairs() =~= Seq::<(Seq<char>, V)>::empty());
        assert(r@ =~= Map::<Seq<char>, V>::empty());
        r
    }

    /// The number of entries.
    pub fn len(&self) -> (r: usize)
        ensures
            r == self.pairs().len(),
    {
        self.entries.len()
    }

    /// The name of the entry at position `i` in name order.
    pub fn name_at(&self, i: usize) -> (r: &String)
        requires
            i < self.pairs().len(),
        ensures
            r@ == self.pairs()[i as int].0,
    {
        &self.entries[i].0
    }

    /// The value of the entry at position `i` in name order.
    pub fn value_at(&self, i: usize) -> (r: &V)
        requires
            i < self.pairs().len(),
        ensures
            *r == self.pairs()[i as int].1,
    {
        &self.entries[i].1
    }

    /// Puts an entry behind all others. The map stays in order where the name
    /// follows theirs.
    pub(crate) fn append(&mut self, name: String, value: V)
        ensures
            final(self).pairs() == old(self).pairs().push((name@, value)),
    {
        self.entries.push((name, value));
        assert(self.pairs() =~= old(self).pairs().push((name@, value)));
    }

    /// The value held under `name`.
    pub fn get(&self, name: &str) -> (r: Option<&V>)
        requires
            self.wf(),
        ensures
            r is Some <==> self@.contains_key(name@),
            r matches Some(v) ==> *v == self@[name@],
    {
        let mut i: usize = 0;
        while i < self.entries.len()
            invariant
                self.wf(),
                i <= self.pairs().len(),
                self.pairs().len() == self.entries@.len(),
                forall|k: int| 0 <= k < i ==> #[trigger] self.pairs()[k].0 != name@,
            decreases self.entries@.len() - i,
        {
            if str_eq(self.entries[i].0.as_str(), name) {
                proof {
                    assert(self.pairs()[i as int].0 == name@);
                    lemma_entry_value(self.pairs(), i as int);
                }
                return Some(&self.entries[i].1);
            }
            assert(self.pairs()[i as int].0 != name@);
            i += 1;
        }
        None
    }

    /// Whether `name` has an entry.
    pub fn contains(&self, name: &str) -> (r: bool)
        requires
            self.wf(),
        ensures
            r == self@.contains_key(name@),
    {
        self.get(name).is_some()
    }

    /// Puts `value` under `name`, in place of what stood there.
    pub fn insert(&mut self, name: String, value: V)
        requires
            old(self).wf(),
        ensures
            final(self).wf(),
            final(self)@ == old(self)@.insert(name@, value),
    {
        let ghost before = self.pairs();
        let ghost key = name@;
        let mut i: usize = 0;
        while i < self.entries.len() && text_lt(self.entries[i].0.as_str(), name.as_str())
            invariant
                before == self.pairs(),
                *self == *old(self),
                key == name@,
                name_sorted(before),
                i <= self.entries@.len() == before.len(),
                forall|k: int| 0 <= k < i ==> text::lex_lt(#[trigger] before[k].0, key),
            decreases self.entries@.len() - i,
        {
            assert(self.entries@[i as int].0@ == before[i as int].0);
            i += 1;
        }
        proof {
            if i < before.len() {
                assert(self.entries@[i as int].0@ == before[i as int].0);
            }
        }
        if i < self.entries.len() && str_eq(self.entries[i].0.as_str(), name.as_str()) {
            self.entries.remove(i);
            proof {
                assert(self.pairs() =~= before.remove(i as int));
            }
            self.entries.insert(i, (name, value));
            proof {
                let after = self.pairs();
                assert(after =~= before.update(i as int, (key, value)));
                assert forall|a: int, b: int| 0 <= a < b < after.len() implies text::lex_lt(
                    #[trigger] after[a].0,
                    #[trigger] after[b].0,
                ) by {
                    assert(text::lex_lt(before[a].0, before[b].0));
                }
                Self::lemma_inserted(before, after, i as int, key, value);
            }
        } else {
            proof {
                if i < before.len() {
                    text::lemma_lex_total(key, before[i as int].0);
                }
            }
            self.entries.insert(i, (name, value));
            proof {
                let after = self.pairs();
                assert(after =~= before.insert(i as int, (key, value)));
                assert forall|a: int, b: int| 0 <= a < b < after.len() implies text::lex_lt(
                    #[trigger] after[a].0,
                    #[trigger] after[b].0,
                ) by {
                    if a == i {
                        if b > i + 1 {
                            assert(text::lex_lt(before[i as int].0, before[b - 1].0));
                            text::lemma_lex_transitive(key, before[i as int].0, before[b - 1].0);
                        }
                    } else if b == i {
                    } else {
                        let x = if a < i { a } else { a - 1 };
                        let y = if b < i { b } else { b - 1 };
                        assert(text::lex_lt(before[x].0, before[y].0));
                    }
                }
                Self::lemma_inserted(before, after, i as int, key, value);
            }
        }
    }

    proof fn lemma_inserted(
        before: Seq<(Seq<char>, V)>,
        after: Seq<(Seq<char>, V)>,
        i: int,
        key: Seq<char>,
        value: V,
    )
        requires
            name_sorted(before),
            name_sorted(after),
            0 <= i < after.len(),
            after[i] == (key, value),
            (i < before.len() && before[i].0 == key && after == before.update(i, (key, value)))
                || (i <= before.len() && after == before.insert(i, (key, value))),
        ensures
            entries_map(after) == entries_map(before).insert(key, value),
    {
        let shift = after.len() - before.len();
        let m = entries_map(before).insert(key, value);
        lemma_entry_value(after, i);
        assert forall|k: Seq<char>| entries_map(after).contains_key(k) == m.contains_key(k) by {
            if has_name(after, k) && k != key {
                let a = choose|a: int| 0 <= a < after.len() && #[trigger] after[a].0 == k;
                let b = if a < i || shift == 0 { a } else { a - 1 };
                assert(before[b].0 == k);
            }
            if has_name(before, k) {
                let b = choose|b: int| 0 <= b < before.len() && #[trigger] before[b].0 == k;
                let a = if b < i || shift == 0 { b } else { b + 1 };
                assert(after[a].0 == k);
            }
        }
        assert forall|k: Seq<char>| #[trigger] entries_map(after).contains_key(k) implies
            entries_map(after)[k] == m[k] by {
            if k != key {
                let a = choose|a: int| 0 <= a < after.len() && #[trigger] after[a].0 == k;
                let b = if a < i || shift == 0 { a } else { a - 1 };
                assert(before[b] == after[a]);
                lemma_entry_value(after, a);
                lemma_entry_value(before, b);
            }
        }
        assert(entries_map(after) =~= m);
    }
}

} // verus!
