//! Tables: finite maps that keep their entries in the order in which the keys
//! first came.

use vstd::prelude::*;
use crate::values::{Dup, Same};

verus! {

/// The map that a sequence of entries stands for.
pub open spec fn map_of<K, V>(order: Seq<(K, V)>) -> Map<K, V>
    decreases order.len(),
{
    if order.len() == 0 {
        Map::empty()
    } else {
        map_of(order.drop_last()).insert(order.last().0, order.last().1)
    }
}

/// No key occurs twice.
pub open spec fn distinct_keys<K, V>(order: Seq<(K, V)>) -> bool {
    forall|i: int, j: int|
        0 <= i < j < order.len() ==> (#[trigger] order[i]).0 != (#[trigger] order[j]).0
}

/// `order` lists each entry of `m` once.
pub open spec fn lists<K, V>(order: Seq<(K, V)>, m: Map<K, V>) -> bool {
    &&& distinct_keys(order)
    &&& m == map_of(order)
    &&& m.dom().finite()
    &&& order.len() == m.dom().len()
    &&& forall|i: int|
        #![trigger order[i]]
        0 <= i < order.len() ==> m.dom().contains(order[i].0) && m[order[i].0] == order[i].1
    &&& forall|k: K| #[trigger]
        m.dom().contains(k) ==> exists|i: int| 0 <= i < order.len() && (#[trigger] order[i]).0 == k
}

pub proof fn distinct_entries_list<K, V>(order: Seq<(K, V)>)
    requires
        distinct_keys(order),
    ensures
        lists(order, map_of(order)),
    decreases order.len(),
{
    if order.len() > 0 {
        let init = order.drop_last();
        let m = map_of(init);
        assert forall|i: int, j: int| 0 <= i < j < init.len() implies (#[trigger] init[i]).0 != (#[trigger] init[j]).0 by {
            assert(init[i] == order[i] && init[j] == order[j]);
        }
        distinct_entries_list(init);
        assert(!m.dom().contains(order.last().0)) by {
            if m.dom().contains(order.last().0) {
                let i = choose|i: int| 0 <= i < init.len() && (#[trigger] init[i]).0 == order.last().0;
                assert(order[i].0 != order[order.len() - 1].0);
            }
        }
        assert(map_of(order).dom() =~= m.dom().insert(order.last().0));
        assert forall|i: int| #![trigger order[i]] 0 <= i < order.len() implies map_of(order).dom().contains(order[i].0)
            && map_of(order)[order[i].0] == order[i].1 by {
            if i < order.len() - 1 {
                assert(init[i] == order[i]);
                assert(order[i].0 != order[order.len() - 1].0);
            }
        }
        assert forall|k: K| #[trigger] map_of(order).dom().contains(k) implies exists|i: int|
            0 <= i < order.len() && (#[trigger] order[i]).0 == k by {
            if k == order.last().0 {
                assert(order[order.len() - 1].0 == k);
            } else {
                assert(m.dom().contains(k));
                let i = choose|i: int| 0 <= i < init.len() && (#[trigger] init[i]).0 == k;
                assert(order[i].0 == k);
            }
        }
    }
}

/// Whether `k` is the key of an entry.
pub open spec fn has_key<K, V>(order: Seq<(K, V)>, k: K) -> bool {
    exists|i: int| 0 <= i < order.len() && (#[trigger] order[i]).0 == k
}

/// Where the entry with key `k` stands.
pub open spec fn key_index<K, V>(order: Seq<(K, V)>, k: K) -> int {
    choose|i: int| 0 <= i < order.len() && (#[trigger] order[i]).0 == k
}

/// The entries with the value at `k` set: in its place where there is one,
/// behind the others where there is none.
pub open spec fn put<K, V>(order: Seq<(K, V)>, k: K, v: V) -> Seq<(K, V)> {
    if has_key(order, k) {
        order.update(key_index(order, k), (k, v))
    } else {
        order.push((k, v))
    }
}

/// The value at `k`, if there is one.
pub open spec fn at_key<K, V>(order: Seq<(K, V)>, k: K) -> Option<V> {
    if has_key(order, k) {
        Some(order[key_index(order, k)].1)
    } else {
        None
    }
}

/// The entries with the value at `k` set where there was none.
pub open spec fn put_new<K, V>(order: Seq<(K, V)>, k: K, v: V) -> Seq<(K, V)> {
    if has_key(order, k) {
        order
    } else {
        order.push((k, v))
    }
}

/// The entries without that of `k`.
pub open spec fn without<K, V>(order: Seq<(K, V)>, k: K) -> Seq<(K, V)> {
    if has_key(order, k) {
        order.remove(key_index(order, k))
    } else {
        order
    }
}

/// The entries with those of `more` set one after the other.
pub open spec fn put_all<K, V>(order: Seq<(K, V)>, more: Seq<(K, V)>) -> Seq<(K, V)>
    decreases more.len(),
{
    if more.len() == 0 {
        order
    } else {
        put(put_all(order, more.drop_last()), more.last().0, more.last().1)
    }
}

/// The entries with those of `more` added whose keys are new.
pub open spec fn put_all_new<K, V>(order: Seq<(K, V)>, more: Seq<(K, V)>) -> Seq<(K, V)>
    decreases more.len(),
{
    if more.len() == 0 {
        order
    } else {
        put_new(put_all_new(order, more.drop_last()), more.last().0, more.last().1)
    }
}

/// The map with the value at `k` set where there was none.
pub open spec fn with_new<K, V>(m: Map<K, V>, k: K, v: V) -> Map<K, V> {
    if m.dom().contains(k) {
        m
    } else {
        m.insert(k, v)
    }
}

/// A value that was set is found, and setting it changes no other.
pub proof fn put_then_get<K, V>(order: Seq<(K, V)>, k: K, v: V, other: K)
    requires
        distinct_keys(order),
    ensures
        distinct_keys(put(order, k, v)),
        at_key(put(order, k, v), k) == Some(v),
        other != k ==> at_key(put(order, k, v), other) == at_key(order, other),
{
    let after = put(order, k, v);
    assert forall|a: int, b: int| 0 <= a < b < after.len() implies (#[trigger] after[a]).0
        != (#[trigger] after[b]).0 by {
        if b < order.len() {
            assert(after[a].0 == order[a].0 && after[b].0 == order[b].0);
        } else {
            assert(after[a] == order[a]);
        }
    }
    let at = if has_key(order, k) {
        key_index(order, k)
    } else {
        order.len() as int
    };
    assert(after[at].0 == k);
    assert(has_key(after, k));
    assert(key_index(after, k) == at);
    if other != k {
        if has_key(order, other) {
            let i = key_index(order, other);
            assert(after[i].0 == other);
            assert(key_index(after, other) == i);
            assert(after[i] == order[i]);
        }
        if has_key(after, other) {
            let i = key_index(after, other);
            assert(order[i].0 == other);
        }
    }
}

/// A value that was taken out is not found, and taking it out changes no other.
pub proof fn take_out_then_get<K, V>(order: Seq<(K, V)>, k: K, other: K)
    requires
        distinct_keys(order),
    ensures
        distinct_keys(without(order, k)),
        at_key(without(order, k), k) is None,
        other != k ==> at_key(without(order, k), other) == at_key(order, other),
{
    let after = without(order, k);
    if has_key(order, k) {
        let at = key_index(order, k);
        assert forall|a: int, b: int| 0 <= a < b < after.len() implies (#[trigger] after[a]).0
            != (#[trigger] after[b]).0 by {
            let x = if a < at { a } else { a + 1 };
            let y = if b < at { b } else { b + 1 };
            assert(after[a] == order[x] && after[b] == order[y]);
        }
        if has_key(after, k) {
            let i = key_index(after, k);
            let x = if i < at { i } else { i + 1 };
            assert(after[i] == order[x]);
        }
        if other != k {
            if has_key(order, other) {
                let i = key_index(order, other);
                let x = if i < at { i } else { i - 1 };
                assert(after[x] == order[i]);
                assert(after[x].0 == other);
                assert(key_index(after, other) == x);
            }
            if has_key(after, other) {
                let i = key_index(after, other);
                let x = if i < at { i } else { i + 1 };
                assert(order[x].0 == other);
            }
        }
    }
}

/// A finite map from keys to values.
pub struct Table<K: DeepView, V: DeepView> {
    entries: Vec<(K, V)>,
}

impl<K: DeepView, V: DeepView> DeepView for Table<K, V> {
    type V = Map<K::V, V::V>;

    closed spec fn deep_view(&self) -> Map<K::V, V::V> {
        map_of(self.order())
    }
}

impl<K: DeepView, V: DeepView> Table<K, V> {
    /// The entries, in the order in which their keys came.
    pub closed spec fn order(&self) -> Seq<(K::V, V::V)> {
        self.entries.deep_view()
    }

    /// No key has two entries.
    #[verifier::type_invariant]
    pub open spec fn keys_are_distinct(self) -> bool {
        distinct_keys(self.order())
    }

    /// The table without entries.
    pub fn new() -> (t: Self)
        ensures
            t.deep_view() == Map::<K::V, V::V>::empty(),
            t.order() == Seq::<(K::V, V::V)>::empty(),
    {
        let t = Table { entries: Vec::new() };
        assert(t.order() =~= Seq::<(K::V, V::V)>::empty());
        t
    }

    /// How many entries the table has.
    pub fn len(&self) -> (n: usize)
        ensures
            n == self.order().len(),
            n == self.deep_view().dom().len(),
            lists(self.order(), self.deep_view()),
    {
        proof {
            use_type_invariant(self);
            distinct_entries_list(self.order());
        }
        self.entries.len()
    }

    /// The key of the entry at `i`.
    pub fn key(&self, i: usize) -> (k: &K)
        requires
            i < self.order().len(),
        ensures
            k.deep_view() == self.order()[i as int].0,
    {
        &self.entries[i].0
    }

    /// The value of the entry at `i`.
    pub fn value(&self, i: usize) -> (v: &V)
        requires
            i < self.order().len(),
        ensures
            v.deep_view() == self.order()[i as int].1,
    {
        &self.entries[i].1
    }
}

impl<K: Same, V: DeepView> Table<K, V> {
    fn position(&self, k: &K) -> (r: Option<usize>)
        ensures
            match r {
                Some(i) => i < self.order().len() && self.order()[i as int].0 == k.deep_view()
                    && self.deep_view().dom().contains(k.deep_view())
                    && self.deep_view()[k.deep_view()] == self.order()[i as int].1,
                None => !self.deep_view().dom().contains(k.deep_view()) && forall|j: int|
                    0 <= j < self.order().len() ==> (#[trigger] self.order()[j]).0 != k.deep_view(),
            },
    {
        proof {
            use_type_invariant(self);
            distinct_entries_list(self.order());
        }
        let mut i: usize = 0;
        while i < self.entries.len()
            invariant
                i <= self.entries.len(),
                lists(self.order(), self.deep_view()),
                forall|j: int| 0 <= j < i ==> (#[trigger] self.order()[j]).0 != k.deep_view(),
            decreases self.entries.len() - i,
        {
            if self.entries[i].0.same(k) {
                assert(self.order()[i as int].0 == k.deep_view());
                return Some(i);
            }
            i = i + 1;
        }
        None
    }

    /// The value at `k`, if there is one.
    pub fn get(&self, k: &K) -> (r: Option<&V>)
        ensures
            match r {
                Some(v) => self.deep_view().dom().contains(k.deep_view()) && v.deep_view()
                    == self.deep_view()[k.deep_view()] && at_key(self.order(), k.deep_view())
                    == Some(v.deep_view()),
                None => !self.deep_view().dom().contains(k.deep_view()) && at_key(
                    self.order(),
                    k.deep_view(),
                ) is None,
            },
    {
        proof {
            use_type_invariant(self);
        }
        match self.position(k) {
            Some(i) => Some(&self.entries[i].1),
            None => None,
        }
    }

    /// Whether there is a value at `k`.
    pub fn contains_key(&self, k: &K) -> (r: bool)
        ensures
            r == self.deep_view().dom().contains(k.deep_view()),
            r == has_key(self.order(), k.deep_view()),
    {
        match self.position(k) {
            Some(_) => true,
            None => false,
        }
    }

    /// Sets the value at `k`.
    pub fn insert(&mut self, k: K, v: V)
        ensures
            final(self).deep_view() == old(self).deep_view().insert(k.deep_view(), v.deep_view()),
            final(self).order() == put(old(self).order(), k.deep_view(), v.deep_view()),
    {
        let found = self.position(&k);
        proof {
            use_type_invariant(&*self);
            distinct_entries_list(self.order());
        }
        let ghost before = self.order();
        let mut entries: Vec<(K, V)> = Vec::new();
        std::mem::swap(&mut entries, &mut self.entries);
        assert(entries.deep_view() == before);
        match found {
            Some(i) => {
                entries[i] = (k, v);
                proof {
                    assert(entries.deep_view() =~= before.update(
                        i as int,
                        (k.deep_view(), v.deep_view()),
                    ));
                    map_of_update(before, i as int, v.deep_view());
                    assert(before[i as int].0 == k.deep_view());
                    assert(key_index(before, k.deep_view()) == i);
                }
            },
            None => {
                entries.push((k, v));
                proof {
                    let after = before.push((k.deep_view(), v.deep_view()));
                    assert(entries.deep_view() =~= after);
                    assert(after.drop_last() =~= before);
                }
            },
        }
        assert(distinct_keys(entries.deep_view()));
        self.entries = entries;
    }

    /// Sets the value at `k` where there is none.
    pub fn insert_if_absent(&mut self, k: K, v: V)
        ensures
            final(self).deep_view() == with_new(
                old(self).deep_view(),
                k.deep_view(),
                v.deep_view(),
            ),
            final(self).order() == put_new(old(self).order(), k.deep_view(), v.deep_view()),
    {
        if !self.contains_key(&k) {
            self.insert(k, v);
        }
    }

    /// Takes out the value at `k`, if there is one.
    pub fn remove(&mut self, k: &K)
        ensures
            final(self).deep_view() == old(self).deep_view().remove(k.deep_view()),
            final(self).order() == without(old(self).order(), k.deep_view()),
    {
        let found = self.position(k);
        proof {
            use_type_invariant(&*self);
            distinct_entries_list(self.order());
        }
        let ghost before = self.order();
        match found {
            Some(i) => {
                let mut entries: Vec<(K, V)> = Vec::new();
                std::mem::swap(&mut entries, &mut self.entries);
                assert(entries.deep_view() == before);
                entries.remove(i);
                proof {
                    let after = before.remove(i as int);
                    assert(entries.deep_view() =~= after);
                    map_of_remove(before, i as int);
                    assert(before[i as int].0 == k.deep_view());
                    assert(key_index(before, k.deep_view()) == i);
                }
                self.entries = entries;
            },
            None => {
                assert(self.deep_view().remove(k.deep_view()) =~= self.deep_view());
            },
        }
    }
}

proof fn map_of_update<K, V>(order: Seq<(K, V)>, i: int, v: V)
    requires
        distinct_keys(order),
        0 <= i < order.len(),
    ensures
        distinct_keys(order.update(i, (order[i].0, v))),
        map_of(order.update(i, (order[i].0, v))) == map_of(order).insert(order[i].0, v),
{
    let after = order.update(i, (order[i].0, v));
    assert forall|a: int, b: int| 0 <= a < b < after.len() implies (#[trigger] after[a]).0 != (#[trigger] after[b]).0 by {
        assert(after[a].0 == order[a].0 && after[b].0 == order[b].0);
    }
    distinct_entries_list(order);
    distinct_entries_list(after);
    let m = map_of(order).insert(order[i].0, v);
    assert forall|k: K| map_of(after).dom().contains(k) <==> m.dom().contains(k) by {
        if map_of(after).dom().contains(k) {
            let j = choose|j: int| 0 <= j < after.len() && (#[trigger] after[j]).0 == k;
            assert(order[j].0 == k);
        }
        if m.dom().contains(k) {
            if k == order[i].0 {
                assert(after[i].0 == k);
            } else {
                let j = choose|j: int| 0 <= j < order.len() && (#[trigger] order[j]).0 == k;
                assert(after[j].0 == k);
            }
        }
    }
    assert forall|k: K| map_of(after).dom().contains(k) implies map_of(after)[k] == m[k] by {
        let j = choose|j: int| 0 <= j < after.len() && (#[trigger] after[j]).0 == k;
        assert(order[j].0 == k);
    }
    assert(map_of(after) =~= m);
}

proof fn map_of_remove<K, V>(order: Seq<(K, V)>, i: int)
    requires
        distinct_keys(order),
        0 <= i < order.len(),
    ensures
        distinct_keys(order.remove(i)),
        map_of(order.remove(i)) == map_of(order).remove(order[i].0),
{
    let after = order.remove(i);
    assert forall|a: int, b: int| 0 <= a < b < after.len() implies (#[trigger] after[a]).0 != (#[trigger] after[b]).0 by {
        let a2 = if a < i { a } else { a + 1 };
        let b2 = if b < i { b } else { b + 1 };
        assert(after[a] == order[a2] && after[b] == order[b2]);
    }
    distinct_entries_list(order);
    distinct_entries_list(after);
    let m = map_of(order).remove(order[i].0);
    assert forall|k: K| map_of(after).dom().contains(k) <==> m.dom().contains(k) by {
        if map_of(after).dom().contains(k) {
            let j = choose|j: int| 0 <= j < after.len() && (#[trigger] after[j]).0 == k;
            let j2 = if j < i { j } else { j + 1 };
            assert(order[j2].0 == k);
        }
        if m.dom().contains(k) {
            let j = choose|j: int| 0 <= j < order.len() && (#[trigger] order[j]).0 == k;
            let j2 = if j < i { j } else { j - 1 };
            assert(after[j2].0 == k);
        }
    }
    assert forall|k: K| map_of(after).dom().contains(k) implies map_of(after)[k] == m[k] by {
        let j = choose|j: int| 0 <= j < after.len() && (#[trigger] after[j]).0 == k;
        let j2 = if j < i { j } else { j + 1 };
        assert(order[j2].0 == k);
    }
    assert(map_of(after) =~= m);
}

impl<V: DeepView> Table<String, V> {
    /// The value at `name`, if there is one.
    pub fn named(&self, name: &str) -> (r: Option<&V>)
        ensures
            match r {
                Some(v) => self.deep_view().dom().contains(name@) && v.deep_view()
                    == self.deep_view()[name@] && at_key(self.order(), name@) == Some(
                    v.deep_view(),
                ),
                None => !self.deep_view().dom().contains(name@) && at_key(
                    self.order(),
                    name@,
                ) is None,
            },
    {
        let key = name.to_owned();
        self.get(&key)
    }

    /// Whether there is a value at `name`.
    pub fn has_name(&self, name: &str) -> (r: bool)
        ensures
            r == self.deep_view().dom().contains(name@),
            r == has_key(self.order(), name@),
    {
        let key = name.to_owned();
        self.contains_key(&key)
    }
}

impl<K: Same + Dup, V: Dup> Table<K, V> {
    /// Sets every value that `other` has.
    pub fn put_all(&mut self, other: &Self)
        ensures
            final(self).deep_view() == old(self).deep_view().union_prefer_right(
                other.deep_view(),
            ),
            final(self).order() == put_all(old(self).order(), other.order()),
    {
        let ghost m0 = self.deep_view();
        let ghost o0 = self.order();
        let ghost all = other.order();
        let n = other.len();
        let mut i: usize = 0;
        assert(all.take(0) =~= Seq::empty());
        assert(m0.union_prefer_right(map_of(all.take(0))) =~= m0);
        while i < n
            invariant
                i <= n,
                n == all.len(),
                all == other.order(),
                self.order() == put_all(o0, all.take(i as int)),
                self.deep_view() == m0.union_prefer_right(map_of(all.take(i as int))),
            decreases n - i,
        {
            let ghost done = map_of(all.take(i as int));
            proof {
                assert(all.take(i + 1).drop_last() =~= all.take(i as int));
                assert(all.take(i + 1).last() == all[i as int]);
            }
            self.insert(other.key(i).dup(), other.value(i).dup());
            proof {
                let e = all[i as int];
                assert(m0.union_prefer_right(done).insert(e.0, e.1) =~= m0.union_prefer_right(
                    done.insert(e.0, e.1),
                ));
            }
            i = i + 1;
        }
        assert(all.take(i as int) =~= all);
    }

    /// Sets every value that `other` has and this table has not.
    pub fn put_all_new(&mut self, other: &Self)
        ensures
            final(self).deep_view() == other.deep_view().union_prefer_right(
                old(self).deep_view(),
            ),
            final(self).order() == put_all_new(old(self).order(), other.order()),
    {
        let ghost m0 = self.deep_view();
        let ghost o0 = self.order();
        let ghost all = other.order();
        let n = other.len();
        let mut i: usize = 0;
        assert(all.take(0) =~= Seq::empty());
        assert(map_of(all.take(0)).union_prefer_right(m0) =~= m0);
        while i < n
            invariant
                i <= n,
                n == all.len(),
                all == other.order(),
                distinct_keys(all),
                self.order() == put_all_new(o0, all.take(i as int)),
                self.deep_view() == map_of(all.take(i as int)).union_prefer_right(m0),
            decreases n - i,
        {
            let ghost done = map_of(all.take(i as int));
            let ghost e = all[i as int];
            proof {
                assert(all.take(i + 1).drop_last() =~= all.take(i as int));
                assert(all.take(i + 1).last() == e);
                distinct_entries_list(all.take(i as int));
                if done.dom().contains(e.0) {
                    let j = choose|j: int|
                        0 <= j < all.take(i as int).len() && (#[trigger] all.take(
                            i as int,
                        )[j]).0 == e.0;
                    assert(all[j].0 == e.0);
                }
            }
            self.insert_if_absent(other.key(i).dup(), other.value(i).dup());
            proof {
                assert(with_new(done.union_prefer_right(m0), e.0, e.1) =~= done.insert(
                    e.0,
                    e.1,
                ).union_prefer_right(m0));
            }
            i = i + 1;
        }
        assert(all.take(i as int) =~= all);
    }
}

impl<K: Dup, V: Dup> Dup for Table<K, V> {
    fn dup(&self) -> (r: Self)
        ensures
            r.order() == self.order(),
    {
        proof {
            use_type_invariant(self);
        }
        Table { entries: self.entries.dup() }
    }
}

} // verus!
