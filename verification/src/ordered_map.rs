//! A map kept as a vector of entries in ascending key order.
//!
//! The order makes every walk over a map deterministic, and makes the stored
//! form of a map a function of its contents alone.

use vstd::prelude::*;

verus! {

/// A key with a total order, given by an injective rank.
pub trait Key: Copy {
    /// The position of the key in the order.
    spec fn key_rank(&self) -> int;

    /// Distinct keys have distinct ranks.
    proof fn rank_is_injective(a: Self, b: Self)
        requires
            a.key_rank() == b.key_rank(),
        ensures
            a == b,
    ;

    /// Whether `self` comes strictly before `other`.
    fn key_before(&self, other: &Self) -> (b: bool)
        ensures
            b == (self.key_rank() < other.key_rank()),
    ;
}

/// Whether the keys of `s` strictly ascend.
pub open spec fn ascending<K: Key, V>(s: Seq<(K, V)>) -> bool {
    forall|i: int, j: int| 0 <= i < j < s.len() ==> (#[trigger] s[i]).0.key_rank() < (#[trigger] s[j]).0.key_rank()
}

/// Whether some entry of `s` has the key `key`.
pub open spec fn has_key<K: Key, V>(s: Seq<(K, V)>, key: K) -> bool {
    exists|i: int| 0 <= i < s.len() && (#[trigger] s[i]).0 == key
}

/// The index of an entry of `s` with the key `key`.
pub open spec fn position<K: Key, V>(s: Seq<(K, V)>, key: K) -> int {
    choose|i: int| 0 <= i < s.len() && (#[trigger] s[i]).0 == key
}

/// The map that a sequence of entries stands for.
pub open spec fn entries_map<K: Key, V>(s: Seq<(K, V)>) -> Map<K, V> {
    Map::new(|key: K| has_key(s, key), |key: K| s[position(s, key)].1)
}

/// Each entry of an ascending sequence is what the map holds under its key.
pub proof fn lemma_entry_in_map<K: Key, V>(s: Seq<(K, V)>, i: int)
    requires
        ascending(s),
        0 <= i < s.len(),
    ensures
        entries_map(s).contains_key(s[i].0),
        entries_map(s)[s[i].0] == s[i].1,
        position(s, s[i].0) == i,
{
    let key = s[i].0;
    assert(has_key(s, key));
    let j = position(s, key);
    assert(s[j].0 == key);
    if j < i {
        assert(s[j].0.key_rank() < s[i].0.key_rank());
    } else if i < j {
        assert(s[i].0.key_rank() < s[j].0.key_rank());
    }
}

/// Two ascending sequences that stand for the same map are the same sequence.
pub proof fn lemma_entries_unique<K: Key, V>(s: Seq<(K, V)>, t: Seq<(K, V)>)
    requires
        ascending(s),
        ascending(t),
        entries_map(s) == entries_map(t),
    ensures
        s == t,
    decreases s.len(),
{
    if s.len() == 0 {
        if t.len() > 0 {
            lemma_entry_in_map(t, 0);
            assert(has_key(s, t[0].0));
        }
        assert(s =~= t);
    } else if t.len() == 0 {
        lemma_entry_in_map(s, 0);
        assert(has_key(t, s[0].0));
    } else {
        // The last entries agree: each is the entry of greatest rank.
        let ls = s.len() - 1;
        let lt = t.len() - 1;
        lemma_entry_in_map(s, ls);
        lemma_entry_in_map(t, lt);
        assert(has_key(t, s[ls].0));
        assert(has_key(s, t[lt].0));
        let a = position(t, s[ls].0);
        let b = position(s, t[lt].0);
        assert(t[a].0 == s[ls].0);
        assert(s[b].0 == t[lt].0);
        if a < lt {
            assert(t[a].0.key_rank() < t[lt].0.key_rank());
            if b < ls {
                assert(s[b].0.key_rank() < s[ls].0.key_rank());
            }
        }
        assert(a == lt);
        lemma_entry_in_map(t, a);
        assert(s[ls] == t[lt]);
        let s0 = s.drop_last();
        let t0 = t.drop_last();
        assert(ascending(s0));
        assert(ascending(t0));
        assert forall|key: K| has_key(s0, key) == has_key(t0, key) by {
            lemma_drop_last_keys(s, key);
            lemma_drop_last_keys(t, key);
            assert(entries_map(s).contains_key(key) == has_key(s, key));
            assert(entries_map(t).contains_key(key) == has_key(t, key));
            assert(s.last() == s[ls]);
            assert(t.last() == t[lt]);
        }
        assert forall|key: K| has_key(s0, key) implies #[trigger] entries_map(s0)[key] == entries_map(
            t0,
        )[key] by {
            lemma_drop_last_keys(s, key);
            lemma_drop_last_keys(t, key);
            let i = position(s0, key);
            let j = position(t0, key);
            lemma_entry_in_map(s, i);
            lemma_entry_in_map(t, j);
            assert(s0[i] == s[i]);
            assert(t0[j] == t[j]);
            assert(entries_map(s)[key] == entries_map(t)[key]);
        }
        assert(entries_map(s0) =~= entries_map(t0));
        lemma_entries_unique(s0, t0);
        assert(s =~= s0.push(s[ls]));
        assert(t =~= t0.push(t[lt]));
    }
}

/// The keys of an ascending sequence without its last entry are its keys but
/// the last.
proof fn lemma_drop_last_keys<K: Key, V>(s: Seq<(K, V)>, key: K)
    requires
        ascending(s),
        s.len() > 0,
    ensures
        has_key(s.drop_last(), key) <==> (has_key(s, key) && key != s.last().0),
{
    let s0 = s.drop_last();
    if has_key(s0, key) {
        let i = position(s0, key);
        assert(s[i].0 == key);
        assert(s[i].0.key_rank() < s[s.len() - 1].0.key_rank());
    }
    if has_key(s, key) && key != s.last().0 {
        let i = position(s, key);
        assert(s0[i].0 == key);
    }
}

/// The entries of `m` in ascending order of their keys, where `m` has such a
/// listing.
pub open spec fn sorted_entries<K: Key, V>(m: Map<K, V>) -> Seq<(K, V)> {
    choose|s: Seq<(K, V)>| ascending(s) && entries_map(s) == m
}

/// An ascending sequence is the listing of the map that it stands for.
pub proof fn lemma_sorted_entries<K: Key, V>(s: Seq<(K, V)>)
    requires
        ascending(s),
    ensures
        sorted_entries(entries_map(s)) == s,
{
    let t = sorted_entries(entries_map(s));
    lemma_entries_unique(s, t);
}

/// The entries of `s`, each value taken by its view.
pub open spec fn value_views<K: Key, V: View>(s: Seq<(K, V)>) -> Seq<(K, V::V)> {
    s.map_values(|entry: (K, V)| (entry.0, entry.1@))
}

/// The map of the entries taken by view is the map of the entries, each value
/// taken by its view.
pub proof fn lemma_value_views<K: Key, V: View>(s: Seq<(K, V)>)
    requires
        ascending(s),
    ensures
        ascending(value_views(s)),
        entries_map(value_views(s)) == entries_map(s).map_values(|value: V| value@),
{
    let views = value_views(s);
    assert forall|i: int, j: int| 0 <= i < j < views.len() implies (#[trigger] views[i]).0.key_rank() < (
    #[trigger] views[j]).0.key_rank() by {
        assert(s[i].0.key_rank() < s[j].0.key_rank());
    }
    let left = entries_map(views);
    let right = entries_map(s).map_values(|value: V| value@);
    assert forall|key: K| left.contains_key(key) == right.contains_key(key) by {
        if left.contains_key(key) {
            let i = position(views, key);
            assert(s[i].0 == key);
        }
        if right.contains_key(key) {
            let i = position(s, key);
            assert(views[i].0 == key);
        }
    }
    assert forall|key: K| left.contains_key(key) implies #[trigger] left[key] == right[key] by {
        let i = position(views, key);
        lemma_entry_in_map(views, i);
        lemma_entry_in_map(s, i);
    }
    assert(left =~= right);
}

/// A map from keys to values, held in ascending key order.
pub struct OrderedMap<K: Key, V> {
    entries: Vec<(K, V)>,
}

impl<K: Key, V> OrderedMap<K, V> {
    /// The entries, in ascending key order.
    pub closed spec fn entries(&self) -> Seq<(K, V)> {
        self.entries@
    }

    /// The keys strictly ascend.
    pub open spec fn wf(&self) -> bool {
        ascending(self.entries())
    }

    /// The map that the entries stand for.
    pub open spec fn view(&self) -> Map<K, V> {
        entries_map(self.entries())
    }

    /// A map without entries.
    pub fn new() -> (m: Self)
        ensures
            m.wf(),
            m.entries() == Seq::<(K, V)>::empty(),
            m@ == Map::<K, V>::empty(),
    {
        let m = OrderedMap { entries: Vec::new() };
        assert(m@ =~= Map::<K, V>::empty());
        m
    }

    /// The number of entries.
    pub fn len(&self) -> (n: usize)
        ensures
            n == self.entries().len(),
    {
        self.entries.len()
    }

    /// Whether the map has no entries.
    pub fn is_empty(&self) -> (b: bool)
        ensures
            b == (self.entries().len() == 0),
    {
        self.entries.len() == 0
    }

    /// Where `key` stands, or where it would be put: the index of the first
    /// entry whose key does not come before `key`, and whether that entry has
    /// the key.
    pub fn search(&self, key: K) -> (out: (bool, usize))
        requires
            self.wf(),
        ensures
            out.1 <= self.entries().len(),
            forall|i: int| 0 <= i < out.1 ==> (#[trigger] self.entries()[i]).0.key_rank() < key.key_rank(),
            out.0 ==> out.1 < self.entries().len() && self.entries()[out.1 as int].0 == key,
            !out.0 ==> forall|i: int|
                out.1 <= i < self.entries().len() ==> key.key_rank() < (#[trigger] self.entries()[i]).0.key_rank(),
            out.0 == self@.contains_key(key),
            out.0 ==> self@[key] == self.entries()[out.1 as int].1,
    {
        let mut lo: usize = 0;
        let mut hi: usize = self.entries.len();
        while lo < hi
            invariant
                self.wf(),
                lo <= hi <= self.entries@.len(),
                forall|i: int| 0 <= i < lo ==> (#[trigger] self.entries@[i]).0.key_rank() < key.key_rank(),
                forall|i: int|
                    hi <= i < self.entries@.len() ==> !((#[trigger] self.entries@[i]).0.key_rank()
                        < key.key_rank()),
            decreases hi - lo,
        {
            let mid = lo + (hi - lo) / 2;
            if self.entries[mid].0.key_before(&key) {
                assert forall|i: int| 0 <= i < mid + 1 implies (#[trigger] self.entries@[i]).0.key_rank()
                    < key.key_rank() by {
                    if i < mid {
                        assert(self.entries@[i].0.key_rank() < self.entries@[mid as int].0.key_rank());
                    }
                }
                lo = mid + 1;
            } else {
                assert forall|i: int| mid <= i < self.entries@.len() implies !((
                #[trigger] self.entries@[i]).0.key_rank() < key.key_rank()) by {
                    if mid < i {
                        assert(self.entries@[mid as int].0.key_rank() < self.entries@[i].0.key_rank());
                    }
                }
                hi = mid;
            }
        }
        let found = lo < self.entries.len() && !key.key_before(&self.entries[lo].0);
        proof {
            let s = self.entries@;
            if found {
                K::rank_is_injective(s[lo as int].0, key);
                lemma_entry_in_map(s, lo as int);
            } else {
                assert forall|i: int| lo <= i < s.len() implies key.key_rank() < (#[trigger] s[i]).0.key_rank() by {
                    if lo < i {
                        assert(s[lo as int].0.key_rank() < s[i].0.key_rank());
                    }
                }
                if has_key(s, key) {
                    let i = position(s, key);
                    assert(s[i].0 == key);
                }
            }
        }
        (found, lo)
    }

    /// Whether an entry stands under `key`.
    pub fn contains_key(&self, key: K) -> (b: bool)
        requires
            self.wf(),
        ensures
            b == self@.contains_key(key),
    {
        self.search(key).0
    }

    /// The index of the entry under `key`.
    pub fn index_of(&self, key: K) -> (out: Option<usize>)
        requires
            self.wf(),
        ensures
            out is Some <==> self@.contains_key(key),
            out matches Some(i) ==> i < self.entries().len() && self.entries()[i as int].0 == key
                && self.entries()[i as int].1 == self@[key],
    {
        let (found, i) = self.search(key);
        if found {
            Some(i)
        } else {
            None
        }
    }

    /// The value under `key`.
    pub fn get(&self, key: K) -> (out: Option<&V>)
        requires
            self.wf(),
        ensures
            out is Some <==> self@.contains_key(key),
            out matches Some(v) ==> *v == self@[key],
    {
        let (found, i) = self.search(key);
        if found {
            Some(&self.entries[i].1)
        } else {
            None
        }
    }

    /// The key of the `i`-th entry in ascending order.
    pub fn key_at(&self, i: usize) -> (key: K)
        requires
            i < self.entries().len(),
        ensures
            key == self.entries()[i as int].0,
    {
        self.entries[i].0
    }

    /// The value of the `i`-th entry in ascending order.
    pub fn value_at(&self, i: usize) -> (value: &V)
        requires
            i < self.entries().len(),
        ensures
            *value == self.entries()[i as int].1,
    {
        &self.entries[i].1
    }

    /// Puts `value` in place of the value of the `i`-th entry and hands the
    /// old value out.
    pub fn replace_at(&mut self, i: usize, value: V) -> (previous: V)
        requires
            old(self).wf(),
            i < old(self).entries().len(),
        ensures
            final(self).wf(),
            final(self).entries() == old(self).entries().update(
                i as int,
                (old(self).entries()[i as int].0, value),
            ),
            final(self)@ == old(self)@.insert(old(self).entries()[i as int].0, value),
            previous == old(self).entries()[i as int].1,
    {
        let ghost before = self.entries@;
        let ghost given = value;
        let mut value = value;
        let slot = &mut self.entries[i];
        core::mem::swap(&mut slot.1, &mut value);
        proof {
            let after = self.entries@;
            assert(after =~= before.update(i as int, (before[i as int].0, given)));
            lemma_update_map(before, i as int, after[i as int].1);
        }
        value
    }

    /// The value of the `i`-th entry, to be changed in place.
    pub fn value_at_mut(&mut self, i: usize) -> (value: &mut V)
        requires
            i < old(self).entries().len(),
        ensures
            *value == old(self).entries()[i as int].1,
            final(self).entries() == old(self).entries().update(
                i as int,
                (old(self).entries()[i as int].0, *final(value)),
            ),
    {
        let slot = &mut self.entries[i];
        &mut slot.1
    }

    /// Puts an entry behind all others; its key comes after every key held.
    pub fn push_last(&mut self, key: K, value: V)
        requires
            old(self).wf(),
            forall|i: int|
                0 <= i < old(self).entries().len() ==> (#[trigger] old(self).entries()[i]).0.key_rank()
                    < key.key_rank(),
        ensures
            final(self).wf(),
            final(self).entries() == old(self).entries().push((key, value)),
            final(self)@ == old(self)@.insert(key, value),
    {
        let ghost before = self.entries@;
        self.entries.push((key, value));
        proof {
            assert(before.push((key, value)) =~= before.insert(before.len() as int, (key, value)));
            lemma_insert_map(before, before.len() as int, key, value);
        }
    }

    /// Takes the map apart into its entries, in ascending key order.
    pub fn into_entries(self) -> (entries: Vec<(K, V)>)
        ensures
            entries@ == self.entries(),
    {
        self.entries
    }

    /// Puts `value` under `key` and hands out what was there.
    pub fn insert(&mut self, key: K, value: V) -> (previous: Option<V>)
        requires
            old(self).wf(),
        ensures
            final(self).wf(),
            final(self)@ == old(self)@.insert(key, value),
            previous is Some <==> old(self)@.contains_key(key),
            previous matches Some(v) ==> v == old(self)@[key],
    {
        let (found, i) = self.search(key);
        if found {
            Some(self.replace_at(i, value))
        } else {
            let ghost before = self.entries@;
            self.entries.insert(i, (key, value));
            proof {
                lemma_insert_map(before, i as int, key, value);
            }
            None
        }
    }

    /// Takes out what stands under `key`.
    pub fn remove(&mut self, key: K) -> (previous: Option<V>)
        requires
            old(self).wf(),
        ensures
            final(self).wf(),
            final(self)@ == old(self)@.remove(key),
            previous is Some <==> old(self)@.contains_key(key),
            previous matches Some(v) ==> v == old(self)@[key],
    {
        let (found, i) = self.search(key);
        if found {
            let ghost before = self.entries@;
            let (_, previous) = self.entries.remove(i);
            proof {
                lemma_remove_map(before, i as int);
            }
            Some(previous)
        } else {
            assert(self@ =~= self@.remove(key));
            None
        }
    }
}

impl<K: Key, V: Copy> OrderedMap<K, V> {
    /// A copy with the same entries.
    pub fn duplicate(&self) -> (copy: Self)
        ensures
            copy.entries() == self.entries(),
    {
        let mut entries: Vec<(K, V)> = Vec::new();
        let n = self.entries.len();
        let mut i: usize = 0;
        while i < n
            invariant
                n == self.entries@.len(),
                i <= n,
                entries@ == self.entries@.take(i as int),
            decreases n - i,
        {
            let ghost before = entries@;
            entries.push((self.entries[i].0, self.entries[i].1));
            proof {
                assert(self.entries@.take(i as int + 1) =~= before.push(self.entries@[i as int]));
            }
            i = i + 1;
        }
        proof {
            assert(self.entries@.take(n as int) =~= self.entries@);
        }
        OrderedMap { entries }
    }
}

/// Replacing the value of one entry replaces it in the map.
pub proof fn lemma_update_map<K: Key, V>(s: Seq<(K, V)>, i: int, value: V)
    requires
        ascending(s),
        0 <= i < s.len(),
    ensures
        ascending(s.update(i, (s[i].0, value))),
        entries_map(s.update(i, (s[i].0, value))) == entries_map(s).insert(s[i].0, value),
{
    let t = s.update(i, (s[i].0, value));
    assert forall|a: int, b: int| 0 <= a < b < t.len() implies (#[trigger] t[a]).0.key_rank() < (
    #[trigger] t[b]).0.key_rank() by {
        assert(s[a].0.key_rank() < s[b].0.key_rank());
    }
    let m = entries_map(s).insert(s[i].0, value);
    assert forall|key: K| entries_map(t).contains_key(key) == m.contains_key(key) by {
        if has_key(t, key) {
            let j = position(t, key);
            assert(s[j].0 == key);
        }
        if has_key(s, key) {
            let j = position(s, key);
            assert(t[j].0 == key);
        }
        if key == s[i].0 {
            assert(t[i].0 == key);
        }
    }
    assert forall|key: K| entries_map(t).contains_key(key) implies #[trigger] entries_map(t)[key] == m[key] by {
        let j = position(t, key);
        lemma_entry_in_map(t, j);
        if j != i {
            assert(s[j] == t[j]);
            lemma_entry_in_map(s, j);
            lemma_entry_in_map(s, i);
        }
    }
    assert(entries_map(t) =~= m);
}

/// Putting an entry where its key belongs puts it into the map.
pub proof fn lemma_insert_map<K: Key, V>(s: Seq<(K, V)>, i: int, key: K, value: V)
    requires
        ascending(s),
        0 <= i <= s.len(),
        forall|j: int| 0 <= j < i ==> (#[trigger] s[j]).0.key_rank() < key.key_rank(),
        forall|j: int| i <= j < s.len() ==> key.key_rank() < (#[trigger] s[j]).0.key_rank(),
    ensures
        ascending(s.insert(i, (key, value))),
        entries_map(s.insert(i, (key, value))) == entries_map(s).insert(key, value),
{
    let t = s.insert(i, (key, value));
    assert forall|a: int, b: int| 0 <= a < b < t.len() implies (#[trigger] t[a]).0.key_rank() < (
    #[trigger] t[b]).0.key_rank() by {
        if a < i {
            assert(t[a] == s[a]);
            if b < i {
                assert(t[b] == s[b]);
                assert(s[a].0.key_rank() < s[b].0.key_rank());
            } else if b > i {
                assert(t[b] == s[b - 1]);
                if a < b - 1 {
                    assert(s[a].0.key_rank() < s[b - 1].0.key_rank());
                }
            }
        } else if a == i {
            assert(t[b] == s[b - 1]);
        } else {
            assert(t[a] == s[a - 1]);
            assert(t[b] == s[b - 1]);
            assert(s[a - 1].0.key_rank() < s[b - 1].0.key_rank());
        }
    }
    let m = entries_map(s).insert(key, value);
    assert forall|k: K| entries_map(t).contains_key(k) == m.contains_key(k) by {
        if has_key(t, k) {
            let j = position(t, k);
            if j < i {
                assert(s[j].0 == k);
            } else if j > i {
                assert(s[j - 1].0 == k);
            }
        }
        if has_key(s, k) {
            let j = position(s, k);
            if j < i {
                assert(t[j].0 == k);
            } else {
                assert(t[j + 1].0 == k);
            }
        }
        if k == key {
            assert(t[i].0 == k);
        }
    }
    assert forall|k: K| entries_map(t).contains_key(k) implies #[trigger] entries_map(t)[k] == m[k] by {
        let j = position(t, k);
        lemma_entry_in_map(t, j);
        if j < i {
            assert(t[j] == s[j]);
            lemma_entry_in_map(s, j);
        } else if j > i {
            assert(t[j] == s[j - 1]);
            lemma_entry_in_map(s, j - 1);
        }
    }
    assert(entries_map(t) =~= m);
}

/// Taking an entry out takes its key out of the map.
pub proof fn lemma_remove_map<K: Key, V>(s: Seq<(K, V)>, i: int)
    requires
        ascending(s),
        0 <= i < s.len(),
    ensures
        ascending(s.remove(i)),
        entries_map(s.remove(i)) == entries_map(s).remove(s[i].0),
{
    let t = s.remove(i);
    assert forall|a: int, b: int| 0 <= a < b < t.len() implies (#[trigger] t[a]).0.key_rank() < (
    #[trigger] t[b]).0.key_rank() by {
        let a0 = if a < i { a } else { a + 1 };
        let b0 = if b < i { b } else { b + 1 };
        assert(t[a] == s[a0]);
        assert(t[b] == s[b0]);
        assert(s[a0].0.key_rank() < s[b0].0.key_rank());
    }
    let m = entries_map(s).remove(s[i].0);
    assert forall|k: K| entries_map(t).contains_key(k) == m.contains_key(k) by {
        if has_key(t, k) {
            let j = position(t, k);
            let j0 = if j < i { j } else { j + 1 };
            assert(s[j0].0 == k);
            if j0 < i {
                assert(s[j0].0.key_rank() < s[i].0.key_rank());
            } else {
                assert(s[i].0.key_rank() < s[j0].0.key_rank());
            }
        }
        if has_key(s, k) && k != s[i].0 {
            let j = position(s, k);
            if j < i {
                assert(t[j].0 == k);
            } else {
                assert(t[j - 1].0 == k);
            }
        }
    }
    assert forall|k: K| entries_map(t).contains_key(k) implies #[trigger] entries_map(t)[k] == m[k] by {
        let j = position(t, k);
        lemma_entry_in_map(t, j);
        let j0 = if j < i { j } else { j + 1 };
        assert(t[j] == s[j0]);
        lemma_entry_in_map(s, j0);
    }
    assert(entries_map(t) =~= m);
}

} // verus!
