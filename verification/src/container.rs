//! The container type and its mathematical model.
//!
//! A [`Container`] is an unordered key-value store built once from
//! caller-supplied entries. Its model is a `Map<K, V>`, obtained by folding the
//! stored entries in order with later entries overwriting earlier ones
//! ([`map_of`]); the representation invariant keeps the stored keys pairwise
//! distinct, so the fold is also a bijection onto the model.

use vstd::prelude::*;
use vstd::std_specs::cmp::PartialEqSpec;
use vstd::pervasive::VecAdditionalExecFns;

verus! {

/// The map described by a sequence of entries: each pair is inserted in
/// order, so among pairs sharing a key the latest one wins.
pub open spec fn map_of<K, V>(s: Seq<(K, V)>) -> Map<K, V>
    decreases s.len(),
{
    if s.len() == 0 {
        Map::empty()
    } else {
        map_of(s.drop_last()).insert(s.last().0, s.last().1)
    }
}

/// No key occurs twice in the sequence of entries.
pub open spec fn distinct_keys<K, V>(s: Seq<(K, V)>) -> bool {
    forall|i: int, j: int| 0 <= i < j < s.len() ==> (#[trigger] s[i]).0 != (#[trigger] s[j]).0
}

/// The executable equality of `K` decides exactly spec equality. Every key
/// type used with the containers here is expected to satisfy this; it is the
/// formal counterpart of the requirement that keys support a well-behaved
/// equality comparison.
pub open spec fn eq_agrees<K: PartialEq>() -> bool {
    &&& K::obeys_eq_spec()
    &&& forall|a: K, b: K| #[trigger] a.eq_spec(&b) <==> a == b
}

/// A key occurs in `map_of(s)` exactly when some entry of `s` carries it.
pub proof fn lemma_map_of_dom<K, V>(s: Seq<(K, V)>, k: K)
    ensures
        map_of(s).contains_key(k) <==> exists|i: int| 0 <= i < s.len() && (#[trigger] s[i]).0 == k,
    decreases s.len(),
{
    if s.len() > 0 {
        lemma_map_of_dom(s.drop_last(), k);
        if s.last().0 == k {
            assert(s[s.len() - 1].0 == k);
        } else if map_of(s).contains_key(k) {
            let i = choose|i: int| 0 <= i < s.drop_last().len() && (#[trigger] s.drop_last()[i]).0 == k;
            assert(s[i].0 == k);
        } else {
            assert(forall|i: int| 0 <= i < s.len() - 1 ==> (#[trigger] s[i]) == s.drop_last()[i]);
        }
    }
}

/// The domain of `map_of(s)` is finite, and when the keys of `s` are distinct
/// it has exactly one element per entry.
pub proof fn lemma_map_of_len<K, V>(s: Seq<(K, V)>)
    ensures
        map_of(s).dom().finite(),
        distinct_keys(s) ==> map_of(s).len() == s.len(),
    decreases s.len(),
{
    if s.len() > 0 {
        lemma_map_of_len(s.drop_last());
        if distinct_keys(s) {
            assert(forall|i: int| 0 <= i < s.len() - 1 ==> (#[trigger] s[i]) == s.drop_last()[i]);
            lemma_map_of_dom(s.drop_last(), s.last().0);
        }
    }
}

/// Under distinct keys, the entry carrying a key determines the value that
/// `map_of` associates to it.
pub proof fn lemma_map_of_index<K, V>(s: Seq<(K, V)>, i: int)
    requires
        distinct_keys(s),
        0 <= i < s.len(),
    ensures
        map_of(s).contains_key(s[i].0),
        map_of(s)[s[i].0] == s[i].1,
    decreases s.len(),
{
    if i < s.len() - 1 {
        assert(s.drop_last()[i] == s[i]);
        lemma_map_of_index(s.drop_last(), i);
    }
}

/// Appending one entry to the sequence inserts it into the model.
pub proof fn lemma_map_of_push<K, V>(s: Seq<(K, V)>, k: K, v: V)
    ensures
        map_of(s.push((k, v))) == map_of(s).insert(k, v),
{
    assert(s.push((k, v)).drop_last() =~= s);
}

/// Folding a concatenation folds the two halves and lets the right half win
/// key collisions.
pub proof fn lemma_map_of_concat<K, V>(s1: Seq<(K, V)>, s2: Seq<(K, V)>)
    ensures
        map_of(s1 + s2) == map_of(s1).union_prefer_right(map_of(s2)),
    decreases s2.len(),
{
    if s2.len() == 0 {
        assert(s1 + s2 =~= s1);
        assert(map_of(s1).union_prefer_right(map_of(s2)) =~= map_of(s1));
    } else {
        lemma_map_of_concat(s1, s2.drop_last());
        assert((s1 + s2).drop_last() =~= s1 + s2.drop_last());
        assert((s1 + s2).last() == s2.last());
        assert(map_of(s1).union_prefer_right(map_of(s2.drop_last())).insert(
            s2.last().0,
            s2.last().1,
        ) =~= map_of(s1).union_prefer_right(
            map_of(s2.drop_last()).insert(s2.last().0, s2.last().1),
        ));
    }
}

/// Overwriting the entry that carries a key is, on the model, an insertion of
/// the new value at that key.
pub proof fn lemma_map_of_update<K, V>(s: Seq<(K, V)>, i: int, k: K, v: V)
    requires
        distinct_keys(s),
        0 <= i < s.len(),
        s[i].0 == k,
    ensures
        map_of(s.update(i, (k, v))) == map_of(s).insert(k, v),
    decreases s.len(),
{
    let t = s.update(i, (k, v));
    if i == s.len() - 1 {
        assert(t.drop_last() =~= s.drop_last());
        assert(map_of(t) == map_of(s.drop_last()).insert(k, v));
        assert(map_of(s.drop_last()).insert(s.last().0, s.last().1).insert(k, v)
            =~= map_of(s.drop_last()).insert(k, v));
    } else {
        assert(t.drop_last() =~= s.drop_last().update(i, (k, v)));
        assert(s.drop_last()[i] == s[i]);
        lemma_map_of_update(s.drop_last(), i, k, v);
        assert(t.last() == s.last());
        assert(map_of(t) == map_of(s.drop_last()).insert(k, v).insert(s.last().0, s.last().1));
        assert(s.last().0 != k);
        assert(map_of(s.drop_last()).insert(k, v).insert(s.last().0, s.last().1)
            =~= map_of(s.drop_last()).insert(s.last().0, s.last().1).insert(k, v));
    }
}

/// A fresh unordered key-value store. Entries are kept with pairwise distinct
/// keys; inserting an existing key overwrites its value.
pub struct Container<K, V> {
    entries: Vec<(K, V)>,
}

impl<K, V> View for Container<K, V> {
    type V = Map<K, V>;

    closed spec fn view(&self) -> Map<K, V> {
        map_of(self.entries@)
    }
}

impl<K: PartialEq, V> Container<K, V> {
    /// The entries as stored, in insertion order.
    pub closed spec fn pairs(&self) -> Seq<(K, V)> {
        self.entries@
    }

    /// Representation invariant: stored keys are pairwise distinct.
    pub closed spec fn wf(&self) -> bool {
        distinct_keys(self.entries@)
    }

    /// A well-formed container's stored entries have distinct keys, fold back
    /// to its model, and are exactly as numerous as the model's keys.
    pub proof fn lemma_pairs_agree(&self)
        requires
            self.wf(),
        ensures
            distinct_keys(self.pairs()),
            map_of(self.pairs()) == self@,
            self@.dom().finite(),
            self@.len() == self.pairs().len(),
    {
        lemma_map_of_len(self.entries@);
    }

    /// An empty container.
    pub fn new() -> (c: Self)
        ensures
            c.wf(),
            c@ == Map::<K, V>::empty(),
            c.pairs() == Seq::<(K, V)>::empty(),
    {
        Container { entries: Vec::new() }
    }

    /// Inserts one entry, overwriting the value of an equal key already
    /// present (last write wins).
    pub fn insert(&mut self, key: K, value: V)
        requires
            old(self).wf(),
            eq_agrees::<K>(),
        ensures
            final(self).wf(),
            final(self)@ == old(self)@.insert(key, value),
    {
        let ghost s0 = self.entries@;
        let n = self.entries.len();
        let mut i: usize = 0;
        while i < n
            invariant
                n == self.entries.len(),
                self.entries@ == s0,
                old(self)@ == map_of(s0),
                distinct_keys(s0),
                eq_agrees::<K>(),
                0 <= i <= n,
                forall|j: int| 0 <= j < i ==> (#[trigger] s0[j]).0 != key,
            decreases n - i,
        {
            if self.entries[i].0 == key {
                proof {
                    lemma_map_of_update(s0, i as int, key, value);
                    assert forall|p: int, q: int|
                        0 <= p < q < s0.len() implies (#[trigger] s0.update(
                        i as int,
                        (key, value),
                    )[p]).0 != (#[trigger] s0.update(i as int, (key, value))[q]).0 by {
                        assert(s0[p].0 != s0[q].0);
                    }
                }
                self.entries.set(i, (key, value));
                return ;
            }
            i += 1;
        }
        proof {
            lemma_map_of_push(s0, key, value);
        }
        self.entries.push((key, value));
    }

    /// Looks a key up in the container.
    pub fn get<'a>(&'a self, key: &K) -> (r: Option<&'a V>)
        requires
            self.wf(),
            eq_agrees::<K>(),
        ensures
            match r {
                Some(v) => self@.contains_key(*key) && *v == self@[*key],
                None => !self@.contains_key(*key),
            },
    {
        let n = self.entries.len();
        let mut i: usize = 0;
        while i < n
            invariant
                n == self.entries.len(),
                self.wf(),
                eq_agrees::<K>(),
                0 <= i <= n,
                forall|j: int| 0 <= j < i ==> (#[trigger] self.entries@[j]).0 != *key,
            decreases n - i,
        {
            if self.entries[i].0 == *key {
                proof {
                    lemma_map_of_index(self.entries@, i as int);
                }
                return Some(&self.entries[i].1);
            }
            i += 1;
        }
        proof {
            lemma_map_of_dom(self.entries@, *key);
        }
        None
    }

    /// The number of entries, which equals the number of keys of the model.
    pub fn len(&self) -> (n: usize)
        requires
            self.wf(),
        ensures
            n == self@.len(),
    {
        proof {
            lemma_map_of_len(self.entries@);
        }
        self.entries.len()
    }

    /// Hands the entries back out as a plain list of pairs, consuming the
    /// container. Re-normalizing that list reproduces the same model.
    pub fn entries(self) -> (r: Vec<(K, V)>)
        requires
            self.wf(),
        ensures
            r@ == self.pairs(),
            distinct_keys(r@),
            map_of(r@) == self@,
    {
        let Container { entries } = self;
        entries
    }

    /// Inserts every entry of `other` over `self`, in `other`'s stored order;
    /// on a key collision `other`'s value wins.
    pub fn absorb(&mut self, other: Container<K, V>)
        requires
            old(self).wf(),
            other.wf(),
            eq_agrees::<K>(),
        ensures
            final(self).wf(),
            final(self)@ == old(self)@.union_prefer_right(other@),
    {
        let ghost src = other.pairs();
        let mut rest = other.entries();
        let ghost mut i: int = 0;
        while rest.len() > 0
            invariant
                0 <= i <= src.len(),
                rest@ == src.skip(i),
                eq_agrees::<K>(),
                self.wf(),
                self@ == old(self)@.union_prefer_right(map_of(src.take(i))),
            decreases rest.len(),
        {
            let (k, v) = rest.remove(0);
            proof {
                assert(src.skip(i)[0] == src[i]);
                assert(src.skip(i).remove(0) =~= src.skip(i + 1));
            }
            self.insert(k, v);
            proof {
                src.lemma_take_succ_push(i);
                lemma_map_of_push(src.take(i), src[i].0, src[i].1);
                assert(old(self)@.union_prefer_right(map_of(src.take(i))).insert(
                    src[i].0,
                    src[i].1,
                ) =~= old(self)@.union_prefer_right(
                    map_of(src.take(i)).insert(src[i].0, src[i].1),
                ));
                i = i + 1;
            }
        }
        proof {
            assert(src.take(i) =~= src);
        }
    }
}

} // verus!
