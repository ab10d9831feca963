//! A small association map from `u64` keys to copyable values, backed by a
//! vector whose keys are pairwise distinct. Its mathematical view is a
//! `Map<u64, V>`.

use vstd::pervasive::VecAdditionalExecFns;
use vstd::prelude::*;

verus! {

/// Interprets a sequence of key/value pairs as a map; later pairs win.
pub open spec fn seq_to_map<V>(s: Seq<(u64, V)>) -> Map<u64, V>
    decreases s.len(),
{
    if s.len() == 0 {
        Map::empty()
    } else {
        seq_to_map(s.drop_last()).insert(s.last().0, s.last().1)
    }
}

/// No key occurs twice in the sequence.
pub open spec fn distinct_keys<V>(s: Seq<(u64, V)>) -> bool {
    forall|i: int, j: int| 0 <= i < j < s.len() ==> (#[trigger] s[i]).0 != (#[trigger] s[j]).0
}

proof fn lemma_seq_to_map_absent<V>(s: Seq<(u64, V)>, k: u64)
    requires
        forall|i: int| 0 <= i < s.len() ==> (#[trigger] s[i]).0 != k,
    ensures
        !seq_to_map(s).contains_key(k),
    decreases s.len(),
{
    if s.len() > 0 {
        assert(s[s.len() - 1].0 != k);
        lemma_seq_to_map_absent(s.drop_last(), k);
    }
}

proof fn lemma_seq_to_map_index<V>(s: Seq<(u64, V)>, i: int)
    requires
        distinct_keys(s),
        0 <= i < s.len(),
    ensures
        seq_to_map(s).contains_key(s[i].0),
        seq_to_map(s)[s[i].0] == s[i].1,
    decreases s.len(),
{
    if i == s.len() - 1 {
    } else {
        assert(s[i].0 != s[s.len() - 1].0);
        assert(s.drop_last()[i] == s[i]);
        lemma_seq_to_map_index(s.drop_last(), i);
    }
}
proof fn lemma_seq_to_map_update<V>(s: Seq<(u64, V)>, i: int, k: u64, v: V)
    requires
        distinct_keys(s),
        0 <= i < s.len(),
        s[i].0 == k,
    ensures
        seq_to_map(s.update(i, (k, v))) == seq_to_map(s).insert(k, v),
    decreases s.len(),
{
    let t = s.update(i, (k, v));
    if i == s.len() - 1 {
        assert(t.drop_last() =~= s.drop_last());
        assert(seq_to_map(t) =~= seq_to_map(s).insert(k, v));
    } else {
        assert(t.drop_last() =~= s.drop_last().update(i, (k, v)));
        assert(distinct_keys(s.drop_last())) by {
            assert(forall|p: int, q: int|
                0 <= p < q < s.drop_last().len() ==> (#[trigger] s.drop_last()[p]).0 != (#[trigger] s.drop_last()[q]).0);
        }
        assert(s.drop_last()[i] == s[i]);
        lemma_seq_to_map_update(s.drop_last(), i, k, v);
        assert(s[i].0 != s[s.len() - 1].0);
        assert(t.last() == s.last());
        assert(seq_to_map(t) =~= seq_to_map(s).insert(k, v));
    }
}

proof fn lemma_seq_to_map_len<V>(s: Seq<(u64, V)>)
    requires
        distinct_keys(s),
    ensures
        seq_to_map(s).dom().finite(),
        seq_to_map(s).dom().len() == s.len(),
    decreases s.len(),
{
    if s.len() > 0 {
        assert(distinct_keys(s.drop_last())) by {
            assert(forall|p: int, q: int|
                0 <= p < q < s.drop_last().len() ==> (#[trigger] s.drop_last()[p]).0 != (#[trigger] s.drop_last()[q]).0);
        }
        lemma_seq_to_map_len(s.drop_last());
        assert(forall|i: int| 0 <= i < s.drop_last().len() ==> (#[trigger] s.drop_last()[i]).0 != s.last().0);
        lemma_seq_to_map_absent(s.drop_last(), s.last().0);
        vstd::set::axiom_set_insert_len(seq_to_map(s.drop_last()).dom(), s.last().0);
        assert(seq_to_map(s).dom() =~= seq_to_map(s.drop_last()).dom().insert(s.last().0));
    }
}

/// An insertion-ordered map from `u64` keys to copyable values.
pub struct AssocMap<V> {
    entries: Vec<(u64, V)>,
}

impl<V> View for AssocMap<V> {
    type V = Map<u64, V>;

    closed spec fn view(&self) -> Map<u64, V> {
        seq_to_map(self.entries@)
    }
}

impl<V: Copy> AssocMap<V> {
    /// The key/value pairs in insertion order.
    pub closed spec fn entries_seq(&self) -> Seq<(u64, V)> {
        self.entries@
    }

    /// Well-formed: no key is stored twice.
    pub closed spec fn wf(&self) -> bool {
        distinct_keys(self.entries@)
    }

    pub fn new() -> (m: AssocMap<V>)
        ensures
            m.wf(),
            m@ == Map::<u64, V>::empty(),
            m.entries_seq() == Seq::<(u64, V)>::empty(),
    {
        let m = AssocMap { entries: Vec::new() };
        proof {
            assert(m.entries@ =~= Seq::<(u64, V)>::empty());
        }
        m
    }

    /// Looks a key up; `None` exactly when the key is absent.
    pub fn get(&self, k: u64) -> (r: Option<V>)
        requires
            self.wf(),
        ensures
            match r {
                Some(v) => self@.contains_key(k) && self@[k] == v,
                None => !self@.contains_key(k),
            },
    {
        let n = self.entries.len();
        for i in 0..n
            invariant
                n == self.entries@.len(),
                self.wf(),
                forall|j: int| 0 <= j < i ==> (#[trigger] self.entries@[j]).0 != k,
        {
            if self.entries[i].0 == k {
                proof {
                    lemma_seq_to_map_index(self.entries@, i as int);
                }
                return Some(self.entries[i].1);
            }
        }
        proof {
            lemma_seq_to_map_absent(self.entries@, k);
        }
        None
    }

    /// Inserts or overwrites the value stored at a key. A known key keeps
    /// its place in the insertion order; a new key goes to the end.
    pub fn insert(&mut self, k: u64, v: V)
        requires
            old(self).wf(),
        ensures
            final(self).wf(),
            final(self)@ == old(self)@.insert(k, v),
            old(self)@.contains_key(k) ==> exists|i: int|
                0 <= i < old(self).entries_seq().len() && old(self).entries_seq()[i].0 == k
                    && final(self).entries_seq() == old(self).entries_seq().update(i, (k, v)),
            !old(self)@.contains_key(k) ==> final(self).entries_seq() == old(
                self,
            ).entries_seq().push((k, v)),
    {
        let n = self.entries.len();
        for i in 0..n
            invariant
                n == self.entries@.len(),
                self.wf(),
                *self == *old(self),
                forall|j: int| 0 <= j < i ==> (#[trigger] self.entries@[j]).0 != k,
        {
            if self.entries[i].0 == k {
                proof {
                    lemma_seq_to_map_index(self.entries@, i as int);
                    lemma_seq_to_map_update(self.entries@, i as int, k, v);
                }
                self.entries.set(i, (k, v));
                proof {
                    let s_old = old(self).entries@;
                    let s_new = self.entries@;
                    assert(forall|j: int| 0 <= j < s_new.len() ==> (#[trigger] s_new[j]).0 == s_old[j].0);
                    assert(distinct_keys(s_new));
                    assert(s_old[i as int].0 == k && s_new == s_old.update(i as int, (k, v)));
                    assert(exists|j: int|
                        0 <= j < old(self).entries_seq().len() && old(self).entries_seq()[j].0
                            == k && self.entries_seq() == old(self).entries_seq().update(
                            j,
                            (k, v),
                        )) by {
                        assert((i as int) < old(self).entries_seq().len() && old(
                            self,
                        ).entries_seq()[i as int].0 == k && self.entries_seq() == old(
                            self,
                        ).entries_seq().update(i as int, (k, v)));
                    }
                }
                return;
            }
        }
        proof {
            lemma_seq_to_map_absent(self.entries@, k);
        }
        self.entries.push((k, v));
        proof {
            let s_old = old(self).entries@;
            let s_new = self.entries@;
            assert(s_new.drop_last() =~= s_old);
            assert(forall|j: int| 0 <= j < s_old.len() ==> #[trigger] s_new[j] == s_old[j]);
            assert(s_new[s_new.len() - 1].0 == k);
            assert(distinct_keys(s_new));
        }
    }

    /// The number of keys stored.
    pub fn len(&self) -> (n: usize)
        requires
            self.wf(),
        ensures
            n == self@.dom().len(),
            n == self.entries_seq().len(),
    {
        proof {
            lemma_seq_to_map_len(self.entries@);
        }
        self.entries.len()
    }

    /// The key/value pair at a position of the insertion order.
    pub fn entry_at(&self, i: usize) -> (e: (u64, V))
        requires
            i < self.entries_seq().len(),
        ensures
            e == self.entries_seq()[i as int],
    {
        self.entries[i]
    }

    /// How many pairs the insertion order holds (equals `len` when well-formed).
    pub fn entry_count(&self) -> (n: usize)
        ensures
            n == self.entries_seq().len(),
    {
        self.entries.len()
    }
}

} // verus!
