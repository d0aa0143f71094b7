//! A small association store with integer keys and a mathematical
//! `Map` view.
//!
//! The engine keys its tables by node identifier, by (session,
//! fragment index) and by (session, peer); all three are packed
//! injectively into one 128-bit key.

use vstd::prelude::*;

verus! {

/// The 128-bit key a (64-bit, 64-bit) pair packs into.
pub open spec fn pair_key(hi: u64, lo: u64) -> u128 {
    (hi * 0x1_0000_0000_0000_0000 + lo) as u128
}

/// Packing is injective: equal keys come from equal pairs.
pub proof fn lemma_pair_key_injective(h1: u64, l1: u64, h2: u64, l2: u64)
    requires
        pair_key(h1, l1) == pair_key(h2, l2),
    ensures
        h1 == h2 && l1 == l2,
{
    assert(h1 as int * 0x1_0000_0000_0000_0000 + l1 == h2 as int * 0x1_0000_0000_0000_0000 + l2
        ==> h1 == h2 && l1 == l2) by (nonlinear_arith)
        requires
            l1 < 0x1_0000_0000_0000_0000,
            l2 < 0x1_0000_0000_0000_0000,
    ;
}

/// Pack a (64-bit, 64-bit) pair into its 128-bit key.
pub fn make_pair_key(hi: u64, lo: u64) -> (r: u128)
    ensures
        r == pair_key(hi, lo),
{
    proof {
        assert((hi as int) * 0x1_0000_0000_0000_0000 + (lo as int)
            <= 0xffff_ffff_ffff_ffff_ffff_ffff_ffff_ffff) by (nonlinear_arith)
            requires
                hi < 0x1_0000_0000_0000_0000,
                lo < 0x1_0000_0000_0000_0000,
        ;
    }
    (hi as u128) * 0x1_0000_0000_0000_0000 + (lo as u128)
}

/// An association list from 128-bit keys to values, with unique keys.
/// Its view is the finite map it spells out.
pub struct KvStore<V> {
    entries: Vec<(u128, V)>,
}

/// Do the entries before position `n` hold pairwise distinct keys?
pub open spec fn keys_unique<V>(entries: Seq<(u128, V)>) -> bool {
    forall|i: int, j: int|
        0 <= i < entries.len() && 0 <= j < entries.len() && i != j ==> #[trigger] entries[i].0
            != #[trigger] entries[j].0
}

/// The map an association list spells out, later entries overriding
/// earlier ones.
pub open spec fn kv_map<V: View>(entries: Seq<(u128, V)>) -> Map<u128, V::V>
    decreases entries.len(),
{
    if entries.len() == 0 {
        Map::empty()
    } else {
        kv_map(entries.drop_last()).insert(entries.last().0, entries.last().1@)
    }
}

proof fn lemma_kv_map_domain<V: View>(entries: Seq<(u128, V)>, k: u128)
    ensures
        kv_map(entries).contains_key(k) <==> exists|i: int|
            0 <= i < entries.len() && #[trigger] entries[i].0 == k,
    decreases entries.len(),
{
    if entries.len() == 0 {
    } else {
        lemma_kv_map_domain(entries.drop_last(), k);
        if kv_map(entries).contains_key(k) {
            if entries.last().0 == k {
                assert(entries[entries.len() - 1].0 == k);
            } else {
                let i = choose|i: int|
                    0 <= i < entries.drop_last().len() && #[trigger] entries.drop_last()[i].0 == k;
                assert(entries[i].0 == k);
            }
        }
        if exists|i: int| 0 <= i < entries.len() && #[trigger] entries[i].0 == k {
            let i = choose|i: int| 0 <= i < entries.len() && #[trigger] entries[i].0 == k;
            if i < entries.len() - 1 {
                assert(entries.drop_last()[i].0 == k);
            }
        }
    }
}

proof fn lemma_kv_map_get<V: View>(entries: Seq<(u128, V)>, i: int)
    requires
        keys_unique(entries),
        0 <= i < entries.len(),
    ensures
        kv_map(entries).contains_key(entries[i].0),
        kv_map(entries)[entries[i].0] == entries[i].1@,
    decreases entries.len(),
{
    if i == entries.len() - 1 {
    } else {
        assert(keys_unique(entries.drop_last())) by {
            assert(forall|x: int, y: int|
                0 <= x < entries.drop_last().len() && 0 <= y < entries.drop_last().len() && x != y
                    ==> #[trigger] entries.drop_last()[x].0 != #[trigger] entries.drop_last()[y].0);
        }
        assert(entries.drop_last()[i] == entries[i]);
        lemma_kv_map_get(entries.drop_last(), i);
        assert(entries[i].0 != entries.last().0);
    }
}

proof fn lemma_kv_map_push<V: View>(entries: Seq<(u128, V)>, k: u128, v: V)
    ensures
        kv_map(entries.push((k, v))) == kv_map(entries).insert(k, v@),
{
    assert(entries.push((k, v)).drop_last() =~= entries);
    assert(entries.push((k, v)).last() == (k, v));
}

proof fn lemma_kv_map_update<V: View>(entries: Seq<(u128, V)>, i: int, v: V)
    requires
        keys_unique(entries),
        0 <= i < entries.len(),
    ensures
        kv_map(entries.update(i, (entries[i].0, v))) == kv_map(entries).insert(entries[i].0, v@),
    decreases entries.len(),
{
    let k = entries[i].0;
    let upd = entries.update(i, (k, v));
    if i == entries.len() - 1 {
        assert(upd.drop_last() =~= entries.drop_last());
        assert(upd.last() == (k, v));
        assert(kv_map(upd) =~= kv_map(entries).insert(k, v@));
    } else {
        assert(keys_unique(entries.drop_last())) by {
            assert(forall|x: int, y: int|
                0 <= x < entries.drop_last().len() && 0 <= y < entries.drop_last().len() && x != y
                    ==> #[trigger] entries.drop_last()[x].0 != #[trigger] entries.drop_last()[y].0);
        }
        assert(entries.drop_last()[i] == entries[i]);
        lemma_kv_map_update(entries.drop_last(), i, v);
        assert(upd.drop_last() =~= entries.drop_last().update(i, (k, v)));
        assert(upd.last() == entries.last());
        assert(k != entries.last().0);
        assert(kv_map(upd) =~= kv_map(entries).insert(k, v@));
    }
}

proof fn lemma_kv_map_remove<V: View>(entries: Seq<(u128, V)>, i: int)
    requires
        keys_unique(entries),
        0 <= i < entries.len(),
    ensures
        kv_map(entries.remove(i)) == kv_map(entries).remove(entries[i].0),
    decreases entries.len(),
{
    let k = entries[i].0;
    let rem = entries.remove(i);
    if i == entries.len() - 1 {
        assert(rem =~= entries.drop_last());
        lemma_kv_map_domain(entries.drop_last(), k);
        assert(forall|x: int|
            0 <= x < entries.drop_last().len() ==> #[trigger] entries.drop_last()[x].0 != k);
        assert(!kv_map(entries.drop_last()).contains_key(k));
        assert(kv_map(rem) =~= kv_map(entries).remove(k));
    } else {
        assert(keys_unique(entries.drop_last())) by {
            assert(forall|x: int, y: int|
                0 <= x < entries.drop_last().len() && 0 <= y < entries.drop_last().len() && x != y
                    ==> #[trigger] entries.drop_last()[x].0 != #[trigger] entries.drop_last()[y].0);
        }
        assert(entries.drop_last()[i] == entries[i]);
        lemma_kv_map_remove(entries.drop_last(), i);
        assert(rem.drop_last() =~= entries.drop_last().remove(i));
        assert(rem.last() == entries.last());
        assert(k != entries.last().0);
        assert(kv_map(rem) =~= kv_map(entries).remove(k));
    }
}

impl<V: View> View for KvStore<V> {
    type V = Map<u128, V::V>;

    closed spec fn view(&self) -> Map<u128, V::V> {
        kv_map(self.entries@)
    }
}

impl<V: View> KvStore<V> {
    /// Are the stored keys pairwise distinct?  Every operation keeps
    /// this, and every operation but construction relies on it.
    pub closed spec fn wf(&self) -> bool {
        keys_unique(self.entries@)
    }

    /// An empty store.
    pub fn new() -> (r: KvStore<V>)
        ensures
            r.wf(),
            r@ == Map::<u128, V::V>::empty(),
    {
        KvStore { entries: Vec::new() }
    }

    /// Position of the entry holding `k`, if any.
    fn find(&self, k: u128) -> (r: Option<usize>)
        requires
            self.wf(),
        ensures
            match r {
                Some(i) => i < self.entries@.len() && self.entries@[i as int].0 == k
                    && self@.contains_key(k) && self@[k] == self.entries@[i as int].1@,
                None => !self@.contains_key(k),
            },
    {
        let mut i: usize = 0;
        while i < self.entries.len()
            invariant
                self.wf(),
                i <= self.entries@.len(),
                forall|x: int| 0 <= x < i as int ==> #[trigger] self.entries@[x].0 != k,
            decreases self.entries@.len() - i,
        {
            if self.entries[i].0 == k {
                proof {
                    lemma_kv_map_get(self.entries@, i as int);
                }
                return Some(i);
            }
            i = i + 1;
        }
        proof {
            lemma_kv_map_domain(self.entries@, k);
        }
        None
    }

    /// Is `k` present?
    pub fn contains(&self, k: u128) -> (r: bool)
        requires
            self.wf(),
        ensures
            r == self@.contains_key(k),
    {
        self.find(k).is_some()
    }

    /// The value stored under `k`, if any.
    pub fn get(&self, k: u128) -> (r: Option<&V>)
        requires
            self.wf(),
        ensures
            match r {
                Some(v) => self@.contains_key(k) && v@ == self@[k],
                None => !self@.contains_key(k),
            },
    {
        match self.find(k) {
            Some(i) => Some(&self.entries[i].1),
            None => None,
        }
    }

    /// Store `v` under `k`, replacing what was there.
    pub fn insert(&mut self, k: u128, v: V)
        requires
            old(self).wf(),
        ensures
            final(self).wf(),
            final(self)@ == old(self)@.insert(k, v@),
    {
        match self.find(k) {
            Some(i) => {
                proof {
                    lemma_kv_map_update(self.entries@, i as int, v);
                }
                self.entries.set(i, (k, v));
                proof {
                    assert(forall|x: int, y: int|
                        0 <= x < self.entries@.len() && 0 <= y < self.entries@.len() && x != y
                            ==> #[trigger] self.entries@[x].0 != #[trigger] self.entries@[y].0);
                }
            },
            None => {
                proof {
                    lemma_kv_map_push(self.entries@, k, v);
                    lemma_kv_map_domain(self.entries@, k);
                    assert(forall|x: int|
                        0 <= x < self.entries@.len() ==> #[trigger] self.entries@[x].0 != k);
                }
                self.entries.push((k, v));
                proof {
                    assert(forall|x: int, y: int|
                        0 <= x < self.entries@.len() && 0 <= y < self.entries@.len() && x != y
                            ==> #[trigger] self.entries@[x].0 != #[trigger] self.entries@[y].0);
                }
            },
        }
    }

    /// Drop the entry under `k`, returning its value if one was there.
    pub fn remove(&mut self, k: u128) -> (r: Option<V>)
        requires
            old(self).wf(),
        ensures
            final(self).wf(),
            final(self)@ == old(self)@.remove(k),
            match r {
                Some(v) => old(self)@.contains_key(k) && v@ == old(self)@[k],
                None => !old(self)@.contains_key(k) && final(self)@ == old(self)@,
            },
    {
        match self.find(k) {
            Some(i) => {
                proof {
                    lemma_kv_map_remove(self.entries@, i as int);
                }
                let e = self.entries.remove(i);
                proof {
                    assert(forall|x: int, y: int|
                        0 <= x < self.entries@.len() && 0 <= y < self.entries@.len() && x != y
                            ==> #[trigger] self.entries@[x].0 != #[trigger] self.entries@[y].0);
                }
                Some(e.1)
            },
            None => {
                proof {
                    assert(old(self)@.remove(k) =~= old(self)@);
                }
                None
            },
        }
    }
}

} // verus!
