//! The key-value store owned by a block: a mapping from `u64` keys to byte
//! values, keys unique, no ordering. The same shape serves the leader's
//! primary partition and the backup replicas.

use crate::codec::pairs_view;
use crate::codec::wf_pairs;
use vstd::prelude::*;

verus! {

/// All keys in the entry sequence are distinct.
pub open spec fn unique_keys(s: Seq<(u64, Seq<u8>)>) -> bool {
    forall|i: int, j: int|
        0 <= i < s.len() && 0 <= j < s.len() && i != j ==> (#[trigger] s[i]).0 != (
        #[trigger] s[j]).0
}

/// The mapping described by an entry sequence; later entries win.
pub open spec fn entries_map(s: Seq<(u64, Seq<u8>)>) -> Map<u64, Seq<u8>>
    decreases s.len(),
{
    if s.len() == 0 {
        Map::empty()
    } else {
        entries_map(s.drop_last()).insert(s.last().0, s.last().1)
    }
}

/// The keys between `lo` and `hi`, both included.
pub open spec fn range_keys(lo: u64, hi: u64) -> Set<u64> {
    Set::new(|k: u64| lo <= k <= hi)
}

/// Applies the pairs to `m` in order, overwriting present keys.
pub open spec fn insert_all(m: Map<u64, Seq<u8>>, ps: Seq<(u64, Seq<u8>)>) -> Map<u64, Seq<u8>>
    decreases ps.len(),
{
    if ps.len() == 0 {
        m
    } else {
        insert_all(m, ps.drop_last()).insert(ps.last().0, ps.last().1)
    }
}

/// A key is in the mapping exactly when some entry carries it.
pub proof fn lemma_entries_map_contains(s: Seq<(u64, Seq<u8>)>)
    ensures
        forall|k: u64|
            entries_map(s).contains_key(k) <==> exists|i: int|
                0 <= i < s.len() && (#[trigger] s[i]).0 == k,
    decreases s.len(),
{
    if s.len() > 0 {
        lemma_entries_map_contains(s.drop_last());
        assert forall|k: u64| entries_map(s).contains_key(k) implies exists|i: int|
            0 <= i < s.len() && (#[trigger] s[i]).0 == k by {
            if s.last().0 == k {
                assert(s[s.len() - 1].0 == k);
            } else {
                assert(entries_map(s.drop_last()).contains_key(k));
                let i = choose|i: int|
                    0 <= i < s.drop_last().len() && (#[trigger] s.drop_last()[i]).0 == k;
                assert(s.drop_last()[i] == s[i]);
                assert(s[i].0 == k);
            }
        }
        assert forall|k: u64|
            (exists|i: int| 0 <= i < s.len() && (#[trigger] s[i]).0 == k) implies entries_map(
            s,
        ).contains_key(k) by {
            let i = choose|i: int| 0 <= i < s.len() && (#[trigger] s[i]).0 == k;
            if i < s.len() - 1 {
                assert(s.drop_last()[i].0 == k);
                assert(entries_map(s.drop_last()).contains_key(k));
            }
        }
    }
}

/// With unique keys, each entry's value is the mapping's value for its key.
pub proof fn lemma_entries_map_index(s: Seq<(u64, Seq<u8>)>, i: int)
    requires
        unique_keys(s),
        0 <= i < s.len(),
    ensures
        entries_map(s).contains_key(s[i].0),
        entries_map(s)[s[i].0] == s[i].1,
    decreases s.len(),
{
    if i == s.len() - 1 {
    } else {
        assert(unique_keys(s.drop_last()));
        lemma_entries_map_index(s.drop_last(), i);
        assert(s.drop_last()[i] == s[i]);
        assert(s.last().0 != s[i].0);
    }
}

/// With unique keys, the mapping has exactly one key per entry.
pub proof fn lemma_entries_map_dom_len(s: Seq<(u64, Seq<u8>)>)
    requires
        unique_keys(s),
    ensures
        entries_map(s).dom().finite(),
        entries_map(s).dom().len() == s.len(),
    decreases s.len(),
{
    if s.len() > 0 {
        assert(unique_keys(s.drop_last()));
        lemma_entries_map_dom_len(s.drop_last());
        lemma_entries_map_contains(s.drop_last());
        assert(!entries_map(s.drop_last()).contains_key(s.last().0));
        assert(entries_map(s).dom() =~= entries_map(s.drop_last()).dom().insert(s.last().0));
    }
}

/// The key-value store of one block.
pub struct KvStore {
    entries: Vec<(u64, Vec<u8>)>,
}

impl View for KvStore {
    type V = Map<u64, Seq<u8>>;

    closed spec fn view(&self) -> Map<u64, Seq<u8>> {
        entries_map(pairs_view(self.entries@))
    }
}

/// The value stored for `k`, or the empty byte string when `k` is absent.
pub open spec fn value_or_default(m: Map<u64, Seq<u8>>, k: u64) -> Seq<u8> {
    if m.contains_key(k) {
        m[k]
    } else {
        Seq::empty()
    }
}

impl KvStore {
    /// Keys are unique and every value is short enough for the wire.
    #[verifier::type_invariant]
    spec fn inv(self) -> bool {
        unique_keys(pairs_view(self.entries@)) && wf_pairs(pairs_view(self.entries@))
    }

    /// An empty store.
    pub fn new() -> (r: KvStore)
        ensures
            r@ == Map::<u64, Seq<u8>>::empty(),
    {
        let r = KvStore { entries: Vec::new() };
        proof {
            assert(pairs_view(r.entries@).len() == 0);
        }
        r
    }

    /// The number of keys held.
    pub fn len(&self) -> (r: usize)
        ensures
            r == self@.dom().len(),
    {
        proof {
            use_type_invariant(self);
            lemma_entries_map_dom_len(pairs_view(self.entries@));
        }
        self.entries.len()
    }

    /// The stored value for `key`, or an empty vector when the key is absent.
    pub fn get_value_or_empty(&self, key: u64) -> (r: Vec<u8>)
        ensures
            r@ == value_or_default(self@, key),
            r@.len() <= u32::MAX,
    {
        proof {
            use_type_invariant(self);
            lemma_entries_map_contains(pairs_view(self.entries@));
        }
        let ghost pv = pairs_view(self.entries@);
        let mut i: usize = 0;
        while i < self.entries.len()
            invariant
                pv == pairs_view(self.entries@),
                unique_keys(pv),
                wf_pairs(pv),
                self@ == entries_map(pv),
                i <= pv.len(),
                forall|j: int| 0 <= j < i ==> (#[trigger] pv[j]).0 != key,
                forall|k: u64|
                    entries_map(pv).contains_key(k) <==> exists|j: int|
                        0 <= j < pv.len() && (#[trigger] pv[j]).0 == k,
            decreases pv.len() - i,
        {
            if self.entries[i].0 == key {
                proof {
                    lemma_entries_map_index(pv, i as int);
                }
                let v = crate::codec::copy_range(&self.entries[i].1, 0, self.entries[i].1.len());
                proof {
                    assert(v@ =~= pv[i as int].1);
                }
                return v;
            }
            i = i + 1;
        }
        proof {
            assert(!self@.contains_key(key));
        }
        Vec::new()
    }

    /// Stores `value` under `key`, replacing any previous value.
    pub fn insert(&mut self, key: u64, value: Vec<u8>)
        requires
            value@.len() <= u32::MAX,
        ensures
            final(self)@ == old(self)@.insert(key, value@),
    {
        proof {
            use_type_invariant(&*self);
        }
        let ghost pv = pairs_view(self.entries@);
        let mut kept: Vec<(u64, Vec<u8>)> = Vec::new();
        let mut i: usize = 0;
        while i < self.entries.len()
            invariant
                pv == pairs_view(self.entries@),
                unique_keys(pv),
                wf_pairs(pv),
                i <= pv.len(),
                unique_keys(pairs_view(kept@)),
                wf_pairs(pairs_view(kept@)),
                entries_map(pairs_view(kept@)) == entries_map(pv.take(i as int)).remove_keys(
                    range_keys(key, key),
                ),
                forall|j: int| 0 <= j < pairs_view(kept@).len() ==> (
                #[trigger] pairs_view(kept@)[j]).0 != key,
                forall|j: int|
                    0 <= j < pairs_view(kept@).len() ==> exists|m: int|
                        0 <= m < i && (#[trigger] pairs_view(kept@)[j]).0 == pv[m].0,
            decreases pv.len() - i,
        {
            let ghost rv0 = pairs_view(kept@);
            let k: u64 = self.entries[i].0;
            proof {
                assert(qv_step_key_fresh(pv, rv0, i as int)) by {
                    assert forall|j: int| 0 <= j < rv0.len() implies (#[trigger] rv0[j]).0
                        != pv[i as int].0 by {
                        let m = choose|m: int| 0 <= m < i && rv0[j].0 == pv[m].0;
                        assert(pv[m].0 != pv[i as int].0);
                    }
                }
            }
            if k != key {
                let v = crate::codec::copy_range(&self.entries[i].1, 0, self.entries[i].1.len());
                proof {
                    assert(v@ =~= pv[i as int].1);
                }
                kept.push((k, v));
                proof {
                    assert(pairs_view(kept@) =~= rv0.push((k, v@)));
                    assert(entries_map(rv0.push((k, v@))) == entries_map(rv0).insert(k, v@)) by {
                        assert(rv0.push((k, v@)).drop_last() =~= rv0);
                    }
                    assert(pv.take(i + 1).drop_last() =~= pv.take(i as int));
                    assert(pv.take(i + 1).last() == pv[i as int]);
                    assert(!range_keys(key, key).contains(k));
                    assert(entries_map(pairs_view(kept@)) =~= entries_map(
                        pv.take(i + 1),
                    ).remove_keys(range_keys(key, key)));
                }
            } else {
                proof {
                    assert(pv.take(i + 1).drop_last() =~= pv.take(i as int));
                    assert(pv.take(i + 1).last() == pv[i as int]);
                    assert(range_keys(key, key).contains(k));
                    assert(entries_map(pairs_view(kept@)) =~= entries_map(
                        pv.take(i + 1),
                    ).remove_keys(range_keys(key, key)));
                }
            }
            i = i + 1;
        }
        let ghost rv1 = pairs_view(kept@);
        proof {
            assert(pv.take(pv.len() as int) =~= pv);
            assert(entries_map(rv1) == old(self)@.remove_keys(range_keys(key, key)));
        }
        kept.push((key, value));
        proof {
            assert(pairs_view(kept@) =~= rv1.push((key, value@)));
            assert(entries_map(rv1.push((key, value@))) == entries_map(rv1).insert(key, value@))
                by {
                assert(rv1.push((key, value@)).drop_last() =~= rv1);
            }
            assert(unique_keys(pairs_view(kept@)));
            assert(wf_pairs(pairs_view(kept@)));
        }
        self.entries = kept;
        proof {
            assert(final(self)@ =~= old(self)@.insert(key, value@));
        }
    }

    /// Applies the pairs in order, overwriting present keys.
    pub fn insert_pairs(&mut self, pairs: &Vec<(u64, Vec<u8>)>)
        requires
            wf_pairs(pairs_view(pairs@)),
        ensures
            final(self)@ == insert_all(old(self)@, pairs_view(pairs@)),
    {
        let ghost qv = pairs_view(pairs@);
        let mut i: usize = 0;
        while i < pairs.len()
            invariant
                qv == pairs_view(pairs@),
                wf_pairs(qv),
                i <= qv.len(),
                self@ == insert_all(old(self)@, qv.take(i as int)),
            decreases qv.len() - i,
        {
            proof {
                assert(qv[i as int].1.len() <= u32::MAX);
                assert(qv[i as int] == (pairs@[i as int].0, pairs@[i as int].1@));
            }
            let key: u64 = pairs[i].0;
            let value = crate::codec::copy_range(&pairs[i].1, 0, pairs[i].1.len());
            proof {
                assert(value@ =~= qv[i as int].1);
            }
            self.insert(key, value);
            proof {
                assert(qv.take(i + 1).drop_last() =~= qv.take(i as int));
                assert(qv.take(i + 1).last() == qv[i as int]);
            }
            i = i + 1;
        }
        proof {
            assert(qv.take(qv.len() as int) =~= qv);
        }
    }

    /// Copies out every pair the store holds.
    pub fn to_pairs(&self) -> (r: Vec<(u64, Vec<u8>)>)
        ensures
            entries_map(pairs_view(r@)) == self@,
            unique_keys(pairs_view(r@)),
            wf_pairs(pairs_view(r@)),
    {
        proof {
            use_type_invariant(self);
        }
        let ghost pv = pairs_view(self.entries@);
        let mut r: Vec<(u64, Vec<u8>)> = Vec::new();
        let mut i: usize = 0;
        while i < self.entries.len()
            invariant
                pv == pairs_view(self.entries@),
                unique_keys(pv),
                wf_pairs(pv),
                self@ == entries_map(pv),
                i <= pv.len(),
                pairs_view(r@) == pv.take(i as int),
            decreases pv.len() - i,
        {
            let ghost rv0 = pairs_view(r@);
            let key: u64 = self.entries[i].0;
            let value = crate::codec::copy_range(&self.entries[i].1, 0, self.entries[i].1.len());
            proof {
                assert(value@ =~= pv[i as int].1);
            }
            r.push((key, value));
            proof {
                assert(pairs_view(r@) =~= rv0.push((key, value@)));
                assert(rv0.push((key, value@)) =~= pv.take(i + 1));
            }
            i = i + 1;
        }
        proof {
            assert(pv.take(pv.len() as int) =~= pv);
        }
        r
    }

    /// Copies out the pairs whose keys lie between `lo` and `hi`, inclusive.
    pub fn pairs_in_range(&self, lo: u64, hi: u64) -> (r: Vec<(u64, Vec<u8>)>)
        ensures
            entries_map(pairs_view(r@)) == self@.restrict(range_keys(lo, hi)),
            unique_keys(pairs_view(r@)),
            wf_pairs(pairs_view(r@)),
    {
        proof {
            use_type_invariant(self);
        }
        let ghost pv = pairs_view(self.entries@);
        let mut r: Vec<(u64, Vec<u8>)> = Vec::new();
        let mut i: usize = 0;
        while i < self.entries.len()
            invariant
                pv == pairs_view(self.entries@),
                unique_keys(pv),
                wf_pairs(pv),
                self@ == entries_map(pv),
                i <= pv.len(),
                unique_keys(pairs_view(r@)),
                wf_pairs(pairs_view(r@)),
                entries_map(pairs_view(r@)) == entries_map(pv.take(i as int)).restrict(
                    range_keys(lo, hi),
                ),
                forall|j: int|
                    0 <= j < pairs_view(r@).len() ==> exists|m: int|
                        0 <= m < i && (#[trigger] pairs_view(r@)[j]).0 == pv[m].0,
            decreases pv.len() - i,
        {
            let ghost rv0 = pairs_view(r@);
            let key: u64 = self.entries[i].0;
            proof {
                assert(qv_step_key_fresh(pv, rv0, i as int)) by {
                    assert forall|j: int| 0 <= j < rv0.len() implies (#[trigger] rv0[j]).0
                        != pv[i as int].0 by {
                        let m = choose|m: int| 0 <= m < i && rv0[j].0 == pv[m].0;
                        assert(pv[m].0 != pv[i as int].0);
                    }
                }
            }
            if lo <= key && key <= hi {
                let value = crate::codec::copy_range(&self.entries[i].1, 0, self.entries[i].1.len());
                proof {
                    assert(value@ =~= pv[i as int].1);
                }
                r.push((key, value));
                proof {
                    assert(pairs_view(r@) =~= rv0.push((key, value@)));
                    assert(entries_map(rv0.push((key, value@))) == entries_map(rv0).insert(
                        key,
                        value@,
                    )) by {
                        assert(rv0.push((key, value@)).drop_last() =~= rv0);
                    }
                    assert(pv.take(i + 1).drop_last() =~= pv.take(i as int));
                    assert(pv.take(i + 1).last() == pv[i as int]);
                    assert(entries_map(pairs_view(r@)) =~= entries_map(pv.take(i + 1)).restrict(
                        range_keys(lo, hi),
                    ));
                }
            } else {
                proof {
                    assert(pv.take(i + 1).drop_last() =~= pv.take(i as int));
                    assert(pv.take(i + 1).last() == pv[i as int]);
                    assert(!range_keys(lo, hi).contains(key));
                    assert(entries_map(pairs_view(r@)) =~= entries_map(pv.take(i + 1)).restrict(
                        range_keys(lo, hi),
                    ));
                }
            }
            i = i + 1;
        }
        proof {
            assert(pv.take(pv.len() as int) =~= pv);
        }
        r
    }

    /// Drops every key between `lo` and `hi`, inclusive.
    pub fn remove_keys_range(&mut self, lo: u64, hi: u64)
        ensures
            final(self)@ == old(self)@.remove_keys(range_keys(lo, hi)),
    {
        proof {
            use_type_invariant(&*self);
        }
        let ghost pv = pairs_view(self.entries@);
        let mut kept: Vec<(u64, Vec<u8>)> = Vec::new();
        let mut i: usize = 0;
        while i < self.entries.len()
            invariant
                pv == pairs_view(self.entries@),
                unique_keys(pv),
                wf_pairs(pv),
                i <= pv.len(),
                unique_keys(pairs_view(kept@)),
                wf_pairs(pairs_view(kept@)),
                entries_map(pairs_view(kept@)) == entries_map(pv.take(i as int)).remove_keys(
                    range_keys(lo, hi),
                ),
                forall|j: int|
                    0 <= j < pairs_view(kept@).len() ==> exists|m: int|
                        0 <= m < i && (#[trigger] pairs_view(kept@)[j]).0 == pv[m].0,
            decreases pv.len() - i,
        {
            let ghost rv0 = pairs_view(kept@);
            let key: u64 = self.entries[i].0;
            proof {
                assert(qv_step_key_fresh(pv, rv0, i as int)) by {
                    assert forall|j: int| 0 <= j < rv0.len() implies (#[trigger] rv0[j]).0
                        != pv[i as int].0 by {
                        let m = choose|m: int| 0 <= m < i && rv0[j].0 == pv[m].0;
                        assert(pv[m].0 != pv[i as int].0);
                    }
                }
            }
            if !(lo <= key && key <= hi) {
                let value = crate::codec::copy_range(&self.entries[i].1, 0, self.entries[i].1.len());
                proof {
                    assert(value@ =~= pv[i as int].1);
                }
                kept.push((key, value));
                proof {
                    assert(pairs_view(kept@) =~= rv0.push((key, value@)));
                    assert(entries_map(rv0.push((key, value@))) == entries_map(rv0).insert(
                        key,
                        value@,
                    )) by {
                        assert(rv0.push((key, value@)).drop_last() =~= rv0);
                    }
                    assert(pv.take(i + 1).drop_last() =~= pv.take(i as int));
                    assert(pv.take(i + 1).last() == pv[i as int]);
                    assert(!range_keys(lo, hi).contains(key));
                    assert(entries_map(pairs_view(kept@)) =~= entries_map(
                        pv.take(i + 1),
                    ).remove_keys(range_keys(lo, hi)));
                }
            } else {
                proof {
                    assert(pv.take(i + 1).drop_last() =~= pv.take(i as int));
                    assert(pv.take(i + 1).last() == pv[i as int]);
                    assert(range_keys(lo, hi).contains(key));
                    assert(entries_map(pairs_view(kept@)) =~= entries_map(
                        pv.take(i + 1),
                    ).remove_keys(range_keys(lo, hi)));
                }
            }
            i = i + 1;
        }
        proof {
            assert(pv.take(pv.len() as int) =~= pv);
        }
        self.entries = kept;
    }
}

/// The key at position `i` of `pv` appears nowhere in `rv`.
pub open spec fn qv_step_key_fresh(pv: Seq<(u64, Seq<u8>)>, rv: Seq<(u64, Seq<u8>)>, i: int) -> bool {
    forall|j: int| 0 <= j < rv.len() ==> (#[trigger] rv[j]).0 != pv[i].0
}

} // verus!
