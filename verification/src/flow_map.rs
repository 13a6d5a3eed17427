//! A map from flows to values, kept in a vector sorted by flow.

use vstd::prelude::*;

use crate::flow::FlowKey;

verus! {

/// A map whose keys are flows.
pub struct FlowMap<V> {
    slots: Vec<(FlowKey, V)>,
}

impl<V: View> FlowMap<V> {
    /// The slots hold the flows in strictly increasing order of rank.
    pub closed spec fn wf(&self) -> bool {
        forall|i: int, j: int|
            0 <= i < j < self.slots@.len() ==> self.slots@[i].0.rank() < self.slots@[j].0.rank()
    }

    spec fn has_slot(&self, i: int, k: FlowKey) -> bool {
        0 <= i < self.slots@.len() && self.slots@[i].0 == k
    }

    proof fn lemma_slot_unique(&self, i: int, j: int)
        requires
            self.wf(),
            0 <= i < self.slots@.len(),
            0 <= j < self.slots@.len(),
            self.slots@[i].0 == self.slots@[j].0,
        ensures
            i == j,
    {
    }

    /// A slot holds what the map has at the slot's flow.
    proof fn lemma_slot_view(&self, i: int)
        requires
            self.wf(),
            0 <= i < self.slots@.len(),
        ensures
            self@.dom().contains(self.slots@[i].0),
            self@[self.slots@[i].0] == self.slots@[i].1@,
    {
        let k = self.slots@[i].0;
        assert(self.has_slot(i, k));
        let j = choose|j: int| self.has_slot(j, k);
        self.lemma_slot_unique(i, j);
    }

    pub fn new() -> (m: FlowMap<V>)
        ensures
            m.wf(),
            m@ == Map::<FlowKey, V::V>::empty(),
    {
        let m = FlowMap { slots: Vec::new() };
        assert(m@ =~= Map::<FlowKey, V::V>::empty());
        m
    }

    /// The slot of `k`, or the slot before which `k` belongs.
    fn find(&self, k: &FlowKey) -> (r: Result<usize, usize>)
        requires
            self.wf(),
        ensures
            match r {
                Ok(i) => self.has_slot(i as int, *k),
                Err(i) => {
                    &&& i <= self.slots@.len()
                    &&& forall|j: int| 0 <= j < i ==> self.slots@[j].0.rank() < k.rank()
                    &&& forall|j: int|
                        i <= j < self.slots@.len() ==> k.rank() < self.slots@[j].0.rank()
                },
            },
    {
        let mut lo: usize = 0;
        let mut hi: usize = self.slots.len();
        while lo < hi
            invariant
                lo <= hi <= self.slots@.len(),
                self.wf(),
                forall|j: int| 0 <= j < lo ==> self.slots@[j].0.rank() < k.rank(),
                forall|j: int|
                    hi <= j < self.slots@.len() ==> k.rank() < self.slots@[j].0.rank(),
            decreases hi - lo,
        {
            let mid: usize = lo + (hi - lo) / 2;
            let at = &self.slots[mid].0;
            if at.precedes(k) {
                lo = mid + 1;
            } else if k.precedes(at) {
                hi = mid;
            } else {
                proof {
                    FlowKey::lemma_rank_injective(*k, self.slots@[mid as int].0);
                }
                return Ok(mid);
            }
        }
        Err(lo)
    }

    proof fn lemma_absent(&self, k: FlowKey, i: int)
        requires
            0 <= i <= self.slots@.len(),
            forall|j: int| 0 <= j < i ==> self.slots@[j].0.rank() < k.rank(),
            forall|j: int| i <= j < self.slots@.len() ==> k.rank() < self.slots@[j].0.rank(),
        ensures
            !self@.dom().contains(k),
    {
        if self@.dom().contains(k) {
            let j = choose|j: int| self.has_slot(j, k);
            assert(self.has_slot(j, k));
        }
    }

    pub fn get(&self, k: &FlowKey) -> (r: Option<&V>)
        requires
            self.wf(),
        ensures
            match r {
                Some(v) => self@.dom().contains(*k) && v@ == self@[*k],
                None => !self@.dom().contains(*k),
            },
    {
        match self.find(k) {
            Ok(i) => {
                proof {
                    self.lemma_slot_view(i as int);
                }
                Some(&self.slots[i].1)
            },
            Err(i) => {
                proof {
                    self.lemma_absent(*k, i as int);
                }
                None
            },
        }
    }

    pub fn contains_key(&self, k: &FlowKey) -> (r: bool)
        requires
            self.wf(),
        ensures
            r == self@.dom().contains(*k),
    {
        self.get(k).is_some()
    }

    /// Puts `v` at `k`, in place of what was there.
    pub fn insert(&mut self, k: FlowKey, v: V)
        requires
            old(self).wf(),
        ensures
            final(self).wf(),
            final(self)@ == old(self)@.insert(k, v@),
    {
        let found = self.find(&k);
        match found {
            Ok(i) => {
                self.slots.set(i, (k, v));
            },
            Err(i) => {
                proof {
                    self.lemma_absent(k, i as int);
                }
                self.slots.insert(i, (k, v));
            },
        }
        proof {
            let i: int = match found {
                Ok(i) => i as int,
                Err(i) => i as int,
            };
            assert(self.has_slot(i, k));
            self.lemma_slot_view(i);
            assert forall|q: FlowKey| q != k implies #[trigger] self@.dom().contains(q)
                == old(self)@.dom().contains(q) && (self@.dom().contains(q) ==> self@[q] == old(
                self,
            )@[q]) by {
                if self@.dom().contains(q) {
                    let j = choose|j: int| self.has_slot(j, q);
                    assert(self.has_slot(j, q));
                    self.lemma_slot_view(j);
                    let o = if found is Err && j > i {
                        j - 1
                    } else {
                        j
                    };
                    assert(old(self).has_slot(o, q));
                    old(self).lemma_slot_view(o);
                }
                if old(self)@.dom().contains(q) {
                    let o = choose|o: int| old(self).has_slot(o, q);
                    assert(old(self).has_slot(o, q));
                    let j = if found is Err && o >= i {
                        o + 1
                    } else {
                        o
                    };
                    assert(self.has_slot(j, q));
                }
            }
            assert(self@ =~= old(self)@.insert(k, v@));
        }
    }

    /// The flows of the map, in the order in which they are walked.
    pub closed spec fn keys(&self) -> Seq<FlowKey> {
        Seq::new(self.slots@.len(), |i: int| self.slots@[i].0)
    }

    /// A walk meets each flow of the map once, and no other.
    pub proof fn lemma_keys(&self)
        requires
            self.wf(),
        ensures
            self.keys().no_duplicates(),
            forall|k: FlowKey| #[trigger] self.keys().contains(k) <==> self@.dom().contains(k),
    {
        assert forall|k: FlowKey| #[trigger] self.keys().contains(k)
            <==> self@.dom().contains(k) by {
            if self.keys().contains(k) {
                let i = choose|i: int| 0 <= i < self.keys().len() && self.keys()[i] == k;
                self.lemma_slot_view(i);
            }
            if self@.dom().contains(k) {
                let i = choose|i: int| self.has_slot(i, k);
                assert(self.has_slot(i, k));
                assert(self.keys()[i] == k);
            }
        }
    }

    pub fn len(&self) -> (n: usize)
        ensures
            n == self.keys().len(),
    {
        self.slots.len()
    }

    pub fn key_at(&self, i: usize) -> (k: FlowKey)
        requires
            i < self.keys().len(),
        ensures
            k == self.keys()[i as int],
    {
        self.slots[i].0
    }

    pub fn value_at(&self, i: usize) -> (v: &V)
        requires
            self.wf(),
            i < self.keys().len(),
        ensures
            self@.dom().contains(self.keys()[i as int]),
            v@ == self@[self.keys()[i as int]],
    {
        proof {
            self.lemma_slot_view(i as int);
        }
        &self.slots[i].1
    }

    /// Puts `v` at the flow that the walk meets at `i`.
    pub fn set_at(&mut self, i: usize, v: V)
        requires
            old(self).wf(),
            i < old(self).keys().len(),
        ensures
            final(self).wf(),
            final(self).keys() == old(self).keys(),
            final(self)@ == old(self)@.insert(old(self).keys()[i as int], v@),
    {
        let k = self.slots[i].0;
        self.slots.set(i, (k, v));
        proof {
            assert(self.keys() =~= old(self).keys());
            self.lemma_keys();
            old(self).lemma_keys();
            self.lemma_slot_view(i as int);
            assert forall|q: FlowKey| #[trigger] self@.dom().contains(q) && q != k implies self@[q]
                == old(self)@[q] by {
                assert(self.keys().contains(q));
                let j = choose|j: int| 0 <= j < self.keys().len() && self.keys()[j] == q;
                self.lemma_slot_view(j);
                old(self).lemma_slot_view(j);
            }
            assert forall|q: FlowKey| #[trigger] self@.dom().contains(q) == old(
                self,
            )@.dom().contains(q) by {
                assert(self.keys().contains(q) == old(self).keys().contains(q));
            }
            old(self).lemma_slot_view(i as int);
            assert(self@ =~= old(self)@.insert(k, v@));
        }
    }

    /// Takes the flow that a walk meets last out of the map.
    pub fn pop_last(&mut self) -> (r: Option<(FlowKey, V)>)
        requires
            old(self).wf(),
        ensures
            final(self).wf(),
            match r {
                Some((k, v)) => {
                    &&& old(self)@.dom().contains(k)
                    &&& v@ == old(self)@[k]
                    &&& final(self)@ == old(self)@.remove(k)
                    &&& final(self).keys() == old(self).keys().drop_last()
                    &&& old(self).keys().len() > 0
                },
                None => old(self)@ == Map::<FlowKey, V::V>::empty() && final(self)@ == old(self)@,
            },
    {
        match self.slots.pop() {
            Some((k, v)) => {
                proof {
                    let last = old(self).slots@.len() - 1;
                    old(self).lemma_slot_view(last);
                    assert forall|q: FlowKey| q != k implies #[trigger] self@.dom().contains(q)
                        == old(self)@.dom().contains(q) && (self@.dom().contains(q) ==> self@[q]
                        == old(self)@[q]) by {
                        if self@.dom().contains(q) {
                            let j = choose|j: int| self.has_slot(j, q);
                            assert(self.has_slot(j, q));
                            assert(old(self).has_slot(j, q));
                            self.lemma_slot_view(j);
                            old(self).lemma_slot_view(j);
                        }
                        if old(self)@.dom().contains(q) {
                            let j = choose|j: int| old(self).has_slot(j, q);
                            assert(old(self).has_slot(j, q));
                            assert(self.has_slot(j, q));
                        }
                    }
                    if self@.dom().contains(k) {
                        let j = choose|j: int| self.has_slot(j, k);
                        assert(self.has_slot(j, k));
                        old(self).lemma_slot_unique(j, last);
                    }
                    assert(self@ =~= old(self)@.remove(k));
                    assert(self.keys() =~= old(self).keys().drop_last());
                }
                Some((k, v))
            },
            None => {
                assert(old(self)@ =~= Map::<FlowKey, V::V>::empty());
                None
            },
        }
    }
}

impl FlowMap<u64> {
    /// Another map with the same contents.
    pub fn duplicate(&self) -> (m: FlowMap<u64>)
        requires
            self.wf(),
        ensures
            m.wf(),
            m@ == self@,
    {
        let mut slots: Vec<(FlowKey, u64)> = Vec::new();
        let mut i: usize = 0;
        while i < self.slots.len()
            invariant
                i <= self.slots@.len(),
                slots@ == self.slots@.take(i as int),
            decreases self.slots@.len() - i,
        {
            slots.push((self.slots[i].0, self.slots[i].1));
            assert(slots@ =~= self.slots@.take(i + 1));
            i += 1;
        }
        let m = FlowMap { slots };
        assert(m.slots@ =~= self.slots@);
        assert forall|k: FlowKey| #[trigger] m@.dom().contains(k) == self@.dom().contains(k) by {
            if m@.dom().contains(k) {
                let j = choose|j: int| m.has_slot(j, k);
                assert(m.has_slot(j, k) && self.has_slot(j, k));
            }
            if self@.dom().contains(k) {
                let j = choose|j: int| self.has_slot(j, k);
                assert(self.has_slot(j, k) && m.has_slot(j, k));
            }
        }
        assert forall|k: FlowKey| #[trigger] m@.dom().contains(k) implies m@[k] == self@[k] by {
            let j = choose|j: int| m.has_slot(j, k);
            assert(m.has_slot(j, k));
            m.lemma_slot_view(j);
            self.lemma_slot_view(j);
        }
        assert(m@ =~= self@);
        m
    }
}

impl<V: View> View for FlowMap<V> {
    type V = Map<FlowKey, V::V>;

    closed spec fn view(&self) -> Map<FlowKey, V::V> {
        Map::new(
            |k: FlowKey| exists|i: int| self.has_slot(i, k),
            |k: FlowKey| self.slots@[choose|i: int| self.has_slot(i, k)].1@,
        )
    }
}

} // verus!
