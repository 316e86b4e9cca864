use vstd::prelude::*;

verus! {

use crate::types::StateKey;
use crate::assoc::{as_map, keys_unique, lemma_as_map_contains, lemma_as_map_index};

/// The view of a pair sequence: every value replaced by its byte sequence.
pub open spec fn values_view(s: Seq<(StateKey, Vec<u8>)>) -> Seq<(StateKey, Seq<u8>)> {
    s.map_values(|p: (StateKey, Vec<u8>)| (p.0, p.1@))
}

/// A snapshot of the ledger slice a materialization reads: for each key it
/// covers, the raw bytes currently stored there. A key it does not cover was
/// never written. The surrounding engine fills one in from its storage before
/// handing it to this layer.
#[derive(Clone, PartialEq, Eq, Debug)]
pub struct BaseValueSource {
    pub entries: Vec<(StateKey, Vec<u8>)>,
}

impl View for BaseValueSource {
    type V = Map<StateKey, Seq<u8>>;

    open spec fn view(&self) -> Map<StateKey, Seq<u8>> {
        as_map(values_view(self.entries@))
    }
}

impl BaseValueSource {
    pub open spec fn is_wf(self) -> bool {
        keys_unique(self.entries@)
    }

    pub fn empty() -> (r: BaseValueSource)
        ensures
            r.is_wf(),
            r@ == Map::<StateKey, Seq<u8>>::empty(),
    {
        let r = BaseValueSource { entries: Vec::new() };
        proof {
            assert(values_view(r.entries@) =~= Seq::<(StateKey, Seq<u8>)>::empty());
        }
        r
    }

    /// Records that `bytes` are stored under `k`; `k` must not be covered yet.
    pub fn add(&mut self, k: StateKey, bytes: Vec<u8>)
        requires
            old(self).is_wf(),
            !old(self)@.contains_key(k),
        ensures
            final(self).is_wf(),
            final(self)@ == old(self)@.insert(k, bytes@),
    {
        proof {
            assert(forall|j: int|
                0 <= j < self.entries@.len() ==> values_view(self.entries@)[j].0
                    == self.entries@[j].0);
            lemma_as_map_contains(values_view(self.entries@), k);
            crate::assoc::lemma_as_map_push(values_view(self.entries@), k, bytes@);
            assert(values_view(self.entries@.push((k, bytes))) =~= values_view(
                self.entries@,
            ).push((k, bytes@)));
        }
        self.entries.push((k, bytes));
    }

    /// The bytes stored under `k`, if that key is covered.
    #[verifier::loop_isolation(false)]
    pub fn get_state_value(&self, k: StateKey) -> (r: Option<&Vec<u8>>)
        requires
            self.is_wf(),
        ensures
            match r {
                Some(b) => self@.contains_key(k) && b@ == self@[k],
                None => !self@.contains_key(k),
            },
    {
        proof {
            assert(forall|j: int|
                0 <= j < self.entries@.len() ==> values_view(self.entries@)[j].0
                    == self.entries@[j].0);
            lemma_as_map_contains(values_view(self.entries@), k);
        }
        let n = self.entries.len();
        let mut i: usize = 0;
        while i < n
            invariant
                i <= n,
                n == self.entries@.len(),
                forall|j: int| 0 <= j < i ==> self.entries@[j].0 != k,
            decreases n - i,
        {
            if self.entries[i].0 .0 == k.0 {
                proof {
                    assert(forall|j: int|
                        0 <= j < self.entries@.len() ==> values_view(self.entries@)[j].0
                            == self.entries@[j].0);
                    assert(keys_unique(values_view(self.entries@)));
                    lemma_as_map_index(values_view(self.entries@), i as int);
                }
                return Some(&self.entries[i].1);
            }
            i = i + 1;
        }
        None
    }
}

} // verus!
