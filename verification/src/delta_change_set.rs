use vstd::prelude::*;

verus! {

use crate::types::{SquashError, StateKey};
use crate::assoc::{as_map, keys_unique, lemma_as_map_contains, lemma_as_map_index,
    lemma_as_map_push, lemma_as_map_remove, lemma_as_map_empty, lemma_keys_unique_push};
use crate::codec::{u128_le_bytes, spec_decode_u128, lemma_decode_of_encoding, serialize_u128,
    deserialize_u128};
use crate::state_view::BaseValueSource;
use crate::write_set::{WriteOp, WriteOpView, entries_view};

/// The direction and magnitude of a pending adjustment.
#[derive(Clone, Copy, PartialEq, Eq, Structural, Debug)]
pub enum DeltaUpdate {
    Plus(u128),
    Minus(u128),
}

/// One pending, not-yet-applied numeric adjustment against a storage key.
///
/// Besides its net shift, a delta remembers the largest upward and downward
/// excursions that the underlying sequence of adjustments reached, so that
/// merging two deltas into one keeps every intermediate bound check: applying
/// the merged delta fails exactly where applying the two one at a time would.
#[derive(Clone, Copy, PartialEq, Eq, Structural, Debug)]
pub struct DeltaOp {
    /// The net adjustment.
    pub update: DeltaUpdate,
    /// The upper bound the running value must never exceed.
    pub max_value: u128,
    /// The largest value above the base that some prefix of the adjustments reaches.
    pub max_positive: u128,
    /// The largest value below the base that some prefix of the adjustments reaches.
    pub min_negative: u128,
}

impl DeltaOp {
    /// The net shift as a signed quantity.
    pub open spec fn spec_shift(self) -> int {
        match self.update {
            DeltaUpdate::Plus(v) => v as int,
            DeltaUpdate::Minus(v) => -(v as int),
        }
    }

    /// The excursions bound the net shift and stay within the value bound.
    pub open spec fn is_wf(self) -> bool {
        &&& self.max_positive <= self.max_value
        &&& self.min_negative <= self.max_value
        &&& match self.update {
            DeltaUpdate::Plus(v) => v <= self.max_positive,
            DeltaUpdate::Minus(v) => v <= self.min_negative,
        }
    }

    /// What applying this delta to a known base value yields: the shifted
    /// value, unless some intermediate adjustment would have left the
    /// `[0, max_value]` range.
    pub open spec fn spec_apply(self, base: u128) -> Result<u128, SquashError> {
        if base + self.max_positive > self.max_value {
            Err(SquashError::DeltaOverflow)
        } else if base < self.min_negative {
            Err(SquashError::DeltaUnderflow)
        } else {
            Ok((base + self.spec_shift()) as u128)
        }
    }

    /// What merging `prev` followed by `next` into one delta yields. The
    /// merged excursions cover both originals; merging fails when the
    /// combined excursions can no longer fit under the bound for any base,
    /// or when the two deltas were built against different bounds.
    pub open spec fn spec_merge(prev: DeltaOp, next: DeltaOp) -> Result<DeltaOp, SquashError> {
        if prev.max_value != next.max_value {
            Err(SquashError::DeltaLimitMismatch)
        } else {
            let l = prev.max_value as int;
            let up = if prev.spec_shift() + next.max_positive > prev.max_positive {
                prev.spec_shift() + next.max_positive
            } else {
                prev.max_positive as int
            };
            let down = if next.min_negative - prev.spec_shift() > prev.min_negative {
                next.min_negative - prev.spec_shift()
            } else {
                prev.min_negative as int
            };
            let sh = prev.spec_shift() + next.spec_shift();
            if up > l {
                Err(SquashError::DeltaOverflow)
            } else if down > l {
                Err(SquashError::DeltaUnderflow)
            } else {
                Ok(DeltaOp {
                    update: if sh >= 0 {
                        DeltaUpdate::Plus(sh as u128)
                    } else {
                        DeltaUpdate::Minus((-sh) as u128)
                    },
                    max_value: prev.max_value,
                    max_positive: up as u128,
                    min_negative: down as u128,
                })
            }
        }
    }

    /// Applies this delta to a known base value, reporting which bound an
    /// intermediate adjustment would have broken.
    pub fn apply_to(&self, base: u128) -> (r: Result<u128, SquashError>)
        requires
            self.is_wf(),
        ensures
            r == self.spec_apply(base),
    {
        if base > self.max_value || self.max_positive > self.max_value - base {
            Err(SquashError::DeltaOverflow)
        } else if base < self.min_negative {
            Err(SquashError::DeltaUnderflow)
        } else {
            match self.update {
                DeltaUpdate::Plus(v) => Ok(base + v),
                DeltaUpdate::Minus(v) => Ok(base - v),
            }
        }
    }

    /// Folds this delta after `previous` in execution order: `previous`
    /// carries the earlier effects, `self` the later ones.
    pub fn merge_onto(self, previous: DeltaOp) -> (r: Result<DeltaOp, SquashError>)
        requires
            self.is_wf(),
            previous.is_wf(),
        ensures
            r == DeltaOp::spec_merge(previous, self),
    {
        if previous.max_value != self.max_value {
            return Err(SquashError::DeltaLimitMismatch);
        }
        let l = previous.max_value;
        let up: u128 = match previous.update {
            DeltaUpdate::Plus(a) => {
                if self.max_positive > u128::MAX - a {
                    return Err(SquashError::DeltaOverflow);
                }
                let c = a + self.max_positive;
                if c > previous.max_positive {
                    c
                } else {
                    previous.max_positive
                }
            },
            DeltaUpdate::Minus(a) => {
                if self.max_positive >= a && self.max_positive - a > previous.max_positive {
                    self.max_positive - a
                } else {
                    previous.max_positive
                }
            },
        };
        if up > l {
            return Err(SquashError::DeltaOverflow);
        }
        let down: u128 = match previous.update {
            DeltaUpdate::Plus(a) => {
                if self.min_negative >= a && self.min_negative - a > previous.min_negative {
                    self.min_negative - a
                } else {
                    previous.min_negative
                }
            },
            DeltaUpdate::Minus(a) => {
                if self.min_negative > u128::MAX - a {
                    return Err(SquashError::DeltaUnderflow);
                }
                let c = a + self.min_negative;
                if c > previous.min_negative {
                    c
                } else {
                    previous.min_negative
                }
            },
        };
        if down > l {
            return Err(SquashError::DeltaUnderflow);
        }
        proof {
            assert(up as int == (if previous.spec_shift() + self.max_positive
                > previous.max_positive {
                previous.spec_shift() + self.max_positive
            } else {
                previous.max_positive as int
            }));
            assert(down as int == (if self.min_negative - previous.spec_shift()
                > previous.min_negative {
                self.min_negative - previous.spec_shift()
            } else {
                previous.min_negative as int
            }));
        }
        let update = match (previous.update, self.update) {
            (DeltaUpdate::Plus(a), DeltaUpdate::Plus(b)) => DeltaUpdate::Plus(a + b),
            (DeltaUpdate::Minus(a), DeltaUpdate::Minus(b)) => {
                if a + b == 0 {
                    DeltaUpdate::Plus(0)
                } else {
                    DeltaUpdate::Minus(a + b)
                }
            },
            (DeltaUpdate::Plus(a), DeltaUpdate::Minus(b)) => {
                if a >= b {
                    DeltaUpdate::Plus(a - b)
                } else {
                    DeltaUpdate::Minus(b - a)
                }
            },
            (DeltaUpdate::Minus(a), DeltaUpdate::Plus(b)) => {
                if b >= a {
                    DeltaUpdate::Plus(b - a)
                } else {
                    DeltaUpdate::Minus(a - b)
                }
            },
        };
        proof {
            let sh = previous.spec_shift() + self.spec_shift();
            assert(update == (if sh >= 0 {
                DeltaUpdate::Plus(sh as u128)
            } else {
                DeltaUpdate::Minus((-sh) as u128)
            }));
        }
        Ok(DeltaOp { update, max_value: l, max_positive: up, min_negative: down })
    }
}

/// A fresh addition delta, bounded by `max_value`.
pub fn delta_add(v: u128, max_value: u128) -> (r: DeltaOp)
    requires
        v <= max_value,
    ensures
        r.is_wf(),
        r.update == DeltaUpdate::Plus(v),
        r.max_value == max_value,
        r.max_positive == v,
        r.min_negative == 0u128,
{
    DeltaOp { update: DeltaUpdate::Plus(v), max_value, max_positive: v, min_negative: 0 }
}

/// A fresh subtraction delta, bounded by `max_value`.
pub fn delta_sub(v: u128, max_value: u128) -> (r: DeltaOp)
    requires
        v <= max_value,
    ensures
        r.is_wf(),
        r.update == DeltaUpdate::Minus(v),
        r.max_value == max_value,
        r.max_positive == 0u128,
        r.min_negative == v,
{
    DeltaOp { update: DeltaUpdate::Minus(v), max_value, max_positive: 0, min_negative: v }
}

/// What applying `prev` and then `next`, one at a time, to a base yields.
pub open spec fn spec_apply_seq(prev: DeltaOp, next: DeltaOp, base: u128) -> Result<
    u128,
    SquashError,
> {
    match prev.spec_apply(base) {
        Ok(mid) => next.spec_apply(mid),
        Err(e) => Err(e),
    }
}

/// Merging deltas preserves one-at-a-time semantics: when the merge succeeds,
/// applying the merged delta to any base succeeds exactly when applying the
/// two originals in order does, with the same value; when the merge fails,
/// the one-at-a-time application fails on every base as well, so the merged
/// form never silently diverges from the sequence it stands for.
pub proof fn lemma_merge_preserves_sequencing(prev: DeltaOp, next: DeltaOp, base: u128)
    requires
        prev.is_wf(),
        next.is_wf(),
        prev.max_value == next.max_value,
    ensures
        match DeltaOp::spec_merge(prev, next) {
            Ok(m) => m.is_wf() && m.max_value == prev.max_value && match spec_apply_seq(
                prev,
                next,
                base,
            ) {
                Ok(v) => m.spec_apply(base) == Ok::<u128, SquashError>(v),
                Err(_) => m.spec_apply(base) is Err,
            },
            Err(_) => spec_apply_seq(prev, next, base) is Err,
        },
{
    let l = prev.max_value as int;
    let p1 = prev.max_positive as int;
    let n1 = prev.min_negative as int;
    let p2 = next.max_positive as int;
    let n2 = next.min_negative as int;
    let d1 = prev.spec_shift();
    let d2 = next.spec_shift();
    assert(d1 <= p1 && -d1 <= n1 && d2 <= p2 && -d2 <= n2);
    let up = if d1 + p2 > p1 {
        d1 + p2
    } else {
        p1
    };
    let down = if n2 - d1 > n1 {
        n2 - d1
    } else {
        n1
    };
    let sh = d1 + d2;
    if up > l {
        if base + p1 <= l && base >= n1 {
            let mid = (base + d1) as u128;
            assert(0 <= base + d1 && base + d1 <= l);
            assert(mid + p2 > l);
        }
    } else if down > l {
        if base + p1 <= l && base >= n1 {
            let mid = (base + d1) as u128;
            assert(0 <= base + d1 && base + d1 <= l);
            assert(mid < n2);
        }
    } else {
        let m = match DeltaOp::spec_merge(prev, next) {
            Ok(m) => m,
            Err(_) => prev,
        };
        assert(m.max_positive as int == up && m.min_negative as int == down);
        assert(m.spec_shift() == sh);
        assert(m.is_wf());
        if base + up > l {
            if base + p1 <= l && base >= n1 {
                let mid = (base + d1) as u128;
                assert(0 <= base + d1 && base + d1 <= l);
                assert(mid + p2 > l);
            }
        } else if base < down {
            if base + p1 <= l && base >= n1 {
                let mid = (base + d1) as u128;
                assert(0 <= base + d1 && base + d1 <= l);
                assert(mid < n2);
            }
        } else {
            assert(base + p1 <= l && base >= n1);
            let mid = (base + d1) as u128;
            assert(0 <= base + d1 && base + d1 <= l);
            assert(mid + p2 <= l);
            assert(mid >= n2);
            assert(0 <= mid + d2 && mid + d2 <= l);
            assert(next.spec_apply(mid) == Ok::<u128, SquashError>((mid + d2) as u128));
            assert(m.spec_apply(base) == Ok::<u128, SquashError>((base + sh) as u128));
            assert(mid + d2 == base + sh);
        }
    }
}

/// What merging a whole sequence of deltas into one, first to last, yields.
pub open spec fn spec_merge_all(first: DeltaOp, rest: Seq<DeltaOp>) -> Result<DeltaOp, SquashError>
    decreases rest.len(),
{
    if rest.len() == 0 {
        Ok(first)
    } else {
        match DeltaOp::spec_merge(first, rest[0]) {
            Ok(m) => spec_merge_all(m, rest.skip(1)),
            Err(e) => Err(e),
        }
    }
}

/// What applying a whole sequence of deltas one at a time, first to last,
/// to a base value yields.
pub open spec fn spec_apply_all(first: DeltaOp, rest: Seq<DeltaOp>, base: u128) -> Result<
    u128,
    SquashError,
>
    decreases rest.len(),
{
    match first.spec_apply(base) {
        Ok(mid) => if rest.len() == 0 {
            Ok(mid)
        } else {
            spec_apply_all(rest[0], rest.skip(1), mid)
        },
        Err(e) => Err(e),
    }
}

/// The sequence form of merge preservation: folding any number of deltas on
/// one aggregator into a single delta keeps one-at-a-time semantics. When
/// the whole merge succeeds, applying the merged delta to any base succeeds
/// exactly when applying the originals one at a time does, with the same
/// value; when the merge fails, the one-at-a-time application fails on every
/// base too.
pub proof fn lemma_merge_all_preserves_sequencing(first: DeltaOp, rest: Seq<DeltaOp>, base: u128)
    requires
        first.is_wf(),
        forall|i: int|
            0 <= i < rest.len() ==> (#[trigger] rest[i]).is_wf() && rest[i].max_value
                == first.max_value,
    ensures
        match spec_merge_all(first, rest) {
            Ok(m) => m.is_wf() && m.max_value == first.max_value && match spec_apply_all(
                first,
                rest,
                base,
            ) {
                Ok(v) => m.spec_apply(base) == Ok::<u128, SquashError>(v),
                Err(_) => m.spec_apply(base) is Err,
            },
            Err(_) => spec_apply_all(first, rest, base) is Err,
        },
    decreases rest.len(),
{
    if rest.len() == 0 {
    } else {
        let d2 = rest[0];
        lemma_merge_preserves_sequencing(first, d2, base);
        match DeltaOp::spec_merge(first, d2) {
            Ok(m1) => {
                assert(forall|i: int|
                    0 <= i < rest.skip(1).len() ==> rest.skip(1)[i] == rest[i + 1]);
                lemma_merge_all_preserves_sequencing(m1, rest.skip(1), base);
                // The two tails see aligned starts: the merged head applies
                // to `base` exactly as the two originals do in order.
                match first.spec_apply(base) {
                    Ok(mid) => {
                        match d2.spec_apply(mid) {
                            Ok(mid2) => {
                                assert(m1.spec_apply(base) == Ok::<u128, SquashError>(mid2));
                                if rest.skip(1).len() == 0 {
                                } else {
                                    assert(spec_apply_all(first, rest, base) == spec_apply_all(
                                        d2,
                                        rest.skip(1),
                                        mid,
                                    ));
                                    assert(spec_apply_all(d2, rest.skip(1), mid)
                                        == spec_apply_all(
                                        rest.skip(1)[0],
                                        rest.skip(1).skip(1),
                                        mid2,
                                    ));
                                    assert(spec_apply_all(m1, rest.skip(1), base)
                                        == spec_apply_all(
                                        rest.skip(1)[0],
                                        rest.skip(1).skip(1),
                                        mid2,
                                    ));
                                }
                            },
                            Err(_) => {
                                assert(m1.spec_apply(base) is Err);
                            },
                        }
                    },
                    Err(_) => {
                        assert(m1.spec_apply(base) is Err);
                    },
                }
            },
            Err(_) => {
                // The head merge already fails, so step one or step two of
                // the one-at-a-time application fails.
                match first.spec_apply(base) {
                    Ok(mid) => {
                        assert(d2.spec_apply(mid) is Err);
                    },
                    Err(_) => {},
                }
            },
        }
    }
}

/// The set of pending deltas of one execution result: a mapping from storage
/// key to the one delta still speculative there. Keys are pairwise distinct.
#[derive(Clone, PartialEq, Eq, Debug)]
pub struct DeltaChangeSet {
    pub entries: Vec<(StateKey, DeltaOp)>,
}

impl View for DeltaChangeSet {
    type V = Map<StateKey, DeltaOp>;

    open spec fn view(&self) -> Map<StateKey, DeltaOp> {
        as_map(self.entries@)
    }
}

impl DeltaChangeSet {
    pub open spec fn is_wf(self) -> bool {
        keys_unique(self.entries@)
    }

    /// Every pending delta has sound excursions.
    pub open spec fn deltas_wf(self) -> bool {
        forall|i: int| 0 <= i < self.entries@.len() ==> (#[trigger] self.entries@[i]).1.is_wf()
    }

    pub fn empty() -> (r: DeltaChangeSet)
        ensures
            r.is_wf(),
            r.deltas_wf(),
            r@ == Map::<StateKey, DeltaOp>::empty(),
            r.entries@.len() == 0,
    {
        DeltaChangeSet { entries: Vec::new() }
    }

    pub fn len(&self) -> (r: usize)
        ensures
            r == self.entries@.len(),
    {
        self.entries.len()
    }

    /// Whether no delta is pending.
    pub fn is_empty(&self) -> (r: bool)
        ensures
            r == (self.entries@.len() == 0),
            r == (self@ == Map::<StateKey, DeltaOp>::empty()),
    {
        proof {
            lemma_as_map_empty(self.entries@);
        }
        self.entries.len() == 0
    }

    fn find_index(&self, k: StateKey) -> (r: Option<usize>)
        ensures
            match r {
                Some(i) => i < self.entries@.len() && self.entries@[i as int].0 == k,
                None => forall|j: int| 0 <= j < self.entries@.len() ==> self.entries@[j].0 != k,
            },
    {
        let n = self.entries.len();
        let mut i: usize = 0;
        while i < n
            invariant
                i <= n,
                n == self.entries@.len(),
                forall|j: int| 0 <= j < i ==> self.entries@[j].0 != k,
            decreases n - i,
        {
            if self.entries[i].0 .0 == k.0 {
                return Some(i);
            }
            i = i + 1;
        }
        None
    }

    /// The pending delta at `k`, if one is there.
    pub fn get(&self, k: StateKey) -> (r: Option<DeltaOp>)
        requires
            self.is_wf(),
        ensures
            match r {
                Some(d) => self@.contains_key(k) && self@[k] == d,
                None => !self@.contains_key(k),
            },
    {
        proof {
            lemma_as_map_contains(self.entries@, k);
        }
        match self.find_index(k) {
            Some(i) => {
                proof {
                    lemma_as_map_index(self.entries@, i as int);
                }
                Some(self.entries[i].1)
            },
            None => None,
        }
    }

    /// Puts `d` in as the pending delta at `k`, replacing any delta already
    /// there.
    pub fn insert(&mut self, k: StateKey, d: DeltaOp)
        requires
            old(self).is_wf(),
        ensures
            final(self).is_wf(),
            final(self)@ == old(self)@.insert(k, d),
            old(self).deltas_wf() && d.is_wf() ==> final(self).deltas_wf(),
    {
        let ghost pre = self@;
        self.remove(k);
        proof {
            lemma_as_map_contains(self.entries@, k);
            lemma_keys_unique_push(self.entries@, k, d);
            lemma_as_map_push(self.entries@, k, d);
            assert(self@.insert(k, d) =~= pre.insert(k, d));
        }
        self.entries.push((k, d));
    }

    /// A pending delta looked up through the mapping is well formed.
    pub proof fn lemma_wf_at(self, k: StateKey)
        requires
            self.is_wf(),
            self.deltas_wf(),
            self@.contains_key(k),
        ensures
            self@[k].is_wf(),
    {
        lemma_as_map_contains(self.entries@, k);
        let idx = choose|j: int| 0 <= j < self.entries@.len() && self.entries@[j].0 == k;
        lemma_as_map_index(self.entries@, idx);
    }

    /// Drops the pending delta at `k`, if one is there.
    pub fn remove(&mut self, k: StateKey)
        requires
            old(self).is_wf(),
        ensures
            final(self).is_wf(),
            final(self)@ == old(self)@.remove(k),
            old(self).deltas_wf() ==> final(self).deltas_wf(),
    {
        proof {
            lemma_as_map_contains(self.entries@, k);
        }
        match self.find_index(k) {
            Some(i) => {
                proof {
                    lemma_as_map_remove(self.entries@, i as int);
                }
                let _ = self.entries.remove(i);
            },
            None => {
                proof {
                    assert(self@.remove(k) =~= self@);
                }
            },
        }
    }
}

/// What materializing a sequence of pending deltas against a base-value
/// snapshot yields: for each delta in order, the base bytes are looked up,
/// decoded, shifted by the delta, and re-encoded as a concrete modification;
/// a missing base, an undecodable base or a delta bound failure aborts the
/// whole materialization.
pub open spec fn spec_materialize(
    entries: Seq<(StateKey, DeltaOp)>,
    base: Map<StateKey, Seq<u8>>,
) -> Result<Seq<(StateKey, WriteOpView)>, SquashError>
    decreases entries.len(),
{
    if entries.len() == 0 {
        Ok(Seq::empty())
    } else {
        let k = entries[0].0;
        let d = entries[0].1;
        if !base.contains_key(k) {
            Err(SquashError::BaseValueMissing)
        } else if base[k].len() != 16 {
            Err(SquashError::PayloadDecode)
        } else {
            match d.spec_apply(spec_decode_u128(base[k])) {
                Ok(v) => match spec_materialize(entries.skip(1), base) {
                    Ok(rest) => Ok(
                        Seq::empty().push((k, WriteOpView::Modification(u128_le_bytes(v)))) + rest,
                    ),
                    Err(e) => Err(e),
                },
                Err(e) => Err(e),
            }
        }
    }
}

impl DeltaChangeSet {
    /// Converts every pending delta into a concrete write by reading its
    /// key's current base value from `view`, following `spec_materialize`.
    /// One write comes out per delta, in entry order.
    pub fn take_materialized(self, view: &BaseValueSource) -> (r: Result<
        Vec<(StateKey, WriteOp)>,
        SquashError,
    >)
        requires
            self.is_wf(),
            self.deltas_wf(),
            view.is_wf(),
        ensures
            match spec_materialize(self.entries@, view@) {
                Ok(items) => r matches Ok(out) && entries_view(out@) == items && out@.len()
                    == self.entries@.len(),
                Err(e) => r matches Err(a) && a == e,
            },
    {
        let ghost full = self.entries@;
        let ghost base = view@;
        let n = self.entries.len();
        let mut out: Vec<(StateKey, WriteOp)> = Vec::new();
        let mut i: usize = 0;
        proof {
            assert(entries_view(out@) =~= Seq::<(StateKey, WriteOpView)>::empty());
            assert(full.skip(0) =~= full);
            match spec_materialize(full, base) {
                Ok(rest) => {
                    assert(entries_view(out@) + rest =~= rest);
                },
                Err(_) => {},
            }
        }
        while i < n
            invariant
                i <= n,
                n == self.entries@.len(),
                self.entries@ == full,
                view@ == base,
                view.is_wf(),
                self.is_wf(),
                self.deltas_wf(),
                out@.len() == i,
                match spec_materialize(full.skip(i as int), base) {
                    Ok(rest) => spec_materialize(full, base) == Ok::<
                        Seq<(StateKey, WriteOpView)>,
                        SquashError,
                    >(entries_view(out@) + rest),
                    Err(e) => spec_materialize(full, base) == Err::<
                        Seq<(StateKey, WriteOpView)>,
                        SquashError,
                    >(e),
                },
            decreases n - i,
        {
            let (k, d) = self.entries[i];
            proof {
                assert(full.skip(i as int)[0] == full[i as int]);
                assert(full.skip(i as int).skip(1) =~= full.skip(i as int + 1));
            }
            let bytes = match view.get_state_value(k) {
                Some(b) => b,
                None => {
                    return Err(SquashError::BaseValueMissing);
                },
            };
            let decoded = match deserialize_u128(bytes) {
                Some(v) => v,
                None => {
                    return Err(SquashError::PayloadDecode);
                },
            };
            proof {
                lemma_decode_of_encoding(decoded, bytes@);
            }
            let applied = match d.apply_to(decoded) {
                Ok(v) => v,
                Err(e) => {
                    return Err(e);
                },
            };
            let ghost out_pre = out@;
            out.push((k, WriteOp::Modification(serialize_u128(applied))));
            proof {
                assert(entries_view(out@) =~= entries_view(out_pre).push(
                    (k, WriteOpView::Modification(u128_le_bytes(applied))),
                ));
                match spec_materialize(full.skip(i as int + 1), base) {
                    Ok(rest) => {
                        assert(entries_view(out_pre) + (Seq::empty().push(
                            (k, WriteOpView::Modification(u128_le_bytes(applied))),
                        ) + rest) =~= entries_view(out@) + rest);
                    },
                    Err(_) => {},
                }
            }
            i = i + 1;
        }
        proof {
            assert(full.skip(n as int) =~= Seq::<(StateKey, DeltaOp)>::empty());
            assert(entries_view(out@) + Seq::<(StateKey, WriteOpView)>::empty() =~= entries_view(
                out@,
            ));
        }
        Ok(out)
    }
}

} // verus!
