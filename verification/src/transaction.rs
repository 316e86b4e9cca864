use vstd::prelude::*;

verus! {

use std::sync::Arc;
use crate::types::{Event, SquashError, StateKey};
use crate::codec::{u128_le_bytes, spec_decode_u128, lemma_decode_of_encoding, serialize_u128,
    deserialize_u128};
use crate::delta_change_set::{DeltaOp, DeltaChangeSet, lemma_merge_preserves_sequencing};
use crate::write_set::{WriteOp, WriteOpView, WriteSet, is_deletion, view_data, view_with_data,
    spec_write_squash, entries_view};
use crate::change_set::{ChangeSet, CheckChangeSet};

/// A numeric value extracted out of a concrete write that is known to hold
/// an aggregator (a delta was seen for the same storage key).
#[derive(Clone, Copy, PartialEq, Eq, Structural, Debug)]
pub struct AggregatorValue(pub u128);

/// What extraction yields: nothing for a deletion, the decoded payload
/// otherwise.
pub open spec fn spec_extract(w: WriteOpView) -> Option<u128> {
    if is_deletion(w) {
        None
    } else {
        Some(spec_decode_u128(view_data(w)))
    }
}

/// Extracting from a creation that encodes `v` yields exactly `v` back, and
/// extracting from a deletion yields nothing.
pub proof fn lemma_extract_round_trip(v: u128)
    ensures
        spec_extract(WriteOpView::Creation(u128_le_bytes(v))) == Some(v),
        spec_extract(WriteOpView::Deletion) == None::<u128>,
{
    lemma_decode_of_encoding(v, u128_le_bytes(v));
}

impl AggregatorValue {
    /// Returns nothing if the write carries no value (a deletion), and the
    /// decoded value otherwise. Callers only hand in writes already known to
    /// hold an aggregator value, so a present payload is sixteen bytes.
    pub fn from_write(write: &WriteOp) -> (r: Option<AggregatorValue>)
        requires
            is_deletion(write@) || view_data(write@).len() == 16,
        ensures
            match r {
                Some(v) => spec_extract(write@) == Some(v.0),
                None => is_deletion(write@),
            },
    {
        let bytes = match write {
            WriteOp::Creation(d) => d,
            WriteOp::Modification(d) => d,
            WriteOp::CreationWithMetadata { data, .. } => data,
            WriteOp::ModificationWithMetadata { data, .. } => data,
            WriteOp::Deletion => {
                return None;
            },
            WriteOp::DeletionWithMetadata { .. } => {
                return None;
            },
        };
        match deserialize_u128(bytes) {
            Some(v) => {
                proof {
                    lemma_decode_of_encoding(v, bytes@);
                }
                Some(AggregatorValue(v))
            },
            None => {
                proof {
                    assert(false);
                }
                None
            },
        }
    }

    pub fn into(self) -> (r: u128)
        ensures
            r == self.0,
    {
        self.0
    }
}

/// What applying a delta to a serialized payload yields: the re-encoded
/// shifted value, or the failure of decoding or of the delta's own bounds.
pub open spec fn spec_apply_to_bytes(data: Seq<u8>, d: DeltaOp) -> Result<Seq<u8>, SquashError> {
    if data.len() != 16 {
        Err(SquashError::PayloadDecode)
    } else {
        match d.spec_apply(spec_decode_u128(data)) {
            Ok(v) => Ok(u128_le_bytes(v)),
            Err(e) => Err(e),
        }
    }
}

/// Applies `d` to the serialized aggregator payload `data`.
fn apply_delta_to_bytes(data: &Vec<u8>, d: &DeltaOp) -> (r: Result<Vec<u8>, SquashError>)
    requires
        d.is_wf(),
    ensures
        match r {
            Ok(out) => spec_apply_to_bytes(data@, *d) == Ok::<Seq<u8>, SquashError>(out@),
            Err(e) => spec_apply_to_bytes(data@, *d) == Err::<Seq<u8>, SquashError>(e),
        },
{
    let decoded = match deserialize_u128(data) {
        Some(v) => v,
        None => {
            return Err(SquashError::PayloadDecode);
        },
    };
    proof {
        lemma_decode_of_encoding(decoded, data@);
    }
    match d.apply_to(decoded) {
        Ok(v) => Ok(serialize_u128(v)),
        Err(e) => Err(e),
    }
}

/// One step of folding an incoming delta into a result's state: a resolved
/// write absorbs the delta into its payload (a deletion is a hard conflict),
/// a pending delta folds with it in execution order, and an untouched key
/// takes it as a new pending delta.
pub open spec fn delta_squash_step(
    deltas: Map<StateKey, DeltaOp>,
    writes: Map<StateKey, WriteOpView>,
    k: StateKey,
    d: DeltaOp,
) -> Result<(Map<StateKey, DeltaOp>, Map<StateKey, WriteOpView>), SquashError> {
    if writes.contains_key(k) {
        if is_deletion(writes[k]) {
            Err(SquashError::ApplyToDeleted)
        } else {
            match spec_apply_to_bytes(view_data(writes[k]), d) {
                Ok(nd) => Ok((deltas, writes.insert(k, view_with_data(writes[k], nd)))),
                Err(e) => Err(e),
            }
        }
    } else if deltas.contains_key(k) {
        match DeltaOp::spec_merge(deltas[k], d) {
            Ok(m) => Ok((deltas.insert(k, m), writes)),
            Err(e) => Err(e),
        }
    } else {
        Ok((deltas.insert(k, d), writes))
    }
}

/// Folding a whole sequence of incoming deltas, first to last; the first
/// failure aborts the fold.
pub open spec fn delta_squash_fold(
    deltas: Map<StateKey, DeltaOp>,
    writes: Map<StateKey, WriteOpView>,
    incoming: Seq<(StateKey, DeltaOp)>,
) -> Result<(Map<StateKey, DeltaOp>, Map<StateKey, WriteOpView>), SquashError>
    decreases incoming.len(),
{
    if incoming.len() == 0 {
        Ok((deltas, writes))
    } else {
        match delta_squash_step(deltas, writes, incoming[0].0, incoming[0].1) {
            Ok(s) => delta_squash_fold(s.0, s.1, incoming.skip(1)),
            Err(e) => Err(e),
        }
    }
}

/// A delta aimed at a key whose resolved write is a deletion is rejected
/// with the apply-to-deleted conflict, whatever the rest of the state holds.
pub proof fn lemma_delta_on_deleted_rejected(
    deltas: Map<StateKey, DeltaOp>,
    writes: Map<StateKey, WriteOpView>,
    k: StateKey,
    d: DeltaOp,
)
    requires
        writes.contains_key(k),
        is_deletion(writes[k]),
    ensures
        delta_squash_step(deltas, writes, k, d) == Err::<
            (Map<StateKey, DeltaOp>, Map<StateKey, WriteOpView>),
            SquashError,
        >(SquashError::ApplyToDeleted),
{
}

/// One step of folding an incoming concrete write into a result's state: a
/// key with a resolved write takes the pairwise write squash (which may
/// cancel both), and an untouched key takes the write while any pending
/// delta there is discarded, the concrete value now being authoritative.
pub open spec fn write_squash_step(
    deltas: Map<StateKey, DeltaOp>,
    writes: Map<StateKey, WriteOpView>,
    k: StateKey,
    op: WriteOpView,
) -> Result<(Map<StateKey, DeltaOp>, Map<StateKey, WriteOpView>), SquashError> {
    if writes.contains_key(k) {
        match spec_write_squash(writes[k], op) {
            Ok(Some(w)) => Ok((deltas, writes.insert(k, w))),
            Ok(None) => Ok((deltas, writes.remove(k))),
            Err(e) => Err(e),
        }
    } else {
        Ok((deltas.remove(k), writes.insert(k, op)))
    }
}

/// A concrete write arriving at a key with no resolved write yet supersedes
/// any pending delta there: the delta is erased and only the write remains.
pub proof fn lemma_write_supersedes_delta(
    deltas: Map<StateKey, DeltaOp>,
    writes: Map<StateKey, WriteOpView>,
    k: StateKey,
    op: WriteOpView,
)
    requires
        !writes.contains_key(k),
    ensures
        write_squash_step(deltas, writes, k, op) == Ok::<
            (Map<StateKey, DeltaOp>, Map<StateKey, WriteOpView>),
            SquashError,
        >((deltas.remove(k), writes.insert(k, op))),
        !deltas.remove(k).contains_key(k),
        writes.insert(k, op)[k] == op,
{
}

/// Folding a whole sequence of incoming writes, first to last.
pub open spec fn write_squash_fold(
    deltas: Map<StateKey, DeltaOp>,
    writes: Map<StateKey, WriteOpView>,
    incoming: Seq<(StateKey, WriteOpView)>,
) -> Result<(Map<StateKey, DeltaOp>, Map<StateKey, WriteOpView>), SquashError>
    decreases incoming.len(),
{
    if incoming.len() == 0 {
        Ok((deltas, writes))
    } else {
        match write_squash_step(deltas, writes, incoming[0].0, incoming[0].1) {
            Ok(s) => write_squash_fold(s.0, s.1, incoming.skip(1)),
            Err(e) => Err(e),
        }
    }
}

/// An execution result under accumulation: the pending deltas and the
/// resolved writes-and-events of the transactions squashed so far, bound to
/// the shared validation policy. No key is ever pending and resolved at
/// once.
pub struct ChangeSetExt<C: CheckChangeSet> {
    pub delta_change_set: DeltaChangeSet,
    pub change_set: ChangeSet,
    pub checker: Arc<C>,
}

impl<C: CheckChangeSet> ChangeSetExt<C> {
    pub open spec fn is_wf(self) -> bool {
        &&& self.delta_change_set.is_wf()
        &&& self.delta_change_set.deltas_wf()
        &&& self.change_set.is_wf()
        &&& forall|k: StateKey| #[trigger]
            self.delta_change_set@.contains_key(k) ==> !self.change_set.write_set@.contains_key(k)
    }

    pub fn new(delta_change_set: DeltaChangeSet, change_set: ChangeSet, checker: Arc<C>) -> (r:
        ChangeSetExt<C>)
        ensures
            r.delta_change_set == delta_change_set,
            r.change_set == change_set,
            r.checker == checker,
    {
        ChangeSetExt { delta_change_set, change_set, checker }
    }

    pub fn empty(checker: Arc<C>) -> (r: ChangeSetExt<C>)
        ensures
            r.is_wf(),
            r.delta_change_set@ == Map::<StateKey, DeltaOp>::empty(),
            r.delta_change_set.entries@.len() == 0,
            r.change_set.write_set@ == Map::<StateKey, WriteOpView>::empty(),
            r.change_set.events@ == Seq::<Event>::empty(),
            r.checker == checker,
    {
        ChangeSetExt {
            delta_change_set: DeltaChangeSet::empty(),
            change_set: ChangeSet::empty(),
            checker,
        }
    }

    pub fn change_set(&self) -> (r: &ChangeSet)
        ensures
            *r == self.change_set,
    {
        &self.change_set
    }

    pub fn delta_change_set(&self) -> (r: &DeltaChangeSet)
        ensures
            *r == self.delta_change_set,
    {
        &self.delta_change_set
    }

    pub fn write_set(&self) -> (r: &WriteSet)
        ensures
            *r == self.change_set.write_set,
    {
        self.change_set.write_set()
    }

    pub fn into_inner(self) -> (r: (DeltaChangeSet, ChangeSet))
        ensures
            r.0 == self.delta_change_set,
            r.1 == self.change_set,
    {
        (self.delta_change_set, self.change_set)
    }

    /// Squashes the pending deltas of a later transaction into this result,
    /// key by key, following `delta_squash_fold`; the finished write set and
    /// events must then pass the shared policy. The whole input is consumed;
    /// on an error no partial state survives.
    #[verifier::loop_isolation(false)]
    pub fn squash_delta_change_set(self, other: DeltaChangeSet) -> (r: Result<
        ChangeSetExt<C>,
        SquashError,
    >)
        requires
            self.is_wf(),
            other.deltas_wf(),
        ensures
            match delta_squash_fold(
                self.delta_change_set@,
                self.change_set.write_set@,
                other.entries@,
            ) {
                Ok(s) => {
                    if self.checker.spec_check(s.1, self.change_set.events@) {
                        r matches Ok(res) && res.is_wf() && res.delta_change_set@ == s.0
                            && res.change_set.write_set@ == s.1 && res.change_set.events@
                            == self.change_set.events@ && res.checker == self.checker
                    } else {
                        r matches Err(e) && e == SquashError::PolicyRejected
                    }
                },
                Err(e) => r matches Err(a) && a == e,
            },
    {
        let ChangeSetExt { delta_change_set: mut deltas, change_set, checker } = self;
        let ChangeSet { write_set: mut writes, events } = change_set;
        let ghost d0 = deltas@;
        let ghost w0 = writes@;
        let ghost seq0 = other.entries@;
        let n = other.entries.len();
        let mut i: usize = 0;
        proof {
            assert(seq0.skip(0) =~= seq0);
        }
        while i < n
            invariant
                i <= n,
                n == other.entries@.len(),
                other.entries@ == seq0,
                other.deltas_wf(),
                deltas.is_wf(),
                deltas.deltas_wf(),
                writes.is_wf(),
                forall|k: StateKey| #[trigger]
                    deltas@.contains_key(k) ==> !writes@.contains_key(k),
                delta_squash_fold(d0, w0, seq0) == delta_squash_fold(
                    deltas@,
                    writes@,
                    seq0.skip(i as int),
                ),
            decreases n - i,
        {
            let (k, d) = other.entries[i];
            proof {
                assert(seq0.skip(i as int)[0] == seq0[i as int]);
                assert(seq0.skip(i as int).skip(1) =~= seq0.skip(i as int + 1));
                assert(other.entries@[i as int].1.is_wf());
            }
            let ghost wpre = writes@;
            match writes.take(k) {
                Some(existing) => {
                    let new_op = match existing {
                        WriteOp::Creation(data) => {
                            match apply_delta_to_bytes(&data, &d) {
                                Ok(nd) => WriteOp::Creation(nd),
                                Err(e) => {
                                    return Err(e);
                                },
                            }
                        },
                        WriteOp::Modification(data) => {
                            match apply_delta_to_bytes(&data, &d) {
                                Ok(nd) => WriteOp::Modification(nd),
                                Err(e) => {
                                    return Err(e);
                                },
                            }
                        },
                        WriteOp::CreationWithMetadata { data, metadata } => {
                            match apply_delta_to_bytes(&data, &d) {
                                Ok(nd) => WriteOp::CreationWithMetadata { data: nd, metadata },
                                Err(e) => {
                                    return Err(e);
                                },
                            }
                        },
                        WriteOp::ModificationWithMetadata { data, metadata } => {
                            match apply_delta_to_bytes(&data, &d) {
                                Ok(nd) => WriteOp::ModificationWithMetadata {
                                    data: nd,
                                    metadata,
                                },
                                Err(e) => {
                                    return Err(e);
                                },
                            }
                        },
                        WriteOp::Deletion => {
                            return Err(SquashError::ApplyToDeleted);
                        },
                        WriteOp::DeletionWithMetadata { .. } => {
                            return Err(SquashError::ApplyToDeleted);
                        },
                    };
                    writes.insert(k, new_op);
                    proof {
                        assert(writes@ =~= wpre.insert(k, new_op@));
                    }
                },
                None => {
                    match deltas.get(k) {
                        Some(existing_d) => {
                            proof {
                                deltas.lemma_wf_at(k);
                            }
                            match d.merge_onto(existing_d) {
                                Ok(m) => {
                                    proof {
                                        assert(existing_d.max_value == d.max_value);
                                        lemma_merge_preserves_sequencing(existing_d, d, 0);
                                    }
                                    deltas.insert(k, m);
                                },
                                Err(e) => {
                                    return Err(e);
                                },
                            }
                        },
                        None => {
                            deltas.insert(k, d);
                        },
                    }
                },
            }
            i = i + 1;
        }
        proof {
            assert(seq0.skip(n as int) =~= Seq::<(StateKey, DeltaOp)>::empty());
        }
        match ChangeSet::new(writes, events, &*checker) {
            Ok(cs) => Ok(ChangeSetExt { delta_change_set: deltas, change_set: cs, checker }),
            Err(e) => Err(e),
        }
    }

    /// Squashes the concrete writes and events of a later transaction into
    /// this result, key by key, following `write_squash_fold`; the incoming
    /// events are appended after the existing ones, and the finished pair
    /// must pass the shared policy. The whole input is consumed; on an error
    /// no partial state survives.
    #[verifier::loop_isolation(false)]
    pub fn squash_change_set(self, other: ChangeSet) -> (r: Result<ChangeSetExt<C>, SquashError>)
        requires
            self.is_wf(),
        ensures
            match write_squash_fold(
                self.delta_change_set@,
                self.change_set.write_set@,
                entries_view(other.write_set.entries@),
            ) {
                Ok(s) => {
                    if self.checker.spec_check(s.1, self.change_set.events@ + other.events@) {
                        r matches Ok(res) && res.is_wf() && res.delta_change_set@ == s.0
                            && res.change_set.write_set@ == s.1 && res.change_set.events@
                            == self.change_set.events@ + other.events@ && res.checker
                            == self.checker
                    } else {
                        r matches Err(e) && e == SquashError::PolicyRejected
                    }
                },
                Err(e) => r matches Err(a) && a == e,
            },
    {
        let ChangeSetExt { delta_change_set: mut deltas, change_set, checker } = self;
        let ChangeSet { write_set: mut writes, events } = change_set;
        let mut events = events;
        let ghost d0 = deltas@;
        let ghost w0 = writes@;
        let ghost seq0 = entries_view(other.write_set.entries@);
        let ChangeSet { write_set: other_writes, events: mut other_events } = other;
        let mut incoming = other_writes.entries;
        proof {
            assert(seq0.skip(0) =~= seq0);
        }
        while incoming.len() > 0
            invariant
                deltas.is_wf(),
                deltas.deltas_wf(),
                writes.is_wf(),
                forall|k: StateKey| #[trigger]
                    deltas@.contains_key(k) ==> !writes@.contains_key(k),
                write_squash_fold(d0, w0, seq0) == write_squash_fold(
                    deltas@,
                    writes@,
                    entries_view(incoming@),
                ),
            decreases incoming.len(),
        {
            let ghost inpre = incoming@;
            let (k, op) = incoming.remove(0);
            proof {
                assert(entries_view(inpre)[0] == (k, op@));
                assert(entries_view(incoming@) =~= entries_view(inpre).skip(1));
            }
            let ghost wpre = writes@;
            match writes.take(k) {
                Some(existing) => {
                    match WriteOp::squash(existing, op) {
                        Ok(Some(w)) => {
                            writes.insert(k, w);
                            proof {
                                assert(writes@ =~= wpre.insert(k, w@));
                            }
                        },
                        Ok(None) => {},
                        Err(e) => {
                            return Err(e);
                        },
                    }
                },
                None => {
                    deltas.remove(k);
                    writes.insert(k, op);
                },
            }
        }
        proof {
            assert(entries_view(incoming@) =~= Seq::<(StateKey, WriteOpView)>::empty());
        }
        events.append(&mut other_events);
        match ChangeSet::new(writes, events, &*checker) {
            Ok(cs) => Ok(ChangeSetExt { delta_change_set: deltas, change_set: cs, checker }),
            Err(e) => Err(e),
        }
    }

    /// Squashes a whole later result into this one: first its concrete
    /// writes, then its pending deltas. That order is what lets a delta that
    /// lands on a key the later transaction itself wrote be checked against
    /// the later write, not against this result's older state.
    pub fn squash(self, other: ChangeSetExt<C>) -> (r: Result<ChangeSetExt<C>, SquashError>)
        requires
            self.is_wf(),
            other.is_wf(),
        ensures
            match write_squash_fold(
                self.delta_change_set@,
                self.change_set.write_set@,
                entries_view(other.change_set.write_set.entries@),
            ) {
                Ok(s1) => {
                    let ev = self.change_set.events@ + other.change_set.events@;
                    if self.checker.spec_check(s1.1, ev) {
                        match delta_squash_fold(s1.0, s1.1, other.delta_change_set.entries@) {
                            Ok(s2) => {
                                if self.checker.spec_check(s2.1, ev) {
                                    r matches Ok(res) && res.is_wf() && res.delta_change_set@
                                        == s2.0 && res.change_set.write_set@ == s2.1
                                        && res.change_set.events@ == ev && res.checker
                                        == self.checker
                                } else {
                                    r matches Err(e) && e == SquashError::PolicyRejected
                                }
                            },
                            Err(e) => r matches Err(a) && a == e,
                        }
                    } else {
                        r matches Err(e) && e == SquashError::PolicyRejected
                    }
                },
                Err(e) => r matches Err(a) && a == e,
            },
    {
        let (delta_change_set, change_set) = other.into_inner();
        match self.squash_change_set(change_set) {
            Ok(mid) => mid.squash_delta_change_set(delta_change_set),
            Err(e) => Err(e),
        }
    }
}

} // verus!
