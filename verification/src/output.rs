use vstd::prelude::*;

verus! {

use crate::types::{Event, SquashError, StateKey};
use crate::delta_change_set::{DeltaChangeSet, spec_materialize};
use crate::state_view::BaseValueSource;
use crate::write_set::{WriteOp, WriteOpView, WriteSet, entries_view};

/// How the engine will treat a transaction's output.
#[derive(Clone, Copy, PartialEq, Eq, Structural, Debug)]
pub enum TransactionStatus {
    /// The output is to be applied; the code describes how execution ended.
    Keep(u64),
    /// The output is to be discarded, with the code saying why.
    Discard(u64),
    /// The transaction is to be run again.
    Retry,
}

impl TransactionStatus {
    /// Whether the output is not to be applied.
    pub open spec fn spec_is_discarded(self) -> bool {
        !(self is Keep)
    }

    pub fn is_discarded(&self) -> (r: bool)
        ensures
            r == self.spec_is_discarded(),
    {
        match self {
            TransactionStatus::Keep(_) => false,
            _ => true,
        }
    }
}

/// The externally visible output of one executed transaction.
#[derive(Clone, PartialEq, Eq, Debug)]
pub struct TransactionOutput {
    pub write_set: WriteSet,
    pub events: Vec<Event>,
    pub gas_used: u64,
    pub status: TransactionStatus,
}

impl TransactionOutput {
    pub open spec fn is_wf(self) -> bool {
        self.write_set.is_wf()
    }

    pub fn new(
        write_set: WriteSet,
        events: Vec<Event>,
        gas_used: u64,
        status: TransactionStatus,
    ) -> (r: TransactionOutput)
        ensures
            r == (TransactionOutput { write_set, events, gas_used, status }),
    {
        TransactionOutput { write_set, events, gas_used, status }
    }

    pub fn unpack(self) -> (r: (WriteSet, Vec<Event>, u64, TransactionStatus))
        ensures
            r.0 == self.write_set,
            r.1 == self.events,
            r.2 == self.gas_used,
            r.3 == self.status,
    {
        (self.write_set, self.events, self.gas_used, self.status)
    }

    pub fn status(&self) -> (r: &TransactionStatus)
        ensures
            *r == self.status,
    {
        &self.status
    }
}

/// What splicing a batch of materialized writes into a write set yields:
/// each one is put in under its key in order, a later entry for the same key
/// winning, every key the batch does not name keeping its prior write.
pub open spec fn splice_fold(
    writes: Map<StateKey, WriteOpView>,
    items: Seq<(StateKey, WriteOpView)>,
) -> Map<StateKey, WriteOpView>
    decreases items.len(),
{
    if items.len() == 0 {
        writes
    } else {
        splice_fold(writes.insert(items[0].0, items[0].1), items.skip(1))
    }
}

/// Splicing is complete: afterwards the write set holds a key exactly when
/// it held it before or the batch names it.
pub proof fn lemma_splice_dom(
    writes: Map<StateKey, WriteOpView>,
    items: Seq<(StateKey, WriteOpView)>,
    k: StateKey,
)
    ensures
        splice_fold(writes, items).contains_key(k) <==> (writes.contains_key(k) || exists|i: int|
            0 <= i < items.len() && items[i].0 == k),
    decreases items.len(),
{
    if items.len() == 0 {
    } else {
        let w1 = writes.insert(items[0].0, items[0].1);
        lemma_splice_dom(w1, items.skip(1), k);
        if splice_fold(writes, items).contains_key(k) && !writes.contains_key(k) {
            if w1.contains_key(k) {
                assert(items[0].0 == k);
            } else {
                let i = choose|i: int| 0 <= i < items.skip(1).len() && items.skip(1)[i].0 == k;
                assert(items[i + 1].0 == k);
            }
        }
        if exists|i: int| 0 <= i < items.len() && items[i].0 == k {
            let i = choose|i: int| 0 <= i < items.len() && items[i].0 == k;
            if i == 0 {
                assert(w1.contains_key(k));
            } else {
                assert(items.skip(1)[i - 1].0 == k);
            }
        }
    }
}

/// Splicing is harmless: a key the batch does not name keeps its old write.
pub proof fn lemma_splice_untouched(
    writes: Map<StateKey, WriteOpView>,
    items: Seq<(StateKey, WriteOpView)>,
    k: StateKey,
)
    requires
        forall|i: int| 0 <= i < items.len() ==> items[i].0 != k,
    ensures
        splice_fold(writes, items).contains_key(k) == writes.contains_key(k),
        writes.contains_key(k) ==> splice_fold(writes, items)[k] == writes[k],
    decreases items.len(),
{
    if items.len() == 0 {
    } else {
        let w1 = writes.insert(items[0].0, items[0].1);
        assert(forall|i: int| 0 <= i < items.skip(1).len() ==> items.skip(1)[i].0 != k);
        lemma_splice_untouched(w1, items.skip(1), k);
    }
}

/// Splicing is exact: when the batch's keys are distinct, each spliced key
/// ends mapped to precisely the write supplied for it.
pub proof fn lemma_splice_at(
    writes: Map<StateKey, WriteOpView>,
    items: Seq<(StateKey, WriteOpView)>,
    i: int,
)
    requires
        crate::assoc::keys_unique(items),
        0 <= i < items.len(),
    ensures
        splice_fold(writes, items).contains_key(items[i].0),
        splice_fold(writes, items)[items[i].0] == items[i].1,
    decreases items.len(),
{
    let w1 = writes.insert(items[0].0, items[0].1);
    if i == 0 {
        assert(forall|j: int| 0 <= j < items.skip(1).len() ==> items.skip(1)[j].0 != items[0].0);
        lemma_splice_untouched(w1, items.skip(1), items[0].0);
    } else {
        assert(crate::assoc::keys_unique(items.skip(1)));
        assert(items.skip(1)[i - 1] == items[i]);
        lemma_splice_at(w1, items.skip(1), i - 1);
    }
}

/// Materialization is complete and touches nothing else: splicing a batch
/// of materialized writes with pairwise-distinct keys into an output's write
/// set yields a set that holds a write for every batch key — precisely the
/// write supplied for it — holds exactly the prior keys plus the batch's,
/// and leaves every key the batch does not name with its prior write.
pub proof fn lemma_splice_is_complete(
    writes: Map<StateKey, WriteOpView>,
    items: Seq<(StateKey, WriteOpView)>,
)
    requires
        crate::assoc::keys_unique(items),
    ensures
        forall|i: int|
            0 <= i < items.len() ==> splice_fold(writes, items).contains_key(
                (#[trigger] items[i]).0,
            ) && splice_fold(writes, items)[items[i].0] == items[i].1,
        forall|k: StateKey|
            #[trigger] splice_fold(writes, items).contains_key(k) <==> (writes.contains_key(k)
                || exists|i: int| 0 <= i < items.len() && items[i].0 == k),
        forall|k: StateKey|
            (forall|i: int| 0 <= i < items.len() ==> items[i].0 != k) && writes.contains_key(k)
                ==> #[trigger] splice_fold(writes, items)[k] == writes[k],
{
    assert forall|i: int|
        0 <= i < items.len() implies splice_fold(writes, items).contains_key(
        (#[trigger] items[i]).0,
    ) && splice_fold(writes, items)[items[i].0] == items[i].1 by {
        lemma_splice_at(writes, items, i);
    }
    assert forall|k: StateKey|
        #[trigger] splice_fold(writes, items).contains_key(k) <==> (writes.contains_key(k)
            || exists|i: int| 0 <= i < items.len() && items[i].0 == k) by {
        lemma_splice_dom(writes, items, k);
    }
    assert forall|k: StateKey|
        (forall|i: int| 0 <= i < items.len() ==> items[i].0 != k) && writes.contains_key(
            k,
        ) implies #[trigger] splice_fold(writes, items)[k] == writes[k] by {
        lemma_splice_untouched(writes, items, k);
    }
}

/// The output of one speculative execution together with the deltas it left
/// pending. Consuming it materializes those deltas into concrete writes and
/// splices them into the output.
#[derive(Clone, PartialEq, Eq, Debug)]
pub struct TransactionOutputExt {
    pub delta_change_set: DeltaChangeSet,
    pub output: TransactionOutput,
}

impl TransactionOutputExt {
    pub open spec fn is_wf(self) -> bool {
        &&& self.delta_change_set.is_wf()
        &&& self.delta_change_set.deltas_wf()
        &&& self.output.is_wf()
    }

    /// Whether no delta needs materializing: a discarded output or an empty
    /// pending set is returned unchanged.
    pub open spec fn spec_short_circuits(self) -> bool {
        self.output.status.spec_is_discarded() || self.delta_change_set.entries@.len() == 0
    }

    pub fn new(delta_change_set: DeltaChangeSet, output: TransactionOutput) -> (r:
        TransactionOutputExt)
        ensures
            r.delta_change_set == delta_change_set,
            r.output == output,
    {
        TransactionOutputExt { delta_change_set, output }
    }

    pub fn delta_change_set(&self) -> (r: &DeltaChangeSet)
        ensures
            *r == self.delta_change_set,
    {
        &self.delta_change_set
    }

    pub fn txn_output(&self) -> (r: &TransactionOutput)
        ensures
            *r == self.output,
    {
        &self.output
    }

    pub fn into(self) -> (r: (DeltaChangeSet, TransactionOutput))
        ensures
            r.0 == self.delta_change_set,
            r.1 == self.output,
    {
        (self.delta_change_set, self.output)
    }

    /// Splices a batch of materialized writes into an output's write set,
    /// leaving its events, resource usage and status untouched.
    #[verifier::loop_isolation(false)]
    fn merge_delta_writes(output: TransactionOutput, delta_writes: Vec<(StateKey, WriteOp)>) -> (r:
        TransactionOutput)
        requires
            output.is_wf(),
        ensures
            r.write_set.is_wf(),
            r.write_set@ == splice_fold(output.write_set@, entries_view(delta_writes@)),
            r.events == output.events,
            r.gas_used == output.gas_used,
            r.status == output.status,
    {
        let (write_set, events, gas_used, status) = output.unpack();
        let mut write_set = write_set;
        let ghost w0 = write_set@;
        let ghost items0 = entries_view(delta_writes@);
        let mut delta_writes = delta_writes;
        proof {
            assert(items0.skip(0) =~= items0);
        }
        while delta_writes.len() > 0
            invariant
                write_set.is_wf(),
                splice_fold(w0, items0) == splice_fold(write_set@, entries_view(delta_writes@)),
            decreases delta_writes.len(),
        {
            let ghost pre = delta_writes@;
            let (k, op) = delta_writes.remove(0);
            proof {
                assert(entries_view(pre)[0] == (k, op@));
                assert(entries_view(delta_writes@) =~= entries_view(pre).skip(1));
            }
            write_set.insert(k, op);
        }
        proof {
            assert(entries_view(delta_writes@) =~= Seq::<(StateKey, WriteOpView)>::empty());
        }
        TransactionOutput::new(write_set, events, gas_used, status)
    }

    /// Consumes this result, materializing every pending delta against the
    /// base values in `state_view` and splicing the outcome into the output.
    /// A discarded output, or one with nothing pending, comes back unchanged
    /// without touching `state_view`. Callers only reach the materializing
    /// path with deltas whose bases are present and in range, so the
    /// materialization itself cannot fail here; how resource usage ought to
    /// be recharged if it ever did is a question for the surrounding engine,
    /// which must abort rather than continue.
    pub fn into_transaction_output(self, state_view: &BaseValueSource) -> (r: TransactionOutput)
        requires
            self.is_wf(),
            state_view.is_wf(),
            !self.spec_short_circuits() ==> spec_materialize(
                self.delta_change_set.entries@,
                state_view@,
            ) is Ok,
        ensures
            self.spec_short_circuits() ==> r == self.output,
            !self.spec_short_circuits() ==> (match spec_materialize(
                self.delta_change_set.entries@,
                state_view@,
            ) {
                Ok(items) => r.write_set.is_wf() && r.write_set@ == splice_fold(
                    self.output.write_set@,
                    items,
                ) && r.events == self.output.events && r.gas_used == self.output.gas_used
                    && r.status == self.output.status,
                Err(_) => false,
            }),
    {
        let TransactionOutputExt { delta_change_set, output } = self;
        if output.status.is_discarded() || delta_change_set.is_empty() {
            return output;
        }
        match delta_change_set.take_materialized(state_view) {
            Ok(delta_writes) => Self::merge_delta_writes(output, delta_writes),
            Err(_) => {
                proof {
                    assert(false);
                }
                output
            },
        }
    }

    /// Consumes this result, splicing an externally materialized batch of
    /// writes into the output: one write per pending delta. A discarded
    /// output, or one with nothing pending, comes back unchanged.
    pub fn output_with_delta_writes(self, delta_writes: Vec<(StateKey, WriteOp)>) -> (r:
        TransactionOutput)
        requires
            self.is_wf(),
            !self.spec_short_circuits() ==> delta_writes@.len()
                == self.delta_change_set.entries@.len(),
        ensures
            self.spec_short_circuits() ==> r == self.output,
            !self.spec_short_circuits() ==> r.write_set.is_wf() && r.write_set@ == splice_fold(
                self.output.write_set@,
                entries_view(delta_writes@),
            ) && r.events == self.output.events && r.gas_used == self.output.gas_used && r.status
                == self.output.status,
    {
        let TransactionOutputExt { delta_change_set, output } = self;
        if output.status.is_discarded() || delta_change_set.is_empty() {
            return output;
        }
        Self::merge_delta_writes(output, delta_writes)
    }
}

impl From<TransactionOutput> for TransactionOutputExt {
    /// Wraps an output that left no deltas pending: the result carries the
    /// given output unchanged and an empty pending-delta set, so finalizing
    /// it short-circuits and hands the output straight back.
    fn from(output: TransactionOutput) -> (r: TransactionOutputExt)
        ensures
            r.delta_change_set.entries@.len() == 0,
            r.delta_change_set@ == Map::<StateKey, crate::delta_change_set::DeltaOp>::empty(),
            r.delta_change_set.is_wf(),
            r.delta_change_set.deltas_wf(),
            r.output == output,
    {
        TransactionOutputExt { delta_change_set: DeltaChangeSet::empty(), output }
    }
}

impl vstd::std_specs::convert::FromSpecImpl<TransactionOutput> for TransactionOutputExt {
    open spec fn obeys_from_spec() -> bool {
        false
    }

    open spec fn from_spec(output: TransactionOutput) -> TransactionOutputExt {
        TransactionOutputExt { delta_change_set: vstd::pervasive::arbitrary(), output }
    }
}

} // verus!
