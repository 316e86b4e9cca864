use std::sync::Arc;

use aptos_aggregator::change_set::{ChangeSet, NoOpChangeSetChecker, WriteCountLimitChecker};
use aptos_aggregator::delta_change_set::{delta_add, delta_sub, DeltaChangeSet};
use aptos_aggregator::output::{TransactionOutput, TransactionOutputExt, TransactionStatus};
use aptos_aggregator::state_view::BaseValueSource;
use aptos_aggregator::transaction::{AggregatorValue, ChangeSetExt};
use aptos_aggregator::types::{Event, SquashError, StateKey};
use aptos_aggregator::write_set::{WriteOp, WriteSet};

fn enc(v: u128) -> Vec<u8> {
    bcs::to_bytes(&v).expect("serializing a u128 cannot fail")
}

fn ext_with(
    deltas: Vec<(StateKey, aptos_aggregator::delta_change_set::DeltaOp)>,
    writes: Vec<(StateKey, WriteOp)>,
) -> ChangeSetExt<NoOpChangeSetChecker> {
    ChangeSetExt::new(
        DeltaChangeSet { entries: deltas },
        ChangeSet { write_set: WriteSet { entries: writes }, events: Vec::new() },
        Arc::new(NoOpChangeSetChecker),
    )
}

fn output_with(writes: Vec<(StateKey, WriteOp)>, status: TransactionStatus) -> TransactionOutput {
    TransactionOutput::new(
        WriteSet { entries: writes },
        vec![Event(7)],
        21,
        status,
    )
}

#[test]
fn extract_creation_round_trips() {
    let values: Vec<u128> = vec![0, 1, 123456789, u128::MAX];
    for v in values {
        let write = WriteOp::Creation(enc(v));
        let got = AggregatorValue::from_write(&write).expect("present value").into();
        assert_eq!(got, v);
    }
}

#[test]
fn extract_deletion_is_absent() {
    assert!(AggregatorValue::from_write(&WriteOp::Deletion).is_none());
    assert!(AggregatorValue::from_write(&WriteOp::DeletionWithMetadata { metadata: 4 }).is_none());
}

#[test]
fn extract_reads_metadata_forms() {
    let write = WriteOp::ModificationWithMetadata { data: enc(77), metadata: 9 };
    assert_eq!(AggregatorValue::from_write(&write).expect("present").into(), 77);
}

#[test]
fn delta_apply_respects_bounds() {
    let add = delta_add(10, 100);
    assert_eq!(add.apply_to(5), Ok(15));
    assert_eq!(add.apply_to(95), Err(SquashError::DeltaOverflow));
    let sub = delta_sub(3, 100);
    assert_eq!(sub.apply_to(3), Ok(0));
    assert_eq!(sub.apply_to(2), Err(SquashError::DeltaUnderflow));
}

#[test]
fn delta_merge_matches_one_at_a_time() {
    let d1 = delta_add(10, 15);
    let d2 = delta_sub(3, 15);
    let merged = d2.merge_onto(d1).expect("merge fits");
    // Where both steps fit, the merged delta gives the same value.
    assert_eq!(merged.apply_to(5), Ok(12));
    assert_eq!(d2.apply_to(d1.apply_to(5).unwrap()), Ok(12));
    // Where the first step would overflow, the merged delta fails too, even
    // though the net shift of +7 would have fit.
    assert_eq!(d1.apply_to(8), Err(SquashError::DeltaOverflow));
    assert_eq!(merged.apply_to(8), Err(SquashError::DeltaOverflow));
}

#[test]
fn three_delta_chain_matches_one_at_a_time() {
    let d1 = delta_add(10, 20);
    let d2 = delta_sub(8, 20);
    let d3 = delta_add(5, 20);
    let merged = d3
        .merge_onto(d2.merge_onto(d1).expect("first merge fits"))
        .expect("second merge fits");
    // One at a time from base 4: 14, 6, 11.
    assert_eq!(
        d3.apply_to(d2.apply_to(d1.apply_to(4).unwrap()).unwrap()),
        Ok(11)
    );
    assert_eq!(merged.apply_to(4), Ok(11));
    // From base 11 the first step already overflows, so the merged delta
    // fails although its net shift of +7 would land on 18.
    assert_eq!(merged.apply_to(11), Err(SquashError::DeltaOverflow));
}

#[test]
fn delta_merge_rejects_mismatched_bounds() {
    let d1 = delta_add(1, 100);
    let d2 = delta_add(1, 200);
    assert_eq!(d2.merge_onto(d1), Err(SquashError::DeltaLimitMismatch));
}

#[test]
fn delta_merge_rejects_unreachable_bound() {
    let d1 = delta_add(10, 15);
    let d2 = delta_add(10, 15);
    assert_eq!(d2.merge_onto(d1), Err(SquashError::DeltaOverflow));
}

#[test]
fn squash_delta_edits_creation_payload() {
    let k = StateKey(1);
    let ext = ext_with(vec![], vec![(k, WriteOp::Creation(enc(100)))]);
    let mut incoming = DeltaChangeSet::empty();
    incoming.insert(k, delta_add(5, 1000));
    let res = ext.squash_delta_change_set(incoming).expect("squash fits");
    assert_eq!(res.write_set().get(k), Some(&WriteOp::Creation(enc(105))));
    assert!(res.delta_change_set().get(k).is_none());
}

#[test]
fn squash_delta_keeps_metadata() {
    let k = StateKey(1);
    let ext = ext_with(
        vec![],
        vec![(k, WriteOp::ModificationWithMetadata { data: enc(40), metadata: 6 })],
    );
    let mut incoming = DeltaChangeSet::empty();
    incoming.insert(k, delta_sub(15, 1000));
    let res = ext.squash_delta_change_set(incoming).expect("squash fits");
    assert_eq!(
        res.write_set().get(k),
        Some(&WriteOp::ModificationWithMetadata { data: enc(25), metadata: 6 })
    );
}

#[test]
fn squash_delta_on_deletion_is_hard_conflict() {
    let k = StateKey(2);
    let ext = ext_with(vec![], vec![(k, WriteOp::Deletion)]);
    let mut incoming = DeltaChangeSet::empty();
    incoming.insert(k, delta_add(1, 10));
    assert!(matches!(
        ext.squash_delta_change_set(incoming),
        Err(SquashError::ApplyToDeleted)
    ));
}

#[test]
fn squash_delta_on_bad_payload_fails() {
    let k = StateKey(3);
    let ext = ext_with(vec![], vec![(k, WriteOp::Creation(vec![1, 2, 3]))]);
    let mut incoming = DeltaChangeSet::empty();
    incoming.insert(k, delta_add(1, 10));
    assert!(matches!(
        ext.squash_delta_change_set(incoming),
        Err(SquashError::PayloadDecode)
    ));
}

#[test]
fn squash_delta_folds_pending_delta() {
    let k = StateKey(4);
    let ext = ext_with(vec![(k, delta_add(10, 15))], vec![]);
    let mut incoming = DeltaChangeSet::empty();
    incoming.insert(k, delta_sub(3, 15));
    let res = ext.squash_delta_change_set(incoming).expect("merge fits");
    let merged = res.delta_change_set().get(k).expect("still pending");
    assert_eq!(merged.apply_to(5), Ok(12));
    assert_eq!(merged.apply_to(8), Err(SquashError::DeltaOverflow));
}

#[test]
fn squash_delta_inserts_fresh_delta() {
    let k = StateKey(5);
    let ext = ext_with(vec![], vec![]);
    let mut incoming = DeltaChangeSet::empty();
    incoming.insert(k, delta_add(4, 10));
    let res = ext.squash_delta_change_set(incoming).expect("insert");
    assert_eq!(res.delta_change_set().get(k), Some(delta_add(4, 10)));
}

#[test]
fn concrete_write_supersedes_pending_delta() {
    let k = StateKey(6);
    let ext = ext_with(vec![(k, delta_add(4, 10))], vec![]);
    let incoming = ChangeSet {
        write_set: WriteSet { entries: vec![(k, WriteOp::Creation(enc(9)))] },
        events: Vec::new(),
    };
    let res = ext.squash_change_set(incoming).expect("squash");
    assert!(res.delta_change_set().get(k).is_none());
    assert_eq!(res.write_set().get(k), Some(&WriteOp::Creation(enc(9))));
}

#[test]
fn write_write_squash_follows_rule() {
    assert_eq!(
        WriteOp::squash(WriteOp::Creation(enc(1)), WriteOp::Modification(enc(2))),
        Ok(Some(WriteOp::Creation(enc(2))))
    );
    assert_eq!(
        WriteOp::squash(WriteOp::Creation(enc(1)), WriteOp::Deletion),
        Ok(None)
    );
    assert_eq!(
        WriteOp::squash(WriteOp::Deletion, WriteOp::Creation(enc(2))),
        Ok(Some(WriteOp::Modification(enc(2))))
    );
    assert_eq!(
        WriteOp::squash(WriteOp::Creation(enc(1)), WriteOp::Creation(enc(2))),
        Err(SquashError::WriteConflict)
    );
    assert_eq!(
        WriteOp::squash(WriteOp::Deletion, WriteOp::Deletion),
        Err(SquashError::WriteConflict)
    );
}

#[test]
fn cancelling_writes_leave_no_entry() {
    let k = StateKey(7);
    let ext = ext_with(vec![], vec![(k, WriteOp::Creation(enc(1)))]);
    let incoming = ChangeSet {
        write_set: WriteSet { entries: vec![(k, WriteOp::Deletion)] },
        events: Vec::new(),
    };
    let res = ext.squash_change_set(incoming).expect("cancel");
    assert!(res.write_set().get(k).is_none());
    assert_eq!(res.write_set().len(), 0);
}

#[test]
fn events_append_in_order() {
    let ext: ChangeSetExt<NoOpChangeSetChecker> = ChangeSetExt::new(
        DeltaChangeSet::empty(),
        ChangeSet { write_set: WriteSet::empty(), events: vec![Event(1), Event(2)] },
        Arc::new(NoOpChangeSetChecker),
    );
    let incoming = ChangeSet { write_set: WriteSet::empty(), events: vec![Event(3)] };
    let res = ext.squash_change_set(incoming).expect("squash");
    assert_eq!(res.change_set().events, vec![Event(1), Event(2), Event(3)]);
}

#[test]
fn policy_rejection_aborts_squash() {
    let ext: ChangeSetExt<WriteCountLimitChecker> = ChangeSetExt::empty(Arc::new(
        WriteCountLimitChecker { max_writes: 0 },
    ));
    let incoming = ChangeSet {
        write_set: WriteSet { entries: vec![(StateKey(8), WriteOp::Deletion)] },
        events: Vec::new(),
    };
    assert!(matches!(
        ext.squash_change_set(incoming),
        Err(SquashError::PolicyRejected)
    ));
}

#[test]
fn write_count_limit_guards_change_set() {
    let checker = WriteCountLimitChecker { max_writes: 1 };
    let one = WriteSet { entries: vec![(StateKey(1), WriteOp::Deletion)] };
    assert!(ChangeSet::new(one, Vec::new(), &checker).is_ok());
    let two = WriteSet {
        entries: vec![(StateKey(1), WriteOp::Deletion), (StateKey(2), WriteOp::Deletion)],
    };
    assert_eq!(
        ChangeSet::new(two, Vec::new(), &checker),
        Err(SquashError::PolicyRejected)
    );
}

#[test]
fn squash_results_in_order() {
    // The later result's write lands first, then its delta folds onto the
    // now-authoritative payload.
    let k = StateKey(9);
    let a = ext_with(vec![], vec![(k, WriteOp::Creation(enc(10)))]);
    let mut b_deltas = DeltaChangeSet::empty();
    b_deltas.insert(k, delta_add(5, 1000));
    let b = ChangeSetExt::new(
        b_deltas,
        ChangeSet::empty(),
        Arc::new(NoOpChangeSetChecker),
    );
    let res = a.squash(b).expect("squash");
    assert_eq!(res.write_set().get(k), Some(&WriteOp::Creation(enc(15))));
    assert!(res.delta_change_set().get(k).is_none());
}

#[test]
fn squash_order_matters() {
    let k = StateKey(10);
    let make = |d: aptos_aggregator::delta_change_set::DeltaOp| {
        ext_with(vec![(k, d)], vec![])
    };
    let ab = make(delta_add(10, 15)).squash(make(delta_sub(3, 15))).expect("fits");
    let ba = make(delta_sub(3, 15)).squash(make(delta_add(10, 15))).expect("fits");
    let d_ab = ab.delta_change_set().get(k).expect("pending");
    let d_ba = ba.delta_change_set().get(k).expect("pending");
    // Both net to +7, but against base 8 the first order trips the bound the
    // moment the +10 lands, while the second never leaves the range.
    assert_eq!(d_ab.apply_to(8), Err(SquashError::DeltaOverflow));
    assert_eq!(d_ba.apply_to(8), Ok(15));
    assert_ne!(d_ab, d_ba);
}

#[test]
fn finalize_discarded_output_unchanged() {
    let k = StateKey(11);
    let mut deltas = DeltaChangeSet::empty();
    deltas.insert(k, delta_add(5, 1000));
    let output = output_with(vec![(k, WriteOp::Creation(enc(1)))], TransactionStatus::Discard(4));
    let expected = output.clone();
    let ext = TransactionOutputExt::new(deltas, output);
    let mut source = BaseValueSource::empty();
    source.add(k, enc(50));
    assert_eq!(ext.into_transaction_output(&source), expected);
}

#[test]
fn finalize_empty_deltas_unchanged() {
    let output = output_with(vec![], TransactionStatus::Keep(0));
    let expected = output.clone();
    let ext = TransactionOutputExt::new(DeltaChangeSet::empty(), output);
    let source = BaseValueSource::empty();
    assert_eq!(ext.into_transaction_output(&source), expected);
}

#[test]
fn finalize_materializes_from_source() {
    let k = StateKey(12);
    let mut deltas = DeltaChangeSet::empty();
    deltas.insert(k, delta_add(5, 1000));
    let output = output_with(vec![], TransactionStatus::Keep(0));
    let ext = TransactionOutputExt::new(deltas, output);
    let mut source = BaseValueSource::empty();
    source.add(k, enc(10));
    let out = ext.into_transaction_output(&source);
    assert_eq!(out.write_set.get(k), Some(&WriteOp::Modification(enc(15))));
    assert_eq!(out.events, vec![Event(7)]);
    assert_eq!(out.gas_used, 21);
    assert_eq!(out.status, TransactionStatus::Keep(0));
}

#[test]
fn materialization_fails_without_base() {
    let k = StateKey(13);
    let mut deltas = DeltaChangeSet::empty();
    deltas.insert(k, delta_add(5, 1000));
    let source = BaseValueSource::empty();
    assert_eq!(
        deltas.take_materialized(&source),
        Err(SquashError::BaseValueMissing)
    );
}

#[test]
fn materialization_fails_on_bad_base() {
    let k = StateKey(14);
    let mut deltas = DeltaChangeSet::empty();
    deltas.insert(k, delta_add(5, 1000));
    let mut source = BaseValueSource::empty();
    source.add(k, vec![1, 2]);
    assert_eq!(
        deltas.take_materialized(&source),
        Err(SquashError::PayloadDecode)
    );
}

#[test]
fn materialization_fails_past_bound() {
    let k = StateKey(15);
    let mut deltas = DeltaChangeSet::empty();
    deltas.insert(k, delta_add(5, 12));
    let mut source = BaseValueSource::empty();
    source.add(k, enc(10));
    assert_eq!(
        deltas.take_materialized(&source),
        Err(SquashError::DeltaOverflow)
    );
}

#[test]
fn supplied_writes_cover_all_delta_keys() {
    let k1 = StateKey(16);
    let k2 = StateKey(17);
    let k3 = StateKey(18);
    let mut deltas = DeltaChangeSet::empty();
    deltas.insert(k1, delta_add(5, 1000));
    deltas.insert(k2, delta_sub(5, 1000));
    let output = output_with(vec![(k3, WriteOp::Deletion)], TransactionStatus::Keep(0));
    let ext = TransactionOutputExt::new(deltas, output);
    let out = ext.output_with_delta_writes(vec![
        (k1, WriteOp::Modification(enc(15))),
        (k2, WriteOp::Modification(enc(5))),
    ]);
    assert_eq!(out.write_set.get(k1), Some(&WriteOp::Modification(enc(15))));
    assert_eq!(out.write_set.get(k2), Some(&WriteOp::Modification(enc(5))));
    assert_eq!(out.write_set.get(k3), Some(&WriteOp::Deletion));
    assert_eq!(out.write_set.len(), 3);
}

#[test]
fn output_ext_from_output_has_no_deltas() {
    let output = output_with(vec![], TransactionStatus::Keep(0));
    let ext = TransactionOutputExt::from(output.clone());
    assert_eq!(ext.delta_change_set().len(), 0);
    assert_eq!(ext.txn_output(), &output);
    // With nothing pending, finalizing short-circuits whatever the source
    // would have said.
    let mut source = BaseValueSource::empty();
    source.add(StateKey(19), enc(1));
    assert_eq!(ext.into_transaction_output(&source), output);
}

#[test]
fn pipeline_squash_then_finalize() {
    let k1 = StateKey(20);
    let k2 = StateKey(21);
    // The first transaction creates k1 at 100 and leaves +5 pending on k2.
    let mut a_deltas = DeltaChangeSet::empty();
    a_deltas.insert(k2, delta_add(5, 1000));
    let a = ChangeSetExt::new(
        a_deltas,
        ChangeSet {
            write_set: WriteSet { entries: vec![(k1, WriteOp::Creation(enc(100)))] },
            events: vec![Event(1)],
        },
        Arc::new(NoOpChangeSetChecker),
    );
    // The second leaves +10 pending on k1 and -2 pending on k2.
    let mut b_deltas = DeltaChangeSet::empty();
    b_deltas.insert(k1, delta_add(10, 1000));
    b_deltas.insert(k2, delta_sub(2, 1000));
    let b = ChangeSetExt::new(
        b_deltas,
        ChangeSet { write_set: WriteSet::empty(), events: vec![Event(2)] },
        Arc::new(NoOpChangeSetChecker),
    );
    let acc = a.squash(b).expect("squash fits");
    // k1's delta landed in the concrete payload; k2's deltas folded to +3.
    assert_eq!(acc.write_set().get(k1), Some(&WriteOp::Creation(enc(110))));
    assert_eq!(acc.change_set().events, vec![Event(1), Event(2)]);
    let (deltas, change_set) = acc.into_inner();
    let output = TransactionOutput::new(
        change_set.write_set,
        change_set.events,
        9,
        TransactionStatus::Keep(0),
    );
    let ext = TransactionOutputExt::new(deltas, output);
    let mut source = BaseValueSource::empty();
    source.add(k2, enc(40));
    let out = ext.into_transaction_output(&source);
    assert_eq!(out.write_set.get(k1), Some(&WriteOp::Creation(enc(110))));
    assert_eq!(out.write_set.get(k2), Some(&WriteOp::Modification(enc(43))));
    assert_eq!(out.events, vec![Event(1), Event(2)]);
}

#[test]
fn empty_result_is_empty() {
    let ext: ChangeSetExt<NoOpChangeSetChecker> =
        ChangeSetExt::empty(Arc::new(NoOpChangeSetChecker));
    assert_eq!(ext.write_set().len(), 0);
    assert!(ext.delta_change_set().is_empty());
    let (deltas, change_set) = ext.into_inner();
    assert_eq!(deltas.len(), 0);
    assert_eq!(change_set.events.len(), 0);
}
