use vstd::prelude::*;

verus! {

use crate::types::{Event, SquashError, StateKey};
use crate::write_set::{WriteSet, WriteOpView, entries_view, lemma_view_keys};
use crate::assoc::lemma_as_map_len;

/// The concrete effects of one execution: the resolved writes plus the
/// events emitted, in order.
#[derive(Clone, PartialEq, Eq, Debug)]
pub struct ChangeSet {
    pub write_set: WriteSet,
    pub events: Vec<Event>,
}

/// The validation policy a change set must pass whenever a new one is
/// finalized. The engine supplies the policy; one policy handle is shared,
/// read-only, by every execution result derived from a common ancestor.
pub trait CheckChangeSet {
    /// Which write-set/event combinations the policy accepts.
    spec fn spec_check(&self, writes: Map<StateKey, WriteOpView>, events: Seq<Event>) -> bool;

    /// Decides whether the policy accepts `change_set`.
    fn check_change_set(&self, change_set: &ChangeSet) -> (r: bool)
        requires
            change_set.is_wf(),
        ensures
            r == self.spec_check(change_set.write_set@, change_set.events@),
    ;
}

impl ChangeSet {
    pub open spec fn is_wf(self) -> bool {
        self.write_set.is_wf()
    }

    pub fn empty() -> (r: ChangeSet)
        ensures
            r.is_wf(),
            r.write_set@ == Map::<StateKey, WriteOpView>::empty(),
            r.write_set.entries@.len() == 0,
            r.events@ == Seq::<Event>::empty(),
    {
        ChangeSet { write_set: WriteSet::empty(), events: Vec::new() }
    }

    /// Builds a change set from its parts, guarded by the validation policy:
    /// a policy rejection is an error, never swallowed.
    pub fn new<C: CheckChangeSet>(write_set: WriteSet, events: Vec<Event>, checker: &C) -> (r:
        Result<ChangeSet, SquashError>)
        requires
            write_set.is_wf(),
        ensures
            match r {
                Ok(cs) => checker.spec_check(write_set@, events@) && cs.write_set == write_set
                    && cs.events == events,
                Err(e) => !checker.spec_check(write_set@, events@) && e
                    == SquashError::PolicyRejected,
            },
    {
        let cs = ChangeSet { write_set, events };
        if checker.check_change_set(&cs) {
            Ok(cs)
        } else {
            Err(SquashError::PolicyRejected)
        }
    }

    pub fn write_set(&self) -> (r: &WriteSet)
        ensures
            *r == self.write_set,
    {
        &self.write_set
    }

    pub fn into_inner(self) -> (r: (WriteSet, Vec<Event>))
        ensures
            r.0 == self.write_set,
            r.1 == self.events,
    {
        (self.write_set, self.events)
    }
}

/// The policy that accepts every change set.
pub struct NoOpChangeSetChecker;

impl CheckChangeSet for NoOpChangeSetChecker {
    open spec fn spec_check(&self, writes: Map<StateKey, WriteOpView>, events: Seq<Event>) -> bool {
        true
    }

    fn check_change_set(&self, change_set: &ChangeSet) -> (r: bool) {
        true
    }
}

/// A policy that bounds how many concrete writes one result may carry.
pub struct WriteCountLimitChecker {
    pub max_writes: usize,
}

impl CheckChangeSet for WriteCountLimitChecker {
    open spec fn spec_check(&self, writes: Map<StateKey, WriteOpView>, events: Seq<Event>) -> bool {
        writes.dom().finite() && writes.len() <= self.max_writes
    }

    fn check_change_set(&self, change_set: &ChangeSet) -> (r: bool) {
        proof {
            lemma_view_keys(change_set.write_set.entries@);
            lemma_as_map_len(entries_view(change_set.write_set.entries@));
        }
        change_set.write_set.len() <= self.max_writes
    }
}

} // verus!
