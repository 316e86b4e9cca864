use vstd::prelude::*;

verus! {

use crate::types::{SquashError, StateKey};
use crate::assoc::{as_map, keys_unique, lemma_as_map_contains, lemma_as_map_index,
    lemma_as_map_push, lemma_as_map_remove, lemma_keys_unique_push};

/// A fully resolved storage mutation: a creation, modification or deletion,
/// each optionally carrying opaque metadata. The payload of a creation or
/// modification is the raw serialized value.
#[derive(Clone, PartialEq, Eq, Debug)]
pub enum WriteOp {
    Creation(Vec<u8>),
    Modification(Vec<u8>),
    Deletion,
    CreationWithMetadata { data: Vec<u8>, metadata: u64 },
    ModificationWithMetadata { data: Vec<u8>, metadata: u64 },
    DeletionWithMetadata { metadata: u64 },
}

/// The mathematical shape of a concrete write: the same variants over byte
/// sequences.
pub ghost enum WriteOpView {
    Creation(Seq<u8>),
    Modification(Seq<u8>),
    Deletion,
    CreationWithMetadata { data: Seq<u8>, metadata: u64 },
    ModificationWithMetadata { data: Seq<u8>, metadata: u64 },
    DeletionWithMetadata { metadata: u64 },
}

impl View for WriteOp {
    type V = WriteOpView;

    open spec fn view(&self) -> WriteOpView {
        match *self {
            WriteOp::Creation(d) => WriteOpView::Creation(d@),
            WriteOp::Modification(d) => WriteOpView::Modification(d@),
            WriteOp::Deletion => WriteOpView::Deletion,
            WriteOp::CreationWithMetadata { data, metadata } => WriteOpView::CreationWithMetadata {
                data: data@,
                metadata,
            },
            WriteOp::ModificationWithMetadata { data, metadata } => WriteOpView::ModificationWithMetadata {
                data: data@,
                metadata,
            },
            WriteOp::DeletionWithMetadata { metadata } => WriteOpView::DeletionWithMetadata {
                metadata,
            },
        }
    }
}

pub open spec fn is_creation(w: WriteOpView) -> bool {
    w is Creation || w is CreationWithMetadata
}

pub open spec fn is_modification(w: WriteOpView) -> bool {
    w is Modification || w is ModificationWithMetadata
}

pub open spec fn is_deletion(w: WriteOpView) -> bool {
    w is Deletion || w is DeletionWithMetadata
}

/// The payload of a creation or modification; empty for a deletion.
pub open spec fn view_data(w: WriteOpView) -> Seq<u8> {
    match w {
        WriteOpView::Creation(d) => d,
        WriteOpView::Modification(d) => d,
        WriteOpView::CreationWithMetadata { data, .. } => data,
        WriteOpView::ModificationWithMetadata { data, .. } => data,
        _ => Seq::empty(),
    }
}

pub open spec fn view_metadata(w: WriteOpView) -> Option<u64> {
    match w {
        WriteOpView::CreationWithMetadata { metadata, .. } => Some(metadata),
        WriteOpView::ModificationWithMetadata { metadata, .. } => Some(metadata),
        WriteOpView::DeletionWithMetadata { metadata } => Some(metadata),
        _ => None,
    }
}

/// The same write with its payload replaced; deletions carry no payload and
/// stay as they are.
pub open spec fn view_with_data(w: WriteOpView, d: Seq<u8>) -> WriteOpView {
    match w {
        WriteOpView::Creation(_) => WriteOpView::Creation(d),
        WriteOpView::Modification(_) => WriteOpView::Modification(d),
        WriteOpView::CreationWithMetadata { metadata, .. } => WriteOpView::CreationWithMetadata {
            data: d,
            metadata,
        },
        WriteOpView::ModificationWithMetadata { metadata, .. } => WriteOpView::ModificationWithMetadata {
            data: d,
            metadata,
        },
        _ => w,
    }
}

pub open spec fn creation_with(m: Option<u64>, d: Seq<u8>) -> WriteOpView {
    match m {
        Some(metadata) => WriteOpView::CreationWithMetadata { data: d, metadata },
        None => WriteOpView::Creation(d),
    }
}

pub open spec fn modification_with(m: Option<u64>, d: Seq<u8>) -> WriteOpView {
    match m {
        Some(metadata) => WriteOpView::ModificationWithMetadata { data: d, metadata },
        None => WriteOpView::Modification(d),
    }
}

pub open spec fn deletion_with(m: Option<u64>) -> WriteOpView {
    match m {
        Some(metadata) => WriteOpView::DeletionWithMetadata { metadata },
        None => WriteOpView::Deletion,
    }
}

/// The pairwise rule that combines two writes to one key, the incoming write
/// having happened after the existing one. `Ok(None)` means the two cancel:
/// a creation followed by a deletion of something never externally observed
/// leaves no effect at all. A combination that could not have happened in a
/// legal history (two creations, a modification of something deleted) is a
/// conflict.
pub open spec fn spec_write_squash(existing: WriteOpView, incoming: WriteOpView) -> Result<
    Option<WriteOpView>,
    SquashError,
> {
    if is_creation(existing) && is_modification(incoming) {
        Ok(Some(creation_with(view_metadata(existing), view_data(incoming))))
    } else if is_creation(existing) && is_deletion(incoming) {
        Ok(None)
    } else if is_modification(existing) && is_modification(incoming) {
        Ok(Some(modification_with(view_metadata(existing), view_data(incoming))))
    } else if is_modification(existing) && is_deletion(incoming) {
        Ok(Some(deletion_with(view_metadata(incoming))))
    } else if is_deletion(existing) && is_creation(incoming) {
        Ok(Some(modification_with(view_metadata(incoming), view_data(incoming))))
    } else {
        Err(SquashError::WriteConflict)
    }
}

impl WriteOp {
    /// Combines the `incoming` write into the `existing` one for the same
    /// key, following `spec_write_squash`.
    pub fn squash(existing: WriteOp, incoming: WriteOp) -> (r: Result<
        Option<WriteOp>,
        SquashError,
    >)
        ensures
            ({
                let s = spec_write_squash(existing@, incoming@);
                match r {
                    Ok(Some(w)) => s == Ok::<Option<WriteOpView>, SquashError>(Some(w@)),
                    Ok(None) => s == Ok::<Option<WriteOpView>, SquashError>(None),
                    Err(e) => s == Err::<Option<WriteOpView>, SquashError>(e),
                }
            }),
    {
        match (existing, incoming) {
            (WriteOp::Creation(_), WriteOp::Modification(d)) => Ok(Some(WriteOp::Creation(d))),
            (WriteOp::Creation(_), WriteOp::ModificationWithMetadata { data, .. }) => Ok(
                Some(WriteOp::Creation(data)),
            ),
            (
                WriteOp::CreationWithMetadata { metadata, .. },
                WriteOp::Modification(d),
            ) => Ok(Some(WriteOp::CreationWithMetadata { data: d, metadata })),
            (
                WriteOp::CreationWithMetadata { metadata, .. },
                WriteOp::ModificationWithMetadata { data, .. },
            ) => Ok(Some(WriteOp::CreationWithMetadata { data, metadata })),
            (WriteOp::Creation(_), WriteOp::Deletion) => Ok(None),
            (WriteOp::Creation(_), WriteOp::DeletionWithMetadata { .. }) => Ok(None),
            (WriteOp::CreationWithMetadata { .. }, WriteOp::Deletion) => Ok(None),
            (
                WriteOp::CreationWithMetadata { .. },
                WriteOp::DeletionWithMetadata { .. },
            ) => Ok(None),
            (WriteOp::Modification(_), WriteOp::Modification(d)) => Ok(
                Some(WriteOp::Modification(d)),
            ),
            (WriteOp::Modification(_), WriteOp::ModificationWithMetadata { data, .. }) => Ok(
                Some(WriteOp::Modification(data)),
            ),
            (
                WriteOp::ModificationWithMetadata { metadata, .. },
                WriteOp::Modification(d),
            ) => Ok(Some(WriteOp::ModificationWithMetadata { data: d, metadata })),
            (
                WriteOp::ModificationWithMetadata { metadata, .. },
                WriteOp::ModificationWithMetadata { data, .. },
            ) => Ok(Some(WriteOp::ModificationWithMetadata { data, metadata })),
            (WriteOp::Modification(_), WriteOp::Deletion) => Ok(Some(WriteOp::Deletion)),
            (WriteOp::ModificationWithMetadata { .. }, WriteOp::Deletion) => Ok(
                Some(WriteOp::Deletion),
            ),
            (WriteOp::Modification(_), WriteOp::DeletionWithMetadata { metadata }) => Ok(
                Some(WriteOp::DeletionWithMetadata { metadata }),
            ),
            (
                WriteOp::ModificationWithMetadata { .. },
                WriteOp::DeletionWithMetadata { metadata },
            ) => Ok(Some(WriteOp::DeletionWithMetadata { metadata })),
            (WriteOp::Deletion, WriteOp::Creation(d)) => Ok(Some(WriteOp::Modification(d))),
            (WriteOp::DeletionWithMetadata { .. }, WriteOp::Creation(d)) => Ok(
                Some(WriteOp::Modification(d)),
            ),
            (WriteOp::Deletion, WriteOp::CreationWithMetadata { data, metadata }) => Ok(
                Some(WriteOp::ModificationWithMetadata { data, metadata }),
            ),
            (
                WriteOp::DeletionWithMetadata { .. },
                WriteOp::CreationWithMetadata { data, metadata },
            ) => Ok(Some(WriteOp::ModificationWithMetadata { data, metadata })),
            (_, _) => Err(SquashError::WriteConflict),
        }
    }
}

/// The view of a pair sequence: every write replaced by its mathematical
/// shape, keys untouched.
pub open spec fn entries_view(s: Seq<(StateKey, WriteOp)>) -> Seq<(StateKey, WriteOpView)> {
    s.map_values(|p: (StateKey, WriteOp)| (p.0, p.1@))
}

/// The view shares the pair sequence's length and keys.
pub proof fn lemma_view_keys(s: Seq<(StateKey, WriteOp)>)
    ensures
        entries_view(s).len() == s.len(),
        forall|j: int|
            0 <= j < s.len() ==> entries_view(s)[j].0 == s[j].0 && entries_view(s)[j].1 == s[j].1@,
        keys_unique(s) ==> keys_unique(entries_view(s)),
        keys_unique(entries_view(s)) ==> keys_unique(s),
{
    assert(forall|j: int|
        0 <= j < s.len() ==> entries_view(s)[j].0 == s[j].0 && entries_view(s)[j].1 == s[j].1@);
}

/// The keyed set of concrete writes of one execution result. Denotes a
/// mapping from storage key to write; keys are pairwise distinct.
#[derive(Clone, PartialEq, Eq, Debug)]
pub struct WriteSet {
    pub entries: Vec<(StateKey, WriteOp)>,
}

impl View for WriteSet {
    type V = Map<StateKey, WriteOpView>;

    open spec fn view(&self) -> Map<StateKey, WriteOpView> {
        as_map(entries_view(self.entries@))
    }
}

impl WriteSet {
    pub open spec fn is_wf(self) -> bool {
        keys_unique(self.entries@)
    }

    pub fn empty() -> (r: WriteSet)
        ensures
            r.is_wf(),
            r@ == Map::<StateKey, WriteOpView>::empty(),
            r.entries@.len() == 0,
    {
        let r = WriteSet { entries: Vec::new() };
        proof {
            assert(entries_view(r.entries@) =~= Seq::<(StateKey, WriteOpView)>::empty());
        }
        r
    }

    pub fn len(&self) -> (r: usize)
        ensures
            r == self.entries@.len(),
    {
        self.entries.len()
    }

    fn find_index(&self, k: StateKey) -> (r: Option<usize>)
        ensures
            match r {
                Some(i) => i < self.entries@.len() && self.entries@[i as int].0 == k,
                None => forall|j: int| 0 <= j < self.entries@.len() ==> self.entries@[j].0 != k,
            },
    {
        let n = self.entries.len();
        let mut i: usize = 0;
        while i < n
            invariant
                i <= n,
                n == self.entries@.len(),
                forall|j: int| 0 <= j < i ==> self.entries@[j].0 != k,
            decreases n - i,
        {
            if self.entries[i].0 .0 == k.0 {
                return Some(i);
            }
            i = i + 1;
        }
        None
    }

    /// Whether this set holds a write for `k`.
    pub fn contains_key(&self, k: StateKey) -> (r: bool)
        requires
            self.is_wf(),
        ensures
            r == self@.contains_key(k),
    {
        proof {
            lemma_view_keys(self.entries@);
            lemma_as_map_contains(entries_view(self.entries@), k);
        }
        self.find_index(k).is_some()
    }

    /// The write for `k`, borrowed, if one is present.
    pub fn get(&self, k: StateKey) -> (r: Option<&WriteOp>)
        requires
            self.is_wf(),
        ensures
            match r {
                Some(op) => self@.contains_key(k) && op@ == self@[k],
                None => !self@.contains_key(k),
            },
    {
        proof {
            lemma_view_keys(self.entries@);
            lemma_as_map_contains(entries_view(self.entries@), k);
        }
        match self.find_index(k) {
            Some(i) => {
                proof {
                    lemma_as_map_index(entries_view(self.entries@), i as int);
                }
                Some(&self.entries[i].1)
            },
            None => None,
        }
    }

    /// Removes and returns the write for `k`, if one is present.
    pub fn take(&mut self, k: StateKey) -> (r: Option<WriteOp>)
        requires
            old(self).is_wf(),
        ensures
            final(self).is_wf(),
            match r {
                Some(op) => old(self)@.contains_key(k) && op@ == old(self)@[k] && final(self)@
                    == old(self)@.remove(k),
                None => !old(self)@.contains_key(k) && *final(self) == *old(self),
            },
    {
        proof {
            lemma_view_keys(self.entries@);
            lemma_as_map_contains(entries_view(self.entries@), k);
        }
        match self.find_index(k) {
            Some(i) => {
                proof {
                    lemma_as_map_index(entries_view(self.entries@), i as int);
                    lemma_as_map_remove(entries_view(self.entries@), i as int);
                    lemma_view_keys(self.entries@.remove(i as int));
                    assert(entries_view(self.entries@.remove(i as int)) =~= entries_view(
                        self.entries@,
                    ).remove(i as int));
                }
                let (_, op) = self.entries.remove(i);
                Some(op)
            },
            None => None,
        }
    }

    /// Puts `op` in as the write for `k`, replacing any write already there.
    pub fn insert(&mut self, k: StateKey, op: WriteOp)
        requires
            old(self).is_wf(),
        ensures
            final(self).is_wf(),
            final(self)@ == old(self)@.insert(k, op@),
    {
        let ghost pre = self@;
        let taken = self.take(k);
        proof {
            lemma_view_keys(self.entries@);
            lemma_as_map_push(entries_view(self.entries@), k, op@);
            lemma_as_map_contains(entries_view(self.entries@), k);
            lemma_keys_unique_push(self.entries@, k, op);
            lemma_view_keys(self.entries@.push((k, op)));
            assert(entries_view(self.entries@.push((k, op))) =~= entries_view(
                self.entries@,
            ).push((k, op@)));
            assert(self@.insert(k, op@) =~= pre.insert(k, op@));
        }
        self.entries.push((k, op));
    }
}

} // verus!
