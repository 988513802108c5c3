//! Which consensus commit batches have been scheduled.

use crate::types::SequenceNumber;
use std::collections::BTreeMap;
use vstd::prelude::*;

verus! {

/// Tracks which consensus commit batches have been scheduled to prevent double scheduling.
#[derive(Debug)]
pub struct ScheduledBatches {
    /// Maps accumulator version to whether that batch has been scheduled.
    pub scheduled_versions: BTreeMap<u64, bool>,
}

/// The entries at `version` and after it.
pub open spec fn entries_from(entries: Map<u64, bool>, version: SequenceNumber) -> Map<u64, bool> {
    entries.restrict(Set::new(|v: u64| v >= version.0))
}

impl View for ScheduledBatches {
    type V = Map<u64, bool>;

    open spec fn view(&self) -> Map<u64, bool> {
        self.scheduled_versions@
    }
}

impl ScheduledBatches {
    pub fn new() -> (batches: ScheduledBatches)
        ensures
            batches@ == Map::<u64, bool>::empty(),
    {
        ScheduledBatches { scheduled_versions: BTreeMap::new() }
    }

    /// Check if a batch has already been scheduled.
    pub fn is_already_scheduled(&self, version: SequenceNumber) -> (scheduled: bool)
        ensures
            scheduled == self@.contains_key(version.0),
    {
        self.scheduled_versions.contains_key(&version.0)
    }

    /// Mark a batch as scheduled.
    pub fn mark_scheduled(&mut self, version: SequenceNumber)
        ensures
            final(self)@ == old(self)@.insert(version.0, true),
    {
        self.scheduled_versions.insert(version.0, true);
    }

    /// Clean up old entries that are before the given version.
    pub fn cleanup_before(&mut self, version: SequenceNumber)
        ensures
            final(self)@ == entries_from(old(self)@, version),
    {
        let mut kept: BTreeMap<u64, bool> = BTreeMap::new();
        for (entry, scheduled) in it: self.scheduled_versions.iter()
            invariant
                forall|v: u64| #[trigger]
                    kept@.contains_key(v) ==> v >= version.0 && self@.contains_key(v) && kept@[v]
                        == self@[v],
                forall|i: int|
                    0 <= i < it.index() && *(#[trigger] it.seq()[i]).0 >= version.0
                        ==> kept@.contains_key(*it.seq()[i].0),
        {
            if *entry >= version.0 {
                kept.insert(*entry, *scheduled);
            }
        }
        self.scheduled_versions = kept;
        assert(self.scheduled_versions@ =~= entries_from(old(self)@, version));
    }
}

} // verus!
