//! Counters of a run, shared by its tasks.

use crate::error::GcError;
use vstd::prelude::*;

verus! {

/// How far a run has come. The counters wrap around.
#[derive(Debug, Clone, Copy, PartialEq, Eq, Structural)]
pub struct Tally {
    /// Log streams that were examined.
    pub processed_streams: usize,
    /// Log streams that were listed.
    pub total_streams: usize,
    /// Log groups that were begun.
    pub processed_groups: usize,
    /// Log groups, and batches of them, that failed.
    pub failed_groups: usize,
}

/// The counters after a log group ended with this outcome.
pub open spec fn after_group(tally: Tally, outcome: Result<(), GcError>) -> Tally {
    match outcome {
        Ok(()) => tally,
        Err(_) => Tally { failed_groups: tally.failed_groups.wrapping_add(1), ..tally },
    }
}

impl Tally {
    pub fn new() -> (tally: Tally)
        ensures
            tally == (Tally {
                processed_streams: 0,
                total_streams: 0,
                processed_groups: 0,
                failed_groups: 0,
            }),
    {
        Tally { processed_streams: 0, total_streams: 0, processed_groups: 0, failed_groups: 0 }
    }

    /// Counts a log stream that was examined, and gives the count.
    pub fn stream_processed(&mut self) -> (processed: usize)
        ensures
            *final(self) == (Tally {
                processed_streams: old(self).processed_streams.wrapping_add(1),
                ..*old(self)
            }),
            processed == final(self).processed_streams,
    {
        self.processed_streams = self.processed_streams.wrapping_add(1);
        self.processed_streams
    }

    /// Counts log streams that were listed.
    pub fn streams_listed(&mut self, count: usize)
        ensures
            *final(self) == (Tally {
                total_streams: old(self).total_streams.wrapping_add(count),
                ..*old(self)
            }),
    {
        self.total_streams = self.total_streams.wrapping_add(count);
    }

    /// Counts a log group that is begun, and gives its number.
    pub fn group_begun(&mut self) -> (number: usize)
        ensures
            *final(self) == (Tally {
                processed_groups: old(self).processed_groups.wrapping_add(1),
                ..*old(self)
            }),
            number == final(self).processed_groups,
    {
        self.processed_groups = self.processed_groups.wrapping_add(1);
        self.processed_groups
    }

    /// Counts a failure.
    pub fn group_failed(&mut self)
        ensures
            *final(self) == (Tally {
                failed_groups: old(self).failed_groups.wrapping_add(1),
                ..*old(self)
            }),
    {
        self.failed_groups = self.failed_groups.wrapping_add(1);
    }

    /// Counts the log group if it failed.
    pub fn group_finished(&mut self, outcome: &Result<(), GcError>)
        ensures
            *final(self) == after_group(*old(self), *outcome),
    {
        if outcome.is_err() {
            self.group_failed();
        }
    }
}

} // verus!
