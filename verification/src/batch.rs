//! The pass over a batch: its log groups, one after the other.

use crate::error::GcError;
use crate::logs::LogGroup;
use crate::tally;
use crate::tally::Tally;
use vstd::prelude::*;

verus! {

/// Where the pass over a batch stands.
#[derive(Debug, Clone, Copy, PartialEq, Eq, Structural)]
pub enum BatchPhase {
    /// Not begun.
    Waiting,
    /// Waiting for a log group to end.
    Processing,
    /// Finished.
    Done,
}

/// What happened in the pass over a batch.
#[derive(Debug)]
pub enum BatchEvent {
    /// The batch was begun.
    Begun,
    /// The log group that was asked for ended with this outcome.
    GroupEnded(Result<(), GcError>),
}

/// What the pass over a batch needs next.
#[derive(Debug)]
pub enum BatchAction {
    /// The pass over this log group; the number counts the log groups of the run.
    Process(usize, LogGroup),
    /// Nothing.
    Finish,
}

/// The pass over a batch.
#[derive(Debug)]
pub struct Batch {
    phase: BatchPhase,
    remaining: Vec<LogGroup>,
}

/// What a `Batch` stands for: the log groups that were not yet asked for.
#[verifier::ext_equal]
pub struct BatchView {
    pub phase: BatchPhase,
    pub remaining: Seq<LogGroup>,
}

impl View for Batch {
    type V = BatchView;

    closed spec fn view(&self) -> BatchView {
        BatchView { phase: self.phase, remaining: self.remaining@ }
    }
}

/// A batch that was not begun.
pub open spec fn batch_start(groups: Seq<LogGroup>) -> BatchView {
    BatchView { phase: BatchPhase::Waiting, remaining: groups }
}

/// Whether the event can happen in this phase.
pub open spec fn fits_phase(phase: BatchPhase, event: BatchEvent) -> bool {
    match event {
        BatchEvent::Begun => phase == BatchPhase::Waiting,
        BatchEvent::GroupEnded(_) => phase == BatchPhase::Processing,
    }
}

/// The batch after any event, and the log group that is asked for: the first of those that
/// remain. What came of the log group before it does not matter.
pub open spec fn batch_next(batch: BatchView) -> (BatchView, Option<LogGroup>) {
    if batch.remaining.len() == 0 {
        (BatchView { phase: BatchPhase::Done, ..batch }, None)
    } else {
        (
            BatchView { phase: BatchPhase::Processing, remaining: batch.remaining.skip(1) },
            Some(batch.remaining[0]),
        )
    }
}

/// The counters after an event: a log group that failed is counted, and one that is asked for.
pub open spec fn batch_tally(batch: BatchView, tally: Tally, event: BatchEvent) -> Tally {
    let counted = match event {
        BatchEvent::Begun => tally,
        BatchEvent::GroupEnded(outcome) => tally::after_group(tally, outcome),
    };
    if batch.remaining.len() == 0 {
        counted
    } else {
        Tally { processed_groups: counted.processed_groups.wrapping_add(1), ..counted }
    }
}

impl Batch {
    /// A batch of these log groups.
    pub fn new(groups: Vec<LogGroup>) -> (batch: Batch)
        ensures
            batch@ == batch_start(groups@),
    {
        Batch { phase: BatchPhase::Waiting, remaining: groups }
    }

    /// Tells whether the event can happen now.
    pub fn accepts(&self, event: &BatchEvent) -> (fits: bool)
        ensures
            fits == fits_phase(self@.phase, *event),
    {
        match event {
            BatchEvent::Begun => self.phase == BatchPhase::Waiting,
            BatchEvent::GroupEnded(_) => self.phase == BatchPhase::Processing,
        }
    }

    /// Takes an event in, and says what is needed next.
    pub fn step(&mut self, tally: &mut Tally, event: BatchEvent) -> (action: BatchAction)
        requires
            fits_phase(old(self)@.phase, event),
        ensures
            final(self)@ == batch_next(old(self)@).0,
            *final(tally) == batch_tally(old(self)@, *old(tally), event),
            action == match batch_next(old(self)@).1 {
                Some(group) => BatchAction::Process(final(tally).processed_groups, group),
                None => BatchAction::Finish,
            },
    {
        match event {
            BatchEvent::Begun => {},
            BatchEvent::GroupEnded(outcome) => {
                tally.group_finished(&outcome);
            },
        }
        if self.remaining.len() == 0 {
            self.phase = BatchPhase::Done;
            BatchAction::Finish
        } else {
            let group: LogGroup = self.remaining.remove(0);
            assert(self.remaining@ =~= old(self)@.remaining.skip(1));
            self.phase = BatchPhase::Processing;
            let number: usize = tally.group_begun();
            BatchAction::Process(number, group)
        }
    }
}

} // verus!
