//! The log streams of a log group that are being examined, and their deletions in flight.

use crate::config;
use crate::config::{Config, ConfigView};
use crate::permits::DeletionEvent;
use vstd::prelude::*;

verus! {

/// How far the examination of the log streams of a log group has come.
#[derive(Debug)]
pub struct Sweep {
    limit: usize,
    total: usize,
    begun: usize,
    examining: usize,
    deleting: usize,
}

/// What a `Sweep` stands for.
pub struct SweepView {
    /// How many log streams may be examined at a time.
    pub limit: nat,
    /// How many log streams there are.
    pub total: nat,
    /// How many log streams were begun.
    pub begun: nat,
    /// How many log streams are being examined.
    pub examining: nat,
    /// How many deletions are in flight.
    pub deleting: nat,
}

impl View for Sweep {
    type V = SweepView;

    closed spec fn view(&self) -> SweepView {
        SweepView {
            limit: self.limit as nat,
            total: self.total as nat,
            begun: self.begun as nat,
            examining: self.examining as nat,
            deleting: self.deleting as nat,
        }
    }
}

/// What happens in a sweep.
pub enum SweepEvent {
    /// A log stream is begun.
    Begun,
    /// The deletion of a log stream that is being examined is sent, or has come to an end.
    Deletion(DeletionEvent),
    /// A log stream has been finished with.
    Ended,
}

impl SweepView {
    /// No more log streams are being examined than may be, or than were begun, and each deletion
    /// in flight is of one of them.
    pub open spec fn wf(self) -> bool {
        &&& self.deleting <= self.examining <= self.limit
        &&& self.examining <= self.begun <= self.total
    }
}

/// A sweep over this many log streams in a run with these settings, before any is begun.
pub open spec fn sweep_start(config: ConfigView, total: nat) -> SweepView {
    SweepView {
        limit: config::clamped_config(config).concurrency_limit as nat,
        total,
        begun: 0,
        examining: 0,
        deleting: 0,
    }
}

/// Whether the event can happen now: a log stream is begun where there is one left and room for
/// it, a deletion is sent for a log stream that is being examined and has none in flight, and a
/// log stream is finished with when it has none in flight.
pub open spec fn fits(sweep: SweepView, event: SweepEvent) -> bool {
    match event {
        SweepEvent::Begun => sweep.begun < sweep.total && sweep.examining < sweep.limit,
        SweepEvent::Deletion(DeletionEvent::Sent) => sweep.deleting < sweep.examining,
        SweepEvent::Deletion(DeletionEvent::Ended) => sweep.deleting > 0,
        SweepEvent::Ended => sweep.deleting < sweep.examining,
    }
}

/// The sweep after an event.
pub open spec fn sweep_next(sweep: SweepView, event: SweepEvent) -> SweepView {
    match event {
        SweepEvent::Begun => SweepView {
            begun: sweep.begun + 1,
            examining: sweep.examining + 1,
            ..sweep
        },
        SweepEvent::Deletion(DeletionEvent::Sent) => SweepView {
            deleting: sweep.deleting + 1,
            ..sweep
        },
        SweepEvent::Deletion(DeletionEvent::Ended) => SweepView {
            deleting: (sweep.deleting - 1) as nat,
            ..sweep
        },
        SweepEvent::Ended => SweepView { examining: (sweep.examining - 1) as nat, ..sweep },
    }
}

/// Whether every log stream has been begun and finished with.
pub open spec fn is_over(sweep: SweepView) -> bool {
    sweep.begun == sweep.total && sweep.examining == 0
}

impl Sweep {
    /// A sweep over this many log streams in a run with these settings.
    pub fn new(config: &Config, total: usize) -> (sweep: Sweep)
        ensures
            sweep@ == sweep_start(config@, total as nat),
            sweep@.wf(),
    {
        Sweep {
            limit: if config.concurrency_limit < 1 {
                1
            } else {
                config.concurrency_limit
            },
            total,
            begun: 0,
            examining: 0,
            deleting: 0,
        }
    }

    /// How many log streams may be examined at a time.
    pub fn limit(&self) -> (limit: usize)
        ensures
            limit == self@.limit,
    {
        self.limit
    }

    /// Tells whether every log stream has been begun and finished with.
    pub fn is_over(&self) -> (over: bool)
        ensures
            over == is_over(self@),
    {
        self.begun == self.total && self.examining == 0
    }

    /// Tells whether the event can happen now.
    pub fn accepts(&self, event: &SweepEvent) -> (fit: bool)
        ensures
            fit == fits(self@, *event),
    {
        match event {
            SweepEvent::Begun => self.begun < self.total && self.examining < self.limit,
            SweepEvent::Deletion(DeletionEvent::Sent) => self.deleting < self.examining,
            SweepEvent::Deletion(DeletionEvent::Ended) => self.deleting > 0,
            SweepEvent::Ended => self.deleting < self.examining,
        }
    }

    /// Takes an event in.
    pub fn step(&mut self, event: SweepEvent)
        requires
            old(self)@.wf(),
            fits(old(self)@, event),
        ensures
            final(self)@.wf(),
            final(self)@ == sweep_next(old(self)@, event),
    {
        match event {
            SweepEvent::Begun => {
                self.begun = self.begun + 1;
                self.examining = self.examining + 1;
            },
            SweepEvent::Deletion(DeletionEvent::Sent) => {
                self.deleting = self.deleting + 1;
            },
            SweepEvent::Deletion(DeletionEvent::Ended) => {
                self.deleting = self.deleting - 1;
            },
            SweepEvent::Ended => {
                self.examining = self.examining - 1;
            },
        }
    }
}

} // verus!
