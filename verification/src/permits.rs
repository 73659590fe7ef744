//! The deletions of log streams in flight, over all log groups of a run.

use crate::config;
use crate::config::{Config, ConfigView};
use vstd::prelude::*;

verus! {

/// How many deletions are in flight, and how many may be.
#[derive(Debug)]
pub struct DeletionPermits {
    limit: usize,
    in_flight: usize,
}

/// What a `DeletionPermits` stands for.
pub struct DeletionPermitsView {
    pub limit: nat,
    pub in_flight: nat,
}

impl View for DeletionPermits {
    type V = DeletionPermitsView;

    closed spec fn view(&self) -> DeletionPermitsView {
        DeletionPermitsView { limit: self.limit as nat, in_flight: self.in_flight as nat }
    }
}

/// What happens to deletions.
pub enum DeletionEvent {
    /// A deletion is sent.
    Sent,
    /// A deletion that was sent has come to an end.
    Ended,
}

impl DeletionPermitsView {
    /// No more deletions are in flight than may be.
    pub open spec fn wf(self) -> bool {
        self.in_flight <= self.limit
    }
}

/// The permits of a run with these settings, before any deletion is sent.
pub open spec fn permits_start(config: ConfigView) -> DeletionPermitsView {
    DeletionPermitsView {
        limit: config::clamped_config(config).concurrency_limit as nat,
        in_flight: 0,
    }
}

/// Whether the event can happen now: a deletion is sent where there is room for it, and ends
/// where one is in flight.
pub open spec fn permits_event(permits: DeletionPermitsView, event: DeletionEvent) -> bool {
    match event {
        DeletionEvent::Sent => permits.in_flight < permits.limit,
        DeletionEvent::Ended => permits.in_flight > 0,
    }
}

/// The permits after an event.
pub open spec fn permits_next(permits: DeletionPermitsView, event: DeletionEvent) -> DeletionPermitsView {
    match event {
        DeletionEvent::Sent => DeletionPermitsView { in_flight: permits.in_flight + 1, ..permits },
        DeletionEvent::Ended => DeletionPermitsView { in_flight: (permits.in_flight - 1) as nat, ..permits },
    }
}

impl DeletionPermits {
    /// The permits of a run with these settings.
    pub fn new(config: &Config) -> (permits: DeletionPermits)
        ensures
            permits@ == permits_start(config@),
            permits@.wf(),
    {
        DeletionPermits {
            limit: if config.concurrency_limit < 1 {
                1
            } else {
                config.concurrency_limit
            },
            in_flight: 0,
        }
    }

    /// How many deletions may be in flight.
    pub fn limit(&self) -> (limit: usize)
        ensures
            limit == self@.limit,
    {
        self.limit
    }

    /// Tells whether the event can happen now.
    pub fn accepts(&self, event: &DeletionEvent) -> (fits: bool)
        ensures
            fits == permits_event(self@, *event),
    {
        match event {
            DeletionEvent::Sent => self.in_flight < self.limit,
            DeletionEvent::Ended => self.in_flight > 0,
        }
    }

    /// Takes an event in.
    pub fn step(&mut self, event: DeletionEvent)
        requires
            old(self)@.wf(),
            permits_event(old(self)@, event),
        ensures
            final(self)@.wf(),
            final(self)@ == permits_next(old(self)@, event),
    {
        match event {
            DeletionEvent::Sent => {
                self.in_flight = self.in_flight + 1;
            },
            DeletionEvent::Ended => {
                self.in_flight = self.in_flight - 1;
            },
        }
    }
}

} // verus!
