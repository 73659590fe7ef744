//! The run over all log groups: paging through them, handing them out in batches, and
//! waiting for the batches.

use crate::config;
use crate::config::{Config, ConfigView};
use crate::error;
use crate::error::{GcError, GcErrorView};
use crate::logs;
use crate::logs::LogGroup;
use crate::tally::Tally;
use vstd::prelude::*;

verus! {

/// Where a run stands.
#[derive(Debug, Clone, Copy, PartialEq, Eq, Structural)]
pub enum RunPhase {
    /// Waiting for a page of the listing of log groups.
    Paging,
    /// Waiting for a batch to be begun.
    Spawning,
    /// Waiting for any batch to end, because as many as may run at a time do.
    Joining,
    /// Waiting for the remaining batches to end, one after the other.
    Draining,
    /// Finished.
    Done,
}

/// What happened in a run.
#[derive(Debug)]
pub enum RunEvent {
    /// A page of the listing came; it may lack log groups.
    Page(Option<Vec<LogGroup>>),
    /// A page could not be had.
    PageFailed,
    /// There are no more pages.
    NoMorePages,
    /// A batch was begun.
    Spawned,
    /// A batch ended: of itself, or by a failure of its task.
    Joined(bool),
}

/// What a `RunEvent` stands for.
pub enum RunEventView {
    Page(Seq<LogGroup>),
    PageFailed,
    NoMorePages,
    Spawned,
    Joined(bool),
}

impl View for RunEvent {
    type V = RunEventView;

    open spec fn view(&self) -> RunEventView {
        match self {
            RunEvent::Page(Some(groups)) => RunEventView::Page(groups@),
            RunEvent::Page(None) => RunEventView::Page(Seq::empty()),
            RunEvent::PageFailed => RunEventView::PageFailed,
            RunEvent::NoMorePages => RunEventView::NoMorePages,
            RunEvent::Spawned => RunEventView::Spawned,
            RunEvent::Joined(ended) => RunEventView::Joined(*ended),
        }
    }
}

/// What a run needs next.
#[derive(Debug)]
pub enum RunAction {
    /// The next page of the listing of log groups.
    DescribePage,
    /// A batch that processes these log groups one after the other.
    Spawn(Vec<LogGroup>),
    /// The end of any batch.
    JoinAny,
    /// The end of the next one of the batches that remain.
    JoinNext,
    /// Nothing: this came of it.
    Finish(Result<(), GcError>),
}

/// What a `RunAction` stands for.
pub enum RunActionView {
    DescribePage,
    Spawn(Seq<LogGroup>),
    JoinAny,
    JoinNext,
    Finish(Result<(), GcErrorView>),
}

impl View for RunAction {
    type V = RunActionView;

    open spec fn view(&self) -> RunActionView {
        match self {
            RunAction::DescribePage => RunActionView::DescribePage,
            RunAction::Spawn(groups) => RunActionView::Spawn(groups@),
            RunAction::JoinAny => RunActionView::JoinAny,
            RunAction::JoinNext => RunActionView::JoinNext,
            RunAction::Finish(outcome) => RunActionView::Finish(error::outcome_view(*outcome)),
        }
    }
}

/// A run. Its counters wrap around.
#[derive(Debug)]
pub struct GcRun {
    config: Config,
    phase: RunPhase,
    in_flight: usize,
    page_count: usize,
    total_log_groups: usize,
}

/// What a `GcRun` stands for.
pub struct GcRunView {
    pub config: ConfigView,
    pub phase: RunPhase,
    /// Batches that were begun and have not ended.
    pub in_flight: nat,
    /// Pages of the listing that came.
    pub page_count: usize,
    /// Log groups that were handed out in batches.
    pub total_log_groups: usize,
}

impl View for GcRun {
    type V = GcRunView;

    closed spec fn view(&self) -> GcRunView {
        GcRunView {
            config: self.config@,
            phase: self.phase,
            in_flight: self.in_flight as nat,
            page_count: self.page_count,
            total_log_groups: self.total_log_groups,
        }
    }
}

impl GcRunView {
    /// There is room for a batch, and no more batches are in flight than there is room for.
    /// There is always room for one when a page is asked for.
    pub open spec fn wf(self) -> bool {
        let limit = self.config.concurrency_limit;
        &&& limit >= 1
        &&& self.in_flight <= limit
        &&& match self.phase {
            RunPhase::Paging | RunPhase::Spawning => self.in_flight < limit,
            RunPhase::Joining => self.in_flight == limit,
            RunPhase::Draining => self.in_flight > 0,
            RunPhase::Done => true,
        }
    }
}

/// A run that has not begun.
pub open spec fn run_start(config: ConfigView) -> GcRunView {
    GcRunView {
        config: config::clamped_config(config),
        phase: RunPhase::Paging,
        in_flight: 0,
        page_count: 0,
        total_log_groups: 0,
    }
}

/// Whether the event can happen in this phase.
pub open spec fn fits_phase(phase: RunPhase, event: RunEventView) -> bool {
    match event {
        RunEventView::Page(_) | RunEventView::PageFailed | RunEventView::NoMorePages => phase
            == RunPhase::Paging,
        RunEventView::Spawned => phase == RunPhase::Spawning,
        RunEventView::Joined(_) => phase == RunPhase::Joining || phase == RunPhase::Draining,
    }
}

/// What came of a run with this many failures.
pub open spec fn run_outcome(failed_groups: usize) -> Result<(), GcErrorView> {
    if failed_groups > 0 {
        Err(GcErrorView::LogGroupsFailed(failed_groups as nat))
    } else {
        Ok(())
    }
}

/// The number of failures after an event: a batch whose task failed counts as one.
pub open spec fn failed_after(failed_groups: usize, event: RunEventView) -> usize {
    match event {
        RunEventView::Joined(false) => failed_groups.wrapping_add(1),
        _ => failed_groups,
    }
}

/// The run after an event, and what it needs next, where `failed_groups` failures were counted
/// before the event.
pub open spec fn run_next(run: GcRunView, failed_groups: usize, event: RunEventView) -> (
    GcRunView,
    RunActionView,
) {
    match event {
        RunEventView::Page(groups) => {
            let batch = logs::processed_groups(groups, run.config);
            let seen = GcRunView { page_count: run.page_count.wrapping_add(1), ..run };
            if batch.len() == 0 {
                (seen, RunActionView::DescribePage)
            } else {
                (
                    GcRunView {
                        phase: RunPhase::Spawning,
                        total_log_groups: run.total_log_groups.wrapping_add(batch.len() as usize),
                        ..seen
                    },
                    RunActionView::Spawn(batch),
                )
            }
        },
        RunEventView::PageFailed => (
            GcRunView { phase: RunPhase::Done, ..run },
            RunActionView::Finish(Err(GcErrorView::DescribeLogGroups)),
        ),
        RunEventView::NoMorePages => after_drain(run, failed_groups),
        RunEventView::Spawned => {
            let more = GcRunView { in_flight: run.in_flight + 1, ..run };
            if more.in_flight >= run.config.concurrency_limit {
                (GcRunView { phase: RunPhase::Joining, ..more }, RunActionView::JoinAny)
            } else {
                (GcRunView { phase: RunPhase::Paging, ..more }, RunActionView::DescribePage)
            }
        },
        RunEventView::Joined(_) => {
            let fewer = GcRunView { in_flight: (run.in_flight - 1) as nat, ..run };
            if run.phase == RunPhase::Joining {
                (GcRunView { phase: RunPhase::Paging, ..fewer }, RunActionView::DescribePage)
            } else {
                after_drain(fewer, failed_after(failed_groups, event))
            }
        },
    }
}

/// A run without further pages waits as long as batches are in flight.
pub open spec fn after_drain(run: GcRunView, failed_groups: usize) -> (GcRunView, RunActionView) {
    if run.in_flight == 0 {
        (
            GcRunView { phase: RunPhase::Done, ..run },
            RunActionView::Finish(run_outcome(failed_groups)),
        )
    } else {
        (GcRunView { phase: RunPhase::Draining, ..run }, RunActionView::JoinNext)
    }
}

/// Sums up a run with this many failures.
pub fn sum_up_run(failed_groups: usize) -> (outcome: Result<(), GcError>)
    ensures
        error::outcome_view(outcome) == run_outcome(failed_groups),
{
    if failed_groups > 0 {
        Err(GcError::LogGroupsFailed(failed_groups))
    } else {
        Ok(())
    }
}

impl GcRun {
    /// Begins a run, with the listing of log groups.
    pub fn begin(config: Config) -> (run: GcRun)
        ensures
            run@ == run_start(config@),
            run@.wf(),
    {
        GcRun {
            config: config.clamped(),
            phase: RunPhase::Paging,
            in_flight: 0,
            page_count: 0,
            total_log_groups: 0,
        }
    }

    /// The settings of the run.
    pub fn config(&self) -> (config: &Config)
        ensures
            config@ == self@.config,
    {
        &self.config
    }

    /// How many pages of the listing came.
    pub fn page_count(&self) -> (count: usize)
        ensures
            count == self@.page_count,
    {
        self.page_count
    }

    /// How many log groups were handed out in batches.
    pub fn total_log_groups(&self) -> (count: usize)
        ensures
            count == self@.total_log_groups,
    {
        self.total_log_groups
    }

    /// How many batches were begun and have not ended.
    pub fn in_flight(&self) -> (count: usize)
        ensures
            count == self@.in_flight,
    {
        self.in_flight
    }

    /// Tells whether the event can happen now.
    pub fn accepts(&self, event: &RunEvent) -> (fits: bool)
        ensures
            fits == fits_phase(self@.phase, event@),
    {
        match event {
            RunEvent::Page(_) | RunEvent::PageFailed | RunEvent::NoMorePages => self.phase
                == RunPhase::Paging,
            RunEvent::Spawned => self.phase == RunPhase::Spawning,
            RunEvent::Joined(_) => self.phase == RunPhase::Joining || self.phase
                == RunPhase::Draining,
        }
    }

    /// Goes on once there are no more pages.
    fn drain(&mut self, failed_groups: usize) -> (action: RunAction)
        ensures
            (final(self)@, action@) == after_drain(old(self)@, failed_groups),
    {
        if self.in_flight == 0 {
            self.phase = RunPhase::Done;
            RunAction::Finish(sum_up_run(failed_groups))
        } else {
            self.phase = RunPhase::Draining;
            RunAction::JoinNext
        }
    }

    /// Takes an event in, and says what is needed next.
    pub fn step(&mut self, tally: &mut Tally, event: RunEvent) -> (action: RunAction)
        requires
            old(self)@.wf(),
            fits_phase(old(self)@.phase, event@),
        ensures
            final(self)@.wf(),
            (final(self)@, action@) == run_next(old(self)@, old(tally).failed_groups, event@),
            *final(tally) == (Tally {
                failed_groups: failed_after(old(tally).failed_groups, event@),
                ..*old(tally)
            }),
    {
        match event {
            RunEvent::Page(page) => {
                self.page_count = self.page_count.wrapping_add(1);
                let groups: Vec<LogGroup> = match page {
                    Some(groups) => groups,
                    None => Vec::new(),
                };
                let batch: Vec<LogGroup> = logs::retain_processed(groups, &self.config);
                if batch.len() == 0 {
                    RunAction::DescribePage
                } else {
                    self.total_log_groups = self.total_log_groups.wrapping_add(batch.len());
                    self.phase = RunPhase::Spawning;
                    RunAction::Spawn(batch)
                }
            },
            RunEvent::PageFailed => {
                self.phase = RunPhase::Done;
                RunAction::Finish(Err(GcError::DescribeLogGroups))
            },
            RunEvent::NoMorePages => self.drain(tally.failed_groups),
            RunEvent::Spawned => {
                self.in_flight = self.in_flight + 1;
                if self.in_flight >= self.config.concurrency_limit {
                    self.phase = RunPhase::Joining;
                    RunAction::JoinAny
                } else {
                    self.phase = RunPhase::Paging;
                    RunAction::DescribePage
                }
            },
            RunEvent::Joined(ended) => {
                if !ended {
                    tally.group_failed();
                }
                self.in_flight = self.in_flight - 1;
                if self.phase == RunPhase::Joining {
                    self.phase = RunPhase::Paging;
                    RunAction::DescribePage
                } else {
                    self.drain(tally.failed_groups)
                }
            },
        }
    }
}

} // verus!
