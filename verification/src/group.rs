//! The pass over one log group: its cutoff date, the listing of its log streams, and what
//! came of them.

use crate::config::{Config, ConfigView};
use crate::date;
use crate::date::Date;
use crate::error;
use crate::error::{GcError, GcErrorView};
use crate::logs::{LogGroup, LogStream};
use crate::multiplier;
use crate::tally::Tally;
use vstd::prelude::*;

verus! {

/// The name of a log group for the log.
pub fn display_name(group: &LogGroup) -> (name: &str)
    ensures
        name@ == match group.log_group_name {
            Some(n) => n@,
            None => "unknown"@,
        },
{
    match &group.log_group_name {
        Some(n) => n.as_str(),
        None => "unknown",
    }
}

/// From which date on the log streams of a log group are kept.
#[derive(Debug)]
pub struct GroupPlan {
    pub log_group_name: String,
    /// The retention period of the log group, times the multiplier.
    pub retention_days: i64,
    pub keep_from_date: Date,
}

/// What a `GroupPlan` stands for; the date is a day number.
pub struct GroupPlanView {
    pub log_group_name: Seq<char>,
    pub retention_days: int,
    pub keep_from: int,
}

impl View for GroupPlan {
    type V = GroupPlanView;

    open spec fn view(&self) -> GroupPlanView {
        GroupPlanView {
            log_group_name: self.log_group_name@,
            retention_days: self.retention_days as int,
            keep_from: self.keep_from_date@,
        }
    }
}

/// For how many days the log streams of a log group with this retention period are kept.
pub open spec fn kept_days(retention_in_days: i32, config: ConfigView) -> int {
    multiplier::scaled_days(retention_in_days as int, config.retention_multiplier)
}

/// Whether there is a plan for the log group, or a failure to report: a log group with a name
/// has a retention period, and its cutoff date is one of the calendar.
pub open spec fn is_plannable(group: LogGroup, config: ConfigView, today: int) -> bool {
    group.log_group_name is Some ==> (group.retention_in_days matches Some(days) && (date::is_span(
        kept_days(days, config),
    ) ==> date::is_day(today - kept_days(days, config))))
}

/// The plan for a log group on the date with day number `today`: log streams are kept from as
/// many days back as the retention period, times the multiplier, has.
pub open spec fn planned(group: LogGroup, config: ConfigView, today: int) -> Result<
    GroupPlanView,
    GcErrorView,
> {
    match group.log_group_name {
        None => Err(GcErrorView::MissingGroupName),
        Some(name) => {
            let days = kept_days(group.retention_in_days->0, config);
            if date::is_span(days) {
                Ok(
                    GroupPlanView {
                        log_group_name: name@,
                        retention_days: days,
                        keep_from: today - days,
                    },
                )
            } else {
                Err(GcErrorView::NoSuchSpan(days))
            }
        },
    }
}

/// What a result of planning stands for.
pub open spec fn plan_view(plan: Result<GroupPlan, GcError>) -> Result<GroupPlanView, GcErrorView> {
    match plan {
        Ok(p) => Ok(p@),
        Err(e) => Err(e@),
    }
}

/// Tells whether the log group can be planned for.
pub fn can_plan(group: &LogGroup, config: &Config, today: &Date) -> (can: bool)
    ensures
        can == is_plannable(*group, config@, today@),
{
    if group.log_group_name.is_none() {
        return true;
    }
    match group.retention_in_days {
        Some(retention) => {
            let days: i64 = config.retention_multiplier.scale(retention);
            match date::try_days(days) {
                Some(span) => today.can_go_back(span),
                None => true,
            }
        },
        None => false,
    }
}

/// Plans the pass over a log group as of `today`.
pub fn plan_log_group(group: &LogGroup, config: &Config, today: &Date) -> (plan: Result<
    GroupPlan,
    GcError,
>)
    requires
        is_plannable(*group, config@, today@),
    ensures
        plan_view(plan) == planned(*group, config@, today@),
{
    let log_group_name: String = match &group.log_group_name {
        Some(name) => name.clone(),
        None => {
            return Err(GcError::MissingGroupName);
        },
    };
    let retention: i32 = group.retention_in_days.unwrap();
    let retention_days: i64 = config.retention_multiplier.scale(retention);
    match date::try_days(retention_days) {
        Some(span) => Ok(
            GroupPlan { log_group_name, retention_days, keep_from_date: today.back(span) },
        ),
        None => Err(GcError::NoSuchSpan(retention_days)),
    }
}

/// Plans the pass over a log group as of the current date, the one that the clock gave, if it can
/// be planned for. Whatever the date, it can where the calendar reaches as many days back from
/// 1970 as log streams are kept.
pub fn plan_log_group_today(group: &LogGroup, config: &Config) -> (plan: Option<
    Result<GroupPlan, GcError>,
>)
    ensures
        (group.log_group_name is Some && (group.retention_in_days matches Some(days) && 0 <= kept_days(
            days,
            config@,
        ) <= date::EPOCH_DAY - date::MIN_DAY)) ==> (plan matches Some(Ok(p))
            && p.log_group_name@ == group.log_group_name->0@ && p.retention_days == kept_days(
            group.retention_in_days->0,
            config@,
        )),
        exists|today: int|
            {
                &&& #[trigger] date::is_clock_day(today)
                &&& date::is_day(today)
                &&& date::EPOCH_DAY <= today
                &&& plan is Some <==> is_plannable(*group, config@, today)
                &&& plan matches Some(p) ==> plan_view(p) == planned(*group, config@, today)
            },
{
    let today: Date = Date::today();
    assert(date::is_day(today@));
    if can_plan(group, config, &today) {
        Some(plan_log_group(group, config, &today))
    } else {
        None
    }
}

/// Whether progress is shown after the log stream at index `idx` of a log group with
/// `stream_count` log streams.
pub open spec fn is_progress_shown(stream_count: int, idx: int, config: ConfigView) -> bool {
    stream_count > config.progress_threshold && (idx + 1) % (config.progress_interval as int) == 0
}

/// Tells whether to show progress after the log stream at index `idx`.
pub fn shows_progress(stream_count: usize, idx: usize, config: &Config) -> (shows: bool)
    requires
        idx < stream_count,
        stream_count > config.progress_threshold ==> config.progress_interval > 0,
    ensures
        shows == is_progress_shown(stream_count as int, idx as int, config@),
{
    stream_count > config.progress_threshold && (idx + 1) % config.progress_interval == 0
}

/// The results that are failures, in their order.
pub open spec fn failures(results: Seq<Result<(), GcError>>) -> Seq<Result<(), GcError>> {
    results.filter(|r: Result<(), GcError>| r is Err)
}

/// What came of a log group whose log streams had these results: the number of failures and
/// the message of the first, if there is any.
pub open spec fn group_outcome(log_group_name: Seq<char>, results: Seq<Result<(), GcError>>) -> Result<
    (),
    GcErrorView,
> {
    let failed = failures(results);
    if failed.len() == 0 {
        Ok(())
    } else {
        Err(
            GcErrorView::LogStreamsFailed(
                failed.len(),
                log_group_name,
                error::error_message(failed[0]->Err_0@),
            ),
        )
    }
}

/// Sums up the results of the log streams of a log group.
pub fn sum_up_log_group(log_group_name: &str, results: Vec<Result<(), GcError>>) -> (outcome: Result<
    (),
    GcError,
>)
    ensures
        error::outcome_view(outcome) == group_outcome(log_group_name@, results@),
{
    let ghost pred = |r: Result<(), GcError>| r is Err;
    let mut error_count: usize = 0;
    let mut first: Option<String> = None;
    let mut i: usize = 0;
    proof {
        reveal(Seq::filter);
        assert(results@.take(0).filter(pred) =~= Seq::<Result<(), GcError>>::empty());
    }
    while i < results.len()
        invariant
            i <= results.len(),
            pred == (|r: Result<(), GcError>| r is Err),
            error_count == results@.take(i as int).filter(pred).len(),
            error_count <= i,
            first is Some <==> error_count > 0,
            first matches Some(text) ==> text@ == error::error_message(
                results@.take(i as int).filter(pred)[0]->Err_0@,
            ),
        decreases results.len() - i,
    {
        proof {
            reveal(Seq::filter);
            assert(results@.take(i + 1).drop_last() =~= results@.take(i as int));
        }
        match &results[i] {
            Ok(()) => {},
            Err(e) => {
                error_count = error_count + 1;
                if first.is_none() {
                    first = Some(e.message());
                }
            },
        }
        i = i + 1;
    }
    assert(results@.take(results@.len() as int) =~= results@);
    match first {
        Some(text) => Err(GcError::LogStreamsFailed(error_count, log_group_name.to_owned(), text)),
        None => Ok(()),
    }
}

/// Where the pass over a log group stands.
#[derive(Debug, Clone, Copy, PartialEq, Eq, Structural)]
pub enum GroupPhase {
    /// Waiting for a page of the listing of log streams.
    Listing,
    /// Waiting for the results of the log streams.
    Sweeping,
    /// Finished.
    Done,
}

/// What happened in the pass over a log group.
#[derive(Debug)]
pub enum GroupEvent {
    /// A page of the listing came; it may lack log streams.
    Page(Option<Vec<LogStream>>),
    /// A page could not be had.
    PageFailed,
    /// There are no more pages.
    NoMorePages,
    /// The log streams have these results, in the order in which they came.
    Swept(Vec<Result<(), GcError>>),
}

/// What a `GroupEvent` stands for.
pub enum GroupEventView {
    Page(Seq<LogStream>),
    PageFailed,
    NoMorePages,
    Swept(Seq<Result<(), GcError>>),
}

impl View for GroupEvent {
    type V = GroupEventView;

    open spec fn view(&self) -> GroupEventView {
        match self {
            GroupEvent::Page(Some(streams)) => GroupEventView::Page(streams@),
            GroupEvent::Page(None) => GroupEventView::Page(Seq::empty()),
            GroupEvent::PageFailed => GroupEventView::PageFailed,
            GroupEvent::NoMorePages => GroupEventView::NoMorePages,
            GroupEvent::Swept(results) => GroupEventView::Swept(results@),
        }
    }
}

/// What the pass over a log group needs next.
#[derive(Debug)]
pub enum GroupAction {
    /// The next page of the listing of log streams.
    DescribePage,
    /// Each of these log streams examined, and deleted where it is too old.
    Sweep(Vec<LogStream>),
    /// Nothing: this came of it.
    Finish(Result<(), GcError>),
}

/// What a `GroupAction` stands for.
pub enum GroupActionView {
    DescribePage,
    Sweep(Seq<LogStream>),
    Finish(Result<(), GcErrorView>),
}

impl View for GroupAction {
    type V = GroupActionView;

    open spec fn view(&self) -> GroupActionView {
        match self {
            GroupAction::DescribePage => GroupActionView::DescribePage,
            GroupAction::Sweep(streams) => GroupActionView::Sweep(streams@),
            GroupAction::Finish(outcome) => GroupActionView::Finish(error::outcome_view(*outcome)),
        }
    }
}

/// The pass over a log group.
#[derive(Debug)]
pub struct GroupPass {
    log_group_name: String,
    phase: GroupPhase,
    log_streams: Vec<LogStream>,
    handed_out: usize,
}

/// What a `GroupPass` stands for: the log streams listed so far, and how many of them were
/// handed out to be swept.
#[verifier::ext_equal]
pub struct GroupPassView {
    pub log_group_name: Seq<char>,
    pub phase: GroupPhase,
    pub log_streams: Seq<LogStream>,
    pub handed_out: nat,
}

impl View for GroupPass {
    type V = GroupPassView;

    closed spec fn view(&self) -> GroupPassView {
        GroupPassView {
            log_group_name: self.log_group_name@,
            phase: self.phase,
            log_streams: self.log_streams@,
            handed_out: self.handed_out as nat,
        }
    }
}

/// A pass that has not begun.
pub open spec fn pass_start(log_group_name: Seq<char>) -> GroupPassView {
    GroupPassView {
        log_group_name,
        phase: GroupPhase::Listing,
        log_streams: Seq::empty(),
        handed_out: 0,
    }
}

/// Whether the event can happen now. There are as many results as log streams were handed out.
pub open spec fn fits(pass: GroupPassView, event: GroupEventView) -> bool {
    match event {
        GroupEventView::Swept(results) => pass.phase == GroupPhase::Sweeping && results.len()
            == pass.handed_out,
        _ => pass.phase == GroupPhase::Listing,
    }
}

/// The pass after an event, and what it needs next. Log streams are listed to the end before
/// any of them is swept; a log group without log streams is finished at once.
pub open spec fn group_next(pass: GroupPassView, event: GroupEventView) -> (
    GroupPassView,
    GroupActionView,
) {
    let done = GroupPassView {
        phase: GroupPhase::Done,
        log_streams: Seq::empty(),
        handed_out: 0,
        ..pass
    };
    match event {
        GroupEventView::Page(streams) => (
            GroupPassView { log_streams: pass.log_streams + streams, ..pass },
            GroupActionView::DescribePage,
        ),
        GroupEventView::PageFailed => (
            done,
            GroupActionView::Finish(Err(GcErrorView::DescribeLogStreams(pass.log_group_name))),
        ),
        GroupEventView::NoMorePages => if pass.log_streams.len() == 0 {
            (done, GroupActionView::Finish(Ok(())))
        } else {
            (
                GroupPassView {
                    phase: GroupPhase::Sweeping,
                    log_streams: Seq::empty(),
                    handed_out: pass.log_streams.len(),
                    ..pass
                },
                GroupActionView::Sweep(pass.log_streams),
            )
        },
        GroupEventView::Swept(results) => (
            done,
            GroupActionView::Finish(group_outcome(pass.log_group_name, results)),
        ),
    }
}

/// The counters after an event: log streams are counted when their listing ends.
pub open spec fn group_tally(pass: GroupPassView, tally: Tally, event: GroupEventView) -> Tally {
    match event {
        GroupEventView::NoMorePages => Tally {
            total_streams: tally.total_streams.wrapping_add(pass.log_streams.len() as usize),
            ..tally
        },
        _ => tally,
    }
}

impl GroupPass {
    /// Begins the pass over the log group of this name, with the listing of its log streams.
    pub fn begin(log_group_name: String) -> (pass: GroupPass)
        ensures
            pass@ == pass_start(log_group_name@),
    {
        GroupPass {
            log_group_name,
            phase: GroupPhase::Listing,
            log_streams: Vec::new(),
            handed_out: 0,
        }
    }

    /// Tells whether the event can happen now.
    pub fn accepts(&self, event: &GroupEvent) -> (fits: bool)
        ensures
            fits == self::fits(self@, event@),
    {
        match event {
            GroupEvent::Swept(results) => self.phase == GroupPhase::Sweeping && results.len()
                == self.handed_out,
            _ => self.phase == GroupPhase::Listing,
        }
    }

    /// Takes an event in, and says what is needed next.
    pub fn step(&mut self, tally: &mut Tally, event: GroupEvent) -> (action: GroupAction)
        requires
            fits(old(self)@, event@),
        ensures
            (final(self)@, action@) == group_next(old(self)@, event@),
            *final(tally) == group_tally(old(self)@, *old(tally), event@),
    {
        match event {
            GroupEvent::Page(page) => {
                match page {
                    Some(mut streams) => {
                        self.log_streams.append(&mut streams);
                    },
                    None => {
                        assert(self@.log_streams + Seq::empty() =~= self@.log_streams);
                    },
                }
                GroupAction::DescribePage
            },
            GroupEvent::PageFailed => {
                self.phase = GroupPhase::Done;
                self.log_streams = Vec::new();
                self.handed_out = 0;
                GroupAction::Finish(Err(GcError::DescribeLogStreams(self.log_group_name.clone())))
            },
            GroupEvent::NoMorePages => {
                tally.streams_listed(self.log_streams.len());
                let mut log_streams: Vec<LogStream> = Vec::new();
                log_streams.append(&mut self.log_streams);
                assert(log_streams@ =~= old(self)@.log_streams);
                self.handed_out = log_streams.len();
                if log_streams.len() == 0 {
                    self.phase = GroupPhase::Done;
                    GroupAction::Finish(Ok(()))
                } else {
                    self.phase = GroupPhase::Sweeping;
                    GroupAction::Sweep(log_streams)
                }
            },
            GroupEvent::Swept(results) => {
                self.phase = GroupPhase::Done;
                self.log_streams = Vec::new();
                self.handed_out = 0;
                GroupAction::Finish(sum_up_log_group(self.log_group_name.as_str(), results))
            },
        }
    }
}

} // verus!
