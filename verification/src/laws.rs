//! What holds of the library as a whole.

use crate::batch;
use crate::batch::{BatchEvent, BatchPhase, BatchView};
use crate::config;
use crate::config::{Config, ConfigView};
use crate::date;
use crate::error;
use crate::error::{GcError, GcErrorView};
use crate::group;
use crate::group::{
    GroupAction, GroupActionView, GroupEvent, GroupEventView, GroupPassView, GroupPhase, GroupPlan,
    GroupPlanView,
};
use crate::logs;
use crate::logs::{LogGroup, LogStream};
use crate::multiplier;
use crate::multiplier::Multiplier;
use crate::permits;
use crate::permits::{DeletionEvent, DeletionPermitsView};
use crate::rounding;
use crate::run;
use crate::run::{GcRunView, RunAction, RunActionView, RunEvent, RunEventView, RunPhase};
use crate::sequences;
use crate::stream;
use crate::sweep;
use crate::sweep::{SweepEvent, SweepView};
use crate::tally;
use crate::tally::Tally;
use vstd::arithmetic::div_mod::{
    lemma_div_of0, lemma_fundamental_div_mod, lemma_fundamental_div_mod_converse,
};
use vstd::arithmetic::power2::lemma2_to64_rest;
use vstd::prelude::*;

verus! {

// Which log groups are processed.

/// A log group without a positive retention period is not processed, whatever the settings.
pub proof fn law_no_retention_no_processing(group: LogGroup, config: ConfigView)
    requires
        !(group.retention_in_days matches Some(days) && days > 0),
    ensures
        !logs::is_processed(group, config),
{
}

/// Without patterns, every log group with a name and a positive retention period is processed.
pub proof fn law_no_patterns_no_selection(group: LogGroup, config: ConfigView)
    requires
        config.include_pattern is None,
        config.exclude_pattern is None,
    ensures
        logs::is_processed(group, config) <==> (group.log_group_name is Some && (
        group.retention_in_days matches Some(days) && days > 0)),
{
}

/// A log group that is excluded is not processed, also where it is included.
pub proof fn law_exclusion_overrides_inclusion(group: LogGroup, config: ConfigView)
    requires
        group.log_group_name matches Some(name) && logs::is_excluded(name@, config),
    ensures
        !logs::is_processed(group, config),
{
}

/// A pattern only takes log groups away: without it, what was processed still is.
pub proof fn law_patterns_only_narrow(
    group: LogGroup,
    config: ConfigView,
    inclusion: Option<Seq<char>>,
    exclusion: Option<Seq<char>>,
)
    requires
        inclusion is None || inclusion == config.include_pattern,
        exclusion is None || exclusion == config.exclude_pattern,
        logs::is_processed(group, config),
    ensures
        logs::is_processed(
            group,
            ConfigView { include_pattern: inclusion, exclude_pattern: exclusion, ..config },
        ),
{
}

// When log streams are kept.

/// A log group that is processed has what a pass over it needs: a name, so that planning never
/// fails for want of one, and a retention period.
pub proof fn law_processed_groups_have_name_and_retention(group: LogGroup, config: ConfigView, today: int)
    requires
        logs::is_processed(group, config),
    ensures
        group.retention_in_days is Some,
        group::planned(group, config, today) != Err::<GroupPlanView, GcErrorView>(
            GcErrorView::MissingGroupName,
        ),
{
}

/// The cutoff date of a log group lies as many days before the current date as its retention period
/// times the multiplier has. A log group without a name is a failure, and so is a number of days
/// that is no span of time.
pub proof fn law_cutoff_lies_the_scaled_retention_back(
    group: LogGroup,
    config: ConfigView,
    today: int,
    days: int,
)
    requires
        group.retention_in_days is Some,
        days == multiplier::scaled_days(
            group.retention_in_days->0 as int,
            config.retention_multiplier,
        ),
    ensures
        group.log_group_name is None ==> group::planned(group, config, today) == Err::<
            GroupPlanView,
            GcErrorView,
        >(GcErrorView::MissingGroupName),
        group.log_group_name is Some && !(-106_751_991_167 <= days <= 106_751_991_167)
            ==> group::planned(group, config, today) == Err::<GroupPlanView, GcErrorView>(
            GcErrorView::NoSuchSpan(days),
        ),
        group.log_group_name is Some && -106_751_991_167 <= days <= 106_751_991_167 ==> (
        group::planned(group, config, today) matches Ok(plan) && plan.keep_from + days == today
            && plan.retention_days == days && plan.log_group_name == group.log_group_name->0@),
        group::is_plannable(group, config, today) <==> (group.log_group_name is Some
            && -106_751_991_167 <= days <= 106_751_991_167 ==> -95_746_129 <= today - days
            <= 95_745_399),
{
}

/// A log group with a name and no retention period cannot be planned for, and one without a name
/// can, on every date: what comes of it is a failure.
pub proof fn law_without_retention_there_is_no_plan(group: LogGroup, config: ConfigView, today: int)
    requires
        group.retention_in_days is None,
    ensures
        group::is_plannable(group, config, today) <==> group.log_group_name is None,
        group.log_group_name is None ==> group::planned(group, config, today) == Err::<
            GroupPlanView,
            GcErrorView,
        >(GcErrorView::MissingGroupName),
{
}

/// The cutoff date moves with the current date, day by day, and the number of days that log streams
/// are kept does not change.
pub proof fn law_cutoff_moves_with_the_date(
    group: LogGroup,
    config: ConfigView,
    today: int,
    other: int,
)
    ensures
        match (group::planned(group, config, today), group::planned(group, config, other)) {
            (Ok(plan), Ok(then)) => {
                &&& plan.keep_from - then.keep_from == today - other
                &&& plan.retention_days == then.retention_days
                &&& plan.log_group_name == then.log_group_name
            },
            (Err(e), Err(then)) => e == then,
            _ => false,
        },
{
}

/// The plan as of the current date is the plan as of the day that the clock gave, for every log
/// group: its cutoff date lies the scaled retention period before that day and no other.
pub proof fn law_plans_as_of_the_day_of_the_clock(
    group: LogGroup,
    config: Config,
    plan: Option<Result<GroupPlan, GcError>>,
)
    requires
        call_ensures(group::plan_log_group_today, (&group, &config), plan),
    ensures
        exists|today: int|
            {
                &&& #[trigger] date::is_clock_day(today)
                &&& plan is Some <==> group::is_plannable(group, config@, today)
                &&& plan matches Some(Ok(p)) ==> {
                    &&& group.log_group_name matches Some(name)
                    &&& group.retention_in_days matches Some(days)
                    &&& p.log_group_name@ == name@
                    &&& p.retention_days == multiplier::scaled_days(
                        days as int,
                        config.retention_multiplier,
                    )
                    &&& p.keep_from_date@ + p.retention_days == today
                }
                &&& plan matches Some(Err(e)) ==> group.log_group_name is None || !date::is_span(
                    multiplier::scaled_days(
                        group.retention_in_days->0 as int,
                        config.retention_multiplier,
                    ),
                )
            },
{
}

/// A run plans for every log group, chooses among them, asks for pages and shows progress as the
/// settings that it was given say.
pub proof fn law_run_goes_by_the_settings_given(
    group: LogGroup,
    config: ConfigView,
    today: int,
    stream_count: int,
    idx: int,
)
    ensures
        ({
            let own = run::run_start(config).config;
            &&& group::planned(group, own, today) == group::planned(group, config, today)
            &&& group::is_plannable(group, own, today) == group::is_plannable(group, config, today)
            &&& logs::is_processed(group, own) == logs::is_processed(group, config)
            &&& config::page_limit_of(own) == config::page_limit_of(config)
            &&& group::is_progress_shown(stream_count, idx, own) == group::is_progress_shown(
                stream_count,
                idx,
                config,
            )
            &&& own.retention_multiplier == config.retention_multiplier
            &&& own.include_pattern == config.include_pattern
            &&& own.exclude_pattern == config.exclude_pattern
            &&& own.batch_size == config.batch_size
            &&& own.progress_threshold == config.progress_threshold
            &&& own.progress_interval == config.progress_interval
            &&& own.concurrency_limit == vstd::math::max(1, config.concurrency_limit as int)
        }),
{
}

/// What a plan stands for is what it says.
pub proof fn law_plans_stand_for_themselves(plan: GroupPlan, result: Result<GroupPlan, GcError>)
    ensures
        plan@.log_group_name == plan.log_group_name@,
        plan@.retention_days == plan.retention_days,
        plan@.keep_from == plan.keep_from_date@,
        result matches Ok(p) ==> group::plan_view(result) == Ok::<GroupPlanView, GcErrorView>(p@),
        result matches Err(e) ==> group::plan_view(result) == Err::<GroupPlanView, GcErrorView>(e@),
{
}

/// Whether a run that is no dry run deletes the log stream under this plan.
pub open spec fn is_deleted(plan: GroupPlanView, stream: LogStream) -> bool {
    stream::examined(plan.keep_from, false, plan.log_group_name, stream) matches Ok((_, action))
        && action is Delete
}

/// Whether the log stream is young enough to be kept under this plan.
pub open spec fn is_kept(plan: GroupPlanView, stream: LogStream) -> bool {
    stream::examined(plan.keep_from, false, plan.log_group_name, stream) matches Ok((_, action))
        && action is Keep
}

/// With a whole multiplier, log streams are kept for exactly that many retention periods.
pub proof fn law_whole_multiplier_sets_the_cutoff(
    group: LogGroup,
    config: ConfigView,
    today: int,
    k: nat,
)
    requires
        group.log_group_name is Some,
        group.retention_in_days matches Some(days) && days > 0 && days * k
            < rounding::SIGNIFICANDS && date::is_span(days * k),
        multiplier::is_whole(config.retention_multiplier, k),
    ensures
        group::planned(group, config, today) == Ok::<GroupPlanView, GcErrorView>(
            GroupPlanView {
                log_group_name: group.log_group_name->0@,
                retention_days: group.retention_in_days->0 * k,
                keep_from: today - group.retention_in_days->0 * k,
            },
        ),
{
    multiplier::law_whole_multiplier_is_exact(
        group.retention_in_days->0 as int,
        config.retention_multiplier,
        k,
    );
}

/// The default multiplier is two.
pub proof fn law_default_multiplier_is_two()
    ensures
        multiplier::is_whole(config::default_config().retention_multiplier, 2),
{
    lemma2_to64_rest();
    let m = config::default_config().retention_multiplier;
    assert(m.biased_exponent() == 0x400 && m.fraction() == 0);
}

/// By default, a log stream is deleted exactly if it was created on a day that lies more than
/// twice the log group's retention period back.
pub proof fn law_default_run_keeps_two_retention_periods(
    group: LogGroup,
    stream: LogStream,
    today: int,
)
    requires
        logs::is_processed(group, config::default_config()),
        stream.log_stream_name is Some,
        stream.creation_time matches Some(time) && time >= 0 && date::is_day(
            date::day_of(time as int),
        ),
    ensures
        group::planned(group, config::default_config(), today) matches Ok(plan) && (is_deleted(
            plan,
            stream,
        ) <==> date::day_of(stream.creation_time->0 as int) < today - 2
            * group.retention_in_days->0) && is_kept(plan, stream) == !is_deleted(plan, stream),
{
    law_default_multiplier_is_two();
    law_whole_multiplier_sets_the_cutoff(group, config::default_config(), today, 2);
}

/// By default, there is a plan for every log group that is processed, as long as two retention
/// periods before 1970 are in the calendar.
pub proof fn law_default_cutoff_is_in_the_calendar(group: LogGroup, today: int)
    requires
        logs::is_processed(group, config::default_config()),
        date::EPOCH_DAY <= today <= date::MAX_DAY,
        2 * group.retention_in_days->0 <= date::EPOCH_DAY - date::MIN_DAY,
    ensures
        group::is_plannable(group, config::default_config(), today),
        group::planned(group, config::default_config(), today) is Ok,
{
    law_default_multiplier_is_two();
    law_whole_multiplier_sets_the_cutoff(group, config::default_config(), today, 2);
}

/// A larger multiplier never moves the cutoff date forward, and so never has a log stream
/// deleted that a smaller one keeps.
pub proof fn law_larger_multiplier_keeps_no_less(
    group: LogGroup,
    config: ConfigView,
    larger: Multiplier,
    today: int,
    stream: LogStream,
)
    requires
        group.log_group_name is Some,
        group.retention_in_days matches Some(days) && days > 0,
        config.retention_multiplier.bits <= larger.bits <= multiplier::INFINITY_BITS,
        group::planned(group, config, today) is Ok,
        group::planned(group, ConfigView { retention_multiplier: larger, ..config }, today) is Ok,
    ensures
        ({
            let plan = group::planned(group, config, today)->Ok_0;
            let other = group::planned(
                group,
                ConfigView { retention_multiplier: larger, ..config },
                today,
            )->Ok_0;
            &&& other.keep_from <= plan.keep_from
            &&& is_deleted(other, stream) ==> is_deleted(plan, stream)
        }),
{
    multiplier::law_larger_multiplier_makes_no_fewer_days(
        group.retention_in_days->0 as int,
        config.retention_multiplier,
        larger,
    );
}

/// A log stream that is kept on a day was kept on every day before.
pub proof fn law_what_is_kept_was_kept(
    group: LogGroup,
    config: ConfigView,
    earlier: int,
    today: int,
    stream: LogStream,
)
    requires
        earlier <= today,
        group::planned(group, config, today) is Ok,
        is_kept(group::planned(group, config, today)->Ok_0, stream),
    ensures
        group::planned(group, config, earlier) matches Ok(plan) && is_kept(plan, stream),
{
}

// What a pass over a log group does.

/// A pass after these pages.
pub open spec fn pass_after(pass: GroupPassView, pages: Seq<Seq<LogStream>>) -> GroupPassView
    decreases pages.len(),
{
    if pages.len() == 0 {
        pass
    } else {
        group::group_next(
            pass_after(pass, pages.drop_last()),
            GroupEventView::Page(pages.last()),
        ).0
    }
}

/// A pass sweeps every log stream of every page, in the order of the listing, and nothing else.
/// If there is none, it ends well without sweeping.
pub proof fn law_pass_sweeps_what_was_listed(log_group_name: Seq<char>, pages: Seq<Seq<LogStream>>)
    ensures
        ({
            let pass = pass_after(group::pass_start(log_group_name), pages);
            &&& pass.phase == GroupPhase::Listing
            &&& group::group_next(pass, GroupEventView::NoMorePages).1 == if sequences::joined(pages).len()
                == 0 {
                GroupActionView::Finish(Ok(()))
            } else {
                GroupActionView::Sweep(sequences::joined(pages))
            }
        }),
{
    lemma_pass_lists(log_group_name, pages);
}

pub(crate) proof fn lemma_pass_lists(log_group_name: Seq<char>, pages: Seq<Seq<LogStream>>)
    ensures
        pass_after(group::pass_start(log_group_name), pages) == (GroupPassView {
            log_streams: sequences::joined(pages),
            ..group::pass_start(log_group_name)
        }),
    decreases pages.len(),
{
    if pages.len() > 0 {
        lemma_pass_lists(log_group_name, pages.drop_last());
    }
}

/// A pass whose listing breaks off ends with that failure, naming the log group, whatever pages came
/// before, and sweeps nothing.
pub proof fn law_pass_fails_for_want_of_a_page(
    log_group_name: Seq<char>,
    pages: Seq<Seq<LogStream>>,
)
    ensures
        ({
            let pass = pass_after(group::pass_start(log_group_name), pages);
            &&& group::fits(pass, GroupEventView::PageFailed)
            &&& group::group_next(pass, GroupEventView::PageFailed).1 == GroupActionView::Finish(
                Err(GcErrorView::DescribeLogStreams(log_group_name)),
            )
        }),
{
    lemma_pass_lists(log_group_name, pages);
}

/// A pass takes what it asked for and nothing else: while it lists, pages and the end of the
/// listing, and asks for another page after each; once it has handed log streams out, as many
/// results as there are log streams; and nothing once it has ended.
pub proof fn law_pass_takes_what_it_asked_for(
    log_group_name: Seq<char>,
    pages: Seq<Seq<LogStream>>,
    page: Seq<LogStream>,
    results: Seq<Result<(), GcError>>,
    event: GroupEventView,
)
    ensures
        ({
            let pass = pass_after(group::pass_start(log_group_name), pages);
            let (swept, action) = group::group_next(pass, GroupEventView::NoMorePages);
            let broken = group::group_next(pass, GroupEventView::PageFailed).0;
            let ended = group::group_next(swept, GroupEventView::Swept(results));
            &&& group::fits(pass, GroupEventView::Page(page))
            &&& group::fits(pass, GroupEventView::PageFailed)
            &&& group::fits(pass, GroupEventView::NoMorePages)
            &&& !group::fits(pass, GroupEventView::Swept(results))
            &&& group::group_next(pass, GroupEventView::Page(page)).1 is DescribePage
            &&& group::fits(swept, event) <==> (action is Sweep && (event matches
                GroupEventView::Swept(r) && r.len() == sequences::joined(pages).len()))
            &&& !group::fits(broken, event)
            &&& !group::fits(ended.0, event)
            &&& ended.1 == GroupActionView::Finish(group::group_outcome(log_group_name, results))
        }),
{
    lemma_pass_lists(log_group_name, pages);
}

/// What the events and the actions of a pass stand for is what they are: a page without log
/// streams stands for one that lists none.
pub proof fn law_pass_events_and_actions_stand_for_themselves(event: GroupEvent, action: GroupAction)
    ensures
        match event {
            GroupEvent::Page(Some(streams)) => event@ == GroupEventView::Page(streams@),
            GroupEvent::Page(None) => event@ == GroupEventView::Page(Seq::empty()),
            GroupEvent::PageFailed => event@ is PageFailed,
            GroupEvent::NoMorePages => event@ is NoMorePages,
            GroupEvent::Swept(results) => event@ == GroupEventView::Swept(results@),
        },
        match action {
            GroupAction::DescribePage => action@ is DescribePage,
            GroupAction::Sweep(streams) => action@ == GroupActionView::Sweep(streams@),
            GroupAction::Finish(outcome) => {
                &&& action@ matches GroupActionView::Finish(view)
                &&& outcome is Ok <==> view is Ok
                &&& outcome matches Err(e) ==> view == Err::<(), GcErrorView>(e@)
            },
        },
{
}

/// How many of the first `n` log streams of a log group progress is shown after.
pub open spec fn progress_updates(stream_count: int, n: int, config: ConfigView) -> nat
    decreases n,
{
    if n <= 0 {
        0
    } else {
        progress_updates(stream_count, n - 1, config) + if group::is_progress_shown(
            stream_count,
            n - 1,
            config,
        ) {
            1nat
        } else {
            0nat
        }
    }
}

/// Progress is shown once for each full interval of log streams if there are more of them than
/// the threshold, and never otherwise.
pub proof fn law_progress_once_per_interval(stream_count: int, n: int, config: ConfigView)
    requires
        0 <= n <= stream_count,
        config.progress_interval > 0,
    ensures
        progress_updates(stream_count, n, config) == if stream_count > config.progress_threshold {
            n / config.progress_interval as int
        } else {
            0
        },
    decreases n,
{
    let d = config.progress_interval as int;
    if n > 0 {
        law_progress_once_per_interval(stream_count, n - 1, config);
        let q = (n - 1) / d;
        let r = (n - 1) % d;
        lemma_fundamental_div_mod(n - 1, d);
        if r == d - 1 {
            assert(n == (q + 1) * d) by (nonlinear_arith)
                requires
                    n - 1 == d * q + r,
                    r == d - 1,
            ;
            lemma_fundamental_div_mod_converse(n, d, q + 1, 0);
        } else {
            assert(n == q * d + (r + 1)) by (nonlinear_arith)
                requires
                    n - 1 == d * q + r,
            ;
            lemma_fundamental_div_mod_converse(n, d, q, r + 1);
        }
    } else {
        lemma_div_of0(d);
    }
}

/// A log group fails exactly if one of its log streams does.
pub proof fn law_group_fails_with_its_streams(
    log_group_name: Seq<char>,
    results: Seq<Result<(), GcError>>,
)
    ensures
        group::group_outcome(log_group_name, results) is Err <==> exists|i: int|
            0 <= i < results.len() && (#[trigger] results[i]) is Err,
{
    let pred = |r: Result<(), GcError>| r is Err;
    let failed = results.filter(pred);
    if failed.len() > 0 {
        results.lemma_filter_pred(pred, 0);
        assert(failed.contains(failed[0]));
        results.lemma_filter_contains_rev(pred, failed[0]);
    }
    if exists|i: int| 0 <= i < results.len() && (#[trigger] results[i]) is Err {
        let i = choose|i: int| 0 <= i < results.len() && (#[trigger] results[i]) is Err;
        results.lemma_filter_contains(pred, i);
        assert(failed.contains(results[i]));
    }
}

/// How many of these results are failures.
pub open spec fn failed_count(results: Seq<Result<(), GcError>>) -> nat
    decreases results.len(),
{
    if results.len() == 0 {
        0
    } else {
        failed_count(results.drop_last()) + if results.last() is Err {
            1nat
        } else {
            0nat
        }
    }
}

/// Failures are counted one by one.
pub proof fn law_every_failure_counts(results: Seq<Result<(), GcError>>)
    ensures
        group::failures(results).len() == failed_count(results),
    decreases results.len(),
{
    reveal(Seq::filter);
    if results.len() > 0 {
        law_every_failure_counts(results.drop_last());
    }
}

/// A log group of which log streams failed tells how many did, its own name, and the message of the
/// one that failed first.
pub proof fn law_group_tells_how_many_failed_and_the_first(
    log_group_name: Seq<char>,
    results: Seq<Result<(), GcError>>,
    first: int,
)
    requires
        0 <= first < results.len(),
        results[first] is Err,
        forall|i: int| 0 <= i < first ==> (#[trigger] results[i]) is Ok,
    ensures
        group::group_outcome(log_group_name, results) == Err::<(), GcErrorView>(
            GcErrorView::LogStreamsFailed(
                failed_count(results),
                log_group_name,
                error::error_message(results[first]->Err_0@),
            ),
        ),
{
    law_every_failure_counts(results);
    lemma_first_failure(results, first);
}

proof fn lemma_first_failure(results: Seq<Result<(), GcError>>, first: int)
    requires
        0 <= first < results.len(),
        results[first] is Err,
        forall|i: int| 0 <= i < first ==> (#[trigger] results[i]) is Ok,
    ensures
        group::failures(results).len() > 0,
        group::failures(results)[0] == results[first],
    decreases results.len(),
{
    reveal(Seq::filter);
    let before = results.drop_last();
    if first < before.len() {
        assert forall|i: int| 0 <= i < first implies (#[trigger] before[i]) is Ok by {
            assert(before[i] == results[i]);
        }
        lemma_first_failure(before, first);
    } else {
        law_group_fails_with_its_streams(Seq::empty(), before);
        assert(group::failures(before).len() == 0);
    }
}

// What a batch does.

/// A batch after it was begun and these log groups of it ended, and the log group that is then
/// asked for.
pub open spec fn batch_after(groups: Seq<LogGroup>, outcomes: Seq<Result<(), GcError>>) -> (
    BatchView,
    Option<LogGroup>,
)
    decreases outcomes.len(),
{
    if outcomes.len() == 0 {
        batch::batch_next(batch::batch_start(groups))
    } else {
        batch::batch_next(batch_after(groups, outcomes.drop_last()).0)
    }
}

/// The log groups that a batch has asked for once these log groups of it ended.
pub open spec fn asked_groups(groups: Seq<LogGroup>, outcomes: Seq<Result<(), GcError>>) -> Seq<LogGroup>
    decreases outcomes.len(),
{
    let before = if outcomes.len() == 0 {
        Seq::empty()
    } else {
        asked_groups(groups, outcomes.drop_last())
    };
    match batch_after(groups, outcomes).1 {
        Some(group) => before.push(group),
        None => before,
    }
}

/// A batch asks for each of its log groups once, in their order, whatever came of those before,
/// and is finished when as many have ended as it has, and not before.
pub proof fn law_batch_asks_for_every_group(
    groups: Seq<LogGroup>,
    outcomes: Seq<Result<(), GcError>>,
)
    ensures
        outcomes.len() < groups.len() ==> {
            &&& asked_groups(groups, outcomes) == groups.take(outcomes.len() as int + 1)
            &&& batch_after(groups, outcomes).1 == Some(groups[outcomes.len() as int])
            &&& batch_after(groups, outcomes).0.phase == BatchPhase::Processing
        },
        outcomes.len() >= groups.len() ==> {
            &&& asked_groups(groups, outcomes) == groups
            &&& batch_after(groups, outcomes).1 is None
            &&& batch_after(groups, outcomes).0.phase == BatchPhase::Done
        },
{
    lemma_batch_asks(groups, outcomes);
    if outcomes.len() >= groups.len() {
        assert(groups.take(groups.len() as int) =~= groups);
    }
}

proof fn lemma_batch_asks(groups: Seq<LogGroup>, outcomes: Seq<Result<(), GcError>>)
    ensures
        ({
            let n = outcomes.len() as int;
            let asked = if n < groups.len() {
                n + 1
            } else {
                groups.len() as int
            };
            &&& asked_groups(groups, outcomes) == groups.take(asked)
            &&& batch_after(groups, outcomes).0.remaining == groups.skip(asked)
            &&& batch_after(groups, outcomes).1 == if n < groups.len() {
                Some(groups[n])
            } else {
                None
            }
            &&& batch_after(groups, outcomes).0.phase == if n < groups.len() {
                BatchPhase::Processing
            } else {
                BatchPhase::Done
            }
        }),
    decreases outcomes.len(),
{
    let n = outcomes.len() as int;
    if n == 0 {
        assert(groups.skip(0) =~= groups);
        if groups.len() > 0 {
            assert(Seq::<LogGroup>::empty().push(groups[0]) =~= groups.take(1));
        } else {
            assert(groups.take(0) =~= Seq::<LogGroup>::empty());
        }
    } else {
        lemma_batch_asks(groups, outcomes.drop_last());
        if n < groups.len() {
            assert(groups.take(n).push(groups[n]) =~= groups.take(n + 1));
            assert(groups.skip(n).skip(1) =~= groups.skip(n + 1));
        }
    }
}

/// A batch is begun once, and then takes the end of a log group exactly as long as one that it asked
/// for has not ended.
pub proof fn law_batch_takes_what_it_asked_for(
    groups: Seq<LogGroup>,
    outcomes: Seq<Result<(), GcError>>,
    outcome: Result<(), GcError>,
)
    ensures
        batch::fits_phase(batch::batch_start(groups).phase, BatchEvent::Begun),
        !batch::fits_phase(batch::batch_start(groups).phase, BatchEvent::GroupEnded(outcome)),
        !batch::fits_phase(batch_after(groups, outcomes).0.phase, BatchEvent::Begun),
        batch::fits_phase(batch_after(groups, outcomes).0.phase, BatchEvent::GroupEnded(outcome))
            <==> outcomes.len() < groups.len(),
{
    lemma_batch_asks(groups, outcomes);
}

// How many deletions are in flight.

/// The permits of a run after these events.
pub open spec fn permits_after(config: ConfigView, events: Seq<DeletionEvent>) -> DeletionPermitsView
    decreases events.len(),
{
    if events.len() == 0 {
        permits::permits_start(config)
    } else {
        permits::permits_next(permits_after(config, events.drop_last()), events.last())
    }
}

/// Whether each of these events can happen after those before it.
pub open spec fn is_permitted(config: ConfigView, events: Seq<DeletionEvent>) -> bool
    decreases events.len(),
{
    events.len() > 0 ==> {
        &&& is_permitted(config, events.drop_last())
        &&& permits::permits_event(permits_after(config, events.drop_last()), events.last())
    }
}

/// How many deletions were sent and have not come to an end.
pub open spec fn unfinished_deletions(events: Seq<DeletionEvent>) -> int
    decreases events.len(),
{
    if events.len() == 0 {
        0
    } else {
        unfinished_deletions(events.drop_last()) + match events.last() {
            DeletionEvent::Sent => 1int,
            DeletionEvent::Ended => -1int,
        }
    }
}

/// At every point of a run, at most as many deletions are in flight, over all log groups, as
/// the limit on concurrency allows, or one where it allows none.
pub proof fn law_deletions_in_flight_are_bounded(config: ConfigView, events: Seq<DeletionEvent>)
    requires
        is_permitted(config, events),
    ensures
        0 <= unfinished_deletions(events) <= vstd::math::max(1, config.concurrency_limit as int),
        permits_after(config, events).wf(),
        permits_after(config, events).in_flight == unfinished_deletions(events),
        permits_after(config, events).limit == permits::permits_start(config).limit,
    decreases events.len(),
{
    if events.len() > 0 {
        law_deletions_in_flight_are_bounded(config, events.drop_last());
    }
}

/// A deletion may be sent exactly as long as fewer are in flight than the limit on concurrency
/// allows, or than one where it allows none, and may end exactly if one is in flight.
pub proof fn law_deletions_use_the_whole_limit(config: ConfigView, events: Seq<DeletionEvent>)
    requires
        is_permitted(config, events),
    ensures
        permits_after(config, events).limit == vstd::math::max(1, config.concurrency_limit as int),
        permits::permits_event(permits_after(config, events), DeletionEvent::Sent)
            <==> unfinished_deletions(events) < vstd::math::max(1, config.concurrency_limit as int),
        permits::permits_event(permits_after(config, events), DeletionEvent::Ended)
            <==> unfinished_deletions(events) > 0,
{
    law_deletions_in_flight_are_bounded(config, events);
}

// How many log streams are examined at a time.

/// A sweep after these events.
pub open spec fn sweep_after(config: ConfigView, total: nat, events: Seq<SweepEvent>) -> SweepView
    decreases events.len(),
{
    if events.len() == 0 {
        sweep::sweep_start(config, total)
    } else {
        sweep::sweep_next(sweep_after(config, total, events.drop_last()), events.last())
    }
}

/// Whether each of these events of a sweep can happen after those before it.
pub open spec fn is_sweep(config: ConfigView, total: nat, events: Seq<SweepEvent>) -> bool
    decreases events.len(),
{
    events.len() > 0 ==> {
        &&& is_sweep(config, total, events.drop_last())
        &&& sweep::fits(sweep_after(config, total, events.drop_last()), events.last())
    }
}

/// How often this event happened.
pub open spec fn count_of(events: Seq<SweepEvent>, event: SweepEvent) -> nat
    decreases events.len(),
{
    if events.len() == 0 {
        0
    } else {
        count_of(events.drop_last(), event) + if events.last() == event {
            1nat
        } else {
            0nat
        }
    }
}

/// How many log streams were begun and have not been finished with.
pub open spec fn unfinished_streams(events: Seq<SweepEvent>) -> int {
    count_of(events, SweepEvent::Begun) - count_of(events, SweepEvent::Ended)
}

/// How many deletions of a sweep were sent and have not come to an end.
pub open spec fn unfinished_sweep_deletions(events: Seq<SweepEvent>) -> int {
    count_of(events, SweepEvent::Deletion(DeletionEvent::Sent)) - count_of(
        events,
        SweepEvent::Deletion(DeletionEvent::Ended),
    )
}

/// At every point of a sweep, at most as many log streams of the log group are being examined as
/// the limit on concurrency allows, or one where it allows none, and no more of its deletions are
/// in flight than log streams are being examined.
pub proof fn law_examined_streams_are_bounded(
    config: ConfigView,
    total: nat,
    events: Seq<SweepEvent>,
)
    requires
        is_sweep(config, total, events),
    ensures
        0 <= unfinished_sweep_deletions(events) <= unfinished_streams(events) <= vstd::math::max(
            1,
            config.concurrency_limit as int,
        ),
        count_of(events, SweepEvent::Ended) <= count_of(events, SweepEvent::Begun) <= total,
        sweep_after(config, total, events).wf(),
        sweep_after(config, total, events) == (SweepView {
            begun: count_of(events, SweepEvent::Begun),
            examining: unfinished_streams(events) as nat,
            deleting: unfinished_sweep_deletions(events) as nat,
            ..sweep::sweep_start(config, total)
        }),
    decreases events.len(),
{
    if events.len() > 0 {
        law_examined_streams_are_bounded(config, total, events.drop_last());
    }
}

/// A log stream may be begun exactly as long as one is left and fewer are being examined than the
/// limit on concurrency allows, or than one where it allows none. A deletion may be sent, and a log
/// stream be finished with, exactly if one that is being examined has no deletion in flight. The
/// sweep is over exactly if every log stream was begun and finished with.
pub proof fn law_sweep_uses_the_whole_limit(config: ConfigView, total: nat, events: Seq<SweepEvent>)
    requires
        is_sweep(config, total, events),
    ensures
        ({
            let sweep = sweep_after(config, total, events);
            let limit = vstd::math::max(1, config.concurrency_limit as int);
            let (examining, deleting) = (
                unfinished_streams(events),
                unfinished_sweep_deletions(events),
            );
            &&& sweep.limit == limit
            &&& sweep::fits(sweep, SweepEvent::Begun) <==> count_of(events, SweepEvent::Begun) < total
                && examining < limit
            &&& sweep::fits(sweep, SweepEvent::Deletion(DeletionEvent::Sent)) <==> deleting < examining
            &&& sweep::fits(sweep, SweepEvent::Deletion(DeletionEvent::Ended)) <==> deleting > 0
            &&& sweep::fits(sweep, SweepEvent::Ended) <==> deleting < examining
            &&& sweep::is_over(sweep) <==> count_of(events, SweepEvent::Ended) == total
        }),
{
    law_examined_streams_are_bounded(config, total, events);
}

/// A sweep that is over has begun and finished with as many log streams as there are, and has left
/// no deletion in flight.
pub proof fn law_sweep_finishes_with_its_streams(
    config: ConfigView,
    total: nat,
    events: Seq<SweepEvent>,
)
    requires
        is_sweep(config, total, events),
        sweep::is_over(sweep_after(config, total, events)),
    ensures
        count_of(events, SweepEvent::Begun) == total,
        count_of(events, SweepEvent::Ended) == total,
        unfinished_sweep_deletions(events) == 0,
{
    law_examined_streams_are_bounded(config, total, events);
}

// What a run does.

/// An event of a run, and how many failures were counted before it.
pub struct RunStep {
    pub event: RunEventView,
    pub failed_groups: usize,
}

/// A run after these steps.
pub open spec fn run_after(config: ConfigView, steps: Seq<RunStep>) -> GcRunView
    decreases steps.len(),
{
    if steps.len() == 0 {
        run::run_start(config)
    } else {
        run::run_next(
            run_after(config, steps.drop_last()),
            steps.last().failed_groups,
            steps.last().event,
        ).0
    }
}

/// What the run needs after the last of these steps.
pub open spec fn last_action(config: ConfigView, steps: Seq<RunStep>) -> RunActionView
    recommends
        steps.len() > 0,
{
    run::run_next(
        run_after(config, steps.drop_last()),
        steps.last().failed_groups,
        steps.last().event,
    ).1
}

/// Whether each of these steps can happen after those before it.
pub open spec fn is_run(config: ConfigView, steps: Seq<RunStep>) -> bool
    decreases steps.len(),
{
    steps.len() > 0 ==> {
        &&& is_run(config, steps.drop_last())
        &&& run::fits_phase(run_after(config, steps.drop_last()).phase, steps.last().event)
    }
}

/// The log groups of all pages that came.
pub open spec fn listed_groups(steps: Seq<RunStep>) -> Seq<LogGroup>
    decreases steps.len(),
{
    if steps.len() == 0 {
        Seq::empty()
    } else {
        listed_groups(steps.drop_last()) + match steps.last().event {
            RunEventView::Page(groups) => groups,
            _ => Seq::empty(),
        }
    }
}

/// The batches that were handed out.
pub open spec fn handed_out_batches(config: ConfigView, steps: Seq<RunStep>) -> Seq<Seq<LogGroup>>
    decreases steps.len(),
{
    if steps.len() == 0 {
        Seq::empty()
    } else {
        match last_action(config, steps) {
            RunActionView::Spawn(batch) => handed_out_batches(config, steps.drop_last()).push(batch),
            _ => handed_out_batches(config, steps.drop_last()),
        }
    }
}

/// The log groups of all batches that were handed out.
pub open spec fn handed_out_groups(config: ConfigView, steps: Seq<RunStep>) -> Seq<LogGroup> {
    sequences::joined(handed_out_batches(config, steps))
}

proof fn lemma_handed_out_grows(config: ConfigView, steps: Seq<RunStep>)
    requires
        steps.len() > 0,
    ensures
        handed_out_groups(config, steps) == handed_out_groups(config, steps.drop_last())
            + match last_action(config, steps) {
            RunActionView::Spawn(batch) => batch,
            _ => Seq::empty(),
        },
{
    let before = handed_out_batches(config, steps.drop_last());
    match last_action(config, steps) {
        RunActionView::Spawn(batch) => {
            sequences::lemma_joined_push(before, batch);
        },
        _ => {
            assert(sequences::joined(before) + Seq::<LogGroup>::empty() =~= sequences::joined(before));
        },
    }
}

/// How many batches were begun.
pub open spec fn begun_batches(steps: Seq<RunStep>) -> nat
    decreases steps.len(),
{
    if steps.len() == 0 {
        0
    } else {
        begun_batches(steps.drop_last()) + if steps.last().event is Spawned {
            1nat
        } else {
            0nat
        }
    }
}

/// How many batches ended.
pub open spec fn ended_batches(steps: Seq<RunStep>) -> nat
    decreases steps.len(),
{
    if steps.len() == 0 {
        0
    } else {
        ended_batches(steps.drop_last()) + if steps.last().event is Joined {
            1nat
        } else {
            0nat
        }
    }
}

/// At every point of a run, at most as many batches are in flight as the limit on concurrency
/// allows, or one where it allows none.
pub proof fn law_batches_in_flight_are_bounded(config: ConfigView, steps: Seq<RunStep>)
    requires
        is_run(config, steps),
    ensures
        run_after(config, steps).wf(),
        run_after(config, steps).config == config::clamped_config(config),
        run_after(config, steps).in_flight <= vstd::math::max(1, config.concurrency_limit as int),
        run_after(config, steps).in_flight == begun_batches(steps) - ended_batches(steps),
    decreases steps.len(),
{
    if steps.len() > 0 {
        law_batches_in_flight_are_bounded(config, steps.drop_last());
    }
}

/// At every point of a run, the log groups that were handed out are those of the listing so
/// far that are to be processed: each of them once, in the order of the listing.
pub proof fn law_hands_out_what_is_to_be_processed(config: ConfigView, steps: Seq<RunStep>)
    requires
        is_run(config, steps),
    ensures
        handed_out_groups(config, steps) == logs::processed_groups(listed_groups(steps), config),
    decreases steps.len(),
{
    let pred = |g: LogGroup| logs::is_processed(g, config);
    if steps.len() == 0 {
        reveal(Seq::filter);
    } else {
        let before = steps.drop_last();
        law_hands_out_what_is_to_be_processed(config, before);
        lemma_handed_out_grows(config, steps);
        law_batches_in_flight_are_bounded(config, before);
        let run = run_after(config, before);
        let clamped = |g: LogGroup| logs::is_processed(g, run.config);
        assert(forall|g: LogGroup| #[trigger] clamped(g) == pred(g));
        assert(clamped =~= pred);
        match steps.last().event {
            RunEventView::Page(groups) => {
                Seq::filter_distributes_over_add(listed_groups(before), groups, pred);
                assert(handed_out_groups(config, steps) =~= logs::processed_groups(
                    listed_groups(steps),
                    config,
                ));
            },
            _ => {
                assert(listed_groups(steps) =~= listed_groups(before));
                assert(handed_out_groups(config, steps) =~= handed_out_groups(config, before));
            },
        }
    }
}

/// A run counts the log groups that it hands out, as long as the counter can hold them.
pub proof fn law_counts_what_it_hands_out(config: ConfigView, steps: Seq<RunStep>)
    requires
        is_run(config, steps),
        handed_out_groups(config, steps).len() <= usize::MAX,
    ensures
        run_after(config, steps).total_log_groups == handed_out_groups(config, steps).len(),
    decreases steps.len(),
{
    if steps.len() > 0 {
        lemma_handed_out_grows(config, steps);
        law_counts_what_it_hands_out(config, steps.drop_last());
    }
}

/// A run that ends, other than for want of a page, has waited for every batch that it began,
/// and ends well exactly if no failure was counted by then.
pub proof fn law_waits_for_every_batch(config: ConfigView, steps: Seq<RunStep>)
    requires
        is_run(config, steps),
        steps.len() > 0,
        steps.last().event !is PageFailed,
        last_action(config, steps) is Finish,
    ensures
        begun_batches(steps) == ended_batches(steps),
        last_action(config, steps) == RunActionView::Finish(
            run::run_outcome(run::failed_after(steps.last().failed_groups, steps.last().event)),
        ),
{
    law_batches_in_flight_are_bounded(config, steps.drop_last());
    law_batches_in_flight_are_bounded(config, steps);
}

/// Whether the listing of log groups came to its end.
pub open spec fn is_listed(steps: Seq<RunStep>) -> bool {
    exists|i: int| 0 <= i < steps.len() && (#[trigger] steps[i]).event is NoMorePages
}

/// What the run waits for after these steps: to begin with, a page.
pub open spec fn awaited(config: ConfigView, steps: Seq<RunStep>) -> RunActionView {
    if steps.len() == 0 {
        RunActionView::DescribePage
    } else {
        last_action(config, steps)
    }
}

/// Whether the event is what comes of this action.
pub open spec fn answers(action: RunActionView, event: RunEventView) -> bool {
    match action {
        RunActionView::DescribePage => event is Page || event is PageFailed || event is NoMorePages,
        RunActionView::Spawn(_) => event is Spawned,
        RunActionView::JoinAny => event is Joined,
        RunActionView::JoinNext => event is Joined,
        RunActionView::Finish(_) => false,
    }
}

proof fn lemma_is_listed_grows(steps: Seq<RunStep>)
    requires
        steps.len() > 0,
    ensures
        is_listed(steps) <==> is_listed(steps.drop_last()) || steps.last().event is NoMorePages,
{
    let before = steps.drop_last();
    if is_listed(before) {
        let i = choose|i: int| 0 <= i < before.len() && (#[trigger] before[i]).event is NoMorePages;
        assert(steps[i].event is NoMorePages);
    }
    if steps.last().event is NoMorePages {
        assert(steps[steps.len() - 1].event is NoMorePages);
    }
    if is_listed(steps) {
        let i = choose|i: int| 0 <= i < steps.len() && (#[trigger] steps[i]).event is NoMorePages;
        if i < before.len() {
            assert(before[i].event is NoMorePages);
        }
    }
}

proof fn lemma_run_phases(config: ConfigView, steps: Seq<RunStep>)
    requires
        is_run(config, steps),
    ensures
        run_after(config, steps).phase == match awaited(config, steps) {
            RunActionView::DescribePage => RunPhase::Paging,
            RunActionView::Spawn(_) => RunPhase::Spawning,
            RunActionView::JoinAny => RunPhase::Joining,
            RunActionView::JoinNext => RunPhase::Draining,
            RunActionView::Finish(_) => RunPhase::Done,
        },
        is_listed(steps) <==> awaited(config, steps) is JoinNext || (awaited(config, steps) is Finish
            && steps.last().event !is PageFailed),
    decreases steps.len(),
{
    if steps.len() > 0 {
        lemma_run_phases(config, steps.drop_last());
        lemma_is_listed_grows(steps);
    }
}

/// A run takes what comes of its last action and nothing else: a page of the listing, that there is
/// none, or that it cannot be had, where it asked for one; the beginning of a batch where it handed
/// one out; the end of a batch where it waits for one; and nothing once it has ended.
pub proof fn law_run_takes_what_it_asked_for(
    config: ConfigView,
    steps: Seq<RunStep>,
    event: RunEventView,
)
    requires
        is_run(config, steps),
    ensures
        run::fits_phase(run_after(config, steps).phase, event) <==> answers(
            awaited(config, steps),
            event,
        ),
{
    lemma_run_phases(config, steps);
}

/// After a page, whatever it lists and whatever the run has done, the run goes on listing: it hands
/// out log groups of that page, or asks for the next page.
pub proof fn law_no_page_is_taken_for_the_last(
    run: GcRunView,
    failed_groups: usize,
    groups: Seq<LogGroup>,
)
    ensures
        match run::run_next(run, failed_groups, RunEventView::Page(groups)).1 {
            RunActionView::DescribePage => true,
            RunActionView::Spawn(batch) => batch.len() > 0,
            _ => false,
        },
{
}

/// A run that ends, other than for want of a page, has listed the log groups to the last page. It
/// does not wait for the remaining batches before either.
pub proof fn law_lists_to_the_last_page(config: ConfigView, steps: Seq<RunStep>)
    requires
        is_run(config, steps),
        steps.len() > 0,
        last_action(config, steps) is Finish || last_action(config, steps) is JoinNext,
        forall|i: int| 0 <= i < steps.len() ==> (#[trigger] steps[i]).event !is PageFailed,
    ensures
        exists|i: int| 0 <= i < steps.len() && (#[trigger] steps[i]).event is NoMorePages,
{
    assert(steps[steps.len() - 1].event !is PageFailed);
    lemma_run_phases(config, steps);
}

/// After a page, a run hands its log groups out if one of them is to be processed, and asks for the
/// next page if none is. It does the latter, too, once a batch was begun or has ended and the
/// listing has not, but for a batch that leaves no room for another: then it waits for one to
/// end.
pub proof fn law_goes_on_listing(config: ConfigView, steps: Seq<RunStep>)
    requires
        is_run(config, steps),
        steps.len() > 0,
    ensures
        steps.last().event matches RunEventView::Page(groups) ==> if exists|i: int|
            0 <= i < groups.len() && logs::is_processed(#[trigger] groups[i], config) {
            last_action(config, steps) is Spawn
        } else {
            last_action(config, steps) is DescribePage
        },
        steps.last().event is Spawned ==> if begun_batches(steps) - ended_batches(steps)
            < vstd::math::max(1, config.concurrency_limit as int) {
            last_action(config, steps) is DescribePage
        } else {
            last_action(config, steps) is JoinAny
        },
        steps.last().event is Joined && !is_listed(steps) ==> last_action(
            config,
            steps,
        ) is DescribePage,
{
    lemma_run_phases(config, steps);
    lemma_run_phases(config, steps.drop_last());
    lemma_is_listed_grows(steps);
    law_batches_in_flight_are_bounded(config, steps.drop_last());
    law_batches_in_flight_are_bounded(config, steps);
    if let RunEventView::Page(groups) = steps.last().event {
        let run = run_after(config, steps.drop_last());
        let pred = |g: LogGroup| logs::is_processed(g, run.config);
        let batch = logs::processed_groups(groups, run.config);
        assert(batch == groups.filter(pred));
        if batch.len() > 0 {
            groups.lemma_filter_pred(pred, 0);
            assert(batch.contains(batch[0]));
            groups.lemma_filter_contains_rev(pred, batch[0]);
            let i = choose|i: int| 0 <= i < groups.len() && groups[i] == batch[0];
            assert(logs::is_processed(groups[i], config));
        }
        if exists|i: int| 0 <= i < groups.len() && logs::is_processed(#[trigger] groups[i], config) {
            let i = choose|i: int|
                0 <= i < groups.len() && logs::is_processed(#[trigger] groups[i], config);
            groups.lemma_filter_contains(pred, i);
            assert(batch.contains(groups[i]));
        }
    }
}

/// Once the listing has ended, a run waits as long as a batch is in flight, and ends when none is:
/// well if no failure was counted, and otherwise telling how many were. That a batch broke off
/// counts.
pub proof fn law_waits_once_the_listing_has_ended(config: ConfigView, steps: Seq<RunStep>)
    requires
        is_run(config, steps),
        steps.len() > 0,
        is_listed(steps),
        steps.last().failed_groups < usize::MAX,
    ensures
        begun_batches(steps) > ended_batches(steps) ==> last_action(config, steps) is JoinNext,
        begun_batches(steps) <= ended_batches(steps) ==> {
            let failed = steps.last().failed_groups + if steps.last().event == RunEventView::Joined(
                false,
            ) {
                1int
            } else {
                0int
            };
            last_action(config, steps) == RunActionView::Finish(
                if failed == 0 {
                    Ok(())
                } else {
                    Err(GcErrorView::LogGroupsFailed(failed as nat))
                },
            )
        },
{
    lemma_run_phases(config, steps);
    lemma_run_phases(config, steps.drop_last());
    lemma_is_listed_grows(steps);
    law_batches_in_flight_are_bounded(config, steps.drop_last());
    law_batches_in_flight_are_bounded(config, steps);
}

/// How many pages of the listing came.
pub open spec fn listed_pages(steps: Seq<RunStep>) -> nat
    decreases steps.len(),
{
    if steps.len() == 0 {
        0
    } else {
        listed_pages(steps.drop_last()) + if steps.last().event is Page {
            1nat
        } else {
            0nat
        }
    }
}

/// A run counts the pages that came, as long as the counter can hold them.
pub proof fn law_counts_the_pages(config: ConfigView, steps: Seq<RunStep>)
    requires
        is_run(config, steps),
        listed_pages(steps) <= usize::MAX,
    ensures
        run_after(config, steps).page_count == listed_pages(steps),
    decreases steps.len(),
{
    if steps.len() > 0 {
        law_counts_the_pages(config, steps.drop_last());
    }
}

/// What the events and the actions of a run stand for is what they are: a page without log groups
/// stands for one that lists none.
pub proof fn law_run_events_and_actions_stand_for_themselves(event: RunEvent, action: RunAction)
    ensures
        match event {
            RunEvent::Page(Some(groups)) => event@ == RunEventView::Page(groups@),
            RunEvent::Page(None) => event@ == RunEventView::Page(Seq::empty()),
            RunEvent::PageFailed => event@ is PageFailed,
            RunEvent::NoMorePages => event@ is NoMorePages,
            RunEvent::Spawned => event@ is Spawned,
            RunEvent::Joined(ended) => event@ == RunEventView::Joined(ended),
        },
        match action {
            RunAction::DescribePage => action@ is DescribePage,
            RunAction::Spawn(groups) => action@ == RunActionView::Spawn(groups@),
            RunAction::JoinAny => action@ is JoinAny,
            RunAction::JoinNext => action@ is JoinNext,
            RunAction::Finish(outcome) => {
                &&& action@ matches RunActionView::Finish(view)
                &&& outcome is Ok <==> view is Ok
                &&& outcome matches Err(e) ==> view == Err::<(), GcErrorView>(e@)
            },
        },
{
}

/// What the tasks of a run count, in the order in which they do: events of the run itself, of its
/// batches, which are numbered from zero, and of the passes over log groups, with the batch or the
/// pass as it was before, and log streams that were examined.
pub enum SharedEvent {
    Run(RunEventView),
    Batch(int, BatchView, BatchEvent),
    Pass(GroupPassView, GroupEventView),
    StreamProcessed,
}

/// The counters after an event.
pub open spec fn counted(tally: Tally, event: SharedEvent) -> Tally {
    match event {
        SharedEvent::Run(event) => Tally {
            failed_groups: run::failed_after(tally.failed_groups, event),
            ..tally
        },
        SharedEvent::Batch(_, batch, event) => batch::batch_tally(batch, tally, event),
        SharedEvent::Pass(pass, event) => group::group_tally(pass, tally, event),
        SharedEvent::StreamProcessed => Tally {
            processed_streams: tally.processed_streams.wrapping_add(1),
            ..tally
        },
    }
}

/// The counters of a run after these events.
pub open spec fn shared_tally(events: Seq<SharedEvent>) -> Tally
    decreases events.len(),
{
    if events.len() == 0 {
        Tally { processed_streams: 0, total_streams: 0, processed_groups: 0, failed_groups: 0 }
    } else {
        counted(shared_tally(events.drop_last()), events.last())
    }
}

/// The steps of the run itself, each with the failures that were counted before it.
pub open spec fn steps_of(events: Seq<SharedEvent>) -> Seq<RunStep>
    decreases events.len(),
{
    if events.len() == 0 {
        Seq::empty()
    } else {
        let before = steps_of(events.drop_last());
        match events.last() {
            SharedEvent::Run(event) => before.push(
                RunStep { event, failed_groups: shared_tally(events.drop_last()).failed_groups },
            ),
            _ => before,
        }
    }
}

/// The outcomes of the log groups that ended.
pub open spec fn ended_outcomes(events: Seq<SharedEvent>) -> Seq<Result<(), GcError>>
    decreases events.len(),
{
    if events.len() == 0 {
        Seq::empty()
    } else {
        let before = ended_outcomes(events.drop_last());
        match events.last() {
            SharedEvent::Batch(_, _, BatchEvent::GroupEnded(outcome)) => before.push(outcome),
            _ => before,
        }
    }
}

/// How many batches broke off.
pub open spec fn broken_batches(events: Seq<SharedEvent>) -> nat
    decreases events.len(),
{
    if events.len() == 0 {
        0
    } else {
        broken_batches(events.drop_last()) + if events.last() == SharedEvent::Run(
            RunEventView::Joined(false),
        ) {
            1nat
        } else {
            0nat
        }
    }
}

/// How many log groups failed, and batches broke off.
pub open spec fn failure_count(events: Seq<SharedEvent>) -> nat {
    group::failures(ended_outcomes(events)).len() + broken_batches(events)
}

/// However the events of the run and of its batches are interleaved, the counter holds the number
/// of log groups that failed and of batches that broke off, as long as it can.
pub proof fn law_counts_failed_groups_and_broken_batches(events: Seq<SharedEvent>)
    requires
        failure_count(events) <= usize::MAX,
    ensures
        shared_tally(events).failed_groups == failure_count(events),
    decreases events.len(),
{
    reveal(Seq::filter);
    if events.len() > 0 {
        let (all, before) = (ended_outcomes(events), ended_outcomes(events.drop_last()));
        if all.len() > before.len() {
            assert(all.drop_last() =~= before);
        }
        law_counts_failed_groups_and_broken_batches(events.drop_last());
    }
}

/// How many log streams were examined.
pub open spec fn examined_streams(events: Seq<SharedEvent>) -> nat
    decreases events.len(),
{
    if events.len() == 0 {
        0
    } else {
        examined_streams(events.drop_last()) + if events.last() is StreamProcessed {
            1nat
        } else {
            0nat
        }
    }
}

/// How many log streams were listed, of the log groups whose listings came to their end.
pub open spec fn listed_streams(events: Seq<SharedEvent>) -> nat
    decreases events.len(),
{
    if events.len() == 0 {
        0
    } else {
        listed_streams(events.drop_last()) + match events.last() {
            SharedEvent::Pass(pass, GroupEventView::NoMorePages) => pass.log_streams.len(),
            _ => 0,
        }
    }
}

/// How many log groups were asked for: one at each event of a batch of which log groups remain.
pub open spec fn begun_groups(events: Seq<SharedEvent>) -> nat
    decreases events.len(),
{
    if events.len() == 0 {
        0
    } else {
        begun_groups(events.drop_last()) + match events.last() {
            SharedEvent::Batch(_, batch, _) if batch.remaining.len() > 0 => 1nat,
            _ => 0nat,
        }
    }
}

/// The counters hold how many log streams were examined and listed, and how many log groups were
/// begun, as long as they can.
pub proof fn law_counts_log_streams_and_log_groups(events: Seq<SharedEvent>)
    ensures
        examined_streams(events) <= usize::MAX ==> shared_tally(events).processed_streams
            == examined_streams(events),
        listed_streams(events) <= usize::MAX ==> shared_tally(events).total_streams == listed_streams(
            events,
        ),
        begun_groups(events) <= usize::MAX ==> shared_tally(events).processed_groups == begun_groups(
            events,
        ),
    decreases events.len(),
{
    if events.len() > 0 {
        law_counts_log_streams_and_log_groups(events.drop_last());
    }
}

/// The end of a log group adds one to the failures if it failed, and changes no counter otherwise.
pub proof fn law_failed_group_counts_once(tally: Tally, outcome: Result<(), GcError>)
    requires
        tally.failed_groups < usize::MAX,
    ensures
        outcome is Ok ==> tally::after_group(tally, outcome) == tally,
        outcome is Err ==> tally::after_group(tally, outcome).failed_groups == tally.failed_groups
            + 1,
        tally::after_group(tally, outcome).processed_groups == tally.processed_groups,
        tally::after_group(tally, outcome).processed_streams == tally.processed_streams,
        tally::after_group(tally, outcome).total_streams == tally.total_streams,
{
}

/// Whether these are the events of a run that got every page and came to its end.
pub open spec fn is_ended_run(config: ConfigView, events: Seq<SharedEvent>) -> bool {
    &&& is_run(config, steps_of(events))
    &&& events.len() > 0
    &&& events.last() matches SharedEvent::Run(event)
    &&& event !is PageFailed
    &&& last_action(config, steps_of(events)) is Finish
}

/// A run that got every page ends well exactly if no log group failed and no batch broke off, and
/// otherwise tells how many did, as long as the counter can hold them.
pub proof fn law_ends_with_what_failed(config: ConfigView, events: Seq<SharedEvent>)
    requires
        is_ended_run(config, events),
        failure_count(events) <= usize::MAX,
    ensures
        last_action(config, steps_of(events)) == RunActionView::Finish(
            if failure_count(events) == 0 {
                Ok(())
            } else {
                Err(GcErrorView::LogGroupsFailed(failure_count(events)))
            },
        ),
{
    law_counts_failed_groups_and_broken_batches(events);
    law_waits_for_every_batch(config, steps_of(events));
}

/// A run for which a page cannot be had ends with that failure, whatever else came of it.
pub proof fn law_want_of_a_page_ends_the_run(config: ConfigView, steps: Seq<RunStep>)
    requires
        is_run(config, steps),
        steps.len() > 0,
        steps.last().event is PageFailed,
    ensures
        last_action(config, steps) == RunActionView::Finish(Err(GcErrorView::DescribeLogGroups)),
        run_after(config, steps).phase == RunPhase::Done,
{
}

} // verus!
