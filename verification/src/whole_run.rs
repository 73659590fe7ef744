//! What holds of whole runs: which deletions a run requests, how it ends, and what a second
//! run finds.

use crate::batch::{BatchEvent, BatchPhase};
use crate::config::ConfigView;
use crate::date;
use crate::error;
use crate::error::{GcError, GcErrorView};
use crate::group;
use crate::group::{GroupActionView, GroupEventView, GroupPlanView};
use crate::laws;
use crate::laws::{RunStep, SharedEvent};
use crate::logs;
use crate::logs::{LogGroup, LogStream};
use crate::run::RunActionView;
use crate::sequences;
use crate::stream;
use crate::stream::StreamActionView;
use vstd::prelude::*;

verus! {

/// The pass over one log group of a run.
pub struct GroupRecord {
    pub group: LogGroup,
    /// The day number of the date on which it was planned.
    pub today: int,
    /// The pages of the listing of its log streams.
    pub pages: Seq<Seq<LogStream>>,
    /// Whether the listing came to its end.
    pub listed: bool,
    /// Of each log stream, whether a deletion took place if one was requested.
    pub deleted: Seq<bool>,
    /// The results of the log streams, in the order in which they came.
    pub results: Seq<Result<(), GcError>>,
    pub outcome: Result<(), GcError>,
}

/// A run: what happened in it, and of each of its batches the passes that ended.
pub struct RunRecord {
    pub events: Seq<SharedEvent>,
    pub batches: Seq<Seq<GroupRecord>>,
}

/// What became of a log stream under this plan.
pub open spec fn stream_result(
    plan: GroupPlanView,
    dry_run: bool,
    stream: LogStream,
    deleted: bool,
) -> Result<(), GcErrorView> {
    match stream::examined(plan.keep_from, dry_run, plan.log_group_name, stream) {
        Ok((_, action)) => stream::finished(action, deleted),
        Err(e) => Err(e),
    }
}

/// What became of each of the log streams under this plan.
pub open spec fn stream_results(
    plan: GroupPlanView,
    dry_run: bool,
    streams: Seq<LogStream>,
    deleted: Seq<bool>,
) -> Seq<Result<(), GcErrorView>> {
    Seq::new(streams.len(), |i: int| stream_result(plan, dry_run, streams[i], deleted[i]))
}

/// What results stand for.
pub open spec fn results_view(results: Seq<Result<(), GcError>>) -> Seq<Result<(), GcErrorView>> {
    results.map_values(|r: Result<(), GcError>| error::outcome_view(r))
}

/// What a pass needs once its listing has ended, or broken off.
pub open spec fn after_listing(plan: GroupPlanView, record: GroupRecord) -> (
    group::GroupPassView,
    GroupActionView,
) {
    group::group_next(
        laws::pass_after(group::pass_start(plan.log_group_name), record.pages),
        if record.listed {
            GroupEventView::NoMorePages
        } else {
            GroupEventView::PageFailed
        },
    )
}

/// Whether the pass over a log group can have gone this way: it was planned for, its log
/// streams were listed and swept, and the outcome is what came of that.
pub open spec fn is_pass(config: ConfigView, dry_run: bool, record: GroupRecord) -> bool {
    &&& group::is_plannable(record.group, config, record.today)
    &&& match group::planned(record.group, config, record.today) {
        Err(e) => error::outcome_view(record.outcome) == Err::<(), GcErrorView>(e),
        Ok(plan) => {
            let (pass, action) = after_listing(plan, record);
            match action {
                GroupActionView::DescribePage => false,
                GroupActionView::Finish(outcome) => error::outcome_view(record.outcome) == outcome,
                GroupActionView::Sweep(streams) => {
                    &&& record.deleted.len() == streams.len()
                    &&& results_view(record.results).to_multiset() == stream_results(
                        plan,
                        dry_run,
                        streams,
                        record.deleted,
                    ).to_multiset()
                    &&& group::group_next(pass, GroupEventView::Swept(record.results)).1
                        == GroupActionView::Finish(error::outcome_view(record.outcome))
                },
            }
        },
    }
}

/// The outcomes of passes.
pub open spec fn outcomes(records: Seq<GroupRecord>) -> Seq<Result<(), GcError>> {
    records.map_values(|r: GroupRecord| r.outcome)
}

/// The log groups of passes.
pub open spec fn groups_of(records: Seq<GroupRecord>) -> Seq<LogGroup> {
    records.map_values(|r: GroupRecord| r.group)
}

/// Whether these are the passes that ended of a batch of these log groups: those over the log groups
/// that it asked for, in their order.
pub open spec fn is_batch(
    config: ConfigView,
    dry_run: bool,
    groups: Seq<LogGroup>,
    records: Seq<GroupRecord>,
) -> bool {
    let asked = laws::asked_groups(groups, outcomes(records));
    &&& records.len() <= asked.len()
    &&& groups_of(records) == asked.take(records.len() as int)
    &&& forall|i: int| 0 <= i < records.len() ==> is_pass(config, dry_run, #[trigger] records[i])
}

/// Whether a batch of these log groups is finished with these passes.
pub open spec fn is_finished(groups: Seq<LogGroup>, records: Seq<GroupRecord>) -> bool {
    laws::batch_after(groups, outcomes(records)).0.phase == BatchPhase::Done
}

/// The outcomes of the log groups of the batch with number `k`, in the order in which they ended.
pub open spec fn outcomes_of_batch(events: Seq<SharedEvent>, k: int) -> Seq<Result<(), GcError>>
    decreases events.len(),
{
    if events.len() == 0 {
        Seq::empty()
    } else {
        let before = outcomes_of_batch(events.drop_last(), k);
        match events.last() {
            SharedEvent::Batch(b, _, BatchEvent::GroupEnded(outcome)) if b == k => before.push(outcome),
            _ => before,
        }
    }
}

/// Whether every event of a batch is of one of the first `n` batches.
pub open spec fn are_of_batches(events: Seq<SharedEvent>, n: nat) -> bool {
    forall|i: int|
        0 <= i < events.len() ==> ((#[trigger] events[i]) matches SharedEvent::Batch(k, _, _) ==> 0 <= k
            < n)
}

/// All passes of a run.
pub open spec fn passes(record: RunRecord) -> Seq<GroupRecord> {
    sequences::joined(record.batches)
}

/// The steps of the run.
pub open spec fn steps(record: RunRecord) -> Seq<RunStep> {
    laws::steps_of(record.events)
}

/// Whether this is a run that got every page and came to its end, with the passes that ended of each
/// batch that it handed out. A batch may have broken off.
pub open spec fn is_recorded_run(config: ConfigView, dry_run: bool, record: RunRecord) -> bool {
    let handed_out = laws::handed_out_batches(config, steps(record));
    &&& laws::is_ended_run(config, record.events)
    &&& record.batches.len() == handed_out.len()
    &&& are_of_batches(record.events, handed_out.len())
    &&& forall|k: int|
        0 <= k < handed_out.len() ==> {
            &&& is_batch(config, dry_run, handed_out[k], #[trigger] record.batches[k])
            &&& outcomes(record.batches[k]) == outcomes_of_batch(record.events, k)
        }
}

/// Whether this is a run that got every page and came to its end, and of which every batch was
/// finished and none broke off.
pub open spec fn is_whole_run(config: ConfigView, dry_run: bool, record: RunRecord) -> bool {
    let handed_out = laws::handed_out_batches(config, steps(record));
    &&& is_recorded_run(config, dry_run, record)
    &&& laws::broken_batches(record.events) == 0
    &&& forall|k: int|
        0 <= k < handed_out.len() ==> is_finished(handed_out[k], #[trigger] record.batches[k])
}

/// The deletions that are requested of these log streams under this plan: names of the log group
/// and of the log stream.
pub open spec fn stream_requests(plan: GroupPlanView, dry_run: bool, streams: Seq<LogStream>) -> Seq<
    (Seq<char>, Seq<char>),
>
    decreases streams.len(),
{
    if streams.len() == 0 {
        Seq::empty()
    } else {
        let before = stream_requests(plan, dry_run, streams.drop_last());
        match stream::examined(plan.keep_from, dry_run, plan.log_group_name, streams.last()) {
            Ok((_, StreamActionView::Delete(group, stream))) => before.push((group, stream)),
            _ => before,
        }
    }
}

/// The deletions that a pass requests: those of the log streams that it sweeps.
pub open spec fn pass_requests(config: ConfigView, dry_run: bool, record: GroupRecord) -> Seq<
    (Seq<char>, Seq<char>),
> {
    match group::planned(record.group, config, record.today) {
        Ok(plan) => match after_listing(plan, record).1 {
            GroupActionView::Sweep(streams) => stream_requests(plan, dry_run, streams),
            _ => Seq::empty(),
        },
        Err(_) => Seq::empty(),
    }
}

/// The deletions that a run requests. They are sent in any order.
pub open spec fn run_requests(config: ConfigView, dry_run: bool, record: RunRecord) -> Seq<
    (Seq<char>, Seq<char>),
> {
    sequences::joined(
        passes(record).map_values(|r: GroupRecord| pass_requests(config, dry_run, r)),
    )
}

/// Whether the log stream has a name and a time of creation, and was created on a day before the
/// one from which on log streams are kept.
pub open spec fn is_too_old(keep_from: int, stream: LogStream) -> bool {
    &&& stream.log_stream_name is Some
    &&& stream.creation_time matches Some(time)
    &&& time >= 0
    &&& date::is_day(date::day_of(time as int))
    &&& date::day_of(time as int) < keep_from
}

/// Whether the deletion with these names is that of the log stream at index `i` of the listing of
/// a log group that was planned for and listed to the end, and the log stream is too old.
pub open spec fn is_due(
    config: ConfigView,
    record: GroupRecord,
    i: int,
    request: (Seq<char>, Seq<char>),
) -> bool {
    let streams = sequences::joined(record.pages);
    &&& group::planned(record.group, config, record.today) matches Ok(plan)
    &&& record.listed
    &&& 0 <= i < streams.len()
    &&& is_too_old(plan.keep_from, streams[i])
    &&& request == (record.group.log_group_name->0@, streams[i].log_stream_name->0@)
}

proof fn lemma_stream_requests(
    plan: GroupPlanView,
    streams: Seq<LogStream>,
    request: (Seq<char>, Seq<char>),
)
    ensures
        stream_requests(plan, true, streams).len() == 0,
        stream_requests(plan, false, streams).contains(request) <==> exists|i: int|
            {
                &&& 0 <= i < streams.len()
                &&& is_too_old(plan.keep_from, #[trigger] streams[i])
                &&& request == (plan.log_group_name, streams[i].log_stream_name->0@)
            },
    decreases streams.len(),
{
    if streams.len() > 0 {
        let before = streams.drop_last();
        let last = streams.len() - 1;
        lemma_stream_requests(plan, before, request);
        let (some, all) = (
            stream_requests(plan, false, before),
            stream_requests(plan, false, streams),
        );
        let newest = (plan.log_group_name, streams[last].log_stream_name->0@);
        if is_too_old(plan.keep_from, streams[last]) {
            assert(all == some.push(newest));
        } else {
            assert(all == some);
        }
        if all.contains(request) {
            let j = choose|j: int| 0 <= j < all.len() && all[j] == request;
            if j < some.len() {
                assert(some[j] == request);
                let i = choose|i: int|
                    {
                        &&& 0 <= i < before.len()
                        &&& is_too_old(plan.keep_from, #[trigger] before[i])
                        &&& request == (plan.log_group_name, before[i].log_stream_name->0@)
                    };
                assert(before[i] == streams[i]);
            }
        }
        if exists|i: int|
            {
                &&& 0 <= i < streams.len()
                &&& is_too_old(plan.keep_from, #[trigger] streams[i])
                &&& request == (plan.log_group_name, streams[i].log_stream_name->0@)
            } {
            let i = choose|i: int|
                {
                    &&& 0 <= i < streams.len()
                    &&& is_too_old(plan.keep_from, #[trigger] streams[i])
                    &&& request == (plan.log_group_name, streams[i].log_stream_name->0@)
                };
            if i < last {
                assert(before[i] == streams[i]);
                let j = choose|j: int| 0 <= j < some.len() && some[j] == request;
                assert(all[j] == request);
            } else {
                assert(all[some.len() as int] == request);
            }
        }
    }
}

proof fn lemma_pass_requests(
    config: ConfigView,
    record: GroupRecord,
    request: (Seq<char>, Seq<char>),
)
    ensures
        pass_requests(config, true, record).len() == 0,
        pass_requests(config, false, record).contains(request) <==> exists|i: int|
            #[trigger] is_due(config, record, i, request),
{
    let streams = sequences::joined(record.pages);
    if let Ok(plan) = group::planned(record.group, config, record.today) {
        laws::lemma_pass_lists(plan.log_group_name, record.pages);
        lemma_stream_requests(plan, streams, request);
        if record.listed && streams.len() > 0 {
            assert(pass_requests(config, false, record) == stream_requests(plan, false, streams));
            if exists|i: int| #[trigger] is_due(config, record, i, request) {
                let i = choose|i: int| #[trigger] is_due(config, record, i, request);
                assert(is_too_old(plan.keep_from, streams[i]));
            }
            if stream_requests(plan, false, streams).contains(request) {
                let i = choose|i: int|
                    {
                        &&& 0 <= i < streams.len()
                        &&& is_too_old(plan.keep_from, #[trigger] streams[i])
                        &&& request == (plan.log_group_name, streams[i].log_stream_name->0@)
                    };
                assert(is_due(config, record, i, request));
            }
        }
    }
}

/// The passes of a whole run are those over the log groups of the listing that are to be
/// processed: each once, in the order of the listing, whatever came of those before.
pub proof fn law_passes_over_what_is_to_be_processed(
    config: ConfigView,
    dry_run: bool,
    record: RunRecord,
)
    requires
        is_whole_run(config, dry_run, record),
    ensures
        groups_of(passes(record)) == logs::processed_groups(
            laws::listed_groups(steps(record)),
            config,
        ),
        forall|k: int|
            0 <= k < passes(record).len() ==> is_pass(config, dry_run, #[trigger] passes(record)[k]),
{
    let handed_out = laws::handed_out_batches(config, steps(record));
    let f = |r: GroupRecord| r.group;
    assert forall|k: int| 0 <= k < record.batches.len() implies (#[trigger] record.batches[k]).map_values(
        f,
    ) == handed_out[k] by {
        assert(is_batch(config, dry_run, handed_out[k], record.batches[k]));
        assert(is_finished(handed_out[k], record.batches[k]));
        laws::law_batch_asks_for_every_group(handed_out[k], outcomes(record.batches[k]));
        assert(handed_out[k].take(handed_out[k].len() as int) =~= handed_out[k]);
    }
    sequences::lemma_joined_map(record.batches, handed_out, f);
    laws::law_hands_out_what_is_to_be_processed(config, steps(record));
    assert forall|k: int| 0 <= k < passes(record).len() implies is_pass(
        config,
        dry_run,
        #[trigger] passes(record)[k],
    ) by {
        let pass = passes(record)[k];
        assert(passes(record).contains(pass));
        sequences::lemma_joined_contains(record.batches, pass);
        let b = choose|b: int| 0 <= b < record.batches.len() && (#[trigger] record.batches[b]).contains(pass);
        assert(is_batch(config, dry_run, handed_out[b], record.batches[b]));
        let i = choose|i: int| 0 <= i < record.batches[b].len() && record.batches[b][i] == pass;
        assert(is_pass(config, dry_run, record.batches[b][i]));
    }
}

/// In every run, also in one that ends for want of a page or in which a batch breaks off, the passes
/// that ended requested exactly the deletions that were due: those of the log streams that were
/// listed of their log groups and were created before the cutoff date.
pub proof fn law_passes_request_exactly_what_is_due(
    config: ConfigView,
    record: RunRecord,
    request: (Seq<char>, Seq<char>),
)
    ensures
        run_requests(config, false, record).contains(request) <==> exists|k: int, i: int|
            0 <= k < passes(record).len() && #[trigger] is_due(config, passes(record)[k], i, request),
{
    let all = passes(record);
    let parts = all.map_values(|r: GroupRecord| pass_requests(config, false, r));
    sequences::lemma_joined_contains(parts, request);
    if run_requests(config, false, record).contains(request) {
        let k = choose|k: int| 0 <= k < parts.len() && (#[trigger] parts[k]).contains(request);
        lemma_pass_requests(config, all[k], request);
        let i = choose|i: int| #[trigger] is_due(config, all[k], i, request);
        assert(is_due(config, passes(record)[k], i, request));
    }
    if exists|k: int, i: int| 0 <= k < all.len() && #[trigger] is_due(config, all[k], i, request) {
        let (k, i) = choose|k: int, i: int|
            0 <= k < all.len() && #[trigger] is_due(config, all[k], i, request);
        lemma_pass_requests(config, all[k], request);
        assert(parts[k].contains(request));
    }
}

/// A whole run requests exactly the deletions that are due: those of the log streams that were
/// listed of a log group to be processed and were created before its cutoff date. A log group
/// that fails takes nothing away from the others.
pub proof fn law_requests_exactly_what_is_due(
    config: ConfigView,
    record: RunRecord,
    request: (Seq<char>, Seq<char>),
)
    requires
        is_whole_run(config, false, record),
    ensures
        groups_of(passes(record)) == logs::processed_groups(
            laws::listed_groups(steps(record)),
            config,
        ),
        run_requests(config, false, record).contains(request) <==> exists|k: int, i: int|
            0 <= k < passes(record).len() && #[trigger] is_due(config, passes(record)[k], i, request),
{
    law_passes_over_what_is_to_be_processed(config, false, record);
    law_passes_request_exactly_what_is_due(config, record, request);
}

/// A dry run requests no deletion.
pub proof fn law_dry_run_requests_nothing(config: ConfigView, record: RunRecord)
    ensures
        run_requests(config, true, record).len() == 0,
{
    let all = passes(record);
    let parts = all.map_values(|r: GroupRecord| pass_requests(config, true, r));
    if run_requests(config, true, record).len() > 0 {
        let request = sequences::joined(parts)[0];
        assert(sequences::joined(parts).contains(request));
        sequences::lemma_joined_contains(parts, request);
        let k = choose|k: int| 0 <= k < parts.len() && (#[trigger] parts[k]).contains(request);
        lemma_pass_requests(config, all[k], request);
    }
}

/// How many of the outcomes of these parts are failures.
spec fn total_failures(parts: Seq<Seq<Result<(), GcError>>>) -> nat
    decreases parts.len(),
{
    if parts.len() == 0 {
        0
    } else {
        total_failures(parts.drop_last()) + group::failures(parts.last()).len()
    }
}

proof fn lemma_joined_failures(parts: Seq<Seq<Result<(), GcError>>>)
    ensures
        group::failures(sequences::joined(parts)).len() == total_failures(parts),
    decreases parts.len(),
{
    if parts.len() == 0 {
        reveal(Seq::filter);
    } else {
        lemma_joined_failures(parts.drop_last());
        Seq::filter_distributes_over_add(
            sequences::joined(parts.drop_last()),
            parts.last(),
            |r: Result<(), GcError>| r is Err,
        );
    }
}

proof fn lemma_failures_push(results: Seq<Result<(), GcError>>, outcome: Result<(), GcError>)
    ensures
        group::failures(results.push(outcome)).len() == group::failures(results).len() + if outcome is Err {
            1nat
        } else {
            0nat
        },
{
    reveal(Seq::filter);
    assert(results.push(outcome).drop_last() =~= results);
}

proof fn lemma_total_failures_push(
    parts: Seq<Seq<Result<(), GcError>>>,
    k: int,
    outcome: Result<(), GcError>,
)
    requires
        0 <= k < parts.len(),
    ensures
        total_failures(parts.update(k, parts[k].push(outcome))) == total_failures(parts) + if outcome is Err {
            1nat
        } else {
            0nat
        },
    decreases parts.len(),
{
    let more = parts.update(k, parts[k].push(outcome));
    if k == parts.len() - 1 {
        assert(more.drop_last() =~= parts.drop_last());
        lemma_failures_push(parts[k], outcome);
    } else {
        assert(more.drop_last() =~= parts.drop_last().update(k, parts.drop_last()[k].push(outcome)));
        lemma_total_failures_push(parts.drop_last(), k, outcome);
    }
}

/// The log groups that failed are those of the batches, however their ends are interleaved.
proof fn lemma_interleaved_failures(events: Seq<SharedEvent>, n: nat)
    requires
        are_of_batches(events, n),
    ensures
        group::failures(laws::ended_outcomes(events)).len() == total_failures(
            Seq::new(n, |k: int| outcomes_of_batch(events, k)),
        ),
    decreases events.len(),
{
    let parts = Seq::new(n, |k: int| outcomes_of_batch(events, k));
    if events.len() == 0 {
        reveal(Seq::filter);
        lemma_no_failures(parts);
    } else {
        let before = events.drop_last();
        let fewer = Seq::new(n, |k: int| outcomes_of_batch(before, k));
        assert forall|i: int| 0 <= i < before.len() implies ((
        #[trigger] before[i]) matches SharedEvent::Batch(k, _, _) ==> 0 <= k < n) by {
            assert(before[i] == events[i]);
        }
        lemma_interleaved_failures(before, n);
        match events.last() {
            SharedEvent::Batch(k, _, BatchEvent::GroupEnded(outcome)) => {
                assert(events[events.len() - 1] == events.last());
                lemma_failures_push(laws::ended_outcomes(before), outcome);
                assert(parts =~= fewer.update(k, fewer[k].push(outcome)));
                lemma_total_failures_push(fewer, k, outcome);
            },
            _ => {
                assert(parts =~= fewer);
            },
        }
    }
}

proof fn lemma_no_failures(parts: Seq<Seq<Result<(), GcError>>>)
    requires
        forall|k: int| 0 <= k < parts.len() ==> (#[trigger] parts[k]).len() == 0,
    ensures
        total_failures(parts) == 0,
    decreases parts.len(),
{
    if parts.len() > 0 {
        reveal(Seq::filter);
        assert(parts[parts.len() - 1].len() == 0);
        assert forall|k: int| 0 <= k < parts.drop_last().len() implies (
        #[trigger] parts.drop_last()[k]).len() == 0 by {
            assert(parts.drop_last()[k] == parts[k]);
        }
        lemma_no_failures(parts.drop_last());
    }
}

/// The failures of a run are those of its passes and the batches that broke off.
proof fn lemma_failures_of_passes(config: ConfigView, dry_run: bool, record: RunRecord)
    requires
        is_recorded_run(config, dry_run, record),
    ensures
        laws::failure_count(record.events) == group::failures(outcomes(passes(record))).len()
            + laws::broken_batches(record.events),
{
    let n = record.batches.len();
    let parts = Seq::new(n, |k: int| outcomes_of_batch(record.events, k));
    let f = |r: GroupRecord| r.outcome;
    lemma_interleaved_failures(record.events, n);
    assert forall|k: int| 0 <= k < n implies (#[trigger] record.batches[k]).map_values(f) == parts[k] by {
        assert(outcomes(record.batches[k]) == outcomes_of_batch(record.events, k));
    }
    sequences::lemma_joined_map(record.batches, parts, f);
    lemma_joined_failures(parts);
}

/// A run that got every page ends well exactly if none of its passes failed and no batch broke off,
/// and otherwise tells how many did, as long as the counter can hold them.
pub proof fn law_ends_with_the_failed_groups(config: ConfigView, dry_run: bool, record: RunRecord)
    requires
        is_recorded_run(config, dry_run, record),
        group::failures(outcomes(passes(record))).len() + laws::broken_batches(record.events)
            <= usize::MAX,
    ensures
        ({
            let failed = group::failures(outcomes(passes(record))).len() + laws::broken_batches(
                record.events,
            );
            laws::last_action(config, steps(record)) == RunActionView::Finish(
                if failed == 0 {
                    Ok(())
                } else {
                    Err(GcErrorView::LogGroupsFailed(failed))
                },
            )
        }),
{
    lemma_failures_of_passes(config, dry_run, record);
    laws::law_ends_with_what_failed(config, record.events);
}

/// A pass that ended well was planned for and listed to the end, and each of its log streams could
/// be examined.
proof fn lemma_pass_ended_well(config: ConfigView, record: GroupRecord)
    requires
        is_pass(config, false, record),
        record.outcome is Ok,
    ensures
        record.listed,
        group::planned(record.group, config, record.today) matches Ok(plan) && forall|i: int|
            0 <= i < sequences::joined(record.pages).len() ==> stream::examined(
                plan.keep_from,
                false,
                plan.log_group_name,
                #[trigger] sequences::joined(record.pages)[i],
            ) is Ok,
{
    let streams = sequences::joined(record.pages);
    let plan = group::planned(record.group, config, record.today)->Ok_0;
    laws::lemma_pass_lists(plan.log_group_name, record.pages);
    if streams.len() > 0 {
        laws::law_group_fails_with_its_streams(plan.log_group_name, record.results);
        let expected = stream_results(plan, false, streams, record.deleted);
        let viewed = results_view(record.results);
        assert forall|i: int| 0 <= i < streams.len() implies stream::examined(
            plan.keep_from,
            false,
            plan.log_group_name,
            #[trigger] streams[i],
        ) is Ok by {
            expected.to_multiset_ensures();
            viewed.to_multiset_ensures();
            assert(expected.contains(expected[i]));
            assert(expected.to_multiset().count(expected[i]) > 0);
            assert(viewed.to_multiset().count(expected[i]) > 0);
            assert(viewed.contains(expected[i]));
            let j = choose|j: int| 0 <= j < viewed.len() && viewed[j] == expected[i];
            assert(record.results[j] is Ok);
        }
    }
}

/// A pass that was planned for and listed to the end ends well if each of its log streams is kept.
proof fn lemma_pass_ends_well(config: ConfigView, record: GroupRecord)
    requires
        is_pass(config, false, record),
        record.listed,
        group::planned(record.group, config, record.today) matches Ok(plan) && forall|i: int|
            0 <= i < sequences::joined(record.pages).len() ==> laws::is_kept(
                plan,
                #[trigger] sequences::joined(record.pages)[i],
            ),
    ensures
        record.outcome is Ok,
        pass_requests(config, false, record).len() == 0,
{
    let streams = sequences::joined(record.pages);
    let plan = group::planned(record.group, config, record.today)->Ok_0;
    laws::lemma_pass_lists(plan.log_group_name, record.pages);
    if streams.len() > 0 {
        laws::law_group_fails_with_its_streams(plan.log_group_name, record.results);
        let expected = stream_results(plan, false, streams, record.deleted);
        let viewed = results_view(record.results);
        assert forall|j: int| 0 <= j < record.results.len() implies (#[trigger] record.results[j]) is Ok by {
            expected.to_multiset_ensures();
            viewed.to_multiset_ensures();
            assert(viewed.contains(viewed[j]));
            assert(viewed.to_multiset().count(viewed[j]) > 0);
            assert(expected.to_multiset().count(viewed[j]) > 0);
            assert(expected.contains(viewed[j]));
            let i = choose|i: int| 0 <= i < expected.len() && expected[i] == viewed[j];
            assert(laws::is_kept(plan, streams[i]));
        }
        if pass_requests(config, false, record).len() > 0 {
            let request = pass_requests(config, false, record)[0];
            assert(pass_requests(config, false, record).contains(request));
            lemma_pass_requests(config, record, request);
            let i = choose|i: int| #[trigger] is_due(config, record, i, request);
            assert(laws::is_kept(plan, streams[i]));
        }
    }
}

/// A log stream that is too old and is not deleted, in a run that is no dry run, has failed. So have
/// those that cannot be examined, and no others.
pub proof fn law_log_stream_fails_unless_it_is_deleted(
    plan: GroupPlanView,
    dry_run: bool,
    stream: LogStream,
    deleted: bool,
)
    ensures
        is_too_old(plan.keep_from, stream) && !dry_run && !deleted ==> stream_result(
            plan,
            dry_run,
            stream,
            deleted,
        ) == Err::<(), GcErrorView>(
            GcErrorView::DeleteLogStream(plan.log_group_name, stream.log_stream_name->0@),
        ),
        stream_result(plan, dry_run, stream, deleted) is Ok <==> {
            &&& stream.log_stream_name is Some
            &&& stream.creation_time matches Some(time)
            &&& 0 <= time < 8_210_266_876_800_000
            &&& is_too_old(plan.keep_from, stream) ==> dry_run || deleted
        },
{
}

/// Of a log group that ended well, every deletion that was due took place.
pub proof fn law_pass_that_ended_well_deleted_what_was_due(
    config: ConfigView,
    record: GroupRecord,
    i: int,
    request: (Seq<char>, Seq<char>),
)
    requires
        is_pass(config, false, record),
        record.outcome is Ok,
        is_due(config, record, i, request),
    ensures
        record.deleted[i],
{
    let streams = sequences::joined(record.pages);
    let plan = group::planned(record.group, config, record.today)->Ok_0;
    laws::lemma_pass_lists(plan.log_group_name, record.pages);
    laws::law_group_fails_with_its_streams(plan.log_group_name, record.results);
    law_log_stream_fails_unless_it_is_deleted(plan, false, streams[i], record.deleted[i]);
    let expected = stream_results(plan, false, streams, record.deleted);
    let viewed = results_view(record.results);
    expected.to_multiset_ensures();
    viewed.to_multiset_ensures();
    assert(expected.contains(expected[i]));
    assert(expected.to_multiset().count(expected[i]) > 0);
    assert(viewed.to_multiset().count(expected[i]) > 0);
    assert(viewed.contains(expected[i]));
    let j = choose|j: int| 0 <= j < viewed.len() && viewed[j] == expected[i];
    assert(record.results[j] is Ok);
}

/// A run that ended well has deleted every log stream that was due, in every log group of the
/// listing that was to be processed, as long as the counter of failures can hold as many as there
/// are log groups.
pub proof fn law_run_that_ended_well_deleted_what_was_due(
    config: ConfigView,
    record: RunRecord,
    k: int,
    i: int,
    request: (Seq<char>, Seq<char>),
)
    requires
        is_whole_run(config, false, record),
        passes(record).len() <= usize::MAX,
        laws::last_action(config, steps(record)) == RunActionView::Finish(Ok(())),
        0 <= k < passes(record).len(),
        is_due(config, passes(record)[k], i, request),
    ensures
        passes(record)[k].deleted[i],
{
    let all = passes(record);
    let failed = |r: Result<(), GcError>| r is Err;
    law_passes_over_what_is_to_be_processed(config, false, record);
    outcomes(all).lemma_filter_len(failed);
    law_ends_with_the_failed_groups(config, false, record);
    assert(is_pass(config, false, all[k]));
    if all[k].outcome is Err {
        assert(outcomes(all)[k] is Err);
        outcomes(all).lemma_filter_contains(failed, k);
        assert(group::failures(outcomes(all)).contains(outcomes(all)[k]));
    }
    law_pass_that_ended_well_deleted_what_was_due(config, all[k], i, request);
}

/// Whether a second pass finds what a first one left: the same log group on the same date, and of
/// its log streams those that were not deleted.
pub open spec fn is_aftermath(config: ConfigView, first: GroupRecord, second: GroupRecord) -> bool {
    &&& second.group == first.group
    &&& second.today == first.today
    &&& second.listed
    &&& group::planned(first.group, config, first.today) matches Ok(plan)
        ==> sequences::joined(second.pages) == sequences::joined(first.pages).filter(
        |s: LogStream| !laws::is_deleted(plan, s),
    )
}

/// After a run that ended well, a second one on the same date, with the same settings, that finds
/// what the first one left and gets its listings, requests no deletion and ends well, as long as
/// the counter of failures can hold as many as there are log groups.
pub proof fn law_second_run_deletes_nothing(
    config: ConfigView,
    first: RunRecord,
    second: RunRecord,
)
    requires
        is_whole_run(config, false, first),
        passes(first).len() <= usize::MAX,
        laws::last_action(config, steps(first)) == RunActionView::Finish(Ok(())),
        is_whole_run(config, false, second),
        laws::listed_groups(steps(second)) == laws::listed_groups(steps(first)),
        forall|k: int|
            0 <= k < passes(first).len() && k < passes(second).len() ==> is_aftermath(
                config,
                #[trigger] passes(first)[k],
                passes(second)[k],
            ),
    ensures
        run_requests(config, false, second).len() == 0,
        laws::last_action(config, steps(second)) == RunActionView::Finish(Ok(())),
{
    let (a, b) = (passes(first), passes(second));
    law_passes_over_what_is_to_be_processed(config, false, first);
    law_passes_over_what_is_to_be_processed(config, false, second);
    assert(a.len() == groups_of(a).len() && b.len() == groups_of(b).len());
    let failed = |r: Result<(), GcError>| r is Err;
    outcomes(a).lemma_filter_len(failed);
    outcomes(b).lemma_filter_len(failed);
    law_ends_with_the_failed_groups(config, false, first);
    law_ends_with_the_failed_groups(config, false, second);
    let parts = b.map_values(|r: GroupRecord| pass_requests(config, false, r));
    assert forall|k: int| 0 <= k < b.len() implies (#[trigger] b[k]).outcome is Ok && parts[k].len()
        == 0 by {
        assert(is_pass(config, false, a[k]));
        assert(is_pass(config, false, b[k]));
        assert(is_aftermath(config, a[k], b[k]));
        if a[k].outcome is Err {
            assert(outcomes(a)[k] is Err);
            outcomes(a).lemma_filter_contains(failed, k);
            assert(group::failures(outcomes(a)).contains(outcomes(a)[k]));
        }
        lemma_pass_ended_well(config, a[k]);
        let plan = group::planned(a[k].group, config, a[k].today)->Ok_0;
        let (was, is) = (sequences::joined(a[k].pages), sequences::joined(b[k].pages));
        let left = |s: LogStream| !laws::is_deleted(plan, s);
        assert forall|i: int| 0 <= i < is.len() implies laws::is_kept(plan, #[trigger] is[i]) by {
            was.lemma_filter_pred(left, i);
            assert(was.filter(left).contains(is[i]));
            was.lemma_filter_contains_rev(left, is[i]);
            let j = choose|j: int| 0 <= j < was.len() && was[j] == is[i];
            assert(stream::examined(plan.keep_from, false, plan.log_group_name, was[j]) is Ok);
        }
        lemma_pass_ends_well(config, b[k]);
    }
    if group::failures(outcomes(b)).len() > 0 {
        let e = group::failures(outcomes(b))[0];
        outcomes(b).lemma_filter_pred(failed, 0);
        assert(group::failures(outcomes(b)).contains(e));
        outcomes(b).lemma_filter_contains_rev(failed, e);
        let k = choose|k: int| 0 <= k < outcomes(b).len() && outcomes(b)[k] == e;
        assert(b[k].outcome is Ok);
    }
    if run_requests(config, false, second).len() > 0 {
        let request = sequences::joined(parts)[0];
        assert(sequences::joined(parts).contains(request));
        sequences::lemma_joined_contains(parts, request);
        let k = choose|k: int| 0 <= k < parts.len() && (#[trigger] parts[k]).contains(request);
        assert(b[k].outcome is Ok);
    }
}

} // verus!
