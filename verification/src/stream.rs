//! What is done with one log stream.

use crate::date;
use crate::date::{Date, TimestampError};
use crate::error;
use crate::error::{GcError, GcErrorView};
use crate::logs::LogStream;
use vstd::prelude::*;

verus! {

/// The log stream to delete.
#[derive(Debug)]
pub struct DeleteRequest {
    pub log_group_name: String,
    pub log_stream_name: String,
}

#[derive(Debug)]
pub enum StreamAction {
    /// The log stream is young enough.
    Keep,
    /// The log stream is too old, but nothing is deleted in a dry run.
    KeepDryRun,
    /// The log stream is too old.
    Delete(DeleteRequest),
}

/// What a `StreamAction` stands for.
pub enum StreamActionView {
    Keep,
    KeepDryRun,
    /// Names of the log group and of the log stream.
    Delete(Seq<char>, Seq<char>),
}

impl View for StreamAction {
    type V = StreamActionView;

    open spec fn view(&self) -> StreamActionView {
        match self {
            StreamAction::Keep => StreamActionView::Keep,
            StreamAction::KeepDryRun => StreamActionView::KeepDryRun,
            StreamAction::Delete(request) => StreamActionView::Delete(
                request.log_group_name@,
                request.log_stream_name@,
            ),
        }
    }
}

/// A log stream whose age is known.
#[derive(Debug)]
pub struct ExaminedStream {
    pub creation_date: Date,
    pub action: StreamAction,
}

/// What is to be done with the log stream of a log group when log streams are kept from the
/// date with day number `keep_from` on, and the day number of its creation; or why that
/// cannot be said.
pub open spec fn examined(
    keep_from: int,
    dry_run: bool,
    log_group_name: Seq<char>,
    stream: LogStream,
) -> Result<(int, StreamActionView), GcErrorView> {
    match (stream.log_stream_name, stream.creation_time) {
        (None, _) => Err(GcErrorView::MissingStreamName),
        (Some(name), None) => Err(GcErrorView::MissingCreationTime(name@)),
        (Some(name), Some(time)) => {
            let day = date::day_of(time as int);
            if time < 0 {
                Err(GcErrorView::BadCreationTime(name@, TimestampError::Negative(time)))
            } else if !date::is_day(day) {
                Err(GcErrorView::BadCreationTime(name@, TimestampError::OutOfRange(time)))
            } else if day >= keep_from {
                Ok((day, StreamActionView::Keep))
            } else if dry_run {
                Ok((day, StreamActionView::KeepDryRun))
            } else {
                Ok((day, StreamActionView::Delete(log_group_name, name@)))
            }
        },
    }
}

/// Decides what is to be done with a log stream.
pub fn gc_log_stream(
    keep_from_date: &Date,
    dry_run: bool,
    log_group_name: &str,
    log_stream: &LogStream,
) -> (result: Result<ExaminedStream, GcError>)
    ensures
        match result {
            Ok(stream) => examined(keep_from_date@, dry_run, log_group_name@, *log_stream) == Ok::<
                (int, StreamActionView),
                GcErrorView,
            >((stream.creation_date@, stream.action@)),
            Err(e) => examined(keep_from_date@, dry_run, log_group_name@, *log_stream) == Err::<
                (int, StreamActionView),
                GcErrorView,
            >(e@),
        },
{
    let log_stream_name: &String = match &log_stream.log_stream_name {
        Some(name) => name,
        None => {
            return Err(GcError::MissingStreamName);
        },
    };
    let creation_time: i64 = match log_stream.creation_time {
        Some(time) => time,
        None => {
            return Err(GcError::MissingCreationTime(log_stream_name.clone()));
        },
    };
    let creation_date: Date = match date::parse_timestamp(creation_time) {
        Ok(time) => time.date_naive(),
        Err(why) => {
            return Err(GcError::BadCreationTime(log_stream_name.clone(), why));
        },
    };
    let action: StreamAction = if creation_date.is_before(keep_from_date) {
        if dry_run {
            StreamAction::KeepDryRun
        } else {
            StreamAction::Delete(
                DeleteRequest {
                    log_group_name: log_group_name.to_owned(),
                    log_stream_name: log_stream_name.clone(),
                },
            )
        }
    } else {
        StreamAction::Keep
    };
    Ok(ExaminedStream { creation_date, action })
}

/// What became of a log stream whose action was taken, where `deleted` says whether a deletion
/// that was asked for took place.
pub open spec fn finished(action: StreamActionView, deleted: bool) -> Result<(), GcErrorView> {
    match action {
        StreamActionView::Delete(group, stream) if !deleted => Err(
            GcErrorView::DeleteLogStream(group, stream),
        ),
        _ => Ok(()),
    }
}

/// What became of a log stream, once its action was taken: `deleted` says whether a deletion
/// that was asked for took place.
pub fn finish_log_stream(action: StreamAction, deleted: bool) -> (outcome: Result<(), GcError>)
    ensures
        error::outcome_view(outcome) == finished(action@, deleted),
{
    match action {
        StreamAction::Delete(request) => if deleted {
            Ok(())
        } else {
            Err(GcError::DeleteLogStream(request.log_group_name, request.log_stream_name))
        },
        _ => Ok(()),
    }
}

/// A dry run deletes nothing.
pub proof fn law_dry_run_deletes_nothing(keep_from: int, log_group_name: Seq<char>, stream: LogStream)
    ensures
        !(examined(keep_from, true, log_group_name, stream) matches Ok((_, action)) && action is Delete),
{
}

/// A log stream is deleted exactly if the run is no dry run, the log stream has a name and a
/// creation time that is a time, and it was created on a day before the cutoff date. What is
/// deleted is that log stream.
pub proof fn law_deletes_what_is_older_than_the_cutoff(
    keep_from: int,
    dry_run: bool,
    log_group_name: Seq<char>,
    stream: LogStream,
)
    ensures
        (examined(keep_from, dry_run, log_group_name, stream) matches Ok((_, action)) && action is Delete)
            <==> (!dry_run && stream.log_stream_name is Some && (stream.creation_time matches Some(time)
            && time >= 0 && date::is_day(date::day_of(time as int)) && date::day_of(time as int)
            < keep_from)),
        examined(keep_from, dry_run, log_group_name, stream) matches Ok((_, action)) ==> (
        action matches StreamActionView::Delete(group, name) ==> group == log_group_name && name
            == stream.log_stream_name->0@),
{
}

/// If a log stream is deleted, so is every one that was created no later, and so it is with
/// every later cutoff date.
pub proof fn law_deletes_the_oldest_first(
    keep_from: int,
    later: int,
    log_group_name: Seq<char>,
    stream: LogStream,
    older: LogStream,
)
    requires
        keep_from <= later,
        older.log_stream_name is Some,
        older.creation_time matches Some(time) && 0 <= time && (stream.creation_time matches Some(other)
            && time <= other),
        examined(keep_from, false, log_group_name, stream) matches Ok((_, action)) && action is Delete,
    ensures
        examined(later, false, log_group_name, older) matches Ok((_, action)) && action is Delete,
{
    let (a, b) = (older.creation_time->0 as int, stream.creation_time->0 as int);
    vstd::arithmetic::div_mod::lemma_div_is_ordered(a, b, date::MILLIS_PER_DAY as int);
}

/// Why a log stream cannot be examined: it lacks a name, or a creation time, or the creation time
/// lies before 1970 or beyond the calendar. Every other log stream can be.
pub proof fn law_tells_why_a_log_stream_cannot_be_examined(
    keep_from: int,
    dry_run: bool,
    log_group_name: Seq<char>,
    stream: LogStream,
)
    ensures
        stream.log_stream_name is None ==> examined(keep_from, dry_run, log_group_name, stream) == Err::<
            (int, StreamActionView),
            GcErrorView,
        >(GcErrorView::MissingStreamName),
        stream.log_stream_name matches Some(name) ==> {
            &&& stream.creation_time is None ==> examined(keep_from, dry_run, log_group_name, stream)
                == Err::<(int, StreamActionView), GcErrorView>(
                GcErrorView::MissingCreationTime(name@),
            )
            &&& stream.creation_time matches Some(time) ==> {
                &&& time < 0 ==> examined(keep_from, dry_run, log_group_name, stream) == Err::<
                    (int, StreamActionView),
                    GcErrorView,
                >(GcErrorView::BadCreationTime(name@, TimestampError::Negative(time)))
                &&& time >= 8_210_266_876_800_000 ==> examined(
                    keep_from,
                    dry_run,
                    log_group_name,
                    stream,
                ) == Err::<(int, StreamActionView), GcErrorView>(
                    GcErrorView::BadCreationTime(name@, TimestampError::OutOfRange(time)),
                )
                &&& 0 <= time < 8_210_266_876_800_000 ==> examined(
                    keep_from,
                    dry_run,
                    log_group_name,
                    stream,
                ) is Ok
            }
        },
{
}

/// A log stream that can be examined was created on the day that its creation time lies on. It is
/// kept exactly if that is the cutoff date or a later one, and told apart from those that only a
/// dry run keeps.
pub proof fn law_keeps_what_is_no_older_than_the_cutoff(
    keep_from: int,
    dry_run: bool,
    log_group_name: Seq<char>,
    stream: LogStream,
)
    ensures
        examined(keep_from, dry_run, log_group_name, stream) matches Ok((day, action)) ==> {
            &&& (day - 719_163) * 86_400_000 <= stream.creation_time->0 < (day - 719_163 + 1)
                * 86_400_000
            &&& action is Keep <==> day >= keep_from
            &&& action is KeepDryRun <==> day < keep_from && dry_run
            &&& action is Delete <==> day < keep_from && !dry_run
        },
{
}

/// A dry run tells of each log stream what another run does: it spares exactly those that the
/// other one deletes, keeps what that one keeps, and fails where that one does.
pub proof fn law_dry_run_differs_in_what_it_spares_only(
    keep_from: int,
    log_group_name: Seq<char>,
    stream: LogStream,
)
    ensures
        match (
            examined(keep_from, false, log_group_name, stream),
            examined(keep_from, true, log_group_name, stream),
        ) {
            (Ok((day, action)), Ok((other_day, other))) => {
                &&& day == other_day
                &&& action is Keep <==> other is Keep
                &&& action is Delete <==> other is KeepDryRun
            },
            (Err(e), Err(other)) => e == other,
            _ => false,
        },
{
}

/// A log stream whose deletion was asked for and did not take place has failed, and the failure
/// names it. No other log stream fails at this point.
pub proof fn law_deletion_that_did_not_take_place_is_a_failure(
    action: StreamActionView,
    deleted: bool,
)
    ensures
        finished(action, deleted) is Err <==> action is Delete && !deleted,
        action matches StreamActionView::Delete(group, stream) ==> finished(action, false) == Err::<
            (),
            GcErrorView,
        >(GcErrorView::DeleteLogStream(group, stream)),
{
}

/// What became of a log stream, in terms of the deletion that was asked for.
pub proof fn law_outcome_of_a_log_stream(
    action: StreamAction,
    deleted: bool,
    outcome: Result<(), GcError>,
)
    requires
        call_ensures(finish_log_stream, (action, deleted), outcome),
    ensures
        outcome is Err <==> action is Delete && !deleted,
        outcome matches Err(e) ==> (e matches GcError::DeleteLogStream(group, stream) && group@
            == action->Delete_0.log_group_name@ && stream@ == action->Delete_0.log_stream_name@),
{
}

/// What an action stands for is that action, on those names.
pub proof fn law_stream_actions_stand_for_themselves(action: StreamAction)
    ensures
        action is Keep <==> action@ is Keep,
        action is KeepDryRun <==> action@ is KeepDryRun,
        action is Delete <==> action@ is Delete,
        action matches StreamAction::Delete(request) ==> action@ == StreamActionView::Delete(
            request.log_group_name@,
            request.log_stream_name@,
        ),
{
}

} // verus!
