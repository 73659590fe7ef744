//! What can go wrong in a run, and how it is reported.

use crate::date::TimestampError;
use crate::decimal;
use vstd::prelude::*;
use vstd::string::StringExecFns;

verus! {

/// A failure, with what its message names.
#[derive(Debug)]
pub enum GcError {
    /// A log group came without a name.
    MissingGroupName,
    /// A log stream came without a name.
    MissingStreamName,
    /// The log stream of this name came without a creation time.
    MissingCreationTime(String),
    /// The creation time of the log stream of this name was refused.
    BadCreationTime(String, TimestampError),
    /// There is no span of this many days.
    NoSuchSpan(i64),
    /// The log groups could not be listed.
    DescribeLogGroups,
    /// The log streams of the log group of this name could not be listed.
    DescribeLogStreams(String),
    /// A log stream could not be deleted: names of the log group and of the log stream.
    DeleteLogStream(String, String),
    /// Log streams of a log group failed: how many, the log group's name, and the message of
    /// the first failure.
    LogStreamsFailed(usize, String, String),
    /// This many log groups failed.
    LogGroupsFailed(usize),
    /// A failure outside of this library, by its message.
    Other(String),
}

/// What a `GcError` stands for.
pub enum GcErrorView {
    MissingGroupName,
    MissingStreamName,
    MissingCreationTime(Seq<char>),
    BadCreationTime(Seq<char>, TimestampError),
    NoSuchSpan(int),
    DescribeLogGroups,
    DescribeLogStreams(Seq<char>),
    DeleteLogStream(Seq<char>, Seq<char>),
    LogStreamsFailed(nat, Seq<char>, Seq<char>),
    LogGroupsFailed(nat),
    Other(Seq<char>),
}

impl View for GcError {
    type V = GcErrorView;

    open spec fn view(&self) -> GcErrorView {
        match self {
            GcError::MissingGroupName => GcErrorView::MissingGroupName,
            GcError::MissingStreamName => GcErrorView::MissingStreamName,
            GcError::MissingCreationTime(stream) => GcErrorView::MissingCreationTime(stream@),
            GcError::BadCreationTime(stream, why) => GcErrorView::BadCreationTime(stream@, *why),
            GcError::NoSuchSpan(days) => GcErrorView::NoSuchSpan(*days as int),
            GcError::DescribeLogGroups => GcErrorView::DescribeLogGroups,
            GcError::DescribeLogStreams(group) => GcErrorView::DescribeLogStreams(group@),
            GcError::DeleteLogStream(group, stream) => GcErrorView::DeleteLogStream(group@, stream@),
            GcError::LogStreamsFailed(count, group, first) => {
                GcErrorView::LogStreamsFailed(*count as nat, group@, first@)
            },
            GcError::LogGroupsFailed(count) => GcErrorView::LogGroupsFailed(*count as nat),
            GcError::Other(text) => GcErrorView::Other(text@),
        }
    }
}

/// What an outcome stands for.
pub open spec fn outcome_view(outcome: Result<(), GcError>) -> Result<(), GcErrorView> {
    match outcome {
        Ok(()) => Ok(()),
        Err(e) => Err(e@),
    }
}

/// The message of a refused timestamp.
pub open spec fn timestamp_message(e: TimestampError) -> Seq<char> {
    match e {
        TimestampError::Negative(t) => "Invalid timestamp: "@ + decimal::signed_decimal(t as int),
        TimestampError::OutOfRange(t) => "Failed to parse timestamp: "@ + decimal::signed_decimal(
            t as int,
        ),
    }
}

/// The message of a failure.
pub open spec fn error_message(e: GcErrorView) -> Seq<char> {
    match e {
        GcErrorView::MissingGroupName => "Log group is missing a name"@,
        GcErrorView::MissingStreamName => "Log stream is missing a name"@,
        GcErrorView::MissingCreationTime(stream) => {
            "Log stream "@ + stream + " is missing a creation time"@
        },
        GcErrorView::BadCreationTime(stream, _) => {
            "Failed to parse creation time for log stream: "@ + stream
        },
        GcErrorView::NoSuchSpan(days) => {
            "Failed to create duration for "@ + decimal::signed_decimal(days) + " days"@
        },
        GcErrorView::DescribeLogGroups => "Failed to describe log groups"@,
        GcErrorView::DescribeLogStreams(group) => {
            "Failed to describe log streams for log group: "@ + group
        },
        GcErrorView::DeleteLogStream(group, stream) => {
            "Failed to delete log stream: "@ + group + "/"@ + stream
        },
        GcErrorView::LogStreamsFailed(count, group, first) => {
            "Failed to process "@ + decimal::decimal(count) + " log streams in "@ + group + ": "@ + first
        },
        GcErrorView::LogGroupsFailed(count) => {
            "Failed to process "@ + decimal::decimal(count) + " log group(s); see warnings above"@
        },
        GcErrorView::Other(text) => text,
    }
}

impl TimestampError {
    /// The message of the failure.
    pub fn message(&self) -> (text: String)
        ensures
            text@ == timestamp_message(*self),
    {
        match self {
            TimestampError::Negative(t) => {
                let mut text: String = "Invalid timestamp: ".to_owned();
                decimal::append_signed_decimal(&mut text, *t);
                text
            },
            TimestampError::OutOfRange(t) => {
                let mut text: String = "Failed to parse timestamp: ".to_owned();
                decimal::append_signed_decimal(&mut text, *t);
                text
            },
        }
    }
}

impl GcError {
    /// The message of the failure.
    pub fn message(&self) -> (text: String)
        ensures
            text@ == error_message(self@),
    {
        match self {
            GcError::MissingGroupName => "Log group is missing a name".to_owned(),
            GcError::MissingStreamName => "Log stream is missing a name".to_owned(),
            GcError::MissingCreationTime(stream) => {
                "Log stream ".to_owned().concat(stream.as_str()).concat(" is missing a creation time")
            },
            GcError::BadCreationTime(stream, _) => {
                "Failed to parse creation time for log stream: ".to_owned().concat(stream.as_str())
            },
            GcError::NoSuchSpan(days) => {
                let mut text: String = "Failed to create duration for ".to_owned();
                decimal::append_signed_decimal(&mut text, *days);
                text.concat(" days")
            },
            GcError::DescribeLogGroups => "Failed to describe log groups".to_owned(),
            GcError::DescribeLogStreams(group) => {
                "Failed to describe log streams for log group: ".to_owned().concat(group.as_str())
            },
            GcError::DeleteLogStream(group, stream) => {
                "Failed to delete log stream: ".to_owned().concat(group.as_str()).concat("/").concat(
                    stream.as_str(),
                )
            },
            GcError::LogStreamsFailed(count, group, first) => {
                let mut text: String = "Failed to process ".to_owned();
                decimal::append_decimal(&mut text, *count as u64);
                text.concat(" log streams in ").concat(group.as_str()).concat(": ").concat(
                    first.as_str(),
                )
            },
            GcError::LogGroupsFailed(count) => {
                let mut text: String = "Failed to process ".to_owned();
                decimal::append_decimal(&mut text, *count as u64);
                text.concat(" log group(s); see warnings above")
            },
            GcError::Other(text) => text.clone(),
        }
    }
}

/// What a failure stands for is that failure, with what its message names.
pub proof fn law_failures_stand_for_themselves(e: GcError)
    ensures
        match e {
            GcError::MissingGroupName => e@ is MissingGroupName,
            GcError::MissingStreamName => e@ is MissingStreamName,
            GcError::MissingCreationTime(stream) => {
                e@ matches GcErrorView::MissingCreationTime(text) && text == stream@
            },
            GcError::BadCreationTime(stream, why) => {
                e@ matches GcErrorView::BadCreationTime(text, reason) && text == stream@ && reason
                    == why
            },
            GcError::NoSuchSpan(days) => e@ matches GcErrorView::NoSuchSpan(n) && n == days,
            GcError::DescribeLogGroups => e@ is DescribeLogGroups,
            GcError::DescribeLogStreams(group) => {
                e@ matches GcErrorView::DescribeLogStreams(text) && text == group@
            },
            GcError::DeleteLogStream(group, stream) => {
                e@ matches GcErrorView::DeleteLogStream(text, name) && text == group@ && name
                    == stream@
            },
            GcError::LogStreamsFailed(count, group, first) => {
                e@ matches GcErrorView::LogStreamsFailed(n, text, message) && n == count && text
                    == group@ && message == first@
            },
            GcError::LogGroupsFailed(count) => e@ matches GcErrorView::LogGroupsFailed(n) && n
                == count,
            GcError::Other(message) => e@ matches GcErrorView::Other(text) && text == message@,
        },
{
}

/// An outcome stands for success exactly if it is one, and otherwise for its failure.
pub proof fn law_outcomes_stand_for_themselves(outcome: Result<(), GcError>)
    ensures
        outcome is Ok <==> outcome_view(outcome) is Ok,
        outcome matches Err(e) ==> outcome_view(outcome) == Err::<(), GcErrorView>(e@),
{
}

/// The message of a failure begins with what failed and names what it concerns: log groups and log
/// streams by their names, numbers in decimal notation, and the first failure of a log group by its
/// own message.
pub proof fn law_messages_name_what_failed(
    group: Seq<char>,
    stream: Seq<char>,
    first: Seq<char>,
    why: TimestampError,
    n: nat,
    days: int,
)
    ensures
        error_message(GcErrorView::MissingGroupName) == "Log group is missing a name"@,
        error_message(GcErrorView::MissingStreamName) == "Log stream is missing a name"@,
        error_message(GcErrorView::MissingCreationTime(stream)) == "Log stream "@ + stream
            + " is missing a creation time"@,
        error_message(GcErrorView::BadCreationTime(stream, why))
            == "Failed to parse creation time for log stream: "@ + stream,
        error_message(GcErrorView::NoSuchSpan(days)) == "Failed to create duration for "@
            + decimal::signed_decimal(days) + " days"@,
        error_message(GcErrorView::DescribeLogGroups) == "Failed to describe log groups"@,
        error_message(GcErrorView::DescribeLogStreams(group))
            == "Failed to describe log streams for log group: "@ + group,
        error_message(GcErrorView::DeleteLogStream(group, stream)) == "Failed to delete log stream: "@
            + group + "/"@ + stream,
        error_message(GcErrorView::LogStreamsFailed(n, group, first)) == "Failed to process "@
            + decimal::decimal(n) + " log streams in "@ + group + ": "@ + first,
        error_message(GcErrorView::LogGroupsFailed(n)) == "Failed to process "@ + decimal::decimal(n)
            + " log group(s); see warnings above"@,
        error_message(GcErrorView::Other(first)) == first,
{
}

/// The message of a refused timestamp says whether it is negative or beyond the calendar, and what
/// it is.
pub proof fn law_messages_tell_the_timestamp(t: i64)
    ensures
        timestamp_message(TimestampError::Negative(t)) == "Invalid timestamp: "@
            + decimal::signed_decimal(t as int),
        timestamp_message(TimestampError::OutOfRange(t)) == "Failed to parse timestamp: "@
            + decimal::signed_decimal(t as int),
{
}

} // verus!
