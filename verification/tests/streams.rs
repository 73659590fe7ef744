use log_stream_gc::date::{parse_timestamp, Date, TimestampError};
use log_stream_gc::error::GcError;
use log_stream_gc::logs::LogStream;
use log_stream_gc::stream::{finish_log_stream, gc_log_stream, DeleteRequest, ExaminedStream, StreamAction};

/// 2024-01-01T00:00:00Z
const NEW_YEAR: i64 = 1_704_067_200_000;

fn cutoff() -> Date {
    parse_timestamp(NEW_YEAR).unwrap().date_naive()
}

fn stream(creation_time: i64) -> LogStream {
    LogStream { log_stream_name: Some("s".to_string()), creation_time: Some(creation_time) }
}

fn examine(dry_run: bool, log_stream: &LogStream) -> Result<ExaminedStream, GcError> {
    gc_log_stream(&cutoff(), dry_run, "g", log_stream)
}

#[test]
fn stream_before_the_cutoff_is_deleted() {
    let examined = examine(false, &stream(NEW_YEAR - 1)).unwrap();
    assert_eq!(examined.creation_date.to_string(), "2023-12-31");
    match examined.action {
        StreamAction::Delete(request) => {
            assert_eq!(request.log_group_name, "g");
            assert_eq!(request.log_stream_name, "s");
        }
        other => panic!("{other:?}"),
    }
    assert!(matches!(examine(false, &stream(0)).unwrap().action, StreamAction::Delete(_)));
}

#[test]
fn stream_of_the_cutoff_date_is_kept() {
    let examined = examine(false, &stream(NEW_YEAR)).unwrap();
    assert_eq!(examined.creation_date.to_string(), "2024-01-01");
    assert!(matches!(examined.action, StreamAction::Keep));
    let later = examine(false, &stream(NEW_YEAR + 86_400_000)).unwrap();
    assert!(matches!(later.action, StreamAction::Keep));
}

#[test]
fn dry_run_keeps_every_stream() {
    let old = examine(true, &stream(NEW_YEAR - 1)).unwrap();
    assert!(matches!(old.action, StreamAction::KeepDryRun));
    let young = examine(true, &stream(NEW_YEAR)).unwrap();
    assert!(matches!(young.action, StreamAction::Keep));
}

#[test]
fn stream_without_name_is_an_error() {
    let nameless = LogStream { log_stream_name: None, creation_time: None };
    let error = examine(false, &nameless).unwrap_err();
    assert!(matches!(error, GcError::MissingStreamName));
    assert_eq!(error.message(), "Log stream is missing a name");
}

#[test]
fn stream_without_creation_time_is_an_error() {
    let ageless = LogStream { log_stream_name: Some("s".to_string()), creation_time: None };
    let error = examine(true, &ageless).unwrap_err();
    assert!(matches!(error, GcError::MissingCreationTime(_)));
    assert_eq!(error.message(), "Log stream s is missing a creation time");
}

#[test]
fn stream_with_bad_creation_time_is_an_error() {
    let error = examine(false, &stream(-1)).unwrap_err();
    assert!(matches!(error, GcError::BadCreationTime(_, TimestampError::Negative(-1))));
    assert_eq!(error.message(), "Failed to parse creation time for log stream: s");
    let error = examine(false, &stream(i64::MAX)).unwrap_err();
    assert!(matches!(error, GcError::BadCreationTime(_, TimestampError::OutOfRange(i64::MAX))));
}

#[test]
fn what_is_older_goes_first() {
    let times = [0, 1, 1_600_000_000_000, NEW_YEAR - 1, NEW_YEAR, NEW_YEAR + 1];
    let deleted: Vec<bool> = times
        .iter()
        .map(|t| matches!(examine(false, &stream(*t)).unwrap().action, StreamAction::Delete(_)))
        .collect();
    assert_eq!(deleted, vec![true, true, true, true, false, false]);
}

#[test]
fn failed_deletion_is_an_error() {
    let request = || {
        StreamAction::Delete(DeleteRequest {
            log_group_name: "g".to_string(),
            log_stream_name: "s".to_string(),
        })
    };
    assert!(finish_log_stream(request(), true).is_ok());
    let error = finish_log_stream(request(), false).unwrap_err();
    assert_eq!(error.message(), "Failed to delete log stream: g/s");
    assert!(finish_log_stream(StreamAction::Keep, false).is_ok());
    assert!(finish_log_stream(StreamAction::KeepDryRun, false).is_ok());
}
