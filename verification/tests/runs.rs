use log_stream_gc::batch::{Batch, BatchAction, BatchEvent};
use log_stream_gc::decimal::{append_decimal, append_signed_decimal};
use log_stream_gc::error::GcError;
use log_stream_gc::logs::LogGroup;
use log_stream_gc::run::{sum_up_run, GcRun, RunAction, RunEvent};
use log_stream_gc::tally::Tally;
use log_stream_gc::Config;

fn group(name: &str, retention: Option<i32>) -> LogGroup {
    LogGroup { log_group_name: Some(name.to_string()), retention_in_days: retention }
}

fn page(names: &[&str]) -> RunEvent {
    RunEvent::Page(Some(names.iter().map(|n| group(n, Some(1))).collect()))
}

fn spawned(action: RunAction) -> Vec<LogGroup> {
    match action {
        RunAction::Spawn(batch) => batch,
        other => panic!("{other:?}"),
    }
}

fn batch_names(action: RunAction) -> Vec<String> {
    spawned(action).into_iter().map(|g| g.log_group_name.unwrap()).collect()
}

fn limited(concurrency_limit: usize) -> GcRun {
    GcRun::begin(Config { concurrency_limit, ..Config::default() })
}

fn take(run: &mut GcRun, tally: &mut Tally, event: RunEvent) -> RunAction {
    assert!(run.accepts(&event));
    run.step(tally, event)
}

#[test]
fn run_without_groups_ends_well() {
    let mut tally = Tally::new();
    let mut run = limited(1);
    let action = take(&mut run, &mut tally, RunEvent::NoMorePages);
    assert!(matches!(action, RunAction::Finish(Ok(()))));
    assert!(!run.accepts(&RunEvent::NoMorePages));
    assert!(!run.accepts(&RunEvent::Joined(true)));
    assert!(!run.accepts(&RunEvent::Spawned));
    assert_eq!(tally, Tally::new());
}

#[test]
fn pages_without_processed_groups_begin_no_batch() {
    let mut tally = Tally::new();
    let mut run = limited(1);
    let skipped = RunEvent::Page(Some(vec![group("a", None), group("b", Some(0))]));
    assert!(matches!(take(&mut run, &mut tally, skipped), RunAction::DescribePage));
    assert!(matches!(take(&mut run, &mut tally, RunEvent::Page(None)), RunAction::DescribePage));
    assert_eq!(run.page_count(), 2);
    assert_eq!(run.total_log_groups(), 0);
    assert_eq!(run.in_flight(), 0);
}

#[test]
fn run_waits_when_the_limit_is_reached() {
    let mut tally = Tally::new();
    let mut run = limited(2);
    assert_eq!(run.config().concurrency_limit, 2);
    let action = take(&mut run, &mut tally, page(&["a", "b"]));
    assert_eq!(batch_names(action), vec!["a", "b"]);
    assert!(matches!(take(&mut run, &mut tally, RunEvent::Spawned), RunAction::DescribePage));
    let action = take(&mut run, &mut tally, page(&["c"]));
    assert_eq!(batch_names(action), vec!["c"]);
    assert!(matches!(take(&mut run, &mut tally, RunEvent::Spawned), RunAction::JoinAny));
    assert_eq!(run.in_flight(), 2);
    assert!(!run.accepts(&RunEvent::NoMorePages));
    assert!(matches!(take(&mut run, &mut tally, RunEvent::Joined(true)), RunAction::DescribePage));
    assert_eq!(run.in_flight(), 1);
    assert!(matches!(take(&mut run, &mut tally, RunEvent::NoMorePages), RunAction::JoinNext));
    let action = take(&mut run, &mut tally, RunEvent::Joined(true));
    assert!(matches!(action, RunAction::Finish(Ok(()))));
    assert_eq!(run.in_flight(), 0);
    assert_eq!(run.page_count(), 2);
    assert_eq!(run.total_log_groups(), 3);
}

#[test]
fn limit_of_zero_allows_one_batch() {
    let mut tally = Tally::new();
    let mut run = limited(0);
    assert_eq!(run.config().concurrency_limit, 1);
    take(&mut run, &mut tally, page(&["a"]));
    assert!(matches!(take(&mut run, &mut tally, RunEvent::Spawned), RunAction::JoinAny));
}

#[test]
fn remaining_batches_are_waited_for_one_by_one() {
    let mut tally = Tally::new();
    let mut run = limited(10);
    for name in ["a", "b", "c"] {
        take(&mut run, &mut tally, page(&[name]));
        take(&mut run, &mut tally, RunEvent::Spawned);
    }
    assert!(matches!(take(&mut run, &mut tally, RunEvent::NoMorePages), RunAction::JoinNext));
    assert!(matches!(take(&mut run, &mut tally, RunEvent::Joined(true)), RunAction::JoinNext));
    assert!(matches!(take(&mut run, &mut tally, RunEvent::Joined(false)), RunAction::JoinNext));
    match take(&mut run, &mut tally, RunEvent::Joined(true)) {
        RunAction::Finish(Err(e)) => {
            assert_eq!(e.message(), "Failed to process 1 log group(s); see warnings above")
        }
        other => panic!("{other:?}"),
    }
    assert_eq!(tally.failed_groups, 1);
}

#[test]
fn failures_of_groups_and_of_batches_add_up() {
    let mut tally = Tally::new();
    let mut run = limited(1);
    take(&mut run, &mut tally, page(&["a", "b"]));
    take(&mut run, &mut tally, RunEvent::Spawned);
    tally.group_finished(&Err(GcError::MissingGroupName));
    tally.group_finished(&Ok(()));
    let action = take(&mut run, &mut tally, RunEvent::Joined(false));
    assert!(matches!(action, RunAction::DescribePage));
    match take(&mut run, &mut tally, RunEvent::NoMorePages) {
        RunAction::Finish(Err(e)) => {
            assert!(matches!(e, GcError::LogGroupsFailed(2)));
            assert_eq!(e.message(), "Failed to process 2 log group(s); see warnings above");
        }
        other => panic!("{other:?}"),
    }
}

#[test]
fn interleaved_failures_are_counted_once_each() {
    let mut tally = Tally::new();
    let mut run = limited(2);
    let mut first = Batch::new(spawned(take(&mut run, &mut tally, page(&["a", "b"]))));
    take(&mut run, &mut tally, RunEvent::Spawned);
    first.step(&mut tally, BatchEvent::Begun);
    let mut second = Batch::new(spawned(take(&mut run, &mut tally, page(&["c"]))));
    let action = take(&mut run, &mut tally, RunEvent::Spawned);
    assert!(matches!(action, RunAction::JoinAny));
    second.step(&mut tally, BatchEvent::Begun);
    first.step(&mut tally, BatchEvent::GroupEnded(Err(GcError::MissingGroupName)));
    let failed = BatchEvent::GroupEnded(Err(GcError::MissingGroupName));
    assert!(matches!(second.step(&mut tally, failed), BatchAction::Finish));
    take(&mut run, &mut tally, RunEvent::Joined(true));
    take(&mut run, &mut tally, RunEvent::NoMorePages);
    match take(&mut run, &mut tally, RunEvent::Joined(false)) {
        RunAction::Finish(Err(e)) => assert!(matches!(e, GcError::LogGroupsFailed(3))),
        other => panic!("{other:?}"),
    }
    assert_eq!(tally.failed_groups, 3);
}

#[test]
fn want_of_a_page_ends_the_run() {
    let mut tally = Tally::new();
    let mut run = limited(5);
    take(&mut run, &mut tally, page(&["a"]));
    take(&mut run, &mut tally, RunEvent::Spawned);
    match take(&mut run, &mut tally, RunEvent::PageFailed) {
        RunAction::Finish(Err(e)) => assert_eq!(e.message(), "Failed to describe log groups"),
        other => panic!("{other:?}"),
    }
    assert_eq!(run.in_flight(), 1);
    assert!(!run.accepts(&RunEvent::PageFailed));
}

#[test]
fn every_processed_group_is_handed_out_once() {
    let mut tally = Tally::new();
    let mut run = limited(3);
    let pages: [&[&str]; 4] = [&["a", "b"], &[], &["c"], &["d", "e", "f"]];
    let mut handed_out: Vec<String> = Vec::new();
    for names in pages {
        let mut action = take(&mut run, &mut tally, page(names));
        if matches!(action, RunAction::Spawn(_)) {
            handed_out.extend(batch_names(action));
            action = take(&mut run, &mut tally, RunEvent::Spawned);
        }
        assert!(run.in_flight() <= 3);
        if matches!(action, RunAction::JoinAny) {
            take(&mut run, &mut tally, RunEvent::Joined(true));
        }
    }
    assert_eq!(handed_out, vec!["a", "b", "c", "d", "e", "f"]);
    assert_eq!(run.total_log_groups(), 6);
}

#[test]
fn run_without_failures_ends_well() {
    assert!(sum_up_run(0).is_ok());
    assert_eq!(
        sum_up_run(12).unwrap_err().message(),
        "Failed to process 12 log group(s); see warnings above"
    );
}

#[test]
fn counters_count_and_wrap_around() {
    let mut tally = Tally::new();
    assert_eq!(tally.stream_processed(), 1);
    assert_eq!(tally.stream_processed(), 2);
    assert_eq!(tally.group_begun(), 1);
    tally.streams_listed(5);
    tally.streams_listed(0);
    tally.group_failed();
    assert_eq!(
        tally,
        Tally { processed_streams: 2, total_streams: 5, processed_groups: 1, failed_groups: 1 }
    );
    tally.streams_listed(usize::MAX);
    assert_eq!(tally.total_streams, 4);
    tally.processed_streams = usize::MAX;
    assert_eq!(tally.stream_processed(), 0);
}

#[test]
fn numbers_are_written_in_decimal() {
    for n in [0, 1, 9, 10, 99, 100, 1234567890, u64::MAX] {
        let mut text = "n=".to_string();
        append_decimal(&mut text, n);
        assert_eq!(text, format!("n={n}"));
    }
    for n in [0, -1, 10, -10, i64::MAX, i64::MIN] {
        let mut text = String::new();
        append_signed_decimal(&mut text, n);
        assert_eq!(text, n.to_string());
    }
}

#[test]
fn every_failed_group_is_counted() {
    let mut tally = Tally::new();
    let outcomes = [Ok(()), Err(GcError::MissingGroupName), Ok(()), Err(GcError::NoSuchSpan(1))];
    for outcome in &outcomes {
        tally.group_finished(outcome);
    }
    assert_eq!(tally, Tally { failed_groups: 2, ..Tally::new() });
}
