use log_stream_gc::batch::{Batch, BatchAction, BatchEvent};
use log_stream_gc::error::GcError;
use log_stream_gc::permits::{DeletionEvent, DeletionPermits};
use log_stream_gc::group::{plan_log_group, GroupAction, GroupEvent, GroupPass};
use log_stream_gc::date::parse_timestamp;
use log_stream_gc::logs::{LogGroup, LogStream};
use log_stream_gc::run::{GcRun, RunAction, RunEvent};
use log_stream_gc::stream::{finish_log_stream, gc_log_stream, StreamAction};
use log_stream_gc::sweep::{Sweep, SweepEvent};
use log_stream_gc::tally::Tally;
use log_stream_gc::Config;

fn group(name: &str) -> LogGroup {
    LogGroup { log_group_name: Some(name.to_string()), retention_in_days: Some(7) }
}

fn asked(action: BatchAction) -> (usize, String) {
    match action {
        BatchAction::Process(number, group) => (number, group.log_group_name.unwrap()),
        other => panic!("{other:?}"),
    }
}

#[test]
fn batch_goes_on_after_a_failure() {
    let mut tally = Tally::new();
    let mut batch = Batch::new(vec![group("a"), group("b"), group("c")]);
    assert!(!batch.accepts(&BatchEvent::GroupEnded(Ok(()))));
    assert!(batch.accepts(&BatchEvent::Begun));
    assert_eq!(asked(batch.step(&mut tally, BatchEvent::Begun)), (1, "a".to_string()));
    assert!(!batch.accepts(&BatchEvent::Begun));
    let failed = BatchEvent::GroupEnded(Err(GcError::NoSuchSpan(0)));
    assert!(batch.accepts(&failed));
    assert_eq!(asked(batch.step(&mut tally, failed)), (2, "b".to_string()));
    assert_eq!(tally.failed_groups, 1);
    let ended = BatchEvent::GroupEnded(Ok(()));
    assert_eq!(asked(batch.step(&mut tally, ended)), (3, "c".to_string()));
    let failed = BatchEvent::GroupEnded(Err(GcError::MissingGroupName));
    assert!(matches!(batch.step(&mut tally, failed), BatchAction::Finish));
    assert!(!batch.accepts(&BatchEvent::GroupEnded(Ok(()))));
    assert_eq!(tally, Tally { processed_groups: 3, failed_groups: 2, ..Tally::new() });
}

#[test]
fn empty_batch_is_finished_at_once() {
    let mut tally = Tally::new();
    let mut batch = Batch::new(Vec::new());
    assert!(matches!(batch.step(&mut tally, BatchEvent::Begun), BatchAction::Finish));
    assert_eq!(tally, Tally::new());
}

#[test]
fn as_many_deletions_are_permitted_as_the_limit_says() {
    let mut permits = DeletionPermits::new(&Config { concurrency_limit: 2, ..Config::default() });
    assert_eq!(permits.limit(), 2);
    assert!(!permits.accepts(&DeletionEvent::Ended));
    permits.step(DeletionEvent::Sent);
    assert!(permits.accepts(&DeletionEvent::Sent));
    permits.step(DeletionEvent::Sent);
    assert!(!permits.accepts(&DeletionEvent::Sent));
    assert!(permits.accepts(&DeletionEvent::Ended));
    permits.step(DeletionEvent::Ended);
    assert!(permits.accepts(&DeletionEvent::Sent));
}

#[test]
fn limit_of_zero_permits_one_deletion() {
    let mut permits = DeletionPermits::new(&Config { concurrency_limit: 0, ..Config::default() });
    assert_eq!(permits.limit(), 1);
    permits.step(DeletionEvent::Sent);
    assert!(!permits.accepts(&DeletionEvent::Sent));
}

#[test]
fn as_many_log_streams_are_examined_as_the_limit_says() {
    let mut sweep = Sweep::new(&Config { concurrency_limit: 2, ..Config::default() }, 3);
    assert_eq!(sweep.limit(), 2);
    assert!(!sweep.is_over());
    assert!(!sweep.accepts(&SweepEvent::Ended));
    sweep.step(SweepEvent::Begun);
    assert!(sweep.accepts(&SweepEvent::Begun));
    sweep.step(SweepEvent::Begun);
    assert!(!sweep.accepts(&SweepEvent::Begun));
    sweep.step(SweepEvent::Ended);
    assert!(sweep.accepts(&SweepEvent::Begun));
    sweep.step(SweepEvent::Begun);
    sweep.step(SweepEvent::Ended);
    assert!(!sweep.accepts(&SweepEvent::Begun));
    assert!(!sweep.is_over());
    sweep.step(SweepEvent::Ended);
    assert!(sweep.is_over());
    assert!(!sweep.accepts(&SweepEvent::Begun));
    assert!(!sweep.accepts(&SweepEvent::Ended));
}

#[test]
fn each_examined_log_stream_has_one_deletion_in_flight_at_most() {
    let mut sweep = Sweep::new(&Config { concurrency_limit: 5, ..Config::default() }, 4);
    assert!(!sweep.accepts(&SweepEvent::Deletion(DeletionEvent::Sent)));
    sweep.step(SweepEvent::Begun);
    sweep.step(SweepEvent::Begun);
    assert!(!sweep.accepts(&SweepEvent::Deletion(DeletionEvent::Ended)));
    sweep.step(SweepEvent::Deletion(DeletionEvent::Sent));
    sweep.step(SweepEvent::Deletion(DeletionEvent::Sent));
    assert!(!sweep.accepts(&SweepEvent::Deletion(DeletionEvent::Sent)));
    assert!(!sweep.accepts(&SweepEvent::Ended));
    assert!(sweep.accepts(&SweepEvent::Begun));
    sweep.step(SweepEvent::Deletion(DeletionEvent::Ended));
    assert!(sweep.accepts(&SweepEvent::Ended));
    sweep.step(SweepEvent::Ended);
    assert!(!sweep.accepts(&SweepEvent::Ended));
}

#[test]
fn limit_of_zero_allows_one_log_stream() {
    let mut sweep = Sweep::new(&Config { concurrency_limit: 0, ..Config::default() }, 2);
    assert_eq!(sweep.limit(), 1);
    sweep.step(SweepEvent::Begun);
    assert!(!sweep.accepts(&SweepEvent::Begun));
}

#[test]
fn sweep_of_no_log_streams_is_over() {
    let sweep = Sweep::new(&Config::default(), 0);
    assert!(sweep.is_over());
    assert!(!sweep.accepts(&SweepEvent::Begun));
}

/// A run on 2024-01-31 over one page of log groups, in which the listings of log groups with a
/// name in `unlisted` fail. Gives the deletions, and the message of the run's failure.
fn run_over(
    groups: Vec<LogGroup>,
    unlisted: &[&str],
    streams: &dyn Fn(&str) -> Vec<LogStream>,
) -> (Vec<(String, String)>, Option<String>) {
    let today = parse_timestamp(1_706_659_200_000).unwrap().date_naive();
    let mut tally = Tally::new();
    let mut run = GcRun::begin(Config::default());
    let config = run.config().clone();
    let mut deletions = Vec::new();
    let spawn = run.step(&mut tally, RunEvent::Page(Some(groups)));
    if let RunAction::Spawn(groups) = spawn {
        run.step(&mut tally, RunEvent::Spawned);
        let mut batch = Batch::new(groups);
        let mut event = BatchEvent::Begun;
        while let BatchAction::Process(_, group) = batch.step(&mut tally, event) {
            let plan = plan_log_group(&group, &config, &today).unwrap();
            let name = plan.log_group_name.clone();
            let mut pass = GroupPass::begin(name.clone());
            let mut action = if unlisted.contains(&name.as_str()) {
                pass.step(&mut tally, GroupEvent::PageFailed)
            } else {
                pass.step(&mut tally, GroupEvent::Page(Some(streams(&name))));
                pass.step(&mut tally, GroupEvent::NoMorePages)
            };
            if let GroupAction::Sweep(swept) = action {
                let mut results = Vec::new();
                for stream in &swept {
                    let result = gc_log_stream(&plan.keep_from_date, false, &name, stream);
                    results.push(result.and_then(|examined| {
                        if let StreamAction::Delete(request) = &examined.action {
                            deletions.push((
                                request.log_group_name.clone(),
                                request.log_stream_name.clone(),
                            ));
                        }
                        finish_log_stream(examined.action, true)
                    }));
                }
                action = pass.step(&mut tally, GroupEvent::Swept(results));
            }
            match action {
                GroupAction::Finish(outcome) => event = BatchEvent::GroupEnded(outcome),
                other => panic!("{other:?}"),
            }
        }
    }
    let mut action = run.step(&mut tally, RunEvent::NoMorePages);
    if matches!(action, RunAction::JoinNext) {
        action = run.step(&mut tally, RunEvent::Joined(true));
    }
    match action {
        RunAction::Finish(outcome) => (deletions, outcome.err().map(|e| e.message())),
        other => panic!("{other:?}"),
    }
}

fn stream(name: &str, creation_time: i64) -> LogStream {
    LogStream { log_stream_name: Some(name.to_string()), creation_time: Some(creation_time) }
}

fn deletion(group: &str, stream: &str) -> (String, String) {
    (group.to_string(), stream.to_string())
}

#[test]
fn failed_group_takes_nothing_from_the_next() {
    let (deletions, failure) =
        run_over(vec![group("a"), group("b")], &["a"], &|_| vec![stream("s", 0)]);
    assert_eq!(deletions, vec![deletion("b", "s")]);
    assert_eq!(
        failure.unwrap(),
        "Failed to process 1 log group(s); see warnings above"
    );
}

#[test]
fn run_requests_exactly_what_is_due() {
    // 2024-01-17 is two retention periods before 2024-01-31.
    let cutoff: i64 = 1_705_449_600_000;
    let endless = LogGroup { log_group_name: Some("c".to_string()), retention_in_days: None };
    let (deletions, failure) = run_over(vec![group("a"), endless, group("b")], &[], &|_| {
        vec![stream("old", cutoff - 1), stream("young", cutoff), stream("oldest", 0)]
    });
    assert_eq!(
        deletions,
        vec![
            deletion("a", "old"),
            deletion("a", "oldest"),
            deletion("b", "old"),
            deletion("b", "oldest"),
        ]
    );
    assert_eq!(failure, None);
}

#[test]
fn second_run_deletes_nothing() {
    let cutoff: i64 = 1_705_449_600_000;
    let all = || vec![stream("old", cutoff - 1), stream("young", cutoff)];
    let (first, failure) = run_over(vec![group("a"), group("b")], &[], &|_| all());
    assert_eq!(first.len(), 2);
    assert_eq!(failure, None);
    let (second, failure) = run_over(vec![group("a"), group("b")], &[], &|name| {
        all()
            .into_iter()
            .filter(|s| !first.contains(&deletion(name, s.log_stream_name.as_deref().unwrap())))
            .collect()
    });
    assert_eq!(second, Vec::new());
    assert_eq!(failure, None);
}
