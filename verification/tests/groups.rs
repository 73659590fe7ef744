use log_stream_gc::date::{parse_timestamp, Date, MAX_DAY, MAX_SPAN_DAYS};
use log_stream_gc::error::GcError;
use log_stream_gc::group::{
    can_plan, display_name, plan_log_group, plan_log_group_today, shows_progress, sum_up_log_group,
    GroupAction, GroupEvent, GroupPass,
};
use log_stream_gc::logs::{LogGroup, LogStream};
use log_stream_gc::multiplier::Multiplier;
use log_stream_gc::stream::{gc_log_stream, StreamAction};
use log_stream_gc::tally::Tally;
use log_stream_gc::Config;

fn group(name: &str, retention: i32) -> LogGroup {
    LogGroup { log_group_name: Some(name.to_string()), retention_in_days: Some(retention) }
}

fn times(multiplier: f64) -> Config {
    Config { retention_multiplier: Multiplier { bits: multiplier.to_bits() }, ..Config::default() }
}

fn new_year() -> Date {
    parse_timestamp(1_704_067_200_000).unwrap().date_naive()
}

fn stream(name: &str) -> LogStream {
    LogStream { log_stream_name: Some(name.to_string()), creation_time: Some(0) }
}

fn names(streams: &[LogStream]) -> Vec<String> {
    streams.iter().map(|s| s.log_stream_name.clone().unwrap()).collect()
}

#[test]
fn default_cutoff_is_two_retention_periods_back() {
    let plan = plan_log_group(&group("g", 7), &Config::default(), &new_year()).unwrap();
    assert_eq!(plan.log_group_name, "g");
    assert_eq!(plan.retention_days, 14);
    assert_eq!(plan.keep_from_date.to_string(), "2023-12-18");
}

#[test]
fn default_run_deletes_what_is_older_than_two_retention_periods() {
    let plan = plan_log_group(&group("g", 7), &Config::default(), &new_year()).unwrap();
    let examine = |creation_time: i64| {
        let s = LogStream { log_stream_name: Some("s".to_string()), creation_time: Some(creation_time) };
        gc_log_stream(&plan.keep_from_date, false, &plan.log_group_name, &s).unwrap().action
    };
    // 2023-12-18T00:00:00Z
    let limit: i64 = 1_704_067_200_000 - 14 * 86_400_000;
    assert!(matches!(examine(limit), StreamAction::Keep));
    assert!(matches!(examine(limit - 1), StreamAction::Delete(_)));
}

#[test]
fn multiplier_sets_the_cutoff() {
    let plan = plan_log_group(&group("g", 30), &times(3.0), &new_year()).unwrap();
    assert_eq!(plan.retention_days, 90);
    assert_eq!(plan.keep_from_date.to_string(), "2023-10-03");
    let plan = plan_log_group(&group("g", 7), &times(1.5), &new_year()).unwrap();
    assert_eq!(plan.retention_days, 10);
    assert_eq!(plan.keep_from_date.to_string(), "2023-12-22");
    let plan = plan_log_group(&group("g", 7), &times(f64::NAN), &new_year()).unwrap();
    assert_eq!(plan.keep_from_date, new_year());
}

#[test]
fn larger_multiplier_keeps_no_less() {
    let multipliers = [0.1, 1.0, 1.1, 2.0, 100.0];
    for pair in multipliers.windows(2) {
        let less = plan_log_group(&group("g", 7), &times(pair[0]), &new_year()).unwrap();
        let more = plan_log_group(&group("g", 7), &times(pair[1]), &new_year()).unwrap();
        assert!(!less.keep_from_date.is_before(&more.keep_from_date));
    }
}

#[test]
fn group_without_name_is_an_error() {
    let nameless = LogGroup { log_group_name: None, retention_in_days: None };
    assert!(can_plan(&nameless, &Config::default(), &new_year()));
    let error = plan_log_group(&nameless, &Config::default(), &new_year()).unwrap_err();
    assert!(matches!(error, GcError::MissingGroupName));
    assert_eq!(error.message(), "Log group is missing a name");
    assert_eq!(display_name(&nameless), "unknown");
    assert_eq!(display_name(&group("g", 1)), "g");
}

#[test]
fn span_out_of_bounds_is_an_error() {
    let config = times((MAX_SPAN_DAYS + 1) as f64);
    assert!(can_plan(&group("g", 1), &config, &new_year()));
    let error = plan_log_group(&group("g", 1), &config, &new_year()).unwrap_err();
    assert!(matches!(error, GcError::NoSuchSpan(106_751_991_168)));
    assert_eq!(error.message(), "Failed to create duration for 106751991168 days");
    let error = plan_log_group(&group("g", 1), &times(-1e300), &new_year()).unwrap_err();
    assert_eq!(
        error.message(),
        "Failed to create duration for -9223372036854775808 days"
    );
}

#[test]
fn cutoff_beyond_the_calendar_cannot_be_planned() {
    assert!(!can_plan(&group("g", 1), &times(MAX_SPAN_DAYS as f64), &new_year()));
    assert!(!can_plan(&group("g", 1), &times(-1e8), &new_year()));
    let last = Date::from_num_days_from_ce_opt(MAX_DAY).unwrap();
    assert!(!can_plan(&group("g", 1), &times(-1.0), &last));
    assert!(can_plan(&group("g", 1), &times(1.0), &last));
    let endless = LogGroup { log_group_name: Some("g".to_string()), retention_in_days: None };
    assert!(!can_plan(&endless, &Config::default(), &new_year()));
    assert!(plan_log_group_today(&endless, &Config::default()).is_none());
}

#[test]
fn plan_of_today_goes_back_from_the_current_date() {
    let before = Date::today().back(14);
    let plan = plan_log_group_today(&group("g", 7), &Config::default()).unwrap().unwrap();
    let after = Date::today().back(14);
    assert!(!plan.keep_from_date.is_before(&before));
    assert!(!after.is_before(&plan.keep_from_date));
    assert_eq!(plan.retention_days, 14);
}

#[test]
fn progress_is_shown_above_the_threshold() {
    let config = Config { progress_threshold: 5, progress_interval: 3, ..Config::default() };
    let shown: Vec<usize> = (0..10).filter(|idx| shows_progress(10, *idx, &config)).collect();
    assert_eq!(shown, vec![2, 5, 8]);
    assert!((0..5).all(|idx| !shows_progress(5, idx, &config)));
    let shown: Vec<usize> = (0..6).filter(|idx| shows_progress(6, *idx, &config)).collect();
    assert_eq!(shown, vec![2, 5]);
    let never = Config { progress_threshold: 5, progress_interval: 0, ..Config::default() };
    assert!(!shows_progress(5, 4, &never));
}

#[test]
fn group_reports_how_many_streams_failed_and_the_first() {
    let results = vec![
        Ok(()),
        Err(GcError::MissingCreationTime("a".to_string())),
        Ok(()),
        Err(GcError::MissingStreamName),
    ];
    let error = sum_up_log_group("g", results).unwrap_err();
    assert!(matches!(error, GcError::LogStreamsFailed(2, _, _)));
    assert_eq!(
        error.message(),
        "Failed to process 2 log streams in g: Log stream a is missing a creation time"
    );
    assert!(sum_up_log_group("g", vec![Ok(()), Ok(())]).is_ok());
    assert!(sum_up_log_group("g", Vec::new()).is_ok());
    let other = sum_up_log_group("g", vec![Err(GcError::Other("semaphore closed".to_string()))]);
    assert_eq!(
        other.unwrap_err().message(),
        "Failed to process 1 log streams in g: semaphore closed"
    );
}

#[test]
fn pass_sweeps_the_streams_of_all_pages() {
    let mut tally = Tally::new();
    let mut pass = GroupPass::begin("g".to_string());
    let pages = vec![
        Some(vec![stream("a"), stream("b")]),
        None,
        Some(Vec::new()),
        Some(vec![stream("c")]),
    ];
    for page in pages {
        let event = GroupEvent::Page(page);
        assert!(pass.accepts(&event));
        assert!(matches!(pass.step(&mut tally, event), GroupAction::DescribePage));
        assert_eq!(tally.total_streams, 0);
    }
    assert!(!pass.accepts(&GroupEvent::Swept(Vec::new())));
    match pass.step(&mut tally, GroupEvent::NoMorePages) {
        GroupAction::Sweep(streams) => assert_eq!(names(&streams), vec!["a", "b", "c"]),
        other => panic!("{other:?}"),
    }
    assert_eq!(tally.total_streams, 3);
    assert!(!pass.accepts(&GroupEvent::NoMorePages));
    assert!(!pass.accepts(&GroupEvent::Swept(Vec::new())));
    assert!(!pass.accepts(&GroupEvent::Swept(vec![Ok(()), Ok(())])));
    let results = vec![Ok(()), Err(GcError::MissingStreamName), Ok(())];
    match pass.step(&mut tally, GroupEvent::Swept(results)) {
        GroupAction::Finish(Err(e)) => assert_eq!(
            e.message(),
            "Failed to process 1 log streams in g: Log stream is missing a name"
        ),
        other => panic!("{other:?}"),
    }
    assert!(!pass.accepts(&GroupEvent::NoMorePages));
    assert!(!pass.accepts(&GroupEvent::Swept(Vec::new())));
}

#[test]
fn pass_without_streams_ends_well() {
    let mut tally = Tally::new();
    let mut pass = GroupPass::begin("g".to_string());
    let action = pass.step(&mut tally, GroupEvent::NoMorePages);
    assert!(matches!(action, GroupAction::Finish(Ok(()))));
    assert_eq!(tally, Tally::new());
}

#[test]
fn pass_without_a_page_fails() {
    let mut tally = Tally::new();
    let mut pass = GroupPass::begin("g".to_string());
    pass.step(&mut tally, GroupEvent::Page(Some(vec![stream("a")])));
    match pass.step(&mut tally, GroupEvent::PageFailed) {
        GroupAction::Finish(Err(e)) => {
            assert_eq!(e.message(), "Failed to describe log streams for log group: g")
        }
        other => panic!("{other:?}"),
    }
    assert_eq!(tally, Tally::new());
    assert!(!pass.accepts(&GroupEvent::PageFailed));
}

#[test]
fn pass_ends_well_if_every_stream_does() {
    let mut tally = Tally::new();
    let mut pass = GroupPass::begin("g".to_string());
    pass.step(&mut tally, GroupEvent::Page(Some(vec![stream("a")])));
    pass.step(&mut tally, GroupEvent::NoMorePages);
    let action = pass.step(&mut tally, GroupEvent::Swept(vec![Ok(())]));
    assert!(matches!(action, GroupAction::Finish(Ok(()))));
}

#[test]
fn default_cutoff_is_in_the_calendar_for_long_retention() {
    let epoch = parse_timestamp(0).unwrap().date_naive();
    assert!(can_plan(&group("g", 3653), &Config::default(), &epoch));
    assert!(can_plan(&group("g", 48_232_646), &Config::default(), &epoch));
    assert!(!can_plan(&group("g", 48_232_647), &Config::default(), &epoch));
}

#[test]
fn what_is_kept_was_kept() {
    let created = LogStream {
        log_stream_name: Some("s".to_string()),
        creation_time: Some(1_704_067_200_000),
    };
    let kept_on = |today: Date| {
        let plan = plan_log_group(&group("g", 1), &Config::default(), &today).unwrap();
        let examined = gc_log_stream(&plan.keep_from_date, false, "g", &created).unwrap();
        matches!(examined.action, StreamAction::Keep)
    };
    let kept: Vec<bool> = (0..5).map(|later| kept_on(new_year().back(-later))).collect();
    assert_eq!(kept, vec![true, true, true, false, false]);
}

#[test]
fn plan_of_today_reaches_back_from_1970_at_least() {
    let longest = group("g", 48_232_646);
    let plan = plan_log_group_today(&longest, &Config::default()).unwrap().unwrap();
    assert_eq!(plan.retention_days, 96_465_292);
    let epoch = parse_timestamp(0).unwrap().date_naive();
    assert!(!Date::today().is_before(&epoch));
}
