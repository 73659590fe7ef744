use log_stream_gc::logs::{passes_filter, retain_processed, should_process_log_group, LogGroup};
use log_stream_gc::pattern::{parse_regex, Pattern};
use log_stream_gc::Config;

fn make_log_group(name: &str, retention: Option<i32>) -> LogGroup {
    LogGroup { log_group_name: Some(name.to_string()), retention_in_days: retention }
}

fn regex(text: &str) -> Option<Pattern> {
    Some(parse_regex(text).unwrap())
}

#[test]
fn filter_skips_log_group_without_retention() {
    let group = make_log_group("foo", None);
    assert!(!should_process_log_group(&group, &Config::default()));
}

#[test]
fn filter_skips_log_group_with_zero_retention() {
    let group = make_log_group("foo", Some(0));
    assert!(!should_process_log_group(&group, &Config::default()));
}

#[test]
fn filter_skips_log_group_with_negative_retention() {
    let group = make_log_group("foo", Some(-1));
    assert!(!should_process_log_group(&group, &Config::default()));
}

#[test]
fn filter_keeps_log_group_with_positive_retention() {
    let group = make_log_group("foo", Some(7));
    assert!(should_process_log_group(&group, &Config::default()));
}

#[test]
fn filter_applies_include_pattern() {
    let group = make_log_group("/aws/lambda/foo", Some(7));

    let config = Config { include_pattern: regex(r"^/aws/lambda/"), ..Config::default() };
    assert!(should_process_log_group(&group, &config));

    let config = Config { include_pattern: regex(r"^/aws/ecs/"), ..Config::default() };
    assert!(!should_process_log_group(&group, &config));
}

#[test]
fn filter_applies_exclude_pattern() {
    let group = make_log_group("/aws/lambda/foo", Some(7));

    let config = Config { exclude_pattern: regex(r"^/aws/lambda/"), ..Config::default() };
    assert!(!should_process_log_group(&group, &config));
}

#[test]
fn filter_exclude_overrides_include() {
    let group = make_log_group("/aws/lambda/foo", Some(7));

    let config = Config {
        include_pattern: regex(r"^/aws/"),
        exclude_pattern: regex(r"foo$"),
        ..Config::default()
    };
    assert!(!should_process_log_group(&group, &config));
}

#[test]
fn filter_skips_log_group_without_name() {
    let group = LogGroup { log_group_name: None, retention_in_days: Some(7) };
    assert!(!should_process_log_group(&group, &Config::default()));
}

#[test]
fn filter_keeps_what_an_exclude_pattern_does_not_match() {
    let group = make_log_group("/aws/lambda/foo", Some(7));
    let config = Config { exclude_pattern: regex(r"^/aws/ecs/"), ..Config::default() };
    assert!(should_process_log_group(&group, &config));
}

#[test]
fn filter_takes_the_answers_of_the_patterns() {
    let group = make_log_group("foo", Some(1));
    assert!(passes_filter(&group, true, false));
    assert!(!passes_filter(&group, false, false));
    assert!(!passes_filter(&group, true, true));
    assert!(!passes_filter(&make_log_group("foo", Some(0)), true, false));
    assert!(!passes_filter(&make_log_group("foo", None), true, false));
    let nameless = LogGroup { log_group_name: None, retention_in_days: Some(1) };
    assert!(!passes_filter(&nameless, true, false));
}

#[test]
fn filter_keeps_the_order_of_a_page() {
    let page = vec![
        make_log_group("c", Some(1)),
        make_log_group("skipped", None),
        make_log_group("a", Some(3)),
        LogGroup { log_group_name: None, retention_in_days: Some(1) },
        make_log_group("b", Some(2)),
        make_log_group("a", Some(3)),
    ];
    let kept: Vec<String> = retain_processed(page, &Config::default())
        .into_iter()
        .map(|g| g.log_group_name.unwrap())
        .collect();
    assert_eq!(kept, vec!["c", "a", "b", "a"]);
    assert!(retain_processed(Vec::new(), &Config::default()).is_empty());
}

#[test]
fn pattern_is_searched_anywhere() {
    let pattern = parse_regex("lambda/f.o").unwrap();
    assert!(pattern.is_match("/aws/lambda/foo/bar"));
    assert!(!pattern.is_match("/aws/lambda/fo"));
    assert_eq!(pattern.as_str(), "lambda/f.o");
    assert!(pattern.clone().is_match("lambda/fao"));
    assert!(parse_regex("").unwrap().is_match(""));
}

#[test]
fn pattern_that_is_none_is_refused_with_a_message() {
    let message = parse_regex("(").unwrap_err();
    assert_eq!(message, regex::Regex::new("(").unwrap_err().to_string());
    assert!(message.contains("unclosed group"));
    assert!(parse_regex("[a-").is_err());
}

#[test]
fn patterns_only_narrow() {
    let open = Config::default();
    let narrow = Config {
        include_pattern: regex("a"),
        exclude_pattern: regex("b"),
        ..Config::default()
    };
    for name in ["a", "b", "ab", "c", ""] {
        let group = make_log_group(name, Some(1));
        assert!(should_process_log_group(&group, &open));
        assert_eq!(should_process_log_group(&group, &narrow), name == "a");
    }
}
