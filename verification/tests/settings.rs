use log_stream_gc::args::{parse_non_zero_usize, require_non_zero, require_positive};
use log_stream_gc::config::{DELETE_MAX_ATTEMPTS, RETRY_MAX_ATTEMPTS};
use log_stream_gc::multiplier::Multiplier;
use log_stream_gc::pattern::parse_regex;
use log_stream_gc::{Config, APP_NAME};

#[test]
fn defaults() {
    let config = Config::default();
    assert_eq!(config.concurrency_limit, 10);
    assert_eq!(config.progress_threshold, 500);
    assert_eq!(config.progress_interval, 100);
    assert_eq!(f64::from_bits(config.retention_multiplier.bits), 2.0);
    assert_eq!(config.batch_size, 50);
    assert!(config.include_pattern.is_none());
    assert!(config.exclude_pattern.is_none());
    assert_eq!(APP_NAME, "log_stream_gc");
    assert_eq!(RETRY_MAX_ATTEMPTS, 10);
    assert_eq!(DELETE_MAX_ATTEMPTS, 5);
}

#[test]
fn clamping_makes_room_for_one_task() {
    let config = Config { concurrency_limit: 0, batch_size: 7, ..Config::default() }.clamped();
    assert_eq!(config.concurrency_limit, 1);
    assert_eq!(config.batch_size, 7);
    let config = Config { concurrency_limit: 1, ..Config::default() }.clamped();
    assert_eq!(config.concurrency_limit, 1);
    let config = Config { concurrency_limit: usize::MAX, ..Config::default() }.clamped();
    assert_eq!(config.concurrency_limit, usize::MAX);
}

#[test]
fn page_limit_is_between_one_and_fifty() {
    let limit = |batch_size: usize| Config { batch_size, ..Config::default() }.page_limit();
    assert_eq!(limit(0), 1);
    assert_eq!(limit(1), 1);
    assert_eq!(limit(2), 2);
    assert_eq!(limit(49), 49);
    assert_eq!(limit(50), 50);
    assert_eq!(limit(51), 50);
    assert_eq!(limit(usize::MAX), 50);
}

#[test]
fn clone_keeps_every_setting() {
    let config = Config {
        concurrency_limit: 3,
        progress_threshold: 4,
        progress_interval: 5,
        retention_multiplier: Multiplier { bits: 1.5f64.to_bits() },
        batch_size: 6,
        include_pattern: Some(parse_regex("a").unwrap()),
        exclude_pattern: Some(parse_regex("b").unwrap()),
    };
    let copy = config.clone();
    assert_eq!(copy.concurrency_limit, 3);
    assert_eq!(copy.progress_threshold, 4);
    assert_eq!(copy.progress_interval, 5);
    assert_eq!(copy.retention_multiplier, config.retention_multiplier);
    assert_eq!(copy.batch_size, 6);
    assert_eq!(copy.include_pattern.unwrap().as_str(), "a");
    assert_eq!(copy.exclude_pattern.unwrap().as_str(), "b");
}

#[test]
fn numbers_greater_than_zero_are_read() {
    assert_eq!(parse_non_zero_usize("1"), Ok(1));
    assert_eq!(parse_non_zero_usize("+10"), Ok(10));
    assert_eq!(parse_non_zero_usize("0050"), Ok(50));
    assert_eq!(parse_non_zero_usize(&usize::MAX.to_string()), Ok(usize::MAX));
}

#[test]
fn zero_is_refused() {
    let refused: Result<usize, String> = Err("must be greater than 0".to_string());
    assert_eq!(parse_non_zero_usize("0"), refused);
    assert_eq!(parse_non_zero_usize("+0"), refused);
    assert_eq!(parse_non_zero_usize("000"), refused);
    assert_eq!(require_non_zero(Ok(0)), refused);
    assert_eq!(require_non_zero(Ok(3)), Ok(3));
    assert_eq!(require_non_zero(Err("x".to_string())), Err("x".to_string()));
}

#[test]
fn what_is_no_number_is_refused() {
    let too_large = format!("{}0", usize::MAX);
    for text in ["", "+", "-", "-1", "-0", " 1", "1 ", "1_000", "1.5", "x", "++1", too_large.as_str()] {
        let message = text.parse::<usize>().unwrap_err().to_string();
        assert_eq!(parse_non_zero_usize(text), Err(message));
    }
    assert_eq!(
        parse_non_zero_usize(""),
        Err("cannot parse integer from empty string".to_string())
    );
}

#[test]
fn multipliers_of_zero_or_less_are_refused() {
    for value in [0.0, -0.0, -1.0, -f64::MIN_POSITIVE, f64::NEG_INFINITY] {
        let refused = require_positive(Multiplier { bits: f64::to_bits(value) });
        assert_eq!(refused, Err("must be greater than 0".to_string()));
    }
    for value in [2.0, 0.5, 5e-324, f64::MAX, f64::INFINITY, f64::NAN, -f64::NAN] {
        let multiplier = Multiplier { bits: f64::to_bits(value) };
        assert_eq!(require_positive(multiplier), Ok(multiplier));
    }
}
