//! Settings of a run.

use crate::multiplier::Multiplier;
use crate::pattern::Pattern;
use vstd::prelude::*;

verus! {

/// The most log groups that one page of the listing can hold.
pub const MAX_PAGE_LIMIT: usize = 50;

/// How often a request is sent at most, when it is throttled or fails for a while.
pub const RETRY_MAX_ATTEMPTS: u32 = 10;

/// How often the deletion of a log stream is sent at most.
pub const DELETE_MAX_ATTEMPTS: u32 = 5;

/// The bits of the number two.
pub const TWO_BITS: u64 = 0x4000_0000_0000_0000;

#[derive(Debug)]
pub struct Config {
    /// Bounds three kinds of parallelism in a run: the deletions of log streams in flight
    /// over all log groups, the log streams examined at a time within each log group, and
    /// the batches of log groups processed at a time.
    pub concurrency_limit: usize,
    /// Progress is shown for log groups with more log streams than this.
    pub progress_threshold: usize,
    /// Progress is shown once for this many log streams.
    pub progress_interval: usize,
    /// How many retention periods a log stream is kept.
    pub retention_multiplier: Multiplier,
    /// How many log groups are asked for at a time.
    pub batch_size: usize,
    /// Only log groups whose name matches are processed.
    pub include_pattern: Option<Pattern>,
    /// Log groups whose name matches are skipped.
    pub exclude_pattern: Option<Pattern>,
}

/// What an optional pattern stands for.
pub open spec fn pattern_view(pattern: Option<Pattern>) -> Option<Seq<char>> {
    match pattern {
        Some(p) => Some(p@),
        None => None,
    }
}

/// What a `Config` stands for.
#[verifier::ext_equal]
pub struct ConfigView {
    pub concurrency_limit: usize,
    pub progress_threshold: usize,
    pub progress_interval: usize,
    pub retention_multiplier: Multiplier,
    pub batch_size: usize,
    pub include_pattern: Option<Seq<char>>,
    pub exclude_pattern: Option<Seq<char>>,
}

impl View for Config {
    type V = ConfigView;

    open spec fn view(&self) -> ConfigView {
        ConfigView {
            concurrency_limit: self.concurrency_limit,
            progress_threshold: self.progress_threshold,
            progress_interval: self.progress_interval,
            retention_multiplier: self.retention_multiplier,
            batch_size: self.batch_size,
            include_pattern: pattern_view(self.include_pattern),
            exclude_pattern: pattern_view(self.exclude_pattern),
        }
    }
}

/// The settings of a run that nothing was set for.
pub open spec fn default_config() -> ConfigView {
    ConfigView {
        concurrency_limit: 10,
        progress_threshold: 500,
        progress_interval: 100,
        retention_multiplier: Multiplier { bits: TWO_BITS },
        batch_size: 50,
        include_pattern: None,
        exclude_pattern: None,
    }
}

impl Default for Config {
    fn default() -> (config: Self)
        ensures
            config@ == default_config(),
    {
        Config {
            concurrency_limit: 10,
            progress_threshold: 500,
            progress_interval: 100,
            retention_multiplier: Multiplier { bits: TWO_BITS },
            batch_size: 50,
            include_pattern: None,
            exclude_pattern: None,
        }
    }
}

fn clone_pattern(pattern: &Option<Pattern>) -> (copy: Option<Pattern>)
    ensures
        pattern_view(copy) == pattern_view(*pattern),
{
    match pattern {
        Some(p) => Some(p.clone()),
        None => None,
    }
}

impl Clone for Config {
    fn clone(&self) -> (copy: Self)
        ensures
            copy@ == self@,
    {
        Config {
            concurrency_limit: self.concurrency_limit,
            progress_threshold: self.progress_threshold,
            progress_interval: self.progress_interval,
            retention_multiplier: self.retention_multiplier,
            batch_size: self.batch_size,
            include_pattern: clone_pattern(&self.include_pattern),
            exclude_pattern: clone_pattern(&self.exclude_pattern),
        }
    }
}

/// The settings with room for at least one task.
pub open spec fn clamped_config(config: ConfigView) -> ConfigView {
    ConfigView {
        concurrency_limit: if config.concurrency_limit == 0 {
            1
        } else {
            config.concurrency_limit
        },
        ..config
    }
}

/// How many log groups to ask for at a time: the batch size, held between one and what a
/// page can hold.
pub open spec fn page_limit_of(config: ConfigView) -> int {
    if config.batch_size < 1 {
        1
    } else if config.batch_size > MAX_PAGE_LIMIT {
        MAX_PAGE_LIMIT as int
    } else {
        config.batch_size as int
    }
}

impl Config {
    /// Makes room for at least one task, so that every use of the limit agrees.
    pub fn clamped(self) -> (config: Config)
        ensures
            config@ == clamped_config(self@),
    {
        Config {
            concurrency_limit: if self.concurrency_limit < 1 {
                1
            } else {
                self.concurrency_limit
            },
            ..self
        }
    }

    /// How many log groups to ask for at a time.
    pub fn page_limit(&self) -> (limit: i32)
        ensures
            limit == page_limit_of(self@),
            1 <= limit <= MAX_PAGE_LIMIT,
    {
        if self.batch_size < 1 {
            1
        } else if self.batch_size > MAX_PAGE_LIMIT {
            MAX_PAGE_LIMIT as i32
        } else {
            self.batch_size as i32
        }
    }
}

/// What settings stand for is what was set.
pub proof fn law_settings_stand_for_themselves(config: Config)
    ensures
        config@.concurrency_limit == config.concurrency_limit,
        config@.progress_threshold == config.progress_threshold,
        config@.progress_interval == config.progress_interval,
        config@.retention_multiplier == config.retention_multiplier,
        config@.batch_size == config.batch_size,
        config.include_pattern is None <==> config@.include_pattern is None,
        config.include_pattern matches Some(p) ==> config@.include_pattern == Some(p@),
        config.exclude_pattern is None <==> config@.exclude_pattern is None,
        config.exclude_pattern matches Some(p) ==> config@.exclude_pattern == Some(p@),
{
}

/// The settings of a run where nothing was set: ten tasks at a time, progress after every hundred
/// of more than five hundred log streams, pages of fifty log groups, and no patterns.
pub proof fn law_default_settings()
    ensures
        default_config().concurrency_limit == 10,
        default_config().progress_threshold == 500,
        default_config().progress_interval == 100,
        default_config().batch_size == 50,
        default_config().include_pattern is None,
        default_config().exclude_pattern is None,
{
}

/// Making room for a task raises a limit of zero to one, and changes nothing else.
pub proof fn law_clamping_changes_the_limit_only(config: ConfigView)
    ensures
        clamped_config(config).concurrency_limit == vstd::math::max(
            1,
            config.concurrency_limit as int,
        ),
        clamped_config(config).progress_threshold == config.progress_threshold,
        clamped_config(config).progress_interval == config.progress_interval,
        clamped_config(config).retention_multiplier == config.retention_multiplier,
        clamped_config(config).batch_size == config.batch_size,
        clamped_config(config).include_pattern == config.include_pattern,
        clamped_config(config).exclude_pattern == config.exclude_pattern,
{
}

/// Of the numbers of log groups that a page can hold, one to fifty, the one nearest to the batch
/// size is asked for.
pub proof fn law_page_limit_is_nearest_to_the_batch_size(config: ConfigView, n: int)
    requires
        1 <= n <= 50,
    ensures
        1 <= page_limit_of(config) <= 50,
        vstd::math::abs(page_limit_of(config) - config.batch_size) <= vstd::math::abs(
            n - config.batch_size,
        ),
{
}

} // verus!
