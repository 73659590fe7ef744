//! Log groups and log streams, and which log groups a run takes.

use crate::config::{Config, ConfigView};
use crate::pattern;
use vstd::prelude::*;

verus! {

/// What a listing says of a log group.
#[derive(Debug)]
pub struct LogGroup {
    pub log_group_name: Option<String>,
    pub retention_in_days: Option<i32>,
}

/// What a listing says of a log stream.
#[derive(Debug)]
pub struct LogStream {
    pub log_stream_name: Option<String>,
    /// In milliseconds since January 1, 1970 UTC.
    pub creation_time: Option<i64>,
}

/// Whether the name matches the include pattern; every name does where there is none.
pub open spec fn is_included(name: Seq<char>, config: ConfigView) -> bool {
    config.include_pattern matches Some(p) ==> pattern::regex_is_match(p, name)
}

/// Whether the name matches the exclude pattern; no name does where there is none.
pub open spec fn is_excluded(name: Seq<char>, config: ConfigView) -> bool {
    config.exclude_pattern matches Some(p) && pattern::regex_is_match(p, name)
}

/// Whether a run processes the log group: it has a name and a positive retention period, is
/// included, and is not excluded.
pub open spec fn is_processed(group: LogGroup, config: ConfigView) -> bool {
    &&& group.log_group_name matches Some(name)
    &&& group.retention_in_days matches Some(days)
    &&& days > 0
    &&& is_included(name@, config)
    &&& !is_excluded(name@, config)
}

/// Whether a log group with these answers to the patterns is processed.
pub fn passes_filter(group: &LogGroup, include_match: bool, exclude_match: bool) -> (passes: bool)
    ensures
        passes == {
            &&& group.log_group_name is Some
            &&& group.retention_in_days matches Some(days)
            &&& days > 0
            &&& include_match
            &&& !exclude_match
        },
{
    if group.log_group_name.is_none() {
        return false;
    }
    // Without a positive retention period there is no cutoff date to compute.
    match group.retention_in_days {
        Some(days) => days > 0 && include_match && !exclude_match,
        None => false,
    }
}

/// Whether a run with these settings processes the log group.
pub fn should_process_log_group(group: &LogGroup, config: &Config) -> (process: bool)
    ensures
        process == is_processed(*group, config@),
{
    let name: &str = match &group.log_group_name {
        Some(name) => name.as_str(),
        None => {
            return false;
        },
    };
    if !passes_filter(group, true, false) {
        return false;
    }
    let include_match: bool = match &config.include_pattern {
        Some(p) => p.is_match(name),
        None => true,
    };
    if !include_match {
        return false;
    }
    let exclude_match: bool = match &config.exclude_pattern {
        Some(p) => p.is_match(name),
        None => false,
    };
    passes_filter(group, include_match, exclude_match)
}

/// The log groups of a page that the run processes, in their order.
pub open spec fn processed_groups(groups: Seq<LogGroup>, config: ConfigView) -> Seq<LogGroup> {
    groups.filter(|g: LogGroup| is_processed(g, config))
}

/// Keeps the log groups that the run processes.
pub fn retain_processed(groups: Vec<LogGroup>, config: &Config) -> (kept: Vec<LogGroup>)
    ensures
        kept@ == processed_groups(groups@, config@),
{
    let ghost all = groups@;
    let ghost pred = |g: LogGroup| is_processed(g, config@);
    let mut kept: Vec<LogGroup> = Vec::new();
    proof {
        reveal(Seq::filter);
        assert(all.take(0).filter(pred) =~= Seq::<LogGroup>::empty());
    }
    for group in it: groups
        invariant
            it.seq() == all,
            pred == (|g: LogGroup| is_processed(g, config@)),
            kept@ == all.take(it.index()).filter(pred),
    {
        proof {
            reveal(Seq::filter);
            assert(all.take(it.index() + 1).drop_last() =~= all.take(it.index()));
        }
        if should_process_log_group(&group, config) {
            kept.push(group);
        }
    }
    proof {
        assert(all.take(all.len() as int) =~= all);
    }
    kept
}

/// With an include pattern, a log group whose name does not match it is not processed, whatever
/// its retention period.
pub proof fn law_include_pattern_is_asked_for(group: LogGroup, config: ConfigView)
    requires
        group.log_group_name is Some,
        config.include_pattern is Some,
        !pattern::regex_is_match(config.include_pattern->0, group.log_group_name->0@),
    ensures
        !is_processed(group, config),
{
}

/// With an exclude pattern, a log group whose name matches it is not processed, whatever its
/// retention period, and whether or not it matches an include pattern.
pub proof fn law_exclude_pattern_keeps_out(group: LogGroup, config: ConfigView)
    requires
        group.log_group_name is Some,
        config.exclude_pattern is Some,
        pattern::regex_is_match(config.exclude_pattern->0, group.log_group_name->0@),
    ensures
        !is_processed(group, config),
{
}

/// A log group without a name, or without a retention period of one day or more, is not processed.
pub proof fn law_name_and_retention_are_asked_for(group: LogGroup, config: ConfigView)
    requires
        group.log_group_name is None || group.retention_in_days is None
            || group.retention_in_days->0 <= 0,
    ensures
        !is_processed(group, config),
{
}

/// A log group with a name and a retention period of one day or more is processed if its name
/// matches the include pattern, where there is one, and not the exclude pattern, where there is
/// one. Nothing else matters.
pub proof fn law_what_is_not_kept_out_is_processed(group: LogGroup, config: ConfigView)
    requires
        group.log_group_name is Some,
        group.retention_in_days is Some,
        group.retention_in_days->0 >= 1,
        config.include_pattern is None || pattern::regex_is_match(
            config.include_pattern->0,
            group.log_group_name->0@,
        ),
        config.exclude_pattern is None || !pattern::regex_is_match(
            config.exclude_pattern->0,
            group.log_group_name->0@,
        ),
    ensures
        is_processed(group, config),
{
}

/// The answer on a log group, in terms of the settings as they were given.
pub proof fn law_answer_on_a_log_group(group: LogGroup, config: Config, process: bool)
    requires
        call_ensures(should_process_log_group, (&group, &config), process),
    ensures
        process <==> {
            &&& group.log_group_name matches Some(name)
            &&& group.retention_in_days matches Some(days)
            &&& days > 0
            &&& config.include_pattern matches Some(p) ==> pattern::regex_is_match(p@, name@)
            &&& config.exclude_pattern matches Some(p) ==> !pattern::regex_is_match(p@, name@)
        },
{
}

/// Each log group is chosen by itself: the choice from two listings, one after the other, is the
/// choice from the first and then that from the second, and a single log group is chosen exactly
/// if it is to be processed.
pub proof fn law_log_groups_are_chosen_one_by_one(
    first: Seq<LogGroup>,
    second: Seq<LogGroup>,
    group: LogGroup,
    config: ConfigView,
)
    ensures
        processed_groups(first + second, config) == processed_groups(first, config)
            + processed_groups(second, config),
        is_processed(group, config) ==> processed_groups(seq![group], config) == seq![group],
        !is_processed(group, config) ==> processed_groups(seq![group], config).len() == 0,
        processed_groups(Seq::empty(), config).len() == 0,
{
    Seq::filter_distributes_over_add(first, second, |g: LogGroup| is_processed(g, config));
    reveal(Seq::filter);
    let alone = seq![group];
    assert(alone.drop_last() =~= Seq::<LogGroup>::empty());
    assert(Seq::<LogGroup>::empty().push(group) =~= alone);
    reveal_with_fuel(Seq::filter, 3);
}

} // verus!
