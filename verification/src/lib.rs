//! Garbage collection of CloudWatch log streams: which log groups a run takes, from which date
//! on the log streams of a log group are kept, which log streams are deleted, and in which
//! order a run lists, hands out and waits.
//!
//! The library decides and computes. It sends nothing: it says what is to be done, and takes
//! in what came of it.

use vstd::prelude::*;

pub mod args;
pub mod batch;
pub mod config;
pub mod date;
pub mod decimal;
pub mod error;
pub mod group;
pub mod laws;
pub mod logs;
pub mod multiplier;
pub mod pattern;
pub mod permits;
pub mod rounding;
pub mod run;
pub mod sequences;
pub mod stream;
pub mod sweep;
pub mod tally;
pub mod whole_run;

pub use crate::config::Config;

verus! {

/// The name of the program.
pub const APP_NAME: &'static str = "log_stream_gc";

} // verus!
