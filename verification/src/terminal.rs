//! Which log messages show at a verbosity, and how they are labelled.

use vstd::prelude::*;
use crate::bridge::{title_case, to_title_case};

verus! {

/// The level of a log message.
#[derive(Debug, Clone, Copy, PartialEq, Eq)]
pub enum LogLevel {
    Error,
    Info,
    Success,
    Debug,
}

/// The verbosity that a message of this level needs to exceed.
pub open spec fn threshold_spec(level: LogLevel) -> u64 {
    match level {
        LogLevel::Error => 0,
        LogLevel::Info => 1,
        LogLevel::Success => 2,
        LogLevel::Debug => 3,
    }
}

impl LogLevel {
    /// The verbosity that a message of this level needs to exceed.
    pub fn threshold(&self) -> (r: u64)
        ensures
            r == threshold_spec(*self),
    {
        match self {
            LogLevel::Error => 0,
            LogLevel::Info => 1,
            LogLevel::Success => 2,
            LogLevel::Debug => 3,
        }
    }

    /// The name of the level.
    pub fn name(&self) -> (r: &'static str)
        ensures
            *self == LogLevel::Error ==> r@ == "error"@,
            *self == LogLevel::Info ==> r@ == "info"@,
            *self == LogLevel::Success ==> r@ == "success"@,
            *self == LogLevel::Debug ==> r@ == "debug"@,
    {
        match self {
            LogLevel::Error => "error",
            LogLevel::Info => "info",
            LogLevel::Success => "success",
            LogLevel::Debug => "debug",
        }
    }

    /// The label of the level that the messages show: its name in title case.
    pub fn label(&self) -> (r: String)
        ensures
            *self == LogLevel::Error ==> r@ == title_case("error"@),
            *self == LogLevel::Info ==> r@ == title_case("info"@),
            *self == LogLevel::Success ==> r@ == title_case("success"@),
            *self == LogLevel::Debug ==> r@ == title_case("debug"@),
    {
        to_title_case(self.name())
    }
}

/// A message of `level` shows at `verbosity` when the verbosity exceeds the
/// level's threshold.
pub fn log_enabled(verbosity: u64, level: LogLevel) -> (b: bool)
    ensures
        b == (verbosity > threshold_spec(level)),
{
    verbosity > level.threshold()
}

/// The verbosity in effect: the number of `-v` flags, or the configured one
/// where there are none.
pub fn effective_verbosity(occurrences: u64, configured: u64) -> (r: u64)
    ensures
        r == if occurrences == 0 {
            configured
        } else {
            occurrences
        },
{
    if occurrences == 0 {
        configured
    } else {
        occurrences
    }
}

/// A command's error that has already been reported to the user.
pub fn is_reported_error(message: &str) -> (b: bool)
    ensures
        b == (message@ == "NoEpisodesFound"@ || message@ == "NoSearchResults"@),
{
    crate::text::str_eq(message, "NoEpisodesFound") || crate::text::str_eq(message, "NoSearchResults")
}

} // verus!
