//! How much is logged: from the number of `-q` and `-v` on the command
//! line to a level.

use vstd::prelude::*;

verus! {

/// The severity of a log message, from the gravest to the slightest.
#[derive(Clone, Copy, Debug, PartialEq, Eq, Structural)]
pub enum Level {
    Error,
    Warn,
    Info,
    Debug,
    Trace,
}

/// Which messages are logged: none, or those up to a severity.
#[derive(Clone, Copy, Debug, PartialEq, Eq, Structural)]
pub enum LevelFilter {
    Off,
    Error,
    Warn,
    Info,
    Debug,
    Trace,
}

/// The number of a level: `-1` for none, then `0` for errors up to `4`
/// for traces.
pub open spec fn level_value_spec(level: Option<Level>) -> int {
    match level {
        None => -1,
        Some(Level::Error) => 0,
        Some(Level::Warn) => 1,
        Some(Level::Info) => 2,
        Some(Level::Debug) => 3,
        Some(Level::Trace) => 4,
    }
}

/// The level of a number: none below `0`, traces from `4` on.
pub open spec fn level_enum_spec(verbosity: int) -> Option<Level> {
    if verbosity < 0 {
        None
    } else if verbosity == 0 {
        Some(Level::Error)
    } else if verbosity == 1 {
        Some(Level::Warn)
    } else if verbosity == 2 {
        Some(Level::Info)
    } else if verbosity == 3 {
        Some(Level::Debug)
    } else {
        Some(Level::Trace)
    }
}

/// The filter that lets through the messages up to a level.
pub open spec fn filter_of(level: Option<Level>) -> LevelFilter {
    match level {
        None => LevelFilter::Off,
        Some(Level::Error) => LevelFilter::Error,
        Some(Level::Warn) => LevelFilter::Warn,
        Some(Level::Info) => LevelFilter::Info,
        Some(Level::Debug) => LevelFilter::Debug,
        Some(Level::Trace) => LevelFilter::Trace,
    }
}

/// The level of a number.
pub fn level_enum(verbosity: i8) -> (r: Option<Level>)
    ensures
        r == level_enum_spec(verbosity as int),
{
    if verbosity < 0 {
        None
    } else if verbosity == 0 {
        Some(Level::Error)
    } else if verbosity == 1 {
        Some(Level::Warn)
    } else if verbosity == 2 {
        Some(Level::Info)
    } else if verbosity == 3 {
        Some(Level::Debug)
    } else {
        Some(Level::Trace)
    }
}

/// The filter for a number.
pub fn log_level_filter(verbosity: i8) -> (r: LevelFilter)
    ensures
        r == filter_of(level_enum_spec(verbosity as int)),
{
    match level_enum(verbosity) {
        None => LevelFilter::Off,
        Some(Level::Error) => LevelFilter::Error,
        Some(Level::Warn) => LevelFilter::Warn,
        Some(Level::Info) => LevelFilter::Info,
        Some(Level::Debug) => LevelFilter::Debug,
        Some(Level::Trace) => LevelFilter::Trace,
    }
}

/// The number of a level.
pub fn level_value(level: Option<Level>) -> (r: i8)
    ensures
        r == level_value_spec(level),
{
    match level {
        None => -1,
        Some(Level::Error) => 0,
        Some(Level::Warn) => 1,
        Some(Level::Info) => 2,
        Some(Level::Debug) => 3,
        Some(Level::Trace) => 4,
    }
}

/// The number of the level to log at: that of the default level, lowered
/// once for each `-q` and raised once for each `-v`.
pub fn set_verbosity(default: Option<Level>, quiet: i8, verbose: i8) -> (r: i8)
    requires
        -128 <= level_value_spec(default) - quiet <= 127,
        -128 <= level_value_spec(default) - quiet + verbose <= 127,
    ensures
        r == level_value_spec(default) - quiet + verbose,
{
    level_value(default) - quiet + verbose
}

} // verus!
