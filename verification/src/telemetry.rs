//! The gating policy of the debug event channel: errors and warnings always
//! reach the frontend; info, debug and trace events only while the merged
//! config's debug flag is on. The stderr log is never gated.

use vstd::prelude::*;

verus! {

/// The severity of a log event, most severe first.
#[derive(Debug, Clone, Copy, PartialEq, Eq, Structural)]
pub enum LogLevel {
    Error,
    Warn,
    Info,
    Debug,
    Trace,
}

/// The level's name on the debug channel.
pub open spec fn level_spelling(l: LogLevel) -> Seq<char> {
    match l {
        LogLevel::Error => "error"@,
        LogLevel::Warn => "warn"@,
        LogLevel::Info => "info"@,
        LogLevel::Debug => "debug"@,
        LogLevel::Trace => "trace"@,
    }
}

/// The level's name on the debug channel.
pub fn level_name(l: LogLevel) -> (r: &'static str)
    ensures
        r@ == level_spelling(l),
{
    match l {
        LogLevel::Error => "error",
        LogLevel::Warn => "warn",
        LogLevel::Info => "info",
        LogLevel::Debug => "debug",
        LogLevel::Trace => "trace",
    }
}

/// Whether an event goes to the debug channel, given the debug flag of the
/// merged config (`None` before the application is set up, when there is
/// no channel yet): errors and warnings whenever there is a channel, the
/// rest only while the debug flag is on.
pub fn forwards_to_ipc(level: LogLevel, debug_flag: Option<bool>) -> (r: bool)
    ensures
        r == (debug_flag is Some && (level is Error || level is Warn || debug_flag == Some(true))),
{
    match debug_flag {
        None => false,
        Some(debug) => match level {
            LogLevel::Error | LogLevel::Warn => true,
            _ => debug,
        },
    }
}

/// The category of an event: its `category` field, else its target.
pub fn event_category(category: Option<String>, target: &str) -> (r: String)
    ensures
        r@ == match category {
            Some(c) => c@,
            None => target@,
        },
{
    match category {
        Some(c) => c,
        None => target.to_owned(),
    }
}

} // verus!
