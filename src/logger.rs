//! The level of console logging that the flags select.
use vstd::prelude::*;

verus! {

#[derive(Debug, Clone, Copy, PartialEq, Eq, Structural)]
pub enum Level {
    Warn,
    Info,
    Debug,
}

pub struct LoggerFlags {
    pub verbose: bool,
    pub debug: bool,
}

/// The level to log at: debug output when asked for, warnings when verbose,
/// else informational messages.
pub fn init(flags: LoggerFlags) -> (r: Level)
    ensures
        flags.debug ==> r == Level::Debug,
        !flags.debug && flags.verbose ==> r == Level::Warn,
        !flags.debug && !flags.verbose ==> r == Level::Info,
{
    if flags.debug {
        Level::Debug
    } else if flags.verbose {
        Level::Warn
    } else {
        Level::Info
    }
}

/// Whether a message of level `msg` shows when logging at `level`.
pub fn enabled(level: Level, msg: Level) -> (r: bool)
    ensures
        r == (rank(msg) <= rank(level)),
{
    level_rank(msg) <= level_rank(level)
}

pub open spec fn rank(l: Level) -> int {
    match l {
        Level::Warn => 2,
        Level::Info => 3,
        Level::Debug => 4,
    }
}

fn level_rank(l: Level) -> (r: u8)
    ensures
        r == rank(l),
{
    match l {
        Level::Warn => 2,
        Level::Info => 3,
        Level::Debug => 4,
    }
}

} // verus!
