//! Leveled logging: the filtering rule and the line format are
//! verified; the clock and the standard-error stream are trusted.

use vstd::prelude::*;
use std::io::Write;
use vstd::string::StringExecFns;
use crate::strutil::dec_str;
use crate::strutil::u64_string;
use crate::style::{Color, spec_ansi};

verus! {

/// Log levels, from highest priority to lowest.
#[derive(Debug, Clone, Copy, PartialEq, Eq, PartialOrd, Ord)]
pub enum Level {
    /// Errors: highest priority
    Error,
    /// Warnings
    Warn,
    /// Informational messages
    Info,
    /// Debug chatter: lowest priority
    Debug,
}

/// The rank of a level; smaller ranks are more urgent.
pub open spec fn spec_rank(l: Level) -> int {
    match l {
        Level::Error => 0,
        Level::Warn => 1,
        Level::Info => 2,
        Level::Debug => 3,
    }
}

fn rank(l: Level) -> (r: u8)
    ensures
        r as int == spec_rank(l),
{
    match l {
        Level::Error => 0,
        Level::Warn => 1,
        Level::Info => 2,
        Level::Debug => 3,
    }
}

/// The colored level tag that begins each line.
pub open spec fn spec_level_tag(l: Level) -> Seq<char> {
    match l {
        Level::Error => spec_ansi("ERROR"@, Some(Color::BrightRed), Seq::empty()),
        Level::Warn => spec_ansi("WARN "@, Some(Color::BrightYellow), Seq::empty()),
        Level::Info => spec_ansi("INFO "@, Some(Color::BrightBlue), Seq::empty()),
        Level::Debug => spec_ansi("DEBUG"@, Some(Color::BrightBlack), Seq::empty()),
    }
}

/// One log line: the timestamp in brackets, the colored tag, the
/// message, and a newline.
pub open spec fn spec_log_line(timestamp: nat, l: Level, message: Seq<char>) -> Seq<char> {
    "["@ + dec_str(timestamp) + "] "@ + spec_level_tag(l) + " "@ + message + "\n"@
}

/// A logger that writes messages at or above a maximum level to the
/// standard error stream.
#[derive(Debug)]
pub struct Logger {
    /// The least urgent level still written
    pub level: Level,
}

impl Default for Logger {
    /// A logger at the default level.
    fn default() -> (r: Self)
        ensures
            r.level == Level::Info,
    {
        Logger { level: Level::Info }
    }
}

/// Relies on std::time::SystemTime::now: the seconds since the Unix
/// epoch, or zero when the clock reads earlier than the epoch.  Nothing
/// is assumed of the value.
#[verifier::external_body]
fn now_seconds() -> u64 {
    match std::time::SystemTime::now().duration_since(std::time::UNIX_EPOCH) {
        Ok(d) => d.as_secs(),
        Err(_) => 0,
    }
}

/// Relies on std::io::Write for the standard error stream; a failed
/// write is ignored, as a logger must not fail its caller.
#[verifier::external_body]
fn write_stderr(line: &str) {
    let _ = write!(std::io::stderr(), "{}", line);
}

impl Logger {
    /// Creates a logger at the default level, `Info`.
    pub fn new() -> (r: Self)
        ensures
            r.level == Level::Info,
    {
        Logger { level: Level::Info }
    }

    /// Sets the least urgent level still written.
    pub fn level(self, level: Level) -> (r: Self)
        ensures
            r.level == level,
    {
        Logger { level }
    }

    /// Whether a message at `level` passes this logger's filter.
    pub fn writes(&self, level: Level) -> (r: bool)
        ensures
            r == (spec_rank(level) <= spec_rank(self.level)),
    {
        rank(level) <= rank(self.level)
    }

    /// One formatted log line for `level` and `message` at the given
    /// timestamp.
    pub fn format_line(level: Level, timestamp: u64, message: &str) -> (r: String)
        ensures
            r@ == spec_log_line(timestamp as nat, level, message@),
    {
        let mut out = String::from_str("[");
        let ts = u64_string(timestamp);
        out.append(ts.as_str());
        out.append("] ");
        let tag = match level {
            Level::Error => Color::BrightRed.paint("ERROR").ansi_string(),
            Level::Warn => Color::BrightYellow.paint("WARN ").ansi_string(),
            Level::Info => Color::BrightBlue.paint("INFO ").ansi_string(),
            Level::Debug => Color::BrightBlack.paint("DEBUG").ansi_string(),
        };
        out.append(tag.as_str());
        out.append(" ");
        out.append(message);
        out.append("\n");
        proof {
            assert(out@ =~= spec_log_line(timestamp as nat, level, message@));
        }
        out
    }

    /// Writes a message at the given level, when the filter passes.
    fn log(&self, level: Level, message: &str) {
        if self.writes(level) {
            let timestamp = now_seconds();
            let line = Logger::format_line(level, timestamp, message);
            write_stderr(line.as_str());
        }
    }

    /// Logs an error message.
    pub fn error(&self, message: &str) {
        self.log(Level::Error, message);
    }

    /// Logs a warning.
    pub fn warn(&self, message: &str) {
        self.log(Level::Warn, message);
    }

    /// Logs an informational message.
    pub fn info(&self, message: &str) {
        self.log(Level::Info, message);
    }

    /// Logs a debug message.
    pub fn debug(&self, message: &str) {
        self.log(Level::Debug, message);
    }
}

} // verus!
