//! Log levels and the level-filtering core of the structured logger. The
//! writing of log lines is I/O and lives with the caller; the library only
//! decides what passes the threshold.

use vstd::prelude::*;

verus! {

/// Severity levels, least severe first.
#[derive(Clone, Copy, PartialEq, Eq, Structural, Debug)]
pub enum LogLevel {
    Trace,
    Debug,
    Info,
    Warn,
    Error,
}

/// The numeric rank of a level.
pub open spec fn severity_spec(l: LogLevel) -> int {
    match l {
        LogLevel::Trace => 0,
        LogLevel::Debug => 1,
        LogLevel::Info => 2,
        LogLevel::Warn => 3,
        LogLevel::Error => 4,
    }
}

impl LogLevel {
    /// The level's conventional upper-case name.
    pub fn name(&self) -> (s: &'static str)
        ensures
            self is Trace ==> s@ == "TRACE"@,
            self is Debug ==> s@ == "DEBUG"@,
            self is Info ==> s@ == "INFO"@,
            self is Warn ==> s@ == "WARN"@,
            self is Error ==> s@ == "ERROR"@,
    {
        match self {
            LogLevel::Trace => "TRACE",
            LogLevel::Debug => "DEBUG",
            LogLevel::Info => "INFO",
            LogLevel::Warn => "WARN",
            LogLevel::Error => "ERROR",
        }
    }

    /// The level's numeric rank.
    pub fn severity(&self) -> (r: u32)
        ensures
            r as int == severity_spec(*self),
    {
        match self {
            LogLevel::Trace => 0,
            LogLevel::Debug => 1,
            LogLevel::Info => 2,
            LogLevel::Warn => 3,
            LogLevel::Error => 4,
        }
    }
}

/// The filtering core of a structured logger: it holds a threshold and
/// decides which entries pass.
pub struct JsonLogger {
    pub min_level: LogLevel,
}

impl JsonLogger {
    /// A logger that passes entries at or above `min_level`.
    pub fn new(min_level: LogLevel) -> (r: JsonLogger)
        ensures
            r.min_level == min_level,
    {
        JsonLogger { min_level }
    }

    /// Whether an entry at `level` passes the threshold.
    pub fn should_log(&self, level: LogLevel) -> (r: bool)
        ensures
            r <==> severity_spec(level) >= severity_spec(self.min_level),
    {
        level.severity() >= self.min_level.severity()
    }
}

} // verus!
