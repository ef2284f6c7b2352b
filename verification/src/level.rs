//! Severities of records and the thresholds that rules set for them.

use vstd::prelude::*;

verus! {

/// Severity of one record. `Error` is the most severe, `Trace` the least.
#[derive(Clone, Copy, Debug, PartialEq, Eq, Structural, PartialOrd, Ord, Hash)]
pub enum Level {
    Error,
    Warn,
    Info,
    Debug,
    Trace,
}

/// Threshold of a rule: `Off < Error < Warn < Info < Debug < Trace`.
///
/// A threshold lets a record pass when the record's severity does not lie
/// above it; `Off` lets nothing pass and `Trace` everything.
#[derive(Clone, Copy, Debug, PartialEq, Eq, Structural, PartialOrd, Ord, Hash)]
pub enum LevelFilter {
    Off,
    Error,
    Warn,
    Info,
    Debug,
    Trace,
}

impl Level {
    /// Position of the severity in the order, from 1 (`Error`) to 5 (`Trace`).
    pub open spec fn rank(self) -> int {
        match self {
            Level::Error => 1,
            Level::Warn => 2,
            Level::Info => 3,
            Level::Debug => 4,
            Level::Trace => 5,
        }
    }

    /// The position as a machine integer.
    pub fn ordinal(self) -> (n: u8)
        ensures
            n == self.rank(),
    {
        match self {
            Level::Error => 1,
            Level::Warn => 2,
            Level::Info => 3,
            Level::Debug => 4,
            Level::Trace => 5,
        }
    }

    /// The threshold that lets exactly this severity and the more severe ones pass.
    pub fn to_level_filter(self) -> (f: LevelFilter)
        ensures
            f.rank() == self.rank(),
    {
        match self {
            Level::Error => LevelFilter::Error,
            Level::Warn => LevelFilter::Warn,
            Level::Info => LevelFilter::Info,
            Level::Debug => LevelFilter::Debug,
            Level::Trace => LevelFilter::Trace,
        }
    }
}

impl LevelFilter {
    /// Position of the threshold in the order, from 0 (`Off`) to 5 (`Trace`).
    pub open spec fn rank(self) -> int {
        match self {
            LevelFilter::Off => 0,
            LevelFilter::Error => 1,
            LevelFilter::Warn => 2,
            LevelFilter::Info => 3,
            LevelFilter::Debug => 4,
            LevelFilter::Trace => 5,
        }
    }

    /// Whether a record of severity `level` passes this threshold.
    pub open spec fn admits(self, level: Level) -> bool {
        level.rank() <= self.rank()
    }

    /// The canonical lower-case name of the threshold.
    pub open spec fn name(self) -> Seq<char> {
        match self {
            LevelFilter::Off => "off"@,
            LevelFilter::Error => "error"@,
            LevelFilter::Warn => "warn"@,
            LevelFilter::Info => "info"@,
            LevelFilter::Debug => "debug"@,
            LevelFilter::Trace => "trace"@,
        }
    }

    /// The position as a machine integer.
    pub fn ordinal(self) -> (n: u8)
        ensures
            n == self.rank(),
    {
        match self {
            LevelFilter::Off => 0,
            LevelFilter::Error => 1,
            LevelFilter::Warn => 2,
            LevelFilter::Info => 3,
            LevelFilter::Debug => 4,
            LevelFilter::Trace => 5,
        }
    }

    /// The most verbose threshold.
    pub fn max() -> (f: LevelFilter)
        ensures
            f == LevelFilter::Trace,
            forall|g: LevelFilter| g.rank() <= f.rank(),
    {
        LevelFilter::Trace
    }

    /// Decides whether a record of severity `level` passes this threshold.
    pub fn enables(self, level: Level) -> (b: bool)
        ensures
            b == self.admits(level),
    {
        level.ordinal() <= self.ordinal()
    }

    /// The more verbose of two thresholds.
    pub fn most_verbose(self, other: LevelFilter) -> (f: LevelFilter)
        ensures
            f == if self.rank() >= other.rank() { self } else { other },
    {
        if self.ordinal() >= other.ordinal() {
            self
        } else {
            other
        }
    }

    /// The canonical lower-case name, as it is written in a specification file.
    pub fn as_str(self) -> (s: &'static str)
        ensures
            s@ == self.name(),
    {
        match self {
            LevelFilter::Off => "off",
            LevelFilter::Error => "error",
            LevelFilter::Warn => "warn",
            LevelFilter::Info => "info",
            LevelFilter::Debug => "debug",
            LevelFilter::Trace => "trace",
        }
    }
}

/// Calls `log::set_max_level`, which stores the threshold in the `log` crate's
/// process-wide marker: the `log` macros drop records above it before they reach
/// any logger. Nothing is returned, and the contract claims nothing.
#[verifier::external_body]
pub(crate) fn publish_max_level(level: LevelFilter) {
    log::set_max_level(
        match level {
            LevelFilter::Off => log::LevelFilter::Off,
            LevelFilter::Error => log::LevelFilter::Error,
            LevelFilter::Warn => log::LevelFilter::Warn,
            LevelFilter::Info => log::LevelFilter::Info,
            LevelFilter::Debug => log::LevelFilter::Debug,
            LevelFilter::Trace => log::LevelFilter::Trace,
        },
    );
}

} // verus!
