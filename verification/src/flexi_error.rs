//! The errors that the library reports.

use crate::log_specification::LogSpecification;
use vstd::prelude::*;

verus! {

/// What can go wrong when a specification is read.
#[derive(Debug)]
pub enum FlexiLoggerError {
    /// A severity name that is none of `off`, `error`, `warn`, `info`, `debug`,
    /// `trace`; holds the message.
    LevelFilter(String),
    /// The text of a specification had flaws. Holds one diagnostic for each flaw,
    /// in the order in which they were found, and the specification that the
    /// sound parts of the text give.
    Parse(Vec<String>, LogSpecification),
}

} // verus!
