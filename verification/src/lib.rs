//! The deciding core of a logger.
//!
//! For every record that a program emits, the core decides whether the record
//! is relevant, under a specification that can be replaced while the program
//! runs, and it plans how a relevant record reaches the sinks:
//!
//! - `log_specification` holds the rules and the decision whether a record is
//!   enabled; `parser` reads a specification from its textual form, `specfile`
//!   reads and writes its persisted form, and `builder` assembles one rule by
//!   rule. `round_trip` shows that what is written to a file can be read back.
//! - `store` holds the active specification and replaces it as a whole.
//! - `primary_writer` plans the writes for a record, `scratch` stages the line
//!   of a record and keeps lines whole when rendering one record emits another,
//!   and `logger` collects the settings that are fixed before logging starts.
//!
//! The core reads and writes no file or stream. The program around it reads
//! files and the environment, renders records, and carries out the planned
//! writes. The one thing that the core tells the world outside is the most
//! verbose threshold of the active rules, which it publishes to the `log` crate
//! once the logger is installed and whenever the active specification changes
//! after that.

pub mod builder;
pub mod flexi_error;
pub mod level;
pub mod log_specification;
pub mod logger;
pub mod parser;
pub mod primary_writer;
pub mod round_trip;
pub mod scratch;
pub mod specfile;
pub mod store;
pub mod text;
pub mod text_filter;

pub use crate::builder::LogSpecBuilder;
pub use crate::flexi_error::FlexiLoggerError;
pub use crate::level::{Level, LevelFilter};
pub use crate::log_specification::{LogSpecification, ModuleFilter};
pub use crate::logger::{Cleanup, Duplicate, LogTarget, Logger};
pub use crate::primary_writer::{
    BlackHoleWriter, FlushStep, MultiWriter, OnFailure, PrimaryWriter, StdErrWriter, StdOutWriter,
    Stream, WriteStep,
};
pub use crate::scratch::{write_buffered, Fragment, Rendering, ScratchBuffer, Staging};
pub use crate::specfile::{LogSpecFileFormat, SpecfileAction};
pub use crate::store::{SpecificationStore, StoreView, WatchEvent, WatchReaction};
pub use crate::text_filter::TextFilter;
