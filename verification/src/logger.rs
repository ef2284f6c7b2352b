//! The settings that are fixed before logging starts, and what starting does
//! with them.

use crate::flexi_error::FlexiLoggerError;
use crate::level::LevelFilter;
use crate::log_specification::{max_level_of, LogSpecification, SpecView};
use crate::parser::is_parse_of;
use crate::primary_writer::{PrimaryWriter, Strategy};
use crate::store::{SpecificationStore, StoreView};
use crate::text::texts;
use vstd::prelude::*;

verus! {

/// Where the records go.
#[derive(Clone, Copy, Debug, PartialEq, Eq, Structural)]
pub enum LogTarget {
    StdErr,
    File,
    DevNull,
}

/// Which records are written to the error stream in addition to the log file.
#[derive(Clone, Copy, Debug, PartialEq, Eq, Structural)]
pub enum Duplicate {
    /// No messages are duplicated.
    Never,
    /// Only error messages are duplicated.
    Error,
    /// Error and warn messages are duplicated.
    Warn,
    /// Error, warn, and info messages are duplicated.
    Info,
    /// Error, warn, info, and debug messages are duplicated.
    Debug,
    /// All messages are duplicated.
    Trace,
    /// All messages are duplicated.
    All,
}

/// What happens to older log files when the log file is rotated.
#[derive(Clone, Copy, Debug, PartialEq, Eq, Structural)]
pub enum Cleanup {
    /// Older log files are not touched: they remain for ever.
    Never,
    /// The given number of rotated log files is kept; older files are deleted.
    KeepLogFiles(usize),
}

/// The settings of a logger that is not yet started: the specification, the
/// diagnostics from reading it, where records go, which of them go to the
/// error stream as well, and the writers that are registered beside the log
/// file, each under a name of its own and in the order of registration.
#[derive(Debug)]
pub struct Logger {
    spec: LogSpecification,
    parse_errs: Option<Vec<String>>,
    log_target: LogTarget,
    duplicate: Duplicate,
    writers: Vec<(String, LevelFilter)>,
}

/// The mathematical content of a `Logger`. Of each registered writer it holds
/// the name and the most verbose severity that the writer is interested in.
pub struct LoggerView {
    pub spec: SpecView,
    pub parse_errs: Option<Seq<Seq<char>>>,
    pub log_target: LogTarget,
    pub duplicate: Duplicate,
    pub writers: Seq<(Seq<char>, LevelFilter)>,
}

/// The registered writers with their names as texts.
pub open spec fn writers_of(writers: Seq<(String, LevelFilter)>) -> Seq<(Seq<char>, LevelFilter)> {
    writers.map_values(|w: (String, LevelFilter)| (w.0@, w.1))
}

/// Index of the writer that is registered under `name`, or `writers.len()` if
/// there is none.
pub open spec fn registration_of(writers: Seq<(Seq<char>, LevelFilter)>, name: Seq<char>) -> int
    decreases writers.len(),
{
    if writers.len() == 0 || writers[0].0 == name {
        0
    } else {
        1 + registration_of(writers.drop_first(), name)
    }
}

/// The registered writers after one more registration: a new name goes to the
/// end, and a name that is registered already keeps its place and gets the new
/// writer.
pub open spec fn registered(
    writers: Seq<(Seq<char>, LevelFilter)>,
    name: Seq<char>,
    interest: LevelFilter,
) -> Seq<(Seq<char>, LevelFilter)> {
    let i = registration_of(writers, name);
    if i < writers.len() {
        writers.update(i, (name, interest))
    } else {
        writers.push((name, interest))
    }
}

/// The most verbose severities of interest of the registered writers, in the
/// order of registration.
pub open spec fn interests_of(writers: Seq<(Seq<char>, LevelFilter)>) -> Seq<LevelFilter> {
    writers.map_values(|w: (Seq<char>, LevelFilter)| w.1)
}

/// The names of the registered writers, in the order of registration.
pub open spec fn names_of(writers: Seq<(Seq<char>, LevelFilter)>) -> Seq<Seq<char>> {
    writers.map_values(|w: (Seq<char>, LevelFilter)| w.0)
}

/// What `registration_of` finds: no writer before it has the name, and it has
/// the name unless the writers ran out.
pub proof fn lemma_registration_of(writers: Seq<(Seq<char>, LevelFilter)>, name: Seq<char>)
    ensures
        0 <= registration_of(writers, name) <= writers.len(),
        forall|k: int| 0 <= k < registration_of(writers, name) ==> writers[k].0 != name,
        registration_of(writers, name) < writers.len() ==> writers[registration_of(
            writers,
            name,
        )].0 == name,
    decreases writers.len(),
{
    if writers.len() == 0 || writers[0].0 == name {
    } else {
        let rest = writers.drop_first();
        lemma_registration_of(rest, name);
        assert forall|k: int| 0 <= k < registration_of(writers, name) implies writers[k].0
            != name by {
            if k > 0 {
                assert(writers[k] == rest[k - 1]);
            }
        }
        if registration_of(writers, name) < writers.len() {
            assert(writers[registration_of(writers, name)] == rest[registration_of(rest, name)]);
        }
    }
}

impl View for Logger {
    type V = LoggerView;

    closed spec fn view(&self) -> LoggerView {
        LoggerView {
            spec: self.spec@,
            parse_errs: match self.parse_errs {
                Some(errs) => Some(texts(errs@)),
                None => None,
            },
            log_target: self.log_target,
            duplicate: self.duplicate,
            writers: writers_of(self.writers@),
        }
    }
}

/// What a logger takes from the result of reading a specification: the
/// specification itself, or, where the text had flaws, what could still be read
/// together with the diagnostics. Any other error leaves nothing enabled.
pub open spec fn taken_from(r: Result<LogSpecification, FlexiLoggerError>) -> (SpecView, Option<
    Seq<Seq<char>>,
>) {
    match r {
        Ok(spec) => (spec@, None),
        Err(FlexiLoggerError::Parse(errs, spec)) => (spec@, Some(texts(errs@))),
        Err(_) => (SpecView { rules: Seq::empty(), text_filter: None }, None),
    }
}

/// The strategy that a log target stands for. `writers` lists, for the writer
/// of the log file and for the registered writers, the most verbose severity of
/// interest.
pub open spec fn strategy_for(
    log_target: LogTarget,
    duplicate: Duplicate,
    writers: Seq<LevelFilter>,
) -> Strategy {
    match log_target {
        LogTarget::File => Strategy::Multi(duplicate, writers),
        LogTarget::StdErr => Strategy::StdErr,
        LogTarget::DevNull => Strategy::Discard(duplicate),
    }
}

impl Logger {
    /// A logger with the given specification, which writes to the error stream.
    pub fn with(logspec: LogSpecification) -> (logger: Logger)
        ensures
            logger@ == (LoggerView {
                spec: logspec@,
                parse_errs: None,
                log_target: LogTarget::StdErr,
                duplicate: Duplicate::Never,
                writers: Seq::empty(),
            }),
    {
        Logger::from_spec_and_errs(logspec, None)
    }

    /// A logger whose specification is read from `s`. Flaws in `s` do not stop
    /// it; `check_parser_error` tells of them.
    pub fn with_str(s: &str) -> (logger: Logger)
        ensures
            exists|r: Result<LogSpecification, FlexiLoggerError>|
                is_parse_of(r, s@) && logger@.spec == taken_from(r).0 && logger@.parse_errs
                    == taken_from(r).1,
            logger@.log_target == LogTarget::StdErr,
            logger@.duplicate == Duplicate::Never,
            logger@.writers == Seq::<(Seq<char>, LevelFilter)>::empty(),
    {
        Logger::from_result(LogSpecification::parse(s))
    }

    /// A logger whose specification is what the environment asks for:
    /// `rust_log` is the value of the variable `RUST_LOG`, if it is set.
    pub fn with_env(rust_log: Option<&str>) -> (logger: Logger)
        ensures
            match rust_log {
                Some(s) => exists|r: Result<LogSpecification, FlexiLoggerError>|
                    is_parse_of(r, s@) && logger@.spec == taken_from(r).0 && logger@.parse_errs
                        == taken_from(r).1,
                None => logger@.spec.rules.len() == 0 && logger@.spec.text_filter is None
                    && logger@.parse_errs is None,
            },
            logger@.log_target == LogTarget::StdErr,
            logger@.duplicate == Duplicate::Never,
            logger@.writers == Seq::<(Seq<char>, LevelFilter)>::empty(),
    {
        Logger::from_result(LogSpecification::env(rust_log))
    }

    /// A logger whose specification is what the environment asks for, or else what
    /// `s` describes: `rust_log` is the value of the variable `RUST_LOG`, if it
    /// is set.
    pub fn with_env_or_str(rust_log: Option<&str>, s: &str) -> (logger: Logger)
        ensures
            exists|r: Result<LogSpecification, FlexiLoggerError>|
                is_parse_of(
                    r,
                    match rust_log {
                        Some(e) => e@,
                        None => s@,
                    },
                ) && logger@.spec == taken_from(r).0 && logger@.parse_errs == taken_from(r).1,
            logger@.log_target == LogTarget::StdErr,
            logger@.duplicate == Duplicate::Never,
            logger@.writers == Seq::<(Seq<char>, LevelFilter)>::empty(),
    {
        Logger::from_result(LogSpecification::env_or_parse(rust_log, s))
    }

    /// A logger with the given specification and diagnostics and with the
    /// settings that hold unless they are changed: records go to the error
    /// stream, and nothing is duplicated.
    pub fn from_spec_and_errs(spec: LogSpecification, parse_errs: Option<Vec<String>>) -> (logger:
        Logger)
        ensures
            logger@ == (LoggerView {
                spec: spec@,
                parse_errs: match parse_errs {
                    Some(errs) => Some(texts(errs@)),
                    None => None,
                },
                log_target: LogTarget::StdErr,
                duplicate: Duplicate::Never,
                writers: Seq::empty(),
            }),
    {
        let logger = Logger {
            spec,
            parse_errs,
            log_target: LogTarget::StdErr,
            duplicate: Duplicate::Never,
            writers: Vec::new(),
        };
        assert(logger@.writers =~= Seq::empty());
        logger
    }

    /// A logger from the result of reading a specification. Diagnostics are
    /// kept beside the specification that could still be read.
    pub fn from_result(result: Result<LogSpecification, FlexiLoggerError>) -> (logger: Logger)
        ensures
            logger@ == (LoggerView {
                spec: taken_from(result).0,
                parse_errs: taken_from(result).1,
                log_target: LogTarget::StdErr,
                duplicate: Duplicate::Never,
                writers: Seq::empty(),
            }),
    {
        match result {
            Ok(logspec) => Logger::from_spec_and_errs(logspec, None),
            Err(e) => match e {
                FlexiLoggerError::Parse(parse_errs, logspec) => Logger::from_spec_and_errs(
                    logspec,
                    Some(parse_errs),
                ),
                _ => Logger::from_spec_and_errs(LogSpecification::off(), None),
            },
        }
    }

    /// Hands the logger back if its specification was read without flaws, and
    /// else the diagnostics with the specification that could still be read.
    pub fn check_parser_error(self) -> (r: Result<Logger, FlexiLoggerError>)
        ensures
            match self@.parse_errs {
                None => r == Ok::<Logger, FlexiLoggerError>(self),
                Some(errs) => r matches Err(FlexiLoggerError::Parse(e, s)) && texts(e@) == errs
                    && s@ == self@.spec,
            },
    {
        match self.parse_errs {
            Some(parse_errs) => Err(FlexiLoggerError::Parse(parse_errs, self.spec)),
            None => Ok(self),
        }
    }

    /// Makes the logger write to a file rather than to the error stream.
    pub fn log_to_file(self) -> (logger: Logger)
        ensures
            logger@ == (LoggerView { log_target: LogTarget::File, ..self@ }),
    {
        let mut logger = self;
        logger.log_target = LogTarget::File;
        logger
    }

    /// Makes the logger write nothing at all.
    pub fn do_not_log(self) -> (logger: Logger)
        ensures
            logger@ == (LoggerView { log_target: LogTarget::DevNull, ..self@ }),
    {
        let mut logger = self;
        logger.log_target = LogTarget::DevNull;
        logger
    }

    /// Makes the logger write the records that `dup` names to the error stream
    /// as well.
    pub fn duplicate_to_stderr(self, dup: Duplicate) -> (logger: Logger)
        ensures
            logger@ == (LoggerView { duplicate: dup, ..self@ }),
    {
        let mut logger = self;
        logger.duplicate = dup;
        logger
    }

    /// Makes the logger write to a file if `log_to_file` holds, and else to the
    /// error stream.
    pub fn o_log_to_file(self, log_to_file: bool) -> (logger: Logger)
        ensures
            logger@ == (LoggerView {
                log_target: if log_to_file {
                    LogTarget::File
                } else {
                    LogTarget::StdErr
                },
                ..self@
            }),
    {
        let mut logger = self;
        if log_to_file {
            logger.log_target = LogTarget::File;
        } else {
            logger.log_target = LogTarget::StdErr;
        }
        logger
    }

    /// Where the records go.
    pub fn log_target(&self) -> (target: LogTarget)
        ensures
            target == self@.log_target,
    {
        self.log_target
    }

    /// Which records go to the error stream as well.
    pub fn duplicate(&self) -> (duplicate: Duplicate)
        ensures
            duplicate == self@.duplicate,
    {
        self.duplicate
    }

    /// The specification of the logger.
    pub fn specification(&self) -> (spec: &LogSpecification)
        ensures
            spec@ == self@.spec,
    {
        &self.spec
    }

    /// Index of the writer that is registered under `name`, or the number of
    /// registered writers if there is none.
    fn find_writer(&self, name: &String) -> (i: usize)
        ensures
            i == registration_of(self@.writers, name@),
            i <= self.writers.len(),
    {
        let ghost writers = writers_of(self.writers@);
        let mut i: usize = 0;
        while i < self.writers.len()
            invariant
                i <= self.writers.len(),
                writers == writers_of(self.writers@),
                forall|k: int| 0 <= k < i ==> writers[k].0 != name@,
            decreases self.writers.len() - i,
        {
            assert(writers[i as int] == (self.writers@[i as int].0@, self.writers@[i as int].1));
            if self.writers[i].0 == *name {
                proof {
                    lemma_registration_of(writers, name@);
                }
                return i;
            }
            i += 1;
        }
        proof {
            lemma_registration_of(writers, name@);
        }
        i
    }

    /// Registers a writer under `name`, of which `interest` is the most verbose
    /// severity that it wants to see. A logger that writes to a file hands every
    /// record to the registered writers as well, after the log file and in the
    /// order of registration. A name stands for one writer: registering under a
    /// name again replaces the writer and keeps its place.
    pub fn add_writer(self, name: &str, interest: LevelFilter) -> (logger: Logger)
        ensures
            logger@ == (LoggerView { writers: registered(self@.writers, name@, interest), ..self@ }),
    {
        let wanted = name.to_owned();
        let i = self.find_writer(&wanted);
        let mut logger = self;
        let ghost before = writers_of(logger.writers@);
        if i < logger.writers.len() {
            logger.writers.set(i, (wanted, interest));
            assert(writers_of(logger.writers@) =~= before.update(i as int, (name@, interest)));
        } else {
            logger.writers.push((wanted, interest));
            assert(writers_of(logger.writers@) =~= before.push((name@, interest)));
        }
        logger
    }

    /// The names of the registered writers, in the order of registration.
    pub fn writer_names(&self) -> (names: Vec<String>)
        ensures
            texts(names@) == names_of(self@.writers),
    {
        let ghost writers = writers_of(self.writers@);
        let mut names: Vec<String> = Vec::new();
        let mut i: usize = 0;
        assert(texts(names@) =~= names_of(writers.take(0)));
        while i < self.writers.len()
            invariant
                i <= self.writers.len(),
                writers == writers_of(self.writers@),
                texts(names@) == names_of(writers.take(i as int)),
            decreases self.writers.len() - i,
        {
            let ghost before = texts(names@);
            let name = self.writers[i].0.clone();
            assert(writers[i as int] == (self.writers@[i as int].0@, self.writers@[i as int].1));
            names.push(name);
            assert(texts(names@) =~= before.push(name@));
            assert(names_of(writers.take(i + 1)) =~= names_of(writers.take(i as int)).push(
                writers[i as int].0,
            ));
            i += 1;
        }
        assert(writers.take(i as int) == writers);
        names
    }

    /// Prepares logging: the specification goes into a store, and the log target
    /// fixes the strategy by which records are written. A logger that writes to
    /// a file writes to the writer of the log file, of which `file_writer` is
    /// the most verbose severity of interest, and then to the registered
    /// writers.
    ///
    /// Nothing outside is touched: the store is not yet installed and has
    /// published nothing. Once the logger that decides by the store has been
    /// offered to the process, `SpecificationStore::install` takes the answer,
    /// and only a success publishes the marker. A logger that runs already is
    /// therefore left as it is.
    pub fn start(self, file_writer: LevelFilter) -> (started: (SpecificationStore, PrimaryWriter))
        ensures
            started.0@ == (StoreView {
                spec: self@.spec,
                marker: max_level_of(self@.spec.rules),
                installed: false,
            }),
            started.1@ == strategy_for(
                self@.log_target,
                self@.duplicate,
                seq![file_writer] + interests_of(self@.writers),
            ),
    {
        let primary_writer = match self.log_target {
            LogTarget::File => {
                let mut interests: Vec<LevelFilter> = Vec::new();
                interests.push(file_writer);
                let ghost writers = writers_of(self.writers@);
                let mut i: usize = 0;
                assert(interests@ =~= seq![file_writer] + interests_of(writers.take(0)));
                while i < self.writers.len()
                    invariant
                        i <= self.writers.len(),
                        writers == writers_of(self.writers@),
                        interests@ == seq![file_writer] + interests_of(writers.take(i as int)),
                    decreases self.writers.len() - i,
                {
                    interests.push(self.writers[i].1);
                    assert(interests@ =~= seq![file_writer] + interests_of(writers.take(i + 1)));
                    i += 1;
                }
                assert(writers.take(i as int) == writers);
                PrimaryWriter::multi(self.duplicate, interests)
            },
            LogTarget::StdErr => PrimaryWriter::stderr(),
            LogTarget::DevNull => PrimaryWriter::black_hole(self.duplicate),
        };
        (SpecificationStore::new(self.spec), primary_writer)
    }
}

} // verus!
