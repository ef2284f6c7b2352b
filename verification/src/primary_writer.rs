//! The writer dispatch: which sinks a record goes to, in which order, and what
//! a failure of each of them means. One strategy is chosen at start and stays.
//!
//! The dispatch decides; it does not write. `write` and `flush` return the
//! steps to take, and the caller carries them out in order with the real
//! streams and writers.

use crate::level::{Level, LevelFilter};
use crate::logger::Duplicate;
use vstd::prelude::*;

verus! {

/// One of the two standard streams.
#[derive(Clone, Copy, Debug, PartialEq, Eq, Structural)]
pub enum Stream {
    StdErr,
    StdOut,
}

/// One step of writing a record.
#[derive(Clone, Copy, Debug, PartialEq, Eq, Structural)]
pub enum WriteStep {
    /// Render the record into the calling thread's scratch buffer, add a line
    /// end, and write the line to the stream.
    Buffered(Stream),
    /// Render the record straight to the stream and add a line end.
    Direct(Stream),
    /// Hand the record to the registered writer with this index.
    Writer(usize),
}

/// One step of flushing.
#[derive(Clone, Copy, Debug, PartialEq, Eq, Structural)]
pub enum FlushStep {
    /// Flush the registered writer with this index.
    Writer(usize),
    /// Flush the stream.
    Stream(Stream),
}

/// What the failure of a step means.
#[derive(Clone, Copy, Debug, PartialEq, Eq, Structural)]
pub enum OnFailure {
    /// The step was best effort: report the failure and go on with the next step.
    Report,
    /// The record is lost for a sink that counts: stop and return the failure
    /// to the caller.
    Return,
}

/// Whether records of severity `level` are written to the error stream as well,
/// under the given setting: `None` never, `Error` errors only, `Warn`, `Info`
/// and `Debug` that severity and the more severe ones, `Trace` and `All`
/// always.
pub open spec fn duplicates(duplicate: Duplicate, level: Level) -> bool {
    match duplicate {
        Duplicate::Never => false,
        Duplicate::Error => level == Level::Error,
        Duplicate::Warn => level.rank() <= Level::Warn.rank(),
        Duplicate::Info => level.rank() <= Level::Info.rank(),
        Duplicate::Debug => level.rank() <= Level::Debug.rank(),
        Duplicate::Trace | Duplicate::All => true,
    }
}

/// The step that duplicates a record, if it is to be duplicated.
pub open spec fn duplicate_steps(duplicate: Duplicate, level: Level, step: WriteStep) -> Seq<
    WriteStep,
> {
    if duplicates(duplicate, level) {
        seq![step]
    } else {
        Seq::empty()
    }
}

/// The steps that hand a record to the writers `0..n`, in the order of their
/// registration.
pub open spec fn writer_steps(n: int) -> Seq<WriteStep> {
    Seq::new(n as nat, |k: int| WriteStep::Writer(k as usize))
}

/// The steps that flush the writers `0..n`, in the order of their registration.
pub open spec fn writer_flushes(n: int) -> Seq<FlushStep> {
    Seq::new(n as nat, |k: int| FlushStep::Writer(k as usize))
}

/// The most verbose of the thresholds, `Off` if there is none.
pub open spec fn most_verbose_of(levels: Seq<LevelFilter>) -> LevelFilter
    decreases levels.len(),
{
    if levels.len() == 0 {
        LevelFilter::Off
    } else {
        let rest = most_verbose_of(levels.drop_last());
        if rest.rank() >= levels.last().rank() {
            rest
        } else {
            levels.last()
        }
    }
}

/// Decides whether a record of severity `level` is written to the error stream
/// as well.
pub fn is_duplicated(duplicate: &Duplicate, level: Level) -> (dupl: bool)
    ensures
        dupl == duplicates(*duplicate, level),
{
    match duplicate {
        Duplicate::Error => level.ordinal() == Level::Error.ordinal(),
        Duplicate::Warn => level.ordinal() <= Level::Warn.ordinal(),
        Duplicate::Info => level.ordinal() <= Level::Info.ordinal(),
        Duplicate::Debug => level.ordinal() <= Level::Debug.ordinal(),
        Duplicate::Trace | Duplicate::All => true,
        Duplicate::Never => false,
    }
}

/// Writes to the error stream.
#[derive(Debug)]
pub struct StdErrWriter {}

/// Writes to the output stream.
#[derive(Debug)]
pub struct StdOutWriter {}

/// Writes nowhere, but can still duplicate records to the error stream.
#[derive(Debug)]
pub struct BlackHoleWriter {
    duplicate: Duplicate,
}

/// Writes to a list of registered writers, and can duplicate records to the
/// error stream. Of each registered writer the dispatch knows the most verbose
/// severity that the writer is interested in.
#[derive(Debug)]
pub struct MultiWriter {
    duplicate: Duplicate,
    writers: Vec<LevelFilter>,
}

/// The strategy by which records are written.
#[derive(Debug)]
pub enum PrimaryWriter {
    StdOutWriter(StdOutWriter),
    StdErrWriter(StdErrWriter),
    MultiWriter(MultiWriter),
    BlackHole(BlackHoleWriter),
}

/// The mathematical content of a `PrimaryWriter`.
pub enum Strategy {
    /// Everything goes to the output stream.
    StdOut,
    /// Everything goes to the error stream.
    StdErr,
    /// Everything goes to the registered writers, of which the most verbose
    /// severities of interest are listed, and some of it to the error stream too.
    Multi(Duplicate, Seq<LevelFilter>),
    /// Nothing is written, but some of it goes to the error stream.
    Discard(Duplicate),
}

impl StdErrWriter {
    pub fn new() -> StdErrWriter {
        StdErrWriter {  }
    }

    /// A record is rendered through the scratch buffer and written to the error stream.
    pub fn write(&self) -> (steps: Vec<WriteStep>)
        ensures
            steps@ == seq![WriteStep::Buffered(Stream::StdErr)],
    {
        let mut steps: Vec<WriteStep> = Vec::new();
        steps.push(WriteStep::Buffered(Stream::StdErr));
        steps
    }

    pub fn flush(&self) -> (steps: Vec<FlushStep>)
        ensures
            steps@ == seq![FlushStep::Stream(Stream::StdErr)],
    {
        let mut steps: Vec<FlushStep> = Vec::new();
        steps.push(FlushStep::Stream(Stream::StdErr));
        steps
    }
}

impl StdOutWriter {
    pub fn new() -> StdOutWriter {
        StdOutWriter {  }
    }

    /// A record is rendered through the scratch buffer and written to the output stream.
    pub fn write(&self) -> (steps: Vec<WriteStep>)
        ensures
            steps@ == seq![WriteStep::Buffered(Stream::StdOut)],
    {
        let mut steps: Vec<WriteStep> = Vec::new();
        steps.push(WriteStep::Buffered(Stream::StdOut));
        steps
    }

    pub fn flush(&self) -> (steps: Vec<FlushStep>)
        ensures
            steps@ == seq![FlushStep::Stream(Stream::StdOut)],
    {
        let mut steps: Vec<FlushStep> = Vec::new();
        steps.push(FlushStep::Stream(Stream::StdOut));
        steps
    }
}

impl BlackHoleWriter {
    pub closed spec fn duplicate(&self) -> Duplicate {
        self.duplicate
    }

    /// A record that is to be duplicated is rendered straight to the error
    /// stream; any other record is dropped.
    pub fn write(&self, level: Level) -> (steps: Vec<WriteStep>)
        ensures
            steps@ == duplicate_steps(
                self.duplicate(),
                level,
                WriteStep::Direct(Stream::StdErr),
            ),
    {
        let dupl = is_duplicated(&self.duplicate, level);
        let mut steps: Vec<WriteStep> = Vec::new();
        if dupl {
            steps.push(WriteStep::Direct(Stream::StdErr));
        }
        steps
    }

    pub fn flush(&self) -> (steps: Vec<FlushStep>)
        ensures
            steps@ == seq![FlushStep::Stream(Stream::StdErr)],
    {
        let mut steps: Vec<FlushStep> = Vec::new();
        steps.push(FlushStep::Stream(Stream::StdErr));
        steps
    }
}

impl MultiWriter {
    pub closed spec fn duplicate(&self) -> Duplicate {
        self.duplicate
    }

    /// Of each registered writer, the most verbose severity it is interested in.
    pub closed spec fn writers(&self) -> Seq<LevelFilter> {
        self.writers@
    }

    /// The indices of the registered writers, all of which are to compare what
    /// they have written with what a test expects.
    pub fn validate_logs(&self) -> (indices: Vec<usize>)
        ensures
            indices@ == Seq::new(self.writers().len(), |k: int| k as usize),
    {
        let mut indices: Vec<usize> = Vec::new();
        let mut i: usize = 0;
        while i < self.writers.len()
            invariant
                i <= self.writers.len(),
                indices@ == Seq::new(i as nat, |k: int| k as usize),
            decreases self.writers.len() - i,
        {
            indices.push(i);
            i += 1;
        }
        indices
    }

    /// A record that is to be duplicated goes to the error stream first, through
    /// the scratch buffer. Then every registered writer receives the record, in
    /// the order of registration.
    pub fn write(&self, level: Level) -> (steps: Vec<WriteStep>)
        ensures
            steps@ == duplicate_steps(
                self.duplicate(),
                level,
                WriteStep::Buffered(Stream::StdErr),
            ) + writer_steps(self.writers().len() as int),
    {
        let dupl = is_duplicated(&self.duplicate, level);
        let mut steps: Vec<WriteStep> = Vec::new();
        if dupl {
            steps.push(WriteStep::Buffered(Stream::StdErr));
        }
        let ghost head = steps@;
        let mut i: usize = 0;
        while i < self.writers.len()
            invariant
                i <= self.writers.len(),
                steps@ == head + writer_steps(i as int),
            decreases self.writers.len() - i,
        {
            steps.push(WriteStep::Writer(i));
            i += 1;
        }
        steps
    }

    /// The most verbose severity that any registered writer is interested in.
    pub fn max_log_level(&self) -> (max: LevelFilter)
        requires
            self.writers().len() > 0,
        ensures
            max == most_verbose_of(self.writers()),
    {
        let mut max = LevelFilter::Off;
        let mut i: usize = 0;
        while i < self.writers.len()
            invariant
                i <= self.writers.len(),
                max == most_verbose_of(self.writers@.take(i as int)),
            decreases self.writers.len() - i,
        {
            assert(self.writers@.take(i + 1).drop_last() == self.writers@.take(i as int));
            max = max.most_verbose(self.writers[i]);
            i += 1;
        }
        assert(self.writers@.take(i as int) == self.writers@);
        max
    }

    /// Every registered writer is flushed, in the order of registration, and
    /// then the error stream.
    pub fn flush(&self) -> (steps: Vec<FlushStep>)
        ensures
            steps@ == writer_flushes(self.writers().len() as int).push(
                FlushStep::Stream(Stream::StdErr),
            ),
    {
        let mut steps: Vec<FlushStep> = Vec::new();
        let mut i: usize = 0;
        while i < self.writers.len()
            invariant
                i <= self.writers.len(),
                steps@ == writer_flushes(i as int),
            decreases self.writers.len() - i,
        {
            steps.push(FlushStep::Writer(i));
            i += 1;
        }
        steps.push(FlushStep::Stream(Stream::StdErr));
        steps
    }
}

impl View for PrimaryWriter {
    type V = Strategy;

    closed spec fn view(&self) -> Strategy {
        match self {
            PrimaryWriter::StdOutWriter(_) => Strategy::StdOut,
            PrimaryWriter::StdErrWriter(_) => Strategy::StdErr,
            PrimaryWriter::MultiWriter(w) => Strategy::Multi(w.duplicate(), w.writers()),
            PrimaryWriter::BlackHole(w) => Strategy::Discard(w.duplicate()),
        }
    }
}

/// The steps by which a strategy writes a record of severity `level`.
pub open spec fn write_plan(strategy: Strategy, level: Level) -> Seq<WriteStep> {
    match strategy {
        Strategy::StdOut => seq![WriteStep::Buffered(Stream::StdOut)],
        Strategy::StdErr => seq![WriteStep::Buffered(Stream::StdErr)],
        Strategy::Multi(duplicate, writers) => duplicate_steps(
            duplicate,
            level,
            WriteStep::Buffered(Stream::StdErr),
        ) + writer_steps(writers.len() as int),
        Strategy::Discard(duplicate) => duplicate_steps(
            duplicate,
            level,
            WriteStep::Direct(Stream::StdErr),
        ),
    }
}

/// The steps by which a strategy flushes.
pub open spec fn flush_plan(strategy: Strategy) -> Seq<FlushStep> {
    match strategy {
        Strategy::StdOut => seq![FlushStep::Stream(Stream::StdOut)],
        Strategy::StdErr => seq![FlushStep::Stream(Stream::StdErr)],
        Strategy::Multi(_, writers) => writer_flushes(writers.len() as int).push(
            FlushStep::Stream(Stream::StdErr),
        ),
        Strategy::Discard(_) => seq![FlushStep::Stream(Stream::StdErr)],
    }
}

impl PrimaryWriter {
    /// Writes to the registered `writers`, and to the error stream what
    /// `duplicate` asks for.
    pub fn multi(duplicate: Duplicate, writers: Vec<LevelFilter>) -> (w: PrimaryWriter)
        ensures
            w@ == Strategy::Multi(duplicate, writers@),
    {
        PrimaryWriter::MultiWriter(MultiWriter { duplicate, writers })
    }

    /// Writes to the error stream.
    pub fn stderr() -> (w: PrimaryWriter)
        ensures
            w@ == Strategy::StdErr,
    {
        PrimaryWriter::StdErrWriter(StdErrWriter::new())
    }

    /// Writes to the output stream.
    pub fn stdout() -> (w: PrimaryWriter)
        ensures
            w@ == Strategy::StdOut,
    {
        PrimaryWriter::StdOutWriter(StdOutWriter::new())
    }

    /// Writes nowhere, but to the error stream what `duplicate` asks for.
    pub fn black_hole(duplicate: Duplicate) -> (w: PrimaryWriter)
        ensures
            w@ == Strategy::Discard(duplicate),
    {
        PrimaryWriter::BlackHole(BlackHoleWriter { duplicate })
    }

    /// The steps to take for a record of severity `level`, in their order.
    pub fn write(&self, level: Level) -> (steps: Vec<WriteStep>)
        ensures
            steps@ == write_plan(self@, level),
    {
        match self {
            PrimaryWriter::StdErrWriter(w) => w.write(),
            PrimaryWriter::StdOutWriter(w) => w.write(),
            PrimaryWriter::MultiWriter(w) => w.write(level),
            PrimaryWriter::BlackHole(w) => w.write(level),
        }
    }

    /// The steps to take to flush what was written, in their order.
    pub fn flush(&self) -> (steps: Vec<FlushStep>)
        ensures
            steps@ == flush_plan(self@),
    {
        match self {
            PrimaryWriter::StdErrWriter(w) => w.flush(),
            PrimaryWriter::StdOutWriter(w) => w.flush(),
            PrimaryWriter::MultiWriter(w) => w.flush(),
            PrimaryWriter::BlackHole(w) => w.flush(),
        }
    }

    /// The indices of the writers that are to compare what they have written
    /// with what a test expects: all registered writers of the multi strategy,
    /// and none for any other strategy.
    pub fn validate_logs(&self) -> (indices: Vec<usize>)
        ensures
            indices@ == match self@ {
                Strategy::Multi(_, writers) => Seq::new(writers.len(), |k: int| k as usize),
                _ => Seq::empty(),
            },
    {
        if let PrimaryWriter::MultiWriter(w) = self {
            w.validate_logs()
        } else {
            Vec::new()
        }
    }
}

/// What the failure of a step means under a strategy. A sink that the records
/// are meant for counts: the stream of a single-stream strategy, and every
/// registered writer. A failure there ends the write and reaches the caller.
/// A duplicate to the error stream is best effort: its failure is reported, and
/// the remaining steps are still taken.
pub open spec fn failure_policy(strategy: Strategy, step: WriteStep) -> OnFailure {
    match (strategy, step) {
        (Strategy::StdErr, WriteStep::Buffered(_)) => OnFailure::Return,
        (Strategy::StdOut, WriteStep::Buffered(_)) => OnFailure::Return,
        (_, WriteStep::Writer(_)) => OnFailure::Return,
        _ => OnFailure::Report,
    }
}

impl PrimaryWriter {
    /// What a failure of `step` means: whether the write ends and returns the
    /// failure to the caller, or the failure is only reported.
    pub fn on_failure(&self, step: &WriteStep) -> (policy: OnFailure)
        ensures
            policy == failure_policy(self@, *step),
    {
        match step {
            WriteStep::Writer(_) => OnFailure::Return,
            WriteStep::Buffered(_) => match self {
                PrimaryWriter::StdErrWriter(_) => OnFailure::Return,
                PrimaryWriter::StdOutWriter(_) => OnFailure::Return,
                _ => OnFailure::Report,
            },
            WriteStep::Direct(_) => OnFailure::Report,
        }
    }
}

/// Every step of a single-stream strategy and every step that hands a record
/// to a registered writer returns its failure to the caller; only the
/// duplicate of the multi and of the discard strategy is best effort.
pub proof fn lemma_only_duplicates_are_best_effort(strategy: Strategy, level: Level, k: int)
    requires
        0 <= k < write_plan(strategy, level).len(),
    ensures
        failure_policy(strategy, write_plan(strategy, level)[k]) == OnFailure::Report <==> (
        strategy matches Strategy::Multi(duplicate, _) && duplicates(duplicate, level) && k == 0)
            || strategy is Discard,
{
}

} // verus!
