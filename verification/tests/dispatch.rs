use flexi_logger::{
    Duplicate, FlexiLoggerError, FlushStep, Level, LevelFilter, LogSpecification, LogTarget,
    Logger, OnFailure, PrimaryWriter, SpecificationStore, Stream, WatchEvent, WatchReaction,
    WriteStep,
};

fn spec_from(text: &str) -> LogSpecification {
    match LogSpecification::parse(text) {
        Ok(spec) => spec,
        Err(FlexiLoggerError::Parse(_, spec)) => spec,
        Err(e) => panic!("unexpected error {:?}", e),
    }
}

const LEVELS: [Level; 5] = [
    Level::Error,
    Level::Warn,
    Level::Info,
    Level::Debug,
    Level::Trace,
];

fn duplicated(duplicate: Duplicate) -> Vec<bool> {
    let writer = PrimaryWriter::black_hole(duplicate);
    LEVELS
        .iter()
        .map(|level| !writer.write(*level).is_empty())
        .collect()
}

#[test]
fn duplication_boundary_of_warn() {
    let writer = PrimaryWriter::multi(Duplicate::Warn, vec![LevelFilter::Trace]);
    assert_eq!(
        writer.write(Level::Error),
        vec![WriteStep::Buffered(Stream::StdErr), WriteStep::Writer(0)]
    );
    assert_eq!(
        writer.write(Level::Warn),
        vec![WriteStep::Buffered(Stream::StdErr), WriteStep::Writer(0)]
    );
    assert_eq!(writer.write(Level::Info), vec![WriteStep::Writer(0)]);
}

#[test]
fn duplication_thresholds() {
    assert_eq!(duplicated(Duplicate::Never), vec![false, false, false, false, false]);
    assert_eq!(duplicated(Duplicate::Error), vec![true, false, false, false, false]);
    assert_eq!(duplicated(Duplicate::Warn), vec![true, true, false, false, false]);
    assert_eq!(duplicated(Duplicate::Info), vec![true, true, true, false, false]);
    assert_eq!(duplicated(Duplicate::Debug), vec![true, true, true, true, false]);
    assert_eq!(duplicated(Duplicate::Trace), vec![true, true, true, true, true]);
    assert_eq!(duplicated(Duplicate::All), vec![true, true, true, true, true]);
}

#[test]
fn single_stream_strategies() {
    assert_eq!(
        PrimaryWriter::stderr().write(Level::Trace),
        vec![WriteStep::Buffered(Stream::StdErr)]
    );
    assert_eq!(
        PrimaryWriter::stdout().write(Level::Error),
        vec![WriteStep::Buffered(Stream::StdOut)]
    );
    assert_eq!(
        PrimaryWriter::stderr().flush(),
        vec![FlushStep::Stream(Stream::StdErr)]
    );
    assert_eq!(
        PrimaryWriter::stdout().flush(),
        vec![FlushStep::Stream(Stream::StdOut)]
    );
}

#[test]
fn discard_strategy_only_duplicates() {
    let writer = PrimaryWriter::black_hole(Duplicate::Error);
    assert_eq!(
        writer.write(Level::Error),
        vec![WriteStep::Direct(Stream::StdErr)]
    );
    assert!(writer.write(Level::Warn).is_empty());
    assert_eq!(writer.flush(), vec![FlushStep::Stream(Stream::StdErr)]);
    assert!(writer.validate_logs().is_empty());
}

#[test]
fn multi_strategy_writes_in_registration_order() {
    let writer = PrimaryWriter::multi(
        Duplicate::Never,
        vec![LevelFilter::Info, LevelFilter::Debug, LevelFilter::Warn],
    );
    assert_eq!(
        writer.write(Level::Error),
        vec![
            WriteStep::Writer(0),
            WriteStep::Writer(1),
            WriteStep::Writer(2)
        ]
    );
    assert_eq!(
        writer.flush(),
        vec![
            FlushStep::Writer(0),
            FlushStep::Writer(1),
            FlushStep::Writer(2),
            FlushStep::Stream(Stream::StdErr)
        ]
    );
    assert_eq!(writer.validate_logs(), vec![0, 1, 2]);
    match writer {
        PrimaryWriter::MultiWriter(w) => assert_eq!(w.max_log_level(), LevelFilter::Debug),
        other => panic!("unexpected strategy {:?}", other),
    }
}

#[test]
fn only_a_duplicate_is_best_effort() {
    let stderr = PrimaryWriter::stderr();
    let stdout = PrimaryWriter::stdout();
    let multi = PrimaryWriter::multi(Duplicate::All, vec![LevelFilter::Trace]);
    let discard = PrimaryWriter::black_hole(Duplicate::All);
    for step in stderr.write(Level::Info) {
        assert_eq!(stderr.on_failure(&step), OnFailure::Return);
    }
    for step in stdout.write(Level::Info) {
        assert_eq!(stdout.on_failure(&step), OnFailure::Return);
    }
    let plan = multi.write(Level::Info);
    assert_eq!(
        plan,
        vec![WriteStep::Buffered(Stream::StdErr), WriteStep::Writer(0)]
    );
    assert_eq!(multi.on_failure(&plan[0]), OnFailure::Report);
    assert_eq!(multi.on_failure(&plan[1]), OnFailure::Return);
    let plan = discard.write(Level::Info);
    assert_eq!(plan, vec![WriteStep::Direct(Stream::StdErr)]);
    assert_eq!(discard.on_failure(&plan[0]), OnFailure::Report);
    assert_eq!(
        stderr.on_failure(&WriteStep::Writer(3)),
        OnFailure::Return
    );
}

#[test]
fn store_evaluates_the_held_specification() {
    let store = SpecificationStore::new(spec_from("warn,a=debug"));
    assert!(store.evaluate(Level::Debug, "a::b"));
    assert!(!store.evaluate(Level::Info, "c"));
    assert_eq!(store.max_level(), LevelFilter::Debug);
    assert!(store.is_of_interest(Level::Debug));
    assert!(!store.is_of_interest(Level::Trace));
}

#[test]
fn replace_swaps_rules_and_marker_together() {
    let mut store = SpecificationStore::new(spec_from("a=trace"));
    store.replace(spec_from("b=error"));
    assert!(!store.evaluate(Level::Error, "a"));
    assert!(store.evaluate(Level::Error, "b"));
    assert!(!store.evaluate(Level::Warn, "b"));
    assert_eq!(store.max_level(), LevelFilter::Error);
    assert_eq!(store.specification().module_filters().len(), 1);
}

#[test]
fn failed_reload_leaves_the_store_untouched() {
    let mut store = SpecificationStore::new(spec_from("warn,a=debug"));
    let before: Vec<bool> = LEVELS.iter().map(|l| store.evaluate(*l, "a::x")).collect();
    let failure = store.reload(Err(FlexiLoggerError::LevelFilter(
        "unknown level filter: loud".to_string(),
    )));
    assert!(failure.is_some());
    let failure = store.reload(LogSpecification::parse("a=trace=trace,off"));
    assert!(failure.is_some());
    let after: Vec<bool> = LEVELS.iter().map(|l| store.evaluate(*l, "a::x")).collect();
    assert_eq!(before, after);
    assert_eq!(store.max_level(), LevelFilter::Debug);
}

#[test]
fn successful_reload_replaces_the_specification() {
    let mut store = SpecificationStore::new(spec_from("warn"));
    let failure = store.reload(LogSpecification::parse("a=trace"));
    assert!(failure.is_none());
    assert!(store.evaluate(Level::Trace, "a"));
    assert!(!store.evaluate(Level::Error, "b"));
}

#[test]
fn only_a_write_triggers_a_reload() {
    assert_eq!(
        SpecificationStore::reaction(WatchEvent::Write),
        WatchReaction::Reload
    );
    assert_eq!(
        SpecificationStore::reaction(WatchEvent::Other),
        WatchReaction::Ignore
    );
    assert_eq!(
        SpecificationStore::reaction(WatchEvent::Failure),
        WatchReaction::Report
    );
    assert_eq!(
        SpecificationStore::reaction(WatchEvent::NotEstablished),
        WatchReaction::GiveUp
    );
}

#[test]
fn logger_keeps_diagnostics() {
    let logger = Logger::with_str("a=info,b=loud");
    match logger.check_parser_error() {
        Err(FlexiLoggerError::Parse(errs, spec)) => {
            assert_eq!(errs, vec!["unknown level filter: loud".to_string()]);
            assert_eq!(spec.module_filters().len(), 1);
        }
        other => panic!("unexpected result {:?}", other),
    }
    assert!(Logger::with_str("a=info").check_parser_error().is_ok());
    assert!(Logger::with(LogSpecification::off())
        .check_parser_error()
        .is_ok());
}

#[test]
fn logger_from_other_error_is_off() {
    let logger = Logger::from_result(Err(FlexiLoggerError::LevelFilter("x".to_string())));
    assert!(logger.specification().module_filters().is_empty());
    assert!(logger.check_parser_error().is_ok());
}

#[test]
fn logger_from_environment() {
    let logger = Logger::with_env(None);
    assert!(logger.specification().module_filters().is_empty());
    let logger = Logger::with_env(Some("debug"));
    assert!(logger.specification().enabled(Level::Debug, "x"));
    let logger = Logger::with_env_or_str(None, "warn");
    assert!(!logger.specification().enabled(Level::Info, "x"));
    let logger = Logger::with_env_or_str(Some("trace"), "warn");
    assert!(logger.specification().enabled(Level::Trace, "x"));
}

#[test]
fn start_picks_the_strategy_of_the_target() {
    let (store, writer) = Logger::with_str("info").start(LevelFilter::Trace);
    assert!(store.evaluate(Level::Info, "x"));
    assert!(!store.is_installed());
    assert_eq!(store.max_level(), LevelFilter::Info);
    assert_eq!(
        writer.write(Level::Error),
        vec![WriteStep::Buffered(Stream::StdErr)]
    );

    let (_, writer) = Logger::with_str("info")
        .log_to_file()
        .duplicate_to_stderr(Duplicate::Error)
        .start(LevelFilter::Trace);
    assert_eq!(
        writer.write(Level::Error),
        vec![WriteStep::Buffered(Stream::StdErr), WriteStep::Writer(0)]
    );
    assert_eq!(writer.write(Level::Warn), vec![WriteStep::Writer(0)]);

    let (_, writer) = Logger::with_str("info")
        .duplicate_to_stderr(Duplicate::All)
        .do_not_log()
        .start(LevelFilter::Trace);
    assert_eq!(
        writer.write(Level::Trace),
        vec![WriteStep::Direct(Stream::StdErr)]
    );

    let (_, writer) = Logger::with_str("info")
        .log_to_file()
        .o_log_to_file(false)
        .start(LevelFilter::Trace);
    assert_eq!(
        writer.write(Level::Trace),
        vec![WriteStep::Buffered(Stream::StdErr)]
    );
    let (_, writer) = Logger::with_str("info")
        .o_log_to_file(true)
        .start(LevelFilter::Info);
    assert_eq!(writer.write(Level::Trace), vec![WriteStep::Writer(0)]);
    assert_eq!(LogTarget::File, LogTarget::File);
}

#[test]
fn registered_writers_follow_the_log_file() {
    let logger = Logger::with_str("info")
        .log_to_file()
        .add_writer("alert", LevelFilter::Error)
        .add_writer("audit", LevelFilter::Debug)
        .add_writer("alert", LevelFilter::Warn);
    assert_eq!(
        logger.writer_names(),
        vec!["alert".to_string(), "audit".to_string()]
    );
    assert_eq!(logger.log_target(), LogTarget::File);
    assert_eq!(logger.duplicate(), Duplicate::Never);
    let (_, writer) = logger.start(LevelFilter::Info);
    assert_eq!(
        writer.write(Level::Info),
        vec![
            WriteStep::Writer(0),
            WriteStep::Writer(1),
            WriteStep::Writer(2)
        ]
    );
    match writer {
        PrimaryWriter::MultiWriter(w) => assert_eq!(w.max_log_level(), LevelFilter::Debug),
        other => panic!("unexpected strategy {:?}", other),
    }
    let (_, writer) = Logger::with_str("info")
        .add_writer("alert", LevelFilter::Error)
        .start(LevelFilter::Trace);
    assert_eq!(
        writer.write(Level::Error),
        vec![WriteStep::Buffered(Stream::StdErr)]
    );
}

#[test]
fn level_orders() {
    assert!(LevelFilter::Off < LevelFilter::Error);
    assert!(LevelFilter::Debug < LevelFilter::Trace);
    assert!(Level::Error < Level::Warn);
    assert_eq!(LevelFilter::max(), LevelFilter::Trace);
    assert!(LevelFilter::Warn.enables(Level::Error));
    assert!(LevelFilter::Warn.enables(Level::Warn));
    assert!(!LevelFilter::Warn.enables(Level::Info));
    assert!(!LevelFilter::Off.enables(Level::Error));
    assert_eq!(Level::Info.to_level_filter(), LevelFilter::Info);
    assert_eq!(LevelFilter::Debug.as_str(), "debug");
    assert_eq!(LevelFilter::Warn.most_verbose(LevelFilter::Info), LevelFilter::Info);
}
