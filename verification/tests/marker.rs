use flexi_logger::{FlexiLoggerError, LogSpecification, SpecificationStore};

fn spec_from(text: &str) -> LogSpecification {
    match LogSpecification::parse(text) {
        Ok(spec) => spec,
        Err(FlexiLoggerError::Parse(_, spec)) => spec,
        Err(e) => panic!("unexpected error {:?}", e),
    }
}

#[test]
fn marker_is_published_once_installed_and_with_every_replacement() {
    log::set_max_level(log::LevelFilter::Info);

    // a store that is not installed tells nothing
    let mut store = SpecificationStore::new(spec_from("warn,a=debug"));
    assert!(!store.is_installed());
    assert_eq!(log::max_level(), log::LevelFilter::Info);
    store.replace(spec_from("a=trace"));
    assert_eq!(log::max_level(), log::LevelFilter::Info);

    // a failed installation leaves everything as it was
    let answer: Result<(), String> = Err("another logger runs".to_string());
    assert_eq!(
        store.install(answer),
        Err("another logger runs".to_string())
    );
    assert!(!store.is_installed());
    assert_eq!(log::max_level(), log::LevelFilter::Info);
    assert!(store.evaluate(flexi_logger::Level::Trace, "a"));

    // a successful installation publishes the marker
    store.replace(spec_from("warn,a=debug"));
    let answer: Result<(), String> = Ok(());
    assert_eq!(store.install(answer), Ok(()));
    assert!(store.is_installed());
    assert_eq!(log::max_level(), log::LevelFilter::Debug);
    store.replace(spec_from("a=error"));
    assert_eq!(log::max_level(), log::LevelFilter::Error);
    store.replace(LogSpecification::off());
    assert_eq!(log::max_level(), log::LevelFilter::Off);
    let failure = store.reload::<String>(Ok(spec_from("info")));
    assert!(failure.is_none());
    assert!(store.is_installed());
    assert_eq!(log::max_level(), log::LevelFilter::Info);

    let mut spec = spec_from("info");
    spec.reconfigure(spec_from("trace"));
    assert_eq!(log::max_level(), log::LevelFilter::Trace);
}
