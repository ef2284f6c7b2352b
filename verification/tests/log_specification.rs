use flexi_logger::{
    FlexiLoggerError, Level, LevelFilter, LogSpecBuilder, LogSpecFileFormat, LogSpecification,
};

/// The specification that a text gives, with or without diagnostics.
fn spec_of(result: Result<LogSpecification, FlexiLoggerError>) -> LogSpecification {
    match result {
        Ok(spec) => spec,
        Err(FlexiLoggerError::Parse(_, spec)) => spec,
        Err(e) => panic!("unexpected error {:?}", e),
    }
}

/// The diagnostics that a text gives.
fn diagnostics_of(result: Result<LogSpecification, FlexiLoggerError>) -> Vec<String> {
    match result {
        Ok(_) => vec![],
        Err(FlexiLoggerError::Parse(errs, _)) => errs,
        Err(e) => panic!("unexpected error {:?}", e),
    }
}

/// Takes the content of a specification file apart.
fn read_toml(s: &str) -> LogSpecFileFormat {
    let value: toml::Value = s.parse().unwrap();
    let text = |key: &str| value.get(key).map(|v| v.as_str().unwrap().to_string());
    let mut modules = Vec::new();
    for (k, v) in value.get("modules").unwrap().as_table().unwrap() {
        modules.push((k.clone(), v.as_str().unwrap().to_string()));
    }
    LogSpecFileFormat {
        global_level: text("global_level"),
        global_pattern: text("global_pattern"),
        modules,
    }
}

fn compare_specs(s1: &str, s2: &str) {
    let ls1 = LogSpecification::from_toml(&read_toml(s1)).unwrap();
    let ls2 = spec_of(LogSpecification::parse(s2));

    assert_eq!(ls1.module_filters(), ls2.module_filters());
    assert_eq!(ls1.text_filter().is_none(), ls2.text_filter().is_none());
    if ls1.text_filter().is_some() && ls2.text_filter().is_some() {
        assert_eq!(
            ls1.text_filter().as_ref().unwrap().to_string(),
            ls2.text_filter().as_ref().unwrap().to_string()
        );
    }
}

#[test]
fn specfile() {
    compare_specs(
        "[modules]\n\
         ",
        "",
    );

    compare_specs(
        "global_level = 'info'\n\
         \n\
         [modules]\n\
         ",
        "info",
    );

    compare_specs(
        "global_level = 'info'\n\
         \n\
         [modules]\n\
         'mod1::mod2' = 'debug'\n\
         'mod3' = 'trace'\n\
         ",
        "info, mod1::mod2 = debug, mod3 = trace",
    );

    compare_specs(
        "global_level = 'info'\n\
         global_pattern = 'Foo'\n\
         \n\
         [modules]\n\
         'mod1::mod2' = 'debug'\n\
         'mod3' = 'trace'\n\
         ",
        "info, mod1::mod2 = debug, mod3 = trace /Foo",
    );
}

#[test]
fn parse_logging_spec_valid() {
    let spec = spec_of(LogSpecification::parse(
        "crate1::mod1=error,crate1::mod2,crate2=debug",
    ));
    assert_eq!(spec.module_filters().len(), 3);
    assert_eq!(
        spec.module_filters()[0].module_name,
        Some("crate1::mod1".to_string())
    );
    assert_eq!(spec.module_filters()[0].level_filter, LevelFilter::Error);

    assert_eq!(
        spec.module_filters()[1].module_name,
        Some("crate1::mod2".to_string())
    );
    assert_eq!(spec.module_filters()[1].level_filter, LevelFilter::max());

    assert_eq!(
        spec.module_filters()[2].module_name,
        Some("crate2".to_string())
    );
    assert_eq!(spec.module_filters()[2].level_filter, LevelFilter::Debug);

    assert!(spec.text_filter().is_none());
}

#[test]
fn parse_logging_spec_invalid_crate() {
    // test parse_logging_spec with multiple = in specification
    let spec = spec_of(LogSpecification::parse(
        "crate1::mod1=warn=info,crate2=debug",
    ));
    assert_eq!(spec.module_filters().len(), 1);
    assert_eq!(
        spec.module_filters()[0].module_name,
        Some("crate2".to_string())
    );
    assert_eq!(spec.module_filters()[0].level_filter, LevelFilter::Debug);
    assert!(spec.text_filter().is_none());
}

#[test]
fn parse_logging_spec_invalid_log_level() {
    // test parse_logging_spec with 'noNumber' as log level
    let spec = spec_of(LogSpecification::parse(
        "crate1::mod1=noNumber,crate2=debug",
    ));
    assert_eq!(spec.module_filters().len(), 1);
    assert_eq!(
        spec.module_filters()[0].module_name,
        Some("crate2".to_string())
    );
    assert_eq!(spec.module_filters()[0].level_filter, LevelFilter::Debug);
    assert!(spec.text_filter().is_none());
}

#[test]
fn parse_logging_spec_string_log_level() {
    // test parse_logging_spec with 'warn' as log level
    let spec = spec_of(LogSpecification::parse("crate1::mod1=wrong, crate2=warn"));
    assert_eq!(spec.module_filters().len(), 1);
    assert_eq!(
        spec.module_filters()[0].module_name,
        Some("crate2".to_string())
    );
    assert_eq!(spec.module_filters()[0].level_filter, LevelFilter::Warn);
    assert!(spec.text_filter().is_none());
}

#[test]
fn parse_logging_spec_empty_log_level() {
    // test parse_logging_spec with '' as log level
    let spec = spec_of(LogSpecification::parse("crate1::mod1=wrong, crate2="));
    assert_eq!(spec.module_filters().len(), 1);
    assert_eq!(
        spec.module_filters()[0].module_name,
        Some("crate2".to_string())
    );
    assert_eq!(spec.module_filters()[0].level_filter, LevelFilter::max());
    assert!(spec.text_filter().is_none());
}

#[test]
fn parse_logging_spec_global() {
    // test parse_logging_spec with no crate
    let spec = spec_of(LogSpecification::parse("warn,crate2=debug"));
    assert_eq!(spec.module_filters().len(), 2);

    assert_eq!(spec.module_filters()[1].module_name, None);
    assert_eq!(spec.module_filters()[1].level_filter, LevelFilter::Warn);

    assert_eq!(
        spec.module_filters()[0].module_name,
        Some("crate2".to_string())
    );
    assert_eq!(spec.module_filters()[0].level_filter, LevelFilter::Debug);

    assert!(spec.text_filter().is_none());
}

#[test]
fn parse_logging_spec_valid_filter() {
    let spec = spec_of(LogSpecification::parse(
        " crate1::mod1 = error , crate1::mod2,crate2=debug/abc",
    ));
    assert_eq!(spec.module_filters().len(), 3);

    assert_eq!(
        spec.module_filters()[0].module_name,
        Some("crate1::mod1".to_string())
    );
    assert_eq!(spec.module_filters()[0].level_filter, LevelFilter::Error);

    assert_eq!(
        spec.module_filters()[1].module_name,
        Some("crate1::mod2".to_string())
    );
    assert_eq!(spec.module_filters()[1].level_filter, LevelFilter::max());

    assert_eq!(
        spec.module_filters()[2].module_name,
        Some("crate2".to_string())
    );
    assert_eq!(spec.module_filters()[2].level_filter, LevelFilter::Debug);
    assert!(
        spec.text_filter().is_some()
            && spec.text_filter().as_ref().unwrap().to_string() == "abc"
    );
}

#[test]
fn parse_logging_spec_invalid_crate_filter() {
    let spec = spec_of(LogSpecification::parse(
        "crate1::mod1=error=warn,crate2=debug/a.c",
    ));
    assert_eq!(spec.module_filters().len(), 1);
    assert_eq!(
        spec.module_filters()[0].module_name,
        Some("crate2".to_string())
    );
    assert_eq!(spec.module_filters()[0].level_filter, LevelFilter::Debug);
    assert!(
        spec.text_filter().is_some()
            && spec.text_filter().as_ref().unwrap().to_string() == "a.c"
    );
}

#[test]
fn parse_logging_spec_invalid_crate_with_dash() {
    let spec = spec_of(LogSpecification::parse(
        "karl-heinz::mod1=warn,crate2=debug/a.c",
    ));
    assert_eq!(spec.module_filters().len(), 1);
    assert_eq!(
        spec.module_filters()[0].module_name,
        Some("crate2".to_string())
    );
    assert_eq!(spec.module_filters()[0].level_filter, LevelFilter::Debug);
    assert!(
        spec.text_filter().is_some()
            && spec.text_filter().as_ref().unwrap().to_string() == "a.c"
    );
}

#[test]
fn parse_logging_spec_empty_with_filter() {
    let spec = spec_of(LogSpecification::parse("crate1/a*c"));
    assert_eq!(spec.module_filters().len(), 1);
    assert_eq!(
        spec.module_filters()[0].module_name,
        Some("crate1".to_string())
    );
    assert_eq!(spec.module_filters()[0].level_filter, LevelFilter::max());
    assert!(
        spec.text_filter().is_some()
            && spec.text_filter().as_ref().unwrap().to_string() == "a*c"
    );
}

#[test]
fn reuse_logspec_builder() {
    let mut builder = LogSpecBuilder::new();

    builder.default(LevelFilter::Info);
    builder.module("carlo", LevelFilter::Debug);
    builder.module("toni", LevelFilter::Warn);
    let spec1 = builder.build();

    assert_eq!(
        spec1.module_filters()[0].module_name,
        Some("carlo".to_string())
    );
    assert_eq!(spec1.module_filters()[0].level_filter, LevelFilter::Debug);

    assert_eq!(
        spec1.module_filters()[1].module_name,
        Some("toni".to_string())
    );
    assert_eq!(spec1.module_filters()[1].level_filter, LevelFilter::Warn);

    assert_eq!(spec1.module_filters().len(), 3);
    assert_eq!(spec1.module_filters()[2].module_name, None);
    assert_eq!(spec1.module_filters()[2].level_filter, LevelFilter::Info);

    builder.default(LevelFilter::Error);
    builder.remove("carlo");
    builder.module("greta", LevelFilter::Trace);
    let spec2 = builder.build();

    assert_eq!(spec2.module_filters().len(), 3);
    assert_eq!(spec2.module_filters()[2].module_name, None);
    assert_eq!(spec2.module_filters()[2].level_filter, LevelFilter::Error);

    assert_eq!(
        spec2.module_filters()[0].module_name,
        Some("greta".to_string())
    );
    assert_eq!(spec2.module_filters()[0].level_filter, LevelFilter::Trace);

    assert_eq!(
        spec2.module_filters()[1].module_name,
        Some("toni".to_string())
    );
    assert_eq!(spec2.module_filters()[1].level_filter, LevelFilter::Warn);
}

#[test]
fn match_full_path() {
    let spec = spec_of(LogSpecification::parse("crate2=info,crate1::mod1=warn"));
    assert!(spec.enabled(Level::Warn, "crate1::mod1"));
    assert!(!spec.enabled(Level::Info, "crate1::mod1"));
    assert!(spec.enabled(Level::Info, "crate2"));
    assert!(!spec.enabled(Level::Debug, "crate2"));
}

#[test]
fn no_match() {
    let spec = spec_of(LogSpecification::parse("crate2=info,crate1::mod1=warn"));
    assert!(!spec.enabled(Level::Warn, "crate3"));
}

#[test]
fn match_beginning() {
    let spec = spec_of(LogSpecification::parse("crate2=info,crate1::mod1=warn"));
    assert!(spec.enabled(Level::Info, "crate2::mod1"));
}

#[test]
fn match_beginning_longest_match() {
    let spec = spec_of(LogSpecification::parse(
        "abcd = info, abcd::mod1 = error, klmn::mod = debug, klmn = info",
    ));
    assert!(spec.enabled(Level::Error, "abcd::mod1::foo"));
    assert!(!spec.enabled(Level::Warn, "abcd::mod1::foo"));
    assert!(spec.enabled(Level::Warn, "abcd::mod2::foo"));
    assert!(!spec.enabled(Level::Debug, "abcd::mod2::foo"));

    assert!(!spec.enabled(Level::Debug, "klmn"));
    assert!(!spec.enabled(Level::Debug, "klmn::foo::bar"));
    assert!(spec.enabled(Level::Info, "klmn::foo::bar"));
}

#[test]
fn match_default1() {
    let spec = spec_of(LogSpecification::parse("info,abcd::mod1=warn"));
    assert!(spec.enabled(Level::Warn, "abcd::mod1"));
    assert!(spec.enabled(Level::Info, "crate2::mod2"));
}

#[test]
fn match_default2() {
    let spec = spec_of(LogSpecification::parse(
        "modxyz=error, info, abcd::mod1=warn",
    ));
    assert!(spec.enabled(Level::Warn, "abcd::mod1"));
    assert!(spec.enabled(Level::Info, "crate2::mod2"));
}

#[test]
fn zero_level() {
    let spec = spec_of(LogSpecification::parse("info,crate1::mod1=off"));
    assert!(!spec.enabled(Level::Error, "crate1::mod1"));
    assert!(spec.enabled(Level::Info, "crate2::mod2"));
}

#[test]
fn valid_text_has_no_diagnostics() {
    let result = LogSpecification::parse("crate1::mod1=error,crate1::mod2,crate2=debug");
    assert!(result.is_ok());
}

#[test]
fn double_equals_gives_one_diagnostic() {
    let errs = diagnostics_of(LogSpecification::parse(
        "crate1::mod1=warn=info,crate2=debug",
    ));
    assert_eq!(
        errs,
        vec!["invalid part in log spec 'crate1::mod1=warn=info', ignoring it".to_string()]
    );
}

#[test]
fn dash_gives_one_diagnostic() {
    let errs = diagnostics_of(LogSpecification::parse(
        "karl-heinz::mod1=warn,crate2=debug/a.c",
    ));
    assert_eq!(
        errs,
        vec![
            "ignoring invalid part in log spec 'karl-heinz::mod1' (contains a dash or whitespace)"
                .to_string()
        ]
    );
}

#[test]
fn blank_inside_a_name_is_refused() {
    let result = LogSpecification::parse("my crate=info,\tok\t=warn");
    let errs = diagnostics_of(LogSpecification::parse("my crate=info,\tok\t=warn"));
    assert_eq!(
        errs,
        vec![
            "ignoring invalid part in log spec 'my crate' (contains a dash or whitespace)"
                .to_string()
        ]
    );
    let spec = spec_of(result);
    assert_eq!(spec.module_filters().len(), 1);
    assert_eq!(spec.module_filters()[0].module_name, Some("ok".to_string()));
    assert_eq!(spec.module_filters()[0].level_filter, LevelFilter::Warn);
}

#[test]
fn unknown_level_gives_one_diagnostic() {
    let errs = diagnostics_of(LogSpecification::parse(
        "crate1::mod1=noNumber,crate2=debug",
    ));
    assert_eq!(errs, vec!["unknown level filter: noNumber".to_string()]);
}

#[test]
fn second_slash_invalidates_the_text() {
    let result = LogSpecification::parse("crate1=info/abc/def");
    match result {
        Err(FlexiLoggerError::Parse(errs, spec)) => {
            assert_eq!(
                errs,
                vec![
                    "invalid log spec 'crate1=info/abc/def' (too many '/'s), ignoring it"
                        .to_string()
                ]
            );
            assert!(spec.module_filters().is_empty());
            assert!(spec.text_filter().is_none());
            assert!(!spec.enabled(Level::Error, "crate1"));
        }
        other => panic!("unexpected result {:?}", other),
    }
}

#[test]
fn invalid_pattern_keeps_the_rules() {
    let result = LogSpecification::parse("crate1=info/a(b");
    match result {
        Err(FlexiLoggerError::Parse(errs, spec)) => {
            assert_eq!(errs.len(), 1);
            assert!(errs[0].starts_with("invalid regex filter - "));
            assert!(errs[0].len() > "invalid regex filter - ".len());
            assert_eq!(spec.module_filters().len(), 1);
            assert!(spec.text_filter().is_none());
            assert!(spec.enabled(Level::Info, "crate1"));
        }
        other => panic!("unexpected result {:?}", other),
    }
}

#[test]
fn trailing_comma_is_skipped() {
    let result = LogSpecification::parse("crate1=info, ,crate2=warn,");
    assert!(result.is_ok());
    assert_eq!(spec_of(result).module_filters().len(), 2);
}

#[test]
fn empty_text_enables_nothing() {
    let result = LogSpecification::parse("");
    assert!(result.is_ok());
    let spec = spec_of(result);
    assert!(spec.module_filters().is_empty());
    assert!(!spec.enabled(Level::Error, "anything"));
}

#[test]
fn severity_names_in_any_case() {
    let spec = spec_of(LogSpecification::parse(
        "a=OFF,bb=Error,ccc=wArN,dddd=INFO,eeeee=Debug,ffffff=TRACE",
    ));
    let levels: Vec<LevelFilter> = spec
        .module_filters()
        .iter()
        .map(|f| f.level_filter)
        .collect();
    assert_eq!(
        levels,
        vec![
            LevelFilter::Trace,
            LevelFilter::Debug,
            LevelFilter::Info,
            LevelFilter::Warn,
            LevelFilter::Error,
            LevelFilter::Off
        ]
    );
}

#[test]
fn prefix_matching_is_literal() {
    let spec = spec_of(LogSpecification::parse("foo=info"));
    assert!(spec.enabled(Level::Info, "foo"));
    assert!(spec.enabled(Level::Info, "foo::bar"));
    assert!(spec.enabled(Level::Info, "foobaz"));
    assert!(spec.enabled(Level::Info, "foobaz::bar"));
    assert!(!spec.enabled(Level::Info, "fo"));
    assert!(!spec.enabled(Level::Info, "bar::foo"));
}

#[test]
fn longest_name_wins_whatever_the_order_in_the_text() {
    let one = spec_of(LogSpecification::parse("a=error,a::b=trace,warn"));
    let two = spec_of(LogSpecification::parse("warn,a::b=trace,a=error"));
    for spec in [&one, &two] {
        assert!(spec.enabled(Level::Trace, "a::b::c"));
        assert!(spec.enabled(Level::Error, "a::x"));
        assert!(!spec.enabled(Level::Warn, "a::x"));
        assert!(spec.enabled(Level::Warn, "z"));
        assert!(!spec.enabled(Level::Info, "z"));
    }
}

#[test]
fn equal_names_keep_their_order() {
    let spec = spec_of(LogSpecification::parse("ab=info,cd=warn,ab=trace"));
    let names: Vec<Option<String>> = spec
        .module_filters()
        .iter()
        .map(|f| f.module_name.clone())
        .collect();
    assert_eq!(
        names,
        vec![
            Some("ab".to_string()),
            Some("cd".to_string()),
            Some("ab".to_string())
        ]
    );
    assert!(spec.enabled(Level::Info, "ab"));
    assert!(!spec.enabled(Level::Debug, "ab"));
}

#[test]
fn nameless_rule_comes_last() {
    let spec = spec_of(LogSpecification::parse("info,=debug"));
    assert_eq!(spec.module_filters()[0].module_name, Some(String::new()));
    assert_eq!(spec.module_filters()[1].module_name, None);
    assert!(spec.enabled(Level::Debug, "anything"));
}

#[test]
fn unicode_whitespace_is_trimmed() {
    let spec = spec_of(LogSpecification::parse("\u{a0}crate1\u{2003}=\u{3000}warn\u{85}"));
    assert_eq!(spec.module_filters().len(), 1);
    assert_eq!(
        spec.module_filters()[0].module_name,
        Some("crate1".to_string())
    );
    assert_eq!(spec.module_filters()[0].level_filter, LevelFilter::Warn);
}

#[test]
fn names_are_ordered_by_encoded_length() {
    let spec = spec_of(LogSpecification::parse("abc=info,\u{e9}\u{e9}=warn"));
    assert_eq!(
        spec.module_filters()[0].module_name,
        Some("\u{e9}\u{e9}".to_string())
    );
    assert_eq!(spec.module_filters()[1].module_name, Some("abc".to_string()));
}

#[test]
fn max_level_is_the_most_verbose_threshold() {
    let spec = spec_of(LogSpecification::parse("warn,a=debug,b=error"));
    assert_eq!(spec.max_level(), LevelFilter::Debug);
    assert_eq!(LogSpecification::off().max_level(), LevelFilter::Off);
}

#[test]
fn reconfigure_replaces_everything() {
    let mut spec = spec_of(LogSpecification::parse("a=trace,info/abc"));
    spec.reconfigure(spec_of(LogSpecification::parse("b=warn")));
    assert_eq!(spec.module_filters().len(), 1);
    assert_eq!(spec.module_filters()[0].module_name, Some("b".to_string()));
    assert!(spec.text_filter().is_none());
    assert!(!spec.enabled(Level::Error, "a"));
}

#[test]
fn env_without_variable_is_off() {
    let spec = LogSpecification::env(None).unwrap();
    assert!(spec.module_filters().is_empty());
    let spec = LogSpecification::env(Some("info")).unwrap();
    assert!(spec.enabled(Level::Info, "x"));
}

#[test]
fn env_or_parse_prefers_the_variable() {
    let spec = LogSpecification::env_or_parse(Some("warn"), "trace").unwrap();
    assert!(!spec.enabled(Level::Info, "x"));
    let spec = LogSpecification::env_or_parse(None, "trace").unwrap();
    assert!(spec.enabled(Level::Trace, "x"));
}

#[test]
fn builder_last_write_wins() {
    let mut builder = LogSpecBuilder::new();
    builder.default(LevelFilter::Info).default(LevelFilter::Warn);
    builder.module("m", LevelFilter::Debug).module("m", LevelFilter::Error);
    let spec = builder.build();
    assert_eq!(spec.module_filters().len(), 2);
    assert_eq!(spec.module_filters()[0].level_filter, LevelFilter::Error);
    assert_eq!(spec.module_filters()[1].level_filter, LevelFilter::Warn);
}

#[test]
fn builder_from_module_filters() {
    let spec = spec_of(LogSpecification::parse("a=info,bb=warn,a=error"));
    let builder = LogSpecBuilder::from_module_filters(spec.module_filters());
    let built = builder.finalize();
    assert_eq!(built.module_filters().len(), 2);
    assert_eq!(built.module_filters()[0].module_name, Some("bb".to_string()));
    assert_eq!(built.module_filters()[1].module_name, Some("a".to_string()));
    assert_eq!(built.module_filters()[1].level_filter, LevelFilter::Error);
}

#[test]
fn new_builder_switches_everything_off() {
    let spec = LogSpecBuilder::new().build();
    assert_eq!(spec.module_filters().len(), 1);
    assert_eq!(spec.module_filters()[0].module_name, None);
    assert_eq!(spec.module_filters()[0].level_filter, LevelFilter::Off);
    assert!(!spec.enabled(Level::Error, "x"));
}

#[test]
fn default_builder_has_the_given_default() {
    let spec = LogSpecification::default(LevelFilter::Debug).build();
    assert_eq!(spec.module_filters().len(), 1);
    assert!(spec.enabled(Level::Debug, "x"));
    assert!(!spec.enabled(Level::Trace, "x"));
}

#[test]
fn builder_with_text_filter() {
    let filter = flexi_logger::TextFilter::new("a+b").unwrap();
    let mut builder = LogSpecBuilder::new();
    builder.module("m", LevelFilter::Info);
    let spec = builder.build_with_textfilter(Some(filter.clone()));
    assert_eq!(spec.text_filter().as_ref().unwrap().to_string(), "a+b");
    assert!(spec.text_filter().as_ref().unwrap().expression().is_match("xaab"));
    let spec = builder.finalize_with_textfilter(filter);
    assert_eq!(spec.text_filter().as_ref().unwrap().as_str(), "a+b");
}

#[test]
fn builder_equal_lengths_keep_insertion_order() {
    let mut builder = LogSpecBuilder::new();
    builder.module("zz", LevelFilter::Info);
    builder.module("aa", LevelFilter::Warn);
    let spec = builder.build();
    assert_eq!(spec.module_filters()[0].module_name, Some("zz".to_string()));
    assert_eq!(spec.module_filters()[1].module_name, Some("aa".to_string()));
}
