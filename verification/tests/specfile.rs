use flexi_logger::{
    FlexiLoggerError, Level, LevelFilter, LogSpecFileFormat, LogSpecification, SpecfileAction,
};

fn spec_from(text: &str) -> LogSpecification {
    match LogSpecification::parse(text) {
        Ok(spec) => spec,
        Err(FlexiLoggerError::Parse(_, spec)) => spec,
        Err(e) => panic!("unexpected error {:?}", e),
    }
}

fn form_from(text: &str) -> LogSpecFileFormat {
    let value: toml::Value = text.parse().unwrap();
    let scalar = |key: &str| value.get(key).map(|v| v.as_str().unwrap().to_string());
    let mut modules = Vec::new();
    for (k, v) in value.get("modules").unwrap().as_table().unwrap() {
        modules.push((k.clone(), v.as_str().unwrap().to_string()));
    }
    LogSpecFileFormat {
        global_level: scalar("global_level"),
        global_pattern: scalar("global_pattern"),
        modules,
    }
}

#[test]
fn to_toml_of_an_empty_specification() {
    let text = LogSpecification::off().to_toml();
    assert_eq!(
        text,
        "### Optional: Default log level\n\
         #global_level = 'info'\n\
         \n\
         ### Optional: specify a regular expression to suppress all messages that don't match\n\
         #global_pattern = 'foo'\n\
         \n\
         ### Specific log levels per module are optionally defined in this section\n\
         [modules]\n\
         #'mod1' = 'warn'\n\
         #'mod2' = 'debug'\n\
         #'mod2::mod3' = 'trace'\n"
    );
}

#[test]
fn to_toml_with_default_only() {
    let text = spec_from("info").to_toml();
    assert_eq!(
        text,
        "### Optional: Default log level\n\
         global_level = 'info'\n\
         \n\
         ### Optional: specify a regular expression to suppress all messages that don't match\n\
         #global_pattern = 'foo'\n\
         \n\
         ### Specific log levels per module are optionally defined in this section\n\
         [modules]\n\
         #'mod1' = 'warn'\n\
         #'mod2' = 'debug'\n\
         #'mod2::mod3' = 'trace'\n"
    );
}

#[test]
fn to_toml_with_modules() {
    let text = spec_from("warn, mod3 = TRACE, mod1::mod2 = debug/a.c").to_toml();
    assert_eq!(
        text,
        "### Optional: Default log level\n\
         global_level = 'warn'\n\
         \n\
         ### Optional: specify a regular expression to suppress all messages that don't match\n\
         global_pattern = 'a.c'\n\
         \n\
         ### Specific log levels per module are optionally defined in this section\n\
         [modules]\n\
         'mod1::mod2' = 'debug'\n\
         'mod3' = 'trace'\n"
    );
}

#[test]
fn to_toml_without_default() {
    let text = spec_from("mod3=off").to_toml();
    assert_eq!(
        text,
        "### Optional: Default log level\n\
         #global_level = 'info'\n\
         \n\
         ### Optional: specify a regular expression to suppress all messages that don't match\n\
         #global_pattern = 'foo'\n\
         \n\
         ### Specific log levels per module are optionally defined in this section\n\
         [modules]\n\
         'mod3' = 'off'\n"
    );
}

#[test]
fn written_file_reads_back_to_the_same_rules() {
    for text in [
        "",
        "info",
        "warn, mod3 = trace, mod1::mod2 = debug",
        "a=error,b=warn,cc=info,dd=debug,eee=trace,off",
        "zz=info,aa=warn",
    ] {
        let spec = spec_from(text);
        let back = LogSpecification::from_toml(&form_from(&spec.to_toml())).unwrap();
        let mut written: Vec<_> = spec.module_filters().clone();
        let mut read: Vec<_> = back.module_filters().clone();
        written.sort_by(|a, b| a.module_name.cmp(&b.module_name));
        read.sort_by(|a, b| a.module_name.cmp(&b.module_name));
        assert_eq!(written, read);
        for module in ["a", "aa", "mod1::mod2::x", "mod3", "zz::y", "other", "eee"] {
            for level in [
                Level::Error,
                Level::Warn,
                Level::Info,
                Level::Debug,
                Level::Trace,
            ] {
                assert_eq!(spec.enabled(level, module), back.enabled(level, module));
            }
        }
    }
}

#[test]
fn written_file_reads_back_to_the_same_text_filter() {
    for text in ["info/abc", "a=warn,bb=debug/a.c", "/x+y*", "warn/^\\d+ [a-z]{2,3}$"] {
        let spec = spec_from(text);
        let pattern = spec.text_filter().as_ref().unwrap().to_string();
        let back = LogSpecification::from_toml(&form_from(&spec.to_toml())).unwrap();
        assert_eq!(
            back.text_filter().as_ref().unwrap().to_string(),
            pattern
        );
        assert_eq!(
            back.text_filter().as_ref().unwrap().expression().as_str(),
            spec.text_filter().as_ref().unwrap().expression().as_str()
        );
        assert_eq!(spec.module_filters(), back.module_filters());
    }
    let spec = spec_from("info");
    let back = LogSpecification::from_toml(&form_from(&spec.to_toml())).unwrap();
    assert!(back.text_filter().is_none());
}

#[test]
fn written_entries_in_their_order_read_back_identically() {
    let spec = spec_from("warn, zz = trace, aa = debug, longer = error");
    let mut modules = Vec::new();
    let mut global_level = None;
    for filter in spec.module_filters() {
        match &filter.module_name {
            Some(name) => modules.push((name.clone(), filter.level_filter.as_str().to_string())),
            None => global_level = Some(filter.level_filter.as_str().to_string()),
        }
    }
    let form = LogSpecFileFormat {
        global_level,
        global_pattern: None,
        modules,
    };
    let back = LogSpecification::from_toml(&form).unwrap();
    assert_eq!(spec.module_filters(), back.module_filters());
}

#[test]
fn file_with_unknown_level_is_refused() {
    let form = LogSpecFileFormat {
        global_level: Some("info".to_string()),
        global_pattern: None,
        modules: vec![
            ("a".to_string(), "warn".to_string()),
            ("b".to_string(), "loud".to_string()),
            ("c".to_string(), "noisy".to_string()),
        ],
    };
    match LogSpecification::from_toml(&form) {
        Err(FlexiLoggerError::LevelFilter(message)) => {
            assert_eq!(message, "unknown level filter: loud")
        }
        other => panic!("unexpected result {:?}", other),
    }
    let form = LogSpecFileFormat {
        global_level: Some(" info".to_string()),
        global_pattern: None,
        modules: vec![("b".to_string(), "loud".to_string())],
    };
    match LogSpecification::from_toml(&form) {
        Err(FlexiLoggerError::LevelFilter(message)) => {
            assert_eq!(message, "unknown level filter:  info")
        }
        other => panic!("unexpected result {:?}", other),
    }
}

#[test]
fn file_with_invalid_pattern_keeps_the_rules() {
    let form = LogSpecFileFormat {
        global_level: Some("info".to_string()),
        global_pattern: Some("a(b".to_string()),
        modules: vec![("a".to_string(), "warn".to_string())],
    };
    match LogSpecification::from_toml(&form) {
        Err(FlexiLoggerError::Parse(errs, spec)) => {
            assert_eq!(errs.len(), 1);
            assert!(errs[0].starts_with("invalid regex filter - "));
            assert_eq!(spec.module_filters().len(), 2);
            assert!(spec.text_filter().is_none());
        }
        other => panic!("unexpected result {:?}", other),
    }
}

#[test]
fn file_with_pattern_has_a_text_filter() {
    let form = LogSpecFileFormat {
        global_level: None,
        global_pattern: Some("Foo".to_string()),
        modules: vec![],
    };
    let spec = LogSpecification::from_toml(&form).unwrap();
    assert_eq!(spec.text_filter().as_ref().unwrap().to_string(), "Foo");
    assert!(spec.module_filters().is_empty());
}

#[test]
fn file_names_are_not_checked_for_dashes() {
    let form = LogSpecFileFormat {
        global_level: None,
        global_pattern: None,
        modules: vec![("karl-heinz".to_string(), "Warn".to_string())],
    };
    let spec = LogSpecification::from_toml(&form).unwrap();
    assert_eq!(
        spec.module_filters()[0].module_name,
        Some("karl-heinz".to_string())
    );
    assert_eq!(spec.module_filters()[0].level_filter, LevelFilter::Warn);
}

#[test]
fn caller_supplied_filter_outcome_is_taken_over() {
    let form = LogSpecFileFormat {
        global_level: None,
        global_pattern: Some("x".to_string()),
        modules: vec![],
    };
    let result =
        LogSpecification::from_toml_with_textfilter(&form, Some(Err("too big".to_string())));
    match result {
        Err(FlexiLoggerError::Parse(errs, _)) => {
            assert_eq!(errs, vec!["invalid regex filter - too big".to_string()])
        }
        other => panic!("unexpected result {:?}", other),
    }
    let result = LogSpecification::parse_with_textfilter("a/b", Some(Err("no".to_string())));
    match result {
        Err(FlexiLoggerError::Parse(errs, spec)) => {
            assert_eq!(errs, vec!["invalid regex filter - no".to_string()]);
            assert_eq!(spec.module_filters().len(), 1);
        }
        other => panic!("unexpected result {:?}", other),
    }
    let spec = LogSpecification::parse_with_textfilter("a/b", None).unwrap();
    assert!(spec.text_filter().is_none());
    let spec = LogSpecification::parse_with_textfilter(
        "a",
        Some(flexi_logger::TextFilter::new("zz")),
    )
    .unwrap();
    assert!(spec.text_filter().is_none());
}

#[test]
fn only_toml_files_are_supported() {
    let spec = spec_from("info");
    match spec.ensure_specfile_is_valid("txt", true) {
        Err(FlexiLoggerError::Parse(errs, off)) => {
            assert_eq!(
                errs,
                vec!["only files with suffix toml are supported".to_string()]
            );
            assert!(off.module_filters().is_empty());
        }
        other => panic!("unexpected result {:?}", other),
    }
    assert!(spec.ensure_specfile_is_valid("", false).is_err());
    assert!(spec.ensure_specfile_is_valid("TOML", false).is_err());
}

#[test]
fn existing_file_is_kept_and_missing_file_is_created() {
    let spec = spec_from("info");
    match spec.ensure_specfile_is_valid("toml", true) {
        Ok(SpecfileAction::Keep) => {}
        other => panic!("unexpected result {:?}", other),
    }
    match spec.ensure_specfile_is_valid("toml", false) {
        Ok(SpecfileAction::Create(text)) => assert_eq!(text, spec.to_toml()),
        other => panic!("unexpected result {:?}", other),
    }
}
