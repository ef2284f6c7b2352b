use flexi_logger::TextFilter;

#[test]
fn accepted_pattern_is_kept_with_its_expression() {
    let filter = TextFilter::new("a+b").unwrap();
    assert_eq!(filter.as_str(), "a+b");
    assert_eq!(filter.to_string(), "a+b");
    assert_eq!(filter.expression().as_str(), "a+b");
    assert!(filter.expression().is_match("xaab"));
    assert!(!filter.expression().is_match("ba"));
    let copy = filter.clone();
    assert_eq!(copy.as_str(), "a+b");
    assert!(copy.expression().is_match("ab"));
}

#[test]
fn refused_pattern_yields_the_reason() {
    let reason = TextFilter::new("a(b").unwrap_err();
    assert!(!reason.is_empty());
    assert_eq!(reason, regex::Regex::new("a(b").unwrap_err().to_string());
}

#[test]
fn filter_from_what_came_of_compiling() {
    let filter = TextFilter::from_compiled("x.z", Ok(regex::Regex::new("x.z").unwrap())).unwrap();
    assert_eq!(filter.as_str(), "x.z");
    assert!(filter.expression().is_match("xyz"));
    assert!(!filter.expression().is_match("xz"));
    let reason = TextFilter::from_compiled("x.z", Err("too big".to_string())).unwrap_err();
    assert_eq!(reason, "too big");
}
