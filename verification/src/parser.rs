//! The textual form of a specification:
//!
//! ```text
//! spec     := rules [ '/' pattern ]
//! rules    := rule ( ',' rule )*
//! rule     := name | severity | name '=' [ severity ]
//! severity := off | error | warn | info | debug | trace     (in any case)
//! ```
//!
//! Parsing is tolerant: a flawed rule is dropped with a diagnostic and the rest
//! of the text is still read. Whether the diagnostics are fatal is left to the
//! caller.

use crate::flexi_error::FlexiLoggerError;
use crate::level::LevelFilter;
use crate::log_specification::{
    rules_of,
    sort_rules,
    well_ordered,
    LogSpecification,
    ModuleFilter,
    Rule,
};
use crate::text::{
    concat2,
    concat3,
    contains_char,
    contains_whitespace,
    eq_ignore_ascii_case,
    pieces,
    range_contains,
    range_contains_whitespace,
    range_eq_ignore_ascii_case,
    split,
    split_range,
    texts,
    to_chars,
    trim,
    trim_range,
};
use crate::text_filter::TextFilter;
use vstd::prelude::*;

verus! {

/// The threshold that a word names, capitals read as lower-case letters.
pub open spec fn level_filter_named(word: Seq<char>) -> Option<LevelFilter> {
    if eq_ignore_ascii_case(word, "off"@) {
        Some(LevelFilter::Off)
    } else if eq_ignore_ascii_case(word, "error"@) {
        Some(LevelFilter::Error)
    } else if eq_ignore_ascii_case(word, "warn"@) {
        Some(LevelFilter::Warn)
    } else if eq_ignore_ascii_case(word, "info"@) {
        Some(LevelFilter::Info)
    } else if eq_ignore_ascii_case(word, "debug"@) {
        Some(LevelFilter::Debug)
    } else if eq_ignore_ascii_case(word, "trace"@) {
        Some(LevelFilter::Trace)
    } else {
        None
    }
}

/// Whether a text holds a dash or white space: neither may occur in a module
/// name.
pub open spec fn has_dash_or_whitespace(s: Seq<char>) -> bool {
    contains_char(s, '-') || contains_whitespace(s)
}

/// The diagnostic for a text with more than one `/`.
pub open spec fn too_many_slashes_message(text: Seq<char>) -> Seq<char> {
    "invalid log spec '"@ + text + "' (too many '/'s), ignoring it"@
}

/// The diagnostic for a rule with more than one `=`.
pub open spec fn invalid_part_message(rule: Seq<char>) -> Seq<char> {
    "invalid part in log spec '"@ + rule + "', ignoring it"@
}

/// The diagnostic for a module name with a dash or white space in it.
pub open spec fn dash_or_whitespace_message(name: Seq<char>) -> Seq<char> {
    "ignoring invalid part in log spec '"@ + name + "' (contains a dash or whitespace)"@
}

/// The diagnostic for a word that names no threshold.
pub open spec fn unknown_level_message(word: Seq<char>) -> Seq<char> {
    "unknown level filter: "@ + word
}

/// The diagnostic for a text filter that does not compile.
pub open spec fn invalid_regex_message(reason: Seq<char>) -> Seq<char> {
    "invalid regex filter - "@ + reason
}

/// What becomes of one comma-separated piece of the rules.
pub enum RuleOutcome {
    /// The piece was empty or blank: nothing happens.
    Skipped,
    /// The piece gives this rule.
    Accepted(Rule),
    /// The piece is dropped with this diagnostic.
    Rejected(Seq<char>),
}

/// Reads one piece of the rules. The piece is trimmed and split at `=`:
/// - a single word that names a threshold sets the threshold of the nameless rule;
/// - any other single word names a module, for which everything is enabled;
/// - `name=` is the same;
/// - `name=severity` sets the threshold for a module, and is dropped when the
///   second word names no threshold;
/// - a piece with more than one `=` is dropped.
/// A module name with a dash or white space in it has the piece dropped.
pub open spec fn rule_outcome(piece: Seq<char>) -> RuleOutcome {
    let rule = trim(piece);
    let parts = split(rule, '=');
    let name = trim(parts[0]);
    if rule.len() == 0 {
        RuleOutcome::Skipped
    } else if parts.len() > 2 {
        RuleOutcome::Rejected(invalid_part_message(rule))
    } else if has_dash_or_whitespace(name) {
        RuleOutcome::Rejected(dash_or_whitespace_message(name))
    } else if parts.len() == 1 {
        match level_filter_named(name) {
            Some(level) => RuleOutcome::Accepted(Rule { module_name: None, level_filter: level }),
            None => RuleOutcome::Accepted(
                Rule { module_name: Some(name), level_filter: LevelFilter::Trace },
            ),
        }
    } else {
        let word = trim(parts[1]);
        if word.len() == 0 {
            RuleOutcome::Accepted(
                Rule { module_name: Some(name), level_filter: LevelFilter::Trace },
            )
        } else {
            match level_filter_named(word) {
                Some(level) => RuleOutcome::Accepted(
                    Rule { module_name: Some(name), level_filter: level },
                ),
                None => RuleOutcome::Rejected(unknown_level_message(word)),
            }
        }
    }
}

/// The rules that the pieces give, in the order of the pieces.
pub open spec fn accepted_rules(pieces: Seq<Seq<char>>) -> Seq<Rule>
    decreases pieces.len(),
{
    if pieces.len() == 0 {
        Seq::empty()
    } else {
        let front = accepted_rules(pieces.drop_last());
        match rule_outcome(pieces.last()) {
            RuleOutcome::Accepted(rule) => front.push(rule),
            _ => front,
        }
    }
}

/// The diagnostics for the pieces that are dropped, in the order of the pieces.
pub open spec fn rule_diagnostics(pieces: Seq<Seq<char>>) -> Seq<Seq<char>>
    decreases pieces.len(),
{
    if pieces.len() == 0 {
        Seq::empty()
    } else {
        let front = rule_diagnostics(pieces.drop_last());
        match rule_outcome(pieces.last()) {
            RuleOutcome::Rejected(diagnostic) => front.push(diagnostic),
            _ => front,
        }
    }
}

/// The text behind the `/` of a specification that has exactly one.
pub open spec fn filter_segment(text: Seq<char>) -> Option<Seq<char>> {
    let parts = split(text, '/');
    if parts.len() == 2 {
        Some(parts[1])
    } else {
        None
    }
}

/// What came of compiling a text filter: the pattern that was accepted, or the
/// reason why it was refused.
pub open spec fn compiled_view(compiled: Option<Result<TextFilter, String>>) -> Option<
    Result<Seq<char>, Seq<char>>,
> {
    match compiled {
        Some(Ok(filter)) => Some(Ok(filter@)),
        Some(Err(reason)) => Some(Err(reason@)),
        None => None,
    }
}

/// The result of parsing: the rules in their final order, the pattern of the
/// text filter, and the diagnostics.
pub struct Parsed {
    pub rules: Seq<Rule>,
    pub text_filter: Option<Seq<char>>,
    pub diagnostics: Seq<Seq<char>>,
}

/// What a text means, given what came of compiling its filter segment.
///
/// A text with more than one `/` means nothing: no rule, no filter, one
/// diagnostic. Otherwise the part before the `/` holds the rules, which are
/// sorted by descending specificity. `compiled` counts only where the text has
/// a filter segment: a filter that compiled becomes the text filter, and one
/// that did not adds a last diagnostic.
pub open spec fn parsed(text: Seq<char>, compiled: Option<Result<Seq<char>, Seq<char>>>) -> Parsed {
    let parts = split(text, '/');
    let rule_pieces = split(parts[0], ',');
    let rules = sort_rules(accepted_rules(rule_pieces));
    let diagnostics = rule_diagnostics(rule_pieces);
    if parts.len() > 2 {
        Parsed {
            rules: Seq::empty(),
            text_filter: None,
            diagnostics: seq![too_many_slashes_message(text)],
        }
    } else if parts.len() == 2 {
        match compiled {
            Some(Ok(pattern)) => Parsed { rules, text_filter: Some(pattern), diagnostics },
            Some(Err(reason)) => Parsed {
                rules,
                text_filter: None,
                diagnostics: diagnostics.push(invalid_regex_message(reason)),
            },
            None => Parsed { rules, text_filter: None, diagnostics },
        }
    } else {
        Parsed { rules, text_filter: None, diagnostics }
    }
}

/// How a result reports what was parsed: without diagnostics it is the
/// specification itself, with diagnostics it is the `Parse` error that carries
/// them together with the specification.
pub open spec fn reports(r: Result<LogSpecification, FlexiLoggerError>, p: Parsed) -> bool {
    match r {
        Ok(spec) => {
            &&& p.diagnostics.len() == 0
            &&& spec@.rules =~= p.rules
            &&& spec@.text_filter == p.text_filter
        },
        Err(FlexiLoggerError::Parse(errors, spec)) => {
            &&& p.diagnostics.len() > 0
            &&& texts(errors@) =~= p.diagnostics
            &&& spec@.rules =~= p.rules
            &&& spec@.text_filter == p.text_filter
        },
        Err(_) => false,
    }
}

/// What `LogSpecification::parse` may return for a text. Without a filter
/// segment the result is fixed. With one, it is fixed by what comes of compiling
/// the segment: it becomes the text filter, or it is refused for some reason.
pub open spec fn is_parse_of(
    r: Result<LogSpecification, FlexiLoggerError>,
    text: Seq<char>,
) -> bool {
    match filter_segment(text) {
        None => reports(r, parsed(text, None)),
        Some(pattern) => reports(r, parsed(text, Some(Ok(pattern)))) || exists|
            reason: Seq<char>,
        |
            reports(r, parsed(text, Some(Err(reason)))),
    }
}

/// Records a diagnostic.
pub fn push_err(s: String, parse_errs: &mut Vec<String>)
    ensures
        final(parse_errs)@ == old(parse_errs)@.push(s),
        texts(final(parse_errs)@) == texts(old(parse_errs)@).push(s@),
{
    parse_errs.push(s);
    assert(texts(parse_errs@) =~= texts(old(parse_errs)@).push(s@));
}

/// The error that carries the diagnostics and the specification that was still read.
pub fn parse_err(errors: Vec<String>, logspec: LogSpecification) -> (r: Result<
    LogSpecification,
    FlexiLoggerError,
>)
    ensures
        r == Err::<LogSpecification, FlexiLoggerError>(FlexiLoggerError::Parse(errors, logspec)),
{
    Err(FlexiLoggerError::Parse(errors, logspec))
}

/// Reads the name of a threshold, in any case: `off`, `error`, `warn`, `info`,
/// `debug` or `trace`. Any other text is refused with a message that quotes it.
pub fn parse_level_filter(s: &str) -> (r: Result<LevelFilter, FlexiLoggerError>)
    ensures
        match level_filter_named(s@) {
            Some(level) => r == Ok::<LevelFilter, FlexiLoggerError>(level),
            None => r matches Err(FlexiLoggerError::LevelFilter(message)) && message@
                == unknown_level_message(s@),
        },
{
    let chars = to_chars(s);
    let n = chars.len();
    assert(chars@.subrange(0, n as int) == s@);
    if range_eq_ignore_ascii_case(&chars, 0, n, "off") {
        Ok(LevelFilter::Off)
    } else if range_eq_ignore_ascii_case(&chars, 0, n, "error") {
        Ok(LevelFilter::Error)
    } else if range_eq_ignore_ascii_case(&chars, 0, n, "warn") {
        Ok(LevelFilter::Warn)
    } else if range_eq_ignore_ascii_case(&chars, 0, n, "info") {
        Ok(LevelFilter::Info)
    } else if range_eq_ignore_ascii_case(&chars, 0, n, "debug") {
        Ok(LevelFilter::Debug)
    } else if range_eq_ignore_ascii_case(&chars, 0, n, "trace") {
        Ok(LevelFilter::Trace)
    } else {
        Err(FlexiLoggerError::LevelFilter(concat2("unknown level filter: ", s)))
    }
}

/// Decides whether `s` holds a dash or white space, and records a diagnostic
/// if it does.
pub fn contains_dash_or_whitespace(s: &str, parse_errs: &mut Vec<String>) -> (result: bool)
    ensures
        result == has_dash_or_whitespace(s@),
        texts(final(parse_errs)@) == if result {
            texts(old(parse_errs)@).push(dash_or_whitespace_message(s@))
        } else {
            texts(old(parse_errs)@)
        },
{
    let chars = to_chars(s);
    let n = chars.len();
    assert(chars@.subrange(0, n as int) == s@);
    let result = range_contains(&chars, 0, n, '-') || range_contains_whitespace(&chars, 0, n);
    if result {
        push_err(
            concat3(
                "ignoring invalid part in log spec '",
                s,
                "' (contains a dash or whitespace)",
            ),
            parse_errs,
        );
    }
    result
}

/// Reads the piece of the rules in the range `[lo, hi)` of `chars`, the
/// characters of `spec`.
fn parse_rule(
    spec: &str,
    chars: &Vec<char>,
    lo: usize,
    hi: usize,
    parse_errs: &mut Vec<String>,
) -> (r: Option<ModuleFilter>)
    requires
        chars@ == spec@,
        lo <= hi <= chars.len(),
    ensures
        match rule_outcome(chars@.subrange(lo as int, hi as int)) {
            RuleOutcome::Skipped => r is None && texts(final(parse_errs)@) == texts(
                old(parse_errs)@,
            ),
            RuleOutcome::Accepted(rule) => r matches Some(filter) && filter@ == rule && texts(
                final(parse_errs)@,
            ) == texts(old(parse_errs)@),
            RuleOutcome::Rejected(diagnostic) => r is None && texts(final(parse_errs)@) == texts(
                old(parse_errs)@,
            ).push(diagnostic),
        },
{
    let (a, b) = trim_range(chars, lo, hi);
    if a == b {
        return None;
    }
    let parts = split_range(chars, a, b, '=');
    assert(pieces(chars@, parts@).len() == parts.len());
    if parts.len() > 2 {
        push_err(
            concat3("invalid part in log spec '", spec.substring_char(a, b), "', ignoring it"),
            parse_errs,
        );
        return None;
    }
    let (n0, n1) = trim_range(chars, parts[0].0, parts[0].1);
    assert(pieces(chars@, parts@)[0] == chars@.subrange(parts[0].0 as int, parts[0].1 as int));
    let name = spec.substring_char(n0, n1);
    if contains_dash_or_whitespace(name, parse_errs) {
        return None;
    }
    if parts.len() == 1 {
        match parse_level_filter(name) {
            Ok(level) => Some(ModuleFilter { module_name: None, level_filter: level }),
            Err(_) => Some(
                ModuleFilter { module_name: Some(name.to_owned()), level_filter: LevelFilter::max() },
            ),
        }
    } else {
        let (w0, w1) = trim_range(chars, parts[1].0, parts[1].1);
        assert(pieces(chars@, parts@)[1] == chars@.subrange(
            parts[1].0 as int,
            parts[1].1 as int,
        ));
        if w0 == w1 {
            Some(ModuleFilter { module_name: Some(name.to_owned()), level_filter: LevelFilter::max() })
        } else {
            match parse_level_filter(spec.substring_char(w0, w1)) {
                Ok(level) => Some(
                    ModuleFilter { module_name: Some(name.to_owned()), level_filter: level },
                ),
                Err(FlexiLoggerError::LevelFilter(message)) => {
                    push_err(message, parse_errs);
                    None
                },
                Err(_) => None,
            }
        }
    }
}

/// Reads the rules in the range `[lo, hi)` of `chars`, the characters of `spec`.
fn parse_rules(
    spec: &str,
    chars: &Vec<char>,
    lo: usize,
    hi: usize,
    parse_errs: &mut Vec<String>,
) -> (dirs: Vec<ModuleFilter>)
    requires
        chars@ == spec@,
        lo <= hi <= chars.len(),
    ensures
        rules_of(dirs@) == accepted_rules(split(chars@.subrange(lo as int, hi as int), ',')),
        texts(final(parse_errs)@) == texts(old(parse_errs)@) + rule_diagnostics(
            split(chars@.subrange(lo as int, hi as int), ','),
        ),
{
    let ranges = split_range(chars, lo, hi, ',');
    let ghost all = split(chars@.subrange(lo as int, hi as int), ',');
    let mut dirs: Vec<ModuleFilter> = Vec::new();
    let mut k: usize = 0;
    assert(pieces(chars@, ranges@).len() == ranges.len());
    assert(texts(parse_errs@) + rule_diagnostics(all.take(0)) =~= texts(parse_errs@));
    while k < ranges.len()
        invariant
            k <= ranges.len() == all.len(),
            chars@ == spec@,
            all == pieces(chars@, ranges@),
            forall|i: int| 0 <= i < ranges.len() ==> (#[trigger] ranges[i]).0 <= ranges[i].1 <= chars.len(),
            rules_of(dirs@) == accepted_rules(all.take(k as int)),
            texts(parse_errs@) == texts(old(parse_errs)@) + rule_diagnostics(all.take(k as int)),
        decreases ranges.len() - k,
    {
        let (a, b) = ranges[k];
        let ghost dirs_before = rules_of(dirs@);
        let outcome = parse_rule(spec, chars, a, b, parse_errs);
        match outcome {
            Some(filter) => {
                dirs.push(filter);
                assert(rules_of(dirs@) =~= dirs_before.push(filter@));
            },
            None => {},
        }
        proof {
            assert(all.take(k + 1).drop_last() == all.take(k as int));
            assert(all.take(k + 1).last() == chars@.subrange(a as int, b as int));
            match rule_outcome(all[k as int]) {
                RuleOutcome::Rejected(diagnostic) => {
                    assert(texts(parse_errs@) =~= texts(old(parse_errs)@) + rule_diagnostics(
                        all.take(k as int),
                    ).push(diagnostic));
                },
                _ => {},
            }
        }
        k += 1;
    }
    assert(all.take(k as int) == all);
    dirs
}

/// Puts together what a text gives, once it is cut at its slashes: `chars` are
/// the characters of `spec`, and `parts` are the ranges between the slashes.
fn assemble(
    spec: &str,
    chars: &Vec<char>,
    parts: &Vec<(usize, usize)>,
    compiled: Option<Result<TextFilter, String>>,
) -> (r: Result<LogSpecification, FlexiLoggerError>)
    requires
        chars@ == spec@,
        pieces(chars@, parts@) == split(spec@, '/'),
        parts.len() >= 1,
        forall|k: int|
            0 <= k < parts.len() ==> (#[trigger] parts[k]).0 <= parts[k].1 <= chars.len(),
    ensures
        reports(r, parsed(spec@, compiled_view(compiled))),
        r matches Ok(s) ==> well_ordered(s@.rules),
        r matches Err(FlexiLoggerError::Parse(_, s)) ==> well_ordered(s@.rules),
{
    let mut parse_errs: Vec<String> = Vec::new();
    assert(pieces(chars@, parts@).len() == parts.len());
    if parts.len() > 2 {
        push_err(
            concat3("invalid log spec '", spec, "' (too many '/'s), ignoring it"),
            &mut parse_errs,
        );
        assert(texts(parse_errs@) =~= seq![too_many_slashes_message(spec@)]);
        return parse_err(parse_errs, LogSpecification::off());
    }
    assert(pieces(chars@, parts@)[0] == chars@.subrange(parts[0].0 as int, parts[0].1 as int));
    let dirs = parse_rules(spec, chars, parts[0].0, parts[0].1, &mut parse_errs);
    assert(texts(parse_errs@) =~= rule_diagnostics(split(split(spec@, '/')[0], ',')));
    let textfilter = if parts.len() == 2 {
        match compiled {
            Some(Ok(filter)) => Some(filter),
            Some(Err(reason)) => {
                push_err(concat2("invalid regex filter - ", reason.as_str()), &mut parse_errs);
                None
            },
            None => None,
        }
    } else {
        None
    };
    let logspec = LogSpecification::from_rules(dirs, textfilter);
    if parse_errs.is_empty() {
        Ok(logspec)
    } else {
        parse_err(parse_errs, logspec)
    }
}

impl LogSpecification {
    /// Reads a specification from its textual form, compiling the text filter if
    /// the text has one.
    ///
    /// The rules do not depend on the text filter. Where the text has a filter
    /// segment, the result is that of `parse_with_textfilter` for one of the two
    /// things that can come of compiling it: the filter with the segment as its
    /// pattern, or a refusal.
    pub fn parse(spec: &str) -> (r: Result<LogSpecification, FlexiLoggerError>)
        ensures
            is_parse_of(r, spec@),
            r matches Ok(s) ==> well_ordered(s@.rules),
            r matches Err(FlexiLoggerError::Parse(_, s)) ==> well_ordered(s@.rules),
    {
        let chars = to_chars(spec);
        let parts = split_range(&chars, 0, chars.len(), '/');
        assert(chars@.subrange(0, chars.len() as int) == spec@);
        assert(pieces(chars@, parts@).len() == parts.len());
        let compiled = if parts.len() == 2 {
            assert(pieces(chars@, parts@)[1] == chars@.subrange(
                parts[1].0 as int,
                parts[1].1 as int,
            ));
            Some(TextFilter::new(spec.substring_char(parts[1].0, parts[1].1)))
        } else {
            None
        };
        let ghost outcome = compiled_view(compiled);
        let r = assemble(spec, &chars, &parts, compiled);
        proof {
            match outcome {
                Some(Err(reason)) => {
                    assert(reports(r, parsed(spec@, Some(Err(reason)))));
                },
                _ => {},
            }
        }
        r
    }

    /// The specification that the environment asks for: `rust_log` is the value
    /// of the variable `RUST_LOG`, if it is set. Without the variable nothing is
    /// enabled.
    pub fn env(rust_log: Option<&str>) -> (r: Result<LogSpecification, FlexiLoggerError>)
        ensures
            match rust_log {
                Some(spec) => is_parse_of(r, spec@),
                None => r matches Ok(s) && s@.rules.len() == 0 && s@.text_filter is None,
            },
    {
        match rust_log {
            Some(spec) => LogSpecification::parse(spec),
            None => Ok(LogSpecification::off()),
        }
    }

    /// The specification that the environment asks for, or else the one that
    /// `given_spec` describes: `rust_log` is the value of the variable
    /// `RUST_LOG`, if it is set.
    pub fn env_or_parse(rust_log: Option<&str>, given_spec: &str) -> (r: Result<
        LogSpecification,
        FlexiLoggerError,
    >)
        ensures
            match rust_log {
                Some(spec) => is_parse_of(r, spec@),
                None => is_parse_of(r, given_spec@),
            },
    {
        match rust_log {
            Some(spec) => LogSpecification::parse(spec),
            None => LogSpecification::parse(given_spec),
        }
    }

    /// Reads a specification from its textual form, for a caller that has
    /// compiled the filter segment itself and passes what came of it.
    ///
    /// The result is `Ok` exactly when there is no diagnostic; otherwise it is the
    /// `Parse` error with all diagnostics and with the specification that the
    /// sound parts of the text give.
    pub fn parse_with_textfilter(spec: &str, compiled: Option<Result<TextFilter, String>>) -> (r:
        Result<LogSpecification, FlexiLoggerError>)
        ensures
            reports(r, parsed(spec@, compiled_view(compiled))),
            r matches Ok(s) ==> well_ordered(s@.rules),
            r matches Err(FlexiLoggerError::Parse(_, s)) ==> well_ordered(s@.rules),
    {
        let chars = to_chars(spec);
        let parts = split_range(&chars, 0, chars.len(), '/');
        assert(chars@.subrange(0, chars.len() as int) == spec@);
        assemble(spec, &chars, &parts, compiled)
    }
}

} // verus!
