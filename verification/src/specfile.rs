//! The persisted form of a specification: a file with an optional default
//! severity, an optional pattern for the text filter, and a table from module
//! names to severities.

use crate::flexi_error::FlexiLoggerError;
use crate::level::LevelFilter;
use crate::log_specification::{
    rules_of,
    sort_rules,
    specificity,
    well_ordered,
    LogSpecification,
    ModuleFilter,
    Rule,
    SpecView,
};
use crate::parser::{
    compiled_view,
    invalid_regex_message,
    level_filter_named,
    parse_err,
    parse_level_filter,
    push_err,
    reports,
    unknown_level_message,
    Parsed,
};
use crate::text::{concat2, texts};
use crate::text_filter::TextFilter;
use vstd::prelude::*;

verus! {

/// The content of a specification file, taken apart: the scalar
/// `global_level`, the scalar `global_pattern`, and the entries of the table
/// `modules` in the order in which the table yields them.
#[derive(Debug)]
pub struct LogSpecFileFormat {
    pub global_level: Option<String>,
    pub global_pattern: Option<String>,
    pub modules: Vec<(String, String)>,
}

/// The mathematical content of a `LogSpecFileFormat`.
pub struct FileForm {
    pub global_level: Option<Seq<char>>,
    pub global_pattern: Option<Seq<char>>,
    pub modules: Seq<(Seq<char>, Seq<char>)>,
}

/// The entries of a table as texts.
pub open spec fn entries_of(modules: Seq<(String, String)>) -> Seq<(Seq<char>, Seq<char>)> {
    modules.map_values(|entry: (String, String)| (entry.0@, entry.1@))
}

impl View for LogSpecFileFormat {
    type V = FileForm;

    open spec fn view(&self) -> FileForm {
        FileForm {
            global_level: match self.global_level {
                Some(level) => Some(level@),
                None => None,
            },
            global_pattern: match self.global_pattern {
                Some(pattern) => Some(pattern@),
                None => None,
            },
            modules: entries_of(self.modules@),
        }
    }
}

/// The rules that the entries of the table give, in their order, or the
/// message about the first entry whose severity has no known name.
pub open spec fn module_rules(modules: Seq<(Seq<char>, Seq<char>)>) -> Result<
    Seq<Rule>,
    Seq<char>,
>
    decreases modules.len(),
{
    if modules.len() == 0 {
        Ok(Seq::empty())
    } else {
        match module_rules(modules.drop_last()) {
            Err(message) => Err(message),
            Ok(front) => match level_filter_named(modules.last().1) {
                Some(level) => Ok(
                    front.push(Rule { module_name: Some(modules.last().0), level_filter: level }),
                ),
                None => Err(unknown_level_message(modules.last().1)),
            },
        }
    }
}

/// The rules that a file gives before they are sorted: the nameless rule, if
/// the file sets a default severity, and then the rules of the table. A
/// severity without a known name makes the whole file invalid.
pub open spec fn file_rules(form: FileForm) -> Result<Seq<Rule>, Seq<char>> {
    match form.global_level {
        None => module_rules(form.modules),
        Some(word) => match level_filter_named(word) {
            None => Err(unknown_level_message(word)),
            Some(level) => match module_rules(form.modules) {
                Err(message) => Err(message),
                Ok(rules) => Ok(seq![Rule { module_name: None, level_filter: level }] + rules),
            },
        },
    }
}

/// What a file means, given what came of compiling its pattern.
pub enum FileOutcome {
    /// A severity has no known name; the file is refused with this message.
    BadLevel(Seq<char>),
    /// The file was read.
    Read(Parsed),
}

/// What a file means, given what came of compiling its pattern. `compiled`
/// counts only where the file has a pattern: one that compiled becomes the text
/// filter, one that did not leaves the rules valid and adds a diagnostic.
pub open spec fn file_outcome(
    form: FileForm,
    compiled: Option<Result<Seq<char>, Seq<char>>>,
) -> FileOutcome {
    match file_rules(form) {
        Err(message) => FileOutcome::BadLevel(message),
        Ok(rules) => {
            let rules = sort_rules(rules);
            match (form.global_pattern, compiled) {
                (Some(_), Some(Ok(pattern))) => FileOutcome::Read(
                    Parsed { rules, text_filter: Some(pattern), diagnostics: Seq::empty() },
                ),
                (Some(_), Some(Err(reason))) => FileOutcome::Read(
                    Parsed {
                        rules,
                        text_filter: None,
                        diagnostics: seq![invalid_regex_message(reason)],
                    },
                ),
                _ => FileOutcome::Read(
                    Parsed { rules, text_filter: None, diagnostics: Seq::empty() },
                ),
            }
        },
    }
}

/// How a result reports what a file means.
pub open spec fn reports_file(
    r: Result<LogSpecification, FlexiLoggerError>,
    outcome: FileOutcome,
) -> bool {
    match outcome {
        FileOutcome::BadLevel(message) => r matches Err(FlexiLoggerError::LevelFilter(m)) && m@
            == message,
        FileOutcome::Read(p) => reports(r, p),
    }
}

/// The entries of the table that is written for a rule set: one for each named
/// rule, in the order of the rules, with the severity by its canonical name.
pub open spec fn named_entries(rules: Seq<Rule>) -> Seq<(Seq<char>, Seq<char>)>
    decreases rules.len(),
{
    if rules.len() == 0 {
        Seq::empty()
    } else {
        let front = named_entries(rules.drop_last());
        match rules.last().module_name {
            Some(name) => front.push((name, rules.last().level_filter.name())),
            None => front,
        }
    }
}

/// The content of the file that is written for a specification: the default
/// severity is that of the last rule if it is nameless, the pattern is that of
/// the text filter if there is one, and the table holds the named rules.
pub open spec fn file_form_of(spec: SpecView) -> FileForm {
    FileForm {
        global_level: if spec.rules.len() > 0 && spec.rules.last().module_name is None {
            Some(spec.rules.last().level_filter.name())
        } else {
            None
        },
        global_pattern: spec.text_filter,
        modules: named_entries(spec.rules),
    }
}

/// The line of a file that sets the default severity, or else a comment that
/// shows how to set one.
pub open spec fn global_level_line(form: FileForm) -> Seq<char> {
    match form.global_level {
        Some(word) => "global_level = '"@ + word + "'\n"@,
        None => "#global_level = 'info'\n"@,
    }
}

/// The line of a file that sets the pattern of the text filter, or else a
/// comment that shows how to set one.
pub open spec fn global_pattern_line(form: FileForm) -> Seq<char> {
    match form.global_pattern {
        Some(pattern) => "global_pattern = '"@ + pattern + "'\n"@,
        None => "#global_pattern = 'foo'\n"@,
    }
}

/// The comments that show how to write the table, where the table is empty.
pub open spec fn module_examples(form: FileForm) -> Seq<char> {
    if form.modules.len() == 0 {
        "#'mod1' = 'warn'\n"@ + "#'mod2' = 'debug'\n"@ + "#'mod2::mod3' = 'trace'\n"@
    } else {
        Seq::empty()
    }
}

/// The line of the table for one entry.
pub open spec fn module_line(entry: (Seq<char>, Seq<char>)) -> Seq<char> {
    "'"@ + entry.0 + "' = '"@ + entry.1 + "'\n"@
}

/// The lines of the table, in the order of the entries.
pub open spec fn module_lines(modules: Seq<(Seq<char>, Seq<char>)>) -> Seq<char>
    decreases modules.len(),
{
    if modules.len() == 0 {
        Seq::empty()
    } else {
        module_lines(modules.drop_last()) + module_line(modules.last())
    }
}

/// The text of a file with the given default severity, pattern and table.
/// Names and the pattern are written between single quotes as they are.
pub open spec fn toml_text(form: FileForm) -> Seq<char> {
    "### Optional: Default log level\n"@ + global_level_line(form)
        + "\n### Optional: specify a regular expression to suppress all messages that don't match\n"@
        + global_pattern_line(form)
        + "\n### Specific log levels per module are optionally defined in this section\n"@
        + "[modules]\n"@ + module_examples(form) + module_lines(form.modules)
}

/// A rule set without named rules has no entries for the table.
pub proof fn lemma_no_named_rule_no_entry(rules: Seq<Rule>)
    requires
        forall|k: int| 0 <= k < rules.len() ==> (#[trigger] rules[k]).module_name is None,
    ensures
        named_entries(rules).len() == 0,
    decreases rules.len(),
{
    if rules.len() > 0 {
        let front = rules.drop_last();
        assert forall|k: int| 0 <= k < front.len() implies (#[trigger] front[k]).module_name
            is None by {
            assert(front[k] == rules[k]);
        }
        lemma_no_named_rule_no_entry(front);
        assert(rules.last() == rules[rules.len() - 1]);
    }
}

/// A rule set with a named rule has an entry for the table.
pub proof fn lemma_named_rule_has_entry(rules: Seq<Rule>, k: int)
    requires
        0 <= k < rules.len(),
        rules[k].module_name is Some,
    ensures
        named_entries(rules).len() > 0,
    decreases rules.len(),
{
    if k < rules.len() - 1 {
        assert(rules.drop_last()[k] == rules[k]);
        lemma_named_rule_has_entry(rules.drop_last(), k);
    }
}

/// What is to be done about a specification file.
#[derive(Debug)]
pub enum SpecfileAction {
    /// The file exists: it is left untouched.
    Keep,
    /// The file does not exist: it is to be created with this content.
    Create(String),
}

impl LogSpecification {
    /// Reads a specification from the content of a specification file, compiling
    /// the pattern if the file has one.
    ///
    /// The result is that of `from_toml_with_textfilter` for one of the two things
    /// that can come of compiling the pattern: the filter with that pattern, or a
    /// refusal.
    pub fn from_toml(form: &LogSpecFileFormat) -> (r: Result<LogSpecification, FlexiLoggerError>)
        ensures
            match form@.global_pattern {
                None => reports_file(r, file_outcome(form@, None)),
                Some(pattern) => reports_file(r, file_outcome(form@, Some(Ok(pattern))))
                    || exists|reason: Seq<char>|
                    reports_file(r, file_outcome(form@, Some(Err(reason)))),
            },
            r matches Ok(s) ==> well_ordered(s@.rules),
            r matches Err(FlexiLoggerError::Parse(_, s)) ==> well_ordered(s@.rules),
    {
        match &form.global_pattern {
            None => LogSpecification::from_toml_with_textfilter(form, None),
            Some(pattern) => {
                let compiled = TextFilter::new(pattern.as_str());
                let ghost outcome = compiled;
                let r = LogSpecification::from_toml_with_textfilter(form, Some(compiled));
                proof {
                    match outcome {
                        Err(reason) => {
                            assert(reports_file(r, file_outcome(form@, Some(Err(reason@)))));
                        },
                        Ok(filter) => {
                            assert(reports_file(r, file_outcome(form@, Some(Ok(pattern@)))));
                        },
                    }
                }
                r
            },
        }
    }

    /// Reads a specification from the content of a specification file, for a
    /// caller that has compiled the pattern itself and passes what came of it.
    ///
    /// A severity without a known name is an error of its own, and the first one
    /// in the file is reported. Otherwise the result is `Ok` exactly when the
    /// pattern gave no diagnostic.
    pub fn from_toml_with_textfilter(
        form: &LogSpecFileFormat,
        compiled: Option<Result<TextFilter, String>>,
    ) -> (r: Result<LogSpecification, FlexiLoggerError>)
        ensures
            reports_file(r, file_outcome(form@, compiled_view(compiled))),
            r matches Ok(s) ==> well_ordered(s@.rules),
            r matches Err(FlexiLoggerError::Parse(_, s)) ==> well_ordered(s@.rules),
    {
        let mut parse_errs: Vec<String> = Vec::new();
        let mut module_filters: Vec<ModuleFilter> = Vec::new();
        if let Some(s) = &form.global_level {
            match parse_level_filter(s.as_str()) {
                Ok(level) => {
                    module_filters.push(ModuleFilter { module_name: None, level_filter: level });
                },
                Err(e) => {
                    return Err(e);
                },
            }
        }
        let ghost head = rules_of(module_filters@);
        let ghost modules = entries_of(form.modules@);
        let mut i: usize = 0;
        assert(modules.take(0) =~= Seq::empty());
        assert(head + Seq::<Rule>::empty() =~= head);
        assert(match form@.global_level {
            None => head =~= Seq::<Rule>::empty(),
            Some(word) => level_filter_named(word) matches Some(level) && head =~= seq![
                Rule { module_name: None, level_filter: level },
            ],
        });
        while i < form.modules.len()
            invariant
                i <= form.modules.len(),
                modules == entries_of(form.modules@),
                match form@.global_level {
                    None => head == Seq::<Rule>::empty(),
                    Some(word) => level_filter_named(word) matches Some(level) && head == seq![
                        Rule { module_name: None, level_filter: level },
                    ],
                },
                module_rules(modules.take(i as int)) is Ok,
                rules_of(module_filters@) == head + module_rules(modules.take(i as int))->Ok_0,
            decreases form.modules.len() - i,
        {
            let entry = &form.modules[i];
            assert(modules.take(i + 1).drop_last() == modules.take(i as int));
            assert(modules.take(i + 1).last() == (entry.0@, entry.1@));
            let ghost before = rules_of(module_filters@);
            match parse_level_filter(entry.1.as_str()) {
                Ok(level) => {
                    let filter = ModuleFilter {
                        module_name: Some(entry.0.clone()),
                        level_filter: level,
                    };
                    module_filters.push(filter);
                    assert(rules_of(module_filters@) =~= before.push(filter@));
                    assert(rules_of(module_filters@) =~= head + module_rules(
                        modules.take(i + 1),
                    )->Ok_0);
                },
                Err(e) => {
                    proof {
                        assert(module_rules(modules.take(i + 1)) == Err::<Seq<Rule>, Seq<char>>(
                            unknown_level_message(entry.1@),
                        ));
                        lemma_module_rules_error(modules, i + 1);
                    }
                    return Err(e);
                },
            }
            i += 1;
        }
        assert(modules.take(i as int) == modules);
        assert(file_rules(form@) is Ok);
        assert(rules_of(module_filters@) =~= file_rules(form@)->Ok_0);
        let textfilter = match &form.global_pattern {
            None => None,
            Some(_) => match compiled {
                Some(Ok(filter)) => Some(filter),
                Some(Err(reason)) => {
                    push_err(concat2("invalid regex filter - ", reason.as_str()), &mut parse_errs);
                    assert(texts(parse_errs@) =~= seq![invalid_regex_message(reason@)]);
                    None
                },
                None => None,
            },
        };
        let logspec = LogSpecification::from_rules(module_filters, textfilter);
        if parse_errs.is_empty() {
            assert(texts(parse_errs@) =~= Seq::<Seq<char>>::empty());
            Ok(logspec)
        } else {
            parse_err(parse_errs, logspec)
        }
    }

    /// The text of the specification file for this specification: the default
    /// severity, if there is a nameless rule, the pattern of the text filter, if
    /// there is one, and a table with one line for each named rule, most
    /// specific first.
    pub fn to_toml(&self) -> (text: String)
        ensures
            text@ == toml_text(file_form_of(self@)),
    {
        let filters = self.module_filters();
        let ghost rules = rules_of(filters@);
        let ghost form = file_form_of(self@);
        let n = filters.len();
        let mut w = String::new();
        w.append("### Optional: Default log level\n");
        if n > 0 && filters[n - 1].module_name.is_none() {
            assert(rules.last() == filters@[n - 1]@);
            w.append("global_level = '");
            w.append(filters[n - 1].level_filter.as_str());
            w.append("'\n");
        } else {
            if n > 0 {
                assert(rules.last() == filters@[n - 1]@);
            }
            w.append("#global_level = 'info'\n");
        }
        assert(w@ =~= "### Optional: Default log level\n"@ + global_level_line(form));
        w.append(
            "\n### Optional: specify a regular expression to suppress all messages that don't match\n",
        );
        match self.text_filter() {
            Some(filter) => {
                w.append("global_pattern = '");
                w.append(filter.as_str());
                w.append("'\n");
            },
            None => {
                w.append("#global_pattern = 'foo'\n");
            },
        }
        assert(w@ =~= "### Optional: Default log level\n"@ + global_level_line(form)
            + "\n### Optional: specify a regular expression to suppress all messages that don't match\n"@
            + global_pattern_line(form));
        w.append("\n### Specific log levels per module are optionally defined in this section\n");
        w.append("[modules]\n");
        if n == 0 || filters[0].module_name.is_none() {
            proof {
                if n > 0 {
                    assert(rules[0] == filters@[0]@);
                    assert forall|k: int| 0 <= k < rules.len() implies (
                    #[trigger] rules[k]).module_name is None by {
                        if k > 0 {
                            assert(specificity(rules[0]) >= specificity(rules[k]));
                        }
                    }
                }
                lemma_no_named_rule_no_entry(rules);
            }
            w.append("#'mod1' = 'warn'\n");
            w.append("#'mod2' = 'debug'\n");
            w.append("#'mod2::mod3' = 'trace'\n");
        } else {
            proof {
                assert(rules[0] == filters@[0]@);
                lemma_named_rule_has_entry(rules, 0);
            }
        }
        let ghost head = w@;
        assert(head =~= "### Optional: Default log level\n"@ + global_level_line(form)
            + "\n### Optional: specify a regular expression to suppress all messages that don't match\n"@
            + global_pattern_line(form)
            + "\n### Specific log levels per module are optionally defined in this section\n"@
            + "[modules]\n"@ + module_examples(form));
        let mut i: usize = 0;
        assert(rules.take(0) =~= Seq::<Rule>::empty());
        assert(head + module_lines(named_entries(rules.take(0))) =~= head);
        while i < n
            invariant
                i <= n == filters.len(),
                rules == rules_of(filters@),
                w@ == head + module_lines(named_entries(rules.take(i as int))),
            decreases n - i,
        {
            let mf = &filters[i];
            assert(rules.take(i + 1).drop_last() == rules.take(i as int));
            assert(rules.take(i + 1).last() == mf@);
            let ghost before = w@;
            if let Some(name) = &mf.module_name {
                w.append("'");
                w.append(name.as_str());
                w.append("' = '");
                w.append(mf.level_filter.as_str());
                w.append("'\n");
                assert(w@ =~= before + module_line((name@, mf.level_filter.name())));
                assert(named_entries(rules.take(i + 1)).drop_last() =~= named_entries(
                    rules.take(i as int),
                ));
            }
            assert(w@ =~= head + module_lines(named_entries(rules.take(i + 1))));
            i += 1;
        }
        assert(rules.take(n as int) == rules);
        w
    }

    /// Decides what is to be done about the specification file before it is
    /// watched. `extension` is the suffix of the file's name, without the dot,
    /// and `is_file` says whether the file exists.
    ///
    /// Only files with the suffix `toml` are supported. A file that exists is
    /// left untouched; one that does not is to be created with this
    /// specification as its content.
    pub fn ensure_specfile_is_valid(&self, extension: &str, is_file: bool) -> (r: Result<
        SpecfileAction,
        FlexiLoggerError,
    >)
        ensures
            extension@ != "toml"@ ==> (r matches Err(FlexiLoggerError::Parse(errors, spec))
                && texts(errors@) == seq!["only files with suffix toml are supported"@]
                && spec@.rules.len() == 0 && spec@.text_filter is None),
            extension@ == "toml"@ && is_file ==> r matches Ok(SpecfileAction::Keep),
            extension@ == "toml"@ && !is_file ==> (r matches Ok(SpecfileAction::Create(text))
                && text@ == toml_text(file_form_of(self@))),
    {
        let suffix = extension.to_owned();
        let toml = "toml".to_owned();
        if suffix != toml {
            let mut errors: Vec<String> = Vec::new();
            errors.push("only files with suffix toml are supported".to_owned());
            assert(texts(errors@) =~= seq!["only files with suffix toml are supported"@]);
            return Err(FlexiLoggerError::Parse(errors, LogSpecification::off()));
        }
        if is_file {
            return Ok(SpecfileAction::Keep);
        }
        Ok(SpecfileAction::Create(self.to_toml()))
    }
}

/// Once a prefix of the table holds an entry with an unknown severity, the
/// message about the first such entry is what the whole table gives.
pub proof fn lemma_module_rules_error(modules: Seq<(Seq<char>, Seq<char>)>, n: int)
    requires
        0 <= n <= modules.len(),
        module_rules(modules.take(n)) is Err,
    ensures
        module_rules(modules) == module_rules(modules.take(n)),
    decreases modules.len() - n,
{
    if n < modules.len() {
        assert(modules.take(n + 1).drop_last() == modules.take(n));
        lemma_module_rules_error(modules, n + 1);
    } else {
        assert(modules.take(n) == modules);
    }
}

} // verus!
