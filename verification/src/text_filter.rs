//! The optional text filter of a specification: a regular expression that the
//! rendered message of a record has to match.

use vstd::prelude::*;

verus! {

/// `regex::Regex`, a compiled regular expression. Nothing inside it is visible
/// to the proofs; it is only carried along.
#[verifier::external_type_specification]
#[verifier::external_body]
pub struct ExRegex(regex::Regex);

/// `regex::Error`, the reason why a pattern was refused. Nothing inside it is
/// visible to the proofs.
#[verifier::external_type_specification]
#[verifier::external_body]
pub struct ExRegexError(regex::Error);

/// Calls `regex::Regex::new`, which compiles a pattern or refuses it. Whether a
/// pattern compiles also depends on a size limit that is measured on the
/// machine, so the contract claims nothing about the outcome.
#[verifier::external_body]
fn compile(pattern: &str) -> (r: Result<regex::Regex, regex::Error>) {
    regex::Regex::new(pattern)
}

/// Renders a `regex::Error` through its `Display` implementation. The contract
/// claims nothing about the text.
#[verifier::external_body]
fn error_text(error: &regex::Error) -> (text: String) {
    error.to_string()
}

/// `Clone` of `regex::Regex`. A compiled expression is opaque here, so the
/// contract claims nothing about the copy.
pub assume_specification[ <regex::Regex as Clone>::clone ](source: &regex::Regex) -> (copy:
    regex::Regex)
;

/// A compiled text filter together with the pattern it was compiled from.
///
/// The view of a text filter is its pattern. That the compiled expression
/// belongs to the pattern is not part of any contract, since nothing inside a
/// compiled expression is visible to the proofs: it holds for every filter
/// that `new` makes, and for one that `from_compiled` makes if the caller
/// passes what came of compiling that pattern.
#[derive(Debug)]
pub struct TextFilter {
    pattern: String,
    expression: regex::Regex,
}

impl View for TextFilter {
    type V = Seq<char>;

    closed spec fn view(&self) -> Seq<char> {
        self.pattern@
    }
}

impl Clone for TextFilter {
    fn clone(&self) -> (copy: Self)
        ensures
            copy@ == self@,
    {
        TextFilter { pattern: self.pattern.clone(), expression: self.expression.clone() }
    }
}

impl TextFilter {
    /// The compiled expression that the filter holds.
    pub closed spec fn compiled(&self) -> regex::Regex {
        self.expression
    }

    /// Compiles `pattern`. A pattern that is accepted is kept as the view of the
    /// filter; one that is refused yields the compiler's message.
    pub fn new(pattern: &str) -> (r: Result<TextFilter, String>)
        ensures
            r matches Ok(filter) ==> filter@ == pattern@,
    {
        let outcome = match compile(pattern) {
            Ok(expression) => Ok(expression),
            Err(e) => Err(error_text(&e)),
        };
        TextFilter::from_compiled(pattern, outcome)
    }

    /// The filter for `pattern`, given what came of compiling it: the compiled
    /// expression, or the reason why the pattern was refused. An expression is
    /// taken into the filter together with the pattern, and a refusal is handed
    /// on as it is.
    pub fn from_compiled(pattern: &str, outcome: Result<regex::Regex, String>) -> (r: Result<
        TextFilter,
        String,
    >)
        ensures
            match outcome {
                Ok(expression) => r matches Ok(filter) && filter@ == pattern@ && filter.compiled()
                    == expression,
                Err(reason) => r == Err::<TextFilter, String>(reason),
            },
    {
        match outcome {
            Ok(expression) => Ok(TextFilter { pattern: pattern.to_owned(), expression }),
            Err(reason) => Err(reason),
        }
    }

    /// The pattern of the filter.
    pub fn as_str(&self) -> (s: &str)
        ensures
            s@ == self@,
    {
        self.pattern.as_str()
    }

    /// The pattern of the filter, as an owned string.
    pub fn to_string(&self) -> (s: String)
        ensures
            s@ == self@,
    {
        self.pattern.clone()
    }

    /// The compiled expression that the filter holds, for matching rendered
    /// messages.
    pub fn expression(&self) -> (expression: &regex::Regex)
        ensures
            *expression == self.compiled(),
    {
        &self.expression
    }
}

} // verus!
