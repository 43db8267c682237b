use fancy_regex::{CompileError, Error, Regex};
use std::borrow::Cow;
use vstd::prelude::*;

verus! {

/// The compiled pattern of `fancy_regex`. Nothing inside it is visible here.
#[verifier::external_type_specification]
#[verifier::external_body]
pub struct ExRegex(fancy_regex::Regex);

/// Why the matcher turned a pattern down.
#[derive(Clone, Copy, Debug, PartialEq, Eq)]
pub enum PatternFault {
    /// The pattern does not parse.
    Parse,
    /// A look-behind whose width is not constant.
    LookBehindNotConst,
    /// A look-behind of variable width, which this build of the matcher does
    /// not run.
    VariableLookBehind,
    /// The pattern parses and does not compile, for another reason.
    Compile,
    /// Anything else.
    Other,
}

/// What `fancy_regex::Regex::new` makes of `pattern`: `None` where it gives a
/// matcher, else the kind of its error. It compiles with the default options,
/// so the pattern alone decides.
pub uninterp spec fn compile_fault(pattern: Seq<char>) -> Option<PatternFault>;

/// A pattern that compiled, with its source text.
///
/// The two fields are private and `Matcher::compile` is the only place that
/// fills them, so `regex` is always what `Regex::new` made of `source`.
#[derive(Debug)]
pub struct Matcher {
    source: String,
    regex: Regex,
}

impl View for Matcher {
    type V = Seq<char>;

    /// A matcher is known by the pattern it was compiled from.
    closed spec fn view(&self) -> Seq<char> {
        self.source@
    }
}

/// What one substitution pass over a text gave.
#[derive(Clone, Debug, PartialEq, Eq)]
pub enum Substitution {
    /// The pattern matched nowhere.
    Unmatched,
    /// The pattern matched, and this is the text with every match replaced.
    Rewritten(String),
    /// Matching failed while it ran.
    Failed,
}

/// What a `Substitution` holds.
pub enum SubstitutionView {
    Unmatched,
    Rewritten(Seq<char>),
    Failed,
}

impl View for Substitution {
    type V = SubstitutionView;

    open spec fn view(&self) -> SubstitutionView {
        match self {
            Substitution::Unmatched => SubstitutionView::Unmatched,
            Substitution::Rewritten(text) => SubstitutionView::Rewritten(text@),
            Substitution::Failed => SubstitutionView::Failed,
        }
    }
}

/// What `fancy_regex::Regex::try_replacen` with no limit gives for the
/// matcher compiled from `pattern`, on `text` and with the replacement
/// `template`: every match replaced, `${k}` in the template standing for what
/// group `k` of the match took.
pub uninterp spec fn substitution(
    pattern: Seq<char>,
    text: Seq<char>,
    template: Seq<char>,
) -> SubstitutionView;

impl Matcher {
    /// Calls `fancy_regex::Regex::new`, which compiles with the default
    /// options. The contract names the outcome `compile_fault(pattern)` and
    /// claims that the matcher keeps `pattern` as its source, which is what
    /// `Regex::as_str` hands back. An error is told apart by its variant
    /// only.
    #[verifier::external_body]
    pub(crate) fn compile(pattern: &str) -> (made: Result<Matcher, PatternFault>)
        ensures
            match made {
                Ok(matcher) => compile_fault(pattern@) is None && matcher@ == pattern@,
                Err(fault) => compile_fault(pattern@) == Some(fault),
            },
    {
        match Regex::new(pattern) {
            Ok(regex) => Ok(Matcher { source: regex.as_str().to_string(), regex }),
            Err(Error::ParseError(..)) => Err(PatternFault::Parse),
            Err(Error::CompileError(error)) => match *error {
                CompileError::LookBehindNotConst => Err(PatternFault::LookBehindNotConst),
                CompileError::VariableLookBehindRequiresFeature => Err(
                    PatternFault::VariableLookBehind,
                ),
                _ => Err(PatternFault::Compile),
            },
            Err(_) => Err(PatternFault::Other),
        }
    }

    /// Calls `fancy_regex::Regex::try_replacen` with the limit 0, which
    /// replaces every match, leftmost first and none overlapping another.
    /// It hands the text back borrowed where nothing matched, a new text
    /// where something did, and an error where matching failed; the contract
    /// names that outcome `substitution(pattern, text, template)`.
    #[verifier::external_body]
    pub(crate) fn substitute(&self, text: &str, template: &str) -> (done: Substitution)
        ensures
            done@ == substitution(self@, text@, template@),
    {
        match self.regex.try_replacen(text, 0, template) {
            Ok(Cow::Borrowed(_)) => Substitution::Unmatched,
            Ok(Cow::Owned(rewritten)) => Substitution::Rewritten(rewritten),
            Err(_) => Substitution::Failed,
        }
    }

    /// The pattern that the matcher was compiled from.
    pub fn as_str(&self) -> (source: &str)
        ensures
            source@ == self@,
    {
        self.source.as_str()
    }
}

} // verus!
