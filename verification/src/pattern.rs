//! A compiled substitution pattern.
//!
//! The pattern engine is an outside collaborator: compiling a pattern and
//! substituting its matches in a string are done by `fancy_regex`.  The
//! library keeps the pattern text beside the compiled value, names the
//! engine's results at the specification level, and states of each call only
//! what the engine's own source shows.

use vstd::prelude::*;

verus! {

/// Declares the outside type `fancy_regex::Regex`, held opaquely beside the
/// text it was compiled from.
#[verifier::external_type_specification]
#[verifier::external_body]
pub struct ExRegex(fancy_regex::Regex);

/// Declares the outside type `fancy_regex::Error`, carried through opaquely
/// and mapped to the library's own errors in verified code.
#[verifier::external_type_specification]
#[verifier::external_body]
pub struct ExRegexError(fancy_regex::Error);

/// Whether the pattern text compiles: `fancy_regex::Regex::new` succeeds on
/// exactly these pattern texts.
pub uninterp spec fn regex_valid(pattern: Seq<char>) -> bool;

/// Whether the pattern matches anywhere in the text, as
/// `fancy_regex::Regex::is_match` decides it.
pub uninterp spec fn regex_matches(pattern: Seq<char>, text: Seq<char>) -> bool;

/// What `fancy_regex::Regex::try_replacen` with no limit returns for this
/// pattern, text and replacement: the text with every non-overlapping match
/// replaced, or `None` where the engine gives up on the search (for example
/// when its backtracking limit is exceeded).
pub uninterp spec fn rewrite_outcome(
    pattern: Seq<char>,
    text: Seq<char>,
    replacement: Seq<char>,
) -> Option<Seq<char>>;

/// The substituted form of `text`: every match of `pattern` replaced by
/// `replacement`, or `None` where the engine fails.  A text without a match
/// comes back unchanged.
pub open spec fn substituted(
    pattern: Seq<char>,
    text: Seq<char>,
    replacement: Seq<char>,
) -> Option<Seq<char>> {
    match rewrite_outcome(pattern, text, replacement) {
        Some(s) => Some(if regex_matches(pattern, text) { s } else { text }),
        None => None,
    }
}

/// A compiled pattern together with the text it was compiled from.  Its view
/// is that text.
#[derive(Debug)]
pub struct Pattern {
    re: fancy_regex::Regex,
    source: String,
}

impl View for Pattern {
    type V = Seq<char>;

    closed spec fn view(&self) -> Seq<char> {
        self.source@
    }
}

impl Pattern {
    /// Relies on `fancy_regex::Regex::new`: it compiles the pattern text and
    /// fails exactly on texts that are not valid patterns.  The compiled
    /// value is kept beside the text it came from.
    #[verifier::external_body]
    pub fn new(pattern: &str) -> (r: Result<Pattern, fancy_regex::Error>)
        ensures
            r is Ok <==> regex_valid(pattern@),
            r matches Ok(p) ==> p@ == pattern@,
    {
        match fancy_regex::Regex::new(pattern) {
            Ok(re) => Ok(Pattern { re, source: pattern.to_string() }),
            Err(e) => Err(e),
        }
    }

    /// Relies on `fancy_regex::Regex::is_match`: when the search completes it
    /// says whether the pattern matches anywhere in the text.
    #[verifier::external_body]
    pub fn is_match(&self, text: &str) -> (r: Result<bool, fancy_regex::Error>)
        ensures
            r matches Ok(b) ==> b == regex_matches(self@, text@),
    {
        self.re.is_match(text)
    }

    /// Relies on `fancy_regex::Regex::try_replacen` with no limit: it
    /// replaces every non-overlapping match of the pattern, returns the text
    /// unchanged when there is no match, and reports an error where the
    /// search gives up.
    #[verifier::external_body]
    pub(crate) fn try_substitute(&self, text: &str, replacement: &str) -> (r: Result<
        String,
        fancy_regex::Error,
    >)
        ensures
            r is Ok <==> rewrite_outcome(self@, text@, replacement@) is Some,
            r matches Ok(s) ==> rewrite_outcome(self@, text@, replacement@) == Some(s@),
            r matches Ok(s) ==> (regex_matches(self@, text@) || s@ == text@),
    {
        match self.re.try_replacen(text, 0, replacement) {
            Ok(cow) => Ok(cow.into_owned()),
            Err(e) => Err(e),
        }
    }
}

/// Relies on the `Display` impl of `fancy_regex::Error`: the error's text,
/// for reporting only; nothing is claimed of it.
#[verifier::external_body]
pub(crate) fn error_text(e: &fancy_regex::Error) -> String {
    e.to_string()
}

/// Substituting a second time changes nothing, once the first result no
/// longer matches the pattern: a substitution whose result is match-free is
/// idempotent, whenever the engine completes the second search at all.
pub proof fn lemma_substitution_idempotent(
    pattern: Seq<char>,
    text: Seq<char>,
    replacement: Seq<char>,
    once: Seq<char>,
)
    requires
        substituted(pattern, text, replacement) == Some(once),
        !regex_matches(pattern, once),
        substituted(pattern, once, replacement) is Some,
    ensures
        substituted(pattern, once, replacement) == Some(once),
{
}

} // verus!
