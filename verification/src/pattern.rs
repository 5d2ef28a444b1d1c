//! Patterns over full paths, and the decision to keep an entry.
//!
//! A pattern is a regular expression in the syntax of the `regex` crate.
//! It is compiled once, before any entry is looked at. The empty pattern
//! accepts every path and is never handed to the regex engine.

use vstd::prelude::*;
use crate::entry::Entry;

verus! {

/// `regex::Regex`, a compiled regular expression; nothing of its inside is
/// known here.
#[verifier::external_type_specification]
#[verifier::external_body]
pub struct ExRegex(regex::Regex);

/// `regex::Error`, why a pattern did not compile; nothing of its inside
/// is known here.
#[verifier::external_type_specification]
#[verifier::external_body]
pub struct ExRegexError(regex::Error);

/// Whether the regex engine accepts `source` as a regular expression.
pub uninterp spec fn pattern_compiles(source: Seq<char>) -> bool;

/// The pattern text that a compiled regular expression was made from by
/// `regex::Regex::new`.
pub uninterp spec fn regex_source(regex: regex::Regex) -> Seq<char>;

/// Whether the regular expression written as `source` has a match
/// anywhere in `text`.
pub uninterp spec fn regex_matches(source: Seq<char>, text: Seq<char>) -> bool;

/// Whether a pattern accepts a path. The empty pattern accepts every
/// path; any other pattern accepts a path in which its regular
/// expression has a match.
pub open spec fn pattern_accepts(source: Seq<char>, text: Seq<char>) -> bool {
    source.len() == 0 || regex_matches(source, text)
}

/// A pattern that did not compile.
#[derive(Clone, Debug, PartialEq, Eq)]
pub struct PatternError {
    /// What the regex engine said of the pattern.
    pub message: String,
}

/// A compiled pattern.
pub struct Pattern {
    source: String,
    regex: Option<regex::Regex>,
}

/// `regex::Regex::new`: compiles a regular expression.
///
/// Trusted: whether compilation succeeds is a fixed property of the
/// pattern text, and the compiled expression remembers that text.
#[verifier::external_body]
fn compile_regex(source: &str) -> (r: Result<regex::Regex, regex::Error>)
    ensures
        r is Ok == pattern_compiles(source@),
        r matches Ok(regex) ==> regex_source(regex) == source@,
{
    regex::Regex::new(source)
}

/// `regex::Regex::is_match`: whether the expression matches anywhere in
/// the text.
///
/// Trusted: the answer is a fixed property of the pattern text that the
/// expression was compiled from and of the text searched. That holds of
/// an expression made by `regex::Regex::new`, which takes no flags
/// beside the text; this library makes and holds no other.
#[verifier::external_body]
fn regex_is_match(regex: &regex::Regex, text: &str) -> (matched: bool)
    ensures
        matched == regex_matches(regex_source(*regex), text@),
{
    regex.is_match(text)
}

/// The `Display` text of a `regex::Error`. Trusted, with nothing claimed.
#[verifier::external_body]
fn regex_error_text(error: &regex::Error) -> String {
    error.to_string()
}

impl Pattern {
    /// The text that the pattern was compiled from.
    pub closed spec fn source(&self) -> Seq<char> {
        self.source@
    }

    /// The empty pattern carries no compiled expression; any other
    /// pattern carries the one compiled from its text.
    pub closed spec fn wf(&self) -> bool {
        match self.regex {
            None => self.source@.len() == 0,
            Some(regex) => self.source@.len() > 0 && regex_source(regex) == self.source@,
        }
    }

    /// Whether the pattern accepts a path.
    pub open spec fn accepts(&self, text: Seq<char>) -> bool {
        pattern_accepts(self.source(), text)
    }

    /// Compiles a pattern. The empty pattern always compiles. Any other
    /// pattern compiles exactly when the regex engine accepts it;
    /// otherwise the engine's message comes back as the error.
    pub fn compile(source: &str) -> (r: Result<Pattern, PatternError>)
        ensures
            r is Ok == (source@.len() == 0 || pattern_compiles(source@)),
            r matches Ok(p) ==> p.wf() && p.source() == source@,
    {
        if source.is_empty() {
            return Ok(Pattern { source: String::from_str(source), regex: None });
        }
        match compile_regex(source) {
            Ok(regex) => Ok(Pattern { source: String::from_str(source), regex: Some(regex) }),
            Err(error) => Err(PatternError { message: regex_error_text(&error) }),
        }
    }

    /// Whether the pattern accepts a path.
    pub fn matches(&self, text: &str) -> (matched: bool)
        requires
            self.wf(),
        ensures
            matched == self.accepts(text@),
    {
        match &self.regex {
            None => true,
            Some(regex) => regex_is_match(regex, text),
        }
    }
}

/// Whether an entry is kept: a hidden entry only if hidden entries are
/// included, and any entry only if the pattern accepts its full path. The
/// pattern applies to directories and files alike.
pub open spec fn retained(entry: Entry, source: Seq<char>, include_hidden: bool) -> bool {
    (include_hidden || !entry.hidden()) && pattern_accepts(source, entry.path@)
}

/// Whether an entry is kept. `hidden` is the entry's hidden flag as the
/// classifier gave it.
pub fn retain(entry: &Entry, hidden: bool, pattern: &Pattern, include_hidden: bool) -> (keep:
    bool)
    requires
        pattern.wf(),
    ensures
        keep == ((include_hidden || !hidden) && pattern_accepts(pattern.source(), entry.path@)),
        hidden == entry.hidden() ==> keep == retained(*entry, pattern.source(), include_hidden),
{
    if !include_hidden && hidden {
        return false;
    }
    pattern.matches(entry.path.as_str())
}

} // verus!
