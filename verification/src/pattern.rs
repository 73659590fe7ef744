//! Regular expressions on log group names.

use regex::Regex;
use vstd::prelude::*;

verus! {

/// The message with which `regex` refuses a pattern, or `None` where it accepts it, on a machine
/// whose largest `usize` is `max`: how large a compiled pattern is depends on the machine's width.
pub uninterp spec fn regex_error(pattern: Seq<char>, max: usize) -> Option<Seq<char>>;

/// Whether `regex` finds an accepted pattern anywhere in a text.
pub uninterp spec fn regex_is_match(pattern: Seq<char>, text: Seq<char>) -> bool;

/// A pattern that `regex` accepts, by its text.
#[derive(Debug)]
pub struct Pattern {
    source: String,
}

impl View for Pattern {
    type V = Seq<char>;

    closed spec fn view(&self) -> Seq<char> {
        self.source@
    }
}

impl Clone for Pattern {
    fn clone(&self) -> (copy: Self)
        ensures
            copy@ == self@,
    {
        proof {
            use_type_invariant(self);
        }
        Pattern { source: self.source.clone() }
    }
}

impl Pattern {
    #[verifier::type_invariant]
    pub closed spec fn wf(self) -> bool {
        regex_error(self.source@, usize::MAX) is None
    }

    /// The text of the pattern.
    pub fn as_str(&self) -> (text: &str)
        ensures
            text@ == self@,
    {
        self.source.as_str()
    }

    /// Whether the pattern occurs in `text`.
    pub fn is_match(&self, text: &str) -> (found: bool)
        ensures
            found == regex_is_match(self@, text@),
    {
        proof {
            use_type_invariant(self);
        }
        search(self.source.as_str(), text)
    }
}

/// Compiles a pattern with `Regex::new`, which accepts it or gives an error; which of them,
/// and the error's message, depends on the pattern and the machine's width alone and is named
/// `regex_error`.
#[verifier::external_body]
fn compile(pattern: &str) -> (outcome: Result<(), String>)
    ensures
        match outcome {
            Ok(()) => regex_error(pattern@, usize::MAX) is None,
            Err(message) => regex_error(pattern@, usize::MAX) == Some(message@),
        },
{
    Regex::new(pattern).map(|_regex| ()).map_err(|e| e.to_string())
}

/// Searches a text for a pattern with `Regex::is_match`, whose answer depends on the pattern
/// and the text alone and is named `regex_is_match`.
#[verifier::external_body]
fn search(pattern: &str, text: &str) -> (found: bool)
    requires
        regex_error(pattern@, usize::MAX) is None,
    ensures
        found == regex_is_match(pattern@, text@),
{
    Regex::new(pattern).unwrap().is_match(text)
}

/// The pattern with this text, or the message with which it is refused.
pub fn parse_regex(s: &str) -> (pattern: Result<Pattern, String>)
    ensures
        match pattern {
            Ok(p) => regex_error(s@, usize::MAX) is None && p@ == s@,
            Err(message) => regex_error(s@, usize::MAX) == Some(message@),
        },
{
    match compile(s) {
        Ok(()) => Ok(Pattern { source: s.to_owned() }),
        Err(message) => Err(message),
    }
}

} // verus!
