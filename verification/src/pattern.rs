//! Regular-expression matching through the `regex` crate.
//!
//! What a regular expression matches is the `regex` crate's business; the
//! library names those results (`regex_*` below) and states its own logic
//! over the names.
use regex::Regex;
use vstd::prelude::*;

verus! {

#[verifier::external_type_specification]
#[verifier::external_body]
pub struct ExRegex(Regex);

/// Whether `regex::Regex::new` accepts the pattern `source`.
pub uninterp spec fn regex_compiles(source: Seq<char>) -> bool;

/// Whether the compiled pattern `source` matches somewhere in `text`.
pub uninterp spec fn regex_is_match(source: Seq<char>, text: Seq<char>) -> bool;

/// The text of capture group `group` in the first match of `source` in `text`
/// (`None` when there is no match or the group did not take part in it).
pub uninterp spec fn regex_capture(source: Seq<char>, text: Seq<char>, group: nat) -> Option<
    Seq<char>,
>;

/// The number of non-overlapping matches of `source` in `text`.
pub uninterp spec fn regex_match_count(source: Seq<char>, text: Seq<char>) -> nat;

/// For each successive non-overlapping match of `source` in `text`, the text
/// of capture group `group` (`None` where the group did not take part).
pub uninterp spec fn regex_all_captures(source: Seq<char>, text: Seq<char>, group: nat) -> Seq<
    Option<Seq<char>>,
>;

/// `text` with every match of `source` removed.
pub uninterp spec fn regex_remove_all(source: Seq<char>, text: Seq<char>) -> Seq<char>;

/// A compiled regular expression together with the pattern it was compiled from.
///
/// Values are only made by [`Pattern::new`], the one place that produces a
/// `regex::Regex`, so `compiled` is always `Regex::new(source)`.
pub struct Pattern {
    source: String,
    compiled: Regex,
}

impl Pattern {
    /// The pattern text this value was compiled from.
    pub closed spec fn source(&self) -> Seq<char> {
        self.source@
    }

    /// Compiles `source`.
    ///
    /// Trusted: calls `regex::Regex::new`, which returns `Ok` exactly when the
    /// pattern is valid (and within the default size limit); the result is
    /// kept with the pattern text it came from.
    #[verifier::external_body]
    pub(crate) fn new(source: &str) -> (r: Option<Pattern>)
        ensures
            r is Some <==> regex_compiles(source@),
            r matches Some(p) ==> p.source() == source@,
    {
        match Regex::new(source) {
            Ok(compiled) => Some(Pattern { source: source.to_string(), compiled }),
            Err(_) => None,
        }
    }

    /// Trusted: calls `regex::Regex::is_match`.
    #[verifier::external_body]
    pub(crate) fn is_match(&self, text: &str) -> (b: bool)
        ensures
            b == regex_is_match(self.source(), text@),
    {
        self.compiled.is_match(text)
    }

    /// Trusted: calls `regex::Regex::captures` and `regex::Captures::get`.
    #[verifier::external_body]
    pub(crate) fn capture(&self, text: &str, group: usize) -> (r: Option<String>)
        ensures
            r is None <==> regex_capture(self.source(), text@, group as nat) is None,
            r matches Some(s) ==> regex_capture(self.source(), text@, group as nat) == Some(s@),
    {
        match self.compiled.captures(text) {
            Some(c) => match c.get(group) {
                Some(m) => Some(m.as_str().to_string()),
                None => None,
            },
            None => None,
        }
    }

    /// Trusted: calls `regex::Regex::find_iter` and counts the matches.
    #[verifier::external_body]
    pub(crate) fn match_count(&self, text: &str) -> (n: usize)
        ensures
            n == regex_match_count(self.source(), text@),
    {
        self.compiled.find_iter(text).count()
    }

    /// Trusted: calls `regex::Regex::captures_iter` and `regex::Captures::get`.
    #[verifier::external_body]
    pub(crate) fn all_captures(&self, text: &str, group: usize) -> (r: Vec<Option<String>>)
        ensures
            r@.len() == regex_all_captures(self.source(), text@, group as nat).len(),
            forall|i: int|
                0 <= i < r@.len() ==> (#[trigger] r@[i] is None <==> regex_all_captures(
                    self.source(),
                    text@,
                    group as nat,
                )[i] is None),
            forall|i: int|
                0 <= i < r@.len() ==> (#[trigger] r@[i] matches Some(s) ==> regex_all_captures(
                    self.source(),
                    text@,
                    group as nat,
                )[i] == Some(s@)),
    {
        let mut v = Vec::new();
        for c in self.compiled.captures_iter(text) {
            v.push(
                match c.get(group) {
                    Some(m) => Some(m.as_str().to_string()),
                    None => None,
                },
            );
        }
        v
    }

    /// Trusted: calls `regex::Regex::replace_all` with an empty replacement.
    #[verifier::external_body]
    pub(crate) fn remove_all(&self, text: &str) -> (r: String)
        ensures
            r@ == regex_remove_all(self.source(), text@),
    {
        self.compiled.replace_all(text, "").to_string()
    }
}

} // verus!
