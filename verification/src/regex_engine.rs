//! Bridge to the `regex` crate, which supplies the regular-expression
//! engine.
//!
//! The engine itself is not verified: compilation and match iteration are
//! wrapped in trusted declarations. What a regular expression matches is
//! named by uninterpreted functions of the pattern and line text; the rest
//! of the library reasons over those names and over the bounds and ordering
//! facts that the engine documents.

use vstd::prelude::*;

verus! {

#[verifier::external_type_specification]
#[verifier::external_body]
pub struct ExRegex(regex::Regex);

/// Whether the `regex` crate accepts `pattern` as a syntactically valid
/// regular expression. The outcome of `regex::Regex::new` is a function of
/// the pattern text alone.
pub uninterp spec fn regex_valid(pattern: Seq<char>) -> bool;

/// The spans that the compiled regular expression for `pattern` reports
/// over `line`: the character-offset ranges of the successive
/// non-overlapping matches yielded by `regex::Regex::find_iter`, a function
/// of the pattern and line text alone.
pub uninterp spec fn regex_spans(pattern: Seq<char>, line: Seq<char>) -> Seq<(int, int)>;

/// A compiled regular expression, tied to the pattern text it was compiled
/// from. The fields are private: every value is built by [`RegexMatcher::new`],
/// so the engine inside always belongs to the recorded pattern text.
pub struct RegexMatcher {
    pattern: String,
    regex: regex::Regex,
}

impl RegexMatcher {
    /// The pattern text this matcher was compiled from.
    pub closed spec fn pattern_view(&self) -> Seq<char> {
        self.pattern@
    }

    /// Relies on `regex::Regex::new`: whether it accepts the pattern (its
    /// syntax and size limits) is a function of the pattern text alone.
    #[verifier::external_body]
    pub fn new(pattern: &str) -> (r: Option<RegexMatcher>)
        ensures
            r is Some <==> regex_valid(pattern@),
            r matches Some(m) ==> m.pattern_view() == pattern@,
    {
        match regex::Regex::new(pattern) {
            Ok(regex) => Some(RegexMatcher { pattern: pattern.to_string(), regex }),
            Err(_) => None,
        }
    }

    /// Relies on `regex::Regex::find_iter`: it yields the successive
    /// non-overlapping matches of the expression in the line, left to
    /// right, each with `start() <= end()` lying on character boundaries
    /// inside the line. The byte offsets the engine reports are converted
    /// here, one for one, to character offsets.
    #[verifier::external_body]
    pub fn find_spans(&self, line: &str) -> (r: Vec<(usize, usize)>)
        ensures
            r@.map_values(|p: (usize, usize)| (p.0 as int, p.1 as int)) == regex_spans(
                self.pattern_view(),
                line@,
            ),
            forall|i: int| 0 <= i < r@.len() ==> (#[trigger] r@[i]).0 <= r@[i].1 <= line@.len(),
            forall|i: int|
                0 <= i < r@.len() - 1 ==> (#[trigger] r@[i]).1 <= r@[i + 1].0 && r@[i].0 < r@[i
                    + 1].0,
    {
        let mut spans: Vec<(usize, usize)> = Vec::new();
        for m in self.regex.find_iter(line) {
            let start = line[..m.start()].chars().count();
            let end = line[..m.end()].chars().count();
            spans.push((start, end));
        }
        spans
    }
}

} // verus!
