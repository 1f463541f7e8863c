//! Structured search output: per-line results with their match spans.
//!
//! A [`Match`] is one occurrence: the matched text and its half-open
//! `[start_pos, end_pos)` character range in the owning line. A
//! [`SearchResult`] is one matching line (1-based line number, the original
//! line content, and its matches in strictly increasing, non-overlapping
//! start order). A [`SearchResults`] is the whole result set of one search
//! call, in input line order.

use vstd::prelude::*;
use vstd::string::StrSliceExecFns;
use vstd::string::StringExecFns;

verus! {

/// One match occurrence inside a line.
#[derive(Debug)]
pub struct Match {
    pub content: String,
    pub start_pos: usize,
    pub end_pos: usize,
}

/// One matching line and its match occurrences.
#[derive(Debug)]
pub struct SearchResult {
    pub line: usize,
    pub content: String,
    pub matches: Vec<Match>,
}

/// The result set of one search call.
#[derive(Debug)]
pub struct SearchResults {
    pub pattern: String,
    pub results: Vec<SearchResult>,
}

/// Two matches hold the same text and the same span.
pub open spec fn match_eq(a: Match, b: Match) -> bool {
    &&& a.content@ == b.content@
    &&& a.start_pos == b.start_pos
    &&& a.end_pos == b.end_pos
}

/// Two line results agree on line number, content and matches.
pub open spec fn result_eq(a: SearchResult, b: SearchResult) -> bool {
    &&& a.line == b.line
    &&& a.content@ == b.content@
    &&& a.matches@.len() == b.matches@.len()
    &&& forall|i: int|
        0 <= i < a.matches@.len() ==> match_eq(#[trigger] a.matches@[i], b.matches@[i])
}

/// Two result sets agree on the pattern and on every line result.
pub open spec fn results_eq(a: SearchResults, b: SearchResults) -> bool {
    &&& a.pattern@ == b.pattern@
    &&& a.results@.len() == b.results@.len()
    &&& forall|i: int|
        0 <= i < a.results@.len() ==> result_eq(#[trigger] a.results@[i], b.results@[i])
}

impl Match {
    pub fn new(content: String, start_pos: usize, end_pos: usize) -> (r: Match)
        ensures
            r.content@ == content@,
            r.start_pos == start_pos,
            r.end_pos == end_pos,
    {
        Match { content, start_pos, end_pos }
    }
}

impl PartialEq for Match {
    fn eq(&self, other: &Self) -> (r: bool) {
        self.content == other.content && self.start_pos == other.start_pos && self.end_pos
            == other.end_pos
    }
}

impl vstd::std_specs::cmp::PartialEqSpecImpl for Match {
    open spec fn obeys_eq_spec() -> bool {
        true
    }

    open spec fn eq_spec(&self, other: &Match) -> bool {
        match_eq(*self, *other)
    }
}

impl SearchResult {
    /// The end of the match before index `k`, or the start of the line for
    /// the first match: where the unmatched text preceding match `k` begins.
    pub open spec fn prev_end(&self, k: int) -> int {
        if k == 0 {
            0
        } else {
            self.matches@[k - 1].end_pos as int
        }
    }

    /// Well-formed: every span lies inside the content, holds exactly the
    /// text of its range, and spans come in strictly increasing,
    /// non-overlapping start order.
    pub open spec fn wf(&self) -> bool {
        &&& forall|i: int|
            0 <= i < self.matches@.len() ==> (#[trigger] self.matches@[i]).start_pos
                <= self.matches@[i].end_pos <= self.content@.len()
                && self.matches@[i].content@ == self.content@.subrange(
                self.matches@[i].start_pos as int,
                self.matches@[i].end_pos as int,
            )
        &&& forall|i: int|
            0 <= i < self.matches@.len() - 1 ==> (#[trigger] self.matches@[i]).end_pos
                <= self.matches@[i + 1].start_pos && self.matches@[i].start_pos < self.matches@[i
                + 1].start_pos
    }

    pub fn new(line: usize, content: String) -> (r: SearchResult)
        ensures
            r.line == line,
            r.content@ == content@,
            r.matches@ == Seq::<Match>::empty(),
    {
        SearchResult { line, content, matches: Vec::new() }
    }

    pub fn add_match(&mut self, m: Match)
        ensures
            final(self).line == old(self).line,
            final(self).content == old(self).content,
            final(self).matches@ == old(self).matches@.push(m),
    {
        self.matches.push(m);
    }

    /// Split the line content around its matches, in order: one pair of
    /// (unmatched text before the match, the matched text) per match, then
    /// one final pair of (unmatched tail, nothing). Concatenating all parts
    /// in order restores the content losslessly.
    pub fn segments(&self) -> (r: Vec<(String, Option<String>)>)
        requires
            self.wf(),
        ensures
            r@.len() == self.matches@.len() + 1,
            forall|k: int|
                0 <= k < self.matches@.len() ==> (#[trigger] r@[k]).0@ == self.content@.subrange(
                    self.prev_end(k),
                    self.matches@[k].start_pos as int,
                ) && r@[k].1 is Some && r@[k].1->0@ == self.matches@[k].content@,
            r@[self.matches@.len() as int].0@ == self.content@.subrange(
                self.prev_end(self.matches@.len() as int),
                self.content@.len() as int,
            ),
            r@[self.matches@.len() as int].1 is None,
    {
        let n = self.matches.len();
        let len = self.content.as_str().unicode_len();
        let mut r: Vec<(String, Option<String>)> = Vec::new();
        let mut prev: usize = 0;
        let mut k: usize = 0;
        while k < n
            invariant
                self.wf(),
                n == self.matches@.len(),
                len == self.content@.len(),
                k <= n,
                r@.len() == k,
                prev == self.prev_end(k as int),
                prev <= len,
                forall|j: int|
                    0 <= j < k ==> (#[trigger] r@[j]).0@ == self.content@.subrange(
                        self.prev_end(j),
                        self.matches@[j].start_pos as int,
                    ) && r@[j].1 is Some && r@[j].1->0@ == self.matches@[j].content@,
            decreases n - k,
        {
            let start = self.matches[k].start_pos;
            let end = self.matches[k].end_pos;
            let before = String::from_str(self.content.as_str().substring_char(prev, start));
            let matched = self.matches[k].content.clone();
            r.push((before, Some(matched)));
            prev = end;
            k = k + 1;
        }
        let tail = String::from_str(self.content.as_str().substring_char(prev, len));
        r.push((tail, None));
        r
    }
}

/// The text covered by the first `k` segment pairs of `r`: for each match,
/// the unmatched text before it followed by the matched text itself.
pub open spec fn joined_up_to(r: SearchResult, k: int) -> Seq<char>
    decreases k,
{
    if k <= 0 {
        Seq::empty()
    } else {
        joined_up_to(r, k - 1) + r.content@.subrange(
            r.prev_end(k - 1),
            r.matches@[k - 1].start_pos as int,
        ) + r.matches@[k - 1].content@
    }
}

/// The first `k` segment pairs cover the content exactly up to the end of
/// match `k`.
proof fn lemma_joined_prefix(r: SearchResult, k: int)
    requires
        r.wf(),
        0 <= k <= r.matches@.len(),
    ensures
        joined_up_to(r, k) == r.content@.subrange(0, r.prev_end(k)),
    decreases k,
{
    if k == 0 {
        assert(joined_up_to(r, 0) =~= r.content@.subrange(0, 0));
    } else {
        lemma_joined_prefix(r, k - 1);
        let s = r.matches@[k - 1].start_pos as int;
        let e = r.matches@[k - 1].end_pos as int;
        assert(r.matches@[k - 1].content@ == r.content@.subrange(s, e));
        assert(r.content@.subrange(0, r.prev_end(k - 1)) + r.content@.subrange(
            r.prev_end(k - 1),
            s,
        ) + r.content@.subrange(s, e) =~= r.content@.subrange(0, e));
    }
}

/// Law: the segments of a well-formed line result reconstruct its content
/// losslessly — the unmatched and matched parts, concatenated in order and
/// closed by the unmatched tail, give back the line exactly.
pub proof fn lemma_segments_lossless(r: SearchResult)
    requires
        r.wf(),
    ensures
        joined_up_to(r, r.matches@.len() as int) + r.content@.subrange(
            r.prev_end(r.matches@.len() as int),
            r.content@.len() as int,
        ) == r.content@,
{
    let m = r.matches@.len() as int;
    lemma_joined_prefix(r, m);
    assert(r.content@.subrange(0, r.prev_end(m)) + r.content@.subrange(
        r.prev_end(m),
        r.content@.len() as int,
    ) =~= r.content@);
}

impl PartialEq for SearchResult {
    fn eq(&self, other: &Self) -> (r: bool) {
        if self.line != other.line {
            return false;
        }
        if !(self.content == other.content) {
            return false;
        }
        if self.matches.len() != other.matches.len() {
            return false;
        }
        let n = self.matches.len();
        let mut i: usize = 0;
        while i < n
            invariant
                n == self.matches@.len(),
                n == other.matches@.len(),
                i <= n,
                forall|j: int| 0 <= j < i ==> match_eq(#[trigger] self.matches@[j], other.matches@[j]),
            decreases n - i,
        {
            if !(self.matches[i] == other.matches[i]) {
                return false;
            }
            i = i + 1;
        }
        true
    }
}

impl vstd::std_specs::cmp::PartialEqSpecImpl for SearchResult {
    open spec fn obeys_eq_spec() -> bool {
        true
    }

    open spec fn eq_spec(&self, other: &SearchResult) -> bool {
        result_eq(*self, *other)
    }
}

impl SearchResults {
    /// Every line result in the set is well-formed.
    pub open spec fn wf(&self) -> bool {
        forall|k: int| 0 <= k < self.results@.len() ==> (#[trigger] self.results@[k]).wf()
    }

    pub fn new(pattern: String) -> (r: SearchResults)
        ensures
            r.pattern@ == pattern@,
            r.results@ == Seq::<SearchResult>::empty(),
    {
        SearchResults { pattern, results: Vec::new() }
    }

    pub fn add_result(&mut self, result: SearchResult)
        ensures
            final(self).pattern == old(self).pattern,
            final(self).results@ == old(self).results@.push(result),
    {
        self.results.push(result);
    }
}

impl PartialEq for SearchResults {
    fn eq(&self, other: &Self) -> (r: bool) {
        if !(self.pattern == other.pattern) {
            return false;
        }
        if self.results.len() != other.results.len() {
            return false;
        }
        let n = self.results.len();
        let mut i: usize = 0;
        while i < n
            invariant
                n == self.results@.len(),
                n == other.results@.len(),
                i <= n,
                forall|j: int| 0 <= j < i ==> result_eq(#[trigger] self.results@[j], other.results@[j]),
            decreases n - i,
        {
            if !(self.results[i] == other.results[i]) {
                return false;
            }
            i = i + 1;
        }
        true
    }
}

impl vstd::std_specs::cmp::PartialEqSpecImpl for SearchResults {
    open spec fn obeys_eq_spec() -> bool {
        true
    }

    open spec fn eq_spec(&self, other: &SearchResults) -> bool {
        results_eq(*self, *other)
    }
}

} // verus!
