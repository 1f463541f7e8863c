//! The pattern matcher: compiling a pattern and finding all of its match
//! spans in a line of text.
//!
//! A pattern is interpreted either as a literal substring or as a regular
//! expression. Case-insensitive matching lowercases both the pattern (in
//! literal mode) and a transient copy of the line, locates matches on the
//! lowercased text, and maps the offsets back onto the original line —
//! folding is ASCII and length-preserving, so offsets carry over unchanged.
//! The matched text stored in each [`Match`] is always taken from the
//! original, case-preserved line.

use vstd::prelude::*;
use vstd::string::StrSliceExecFns;
use vstd::string::StringExecFns;

use crate::chars::chars_fold_eq;
use crate::chars::chars_vec;
use crate::chars::fold_seq;
use crate::chars::lower_string;
use crate::errors::SearchError;
use crate::literal::advance;
use crate::literal::lemma_empty_pattern_starts;
use crate::literal::lemma_starts_none_beyond;
use crate::literal::lemma_starts_props;
use crate::literal::lit_spans;
use crate::literal::match_starts_from;
use crate::literal::occurs_at;
use crate::regex_engine::regex_spans;
use crate::regex_engine::regex_valid;
use crate::regex_engine::RegexMatcher;
use crate::search_results::Match;

verus! {

/// How pattern text is interpreted.
#[derive(Clone, Copy, Debug, PartialEq, Eq, Structural)]
pub enum PatternMode {
    /// The pattern is an exact substring to find; any text is valid.
    Literal,
    /// The pattern is a regular expression, compiled by the regex engine.
    Regex,
}

/// The text a line (or a literal pattern) is matched as: folded to
/// lowercase when matching case-insensitively, unchanged otherwise.
pub open spec fn scan_seq(s: Seq<char>, ignore_case: bool) -> Seq<char> {
    if ignore_case {
        fold_seq(s)
    } else {
        s
    }
}

/// The match spans of a pattern over one line, as character offsets into
/// the original line. This is the single span model both entry points and
/// both modes share.
pub open spec fn pattern_spans(
    pattern: Seq<char>,
    is_regex: bool,
    ignore_case: bool,
    line: Seq<char>,
) -> Seq<(int, int)> {
    if is_regex {
        regex_spans(pattern, scan_seq(line, ignore_case))
    } else {
        lit_spans(scan_seq(pattern, ignore_case), scan_seq(line, ignore_case))
    }
}

/// Spans lie inside a line of length `n`, each start at or before its end,
/// and consecutive spans come in strictly increasing, non-overlapping start
/// order.
pub open spec fn spans_wf(spans: Seq<(int, int)>, n: int) -> bool {
    &&& forall|i: int| 0 <= i < spans.len() ==> 0 <= (#[trigger] spans[i]).0 <= spans[i].1 <= n
    &&& forall|i: int|
        0 <= i < spans.len() - 1 ==> (#[trigger] spans[i]).1 <= spans[i + 1].0 && spans[i].0
            < spans[i + 1].0
}

/// The matches `ms` realise the spans `spans` over the original line: same
/// length, same offsets, and each match holds exactly the text of its span
/// in the original line.
pub open spec fn matches_correspond(ms: Seq<Match>, spans: Seq<(int, int)>, line: Seq<char>) -> bool {
    &&& ms.len() == spans.len()
    &&& forall|i: int|
        0 <= i < ms.len() ==> (#[trigger] ms[i]).start_pos as int == spans[i].0 && ms[i].end_pos
            as int == spans[i].1 && ms[i].content@ == line.subrange(spans[i].0, spans[i].1)
}

/// A compiled matcher: the tagged variant the single `find_all` operation
/// dispatches on.
pub enum CompiledMatcher {
    /// Literal substring search over the pattern text.
    Literal(String),
    /// A compiled regular expression.
    Regex(RegexMatcher),
}

impl CompiledMatcher {
    /// The pattern text this matcher was built from.
    pub open spec fn pattern_view(&self) -> Seq<char> {
        match self {
            CompiledMatcher::Literal(p) => p@,
            CompiledMatcher::Regex(m) => m.pattern_view(),
        }
    }

    /// Whether this matcher interprets its pattern as a regular expression.
    pub open spec fn is_regex(&self) -> bool {
        self is Regex
    }

    /// Compile a pattern. Literal mode accepts any text; regex mode fails
    /// with `InvalidPattern` exactly when the engine rejects the text, and
    /// no line is ever read in that case.
    pub fn compile(pattern: &str, mode: PatternMode) -> (r: Result<CompiledMatcher, SearchError>)
        ensures
            r is Ok <==> (mode is Literal || regex_valid(pattern@)),
            r matches Ok(m) ==> m.pattern_view() == pattern@ && m.is_regex() == (mode is Regex),
            r is Err ==> r->Err_0 == SearchError::InvalidPattern && mode is Regex && !regex_valid(
                pattern@,
            ),
    {
        match mode {
            PatternMode::Literal => Ok(CompiledMatcher::Literal(String::from_str(pattern))),
            PatternMode::Regex => match RegexMatcher::new(pattern) {
                Some(m) => Ok(CompiledMatcher::Regex(m)),
                None => Err(SearchError::InvalidPattern),
            },
        }
    }

    /// All match spans of this pattern in `line`, left to right and
    /// non-overlapping, with each match holding the original-case text of
    /// its span. Produces an empty vector when nothing matches.
    pub fn find_all(&self, line: &str, ignore_case: bool) -> (r: Vec<Match>)
        ensures
            matches_correspond(
                r@,
                pattern_spans(self.pattern_view(), self.is_regex(), ignore_case, line@),
                line@,
            ),
            spans_wf(
                pattern_spans(self.pattern_view(), self.is_regex(), ignore_case, line@),
                line@.len() as int,
            ),
    {
        match self {
            CompiledMatcher::Literal(p) => find_all_literal(p.as_str(), line, ignore_case),
            CompiledMatcher::Regex(m) => find_all_regex(m, line, ignore_case),
        }
    }

    /// The number of matches of this pattern in `line`, without keeping
    /// their text or positions: a streaming count.
    pub fn count_matches(&self, line: &str, ignore_case: bool) -> (r: usize)
        requires
            line@.len() < usize::MAX,
        ensures
            r == pattern_spans(self.pattern_view(), self.is_regex(), ignore_case, line@).len(),
            r <= line@.len() + 1,
    {
        match self {
            CompiledMatcher::Literal(p) => count_literal(p.as_str(), line, ignore_case),
            CompiledMatcher::Regex(m) => {
                let ghost scanned = scan_seq(line@, ignore_case);
                let spans: Vec<(usize, usize)> = if ignore_case {
                    let lowered = lower_string(line);
                    m.find_spans(lowered.as_str())
                } else {
                    m.find_spans(line)
                };
                proof {
                    let ss = regex_spans(m.pattern_view(), scanned);
                    assert(spans@.map_values(|p: (usize, usize)| (p.0 as int, p.1 as int)) == ss);
                    assert(scanned.len() == line@.len());
                    assert forall|i: int| 0 <= i < ss.len() implies 0 <= (#[trigger] ss[i]).0
                        <= ss[i].1 <= line@.len() by {
                        assert(ss[i] == (spans@[i].0 as int, spans@[i].1 as int));
                    }
                    assert forall|i: int| 0 <= i < ss.len() - 1 implies (#[trigger] ss[i]).1
                        <= ss[i + 1].0 && ss[i].0 < ss[i + 1].0 by {
                        assert(ss[i] == (spans@[i].0 as int, spans@[i].1 as int));
                        assert(ss[i + 1] == (spans@[i + 1].0 as int, spans@[i + 1].1 as int));
                    }
                    lemma_spans_wf_len(ss, line@.len() as int);
                }
                spans.len()
            },
        }
    }
}

/// Within a sequence of spans whose starts are non-negative and strictly
/// increasing, the `i`-th start is at least `i`.
proof fn lemma_spans_starts_ge(spans: Seq<(int, int)>, i: int)
    requires
        forall|k: int| 0 <= k < spans.len() ==> 0 <= (#[trigger] spans[k]).0,
        forall|k: int| 0 <= k < spans.len() - 1 ==> (#[trigger] spans[k]).0 < spans[k + 1].0,
        0 <= i < spans.len(),
    ensures
        spans[i].0 >= i,
    decreases i,
{
    if i > 0 {
        lemma_spans_starts_ge(spans, i - 1);
        assert(spans[i - 1].0 < spans[i].0);
    }
}

/// A line of length `n` holds at most `n + 1` well-formed spans: starts are
/// strictly increasing within `0..=n`.
pub proof fn lemma_spans_wf_len(spans: Seq<(int, int)>, n: int)
    requires
        spans_wf(spans, n),
        0 <= n,
    ensures
        spans.len() <= n + 1,
{
    if spans.len() > 0 {
        let l = spans.len() as int;
        lemma_spans_starts_ge(spans, l - 1);
        assert(spans[l - 1].0 >= l - 1);
        assert(spans[l - 1].0 <= n);
        assert(l <= n + 1);
    }
}

/// Law: case-insensitive matching is symmetric under case. Folding the
/// scanned line does not change the spans, and in literal mode folding the
/// pattern does not either: matching compares folded text with folded text.
pub proof fn lemma_case_insensitive_symmetric(pattern: Seq<char>, is_regex: bool, line: Seq<char>)
    ensures
        pattern_spans(pattern, is_regex, true, line) == pattern_spans(
            pattern,
            is_regex,
            true,
            fold_seq(line),
        ),
        !is_regex ==> pattern_spans(pattern, false, true, line) == pattern_spans(
            fold_seq(pattern),
            false,
            true,
            line,
        ),
{
    crate::chars::lemma_fold_seq_idempotent(line);
    crate::chars::lemma_fold_seq_idempotent(pattern);
}

/// Law: an empty literal pattern matches with a zero-length span at every
/// position of the line, one per position plus one at the line end, and the
/// scan terminates.
pub proof fn lemma_empty_pattern_spans(line: Seq<char>, ignore_case: bool)
    ensures
        pattern_spans(Seq::<char>::empty(), false, ignore_case, line) =~= Seq::new(
            line.len() + 1,
            |i: int| (i, i),
        ),
{
    let sl = scan_seq(line, ignore_case);
    assert(scan_seq(Seq::<char>::empty(), ignore_case) =~= Seq::<char>::empty());
    lemma_empty_pattern_starts(sl, 0);
    assert(sl.len() == line.len());
}

/// Literal-mode streaming count: the same scan as `find_all_literal`, with
/// only a counter kept.
fn count_literal(pat: &str, line: &str, ignore_case: bool) -> (r: usize)
    requires
        line@.len() < usize::MAX,
    ensures
        r == pattern_spans(pat@, false, ignore_case, line@).len(),
        r <= line@.len() + 1,
{
    let pchars = chars_vec(pat);
    let lchars = chars_vec(line);
    let m = pchars.len();
    let n = lchars.len();
    let ghost sp = scan_seq(pat@, ignore_case);
    let ghost sl = scan_seq(line@, ignore_case);
    assert(sp.len() == m && sl.len() == n);

    if m == 0 {
        proof {
            assert(sp =~= Seq::<char>::empty());
            lemma_empty_pattern_starts(sl, 0);
        }
        return n + 1;
    }
    let mut cnt: usize = 0;
    let mut pos: usize = 0;
    while m <= n && pos <= n - m
        invariant
            0 < m,
            m == pchars@.len(),
            n == lchars@.len(),
            pchars@ == pat@,
            lchars@ == line@,
            sp == scan_seq(pat@, ignore_case),
            sl == scan_seq(line@, ignore_case),
            sp.len() == m,
            sl.len() == n,
            pos <= n,
            cnt <= pos,
            match_starts_from(sl, sp, 0).len() == cnt + match_starts_from(sl, sp, pos as int).len(),
        decreases n - pos,
    {
        if is_match_at(&lchars, &pchars, pos, ignore_case) {
            assert(occurs_at(sl, sp, pos as int));
            assert(match_starts_from(sl, sp, pos as int) == seq![pos as int] + match_starts_from(
                sl,
                sp,
                pos + advance(sp),
            ));
            cnt = cnt + 1;
            pos = pos + m;
        } else {
            assert(!occurs_at(sl, sp, pos as int));
            assert(match_starts_from(sl, sp, pos as int) == match_starts_from(
                sl,
                sp,
                pos as int + 1,
            ));
            pos = pos + 1;
        }
    }
    proof {
        assert(pos as int + sp.len() > sl.len());
        lemma_starts_none_beyond(sl, sp, pos as int);
    }
    cnt
}

/// The start positions recorded in a sequence of matches.
spec fn starts_of(ms: Seq<Match>) -> Seq<int> {
    ms.map_values(|m: Match| m.start_pos as int)
}

/// Literal-mode `find_all`: a verified left-to-right scan that advances the
/// cursor past each match, and at least one position on a zero-length
/// match, so an empty pattern terminates with one match per position.
fn find_all_literal(pat: &str, line: &str, ignore_case: bool) -> (r: Vec<Match>)
    ensures
        matches_correspond(r@, pattern_spans(pat@, false, ignore_case, line@), line@),
        spans_wf(pattern_spans(pat@, false, ignore_case, line@), line@.len() as int),
{
    let pchars = chars_vec(pat);
    let lchars = chars_vec(line);
    let m = pchars.len();
    let n = lchars.len();
    let ghost sp = scan_seq(pat@, ignore_case);
    let ghost sl = scan_seq(line@, ignore_case);
    assert(sp.len() == m && sl.len() == n);

    let mut res: Vec<Match> = Vec::new();
    let mut pos: usize = 0;
    if m == 0 {
        while pos < n
            invariant
                m == 0,
                n == lchars@.len(),
                lchars@ == line@,
                sl == scan_seq(line@, ignore_case),
                sl.len() == n,
                pos <= n,
                res@.len() == pos,
                forall|i: int|
                    0 <= i < res@.len() ==> (#[trigger] res@[i]).start_pos == i && res@[i].end_pos
                        == i && res@[i].content@ == Seq::<char>::empty(),
            decreases n - pos,
        {
            let mat = Match::new(String::new(), pos, pos);
            res.push(mat);
            pos = pos + 1;
        }
        let mat = Match::new(String::new(), n, n);
        res.push(mat);
        proof {
            lemma_empty_pattern_starts(sl, 0);
            assert(sp =~= Seq::<char>::empty());
            assert(match_starts_from(sl, sp, 0) =~= starts_of(res@));
            assert forall|i: int| 0 <= i < res@.len() implies (#[trigger] res@[i]).end_pos
                == res@[i].start_pos + m && res@[i].start_pos + m <= n && res@[i].content@
                == line@.subrange(res@[i].start_pos as int, res@[i].end_pos as int) by {
                assert(line@.subrange(i, i) =~= Seq::<char>::empty());
            }
        }
    } else {
        while m <= n && pos <= n - m
            invariant
                0 < m,
                m == pchars@.len(),
                n == lchars@.len(),
                pchars@ == pat@,
                lchars@ == line@,
                sp == scan_seq(pat@, ignore_case),
                sl == scan_seq(line@, ignore_case),
                sp.len() == m,
                sl.len() == n,
                pos <= n,
                match_starts_from(sl, sp, 0) == starts_of(res@) + match_starts_from(
                    sl,
                    sp,
                    pos as int,
                ),
                forall|i: int|
                    0 <= i < res@.len() ==> (#[trigger] res@[i]).end_pos == res@[i].start_pos + m
                        && res@[i].start_pos + m <= n && res@[i].content@ == line@.subrange(
                        res@[i].start_pos as int,
                        res@[i].end_pos as int,
                    ),
            decreases n - pos,
        {
            if is_match_at(&lchars, &pchars, pos, ignore_case) {
                assert(occurs_at(sl, sp, pos as int));
                let end = pos + m;
                let content = String::from_str(line.substring_char(pos, end));
                let mat = Match::new(content, pos, end);
                proof {
                    assert(match_starts_from(sl, sp, pos as int) == seq![pos as int]
                        + match_starts_from(sl, sp, pos + advance(sp)));
                    assert(starts_of(res@.push(mat)) =~= starts_of(res@).push(pos as int));
                    assert(starts_of(res@) + match_starts_from(sl, sp, pos as int) =~= starts_of(
                        res@.push(mat),
                    ) + match_starts_from(sl, sp, pos + advance(sp)));
                }
                res.push(mat);
                pos = end;
            } else {
                assert(!occurs_at(sl, sp, pos as int));
                assert(match_starts_from(sl, sp, pos as int) == match_starts_from(
                    sl,
                    sp,
                    pos as int + 1,
                ));
                pos = pos + 1;
            }
        }
        proof {
            assert(pos as int + sp.len() > sl.len());
            lemma_starts_none_beyond(sl, sp, pos as int);
            assert(match_starts_from(sl, sp, 0) =~= starts_of(res@));
        }
    }
    proof {
        assert(match_starts_from(sl, sp, 0) == starts_of(res@));
        lemma_starts_props(sl, sp, 0);
        let spans = pattern_spans(pat@, false, ignore_case, line@);
        assert(spans =~= starts_of(res@).map_values(|s: int| (s, s + sp.len() as int)));
        assert forall|i: int| 0 <= i < res@.len() implies (#[trigger] res@[i]).start_pos as int
            == spans[i].0 && res@[i].end_pos as int == spans[i].1 && res@[i].content@
            == line@.subrange(spans[i].0, spans[i].1) by {
            assert(starts_of(res@)[i] == res@[i].start_pos as int);
        }
        assert forall|i: int| 0 <= i < spans.len() implies 0 <= (#[trigger] spans[i]).0
            <= spans[i].1 <= line@.len() by {
            assert(starts_of(res@)[i] == match_starts_from(sl, sp, 0)[i]);
        }
        assert forall|i: int| 0 <= i < spans.len() - 1 implies (#[trigger] spans[i]).1 <= spans[i
            + 1].0 && spans[i].0 < spans[i + 1].0 by {
            assert(starts_of(res@)[i] == match_starts_from(sl, sp, 0)[i]);
            assert(starts_of(res@)[i + 1] == match_starts_from(sl, sp, 0)[i + 1]);
            assert(match_starts_from(sl, sp, 0)[i] + advance(sp) <= match_starts_from(
                sl,
                sp,
                0,
            )[i + 1]);
        }
    }
    res
}

/// Whether the (folded) pattern occurs in the (folded) line at `pos`.
fn is_match_at(lchars: &Vec<char>, pchars: &Vec<char>, pos: usize, ignore_case: bool) -> (r: bool)
    requires
        pos + pchars@.len() <= lchars@.len(),
    ensures
        r == occurs_at(
            scan_seq(lchars@, ignore_case),
            scan_seq(pchars@, ignore_case),
            pos as int,
        ),
{
    let ghost sl = scan_seq(lchars@, ignore_case);
    let ghost sp = scan_seq(pchars@, ignore_case);
    let m = pchars.len();
    let llen = lchars.len();
    let mut k: usize = 0;
    while k < m
        invariant
            pos + pchars@.len() <= lchars@.len(),
            m == pchars@.len(),
            llen == lchars@.len(),
            sl == scan_seq(lchars@, ignore_case),
            sp == scan_seq(pchars@, ignore_case),
            k <= m,
            forall|j: int| 0 <= j < k ==> sl[pos + j] == sp[j],
        decreases m - k,
    {
        let a = lchars[pos + k];
        let b = pchars[k];
        let eq = if ignore_case {
            chars_fold_eq(a, b)
        } else {
            a == b
        };
        if !eq {
            proof {
                assert(sl[pos + k] != sp[k as int]);
                assert(sl.subrange(pos as int, pos + sp.len() as int)[k as int] == sl[pos + k]);
            }
            return false;
        }
        k = k + 1;
    }
    proof {
        assert(sl.subrange(pos as int, pos + sp.len() as int) =~= sp);
    }
    true
}

/// Regex-mode `find_all`: the engine reports spans over the scanned text
/// (the lowercased copy when case-insensitive); the matched text is sliced
/// out of the original line at those offsets.
fn find_all_regex(m: &RegexMatcher, line: &str, ignore_case: bool) -> (r: Vec<Match>)
    ensures
        matches_correspond(r@, pattern_spans(m.pattern_view(), true, ignore_case, line@), line@),
        spans_wf(pattern_spans(m.pattern_view(), true, ignore_case, line@), line@.len() as int),
{
    let ghost scanned = scan_seq(line@, ignore_case);
    let spans: Vec<(usize, usize)> = if ignore_case {
        let lowered = lower_string(line);
        m.find_spans(lowered.as_str())
    } else {
        m.find_spans(line)
    };
    let ghost ss = regex_spans(m.pattern_view(), scanned);
    proof {
        assert(spans@.map_values(|p: (usize, usize)| (p.0 as int, p.1 as int)) == ss);
        assert(scanned.len() == line@.len());
        assert forall|i: int| 0 <= i < ss.len() implies 0 <= (#[trigger] ss[i]).0 <= ss[i].1
            <= line@.len() by {
            assert(ss[i] == (spans@[i].0 as int, spans@[i].1 as int));
        }
        assert forall|i: int| 0 <= i < ss.len() - 1 implies (#[trigger] ss[i]).1 <= ss[i + 1].0
            && ss[i].0 < ss[i + 1].0 by {
            assert(ss[i] == (spans@[i].0 as int, spans@[i].1 as int));
            assert(ss[i + 1] == (spans@[i + 1].0 as int, spans@[i + 1].1 as int));
        }
    }
    let count = spans.len();
    let mut res: Vec<Match> = Vec::new();
    let mut i: usize = 0;
    while i < count
        invariant
            count == spans@.len(),
            ss == regex_spans(m.pattern_view(), scanned),
            scanned == scan_seq(line@, ignore_case),
            spans@.map_values(|p: (usize, usize)| (p.0 as int, p.1 as int)) == ss,
            forall|j: int|
                0 <= j < spans@.len() ==> (#[trigger] spans@[j]).0 <= spans@[j].1 <= line@.len(),
            i <= count,
            res@.len() == i,
            forall|j: int|
                0 <= j < i ==> (#[trigger] res@[j]).start_pos as int == ss[j].0 && res@[j].end_pos
                    as int == ss[j].1 && res@[j].content@ == line@.subrange(ss[j].0, ss[j].1),
        decreases count - i,
    {
        let start = spans[i].0;
        let end = spans[i].1;
        let content = String::from_str(line.substring_char(start, end));
        let mat = Match::new(content, start, end);
        proof {
            assert(ss[i as int] == (spans@[i as int].0 as int, spans@[i as int].1 as int));
        }
        res.push(mat);
        i = i + 1;
    }
    res
}

} // verus!
