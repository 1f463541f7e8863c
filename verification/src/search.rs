//! The line scanner: drive the matcher across a line source and assemble
//! either structured results or a total occurrence count.
//!
//! The line source hands in each line as `Ok(text)`, or `Err(ReadError)`
//! where the read failed. Both entry points consume the source once, in
//! order, with 1-based line numbering. An invalid regex pattern is rejected
//! before any line is looked at; a read failure aborts the whole call and
//! discards any partial results.

use vstd::prelude::*;
use vstd::string::StringExecFns;

use crate::errors::ReadError;
use crate::errors::SearchError;
use crate::matcher::matches_correspond;
use crate::matcher::pattern_spans;
use crate::matcher::spans_wf;
use crate::matcher::CompiledMatcher;
use crate::matcher::PatternMode;
use crate::regex_engine::regex_valid;
use crate::search_results::match_eq;
use crate::search_results::result_eq;
use crate::search_results::results_eq;
use crate::search_results::Match;
use crate::search_results::SearchResult;
use crate::search_results::SearchResults;

verus! {

/// The character content of one line-source entry; a failed read carries no
/// content.
pub open spec fn line_view(entry: Result<String, ReadError>) -> Seq<char> {
    match entry {
        Ok(s) => s@,
        Err(_) => Seq::<char>::empty(),
    }
}

/// The character contents of the whole line source.
pub open spec fn line_views(lines: Seq<Result<String, ReadError>>) -> Seq<Seq<char>> {
    lines.map_values(|e: Result<String, ReadError>| line_view(e))
}

/// Every entry of the line source was read successfully.
pub open spec fn all_lines_ok(lines: Seq<Result<String, ReadError>>) -> bool {
    forall|i: int| 0 <= i < lines.len() ==> (#[trigger] lines[i]) is Ok
}

/// The model of a search over `lines`: one triple per matching line, in
/// input order — its 1-based line number, its content, and its match spans.
/// Lines without a match do not appear.
pub open spec fn search_view(
    pattern: Seq<char>,
    is_regex: bool,
    ignore_case: bool,
    lines: Seq<Seq<char>>,
) -> Seq<(int, Seq<char>, Seq<(int, int)>)>
    decreases lines.len(),
{
    if lines.len() == 0 {
        Seq::empty()
    } else {
        let prev = search_view(pattern, is_regex, ignore_case, lines.drop_last());
        let sp = pattern_spans(pattern, is_regex, ignore_case, lines.last());
        if sp.len() > 0 {
            prev.push((lines.len() as int, lines.last(), sp))
        } else {
            prev
        }
    }
}

/// The model of a count over `lines`: the total number of match
/// occurrences, summed over every line.
pub open spec fn total_spans(
    pattern: Seq<char>,
    is_regex: bool,
    ignore_case: bool,
    lines: Seq<Seq<char>>,
) -> int
    decreases lines.len(),
{
    if lines.len() == 0 {
        0
    } else {
        total_spans(pattern, is_regex, ignore_case, lines.drop_last()) + pattern_spans(
            pattern,
            is_regex,
            ignore_case,
            lines.last(),
        ).len()
    }
}

/// The spans recorded in a sequence of matches.
pub open spec fn spans_view(ms: Seq<Match>) -> Seq<(int, int)> {
    ms.map_values(|m: Match| (m.start_pos as int, m.end_pos as int))
}

/// What a `SearchResults` value says, in the model's terms.
pub open spec fn results_view(r: SearchResults) -> Seq<(int, Seq<char>, Seq<(int, int)>)> {
    r.results@.map_values(|sr: SearchResult| (sr.line as int, sr.content@, spans_view(sr.matches@)))
}

/// An upper bound on how many matches `lines` can hold in total: one more
/// than its length for every line. Keeping this within `usize` makes the
/// streaming count free of overflow.
pub open spec fn length_budget(lines: Seq<Seq<char>>) -> int
    decreases lines.len(),
{
    if lines.len() == 0 {
        0
    } else {
        length_budget(lines.drop_last()) + lines.last().len() + 1
    }
}

/// A line result is well-formed once its matches realise well-formed spans
/// over its own content.
proof fn lemma_result_wf(r: SearchResult, spans: Seq<(int, int)>)
    requires
        matches_correspond(r.matches@, spans, r.content@),
        spans_wf(spans, r.content@.len() as int),
    ensures
        r.wf(),
{
    assert forall|i: int| 0 <= i < r.matches@.len() implies (#[trigger] r.matches@[i]).start_pos
        <= r.matches@[i].end_pos <= r.content@.len() && r.matches@[i].content@
        == r.content@.subrange(r.matches@[i].start_pos as int, r.matches@[i].end_pos as int) by {
        assert(r.matches@[i].start_pos as int == spans[i].0 && r.matches@[i].end_pos as int
            == spans[i].1);
        assert(0 <= spans[i].0 <= spans[i].1 <= r.content@.len());
    }
    assert forall|i: int| 0 <= i < r.matches@.len() - 1 implies (#[trigger] r.matches@[i]).end_pos
        <= r.matches@[i + 1].start_pos && r.matches@[i].start_pos < r.matches@[i + 1].start_pos by {
        assert(r.matches@[i].start_pos as int == spans[i].0 && r.matches@[i].end_pos as int
            == spans[i].1);
        assert(r.matches@[i + 1].start_pos as int == spans[i + 1].0);
        assert(spans[i].1 <= spans[i + 1].0 && spans[i].0 < spans[i + 1].0);
    }
}

/// Scan the line source and assemble the structured result set: for every
/// line with at least one match, its line number, original content, and all
/// match spans in order.
#[verifier::rlimit(60)]
pub fn search(
    lines: &Vec<Result<String, ReadError>>,
    pattern: &str,
    mode: PatternMode,
    ignore_case: bool,
) -> (r: Result<SearchResults, SearchError>)
    ensures
        (r matches Err(e) && e is InvalidPattern) <==> (mode is Regex && !regex_valid(pattern@)),
        (r matches Err(e) && e is IoReadError) <==> ((mode is Literal || regex_valid(pattern@))
            && !all_lines_ok(lines@)),
        r is Ok <==> ((mode is Literal || regex_valid(pattern@)) && all_lines_ok(lines@)),
        r matches Ok(res) ==> res.pattern@ == pattern@ && results_view(res) == search_view(
            pattern@,
            mode is Regex,
            ignore_case,
            line_views(lines@),
        ) && res.wf(),
{
    let matcher = match CompiledMatcher::compile(pattern, mode) {
        Ok(m) => m,
        Err(e) => {
            return Err(e);
        },
    };
    let mut results = SearchResults::new(String::from_str(pattern));
    let n = lines.len();
    let mut i: usize = 0;
    while i < n
        invariant
            n == lines@.len(),
            i <= n,
            matcher.pattern_view() == pattern@,
            matcher.is_regex() == (mode is Regex),
            mode is Literal || regex_valid(pattern@),
            forall|j: int| 0 <= j < i ==> (#[trigger] lines@[j]) is Ok,
            results.pattern@ == pattern@,
            results_view(results) == search_view(
                pattern@,
                mode is Regex,
                ignore_case,
                line_views(lines@).take(i as int),
            ),
            results.wf(),
        decreases n - i,
    {
        let ghost views = line_views(lines@);
        match &lines[i] {
            Ok(content) => {
                let ms = matcher.find_all(content.as_str(), ignore_case);
                let ghost sp = pattern_spans(pattern@, mode is Regex, ignore_case, content@);
                proof {
                    assert(views.take(i as int + 1).drop_last() =~= views.take(i as int));
                    assert(views.take(i as int + 1).last() == views[i as int]);
                    assert(views[i as int] == content@);
                }
                if ms.len() > 0 {
                    let one = SearchResult { line: i + 1, content: content.clone(), matches: ms };
                    let ghost before = results;
                    proof {
                        lemma_result_wf(one, sp);
                        assert(spans_view(one.matches@) =~= sp) by {
                            assert forall|j: int| 0 <= j < one.matches@.len() implies spans_view(
                                one.matches@,
                            )[j] == sp[j] by {
                                assert(one.matches@[j].start_pos as int == sp[j].0
                                    && one.matches@[j].end_pos as int == sp[j].1);
                            }
                        }
                    }
                    results.add_result(one);
                    proof {
                        assert(results.results@ == before.results@.push(one));
                        assert(results_view(results) =~= results_view(before).push(
                            (one.line as int, one.content@, spans_view(one.matches@)),
                        ));
                        assert(search_view(
                            pattern@,
                            mode is Regex,
                            ignore_case,
                            views.take(i as int + 1),
                        ) == results_view(before).push((i as int + 1, content@, sp)));
                    }
                } else {
                    proof {
                        assert(sp.len() == 0);
                        assert(search_view(
                            pattern@,
                            mode is Regex,
                            ignore_case,
                            views.take(i as int + 1),
                        ) == search_view(
                            pattern@,
                            mode is Regex,
                            ignore_case,
                            views.take(i as int),
                        ));
                    }
                }
            },
            Err(_) => {
                assert(lines@[i as int] is Err);
                assert(!all_lines_ok(lines@));
                return Err(SearchError::IoReadError);
            },
        }
        i = i + 1;
    }
    proof {
        assert(line_views(lines@).take(n as int) =~= line_views(lines@));
    }
    Ok(results)
}

/// The budget of a prefix never exceeds the budget of the whole: every
/// line's contribution is positive.
proof fn lemma_length_budget_prefix(lines: Seq<Seq<char>>, k: int)
    requires
        0 <= k <= lines.len(),
    ensures
        length_budget(lines.take(k)) <= length_budget(lines),
    decreases lines.len() - k,
{
    if k < lines.len() {
        lemma_length_budget_prefix(lines, k + 1);
        assert(lines.take(k + 1).drop_last() =~= lines.take(k));
        assert(length_budget(lines.take(k)) <= length_budget(lines.take(k + 1)));
    } else {
        assert(lines.take(k) =~= lines);
    }
}

/// Scan the line source and return only the total number of match
/// occurrences across all lines — the sum of per-line match counts, not the
/// number of matching lines.
pub fn count(
    lines: &Vec<Result<String, ReadError>>,
    pattern: &str,
    mode: PatternMode,
    ignore_case: bool,
) -> (r: Result<usize, SearchError>)
    requires
        length_budget(line_views(lines@)) <= usize::MAX,
    ensures
        (r matches Err(e) && e is InvalidPattern) <==> (mode is Regex && !regex_valid(pattern@)),
        (r matches Err(e) && e is IoReadError) <==> ((mode is Literal || regex_valid(pattern@))
            && !all_lines_ok(lines@)),
        r is Ok <==> ((mode is Literal || regex_valid(pattern@)) && all_lines_ok(lines@)),
        r matches Ok(c) ==> c == total_spans(
            pattern@,
            mode is Regex,
            ignore_case,
            line_views(lines@),
        ),
{
    let matcher = match CompiledMatcher::compile(pattern, mode) {
        Ok(m) => m,
        Err(e) => {
            return Err(e);
        },
    };
    let n = lines.len();
    let mut total: usize = 0;
    let mut i: usize = 0;
    while i < n
        invariant
            n == lines@.len(),
            i <= n,
            matcher.pattern_view() == pattern@,
            matcher.is_regex() == (mode is Regex),
            mode is Literal || regex_valid(pattern@),
            length_budget(line_views(lines@)) <= usize::MAX,
            forall|j: int| 0 <= j < i ==> (#[trigger] lines@[j]) is Ok,
            total == total_spans(
                pattern@,
                mode is Regex,
                ignore_case,
                line_views(lines@).take(i as int),
            ),
            total <= length_budget(line_views(lines@).take(i as int)),
        decreases n - i,
    {
        let ghost views = line_views(lines@);
        proof {
            assert(views.take(i as int + 1).drop_last() =~= views.take(i as int));
            assert(views.take(i as int + 1).last() == views[i as int]);
            lemma_length_budget_prefix(views, i as int + 1);
        }
        match &lines[i] {
            Ok(content) => {
                proof {
                    assert(views[i as int] == content@);
                    assert(length_budget(views.take(i as int + 1)) == length_budget(
                        views.take(i as int),
                    ) + content@.len() + 1);
                }
                let c = matcher.count_matches(content.as_str(), ignore_case);
                total = total + c;
            },
            Err(_) => {
                assert(lines@[i as int] is Err);
                assert(!all_lines_ok(lines@));
                return Err(SearchError::IoReadError);
            },
        }
        i = i + 1;
    }
    proof {
        assert(line_views(lines@).take(n as int) =~= line_views(lines@));
    }
    Ok(total)
}

/// The sum of the span counts over a sequence of line results.
pub open spec fn view_total(v: Seq<(int, Seq<char>, Seq<(int, int)>)>) -> int
    decreases v.len(),
{
    if v.len() == 0 {
        0
    } else {
        view_total(v.drop_last()) + v.last().2.len()
    }
}

/// Law: the two entry points never disagree — the total that `count`
/// reports equals the sum of the span counts over every line result that
/// `search` reports. Lines absent from the search results contribute
/// nothing: they have no match.
pub proof fn lemma_count_sums_search(
    pattern: Seq<char>,
    is_regex: bool,
    ignore_case: bool,
    lines: Seq<Seq<char>>,
)
    ensures
        total_spans(pattern, is_regex, ignore_case, lines) == view_total(
            search_view(pattern, is_regex, ignore_case, lines),
        ),
    decreases lines.len(),
{
    if lines.len() == 0 {
    } else {
        lemma_count_sums_search(pattern, is_regex, ignore_case, lines.drop_last());
        let prev = search_view(pattern, is_regex, ignore_case, lines.drop_last());
        let sp = pattern_spans(pattern, is_regex, ignore_case, lines.last());
        if sp.len() > 0 {
            let pushed = prev.push((lines.len() as int, lines.last(), sp));
            assert(pushed.drop_last() =~= prev);
            assert(pushed.last() == (lines.len() as int, lines.last(), sp));
        }
    }
}

/// Law: search is deterministic. Two result sets that carry the same
/// pattern and the same view — as any two results of `search` on inputs
/// with equal contents do, by its contract — are structurally equal, field
/// by field.
#[verifier::rlimit(60)]
pub proof fn lemma_search_deterministic(a: SearchResults, b: SearchResults)
    requires
        a.pattern@ == b.pattern@,
        results_view(a) == results_view(b),
        a.wf(),
        b.wf(),
    ensures
        results_eq(a, b),
{
    assert(a.results@.len() == b.results@.len()) by {
        assert(results_view(a).len() == a.results@.len());
        assert(results_view(b).len() == b.results@.len());
    }
    assert forall|k: int| 0 <= k < a.results@.len() implies result_eq(
        #[trigger] a.results@[k],
        b.results@[k],
    ) by {
        let ra = a.results@[k];
        let rb = b.results@[k];
        assert(results_view(a)[k] == (ra.line as int, ra.content@, spans_view(ra.matches@)));
        assert(results_view(b)[k] == (rb.line as int, rb.content@, spans_view(rb.matches@)));
        assert(ra.line == rb.line);
        assert(ra.content@ == rb.content@);
        assert(spans_view(ra.matches@) == spans_view(rb.matches@));
        assert(ra.matches@.len() == rb.matches@.len()) by {
            assert(spans_view(ra.matches@).len() == ra.matches@.len());
            assert(spans_view(rb.matches@).len() == rb.matches@.len());
        }
        assert forall|j: int| 0 <= j < ra.matches@.len() implies match_eq(
            #[trigger] ra.matches@[j],
            rb.matches@[j],
        ) by {
            assert(spans_view(ra.matches@)[j] == (
                ra.matches@[j].start_pos as int,
                ra.matches@[j].end_pos as int,
            ));
            assert(spans_view(rb.matches@)[j] == (
                rb.matches@[j].start_pos as int,
                rb.matches@[j].end_pos as int,
            ));
            assert(ra.wf());
            assert(rb.wf());
            assert(ra.matches@[j].content@ == ra.content@.subrange(
                ra.matches@[j].start_pos as int,
                ra.matches@[j].end_pos as int,
            ));
            assert(rb.matches@[j].content@ == rb.content@.subrange(
                rb.matches@[j].start_pos as int,
                rb.matches@[j].end_pos as int,
            ));
        }
    }
}

} // verus!
