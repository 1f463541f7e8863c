//! The mathematical model of literal substring matching.
//!
//! A literal search scans left to right and reports non-overlapping
//! occurrences, advancing the cursor past each match. An empty pattern
//! matches with a zero-length span at every position, including the end of
//! the line, and the cursor still advances one position per match.

use vstd::prelude::*;

verus! {

/// The pattern occurs in `line` at position `i`.
pub open spec fn occurs_at(line: Seq<char>, pat: Seq<char>, i: int) -> bool {
    &&& 0 <= i
    &&& i + pat.len() <= line.len()
    &&& line.subrange(i, i + pat.len() as int) == pat
}

/// How far the cursor advances past a match: to the end of the match, but
/// always at least one position, so an empty pattern cannot stall the scan.
pub open spec fn advance(pat: Seq<char>) -> int {
    if pat.len() == 0 {
        1
    } else {
        pat.len() as int
    }
}

/// Start positions of the non-overlapping left-to-right matches of `pat` in
/// `line`, scanning from position `from`.
pub open spec fn match_starts_from(line: Seq<char>, pat: Seq<char>, from: int) -> Seq<int>
    decreases line.len() + 1 - from,
{
    if from < 0 || from > line.len() {
        Seq::empty()
    } else if occurs_at(line, pat, from) {
        seq![from] + match_starts_from(line, pat, from + advance(pat))
    } else {
        match_starts_from(line, pat, from + 1)
    }
}

/// The match spans of `pat` in `line`: each start paired with the end of
/// the occurrence starting there.
pub open spec fn lit_spans(pat: Seq<char>, line: Seq<char>) -> Seq<(int, int)> {
    match_starts_from(line, pat, 0).map_values(|s: int| (s, s + pat.len() as int))
}

/// Every reported start lies at or after the scan position, every match fits
/// inside the line, and consecutive starts are separated by at least the
/// cursor advance.
pub proof fn lemma_starts_props(line: Seq<char>, pat: Seq<char>, from: int)
    ensures
        forall|k: int|
            0 <= k < match_starts_from(line, pat, from).len() ==> from <= #[trigger] match_starts_from(
                line,
                pat,
                from,
            )[k] && match_starts_from(line, pat, from)[k] + pat.len() <= line.len(),
        forall|k: int|
            0 <= k < match_starts_from(line, pat, from).len() - 1 ==> #[trigger] match_starts_from(
                line,
                pat,
                from,
            )[k] + advance(pat) <= match_starts_from(line, pat, from)[k + 1],
    decreases line.len() + 1 - from,
{
    let s = match_starts_from(line, pat, from);
    if from < 0 || from > line.len() {
    } else if occurs_at(line, pat, from) {
        let rest = match_starts_from(line, pat, from + advance(pat));
        lemma_starts_props(line, pat, from + advance(pat));
        assert(s == seq![from] + rest);
        assert forall|k: int| 0 <= k < s.len() implies from <= #[trigger] s[k] && s[k] + pat.len()
            <= line.len() by {
            if k == 0 {
                assert(s[0] == from);
            } else {
                assert(s[k] == rest[k - 1]);
                assert(from + advance(pat) <= rest[k - 1] && rest[k - 1] + pat.len()
                    <= line.len());
            }
        }
        assert forall|k: int| 0 <= k < s.len() - 1 implies #[trigger] s[k] + advance(pat) <= s[k
            + 1] by {
            if k == 0 {
                assert(s[0] == from && s[1] == rest[0]);
                assert(from + advance(pat) <= rest[0]);
            } else {
                assert(s[k] == rest[k - 1] && s[k + 1] == rest[k]);
                assert(rest[k - 1] + advance(pat) <= rest[k]);
            }
        }
    } else {
        lemma_starts_props(line, pat, from + 1);
        assert(s == match_starts_from(line, pat, from + 1));
        assert forall|k: int| 0 <= k < s.len() implies from <= #[trigger] s[k] && s[k] + pat.len()
            <= line.len() by {
            assert(from + 1 <= s[k]);
        }
    }
}

/// Once the remaining text is shorter than a non-empty pattern, there are no
/// further matches.
pub proof fn lemma_starts_none_beyond(line: Seq<char>, pat: Seq<char>, from: int)
    requires
        pat.len() > 0,
        from + pat.len() > line.len(),
    ensures
        match_starts_from(line, pat, from).len() == 0,
    decreases line.len() + 1 - from,
{
    if from < 0 || from > line.len() {
    } else {
        assert(!occurs_at(line, pat, from));
        lemma_starts_none_beyond(line, pat, from + 1);
    }
}

/// An empty pattern matches exactly once at every position from the scan
/// position through the end of the line.
pub proof fn lemma_empty_pattern_starts(line: Seq<char>, from: int)
    requires
        0 <= from <= line.len(),
    ensures
        match_starts_from(line, Seq::<char>::empty(), from) =~= Seq::new(
            (line.len() + 1 - from) as nat,
            |i: int| from + i,
        ),
    decreases line.len() + 1 - from,
{
    let pat = Seq::<char>::empty();
    assert(occurs_at(line, pat, from)) by {
        assert(line.subrange(from, from) =~= pat);
    }
    if from < line.len() {
        lemma_empty_pattern_starts(line, from + 1);
    } else {
        assert(match_starts_from(line, pat, from + 1) =~= Seq::<int>::empty());
    }
}

} // verus!
