use minigreplib::errors::{ReadError, SearchError};
use minigreplib::matcher::{CompiledMatcher, PatternMode};
use minigreplib::search::{count, search};
use minigreplib::search_results::{Match, SearchResult, SearchResults};

fn greeting_lines() -> Vec<Result<String, ReadError>> {
    vec![
        Ok("Hello my friend!".to_string()),
        Ok("How are you doing?".to_string()),
        Ok("Nice to meet you!".to_string()),
        Ok("My name is Jack.".to_string()),
    ]
}

#[test]
fn test_search_literal_case_sensitive() {
    let mut expected = SearchResults::new("my".to_string());
    let mut result = SearchResult::new(1, "Hello my friend!".to_string());
    result.add_match(Match::new("my".to_string(), 6, 8));
    expected.add_result(result);

    let results = search(&greeting_lines(), "my", PatternMode::Literal, false).unwrap();

    assert_eq!(expected, results);
}

#[test]
fn test_search_literal_case_insensitive() {
    let mut expected = SearchResults::new("my".to_string());
    let mut result = SearchResult::new(1, "Hello my friend!".to_string());
    result.add_match(Match::new("my".to_string(), 6, 8));
    expected.add_result(result);
    result = SearchResult::new(4, "My name is Jack.".to_string());
    result.add_match(Match::new("My".to_string(), 0, 2));
    expected.add_result(result);

    let results = search(&greeting_lines(), "my", PatternMode::Literal, true).unwrap();

    assert_eq!(expected, results);
}

#[test]
fn test_search_regex_word_boundary() {
    let mut expected = SearchResults::new(r"\byou\b".to_string());
    let mut result = SearchResult::new(2, "How are you doing?".to_string());
    result.add_match(Match::new("you".to_string(), 8, 11));
    expected.add_result(result);
    result = SearchResult::new(3, "Nice to meet you!".to_string());
    result.add_match(Match::new("you".to_string(), 13, 16));
    expected.add_result(result);

    let results = search(&greeting_lines(), r"\byou\b", PatternMode::Regex, false).unwrap();

    assert_eq!(expected, results);
}

#[test]
fn test_count_regex_word_boundary() {
    let results = count(&greeting_lines(), r"\byou\b", PatternMode::Regex, false).unwrap();

    assert_eq!(results, 2);
}

#[test]
fn test_search_empty_input() {
    let lines: Vec<Result<String, ReadError>> = vec![];

    let results = search(&lines, "anything", PatternMode::Literal, false).unwrap();

    assert_eq!(results, SearchResults::new("anything".to_string()));
    assert_eq!(count(&lines, "anything", PatternMode::Literal, false).unwrap(), 0);
}

#[test]
fn test_find_all_case_insensitive_keeps_original_case() {
    let matcher = CompiledMatcher::compile("hello", PatternMode::Literal).unwrap();

    let matches = matcher.find_all("HELLO", true);

    assert_eq!(matches.len(), 1);
    assert_eq!(matches[0].content, "HELLO".to_string());
    assert_eq!(matches[0].start_pos, 0);
    assert_eq!(matches[0].end_pos, 5);
}

#[test]
fn test_find_all_empty_pattern_terminates() {
    let matcher = CompiledMatcher::compile("", PatternMode::Literal).unwrap();

    let matches = matcher.find_all("abc", false);

    assert_eq!(matches.len(), 4);
    for (i, m) in matches.iter().enumerate() {
        assert_eq!(m.start_pos, i);
        assert_eq!(m.end_pos, i);
        assert_eq!(m.content, "".to_string());
    }
}

#[test]
fn test_count_empty_pattern() {
    let lines: Vec<Result<String, ReadError>> =
        vec![Ok("ab".to_string()), Ok("c".to_string())];

    let results = count(&lines, "", PatternMode::Literal, false).unwrap();

    assert_eq!(results, 5);
}

#[test]
fn test_literal_matches_do_not_overlap() {
    let matcher = CompiledMatcher::compile("aa", PatternMode::Literal).unwrap();

    let matches = matcher.find_all("aaa", false);

    assert_eq!(matches.len(), 1);
    assert_eq!(matches[0].start_pos, 0);
    assert_eq!(matches[0].end_pos, 2);
}

#[test]
fn test_pattern_longer_than_line() {
    let matcher = CompiledMatcher::compile("abcdef", PatternMode::Literal).unwrap();

    let matches = matcher.find_all("abc", false);

    assert_eq!(matches.len(), 0);
}

#[test]
fn test_invalid_regex_rejected() {
    assert!(CompiledMatcher::compile("[", PatternMode::Regex).is_err());

    let lines = greeting_lines();
    assert_eq!(
        search(&lines, "[", PatternMode::Regex, false).unwrap_err(),
        SearchError::InvalidPattern
    );
    assert_eq!(
        count(&lines, "[", PatternMode::Regex, false).unwrap_err(),
        SearchError::InvalidPattern
    );
}

#[test]
fn test_read_failure_aborts() {
    let lines: Vec<Result<String, ReadError>> =
        vec![Ok("a line with text".to_string()), Err(ReadError)];

    assert_eq!(
        search(&lines, "text", PatternMode::Literal, false).unwrap_err(),
        SearchError::IoReadError
    );
    assert_eq!(
        count(&lines, "text", PatternMode::Literal, false).unwrap_err(),
        SearchError::IoReadError
    );
}

#[test]
fn test_regex_case_insensitive_folds_line() {
    let lines: Vec<Result<String, ReadError>> = vec![Ok("WE ARE HERE".to_string())];

    let mut expected = SearchResults::new("here".to_string());
    let mut result = SearchResult::new(1, "WE ARE HERE".to_string());
    result.add_match(Match::new("HERE".to_string(), 7, 11));
    expected.add_result(result);

    let results = search(&lines, "here", PatternMode::Regex, true).unwrap();

    assert_eq!(expected, results);
}

#[test]
fn test_search_twice_yields_equal_results() {
    let first = search(&greeting_lines(), "you", PatternMode::Literal, true).unwrap();
    let second = search(&greeting_lines(), "you", PatternMode::Literal, true).unwrap();

    assert_eq!(first, second);
}

#[test]
fn test_count_agrees_with_search() {
    let results = search(&greeting_lines(), "you", PatternMode::Literal, true).unwrap();
    let total = count(&greeting_lines(), "you", PatternMode::Literal, true).unwrap();

    let summed: usize = results.results.iter().map(|r| r.matches.len()).sum();
    assert_eq!(total, summed);
}

#[test]
fn test_literal_pattern_is_not_a_regex() {
    let matcher = CompiledMatcher::compile("a.b", PatternMode::Literal).unwrap();

    assert_eq!(matcher.find_all("axb", false).len(), 0);

    let matches = matcher.find_all("a.b", false);
    assert_eq!(matches.len(), 1);
    assert_eq!(matches[0].start_pos, 0);
    assert_eq!(matches[0].end_pos, 3);
}

#[test]
fn test_uppercase_pattern_folds_too() {
    let results = search(&greeting_lines(), "MY", PatternMode::Literal, true).unwrap();

    assert_eq!(results.results.len(), 2);
    assert_eq!(results.results[0].matches[0].content, "my".to_string());
    assert_eq!(results.results[1].matches[0].content, "My".to_string());
}

#[test]
fn test_regex_offsets_are_character_offsets() {
    let lines: Vec<Result<String, ReadError>> = vec![Ok("héllo héllo".to_string())];

    let results = search(&lines, "llo", PatternMode::Regex, false).unwrap();

    assert_eq!(results.results.len(), 1);
    let matches = &results.results[0].matches;
    assert_eq!(matches.len(), 2);
    assert_eq!((matches[0].start_pos, matches[0].end_pos), (2, 5));
    assert_eq!((matches[1].start_pos, matches[1].end_pos), (8, 11));
    assert_eq!(matches[0].content, "llo".to_string());
}

#[test]
fn test_segments_reconstruct_line() {
    let mut result = SearchResult::new(1, "Hello my friend!".to_string());
    result.add_match(Match::new("my".to_string(), 6, 8));

    let segments = result.segments();

    assert_eq!(segments.len(), 2);
    assert_eq!(segments[0].0, "Hello ".to_string());
    assert_eq!(segments[0].1, Some("my".to_string()));
    assert_eq!(segments[1].0, " friend!".to_string());
    assert_eq!(segments[1].1, None);
}
