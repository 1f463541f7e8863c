use minigreplib::errors::ReadError;
use minigreplib::matcher::PatternMode;
use minigreplib::search::{count, search};
use minigreplib::search_results::{Match, SearchResult, SearchResults};

fn content_lines() -> Vec<Result<String, ReadError>> {
    vec![
        Ok("Hello, I'm Jack.".to_string()),
        Ok("Hi Jack, nice to meet you.".to_string()),
        Ok("Nice to meet you too, Jack. What brings you here?".to_string()),
        Ok("I'm here shopping. How about you? What brings you here?".to_string()),
        Ok("I'm here for a concert.".to_string()),
        Ok("A concert! That sounds like fun.".to_string()),
        Ok("It should be. Oh, my train is coming.".to_string()),
        Ok("Nice meeting you. Here is my train. See you around. Bye.".to_string()),
    ]
}

#[test]
fn test_search() {
    let pattern = "here";

    let mut expected_results = SearchResults::new(pattern.to_string());
    let mut result = SearchResult::new(
        3,
        "Nice to meet you too, Jack. What brings you here?".to_string(),
    );
    result.add_match(Match::new("here".to_string(), 44, 48));
    expected_results.add_result(result);
    result = SearchResult::new(
        4,
        "I'm here shopping. How about you? What brings you here?".to_string(),
    );
    result.add_match(Match::new("here".to_string(), 4, 8));
    result.add_match(Match::new("here".to_string(), 50, 54));
    expected_results.add_result(result);
    result = SearchResult::new(5, "I'm here for a concert.".to_string());
    result.add_match(Match::new("here".to_string(), 4, 8));
    expected_results.add_result(result);

    let lines = content_lines();

    let results = search(&lines, pattern, PatternMode::Literal, false).unwrap();

    assert_eq!(expected_results, results);
}

#[test]
fn test_search_case_insensitive() {
    let pattern = "here";

    let mut expected_results = SearchResults::new(pattern.to_string());
    let mut result = SearchResult::new(
        3,
        "Nice to meet you too, Jack. What brings you here?".to_string(),
    );
    result.add_match(Match::new("here".to_string(), 44, 48));
    expected_results.add_result(result);
    result = SearchResult::new(
        4,
        "I'm here shopping. How about you? What brings you here?".to_string(),
    );
    result.add_match(Match::new("here".to_string(), 4, 8));
    result.add_match(Match::new("here".to_string(), 50, 54));
    expected_results.add_result(result);
    result = SearchResult::new(5, "I'm here for a concert.".to_string());
    result.add_match(Match::new("here".to_string(), 4, 8));
    expected_results.add_result(result);
    result = SearchResult::new(
        8,
        "Nice meeting you. Here is my train. See you around. Bye.".to_string(),
    );
    result.add_match(Match::new("Here".to_string(), 18, 22));
    expected_results.add_result(result);

    let lines = content_lines();

    let results = search(&lines, pattern, PatternMode::Literal, true).unwrap();

    assert_eq!(expected_results, results);
}

#[test]
fn test_search_regex() {
    let pattern = r"\bhere\b";

    let mut expected_results = SearchResults::new(pattern.to_string());
    let mut result = SearchResult::new(
        3,
        "Nice to meet you too, Jack. What brings you here?".to_string(),
    );
    result.add_match(Match::new("here".to_string(), 44, 48));
    expected_results.add_result(result);
    result = SearchResult::new(
        4,
        "I'm here shopping. How about you? What brings you here?".to_string(),
    );
    result.add_match(Match::new("here".to_string(), 4, 8));
    result.add_match(Match::new("here".to_string(), 50, 54));
    expected_results.add_result(result);
    result = SearchResult::new(5, "I'm here for a concert.".to_string());
    result.add_match(Match::new("here".to_string(), 4, 8));
    expected_results.add_result(result);

    let lines = content_lines();

    let results = search(&lines, pattern, PatternMode::Regex, false).unwrap();

    assert_eq!(expected_results, results);
}

#[test]
fn test_search_regex_case_insensitive() {
    let pattern = r"\bhere\b";

    let mut expected_results = SearchResults::new(pattern.to_string());
    let mut result = SearchResult::new(
        3,
        "Nice to meet you too, Jack. What brings you here?".to_string(),
    );
    result.add_match(Match::new("here".to_string(), 44, 48));
    expected_results.add_result(result);
    result = SearchResult::new(
        4,
        "I'm here shopping. How about you? What brings you here?".to_string(),
    );
    result.add_match(Match::new("here".to_string(), 4, 8));
    result.add_match(Match::new("here".to_string(), 50, 54));
    expected_results.add_result(result);
    result = SearchResult::new(5, "I'm here for a concert.".to_string());
    result.add_match(Match::new("here".to_string(), 4, 8));
    expected_results.add_result(result);
    result = SearchResult::new(
        8,
        "Nice meeting you. Here is my train. See you around. Bye.".to_string(),
    );
    result.add_match(Match::new("Here".to_string(), 18, 22));
    expected_results.add_result(result);

    let lines = content_lines();

    let results = search(&lines, pattern, PatternMode::Regex, true).unwrap();

    assert_eq!(expected_results, results);
}

#[test]
fn search_test_count() {
    let pattern = "here";

    let expected_results = 4;

    let lines = content_lines();

    let results = count(&lines, pattern, PatternMode::Literal, false).unwrap();

    assert_eq!(expected_results, results);
}

#[test]
fn search_test_count_case_insensitive() {
    let pattern = "here";

    let expected_results = 5;

    let lines = content_lines();

    let results = count(&lines, pattern, PatternMode::Literal, true).unwrap();

    assert_eq!(expected_results, results);
}

#[test]
fn search_test_count_regex() {
    let pattern = r"\bhere\b";

    let expected_results = 4;

    let lines = content_lines();

    let results = count(&lines, pattern, PatternMode::Regex, false).unwrap();

    assert_eq!(expected_results, results);
}

#[test]
fn test_count_regex_case_insensitive() {
    let pattern = r"\bhere\b";

    let expected_results = 5;

    let lines = content_lines();

    let results = count(&lines, pattern, PatternMode::Regex, true).unwrap();

    assert_eq!(expected_results, results);
}
