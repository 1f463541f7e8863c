use minigreplib::errors::ReadError;
use minigreplib::matcher::PatternMode;
use minigreplib::search::count;

fn data_lines() -> Vec<Result<String, ReadError>> {
    vec![
        Ok("Hello my friend!".to_string()),
        Ok("How are you doing?".to_string()),
        Ok("Nice to meet you!".to_string()),
        Ok("My name is Jack.".to_string()),
    ]
}

#[test]
fn lib_test_count() {
    let expected = 1;

    let lines = data_lines();

    let results = count(&lines, "my", PatternMode::Literal, false).unwrap();

    assert_eq!(results, expected);
}

#[test]
fn lib_test_count_case_insensitive() {
    let expected = 2;

    let lines = data_lines();

    let results = count(&lines, "my", PatternMode::Literal, true).unwrap();

    assert_eq!(results, expected);
}

#[test]
fn lib_test_count_regex() {
    let expected = 2;

    let lines = data_lines();

    let results = count(&lines, r"\byou\b", PatternMode::Regex, true).unwrap();

    assert_eq!(results, expected);
}
