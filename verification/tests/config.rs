use minigreplib::config::Config;
use owo_colors::AnsiColors;

#[test]
fn test_struct_default() {
    let config = Config::new("red".to_string(), "blue".to_string());

    assert_eq!(config.get_content_color(), Some(AnsiColors::Red));
    assert_eq!(config.get_match_color(), Some(AnsiColors::Blue));
}

#[test]
fn test_no_color_configured() {
    let config = Config::new("".to_string(), "green".to_string());

    assert_eq!(config.get_content_color(), None);
    assert_eq!(config.get_match_color(), Some(AnsiColors::Green));
}
