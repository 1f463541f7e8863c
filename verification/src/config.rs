//! Color configuration for the rendering layer.
//!
//! A configuration holds two color names: one for ordinary content, one for
//! matched text. An empty name means no color. Loading and storing the
//! configuration is the surrounding application's concern; the library only
//! holds the values and resolves names to terminal colors.

use vstd::prelude::*;

verus! {

#[verifier::external_type_specification]
#[verifier::external_body]
pub struct ExAnsiColors(owo_colors::AnsiColors);

/// Relies on owo_colors' `From<&str>` for `AnsiColors`: it maps a color
/// name ("red", "bright blue", ...) to the matching variant, and any
/// unknown name to white.
#[verifier::external_body]
fn color_from_name(name: &str) -> owo_colors::AnsiColors {
    owo_colors::AnsiColors::from(name)
}

/// Rendering colors, by name; an empty name means no color.
pub struct Config {
    content_color: String,
    match_color: String,
}

impl Config {
    /// The configured name of the content color.
    pub closed spec fn content_color_view(&self) -> Seq<char> {
        self.content_color@
    }

    /// The configured name of the match color.
    pub closed spec fn match_color_view(&self) -> Seq<char> {
        self.match_color@
    }

    pub fn new(content_color: String, match_color: String) -> (r: Config)
        ensures
            r.content_color_view() == content_color@,
            r.match_color_view() == match_color@,
    {
        Config { content_color, match_color }
    }

    /// The color for ordinary content: none exactly when the configured
    /// name is empty.
    pub fn get_content_color(&self) -> (r: Option<owo_colors::AnsiColors>)
        ensures
            r is Some <==> self.content_color_view().len() != 0,
    {
        if self.content_color.as_str().is_empty() {
            None
        } else {
            Some(color_from_name(self.content_color.as_str()))
        }
    }

    /// The color for matched text: none exactly when the configured name is
    /// empty.
    pub fn get_match_color(&self) -> (r: Option<owo_colors::AnsiColors>)
        ensures
            r is Some <==> self.match_color_view().len() != 0,
    {
        if self.match_color.as_str().is_empty() {
            None
        } else {
            Some(color_from_name(self.match_color.as_str()))
        }
    }
}

} // verus!
