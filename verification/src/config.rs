//! The preprocessor's settings (`[preprocessor.modern-dot]` in `book.toml`).

use vstd::prelude::*;
use crate::theme::{texts, ThemeFile};

verus! {

/// The preprocessor's name, the key of its table in `book.toml`.
pub const PREPROCESSOR_NAME: &'static str = "modern-dot";

/// The info string of the code blocks rendered by default.
pub const DEFAULT_INFO_STRING: &'static str = "modern-dot";

/// The theme file read, relative to the book's root, where themed output is
/// asked for and no theme file is named.
pub const DEFAULT_THEME_FILE: &'static str = "themes/default.toml";

/// The settings.
#[derive(Debug, Clone)]
pub struct Config {
    /// Write SVG files next to the chapter instead of inlining the SVG.
    pub output_to_file: bool,
    /// In file mode without themes, wrap the image in a link to the file.
    pub link_to_file: bool,
    /// The info string that marks the code blocks to render.
    pub info_string: String,
    /// The arguments given to `dot`.
    pub arguments: Vec<String>,
    /// Render a light and a dark variant of each diagram.
    pub themed_output: bool,
    /// Put the theme style sheet before the first themed diagram of each chapter.
    pub inject_theme_css: bool,
    /// The theme file, relative to the book's root.
    pub theme_file: Option<String>,
    /// What the dark file's name carries after `modern-dot`.
    pub dark_suffix: String,
    /// The class of the element that wraps a themed diagram.
    pub theme_wrapper_class: String,
    /// The loaded theme, for themed output.
    pub theme: Option<ThemeFile>,
}

impl Default for Config {
    /// The documented defaults.
    fn default() -> (c: Self)
        ensures
            !c.output_to_file,
            !c.link_to_file,
            c.info_string@ == DEFAULT_INFO_STRING@,
            texts(c.arguments@) == seq!["-Tsvg"@],
            !c.themed_output,
            c.inject_theme_css,
            c.theme_file is None,
            c.dark_suffix@ == "-dark"@,
            c.theme_wrapper_class@ == "theme-diagram"@,
            c.theme is None,
    {
        let mut arguments: Vec<String> = Vec::new();
        arguments.push(String::from_str("-Tsvg"));
        assert(texts(arguments@) == seq!["-Tsvg"@]);
        Config {
            output_to_file: false,
            link_to_file: false,
            info_string: String::from_str(DEFAULT_INFO_STRING),
            arguments,
            themed_output: false,
            inject_theme_css: true,
            theme_file: None,
            dark_suffix: String::from_str("-dark"),
            theme_wrapper_class: String::from_str("theme-diagram"),
            theme: None,
        }
    }
}

/// The theme file read where output is themed, relative to the book's root:
/// the one the settings name, else [`DEFAULT_THEME_FILE`].
pub fn theme_path(theme_file: Option<&str>) -> (r: String)
    ensures
        r@ == match theme_file {
            Some(f) => f@,
            None => DEFAULT_THEME_FILE@,
        },
{
    match theme_file {
        Some(f) => String::from_str(f),
        None => String::from_str(DEFAULT_THEME_FILE),
    }
}

} // verus!
