use mdbook_modern_dot::config::{theme_path, Config, DEFAULT_INFO_STRING, PREPROCESSOR_NAME};

#[test]
fn defaults_match_expected_marker() {
    let config = Config::default();
    assert_eq!(config.info_string, "modern-dot");
    assert!(!config.themed_output);
}

#[test]
fn defaults_follow_documentation() {
    let config = Config::default();
    assert!(!config.output_to_file);
    assert!(!config.link_to_file);
    assert_eq!(config.arguments, vec!["-Tsvg".to_string()]);
    assert!(config.inject_theme_css);
    assert_eq!(config.theme_file, None);
    assert_eq!(config.dark_suffix, "-dark");
    assert_eq!(config.theme_wrapper_class, "theme-diagram");
    assert!(config.theme.is_none());
    assert_eq!(DEFAULT_INFO_STRING, "modern-dot");
    assert_eq!(PREPROCESSOR_NAME, "modern-dot");
}

#[test]
fn theme_path_defaults_to_the_default_theme_file() {
    assert_eq!(theme_path(None), "themes/default.toml");
    assert_eq!(theme_path(Some("custom/theme.toml")), "custom/theme.toml");
}
