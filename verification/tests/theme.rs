use mdbook_modern_dot::theme::{apply_theme, inject_preamble, prepare_dot, PreambleConfig, ThemeTokens};

#[test]
fn apply_theme_replaces_placeholders() {
    let mut theme = ThemeTokens::new();
    theme.insert("edge".to_string(), "#111111".to_string());
    let out = apply_theme("edge [color=\"{{ edge }}\"];", &theme).unwrap();
    assert_eq!(out, "edge [color=\"#111111\"];");
}

#[test]
fn apply_theme_reports_missing_keys() {
    let theme = ThemeTokens::new();
    let err = apply_theme("color=\"{{ missing }}\";", &theme).unwrap_err();
    assert!(err.message().contains("missing theme keys: missing"));
}

#[test]
fn inject_preamble_inserts_after_opening_brace() {
    let mut theme = ThemeTokens::new();
    theme.insert("text".to_string(), "#000".to_string());
    theme.insert("node_fill".to_string(), "#fff".to_string());
    theme.insert("node_stroke".to_string(), "#ccc".to_string());
    theme.insert("edge".to_string(), "#999".to_string());

    let preamble = PreambleConfig {
        graph: Some("graph [fontcolor=\"{{ text }}\"];".to_string()),
        node: Some("node [fillcolor=\"{{ node_fill }}\"];".to_string()),
        edge: None,
    };

    let out = inject_preamble("digraph G { A -> B; }", &preamble, &theme).unwrap();
    assert!(out.contains("digraph G {\ngraph [fontcolor=\"#000\"];"));
    assert!(out.contains("node [fillcolor=\"#fff\"];"));
    assert!(out.contains("A -> B;"));
}

#[test]
fn prepare_dot_skips_preamble_when_placeholders_present() {
    let mut theme = ThemeTokens::new();
    theme.insert("text".to_string(), "#111".to_string());

    let preamble = PreambleConfig {
        graph: Some("graph [fontcolor=\"{{ text }}\"];".to_string()),
        node: None,
        edge: None,
    };

    let out = prepare_dot(
        "digraph G { node [fontcolor=\"{{ text }}\"]; }",
        &theme,
        Some(&preamble),
    )
    .unwrap();
    assert_eq!(out, "digraph G { node [fontcolor=\"#111\"]; }");
    assert!(!out.contains("graph [fontcolor"));
}

#[test]
fn missing_keys_are_sorted_and_unique() {
    let mut theme = ThemeTokens::new();
    theme.insert("a".to_string(), "1".to_string());
    let err = apply_theme("{{zeta}} {{ a }} {{beta}} {{zeta}} {{ alpha }}", &theme).unwrap_err();
    assert_eq!(err.message(), "missing theme keys: alpha, beta, zeta");
}

#[test]
fn placeholder_grammar_edges() {
    let mut theme = ThemeTokens::new();
    theme.insert("k".to_string(), "V".to_string());
    assert_eq!(apply_theme("{{{k}}}", &theme).unwrap(), "{V}");
    assert_eq!(apply_theme("{{\t k \n}}", &theme).unwrap(), "V");
    assert_eq!(apply_theme("{{ }} {{k-x}} {k}", &theme).unwrap(), "{{ }} {{k-x}} {k}");
    assert_eq!(apply_theme("", &theme).unwrap(), "");
}

#[test]
fn insert_replaces_and_returns_previous_value() {
    let mut theme = ThemeTokens::new();
    assert_eq!(theme.insert("k".to_string(), "1".to_string()), None);
    assert_eq!(theme.insert("k".to_string(), "2".to_string()), Some("1".to_string()));
    assert_eq!(theme.get("k"), Some(&"2".to_string()));
    assert_eq!(theme.get("other"), None);
}

#[test]
fn inject_preamble_without_brace_or_lines() {
    let theme = ThemeTokens::new();
    let preamble = PreambleConfig { graph: Some("g;".into()), node: None, edge: Some("e;".into()) };
    assert_eq!(inject_preamble("a -> b", &preamble, &theme).unwrap(), "g;\ne;\na -> b");
    let empty = PreambleConfig { graph: None, node: None, edge: None };
    assert_eq!(inject_preamble("digraph { }", &empty, &theme).unwrap(), "digraph { }");
    assert_eq!(
        inject_preamble("digraph { a }", &preamble, &theme).unwrap(),
        "digraph {\ng;\ne;\n a }"
    );
}

#[test]
fn inject_preamble_reports_first_failing_line() {
    let theme = ThemeTokens::new();
    let preamble = PreambleConfig {
        graph: Some("{{ b }}".into()),
        node: Some("{{ a }}".into()),
        edge: None,
    };
    let err = inject_preamble("digraph {}", &preamble, &theme).unwrap_err();
    assert_eq!(err.message(), "missing theme keys: b");
}

#[test]
fn prepare_dot_injects_preamble_then_fills_tokens() {
    let mut theme = ThemeTokens::new();
    theme.insert("text".to_string(), "#222".to_string());
    let preamble = PreambleConfig { graph: Some("graph [fontcolor=\"{{ text }}\"];".into()), node: None, edge: None };
    assert_eq!(
        prepare_dot("digraph G { A; }", &theme, Some(&preamble)).unwrap(),
        "digraph G {\ngraph [fontcolor=\"#222\"];\n A; }"
    );
    assert_eq!(prepare_dot("digraph G { A; }", &theme, None).unwrap(), "digraph G { A; }");
}
