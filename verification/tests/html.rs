use mdbook_modern_dot::html::{
    escape_html, inline_diagram, sanitize_svg, themed_file_diagram, themed_inline_diagram,
    BLOCK_SEPARATOR, OUTPUT_CLASS,
};

#[test]
fn block_separator_is_html_comment() {
    assert!(BLOCK_SEPARATOR.starts_with("<!--"));
}

#[test]
fn themed_inline_includes_both_variants() {
    let html = themed_inline_diagram(
        "<svg>light</svg>".into(),
        "<svg>dark</svg>".into(),
        "theme-diagram",
    );
    assert!(html.contains(OUTPUT_CLASS));
    assert!(html.contains("diagram-light"));
    assert!(html.contains("diagram-dark"));
}

#[test]
fn themed_inline_exact_markup() {
    let html = themed_inline_diagram("<svg>l</svg>\n".into(), " <svg>d</svg>".into(), "w");
    assert_eq!(
        html,
        "<div class=\"mdbook-modern-dot-output w\"><div class=\"diagram-light\"><svg>l</svg></div><div class=\"diagram-dark\"><svg>d</svg></div></div>"
    );
}

#[test]
fn sanitize_removes_declarations_and_gaps() {
    let svg = "<?xml version=\"1.0\" encoding=\"UTF-8\" standalone=\"no\"?>\n<!DOCTYPE svg PUBLIC \"-//W3C//DTD SVG 1.1//EN\">\n<svg>\n  <g>\n    <text>a b</text>\n  </g>\n</svg>\n";
    assert_eq!(sanitize_svg(svg.into()), "<svg><g><text>a b</text></g></svg>");
}

#[test]
fn sanitize_keeps_text_between_tags_and_incomplete_declarations() {
    assert_eq!(sanitize_svg("<a> x <b>".into()), "<a> x <b>");
    assert_eq!(sanitize_svg("<!DOCTYPE >".into()), "<!DOCTYPE >");
    assert_eq!(sanitize_svg("<?xml ?>".into()), "<?xml ?>");
    assert_eq!(sanitize_svg("<?xml a>".into()), "<?xml a>");
    assert_eq!(sanitize_svg("  <x>\r\n\t<y>  ".into()), "<x><y>");
    assert_eq!(sanitize_svg("line\nbreak".into()), "linebreak");
}

#[test]
fn inline_diagram_wraps_sanitized_svg() {
    assert_eq!(
        inline_diagram("<svg/>\n".into()),
        "<div class=\"mdbook-modern-dot-output\"><svg/></div>"
    );
}

#[test]
fn escape_html_escapes_markup_characters() {
    assert_eq!(escape_html("a&b\"c<d>e"), "a&amp;b&quot;c&lt;d&gt;e");
    assert_eq!(escape_html("plain"), "plain");
    assert_eq!(escape_html("&amp;"), "&amp;amp;");
}

#[test]
fn themed_file_diagram_escapes_sources_and_alt() {
    let html = themed_file_diagram("theme-diagram", "a<b.svg", "c\"d.svg", "x & y");
    assert_eq!(
        html,
        "<p class=\"theme-diagram\"><img class=\"diagram-light\" src=\"a&lt;b.svg\" alt=\"x &amp; y\"><img class=\"diagram-dark\" src=\"c&quot;d.svg\" alt=\"x &amp; y\"></p>"
    );
}

#[test]
fn unescaping_gives_back_the_escaped_text() {
    for value in ["a & b", "&lt;", "<\"x\">", "&amp;&quot;", "plain", ""] {
        let escaped = escape_html(value);
        let back = escaped
            .replace("&lt;", "<")
            .replace("&gt;", ">")
            .replace("&quot;", "\"")
            .replace("&amp;", "&");
        assert_eq!(back, value);
    }
}
