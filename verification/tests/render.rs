use mdbook_modern_dot::block::DiagramBlock;
use mdbook_modern_dot::config::Config;
use mdbook_modern_dot::engine::events_to_markdown;
use mdbook_modern_dot::html::{inline_diagram, BLOCK_SEPARATOR};
use mdbook_modern_dot::markdown::LinkKind;
use mdbook_modern_dot::render::{
    diagram_events, dot_jobs, file_image_events, html_diagram_events, runs_per_diagram, themed_dot_sources,
    themed_html_diagram_events, OutputEvent, RenderError,
};
use mdbook_modern_dot::theme::{PreambleConfig, ThemeFile, ThemeTokens};
use mdbook_modern_dot::theme_css::ThemeCssInjector;

fn tokens(pairs: &[(&str, &str)]) -> ThemeTokens {
    let mut t = ThemeTokens::new();
    for (k, v) in pairs {
        t.insert(k.to_string(), v.to_string());
    }
    t
}

fn sample_theme() -> ThemeFile {
    ThemeFile {
        light: tokens(&[("text", "#111111")]),
        dark: tokens(&[("text", "#eeeeee")]),
        preamble: None,
    }
}

#[test]
fn themed_dot_sources_applies_light_and_dark_tokens() {
    let config = Config {
        themed_output: true,
        theme: Some(sample_theme()),
        ..Config::default()
    };

    let (light_dot, dark_dot) =
        themed_dot_sources("digraph G { node [fontcolor=\"{{ text }}\"]; }", &config).unwrap();
    assert!(light_dot.contains("#111111"));
    assert!(dark_dot.contains("#eeeeee"));
}

#[test]
fn themed_dot_sources_injects_preamble_when_needed() {
    let config = Config {
        themed_output: true,
        theme: Some(ThemeFile {
            light: tokens(&[("text", "#111111")]),
            dark: tokens(&[("text", "#eeeeee")]),
            preamble: Some(PreambleConfig {
                graph: Some("graph [fontcolor=\"{{ text }}\"];".to_string()),
                node: None,
                edge: None,
            }),
        }),
        ..Config::default()
    };

    let (light_dot, _) = themed_dot_sources("digraph G { A -> B; }", &config).unwrap();
    assert!(light_dot.contains("graph [fontcolor=\"#111111\"];"));
}

#[test]
fn themed_dot_sources_without_theme_fails() {
    let config = Config { themed_output: true, ..Config::default() };
    let err = themed_dot_sources("digraph {}", &config).unwrap_err();
    assert!(matches!(err, RenderError::MissingTheme));
    assert_eq!(err.message(), "missing theme configuration");
}

#[test]
fn file_image_events_without_link() {
    let mut events = file_image_events("_name_0.modern-dot.svg", "Name", false);
    events.push(OutputEvent::Text("\n\n".into()));
    let mut iter = events.into_iter();

    assert!(matches!(iter.next(), Some(OutputEvent::StartImage { .. })));
    assert!(matches!(iter.next(), Some(OutputEvent::EndImage)));
    assert_eq!(iter.next(), Some(OutputEvent::Text("\n\n".into())));
    assert_eq!(iter.next(), None);
}

#[test]
fn file_image_events_with_link() {
    let mut events = file_image_events("_name_0.modern-dot.svg", "Name", true);
    events.push(OutputEvent::Text("\n\n".into()));
    let mut iter = events.into_iter();

    assert!(matches!(iter.next(), Some(OutputEvent::StartLink { .. })));
    assert!(matches!(iter.next(), Some(OutputEvent::StartImage { .. })));
    assert!(matches!(iter.next(), Some(OutputEvent::EndImage)));
    assert!(matches!(iter.next(), Some(OutputEvent::EndLink)));
    assert_eq!(iter.next(), Some(OutputEvent::Text("\n\n".into())));
    assert_eq!(iter.next(), None);
}

#[test]
fn file_image_events_are_inline_links_without_reference_id() {
    let events = file_image_events("a.svg", "A", true);
    let start_link = OutputEvent::StartLink {
        link_type: LinkKind::Inline,
        dest_url: "a.svg".into(),
        title: "A".into(),
        id: String::new(),
    };
    let start_image = OutputEvent::StartImage {
        link_type: LinkKind::Inline,
        dest_url: "a.svg".into(),
        title: "A".into(),
        id: String::new(),
    };
    assert_eq!(events, vec![start_link, start_image.clone(), OutputEvent::EndImage, OutputEvent::EndLink]);
    assert_eq!(file_image_events("a.svg", "A", false), vec![start_image, OutputEvent::EndImage]);
}

#[test]
fn link_events_are_written_as_inline_markdown() {
    let events = vec![
        OutputEvent::StartLink {
            link_type: LinkKind::Inline,
            dest_url: "a.svg".into(),
            title: String::new(),
            id: String::new(),
        },
        OutputEvent::Text("A".into()),
        OutputEvent::EndLink,
    ];
    assert_eq!(events_to_markdown(events).unwrap(), "[A](a.svg)");
}

#[test]
fn inline_diagram_event_shape() {
    let events = html_diagram_events(inline_diagram("<svg/>".into()));
    let mut events = events;
    events.push(OutputEvent::Text("\n\n".into()));
    let mut iter = events.into_iter();

    assert!(matches!(
        iter.next(),
        Some(OutputEvent::Html(sep)) if sep.contains(BLOCK_SEPARATOR)
    ));
    assert!(matches!(iter.next(), Some(OutputEvent::Html(_))));
    assert_eq!(iter.next(), Some(OutputEvent::Text("\n\n".into())));
    assert_eq!(iter.next(), None);
}

#[test]
fn themed_events_inject_builtin_css_once_per_chapter() {
    let config = Config {
        themed_output: true,
        inject_theme_css: true,
        ..Config::default()
    };

    let mut overview = ThemeCssInjector::default();
    let first = themed_html_diagram_events("<p>diagram</p>".into(), &config, &mut overview);
    let second = themed_html_diagram_events("<p>other</p>".into(), &config, &mut overview);

    assert_eq!(first.len(), 3);
    assert!(matches!(&first[1], OutputEvent::Html(html) if html.contains("mdbook-modern-dot-theme")));
    assert_eq!(second.len(), 2);

    let mut dominated_path = ThemeCssInjector::default();
    let other_chapter =
        themed_html_diagram_events("<p>diagram</p>".into(), &config, &mut dominated_path);
    assert_eq!(other_chapter.len(), 3);
    assert!(
        matches!(&other_chapter[1], OutputEvent::Html(html) if html.contains("mdbook-modern-dot-theme"))
    );
}

#[test]
fn themed_style_survives_cmark_roundtrip() {
    let config = Config {
        themed_output: true,
        inject_theme_css: true,
        ..Config::default()
    };
    let mut theme_css = ThemeCssInjector::default();
    let events = themed_html_diagram_events("<div>d</div>".into(), &config, &mut theme_css);
    let buf = events_to_markdown(events).unwrap();
    assert!(
        buf.contains("mdbook-modern-dot-theme"),
        "expected style in markdown output: {buf}"
    );
}

#[test]
fn themed_events_without_injection_skip_the_style() {
    let config = Config { themed_output: true, inject_theme_css: false, ..Config::default() };
    let mut css = ThemeCssInjector::default();
    let events = themed_html_diagram_events("<p>x</p>".into(), &config, &mut css);
    assert_eq!(events.len(), 2);
    assert!(css.take_style_tag().is_some());
}

fn block() -> DiagramBlock {
    DiagramBlock {
        graph_name: "G".into(),
        code: "digraph { a -> b }".into(),
        chapter_name: "Chap".into(),
        chapter_path: "/book".into(),
        index: 1,
    }
}

#[test]
fn dot_jobs_for_each_mode() {
    let inline = Config::default();
    let jobs = dot_jobs(&block(), &inline).unwrap();
    assert_eq!(jobs.len(), 1);
    assert_eq!(jobs[0].arguments, vec!["-Tsvg".to_string()]);
    assert_eq!(jobs[0].source, "digraph { a -> b }");
    assert_eq!(jobs[0].output_file, None);

    let file = Config { output_to_file: true, ..Config::default() };
    let jobs = dot_jobs(&block(), &file).unwrap();
    assert_eq!(jobs.len(), 1);
    assert_eq!(
        jobs[0].arguments,
        vec!["-Tsvg".to_string(), "-o".to_string(), "/book/chap_g_1.modern-dot.svg".to_string()]
    );
    assert_eq!(jobs[0].output_file.as_deref(), Some("/book/chap_g_1.modern-dot.svg"));

    let themed = Config {
        output_to_file: true,
        themed_output: true,
        theme: Some(sample_theme()),
        ..Config::default()
    };
    let jobs = dot_jobs(&block(), &themed).unwrap();
    assert_eq!(jobs.len(), 2);
    assert_eq!(jobs[1].output_file.as_deref(), Some("/book/chap_g_1.modern-dot-dark.svg"));
}

#[test]
fn diagram_events_for_file_and_inline_modes() {
    let mut css = ThemeCssInjector::default();
    let file = Config { output_to_file: true, link_to_file: true, ..Config::default() };
    let events = diagram_events(&block(), &file, &mut css, &vec![String::new()]);
    assert_eq!(
        events,
        vec![
            OutputEvent::StartLink {
                link_type: LinkKind::Inline,
                dest_url: "chap_g_1.modern-dot.svg".into(),
                title: "G".into(),
                id: String::new(),
            },
            OutputEvent::StartImage {
                link_type: LinkKind::Inline,
                dest_url: "chap_g_1.modern-dot.svg".into(),
                title: "G".into(),
                id: String::new(),
            },
            OutputEvent::EndImage,
            OutputEvent::EndLink,
            OutputEvent::Text("\n\n".into()),
        ]
    );

    let inline = Config::default();
    let events = diagram_events(&block(), &inline, &mut css, &vec!["<svg/>\n".to_string()]);
    assert_eq!(
        events,
        vec![
            OutputEvent::Html("<!-- mdbook-modern-dot -->\n\n".into()),
            OutputEvent::Html("<div class=\"mdbook-modern-dot-output\"><svg/></div>".into()),
            OutputEvent::Text("\n\n".into()),
        ]
    );
}

#[test]
fn themed_diagrams_take_two_runs_of_dot() {
    assert_eq!(runs_per_diagram(&Config::default()), 1);
    let themed = Config { themed_output: true, ..Config::default() };
    assert_eq!(runs_per_diagram(&themed), 2);
}
