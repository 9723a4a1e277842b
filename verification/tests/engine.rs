use mdbook_modern_dot::config::Config;
use mdbook_modern_dot::engine::{
    chapter_events, render_chapter, render_chapter_checked, ChapterError, ChapterPlan, Engine,
};
use mdbook_modern_dot::render::OutputEvent;

const NORMALIZED_CHAPTER_NAME: &str = "test_chapter";

fn process_chapter_with_info(content: &str, info_string: &str) -> String {
    let plan = ChapterPlan::scan(content, info_string, "Test Chapter", "/./book");
    let blocks = plan.blocks();
    let rendered = blocks
        .iter()
        .map(|block| {
            vec![OutputEvent::Text(format!(
                "{}|{:?}|{}|{}",
                block.light_file_name(),
                block.light_path(),
                block.graph_name,
                block.index
            ))]
        })
        .collect();
    plan.write(rendered).unwrap()
}

fn process_chapter(content: &str) -> String {
    process_chapter_with_info(content, "modern-dot")
}

#[test]
fn ignores_unmarked_dot_blocks() {
    let expected = "# Chapter\n\n````dot\ndigraph Test {\n    a -> b\n}\n````";
    assert_eq!(process_chapter(expected), expected);
}

#[test]
fn processes_custom_info_string() {
    let chapter = "# Chapter\n```graphviz\ndigraph Test {\n    a -> b\n}\n```\n";
    let expected = format!(
        "# Chapter\n\n{NORMALIZED_CHAPTER_NAME}_0.modern-dot.svg|\"/./book/{NORMALIZED_CHAPTER_NAME}_0.modern-dot.svg\"||0"
    );
    assert_eq!(process_chapter_with_info(chapter, "graphviz"), expected);
}

#[test]
fn ignores_mismatched_custom_info_string() {
    let expected = "# Chapter\n\n````dot\ndigraph Test {\n    a -> b\n}\n````";
    assert_eq!(process_chapter_with_info(expected, "graphviz"), expected);
}

#[test]
fn unnamed_diagram() {
    let chapter = "# Chapter\n```modern-dot\ndigraph Test {\n    a -> b\n}\n```\n";
    let expected = format!(
        "# Chapter\n\n{NORMALIZED_CHAPTER_NAME}_0.modern-dot.svg|\"/./book/{NORMALIZED_CHAPTER_NAME}_0.modern-dot.svg\"||0"
    );
    assert_eq!(process_chapter(chapter), expected);
}

#[test]
fn named_diagram() {
    let chapter = "# Chapter\n```modern-dot Graph Name\ndigraph Test {\n    a -> b\n}\n```\n";
    let expected = format!(
        "# Chapter\n\n{NORMALIZED_CHAPTER_NAME}_graph_name_0.modern-dot.svg|\"/./book/{NORMALIZED_CHAPTER_NAME}_graph_name_0.modern-dot.svg\"|Graph Name|0"
    );
    assert_eq!(process_chapter(chapter), expected);
}

#[test]
fn preserve_escaping() {
    let chapter = "# Chapter\n\n*asteriks*\n/*asteriks/*\n( \\int x dx = \\frac{x^2}{2} + C)\n\n```modern-dot Graph Name\ndigraph Test {\n    a -> b\n}\n```\n";
    let expected = format!(
        "# Chapter\n\n*asteriks*\n/*asteriks/*\n( \\int x dx = \\frac{{x^2}}{{2}} + C)\n\n{NORMALIZED_CHAPTER_NAME}_graph_name_0.modern-dot.svg|\"/./book/{NORMALIZED_CHAPTER_NAME}_graph_name_0.modern-dot.svg\"|Graph Name|0"
    );
    assert_eq!(process_chapter(chapter), expected);
}

#[test]
fn preserve_tables() {
    let chapter = "# Chapter\n\n|Tables|Are|Cool|\n|------|:-:|---:|\n|col 1 is|left-aligned|$1600|\n|col 2 is|centered|$12|\n|col 3 is|right-aligned|$1|\n\n```modern-dot Graph Name\ndigraph Test {\n    a -> b\n}\n```\n";
    let expected = format!(
        "# Chapter\n\n|Tables|Are|Cool|\n|------|:-:|---:|\n|col 1 is|left-aligned|$1600|\n|col 2 is|centered|$12|\n|col 3 is|right-aligned|$1|\n\n{NORMALIZED_CHAPTER_NAME}_graph_name_0.modern-dot.svg|\"/./book/{NORMALIZED_CHAPTER_NAME}_graph_name_0.modern-dot.svg\"|Graph Name|0"
    );
    assert_eq!(process_chapter(chapter), expected);
}

#[test]
fn diagrams_are_numbered_in_order() {
    let chapter = "# C\n```modern-dot A\ndigraph { a }\n```\n\ntext\n\n```modern-dot\n  digraph { b }  \n```\n";
    let plan = ChapterPlan::scan(chapter, "modern-dot", "  Test Chapter ", "d");
    let blocks = plan.blocks();
    assert_eq!(blocks.len(), 2);
    assert_eq!(blocks[0].index, 0);
    assert_eq!(blocks[0].graph_name, "A");
    assert_eq!(blocks[0].code, "digraph { a }");
    assert_eq!(blocks[0].chapter_name, "Test Chapter");
    assert_eq!(blocks[1].index, 1);
    assert_eq!(blocks[1].graph_name, "");
    assert_eq!(blocks[1].code, "digraph { b }");
    assert_eq!(blocks[1].chapter_path, "d");
}

#[test]
fn style_sheet_goes_with_first_themed_diagram_only() {
    let chapter = "```modern-dot\ndigraph { a }\n```\n\n```modern-dot\ndigraph { b }\n```\n";
    let plan = ChapterPlan::scan(chapter, "modern-dot", "Ch", "d");
    let blocks = plan.blocks();
    let config = Config { themed_output: true, inject_theme_css: true, ..Config::default() };
    let outputs = vec![
        vec!["<svg>1</svg>".to_string(), "<svg>2</svg>".to_string()],
        vec!["<svg>3</svg>".to_string(), "<svg>4</svg>".to_string()],
    ];
    let rendered = chapter_events(&blocks, &config, &outputs);
    assert_eq!(rendered[0].len(), 4);
    assert_eq!(rendered[1].len(), 3);
    let text = plan.write(rendered).unwrap();
    assert_eq!(text.matches("<style id=\"mdbook-modern-dot-theme\">").count(), 1);
}

#[test]
fn engine_keeps_its_settings() {
    let engine = Engine::new("/src".to_string(), Config::default());
    assert_eq!(engine.src_dir, "/src");
    assert_eq!(engine.config.info_string, "modern-dot");
}

#[test]
fn render_chapter_replaces_each_diagram_with_its_output() {
    let chapter = "# Chapter\n```modern-dot\ndigraph { a }\n```\n";
    let plan = ChapterPlan::scan(chapter, "modern-dot", "Ch", "d");
    let config = Config::default();
    let outputs = vec![vec!["<svg/>".to_string()]];
    let text = render_chapter(plan, &config, &outputs).unwrap();
    assert_eq!(
        text,
        "# Chapter<!-- mdbook-modern-dot -->\n\n<div class=\"mdbook-modern-dot-output\"><svg/></div>\n\n\n\n"
    );
}

#[test]
fn render_chapter_without_diagrams_writes_the_chapter_back() {
    let chapter = "# Chapter\n\ntext\n";
    let plan = ChapterPlan::scan(chapter, "modern-dot", "Ch", "d");
    assert!(plan.blocks().is_empty());
    let text = render_chapter(plan, &Config::default(), &Vec::new()).unwrap();
    assert_eq!(text, "# Chapter\n\ntext");
}

#[test]
fn multibyte_info_string_is_not_a_diagram() {
    let chapter = "```modern-do\u{6570}\nx\n```\n";
    let plan = ChapterPlan::scan(chapter, "modern-dot", "Ch", "d");
    assert!(plan.blocks().is_empty());
    let text = render_chapter(plan, &Config::default(), &Vec::new()).unwrap();
    assert_eq!(text, "\n````modern-do\u{6570}\nx\n````");
}

#[test]
fn marker_followed_by_other_letters_is_not_a_diagram() {
    let chapter = "# Chapter\n\n```modern-dotty\ndigraph { a }\n```\n";
    let plan = ChapterPlan::scan(chapter, "modern-dot", "Ch", "d");
    assert_eq!(plan.count_diagrams(), 0);
    assert!(plan.blocks().is_empty());
}

#[test]
fn marker_followed_by_white_space_names_the_diagram() {
    let chapter = "```modern-dot\tTabbed Name\ndigraph { a }\n```\n";
    let plan = ChapterPlan::scan(chapter, "modern-dot", "Ch", "d");
    let blocks = plan.blocks();
    assert_eq!(blocks.len(), 1);
    assert_eq!(blocks[0].graph_name, "Tabbed Name");
}

#[test]
fn checked_rewrite_refuses_outputs_that_do_not_fit() {
    let chapter = "```modern-dot\ndigraph { a }\n```\n";
    let config = Config::default();
    let plan = ChapterPlan::scan(chapter, "modern-dot", "Ch", "d");
    assert_eq!(plan.count_diagrams(), 1);
    assert!(matches!(
        render_chapter_checked(plan, &config, &Vec::new()),
        Err(ChapterError::RunCount)
    ));
    let plan = ChapterPlan::scan(chapter, "modern-dot", "Ch", "d");
    let two_runs = vec![vec!["<svg/>".to_string(), "<svg/>".to_string()]];
    assert!(matches!(
        render_chapter_checked(plan, &config, &two_runs),
        Err(ChapterError::RunCount)
    ));
    let plan = ChapterPlan::scan(chapter, "modern-dot", "Ch", "d");
    let one_run = vec![vec!["<svg/>".to_string()]];
    let text = render_chapter_checked(plan, &config, &one_run).unwrap();
    assert!(text.contains("<div class=\"mdbook-modern-dot-output\"><svg/></div>"));
}
