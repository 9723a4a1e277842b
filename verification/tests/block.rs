use mdbook_modern_dot::block::DiagramBlock;
use std::path::Path;

fn sample_block() -> DiagramBlock {
    DiagramBlock {
        graph_name: "Graph Name".into(),
        code: String::new(),
        chapter_name: "Test Chapter".into(),
        chapter_path: "./book".into(),
        index: 0,
    }
}

#[test]
fn light_file_name_uses_modern_dot_suffix() {
    assert_eq!(
        sample_block().light_file_name(),
        "test_chapter_graph_name_0.modern-dot.svg"
    );
}

#[test]
fn dark_file_name_appends_configured_suffix() {
    assert_eq!(
        sample_block().dark_file_name("-dark"),
        "test_chapter_graph_name_0.modern-dot-dark.svg"
    );
}

#[test]
fn paths_join_chapter_directory() {
    let block = sample_block();
    assert_eq!(
        Path::new(&block.light_path()),
        Path::new("./book/test_chapter_graph_name_0.modern-dot.svg")
    );
}

#[test]
fn unnamed_block_uses_chapter_and_index() {
    let block = DiagramBlock {
        graph_name: String::new(),
        code: String::new(),
        chapter_name: "Getting Started".into(),
        chapter_path: "book/".into(),
        index: 12,
    };
    assert_eq!(block.light_file_name(), "getting_started_12.modern-dot.svg");
    assert_eq!(block.light_path(), "book/getting_started_12.modern-dot.svg");
    assert_eq!(block.dark_path("-night"), "book/getting_started_12.modern-dot-night.svg");
}

#[test]
fn documented_file_name_example() {
    let block = DiagramBlock {
        graph_name: "Data Flow".into(),
        code: String::new(),
        chapter_name: "Getting Started".into(),
        chapter_path: String::new(),
        index: 0,
    };
    assert_eq!(block.light_file_name(), "getting_started_data_flow_0.modern-dot.svg");
    assert_eq!(block.light_path(), "getting_started_data_flow_0.modern-dot.svg");
}

#[test]
fn every_other_character_becomes_an_underscore() {
    let block = DiagramBlock {
        graph_name: "A-b_c!?".into(),
        code: String::new(),
        chapter_name: "Ch. 1: Intro".into(),
        chapter_path: "/".into(),
        index: 3,
    };
    assert_eq!(block.light_file_name(), "ch__1__intro_a_b_c___3.modern-dot.svg");
    assert_eq!(block.light_path(), "/ch__1__intro_a_b_c___3.modern-dot.svg");
}

#[test]
fn only_ascii_letters_and_digits_are_kept() {
    let block = DiagramBlock {
        graph_name: "数据流".into(),
        code: String::new(),
        chapter_name: "Ünïcode".into(),
        chapter_path: "x".into(),
        index: 0,
    };
    assert_eq!(block.light_file_name(), "_n_code_____0.modern-dot.svg");
}

#[test]
fn empty_dark_suffix_gives_light_name() {
    let block = sample_block();
    assert_eq!(block.dark_file_name(""), block.light_file_name());
}

#[test]
fn distinct_indices_give_distinct_file_names() {
    let first = DiagramBlock {
        graph_name: "1".into(),
        code: String::new(),
        chapter_name: "a".into(),
        chapter_path: "d".into(),
        index: 2,
    };
    let second = DiagramBlock {
        graph_name: String::new(),
        code: String::new(),
        chapter_name: "a_1".into(),
        chapter_path: "d".into(),
        index: 12,
    };
    assert_eq!(first.stem(), "a_1_2");
    assert_eq!(second.stem(), "a_1_12");
    assert_ne!(first.light_file_name(), second.light_file_name());
    assert_ne!(first.dark_file_name("-dark"), second.dark_file_name("-dark"));
}
