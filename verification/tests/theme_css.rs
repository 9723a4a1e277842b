use mdbook_modern_dot::theme_css::{ThemeCssInjector, STYLE_ID};

#[test]
fn emits_style_tag_only_once_per_chapter() {
    let mut injector = ThemeCssInjector::default();
    let first = injector.take_style_tag().unwrap();
    assert!(first.contains(STYLE_ID));
    assert!(first.contains(".theme-diagram"));
    assert!(injector.take_style_tag().is_none());

    let mut other_chapter = ThemeCssInjector::default();
    assert!(other_chapter.take_style_tag().is_some());
}

#[test]
fn a_fresh_injector_hands_out_the_style_tag_on_the_first_take_only() {
    let mut injector = ThemeCssInjector::default();
    let takes: Vec<Option<String>> = (0..5).map(|_| injector.take_style_tag()).collect();
    assert!(takes[0].as_deref().is_some_and(|tag| tag.contains(STYLE_ID)));
    assert!(takes[1..].iter().all(Option::is_none));
}
