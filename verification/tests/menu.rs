use cargo_cult::menu::MenuOptions;

#[test]
fn menu_entries_have_their_texts() {
    assert_eq!(MenuOptions::Info.label(), "What is this?\r\n  (+ resources & criteria)");
    assert_eq!(MenuOptions::HowToStart.label(), "How do I start?");
    assert_eq!(MenuOptions::Submit.label(), "Submit your project");
    assert_eq!(MenuOptions::Gallery.label(), "See the gallery");
}

#[test]
fn menu_lists_the_texts_the_gallery_and_the_form() {
    assert_eq!(MenuOptions::at(0), Some(MenuOptions::Info));
    assert_eq!(MenuOptions::at(1), Some(MenuOptions::HowToStart));
    assert_eq!(MenuOptions::at(2), Some(MenuOptions::Gallery));
    assert_eq!(MenuOptions::at(3), Some(MenuOptions::Submit));
    assert_eq!(MenuOptions::at(4), None);
    assert_eq!(
        MenuOptions::labels(),
        vec![
            "What is this?\r\n  (+ resources & criteria)".to_string(),
            "How do I start?".to_string(),
            "See the gallery".to_string(),
            "Submit your project".to_string(),
        ]
    );
}
