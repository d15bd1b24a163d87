use cargo_cult::database::FormData;
use cargo_cult::gallery::{gallery_entries, gallery_entry};

fn record(package: Option<&str>, description: &str) -> FormData {
    let mut data = FormData::new();
    data.package_name = package.map(|p| p.to_string());
    data.description = description.to_string();
    data
}

#[test]
fn an_entry_is_the_package_name_above_the_description() {
    assert_eq!(
        gallery_entry(&record(Some("snake"), "A game of snake."), 100),
        Some("snake\r\nA game of snake.\r\n".to_string())
    );
}

#[test]
fn an_entry_is_wrapped_at_the_width() {
    assert_eq!(
        gallery_entry(&record(Some("snake"), "A game of snake."), 9),
        Some("snake\r\nA game of\r\nsnake.\r\n".to_string())
    );
}

#[test]
fn a_submission_without_a_package_has_no_entry() {
    assert_eq!(gallery_entry(&record(None, "x"), 100), None);
}

#[test]
fn entries_keep_the_order_of_the_submissions() {
    let records = vec![record(Some("a"), "first"), record(Some("b"), "second")];
    assert_eq!(
        gallery_entries(&records, 100),
        Some(vec!["a\r\nfirst\r\n".to_string(), "b\r\nsecond\r\n".to_string()])
    );
    assert_eq!(gallery_entries(&[], 100), Some(Vec::new()));
}

#[test]
fn one_submission_without_a_package_spoils_the_list() {
    let records = vec![record(Some("a"), "first"), record(None, "second")];
    assert_eq!(gallery_entries(&records, 100), None);
}
