use swiftfind_core::model::{normalize_for_search, SearchItem};

#[test]
fn ascii_normalization_keeps_lowercased_letters_and_digits() {
    assert_eq!(normalize_for_search("Q4_Report.xlsx"), "q4reportxlsx");
    assert_eq!(normalize_for_search("  --  "), "");
}

#[test]
fn ascii_normalization_settles_after_one_pass() {
    let once = normalize_for_search("Meeting Notes.txt");
    assert_eq!(normalize_for_search(&once), once);
}

#[test]
fn new_items_carry_their_normalized_texts() {
    let item = SearchItem::new("file-report", "file", "Q4_Report.xlsx", "C:\\Q4.xlsx");
    assert_eq!(item.use_count, 0);
    assert_eq!(item.last_accessed_epoch_secs, 0);
    assert_eq!(item.normalized_title, "q4reportxlsx");
    assert_eq!(item.normalized_search_text, "q4reportxlsxcq4xlsx");
}
