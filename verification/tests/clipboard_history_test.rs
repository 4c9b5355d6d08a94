use swiftfind_core::clipboard_history::{
    copy_result_to_clipboard,
    is_sensitive_content, normalize_clipboard_text, preview_text, relative_age,
    resolve_text_for_result, signed_decimal_text, ClipboardEntry,
};

#[test]
fn sensitive_filter_detects_keywords() {
    let patterns = vec!["password".to_string(), "token".to_string()];
    assert!(is_sensitive_content("my PASSWORD is hidden", &patterns));
    assert!(!is_sensitive_content("regular clipboard text", &patterns));
}

#[test]
fn preview_is_single_line_and_trimmed() {
    assert_eq!(preview_text("a\nb\nc", 10), "a b c");
}

#[test]
fn relative_age_uses_coarsest_unit() {
    assert_eq!(relative_age(100, 130), "just now");
    assert_eq!(relative_age(100, 100 + 5 * 60), "5m ago");
    assert_eq!(relative_age(1, 1 + 2 * 3600), "2h ago");
    assert_eq!(relative_age(1, 1 + 3 * 86_400), "3d ago");
}

#[test]
fn signed_decimal_text_shows_sign() {
    assert_eq!(signed_decimal_text(-42), "-42");
    assert_eq!(signed_decimal_text(7), "7");
}

#[test]
fn resolves_clipboard_result_text_by_id() {
    let entries = vec![ClipboardEntry {
        id: "1-2".to_string(),
        text: "hello".to_string(),
        captured_epoch_secs: 1,
    }];
    assert_eq!(
        resolve_text_for_result(&entries, "clipboard:1-2"),
        Some("hello".to_string())
    );
    assert_eq!(resolve_text_for_result(&entries, "clipboard:9"), None);
}

#[test]
fn normalize_clipboard_text_drops_nul_and_trims() {
    assert_eq!(normalize_clipboard_text("  a\0b  "), "ab");
}

#[test]
fn copying_a_clipboard_result_gives_back_its_text() {
    let entries = vec![
        ClipboardEntry { id: "1-2".to_string(), text: "hello".to_string(), captured_epoch_secs: 1 },
        ClipboardEntry { id: "3-4".to_string(), text: "world".to_string(), captured_epoch_secs: 2 },
    ];
    assert_eq!(copy_result_to_clipboard(&entries, "clipboard:3-4"), Ok("world".to_string()));
    assert_eq!(
        copy_result_to_clipboard(&entries, "clipboard:9-9"),
        Err("clipboard entry not found".to_string())
    );
    assert_eq!(
        copy_result_to_clipboard(&entries, "1-2"),
        Err("clipboard entry not found".to_string())
    );
}
