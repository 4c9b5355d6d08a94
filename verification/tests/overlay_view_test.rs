use swiftfind_core::model::SearchItem;
use swiftfind_core::overlay_view::{
    abbreviate_path, overlay_rows, overlay_subtitle, status_row, OverlayRow, OverlayRowRole,
};

#[test]
fn long_paths_keep_their_last_three_components() {
    assert_eq!(
        abbreviate_path("C:\\Users\\me\\AppData\\Roaming\\tool.exe"),
        "...\\AppData\\Roaming\\tool.exe"
    );
}

#[test]
fn short_paths_lose_only_their_drive() {
    assert_eq!(abbreviate_path("  C:/Tools/app.exe "), "Tools\\app.exe");
    assert_eq!(abbreviate_path("D:\\Games\\x\\y.exe"), "Games\\x\\y.exe");
    assert_eq!(abbreviate_path("notes/today.txt"), "notes\\today.txt");
}

#[test]
fn urls_blank_paths_and_bare_drives() {
    assert_eq!(abbreviate_path("https://example.com/a/b/c/d"), "https://example.com/a/b/c/d");
    assert_eq!(abbreviate_path("   "), "");
    assert_eq!(abbreviate_path("C:"), "");
    assert_eq!(abbreviate_path("//"), "\\\\");
}

#[test]
fn subtitles_depend_on_kind_and_mode() {
    let app = SearchItem::new("a", "App", "Code", "C:\\Code\\code.exe");
    assert_eq!(overlay_subtitle(&app, false), "");

    let action = SearchItem::new("plugin:x", "action", "Run", "  ");
    assert_eq!(overlay_subtitle(&action, false), "SwiftFind action");
    assert_eq!(overlay_subtitle(&action, true), "");

    let described = SearchItem::new("plugin:y", "action", "Open", " opens a thing ");
    assert_eq!(overlay_subtitle(&described, false), "opens a thing");

    let uninstall = SearchItem::new("__swiftfind_action_uninstall__:hkcu:x", "action", "Uninstall X", "Remove X");
    assert_eq!(overlay_subtitle(&uninstall, true), "Remove X");

    let file = SearchItem::new("f", "file", "Report", "C:\\a\\b\\c\\d\\report.pdf");
    assert_eq!(overlay_subtitle(&file, false), "...\\c\\d\\report.pdf");
}

fn titles(rows: &[OverlayRow]) -> Vec<(OverlayRowRole, i32, String)> {
    rows.iter().map(|r| (r.role, r.result_index, r.title.clone())).collect()
}

#[test]
fn rows_group_results_after_the_top_hit() {
    let results = vec![
        SearchItem::new("0", "file", "Zero", "C:\\zero.txt"),
        SearchItem::new("1", "app", "One", "C:\\one.exe"),
        SearchItem::new("2", "action", "Two", ""),
        SearchItem::new("3", "clipboard", "Three", ""),
        SearchItem::new("4", "web", "Four", ""),
        SearchItem::new("5", "app", "Five", "C:\\five.exe"),
        SearchItem::new("6", "folder", "Six", "C:\\six"),
    ];
    let rows = overlay_rows(&results, false);
    assert_eq!(
        titles(&rows),
        vec![
            (OverlayRowRole::Header, -1, "Top Hit".to_string()),
            (OverlayRowRole::TopHit, 0, "Zero".to_string()),
            (OverlayRowRole::Header, -1, "Applications".to_string()),
            (OverlayRowRole::Item, 1, "One".to_string()),
            (OverlayRowRole::Item, 5, "Five".to_string()),
            (OverlayRowRole::Header, -1, "Files".to_string()),
            (OverlayRowRole::Item, 6, "Six".to_string()),
            (OverlayRowRole::Header, -1, "Actions".to_string()),
            (OverlayRowRole::Item, 2, "Two".to_string()),
            (OverlayRowRole::Header, -1, "Clipboard".to_string()),
            (OverlayRowRole::Item, 3, "Three".to_string()),
            (OverlayRowRole::Header, -1, "Other".to_string()),
            (OverlayRowRole::Item, 4, "Four".to_string()),
        ]
    );
    assert_eq!(rows[0].kind, "section");
    assert_eq!(rows[1].icon_path, "C:\\zero.txt");
    assert_eq!(rows[1].path, "zero.txt");
}

#[test]
fn command_mode_lists_every_result_under_one_header() {
    let results = vec![
        SearchItem::new("a", "action", "Open logs", ""),
        SearchItem::new("b", "app", "Code", "C:\\code.exe"),
    ];
    let rows = overlay_rows(&results, true);
    assert_eq!(
        titles(&rows),
        vec![
            (OverlayRowRole::Header, -1, "Commands".to_string()),
            (OverlayRowRole::Item, 0, "Open logs".to_string()),
            (OverlayRowRole::Item, 1, "Code".to_string()),
        ]
    );
    assert!(overlay_rows(&[], true).is_empty());
    assert!(overlay_rows(&[], false).is_empty());
}

#[test]
fn each_result_gets_exactly_one_row() {
    let results = vec![
        SearchItem::new("0", "app", "A", ""),
        SearchItem::new("1", "file", "B", "C:\\b"),
        SearchItem::new("2", "app", "C", ""),
        SearchItem::new("3", "clipboard", "D", ""),
    ];
    for mode in [false, true] {
        let rows = overlay_rows(&results, mode);
        for i in 0..results.len() as i32 {
            assert_eq!(rows.iter().filter(|r| r.result_index == i).count(), 1);
        }
    }
}

#[test]
fn status_rows_carry_the_message() {
    let row = status_row("No results");
    assert_eq!(row.role, OverlayRowRole::Status);
    assert_eq!(row.result_index, -1);
    assert_eq!(row.kind, "status");
    assert_eq!(row.title, "No results");
}
