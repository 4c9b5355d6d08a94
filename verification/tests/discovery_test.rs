use swiftfind_core::discovery::{
    is_path_under_any_excluded_root, normalize_path_for_compare, AppProvider, DiscoveryProvider,
    FileProvider, StartMenuAppDiscoveryProvider,
};

#[test]
fn app_provider_fixture_is_deterministic() {
    let provider = AppProvider::deterministic_fixture();
    let items = provider.discover().unwrap();

    assert_eq!(provider.provider_name(), "app");
    assert_eq!(items.len(), 2);
    assert_eq!(items[0].id, "app-code");
    assert_eq!(items[1].id, "app-term");
}

#[test]
fn file_provider_fixture_is_deterministic() {
    let provider = FileProvider::deterministic_fixture();
    let items = provider.discover().unwrap();

    assert_eq!(provider.provider_name(), "file");
    assert_eq!(items.len(), 2);
    assert_eq!(items[0].id, "file-report");
    assert_eq!(items[1].id, "file-notes");
}

#[test]
fn start_menu_provider_returns_empty_off_windows() {
    let provider = StartMenuAppDiscoveryProvider::default();
    let items = provider.discover().unwrap();
    assert!(items.is_empty());
}

#[test]
fn excluded_root_covers_nested_paths_only() {
    let roots = vec![normalize_path_for_compare("C:\\Users\\Admin\\Skip").unwrap()];
    assert!(is_path_under_any_excluded_root(
        "C:/Users/Admin/Skip/inner/file.txt",
        &roots
    ));
    assert!(is_path_under_any_excluded_root("c:\\users\\admin\\skip", &roots));
    assert!(!is_path_under_any_excluded_root(
        "C:\\Users\\Admin\\Skipped\\file.txt",
        &roots
    ));
}

use swiftfind_core::discovery::{roots_change_stamp, FileSystemDiscoveryProvider, PathFingerprint};

fn print(exists: u8, modified_secs: u64, child_count: usize, child_latest_secs: u64) -> PathFingerprint {
    PathFingerprint { exists, modified_secs, child_count, child_latest_secs }
}

#[test]
fn root_stamps_normalize_paths_and_list_fingerprints() {
    let roots = vec!["C:/Users/Me".to_string(), "D:\\Data".to_string()];
    let prints = vec![print(1, 1700000000, 12, 1700000100), print(0, 0, 0, 0)];
    assert_eq!(
        roots_change_stamp(&roots, &prints),
        "c:\\users\\me:1:1700000000:12:1700000100|d:\\data:0:0:0:0"
    );
    assert_eq!(roots_change_stamp(&[], &[]), "");
}

#[test]
fn provider_stamps_cover_roots_and_options() {
    let start_menu = StartMenuAppDiscoveryProvider::with_roots(vec!["C:\\Start".to_string()]);
    assert_eq!(
        start_menu.change_stamp_from(&[print(1, 5, 2, 6)]),
        Some("v2;c:\\start:1:5:2:6".to_string())
    );
    assert_eq!(
        StartMenuAppDiscoveryProvider::default().change_stamp_from(&[]),
        Some("v2;".to_string())
    );

    let files = FileSystemDiscoveryProvider::with_options(
        vec!["C:\\Docs".to_string()],
        5,
        Vec::new(),
        true,
        false,
        true,
        false,
    );
    assert_eq!(
        files.change_stamp_from(&[print(1, 7, 0, 0)], &[]),
        Some(
            "roots=c:\\docs:1:7:0:0;exclude=;depth=5;windows_search=enabled;fallback=none;show_files=true;show_folders=false"
                .to_string()
        )
    );
}

#[test]
fn discovered_items_start_unused() {
    let items = swiftfind_core::discovery::start_apps_from_output("Visual Studio Code\tMicrosoft.VisualStudioCode\n");
    assert_eq!(items.len(), 1);
    for item in &items {
        assert_eq!(item.use_count, 0);
        assert_eq!(item.last_accessed_epoch_secs, 0);
    }
}
