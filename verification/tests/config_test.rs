use swiftfind_core::config::{validate, Config, SearchMode, WebSearchProvider, CURRENT_CONFIG_VERSION};

fn default_config() -> Config {
    Config::defaults_at(
        "C:\\Users\\Admin\\AppData\\Roaming\\SwiftFind\\config.json",
        "C:\\Users\\Admin\\AppData\\Roaming\\SwiftFind\\index.sqlite3",
        "C:\\Users\\Admin\\AppData\\Roaming\\SwiftFind\\plugins",
        vec!["C:\\Users\\Admin".to_string()],
        vec!["C:\\Users\\Admin\\AppData".to_string()],
    )
}

#[test]
fn rejects_max_results_out_of_range() {
    let cfg = Config {
        max_results: 200,
        ..default_config()
    };
    assert!(validate(&cfg).is_err());
}

#[test]
fn accepts_default_config() {
    let cfg = default_config();
    assert_eq!(cfg.max_results, 20);
    assert_eq!(cfg.version, CURRENT_CONFIG_VERSION);
    assert_eq!(cfg.hotkey, "Ctrl+Shift+Space");
    assert!(!cfg.launch_at_startup);
    assert!(!cfg.hotkey_help.trim().is_empty());
    assert!(!cfg.hotkey_recommended.is_empty());
    assert_eq!(cfg.web_search_provider, WebSearchProvider::Google);
    assert!(cfg.windows_search_enabled);
    assert!(cfg.windows_search_fallback_filesystem);
    assert!(cfg.index_db_path.contains("swiftfind") || cfg.index_db_path.contains("SwiftFind"));
    assert!(cfg.show_files);
    assert!(cfg.show_folders);
    assert!(cfg.uninstall_actions_enabled);
    assert!(cfg.config_path.contains("swiftfind") || cfg.config_path.contains("SwiftFind"));
    assert!(validate(&cfg).is_ok());
}

#[test]
fn rejects_custom_web_provider_without_query_placeholder() {
    let mut cfg = default_config();
    cfg.web_search_provider = WebSearchProvider::Custom;
    cfg.web_search_custom_template = "https://example.com/search".to_string();
    let err = validate(&cfg).expect_err("custom template should fail");
    assert!(err.contains("{query}"));
}

#[test]
fn search_mode_parse_ignores_case_and_spaces() {
    assert_eq!(SearchMode::parse("  APPS "), Some(SearchMode::Apps));
    assert_eq!(SearchMode::parse("clip"), Some(SearchMode::Clipboard));
    assert_eq!(SearchMode::parse("file"), Some(SearchMode::Files));
    assert_eq!(SearchMode::parse("everything"), None);
}

#[test]
fn provider_labels_are_display_names() {
    assert_eq!(WebSearchProvider::Duckduckgo.label(), "DuckDuckGo");
    assert_eq!(WebSearchProvider::Startpage.label(), "Startpage");
}
