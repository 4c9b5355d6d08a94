use swiftfind_core::config::Config;
use swiftfind_core::settings_window::{open_settings_dialog, settings_from_fields, SettingsDialogResult};

#[test]
fn dialog_fields_give_canonical_settings() {
    let result = settings_from_fields(" shift + ctrl + p ", " 25 ", true);
    assert_eq!(
        result,
        Ok(SettingsDialogResult {
            hotkey: "Ctrl+Shift+P".to_string(),
            max_results: 25,
            launch_at_startup: true,
        })
    );
}

#[test]
fn dialog_reports_the_first_problem() {
    assert!(settings_from_fields("Alt+Space", "25", false).is_err());
    assert_eq!(
        settings_from_fields("Ctrl+Shift+P", "many", false),
        Err("Max results must be a number.".to_string())
    );
    assert_eq!(
        settings_from_fields("Ctrl+Shift+P", "70000", false),
        Err("Max results must be a number.".to_string())
    );
    assert_eq!(
        settings_from_fields("Ctrl+Shift+P", "4", false),
        Err("Max results must be between 5 and 100.".to_string())
    );
    assert_eq!(
        settings_from_fields("Ctrl+Shift+P", "100", false).map(|s| s.max_results),
        Ok(100)
    );
}

#[test]
fn settings_dialog_needs_a_window_shell() {
    let cfg = Config::defaults_at(
        "C:\\SwiftFind\\config.json",
        "C:\\SwiftFind\\index.sqlite3",
        "C:\\SwiftFind\\plugins",
        Vec::new(),
        Vec::new(),
    );
    assert_eq!(
        open_settings_dialog(&cfg),
        Err("settings UI is only supported on Windows".to_string())
    );
}
