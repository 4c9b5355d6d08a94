use swiftfind_core::config::Config;
use swiftfind_core::config_template::render_user_template;
use swiftfind_core::core_service::should_skip_provider_discovery;

fn template_config() -> Config {
    Config::defaults_at(
        "C:\\Users\\Admin\\AppData\\Roaming\\SwiftFind\\config.json",
        "C:\\Users\\Admin\\AppData\\Roaming\\SwiftFind\\index.sqlite3",
        "C:\\Users\\Admin\\AppData\\Roaming\\SwiftFind\\plugins",
        vec!["C:\\Users\\Admin".to_string()],
        vec!["C:\\Users\\Admin\\AppData".to_string()],
    )
}

#[test]
fn template_writes_paths_as_escaped_json_strings() {
    let text = render_user_template(&template_config());
    assert!(text.contains("\"C:\\\\Users\\\\Admin\""));
}

#[test]
fn template_escapes_quotes_and_control_characters() {
    let cfg = Config {
        hotkey: "Ctrl+\"\t\u{1}".to_string(),
        ..template_config()
    };
    let text = render_user_template(&cfg);
    assert!(text.contains("\"Ctrl+\\\"\\t\\u0001\""));
}

#[test]
fn signed_last_scan_times_are_read() {
    assert!(should_skip_provider_discovery(Some("s"), Some("s"), Some("+990"), 1000));
    assert!(!should_skip_provider_discovery(Some("s"), Some("s"), Some("-990"), 1000));
    assert!(!should_skip_provider_discovery(Some("s"), Some("s"), Some(" 990"), 1000));
}
