use swiftfind_core::config::Config;
use swiftfind_core::model::SearchItem;
use swiftfind_core::plugin_sdk::{PluginAction, PluginActionKind, PluginRegistry};
use swiftfind_core::selection::{launch_overlay_selection, SelectionLaunch};

fn config() -> Config {
    Config::defaults_at(
        "C:\\SwiftFind\\config.json",
        "C:\\SwiftFind\\index.sqlite3",
        "C:\\SwiftFind\\plugins",
        Vec::new(),
        Vec::new(),
    )
}

fn plugin_action(result_id: &str, kind: PluginActionKind) -> PluginAction {
    PluginAction {
        result_id: result_id.to_string(),
        plugin_id: "tools".to_string(),
        action_id: "hello".to_string(),
        title: "Say hello".to_string(),
        subtitle: String::new(),
        keywords: Vec::new(),
        kind,
    }
}

fn registry_with(actions: Vec<PluginAction>) -> PluginRegistry {
    let mut plugins = PluginRegistry::default();
    plugins.actions = actions;
    plugins
}

#[test]
fn overlay_launch_selection_rejects_out_of_range_index() {
    let results = vec![SearchItem::new("item-1", "app", "One", "C:\\One.exe")];

    let cfg = config();
    let plugins = PluginRegistry::default();
    let error = launch_overlay_selection(&cfg, &plugins, &results, 1).expect_err("selection should fail");

    assert!(error.contains("selected index out of range"));
}

#[test]
fn overlay_launch_selection_rejects_empty_results() {
    let cfg = config();
    let plugins = PluginRegistry::default();
    let error = launch_overlay_selection(&cfg, &plugins, &[], 0).expect_err("empty selection should fail");

    assert_eq!(error, "no result selected");
}

#[test]
fn out_of_range_message_names_index_and_length() {
    let results = vec![
        SearchItem::new("a", "app", "A", "C:\\A.exe"),
        SearchItem::new("b", "app", "B", "C:\\B.exe"),
    ];
    let error = launch_overlay_selection(&config(), &PluginRegistry::default(), &results, 17).unwrap_err();
    assert_eq!(error, "selected index out of range: 17 (len=2)");
}

#[test]
fn ordinary_results_are_launched_by_id() {
    let results = vec![
        SearchItem::new("item-1", "app", "One", "C:\\One.exe"),
        SearchItem::new("item-2", "file", "Two", "C:\\Two.txt"),
    ];
    let launch = launch_overlay_selection(&config(), &PluginRegistry::default(), &results, 1).unwrap();
    assert_eq!(launch, SelectionLaunch::LaunchItem { id: "item-2".to_string() });
}

#[test]
fn clipboard_results_are_copied_back() {
    let results = vec![SearchItem::new("clip-7", "Clipboard", "copied text", "")];
    let launch = launch_overlay_selection(&config(), &PluginRegistry::default(), &results, 0).unwrap();
    assert_eq!(launch, SelectionLaunch::CopyClipboard { result_id: "clip-7".to_string() });
}

#[test]
fn built_in_actions_are_recognised() {
    let cfg = config();
    let plugins = PluginRegistry::default();
    let cases = vec![
        ("__swiftfind_action_open_logs__", SelectionLaunch::OpenLogs),
        ("__swiftfind_action_rebuild_index__", SelectionLaunch::RebuildIndex),
        ("__swiftfind_action_clear_clipboard__", SelectionLaunch::ClearClipboard),
        ("__swiftfind_action_diagnostics_bundle__", SelectionLaunch::DiagnosticsBundle),
        (
            "__swiftfind_action_open_config__",
            SelectionLaunch::OpenConfig { path: "C:\\SwiftFind\\config.json".to_string() },
        ),
    ];
    for (id, expected) in cases {
        let results = vec![SearchItem::new(id, "action", "Action", "")];
        assert_eq!(launch_overlay_selection(&cfg, &plugins, &results, 0).unwrap(), expected);
    }
}

#[test]
fn uninstall_actions_keep_their_id() {
    let id = "__swiftfind_action_uninstall__:HKCU\\Vivaldi";
    let results = vec![SearchItem::new(id, "action", "Uninstall Vivaldi", "")];
    let launch = launch_overlay_selection(&config(), &PluginRegistry::default(), &results, 0).unwrap();
    assert_eq!(launch, SelectionLaunch::Uninstall { action_id: id.to_string() });
}

#[test]
fn unknown_actions_are_refused() {
    let results = vec![SearchItem::new("plugin:missing", "action", "Missing", "")];
    let error = launch_overlay_selection(&config(), &PluginRegistry::default(), &results, 0).unwrap_err();
    assert_eq!(error, "unknown action");
}

#[test]
fn plugin_actions_open_paths_and_run_commands() {
    let plugins = registry_with(vec![
        plugin_action("plugin:tools:open", PluginActionKind::OpenPath { path: "C:\\hello.txt".to_string() }),
        plugin_action(
            "plugin:tools:run",
            PluginActionKind::Command { command: "cmd".to_string(), args: vec!["/C".to_string(), "echo".to_string()] },
        ),
    ]);
    let mut cfg = config();
    cfg.plugins_safe_mode = false;

    let open = vec![SearchItem::new("plugin:tools:open", "action", "Open", "")];
    assert_eq!(
        launch_overlay_selection(&cfg, &plugins, &open, 0).unwrap(),
        SelectionLaunch::OpenPluginPath { path: "C:\\hello.txt".to_string() }
    );

    let run = vec![SearchItem::new("plugin:tools:run", "action", "Run", "")];
    assert_eq!(
        launch_overlay_selection(&cfg, &plugins, &run, 0).unwrap(),
        SelectionLaunch::RunPluginCommand {
            command: "cmd".to_string(),
            args: vec!["/C".to_string(), "echo".to_string()],
        }
    );
}

#[test]
fn plugin_commands_are_blocked_in_safe_mode_or_when_blank() {
    let plugins = registry_with(vec![
        plugin_action("plugin:tools:run", PluginActionKind::Command { command: "cmd".to_string(), args: Vec::new() }),
        plugin_action("plugin:tools:blank", PluginActionKind::Command { command: "   ".to_string(), args: Vec::new() }),
    ]);
    let mut cfg = config();
    cfg.plugins_safe_mode = true;
    let run = vec![SearchItem::new("plugin:tools:run", "action", "Run", "")];
    assert_eq!(
        launch_overlay_selection(&cfg, &plugins, &run, 0).unwrap_err(),
        "plugin command execution blocked: plugins_safe_mode is enabled in config"
    );

    cfg.plugins_safe_mode = false;
    let blank = vec![SearchItem::new("plugin:tools:blank", "action", "Blank", "")];
    assert_eq!(
        launch_overlay_selection(&cfg, &plugins, &blank, 0).unwrap_err(),
        "plugin command action missing command"
    );
}
