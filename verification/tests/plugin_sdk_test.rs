use swiftfind_core::plugin_sdk::{parse_action_kind, ManifestAction, PluginActionKind};

#[test]
fn parses_command_action_kind() {
    let action = ManifestAction {
        action_type: "command".to_string(),
        command: "cmd".to_string(),
        args: vec!["/C".to_string(), "echo".to_string()],
        ..Default::default()
    };
    let kind = parse_action_kind(&action);
    assert!(matches!(kind, PluginActionKind::Command { .. }));
}

use swiftfind_core::config::Config;
use swiftfind_core::plugin_sdk::{ManifestProviderItem, PluginManifest, PluginRegistry};

fn plugin_config(enabled: bool) -> Config {
    let mut cfg = Config::defaults_at(
        "C:\\SwiftFind\\config.json",
        "C:\\SwiftFind\\index.sqlite3",
        "C:\\SwiftFind\\plugins",
        Vec::new(),
        Vec::new(),
    );
    cfg.plugins_enabled = enabled;
    cfg
}

fn sample_manifest() -> PluginManifest {
    PluginManifest {
        id: " tools ".to_string(),
        name: "Tools".to_string(),
        provider_items: vec![ManifestProviderItem {
            id: "readme".to_string(),
            kind: String::new(),
            title: "Readme".to_string(),
            path: "C:\\readme.md".to_string(),
        }],
        actions: vec![
            ManifestAction {
                id: "hello".to_string(),
                title: "Say hello".to_string(),
                action_type: "command".to_string(),
                command: "cmd".to_string(),
                ..Default::default()
            },
            ManifestAction {
                id: "hello".to_string(),
                title: "Say hello again".to_string(),
                path: "C:\\hello.txt".to_string(),
                ..Default::default()
            },
        ],
        ..Default::default()
    }
}

#[test]
fn registry_collects_items_actions_and_warnings() {
    let loaded = vec![
        ("C:\\plugins\\tools.json".to_string(), Ok(sample_manifest())),
        ("C:\\plugins\\broken.json".to_string(), Err("invalid json".to_string())),
        (
            "C:\\plugins\\anonymous.json".to_string(),
            Ok(PluginManifest::default()),
        ),
    ];
    let registry = PluginRegistry::load_from_config(&plugin_config(true), loaded);
    assert_eq!(registry.provider_items.len(), 1);
    assert_eq!(registry.provider_items[0].id, "plugin:tools:item:readme");
    assert_eq!(registry.provider_items[0].kind, "file");
    assert_eq!(registry.action_items.len(), 2);
    assert_eq!(registry.actions.len(), 1);
    let action = registry.action_for("plugin:tools:action:hello").expect("action should load");
    assert_eq!(action.title, "Say hello again");
    assert!(matches!(action.kind, PluginActionKind::OpenPath { .. }));
    assert_eq!(
        registry.load_warnings,
        vec![
            "plugin manifest 'C:\\plugins\\broken.json' failed: invalid json".to_string(),
            "plugin manifest 'C:\\plugins\\anonymous.json' failed: missing plugin id".to_string(),
        ]
    );
}

#[test]
fn disabled_plugins_load_nothing() {
    let loaded = vec![("C:\\plugins\\tools.json".to_string(), Ok(sample_manifest()))];
    let registry = PluginRegistry::load_from_config(&plugin_config(false), loaded);
    assert!(registry.provider_items.is_empty());
    assert!(registry.actions.is_empty());
    assert!(registry.load_warnings.is_empty());
}
