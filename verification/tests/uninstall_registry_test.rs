use swiftfind_core::uninstall_registry::{
    extract_uninstall_search_term, find_uninstall_target, has_uninstall_intent,
    is_msiexec_program, looks_like_update_entry, rewrite_msiexec_install_to_uninstall,
    search_uninstall_actions, search_uninstall_actions_with_entries, split_uninstall_command,
    UninstallEntry,
};

fn entries() -> Vec<UninstallEntry> {
    vec![
        UninstallEntry {
            token: "1".to_string(),
            display_name: "Discord".to_string(),
            publisher: "Discord Inc.".to_string(),
            uninstall_command: "C:\\Tools\\uninstall_discord.exe".to_string(),
        },
        UninstallEntry {
            token: "2".to_string(),
            display_name: "Visual Studio Code".to_string(),
            publisher: "Microsoft".to_string(),
            uninstall_command: "C:\\Tools\\uninstall_vscode.exe".to_string(),
        },
        UninstallEntry {
            token: "3".to_string(),
            display_name: "Codium".to_string(),
            publisher: "VSCodium".to_string(),
            uninstall_command: "C:\\Tools\\uninstall_codium.exe".to_string(),
        },
    ]
}

#[test]
fn parses_uninstall_intent_prefixes() {
    assert_eq!(
        extract_uninstall_search_term("uninstall Discord"),
        Some("Discord".to_string())
    );
    assert_eq!(
        extract_uninstall_search_term("remove VLC"),
        Some("VLC".to_string())
    );
    assert_eq!(extract_uninstall_search_term("delete"), Some(String::new()));
}

#[test]
fn ignores_non_uninstall_queries() {
    assert_eq!(extract_uninstall_search_term("discord"), None);
    assert_eq!(extract_uninstall_search_term("open uninstall menu"), None);
    assert_eq!(extract_uninstall_search_term(""), None);
}

#[test]
fn ranks_uninstall_actions_by_name_match_strength() {
    let entries = entries();
    let results = search_uninstall_actions_with_entries("dis", 10, &entries);
    assert_eq!(results[0].title, "Uninstall Discord");
}

#[test]
fn rewrites_msiexec_install_switch_when_needed() {
    assert_eq!(
        rewrite_msiexec_install_to_uninstall("/I {1234-5678}"),
        "/X {1234-5678}"
    );
    assert_eq!(
        rewrite_msiexec_install_to_uninstall("/X {1234-5678}"),
        "/X {1234-5678}"
    );
}

#[test]
fn uninstall_query_searches_entries_and_other_queries_find_nothing() {
    let entries = entries();
    assert!(has_uninstall_intent("uninstall code"));
    let results = search_uninstall_actions("uninstall code", 10, &entries);
    assert!(!results.is_empty());
    assert!(results.iter().all(|r| r.kind == "action"));
    assert!(search_uninstall_actions("code", 10, &entries).is_empty());
    assert!(search_uninstall_actions("uninstall code", 0, &entries).is_empty());
}

#[test]
fn splits_quoted_and_bare_uninstall_commands() {
    assert_eq!(
        split_uninstall_command("\"C:\\Program Files\\App\\unins000.exe\" /SILENT"),
        Ok((
            "C:\\Program Files\\App\\unins000.exe".to_string(),
            "/SILENT".to_string()
        ))
    );
    assert!(split_uninstall_command("   ").is_err());
}

#[test]
fn recognizes_msiexec_and_update_entries() {
    assert!(is_msiexec_program("C:\\Windows\\System32\\MsiExec.exe"));
    assert!(!is_msiexec_program("C:\\Tools\\setup.exe"));
    assert!(looks_like_update_entry("Security Update for Windows (KB123)", ""));
    assert!(!looks_like_update_entry("Discord", ""));
}

#[test]
fn finds_uninstall_target_by_action_id() {
    let entries = entries();
    assert_eq!(
        find_uninstall_target("__swiftfind_action_uninstall__:2", &entries),
        Ok(1)
    );
    assert!(find_uninstall_target("__swiftfind_action_uninstall__:9", &entries).is_err());
    assert!(find_uninstall_target("other:2", &entries).is_err());
}
