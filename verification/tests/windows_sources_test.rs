use swiftfind_core::discovery::{
    is_documentation_like_start_entry_title, join_windows_paths_for_powershell, normalize_id_path,
    normalize_shortcut_target_path, shortcut_launch_target, shortcut_resolves_to_web_target,
    start_apps_from_output, windows_search_items_from_output, ShortcutTarget,
};
use swiftfind_core::uninstall_registry::{uninstall_entry_from_values, UninstallKeyValues};

#[test]
fn id_paths_are_trimmed_backslashed_and_lowercase() {
    assert_eq!(normalize_id_path("  C:/Users/Me/App.EXE "), "c:\\users\\me\\app.exe");
}

#[test]
fn documentation_and_sample_titles_are_recognised() {
    assert!(is_documentation_like_start_entry_title("WinUI 3 Gallery Documentation for Apps"));
    assert!(is_documentation_like_start_entry_title("UWP Sample"));
    assert!(is_documentation_like_start_entry_title("Sample desktop tool"));
    assert!(!is_documentation_like_start_entry_title("Visual Studio Code"));
    assert!(!is_documentation_like_start_entry_title("Sample"));
    assert!(!is_documentation_like_start_entry_title("   "));
}

#[test]
fn start_apps_output_gives_one_item_per_usable_line() {
    let output = "Visual Studio Code\tMicrosoft.VisualStudioCode\r\n\
                  no tab here\n\
                  \tMissing.Name\n\
                  Calculator\tMicrosoft.WindowsCalculator_8wekyb3d8bbwe!App\n\
                  UWP Sample App\tSample.App\n";
    let items = start_apps_from_output(output);
    assert_eq!(items.len(), 2);
    assert_eq!(items[0].id, "app:shell:appsfolder\\microsoft.visualstudiocode");
    assert_eq!(items[0].kind, "app");
    assert_eq!(items[0].title, "Visual Studio Code");
    assert_eq!(items[0].path, "shell:AppsFolder\\Microsoft.VisualStudioCode");
    assert_eq!(items[1].title, "Calculator");
    assert_eq!(items[1].path, "shell:AppsFolder\\Microsoft.WindowsCalculator_8wekyb3d8bbwe!App");
}

#[test]
fn windows_search_output_gives_shown_files_and_folders_once() {
    let output = "file\treport.pdf\tC:\\Docs\\report.pdf\n\
                  folder\t\tC:\\Docs\\Archive\n\
                  FILE\tcopy\tC:/docs/REPORT.pdf\n\
                  link\tx\tC:\\x.lnk\n\
                  file\tmissing path\t  \n\
                  file\tno path\n\
                  file\tname\twith\ttabs\n";
    let items = windows_search_items_from_output(output, true, true);
    assert_eq!(items.len(), 3);
    assert_eq!(items[0].id, "file:c:\\docs\\report.pdf");
    assert_eq!(items[0].title, "report.pdf");
    assert_eq!(items[1].id, "folder:c:\\docs\\archive");
    assert_eq!(items[1].title, "C:\\Docs\\Archive");
    assert_eq!(items[2].path, "with\ttabs");

    let folders_only = windows_search_items_from_output(output, false, true);
    assert_eq!(folders_only.len(), 1);
    assert_eq!(folders_only[0].kind, "folder");
    assert!(windows_search_items_from_output(output, false, false).is_empty());
}

#[test]
fn web_shortcut_targets_are_recognised() {
    assert!(shortcut_resolves_to_web_target(" \"https://example.com\" "));
    assert!(shortcut_resolves_to_web_target("MSEDGE:open"));
    assert!(shortcut_resolves_to_web_target("www.example.com"));
    assert!(shortcut_resolves_to_web_target("steam://run/1"));
    assert!(!shortcut_resolves_to_web_target("C:\\Tools\\tool.exe"));
    assert!(!shortcut_resolves_to_web_target("  \"\"  "));
}

#[test]
fn shortcut_targets_are_cleaned_and_classified() {
    assert_eq!(normalize_shortcut_target_path(" \"@C:\\Tools\\tool.exe\" "), "C:\\Tools\\tool.exe");
    assert_eq!(
        shortcut_launch_target("\"C:\\Tools\\tool.exe\"", ""),
        ShortcutTarget::LaunchableIfExists("C:\\Tools\\tool.exe".to_string())
    );
    assert_eq!(shortcut_launch_target("shell:AppsFolder\\x", ""), ShortcutTarget::Launchable);
    assert_eq!(shortcut_launch_target("", ""), ShortcutTarget::NotLaunchable);
    assert_eq!(
        shortcut_launch_target("C:\\Tools\\tool.exe", "https://example.com"),
        ShortcutTarget::NotLaunchable
    );
}

#[test]
fn search_roots_are_joined_with_unit_separators() {
    let roots = vec![
        "C:/Users/me/".to_string(),
        "D:\\".to_string(),
        "  ".to_string(),
        "E:\\Data\\\\".to_string(),
    ];
    assert_eq!(
        join_windows_paths_for_powershell(&roots),
        "C:\\Users\\me\u{1f}D:\\\u{1f}E:\\Data"
    );
    assert_eq!(join_windows_paths_for_powershell(&[]), "");
}

fn values(display_name: Option<&str>, uninstall: Option<&str>) -> UninstallKeyValues {
    UninstallKeyValues {
        display_name: display_name.map(|s| s.to_string()),
        uninstall_string: uninstall.map(|s| s.to_string()),
        ..Default::default()
    }
}

#[test]
fn uninstall_keys_give_entries_when_offered() {
    let mut v = values(Some(" Vivaldi "), Some("\"C:\\Vivaldi\\setup.exe\" --uninstall "));
    v.publisher = Some(" Vivaldi Technologies ".to_string());
    let entry = uninstall_entry_from_values("hkcu", "Vivaldi", &v).expect("entry");
    assert_eq!(entry.token, "hkcu:Vivaldi");
    assert_eq!(entry.display_name, "Vivaldi");
    assert_eq!(entry.publisher, "Vivaldi Technologies");
    assert_eq!(entry.uninstall_command, "\"C:\\Vivaldi\\setup.exe\" --uninstall");

    let mut quiet = values(Some("Tool"), Some("loud.exe"));
    quiet.quiet_uninstall_string = Some("quiet.exe /S".to_string());
    assert_eq!(
        uninstall_entry_from_values("hklm", "{GUID}", &quiet).unwrap().uninstall_command,
        "quiet.exe /S"
    );
}

#[test]
fn uninstall_keys_left_out() {
    assert!(uninstall_entry_from_values("hkcu", "a", &values(None, Some("x.exe"))).is_none());
    assert!(uninstall_entry_from_values("hkcu", "a", &values(Some("  "), Some("x.exe"))).is_none());
    assert!(uninstall_entry_from_values("hkcu", "a", &values(Some("App"), None)).is_none());

    let mut system = values(Some("App"), Some("x.exe"));
    system.system_component = Some(1);
    assert!(uninstall_entry_from_values("hkcu", "a", &system).is_none());

    let mut child = values(Some("App"), Some("x.exe"));
    child.parent_key_name = Some("Parent".to_string());
    assert!(uninstall_entry_from_values("hkcu", "a", &child).is_none());

    let mut update = values(Some("Security Update for App"), Some("x.exe"));
    update.release_type = Some("".to_string());
    assert!(uninstall_entry_from_values("hkcu", "a", &update).is_none());
}

use swiftfind_core::discovery::{app_quality_rank, dedupe_apps_by_title};
use swiftfind_core::model::SearchItem;

#[test]
fn app_paths_are_ranked_by_how_they_launch() {
    assert_eq!(app_quality_rank(&SearchItem::new("a", "app", "A", " shell:AppsFolder\\X ")), 3);
    assert_eq!(app_quality_rank(&SearchItem::new("a", "app", "A", "C:\\A.LNK")), 2);
    assert_eq!(app_quality_rank(&SearchItem::new("a", "app", "A", "C:\\a.exe")), 2);
    assert_eq!(app_quality_rank(&SearchItem::new("a", "app", "A", "C:\\a.bat")), 1);
}

#[test]
fn one_app_per_title_ordered_by_title() {
    let items = vec![
        SearchItem::new("1", "app", "Zed", "C:\\zed.bat"),
        SearchItem::new("2", "app", "code", "C:\\code.lnk"),
        SearchItem::new("3", "app", "Zed", "shell:AppsFolder\\Zed"),
        SearchItem::new("4", "app", "Code", "C:\\code.exe"),
        SearchItem::new("5", "app", "Alpha", "C:\\alpha.exe"),
        SearchItem::new("6", "app", "!!!", "C:\\bang.exe"),
    ];
    let out = dedupe_apps_by_title(items);
    let ids: Vec<&str> = out.iter().map(|i| i.id.as_str()).collect();
    assert_eq!(ids, vec!["6", "5", "2", "3"]);
}

use swiftfind_core::uninstall_registry::{uninstall_launch_parameters, uninstall_launch_result};

#[test]
fn uninstaller_parameters_switch_msiexec_to_uninstall() {
    assert_eq!(
        uninstall_launch_parameters("C:\\Windows\\System32\\MsiExec.exe", "/I{1234}"),
        Some("/X{1234}".to_string())
    );
    assert_eq!(
        uninstall_launch_parameters("C:\\App\\uninstall.exe", " --quiet "),
        Some(" --quiet ".to_string())
    );
    assert_eq!(uninstall_launch_parameters("C:\\App\\uninstall.exe", "   "), None);
}

#[test]
fn uninstaller_start_codes_above_32_succeed() {
    assert_eq!(uninstall_launch_result("Vivaldi", 42), Ok(()));
    assert_eq!(
        uninstall_launch_result("Vivaldi", 2),
        Err("failed to launch uninstall command for 'Vivaldi' (code=2)".to_string())
    );
}
