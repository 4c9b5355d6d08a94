use swiftfind_core::config::Config;
use swiftfind_core::model::SearchItem;
use swiftfind_core::overlay_flow::{
    Awaiting, OverlayCommand, OverlayEvent, OverlayFlow, ShellState,
};
use swiftfind_core::plugin_sdk::PluginRegistry;
use swiftfind_core::selection::SelectionLaunch;

fn config() -> Config {
    Config::defaults_at(
        "C:\\SwiftFind\\config.json",
        "C:\\SwiftFind\\index.sqlite3",
        "C:\\SwiftFind\\plugins",
        Vec::new(),
        Vec::new(),
    )
}

fn shell(visible: bool, has_focus: bool, query_text: &str) -> ShellState {
    ShellState {
        visible,
        has_focus,
        query_text: query_text.to_string(),
        list_selection: None,
        indexing: false,
    }
}

fn names(cmds: &[OverlayCommand]) -> Vec<String> {
    cmds.iter()
        .map(|c| match c {
            OverlayCommand::ShowAndFocus => "show".to_string(),
            OverlayCommand::Hide => "hide".to_string(),
            OverlayCommand::HideNow => "hide_now".to_string(),
            OverlayCommand::ClearQueryText => "clear_query".to_string(),
            OverlayCommand::SetQueryText(t) => format!("query:{t}"),
            OverlayCommand::ShowIdle => "idle".to_string(),
            OverlayCommand::ShowPlaceholderHint(t) => format!("hint:{t}"),
            OverlayCommand::ShowStatusRow(t) => format!("status_row:{t}"),
            OverlayCommand::ShowRows { rows, selected } => format!("rows:{}@{}", rows.len(), selected),
            OverlayCommand::SelectRow(i) => format!("select:{i}"),
            OverlayCommand::SetStatusText(t) => format!("status:{t}"),
            OverlayCommand::CaptureClipboard => "capture".to_string(),
            OverlayCommand::ReconcileSuppressedTitles => "reconcile".to_string(),
            OverlayCommand::ClearSearchSession => "clear_session".to_string(),
            OverlayCommand::Search { query, limit } => format!("search:{}/{}", query.free_text, limit),
            OverlayCommand::Perform(_) => "perform".to_string(),
            OverlayCommand::Quit => "quit".to_string(),
        })
        .collect()
}

fn items() -> Vec<SearchItem> {
    vec![
        SearchItem::new("app-1", "app", "Visual Studio Code", "C:\\Code\\code.exe"),
        SearchItem::new("file-1", "file", "code notes", "C:\\notes\\code.txt"),
        SearchItem::new(
            "__swiftfind_action_uninstall__:hkcu:vscode",
            "action",
            "Uninstall Visual Studio Code",
            "",
        ),
    ]
}

#[test]
fn hotkey_shows_then_hides_the_overlay() {
    let cfg = config();
    let plugins = PluginRegistry::default();
    let mut flow = OverlayFlow::new();

    let cmds = flow.handle_event(OverlayEvent::Hotkey(1), &cfg, &plugins, &shell(false, false, ""));
    assert_eq!(names(&cmds), vec!["reconcile", "show", "capture", "idle"]);
    assert!(flow.overlay.is_visible());

    let cmds = flow.handle_event(OverlayEvent::Hotkey(1), &cfg, &plugins, &shell(true, true, "code"));
    assert_eq!(names(&cmds), vec!["hide", "clear_query", "idle", "clear_session"]);
    assert!(!flow.overlay.is_visible());
}

#[test]
fn typing_searches_once_per_distinct_query() {
    let cfg = config();
    let mut flow = OverlayFlow::new();

    let cmds = flow.on_query_changed(&cfg, "  code ");
    assert_eq!(names(&cmds), vec!["search:code/20"]);
    assert_eq!(flow.last_query, "code");

    let cmds = flow.on_query_changed(&cfg, "code");
    assert!(cmds.is_empty());

    let cmds = flow.on_query_changed(&cfg, "   ");
    assert_eq!(names(&cmds), vec!["clear_session", "idle"]);
    assert_eq!(flow.last_query, "");
}

#[test]
fn search_results_are_shown_and_can_be_moved_through() {
    let cfg = config();
    let mut flow = OverlayFlow::new();
    flow.on_query_changed(&cfg, "code");

    let cmds = flow.on_search_finished(Ok(items()), false);
    assert_eq!(names(&cmds), vec!["rows:6@0"]);
    assert_eq!(flow.results.len(), 3);
    assert_eq!(flow.selected_index, 0);

    assert_eq!(names(&flow.on_move_selection(1)), vec!["select:1"]);
    assert_eq!(names(&flow.on_move_selection(1)), vec!["select:2"]);
    assert_eq!(names(&flow.on_move_selection(1)), vec!["select:2"]);
    assert_eq!(names(&flow.on_move_selection(-1)), vec!["select:1"]);
}

#[test]
fn empty_and_failed_searches_show_a_status() {
    let cfg = config();
    let mut flow = OverlayFlow::new();
    flow.on_query_changed(&cfg, "zzz");

    assert_eq!(names(&flow.on_search_finished(Ok(Vec::new()), false)), vec!["status_row:No results"]);
    assert_eq!(
        names(&flow.on_search_finished(Ok(Vec::new()), true)),
        vec!["status_row:Indexing in background..."]
    );
    assert_eq!(
        names(&flow.on_search_finished(Err("db locked".to_string()), false)),
        vec!["clear_session", "rows:0@0", "status:Search error: db locked"]
    );
    assert!(flow.results.is_empty());
    assert!(flow.on_move_selection(1).is_empty());
}

#[test]
fn submitting_launches_the_selection_and_closes_on_success() {
    let cfg = config();
    let plugins = PluginRegistry::default();
    let mut flow = OverlayFlow::new();
    flow.on_hotkey(&cfg, false, false, "");
    flow.on_query_changed(&cfg, "code");
    flow.on_search_finished(Ok(items()), false);

    let cmds = flow.on_submit(&cfg, &plugins, "code", Some(1), false);
    assert_eq!(cmds.len(), 1);
    match &cmds[0] {
        OverlayCommand::Perform(SelectionLaunch::LaunchItem { id }) => assert_eq!(id, "file-1"),
        other => panic!("unexpected command {other:?}"),
    }
    assert!(matches!(flow.awaiting, Awaiting::Launch));

    let cmds = flow.on_perform_finished(Ok(()));
    assert_eq!(names(&cmds), vec!["status:", "hide_now", "clear_query", "idle", "clear_session"]);
    assert!(flow.results.is_empty());
    assert!(!flow.overlay.is_visible());
    assert!(matches!(flow.awaiting, Awaiting::Nothing));
}

#[test]
fn failed_launch_keeps_the_results() {
    let cfg = config();
    let plugins = PluginRegistry::default();
    let mut flow = OverlayFlow::new();
    flow.on_query_changed(&cfg, "code");
    flow.on_search_finished(Ok(items()), false);
    flow.on_submit(&cfg, &plugins, "code", None, false);

    let cmds = flow.on_perform_finished(Err("path does not exist: C:\\Code\\code.exe".to_string()));
    assert_eq!(names(&cmds), vec!["status:Launch error: path does not exist: C:\\Code\\code.exe"]);
    assert_eq!(flow.results.len(), 3);
}

#[test]
fn submitting_without_results_explains_why() {
    let cfg = config();
    let plugins = PluginRegistry::default();
    let mut flow = OverlayFlow::new();
    assert_eq!(
        names(&flow.on_submit(&cfg, &plugins, "  ", None, false)),
        vec!["idle", "hint:Start typing to search"]
    );
    assert_eq!(
        names(&flow.on_submit(&cfg, &plugins, "code", None, true)),
        vec!["status_row:Indexing in background..."]
    );
    assert_eq!(names(&flow.on_submit(&cfg, &plugins, "code", None, false)), vec!["status_row:No results"]);
    assert_eq!(
        names(&flow.on_submit(&cfg, &plugins, ">code", None, false)),
        vec!["status_row:No command matches"]
    );
}

#[test]
fn uninstall_asks_for_confirmation_and_cancel_restores_results() {
    let cfg = config();
    let plugins = PluginRegistry::default();
    let mut flow = OverlayFlow::new();
    flow.on_query_changed(&cfg, "code");
    flow.on_search_finished(Ok(items()), false);

    let cmds = flow.on_submit(&cfg, &plugins, "code", Some(2), false);
    assert_eq!(names(&cmds), vec!["rows:3@0", "status:"]);
    assert_eq!(flow.results.len(), 2);
    assert_eq!(flow.results[0].id, "action:uninstall:confirm");
    assert_eq!(flow.results[1].id, "action:uninstall:cancel");
    assert!(flow.pending.is_some());

    let cmds = flow.on_submit(&cfg, &plugins, "code", Some(1), false);
    assert_eq!(names(&cmds), vec!["rows:6@2", "status:"]);
    assert_eq!(flow.results.len(), 3);
    assert_eq!(flow.selected_index, 2);
    assert!(flow.pending.is_none());
}

#[test]
fn confirmed_uninstall_hides_and_suppresses_the_application() {
    let cfg = config();
    let plugins = PluginRegistry::default();
    let mut flow = OverlayFlow::new();
    flow.on_hotkey(&cfg, false, false, "");
    flow.on_query_changed(&cfg, "code");
    flow.on_search_finished(Ok(items()), false);
    flow.on_submit(&cfg, &plugins, "code", Some(2), false);

    let cmds = flow.on_submit(&cfg, &plugins, "code", Some(0), false);
    assert_eq!(names(&cmds), vec!["hide_now", "perform"]);
    match &cmds[1] {
        OverlayCommand::Perform(SelectionLaunch::Uninstall { action_id }) => {
            assert_eq!(action_id, "__swiftfind_action_uninstall__:hkcu:vscode")
        }
        other => panic!("unexpected command {other:?}"),
    }
    assert!(!flow.overlay.is_visible());

    let cmds = flow.on_perform_finished(Ok(()));
    assert_eq!(names(&cmds), vec!["status:", "clear_query", "idle", "clear_session"]);
    assert_eq!(flow.suppressed_titles, vec!["Visual Studio Code".to_string()]);

    flow.on_query_changed(&cfg, "visual");
    let cmds = flow.on_search_finished(Ok(items()), false);
    assert_eq!(names(&cmds), vec!["rows:2@0"]);
    assert!(flow.results.iter().all(|item| item.id != "app-1"));
}

#[test]
fn failed_uninstall_keeps_the_confirmation() {
    let cfg = config();
    let plugins = PluginRegistry::default();
    let mut flow = OverlayFlow::new();
    flow.on_query_changed(&cfg, "code");
    flow.on_search_finished(Ok(items()), false);
    flow.on_submit(&cfg, &plugins, "code", Some(2), false);
    flow.on_submit(&cfg, &plugins, "code", Some(0), false);

    let cmds = flow.on_perform_finished(Err("uninstall actions are only supported on Windows".to_string()));
    assert_eq!(
        names(&cmds),
        vec!["show", "status:Launch error: uninstall actions are only supported on Windows"]
    );
    assert!(flow.pending.is_some());
}

#[test]
fn escape_hides_a_visible_overlay_only() {
    let cfg = config();
    let mut flow = OverlayFlow::new();
    assert!(flow.on_escape().is_empty());
    flow.on_hotkey(&cfg, false, false, "");
    assert_eq!(names(&flow.on_escape()), vec!["hide_now", "clear_query", "idle", "clear_session"]);
    assert!(flow.on_escape().is_empty());
}

#[test]
fn external_quit_hides_and_quits() {
    let mut flow = OverlayFlow::new();
    assert_eq!(names(&flow.on_external_quit()), vec!["hide_now", "clear_session", "quit"]);
}

#[test]
fn suppressed_titles_are_kept_until_their_application_is_gone() {
    let mut flow = OverlayFlow::new();
    flow.suppressed_titles = vec!["A".to_string(), "B".to_string(), "C".to_string()];
    flow.reconcile_suppressed_titles(&[Some(true), Some(false), None]);
    assert_eq!(flow.suppressed_titles, vec!["B".to_string(), "C".to_string()]);
}
