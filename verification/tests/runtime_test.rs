use swiftfind_core::config::SearchMode;
use swiftfind_core::model::SearchItem;
use swiftfind_core::overlay_session::OverlaySearchSession;
use swiftfind_core::query_profile::{
    percentile_u128, summarize_query_profile_samples, summarize_query_profiles,
};
use swiftfind_core::query_dsl::ParsedQuery;
use swiftfind_core::runtime::{
    adaptive_indexed_seed_limit, can_use_indexed_prefix_cache, candidate_limit_for_query,
    dedupe_overlay_results, filter_suppressed_uninstall_results,
    maybe_expand_uninstall_quick_shortcut, next_selection_index, parse_cli_args,
    parse_status_diagnostics_snapshot, parse_tasklist_pid_lines, result_limit_for_query,
    should_hide_known_start_menu_doc_sample_entry, should_skip_non_searchable_query,
    track_uninstall_title_suppression, uninstall_confirmation_results,
    uninstall_target_title_from_action_title, IndexedPrefixCache, RuntimeCommand,
    QueryProfileSample, RuntimeOptions, ACTION_UNINSTALL_CANCEL_ID, ACTION_UNINSTALL_CONFIRM_ID,
    INDEXED_PREFIX_CACHE_MAX_SEED_LIMIT, INDEXED_PREFIX_CACHE_MIN_SEED_LIMIT,
    UNINSTALL_QUERY_RESULT_LIMIT,
};
use swiftfind_core::search::SearchFilter;

#[test]
fn selection_index_bounds_are_stable() {
    assert_eq!(next_selection_index(0, 0, 1), 0);
    assert_eq!(next_selection_index(0, 3, -1), 0);
    assert_eq!(next_selection_index(1, 3, -1), 0);
    assert_eq!(next_selection_index(1, 3, 1), 2);
    assert_eq!(next_selection_index(2, 3, 1), 2);
    assert_eq!(next_selection_index(1, 3, 0), 1);
    assert_eq!(next_selection_index(5, 3, 0), 2);
}

#[test]
fn candidate_limit_adapts_to_query_shape() {
    let all = SearchFilter::default();
    let empty_all = candidate_limit_for_query(20, &all, "", false);
    let short_all = candidate_limit_for_query(20, &all, "v", false);
    let medium_all = candidate_limit_for_query(20, &all, "vi", false);
    let long_all = candidate_limit_for_query(20, &all, "vivaldi", false);
    assert!(empty_all <= short_all);
    assert!(short_all < medium_all);
    assert!(medium_all <= long_all);

    let actions = SearchFilter {
        mode: SearchMode::Actions,
        ..SearchFilter::default()
    };
    let short_actions = candidate_limit_for_query(20, &actions, "v", true);
    assert!(short_actions < long_all);
}

#[test]
fn uninstall_queries_use_expanded_result_limit() {
    let parsed = ParsedQuery::parse(">uninstall", true);
    let limit = result_limit_for_query(20, &parsed);
    assert_eq!(limit, UNINSTALL_QUERY_RESULT_LIMIT);

    let non_uninstall = ParsedQuery::parse(">web rust", true);
    let non_limit = result_limit_for_query(20, &non_uninstall);
    assert_eq!(non_limit, 20);
}

#[test]
fn quick_uninstall_shortcut_expands_only_on_initial_u() {
    assert_eq!(
        maybe_expand_uninstall_quick_shortcut(">u", ">"),
        Some(">u ".to_string())
    );
    assert_eq!(maybe_expand_uninstall_quick_shortcut(">u", ">u"), None);
    assert_eq!(
        maybe_expand_uninstall_quick_shortcut(">u", ">u something"),
        None
    );
}

#[test]
fn uninstall_action_title_extracts_target_name() {
    assert_eq!(
        uninstall_target_title_from_action_title("Uninstall Discord"),
        Some("Discord".to_string())
    );
    assert_eq!(
        uninstall_target_title_from_action_title("uninstall   Visual Studio Code  "),
        Some("Visual Studio Code".to_string())
    );
    assert_eq!(
        uninstall_target_title_from_action_title("Open Discord"),
        None
    );
}

#[test]
fn uninstall_title_suppression_tracks_uniques() {
    let mut suppressed = Vec::new();
    track_uninstall_title_suppression(&mut suppressed, "Uninstall Discord");
    track_uninstall_title_suppression(&mut suppressed, "uninstall discord");
    track_uninstall_title_suppression(&mut suppressed, "Open Discord");
    assert_eq!(suppressed, vec!["Discord".to_string()]);
}

#[test]
fn uninstall_confirmation_results_are_confirm_then_cancel() {
    let uninstall_action = SearchItem::new(
        "action:uninstall:discord",
        "action",
        "Uninstall Discord",
        "shell:AppsFolder\\Discord",
    );
    let results = uninstall_confirmation_results(&uninstall_action);
    assert_eq!(results.len(), 2);
    assert_eq!(results[0].id, ACTION_UNINSTALL_CONFIRM_ID);
    assert_eq!(results[1].id, ACTION_UNINSTALL_CANCEL_ID);
    assert!(results[0].title.contains("Discord"));
    assert_eq!(results[1].title, "Cancel");
}

#[test]
fn suppressed_uninstall_results_are_filtered_from_results() {
    let mut results = vec![
        SearchItem::new("app-discord", "app", "Discord", "C:\\Discord\\Discord.exe"),
        SearchItem::new(
            "__swiftfind_action_uninstall__:discord",
            "action",
            "Uninstall Discord",
            "Vendor application",
        ),
        SearchItem::new(
            "app-vscode",
            "app",
            "Visual Studio Code",
            "C:\\Code\\Code.exe",
        ),
        SearchItem::new("file-readme", "file", "readme.md", "C:\\repo\\readme.md"),
    ];
    let suppressed = vec!["Discord".to_string()];
    filter_suppressed_uninstall_results(&mut results, &suppressed);

    assert_eq!(results.len(), 2);
    assert!(results.iter().all(|item| item.id != "app-discord"));
    assert!(results
        .iter()
        .all(|item| item.id != "__swiftfind_action_uninstall__:discord"));
    assert!(results.iter().any(|item| item.id == "app-vscode"));
    assert!(results.iter().any(|item| item.id == "file-readme"));
}

#[test]
fn hides_known_start_menu_doc_and_sample_entries() {
    let docs = SearchItem::new(
        "app-docs",
        "app",
        "Documentation Desktop Apps",
        "shell:AppsFolder\\Contoso.DocumentationDesktopApps",
    );
    let sample = SearchItem::new(
        "app-sample",
        "app",
        "Sample UWP Apps",
        "shell:AppsFolder\\Contoso.SampleUwpApps",
    );
    let normal = SearchItem::new(
        "app-normal",
        "app",
        "Discord",
        "shell:AppsFolder\\Discord.Discord",
    );
    let non_shell = SearchItem::new(
        "app-nonshell",
        "app",
        "Sample Tool",
        "C:\\Tools\\SampleTool.exe",
    );
    let manual_lnk = SearchItem::new(
        "app-manual",
        "app",
        "User Manual",
        "C:\\ProgramData\\Microsoft\\Windows\\Start Menu\\Programs\\Tool\\User Manual.lnk",
    );
    let faq_pdf = SearchItem::new(
        "app-faq",
        "app",
        "Tool FAQ",
        "shell:AppsFolder\\Vendor.ToolFAQ.pdf",
    );
    let normal_lnk = SearchItem::new(
        "app-normal-lnk",
        "app",
        "Discord",
        "C:\\ProgramData\\Microsoft\\Windows\\Start Menu\\Programs\\Discord\\Discord.lnk",
    );

    assert!(should_hide_known_start_menu_doc_sample_entry(&docs));
    assert!(should_hide_known_start_menu_doc_sample_entry(&sample));
    assert!(should_hide_known_start_menu_doc_sample_entry(&manual_lnk));
    assert!(should_hide_known_start_menu_doc_sample_entry(&faq_pdf));
    assert!(!should_hide_known_start_menu_doc_sample_entry(&normal));
    assert!(!should_hide_known_start_menu_doc_sample_entry(&non_shell));
    assert!(!should_hide_known_start_menu_doc_sample_entry(&normal_lnk));
}

#[test]
fn prefix_cache_predicate_requires_same_filter_and_extended_query() {
    let cache = IndexedPrefixCache {
        normalized_query: "vi".to_string(),
        indexed_filter: SearchFilter::default(),
        seed_items: vec![SearchItem::new(
            "app-1",
            "app",
            "Vivaldi",
            "C:\\Vivaldi.exe",
        )],
    };

    assert!(can_use_indexed_prefix_cache(
        &cache,
        true,
        "viv",
        &SearchFilter::default()
    ));
    assert!(!can_use_indexed_prefix_cache(
        &cache,
        true,
        "vi",
        &SearchFilter::default()
    ));
    assert!(!can_use_indexed_prefix_cache(
        &cache,
        true,
        "xvi",
        &SearchFilter::default()
    ));

    let different_mode = SearchFilter {
        mode: SearchMode::Apps,
        ..SearchFilter::default()
    };
    assert!(!can_use_indexed_prefix_cache(
        &cache,
        true,
        "viv",
        &different_mode
    ));
    assert!(!can_use_indexed_prefix_cache(
        &cache,
        false,
        "viv",
        &SearchFilter::default()
    ));
}

#[test]
fn parses_background_run_args() {
    let args = vec!["--background".to_string()];
    let options = parse_cli_args(&args).expect("args should parse");
    assert_eq!(
        options,
        RuntimeOptions {
            command: RuntimeCommand::Run,
            background: true,
        }
    );
}

#[test]
fn parses_lifecycle_commands() {
    let args = vec!["--status".to_string()];
    let options = parse_cli_args(&args).expect("status should parse");
    assert_eq!(options.command, RuntimeCommand::Status);
    assert!(!options.background);
}

#[test]
fn parses_diagnostics_bundle_command() {
    let args = vec!["--diagnostics-bundle".to_string()];
    let options = parse_cli_args(&args).expect("diagnostics command should parse");
    assert_eq!(options.command, RuntimeCommand::DiagnosticsBundle);
    assert!(!options.background);
}

#[test]
fn parses_set_launch_at_startup_command() {
    let args = vec!["--set-launch-at-startup=true".to_string()];
    let options = parse_cli_args(&args).expect("startup command should parse");
    assert_eq!(options.command, RuntimeCommand::SetLaunchAtStartup(true));
    assert!(!options.background);

    let args = vec!["--set-launch-at-startup=false".to_string()];
    let options = parse_cli_args(&args).expect("startup command should parse");
    assert_eq!(options.command, RuntimeCommand::SetLaunchAtStartup(false));
    assert!(!options.background);
}

#[test]
fn rejects_invalid_set_launch_at_startup_value() {
    let args = vec!["--set-launch-at-startup=maybe".to_string()];
    let error = parse_cli_args(&args).expect_err("invalid value should fail");
    assert!(error.contains("invalid value for --set-launch-at-startup"));
}

#[test]
fn rejects_background_with_non_run_commands() {
    let args = vec!["--quit".to_string(), "--background".to_string()];
    let error = parse_cli_args(&args).expect_err("invalid combination should fail");
    assert!(error.contains("background mode"));
}

#[test]
fn dedupes_duplicate_app_titles_for_overlay() {
    let mut results = vec![
        SearchItem::new("a1", "app", "Steam", "C:\\One\\Steam.lnk"),
        SearchItem::new("a2", "app", "Steam", "C:\\Two\\Steam.lnk"),
        SearchItem::new("a3", "app", "Calculator", "C:\\Calc.lnk"),
    ];
    dedupe_overlay_results(&mut results);
    assert_eq!(results.len(), 2);
    assert_eq!(results[0].title, "Steam");
    assert_eq!(results[1].title, "Calculator");
}

#[test]
fn dedupes_non_app_entries_by_normalized_path() {
    let mut results = vec![
        SearchItem::new("f1", "file", "Doc A", "C:/Users/Admin/Docs/test.txt"),
        SearchItem::new("f2", "file", "Doc B", "C:\\Users\\Admin\\Docs\\test.txt"),
        SearchItem::new("f3", "file", "Doc C", "C:\\Users\\Admin\\Docs\\other.txt"),
    ];
    dedupe_overlay_results(&mut results);
    assert_eq!(results.len(), 2);
    assert_eq!(results[0].id, "f1");
    assert_eq!(results[1].id, "f3");
}

#[test]
fn dedupes_lnk_file_when_matching_app_title_exists() {
    let mut results = vec![
        SearchItem::new("a1", "app", "Framer", "C:\\ProgramData\\Framer.lnk"),
        SearchItem::new(
            "f1",
            "file",
            "Framer.lnk",
            "C:\\Users\\Admin\\Desktop\\Framer.lnk",
        ),
        SearchItem::new(
            "f2",
            "file",
            "Framer Notes.lnk",
            "C:\\Users\\Admin\\Desktop\\Framer Notes.lnk",
        ),
    ];

    dedupe_overlay_results(&mut results);
    let ids: Vec<&str> = results.iter().map(|item| item.id.as_str()).collect();

    assert_eq!(ids, vec!["a1", "f2"]);
}

#[test]
fn parses_status_diagnostics_snapshot_from_log_content() {
    let content = "\
[1] [INFO] [swiftfind-core] startup indexed_items=310 discovered=320 upserted=16 removed=4
[2] [INFO] [swiftfind-core] index_provider name=start-menu-apps discovered=120 upserted=4 removed=1 elapsed_ms=42
[3] [INFO] [swiftfind-core] overlay_icon_cache reason=cache_clear hits=12 misses=8 load_failures=1 evictions=0 cleared_entries=9
";

    let snapshot = parse_status_diagnostics_snapshot(content).expect("snapshot should parse");
    assert!(snapshot
        .startup_index_line
        .as_deref()
        .unwrap_or_default()
        .contains("startup indexed_items=310"));
    assert!(snapshot
        .last_provider_line
        .as_deref()
        .unwrap_or_default()
        .contains("index_provider name=start-menu-apps"));
    assert!(snapshot
        .last_icon_cache_line
        .as_deref()
        .unwrap_or_default()
        .contains("overlay_icon_cache reason=cache_clear"));
}

#[test]
fn returns_none_for_status_snapshot_without_diagnostics_tokens() {
    let content = "[1] [INFO] [swiftfind-core] status: running\n";
    assert!(parse_status_diagnostics_snapshot(content).is_none());
}

#[test]
fn skips_non_searchable_symbol_only_query() {
    let parsed = ParsedQuery::parse("-", true);
    let normalized = swiftfind_core::model::normalize_for_search(parsed.free_text.trim());
    assert!(should_skip_non_searchable_query(&parsed, &normalized));

    let parsed_command = ParsedQuery::parse(">-", true);
    let normalized_command =
        swiftfind_core::model::normalize_for_search(parsed_command.free_text.trim());
    assert!(!should_skip_non_searchable_query(
        &parsed_command,
        &normalized_command
    ));
}

#[test]
fn parses_tasklist_pid_lines_from_list_output() {
    let content = "\
Image Name:   swiftfind-core.exe
PID:          1124
Session Name: Console

Image Name:   swiftfind-core.exe
PID:          2208
Session Name: Console
";
    let pids = parse_tasklist_pid_lines(content);
    assert_eq!(pids, vec![1124, 2208]);
}

#[test]
fn adaptive_seed_limit_reduces_on_high_latency_window() {
    let mut session = OverlaySearchSession::default();
    session
        .indexed_latency_ms
        .extend(std::iter::repeat(170_u128).take(12));

    let base = 320;
    let tuned = adaptive_indexed_seed_limit(&session, 120, 1, base);
    assert!(tuned < base);
    assert!(tuned >= INDEXED_PREFIX_CACHE_MIN_SEED_LIMIT / 2);
    assert!(tuned <= INDEXED_PREFIX_CACHE_MAX_SEED_LIMIT);
}

#[test]
fn summarizes_query_profiles_from_log_content() {
    let content = "\
[1] [INFO] [swiftfind-core] query_profile q=\"v\" mode=all candidate_limit=60 indexed_seed_limit=240 short_app_bias=true indexed_cache_hit=false indexed_count=20 indexed_ms=20 provider_count=0 provider_ms=0 action_count=0 action_ms=0 built_in_actions=0 plugin_actions=0 clipboard_count=0 clipboard_ms=0 rank_ms=0 total_ms=21
[2] [INFO] [swiftfind-core] query_profile q=\"va\" mode=all candidate_limit=80 indexed_seed_limit=160 short_app_bias=true indexed_cache_hit=false indexed_count=20 indexed_ms=26 provider_count=0 provider_ms=0 action_count=0 action_ms=0 built_in_actions=0 plugin_actions=0 clipboard_count=0 clipboard_ms=0 rank_ms=0 total_ms=27
[3] [INFO] [swiftfind-core] query_profile q=\"vala\" mode=all candidate_limit=120 indexed_seed_limit=240 short_app_bias=false indexed_cache_hit=false indexed_count=20 indexed_ms=54 provider_count=0 provider_ms=0 action_count=0 action_ms=0 built_in_actions=0 plugin_actions=0 clipboard_count=0 clipboard_ms=0 rank_ms=0 total_ms=55
";
    let summary = summarize_query_profiles(content).expect("summary should parse");
    assert_eq!(summary.samples, 3);
    assert_eq!(summary.p95_total_ms, 55);
    assert_eq!(summary.short_query_samples, 2);
    assert_eq!(summary.short_query_app_bias_rate_pct, 100);
    assert_eq!(summary.short_query_p95_total_ms, 27);
}

#[test]
fn percentile_rounds_half_up_between_ranks() {
    assert_eq!(percentile_u128(&[], 95), 0);
    assert_eq!(percentile_u128(&[30, 10, 20], 50), 20);
    assert_eq!(percentile_u128(&[40, 10, 30, 20], 50), 30);
    assert_eq!(percentile_u128(&[5, 1, 4, 2, 3], 95), 5);
    assert_eq!(percentile_u128(&[5, 1, 4, 2, 3], 0), 1);
}

#[test]
fn summary_averages_and_maximum_cover_the_window() {
    let samples: Vec<QueryProfileSample> = (1..=5)
        .map(|n| QueryProfileSample {
            total_ms: n * 10,
            indexed_ms: n,
            query_len: 5,
            short_app_bias: false,
        })
        .collect();
    let summary = summarize_query_profile_samples(&samples).unwrap();
    assert_eq!(summary.samples, 5);
    assert_eq!(summary.max_total_ms, 50);
    assert_eq!(summary.avg_total_ms, 30);
    assert_eq!(summary.p50_total_ms, 30);
    assert_eq!(summary.short_query_samples, 0);
    assert_eq!(summary.short_query_app_bias_rate_pct, 0);
    assert!(summarize_query_profile_samples(&[]).is_none());
}
