use swiftfind_core::query_profile::{
    query_profile_status_report, recent_runtime_log_slice, summarize_query_profile_status_report,
    summary_total_fits,
};
use swiftfind_core::runtime::QueryProfileSample;

fn profile_line(n: u32, query: &str, total_ms: u32) -> String {
    format!(
        "[{n}] [INFO] [swiftfind-core] query_profile q=\"{query}\" mode=all candidate_limit=60 indexed_seed_limit=240 short_app_bias=false indexed_cache_hit=false indexed_count=20 indexed_ms=5 provider_count=0 provider_ms=0 action_count=0 action_ms=0 built_in_actions=0 plugin_actions=0 clipboard_count=0 clipboard_ms=0 rank_ms=0 total_ms={total_ms}\n"
    )
}

fn two_run_log() -> String {
    let mut log = String::new();
    log.push_str("[0] [INFO] [swiftfind-core] startup mode=windows hotkey=Ctrl+Shift+Space\n");
    log.push_str(&profile_line(1, "alpha", 40));
    log.push_str("[2] [INFO] [swiftfind-core] query_guard skip=non_searchable_symbol_only q=\"-\"\n");
    log.push_str("[3] [INFO] [swiftfind-core] startup mode=windows hotkey=Ctrl+Shift+Space\n");
    log.push_str(&profile_line(4, "beta", 10));
    log.push_str(&profile_line(5, "gamma", 30));
    log.push_str("[6] [INFO] [swiftfind-core] query_guard skip=non_searchable_symbol_only q=\"+\"\n");
    log
}

#[test]
fn recent_log_starts_at_the_last_startup_line() {
    let log = two_run_log();
    let recent = recent_runtime_log_slice(&log);
    assert!(recent.starts_with("[3] [INFO] [swiftfind-core] startup mode="));
    assert!(recent.ends_with("q=\"+\"\n"));

    assert_eq!(recent_runtime_log_slice("no startup here\n"), "no startup here\n");
    assert_eq!(
        recent_runtime_log_slice("prefix [swiftfind-core] startup mode=x"),
        "[swiftfind-core] startup mode=x"
    );
}

#[test]
fn status_report_covers_the_latest_run_and_the_whole_log() {
    let log = two_run_log();
    let report = summarize_query_profile_status_report(&log).expect("report");
    let recent = report.recent.expect("recent summary");
    assert_eq!(recent.samples, 2);
    assert_eq!(recent.max_total_ms, 30);
    let historical = report.historical.expect("historical summary");
    assert_eq!(historical.samples, 3);
    assert_eq!(historical.max_total_ms, 40);
    assert_eq!(report.recent_skipped_symbol_queries, 1);
    assert_eq!(report.historical_skipped_symbol_queries, 2);

    assert_eq!(summarize_query_profile_status_report("nothing timed\n"), None);
    assert_eq!(query_profile_status_report(&log), (Some(report), true));
}

#[test]
fn oversized_totals_are_reported_as_not_fitting() {
    let big = QueryProfileSample {
        total_ms: u128::MAX,
        indexed_ms: 0,
        query_len: 5,
        short_app_bias: false,
    };
    assert!(summary_total_fits(&[big]));
    assert!(!summary_total_fits(&[big, big]));
    assert!(summary_total_fits(&[]));

    let mut log = String::new();
    log.push_str(&format!(
        "[1] [INFO] [swiftfind-core] query_profile q=\"a\" mode=all candidate_limit=60 indexed_seed_limit=240 short_app_bias=false indexed_cache_hit=false indexed_count=1 indexed_ms=1 provider_count=0 provider_ms=0 action_count=0 action_ms=0 built_in_actions=0 plugin_actions=0 clipboard_count=0 clipboard_ms=0 rank_ms=0 total_ms={}\n",
        u128::MAX
    ));
    log.push_str(&profile_line(2, "b", 1));
    assert_eq!(query_profile_status_report(&log), (None, false));
}
