use swiftfind_core::config::Config;
use swiftfind_core::model::SearchItem;
use swiftfind_core::overlay_search::{
    begin_overlay_query, cached_indexed_seed, finish_overlay_query, OverlayQueryStart,
};
use swiftfind_core::overlay_session::OverlaySearchSession;
use swiftfind_core::plugin_sdk::PluginRegistry;
use swiftfind_core::query_dsl::ParsedQuery;

fn config() -> Config {
    Config::defaults_at(
        "C:\\SwiftFind\\config.json",
        "C:\\SwiftFind\\index.sqlite3",
        "C:\\SwiftFind\\plugins",
        Vec::new(),
        Vec::new(),
    )
}

#[test]
fn zero_limit_and_symbol_queries_find_nothing() {
    let cfg = config();
    let mut session = OverlaySearchSession::default();
    session.indexed_latency_ms.push(10);
    let parsed = ParsedQuery::parse("vivaldi", true);
    match begin_overlay_query(&cfg, &parsed, 0, &mut session) {
        OverlayQueryStart::Done(v) => assert!(v.is_empty()),
        OverlayQueryStart::Search(_) => panic!("zero limit should not search"),
    }
    assert_eq!(session.indexed_latency_ms.len(), 1);

    let symbols = ParsedQuery::parse("-", true);
    match begin_overlay_query(&cfg, &symbols, 20, &mut session) {
        OverlayQueryStart::Done(v) => assert!(v.is_empty()),
        OverlayQueryStart::Search(_) => panic!("symbol query should not search"),
    }
    assert!(session.indexed_latency_ms.is_empty());
}

#[test]
fn repeated_overlay_query_uses_final_cache() {
    let cfg = config();
    let plugins = PluginRegistry::default();
    let mut entries = Vec::new();
    let mut session = OverlaySearchSession::default();
    let parsed = ParsedQuery::parse("viv", true);

    let plan = match begin_overlay_query(&cfg, &parsed, 20, &mut session) {
        OverlayQueryStart::Search(plan) => plan,
        OverlayQueryStart::Done(_) => panic!("first query should search the index"),
    };
    assert_eq!(plan.text_query, "viv");
    assert_eq!(plan.normalized_query, "viv");
    assert!(plan.prefix_cache_eligible);
    assert!(cached_indexed_seed(&plan, &session, 1_800_000_000).is_none());

    let seeds = vec![SearchItem::new("item-1", "app", "Vivaldi", "C:\\Vivaldi.exe")];
    let first = finish_overlay_query(
        plan,
        &mut session,
        seeds,
        false,
        12,
        &plugins,
        &cfg,
        &mut entries,
        1_800_000_000,
    );
    assert_eq!(first.len(), 1);
    assert_eq!(first[0].id, "item-1");
    assert_eq!(session.indexed_latency_ms, vec![12]);
    assert!(session.indexed_prefix_cache.is_some());

    match begin_overlay_query(&cfg, &parsed, 20, &mut session) {
        OverlayQueryStart::Done(cached) => {
            assert_eq!(cached.len(), 1);
            assert_eq!(cached[0].id, "item-1");
        }
        OverlayQueryStart::Search(_) => panic!("second query should come from the cache"),
    }
}

#[test]
fn longer_query_is_served_from_prefix_cache() {
    let cfg = config();
    let plugins = PluginRegistry::default();
    let mut entries = Vec::new();
    let mut session = OverlaySearchSession::default();

    let first = ParsedQuery::parse("viv", true);
    let plan = match begin_overlay_query(&cfg, &first, 20, &mut session) {
        OverlayQueryStart::Search(plan) => plan,
        OverlayQueryStart::Done(_) => panic!("first query should search"),
    };
    let seeds = vec![
        SearchItem::new("app-1", "app", "Vivaldi", "C:\\Vivaldi.exe"),
        SearchItem::new("app-2", "app", "Visual Studio", "C:\\VS.exe"),
    ];
    finish_overlay_query(plan, &mut session, seeds, false, 5, &plugins, &cfg, &mut entries, 1_800_000_000);

    let longer = ParsedQuery::parse("viva", true);
    let plan = match begin_overlay_query(&cfg, &longer, 20, &mut session) {
        OverlayQueryStart::Search(plan) => plan,
        OverlayQueryStart::Done(_) => panic!("new query should search"),
    };
    let served = cached_indexed_seed(&plan, &session, 1_800_000_000).expect("prefix cache should serve");
    assert!(!served.is_empty());
    assert_eq!(served[0].id, "app-1");
}

#[test]
fn short_query_bias_searches_apps_only() {
    let cfg = config();
    let mut session = OverlaySearchSession::default();
    let parsed = ParsedQuery::parse("v", true);
    match begin_overlay_query(&cfg, &parsed, 20, &mut session) {
        OverlayQueryStart::Search(plan) => {
            assert!(plan.short_query_app_bias);
            assert!(!plan.prefix_cache_eligible);
            assert_eq!(plan.indexed_filter.mode, swiftfind_core::config::SearchMode::Apps);
            assert_eq!(plan.filter.mode, swiftfind_core::config::SearchMode::All);
        }
        OverlayQueryStart::Done(_) => panic!("should search"),
    }
}

#[test]
fn command_mode_returns_action_results() {
    let cfg = config();
    let plugins = PluginRegistry::default();
    let mut entries = Vec::new();
    let mut session = OverlaySearchSession::default();
    let parsed = ParsedQuery::parse(">diag", true);
    let plan = match begin_overlay_query(&cfg, &parsed, 10, &mut session) {
        OverlayQueryStart::Search(plan) => plan,
        OverlayQueryStart::Done(_) => panic!("a command query should be searched"),
    };
    let results = finish_overlay_query(
        plan,
        &mut session,
        Vec::new(),
        false,
        1,
        &plugins,
        &cfg,
        &mut entries,
        1_800_000_000,
    );
    assert!(results
        .iter()
        .any(|item| item.id == swiftfind_core::action_registry::ACTION_DIAGNOSTICS_BUNDLE_ID));
}
