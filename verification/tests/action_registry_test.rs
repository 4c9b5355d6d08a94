use swiftfind_core::action_registry::{built_in_actions, search_actions, ACTION_DIAGNOSTICS_BUNDLE_ID};

#[test]
fn filters_actions_by_query() {
    let actions = search_actions("diag", 10);
    assert!(actions
        .iter()
        .any(|action| action.id == "__swiftfind_action_diagnostics_bundle__"));
}

#[test]
fn built_in_actions_hold_the_diagnostics_bundle() {
    let actions = built_in_actions();
    assert!(actions.iter().any(|a| a.id == ACTION_DIAGNOSTICS_BUNDLE_ID));
}

#[test]
fn action_search_honors_limit() {
    assert!(search_actions("o", 1).len() <= 1);
    assert!(search_actions("diag", 0).is_empty());
}
