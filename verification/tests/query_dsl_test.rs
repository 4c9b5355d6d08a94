use swiftfind_core::config::SearchMode;
use swiftfind_core::query_dsl::{ParsedQuery, TimeFilterWindow};

#[test]
fn parses_mode_kind_and_filters() {
    let parsed = ParsedQuery::parse(
        r#"@apps kind:file ext:md report OR notes NOT draft -temp modified:week"#,
        true,
    );
    assert_eq!(parsed.mode_override, Some(SearchMode::Apps));
    assert_eq!(parsed.kind_filter.as_deref(), Some("file"));
    assert_eq!(parsed.extension_filter.as_deref(), Some("md"));
    assert_eq!(parsed.modified_within, Some(TimeFilterWindow::Week));
    assert_eq!(parsed.include_groups.len(), 2);
    assert!(parsed.exclude_terms.contains(&"draft".to_string()));
    assert!(parsed.exclude_terms.contains(&"temp".to_string()));
}

#[test]
fn parses_command_mode_prefix() {
    let parsed = ParsedQuery::parse(">logs", true);
    assert!(parsed.command_mode);
    assert_eq!(parsed.mode_override, Some(SearchMode::Actions));
    assert_eq!(parsed.free_text, "logs");
}

#[test]
fn disables_dsl_when_disabled() {
    let parsed = ParsedQuery::parse("kind:file notes", false);
    assert_eq!(parsed.free_text, "kind:file notes");
    assert!(parsed.mode_override.is_none());
    assert!(parsed.include_groups.is_empty());
}
