use swiftfind_core::action_executor::{
    launch_browser_default_search, launch_open_target, launch_path, LaunchError,
};

#[test]
fn rejects_empty_launch_path() {
    let result = launch_path("", false);
    assert_eq!(result, Err(LaunchError::EmptyPath));
}

#[test]
fn rejects_empty_open_target() {
    let result = launch_open_target("   ");
    assert_eq!(result, Err(LaunchError::EmptyPath));
}

#[test]
fn accepts_web_open_target() {
    let result = launch_open_target("https://duckduckgo.com/?q=swiftfind");
    assert!(result.is_ok());
}

#[test]
fn rejects_empty_browser_default_search() {
    let result = launch_browser_default_search("   ", None);
    assert_eq!(result, Err(LaunchError::EmptyPath));
}

#[test]
fn rejects_browser_default_search_without_fallback_url() {
    let result = launch_browser_default_search("swiftfind", None);
    assert_eq!(
        result,
        Err(LaunchError::LaunchFailed {
            message: "missing fallback web search URL".to_string(),
            code: None,
        })
    );
}

#[test]
fn missing_launch_path_is_reported_with_trimmed_path() {
    let result = launch_path("  C:\\missing\\tool.exe ", false);
    assert_eq!(
        result,
        Err(LaunchError::MissingPath("C:\\missing\\tool.exe".to_string()))
    );
}

#[test]
fn existing_launch_path_is_trimmed_for_opening() {
    let result = launch_path(" C:\\Tools\\tool.exe\n", true);
    assert_eq!(result, Ok("C:\\Tools\\tool.exe".to_string()));
}

#[test]
fn browser_default_search_opens_trimmed_fallback() {
    let result = launch_browser_default_search("rust", Some("  https://example.com/?q=rust "));
    assert_eq!(result, Ok("https://example.com/?q=rust".to_string()));
}

#[test]
fn launch_error_messages_match_display_text() {
    assert_eq!(LaunchError::EmptyPath.message(), "empty path");
    assert_eq!(
        LaunchError::MissingPath("C:\\x".to_string()).message(),
        "path does not exist: C:\\x"
    );
    assert_eq!(
        LaunchError::LaunchFailed {
            message: "denied".to_string(),
            code: Some(-5),
        }
        .message(),
        "launch failed: denied (code -5)"
    );
}

#[test]
fn rejects_missing_launch_path() {
    let missing = std::path::PathBuf::from("/tmp").join(format!("swiftfind-missing-path-{}-{}.tmp", 4242, 17));
    let missing_str = missing.to_string_lossy().to_string();
    let result = launch_path(&missing_str, false);

    assert_eq!(result, Err(LaunchError::MissingPath(missing_str)));
}
