use swiftfind_core::startup::{
    is_enabled, registry_error, set_enabled, startup_command_for_executable, StartupError,
};

#[test]
fn startup_service_reports_unsupported_platform_off_windows() {
    let check = is_enabled();
    assert!(matches!(check, Err(StartupError::UnsupportedPlatform)));

    let set = set_enabled(false, "/tmp/test");
    assert!(matches!(set, Err(StartupError::UnsupportedPlatform)));
}

#[test]
fn startup_command_quotes_the_executable_and_runs_in_background() {
    assert_eq!(
        startup_command_for_executable("C:\\Apps\\SwiftFind\\swiftfind.exe", true, true),
        Ok("\"C:\\Apps\\SwiftFind\\swiftfind.exe\" --background".to_string())
    );
}

#[test]
fn startup_command_needs_an_existing_file() {
    assert_eq!(
        startup_command_for_executable("", false, false),
        Err(StartupError::Command("executable path is empty".to_string()))
    );
    assert_eq!(
        startup_command_for_executable("C:\\missing.exe", false, false),
        Err(StartupError::Command("executable path does not exist: C:\\missing.exe".to_string()))
    );
    assert_eq!(
        startup_command_for_executable("C:\\Apps", true, false),
        Err(StartupError::Command("executable path is not a file: C:\\Apps".to_string()))
    );
}

#[test]
fn registry_errors_name_the_action_and_code() {
    assert_eq!(
        registry_error("set run value", 5),
        StartupError::Command("set run value failed with code 5".to_string())
    );
    assert_eq!(StartupError::UnsupportedPlatform.message(), "unsupported platform");
    assert_eq!(StartupError::Io("denied".to_string()).message(), "io error: denied");
}
