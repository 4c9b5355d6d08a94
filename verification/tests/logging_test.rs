use swiftfind_core::logging::{
    archive_name, format_log_line, is_log_archive_name, needs_rotation, old_archives, LOG_FILE_NAME,
};

#[test]
fn log_lines_carry_time_level_and_message() {
    assert_eq!(format_log_line(1700000000, "INFO", "hello"), "[1700000000] [INFO] hello\n");
    assert_eq!(format_log_line(0, "WARN", ""), "[0] [WARN] \n");
}

#[test]
fn logs_rotate_at_a_megabyte() {
    assert!(!needs_rotation(999_999));
    assert!(needs_rotation(1_000_000));
}

#[test]
fn archives_are_named_by_stamp() {
    assert_eq!(archive_name(42), "swiftfind-42.log");
    assert!(is_log_archive_name("swiftfind-42.log"));
    assert!(!is_log_archive_name(LOG_FILE_NAME));
    assert!(!is_log_archive_name("swiftfind-42.txt"));
}

#[test]
fn only_the_newest_five_archives_are_kept() {
    let names: Vec<String> = vec![
        "swiftfind-7.log",
        "swiftfind.log",
        "swiftfind-3.log",
        "swiftfind-9.log",
        "notes.txt",
        "swiftfind-1.log",
        "swiftfind-5.log",
        "swiftfind-8.log",
        "swiftfind-2.log",
    ]
    .into_iter()
    .map(str::to_string)
    .collect();
    assert_eq!(
        old_archives(&names),
        vec!["swiftfind-1.log".to_string(), "swiftfind-2.log".to_string()]
    );
    assert!(old_archives(&names[..4]).is_empty());
}
