use grain_link::logs::{log_file_name, log_file_path, log_line};

#[test]
fn log_line_without_context() {
    assert_eq!(
        log_line("2024-05-01 10:00:00.123", "INFO", "net", "started", None),
        "[2024-05-01 10:00:00.123] [INFO] [net] started\n"
    );
    assert_eq!(
        log_line("t", "WARN", "ui", "m", Some(String::new())),
        "[t] [WARN] [ui] m\n"
    );
}

#[test]
fn log_line_with_context() {
    assert_eq!(
        log_line("2024-05-01 10:00:00.123", "ERROR", "sync", "failed", Some("code=3".to_string())),
        "[2024-05-01 10:00:00.123] [ERROR] [sync] failed | code=3\n"
    );
}

#[test]
fn daily_file_name_and_path() {
    assert_eq!(log_file_name("2024-05-01"), "grain-link-2024-05-01.log");
    assert_eq!(log_file_path("/l/logs", "2024-05-01"), "/l/logs/grain-link-2024-05-01.log");
}

#[test]
fn two_entries_same_day_append_two_lines_in_order() {
    let day = "2024-05-01";
    assert_eq!(log_file_name(day), log_file_name(day));
    let mut content = String::from("earlier\n");
    content.push_str(&log_line("2024-05-01 09:00:00.000", "INFO", "a", "first", None));
    content.push_str(&log_line("2024-05-01 09:00:01.000", "INFO", "b", "second", Some("x".to_string())));
    let lines: Vec<&str> = content.lines().collect();
    assert_eq!(
        lines,
        vec![
            "earlier",
            "[2024-05-01 09:00:00.000] [INFO] [a] first",
            "[2024-05-01 09:00:01.000] [INFO] [b] second | x"
        ]
    );
}
