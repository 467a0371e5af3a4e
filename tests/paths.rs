use timesheet::paths::{escape_applescript_string, reminder_interval_path, reminder_pid_path};

#[test]
fn side_files_sit_in_the_cache_dir() {
    assert_eq!(reminder_pid_path("/home/u/.cache"), "/home/u/.cache/ts-reminder.pid");
    assert_eq!(reminder_interval_path("/home/u/.cache/"), "/home/u/.cache/ts-reminder-interval");
    assert_eq!(reminder_interval_path(""), "ts-reminder-interval");
}

#[test]
fn applescript_quoting() {
    assert_eq!(escape_applescript_string(r#"say "hi" \o/"#), r#"say \"hi\" \\o/"#);
    assert_eq!(escape_applescript_string("plain"), "plain");
}
