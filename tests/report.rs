use timesheet::entry::LogLine;
use timesheet::listing::list_lines;
use timesheet::log::parse_log;
use timesheet::report::process_log_for_report;

#[test]
fn test_process_log_for_report_one_pair() {
    let lines = vec![
        (1, LogLine::Start(1000, "coding".to_string())),
        (2, LogLine::Stop(4600)),
    ];
    let r = process_log_for_report(&lines, None);
    assert!(!r.work_in_progress);
    assert_eq!(r.activities.len(), 1);
    assert_eq!(r.activities[0].0, "coding");
    let pct = 100.0 * r.activities[0].1 as f64 / r.total as f64;
    assert!((pct - 100.0).abs() < 0.01);
    let hours: f64 = r.weekdays.iter().map(|s| *s as f64 / 3600.0).sum();
    assert!((hours - 3600.0 / 3600.0).abs() < 0.01);
}

#[test]
fn test_process_log_for_report_virtual_stop() {
    let lines = vec![(1, LogLine::Start(1000, "x".to_string()))];
    let r = process_log_for_report(&lines, Some(2000));
    assert!(!r.work_in_progress);
    assert_eq!(r.activities.len(), 1);
    assert_eq!(r.activities[0].0, "x");
    let pct = 100.0 * r.activities[0].1 as f64 / r.total as f64;
    assert!((pct - 100.0).abs() < 0.01);
}

#[test]
fn one_session_fills_its_weekday() {
    let lines = vec![
        (1, LogLine::Start(1000, "coding".to_string())),
        (2, LogLine::Stop(4600)),
    ];
    let r = process_log_for_report(&lines, None);
    assert_eq!(r.activities, vec![("coding".to_string(), 3600)]);
    assert_eq!(r.total, 3600);
    assert_eq!(r.weekdays, vec![0, 0, 0, 0, 3600, 0, 0]);
}

#[test]
fn virtual_stop_reports_like_a_stop() {
    let closed = vec![(1, LogLine::Start(90000, "a".to_string())), (2, LogLine::Stop(93600))];
    let open = vec![(1, LogLine::Start(90000, "a".to_string()))];
    let a = process_log_for_report(&closed, None);
    let b = process_log_for_report(&open, Some(93600));
    assert_eq!(a.activities, b.activities);
    assert_eq!(a.weekdays, b.weekdays);
    assert_eq!(a.weekdays[5], 3600);
    assert!(!b.work_in_progress);
}

#[test]
fn lone_start_is_work_in_progress() {
    let lines = vec![(1, LogLine::Start(1000, "a".to_string()))];
    let r = process_log_for_report(&lines, None);
    assert!(r.work_in_progress);
    assert!(r.activities.is_empty());
    assert_eq!(r.total, 0);
}

#[test]
fn second_start_closes_the_first() {
    let lines = vec![
        (1, LogLine::Start(0, "a".to_string())),
        (2, LogLine::Start(600, "b".to_string())),
        (3, LogLine::Stop(2400)),
    ];
    let r = process_log_for_report(&lines, None);
    assert_eq!(r.activities, vec![("b".to_string(), 1800), ("a".to_string(), 600)]);
    assert!(!r.work_in_progress);
}

#[test]
fn backwards_session_counts_nothing() {
    let lines = vec![
        (1, LogLine::Start(5000, "a".to_string())),
        (2, LogLine::Stop(4000)),
        (3, LogLine::Stop(9000)),
    ];
    let r = process_log_for_report(&lines, None);
    assert!(r.activities.is_empty());
    assert_eq!(r.total, 0);
}

#[test]
fn equal_times_keep_first_closed_first() {
    let lines = vec![
        (1, LogLine::Start(0, "a".to_string())),
        (2, LogLine::Start(100, "b".to_string())),
        (3, LogLine::Start(200, "c".to_string())),
        (4, LogLine::Stop(300)),
    ];
    let r = process_log_for_report(&lines, None);
    let names: Vec<&str> = r.activities.iter().map(|x| x.0.as_str()).collect();
    assert_eq!(names, vec!["a", "b", "c"]);
}

#[test]
fn weekday_of_negative_epoch_is_wednesday() {
    let lines = vec![(1, LogLine::Start(-3600, "a".to_string())), (2, LogLine::Stop(0))];
    let r = process_log_for_report(&lines, None);
    assert_eq!(r.weekdays, vec![0, 0, 0, 3600, 0, 0, 0]);
}

#[test]
fn list_scenario_one_hour() {
    let entries = parse_log("START|1000|coding\nSTOP|4600\n");
    let lines = list_lines(&entries, None);
    assert_eq!(
        lines,
        vec![
            "100.0%  1.00h  coding",
            "Sunday  0.00",
            "Monday  0.00",
            "Tuesday  0.00",
            "Wednesday  0.00",
            "Thursday  1.00",
            "Friday  0.00",
            "Saturday  0.00",
            "Total  1.00",
        ]
    );
}

#[test]
fn list_truncates_hours_and_sums_truncated_days() {
    // 35 s on Thursday and 35 s on Friday: each day truncates to 0.00.
    let entries = parse_log("START|0|a\nSTOP|35\nSTART|86400|b\nSTOP|86435\n");
    let lines = list_lines(&entries, None);
    assert_eq!(lines[0], "50.0%  0.00h  a");
    assert_eq!(lines[1], "50.0%  0.00h  b");
    assert_eq!(lines[6], "Thursday  0.00");
    assert_eq!(lines[9], "Total  0.00");
    // 1 h 59 min: 1.98 h truncated, not rounded.
    let entries = parse_log("START|0|a\nSTOP|7140\n");
    assert_eq!(list_lines(&entries, None)[0], "100.0%  1.98h  a");
}

#[test]
fn list_rounds_percent_to_tenths() {
    let entries = parse_log("START|0|a\nSTART|1|b\nSTART|3|c\nSTOP|6\n");
    let lines = list_lines(&entries, None);
    assert_eq!(lines[0], "50.0%  0.00h  c");
    assert_eq!(lines[1], "33.3%  0.00h  b");
    assert_eq!(lines[2], "16.7%  0.00h  a");
}

#[test]
fn list_without_work() {
    let entries = parse_log("START|1000|coding\n");
    assert_eq!(list_lines(&entries, None), vec!["No work recorded."]);
}
