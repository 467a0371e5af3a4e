use timesheet::entry::{format_line, parse_line, LogLine};
use timesheet::log::{last_entry, max_epoch, parse_log, split_lines};

#[test]
fn test_parse_line_start() {
    let line = "START|1700000000|coding";
    let parsed = parse_line(line);
    assert!(matches!(parsed, Some(LogLine::Start(1700000000, a)) if a == "coding"));
}

#[test]
fn test_parse_line_start_empty_activity() {
    let line = "START|1700000000|";
    let parsed = parse_line(line);
    assert!(matches!(parsed, Some(LogLine::Start(1700000000, a)) if a.is_empty()));
}

#[test]
fn test_parse_line_start_activity_with_pipe() {
    let line = "START|1700000000|misc|unspecified";
    let parsed = parse_line(line);
    assert!(matches!(parsed, Some(LogLine::Start(1700000000, a)) if a == "misc|unspecified"));
}

#[test]
fn test_parse_line_stop() {
    let line = "STOP|1700003600";
    let parsed = parse_line(line);
    assert!(matches!(parsed, Some(LogLine::Stop(1700003600))));
}

#[test]
fn test_parse_line_invalid() {
    assert!(parse_line("").is_none());
    assert!(parse_line("  \n  ").is_none());
    assert!(parse_line("START").is_none());
    assert!(parse_line("STOP").is_none());
    assert!(parse_line("START|abc|act").is_none());
    assert!(parse_line("STOP|abc").is_none());
    assert!(parse_line("OTHER|123").is_none());
}

#[test]
fn test_parse_line_whitespace_trimmed() {
    let line = "  START|1700000000|  x  ";
    let parsed = parse_line(line);
    if let Some(LogLine::Start(epoch, activity)) = parsed {
        assert_eq!(epoch, 1700000000);
        assert_eq!(activity, "  x");
    } else {
        panic!("expected Some(Start)");
    }
}

#[test]
fn parse_line_epoch_field_may_hold_spaces() {
    assert_eq!(parse_line("START| 42 |a"), Some(LogLine::Start(42, "a".to_string())));
    assert_eq!(parse_line("STOP| -7 "), Some(LogLine::Stop(-7)));
    assert_eq!(parse_line("START|+5"), Some(LogLine::Start(5, String::new())));
}

#[test]
fn parse_line_rejects_epoch_out_of_range() {
    assert!(parse_line("STOP|9223372036854775808").is_none());
    assert_eq!(
        parse_line("STOP|-9223372036854775808"),
        Some(LogLine::Stop(i64::MIN))
    );
    assert_eq!(parse_line("STOP|9223372036854775807"), Some(LogLine::Stop(i64::MAX)));
}

#[test]
fn format_line_writes_both_forms() {
    assert_eq!(format_line(&LogLine::Start(1000, "coding".to_string())), "START|1000|coding");
    assert_eq!(format_line(&LogLine::Stop(-12)), "STOP|-12");
}

#[test]
fn line_round_trip_with_separator_in_activity() {
    let entries = vec![
        LogLine::Start(1700000000, "misc|unspecified".to_string()),
        LogLine::Start(0, String::new()),
        LogLine::Start(i64::MIN, "a|b|c".to_string()),
        LogLine::Stop(i64::MAX),
        LogLine::Stop(-1),
    ];
    for e in entries {
        assert_eq!(parse_line(&format_line(&e)), Some(e.clone()));
    }
}

#[test]
fn split_lines_matches_str_lines() {
    let text = "a\r\nb\n\nc";
    let expected: Vec<String> = text.lines().map(|l| l.to_string()).collect();
    assert_eq!(split_lines(text), expected);
    assert_eq!(split_lines("x\n"), vec!["x".to_string()]);
    assert!(split_lines("").is_empty());
}

#[test]
fn parse_log_keeps_line_numbers() {
    let parsed = parse_log("START|100|a\nnoise\n\nSTOP|200\n");
    assert_eq!(
        parsed,
        vec![(1, LogLine::Start(100, "a".to_string())), (4, LogLine::Stop(200))]
    );
}

#[test]
fn test_last_line_epoch() {
    let lines = split_lines("START|100|a\nSTOP|200\n");
    assert_eq!(last_entry(&lines).map(|e| e.epoch()), Some(200));
    let lines = split_lines("START|100|a\n");
    assert_eq!(last_entry(&lines).map(|e| e.epoch()), Some(100));
    let lines = split_lines("");
    assert_eq!(last_entry(&lines).map(|e| e.epoch()), None);
}

#[test]
fn last_entry_skips_blank_lines_but_not_noise() {
    let lines = split_lines("STOP|5\n   \n");
    assert_eq!(last_entry(&lines), Some(LogLine::Stop(5)));
    let lines = split_lines("STOP|5\nnoise\n");
    assert_eq!(last_entry(&lines), None);
}

#[test]
fn test_max_epoch_in_log() {
    let entries = parse_log("START|100|a\nSTOP|200\nSTART|150|b\n");
    assert_eq!(max_epoch(&entries), Some(200));
    let entries = parse_log("comment\n");
    assert_eq!(max_epoch(&entries), None);
    let entries = parse_log("");
    assert_eq!(max_epoch(&entries), None);
}
