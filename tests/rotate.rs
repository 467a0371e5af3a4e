use chrono::{Datelike, Local, TimeZone, Timelike};
use timesheet::clock::CivilDate;
use timesheet::log::split_lines;
use timesheet::rotate::{
    date_stamp, plan_rotation, rotation_due, rotation_ops, week_start_epoch, FileOp, RotateError,
};

fn local_stamp(epoch: i64) -> String {
    Local.timestamp_opt(epoch, 0).single().unwrap().format("%y%m%d").to_string()
}

#[test]
fn test_do_rotate_renames_file() {
    let content = "START|1730000000|coding\nSTOP|1730003600\n";
    let plan = plan_rotation(Some(content), 1730009999, "timesheet").unwrap();
    assert!(plan.stop_line.is_none());
    assert_eq!(plan.target_name, format!("timesheet.{}", local_stamp(1730003600)));
}

#[test]
fn rotation_of_open_log_stops_first() {
    let content = "START|1730000000|coding\n";
    let plan = plan_rotation(Some(content), 1730003600, "timesheet").unwrap();
    assert_eq!(plan.stop_line, Some("STOP|1730003600".to_string()));
    assert_eq!(plan.target_name, format!("timesheet.{}", local_stamp(1730003600)));
}

#[test]
fn test_do_rotate_no_file() {
    let r = plan_rotation(None, 0, "timesheet");
    assert_eq!(r.as_ref().err(), Some(&RotateError::NoData));
    assert!(r.err().unwrap().message().contains("no timesheet data"));
}

#[test]
fn test_do_rotate_empty_file() {
    let r = plan_rotation(Some(""), 0, "timesheet");
    assert_eq!(r.as_ref().err(), Some(&RotateError::NoValidEntries));
    assert!(r.err().unwrap().message().contains("no valid entries"));
}

#[test]
fn rotation_of_open_line_without_epoch_uses_now() {
    let plan = plan_rotation(Some("START|abc|x\n"), 1730003600, "ts").unwrap();
    assert_eq!(plan.stop_line, Some("STOP|1730003600".to_string()));
    assert_eq!(plan.target_name, format!("ts.{}", local_stamp(1730003600)));
}

#[test]
fn date_stamp_pads_fields() {
    assert_eq!(date_stamp(CivilDate { year: 2026, month: 2, day: 20 }), "260220");
    assert_eq!(date_stamp(CivilDate { year: 2009, month: 11, day: 3 }), "091103");
    assert_eq!(date_stamp(CivilDate { year: -1, month: 1, day: 1 }), "990101");
}

#[test]
fn test_maybe_rotate_does_nothing_when_no_file() {
    assert!(!rotation_due(&Vec::new(), 1_000_000));
}

#[test]
fn rotation_due_only_before_week_start() {
    let lines = split_lines("START|100|a\nSTOP|200\n");
    assert!(rotation_due(&lines, 201));
    assert!(!rotation_due(&lines, 200));
    assert!(!rotation_due(&split_lines("STOP|200\nnoise\n"), 1000));
}

#[test]
fn test_week_start_epoch() {
    let tuesday = 1700000000i64;
    let week_start = week_start_epoch(tuesday).unwrap();
    let dt = Local.timestamp_opt(week_start, 0).single().unwrap();
    assert_eq!(dt.weekday(), chrono::Weekday::Sun);
    assert_eq!(dt.hour(), 0);
    assert_eq!(dt.minute(), 0);
}

fn today() -> CivilDate {
    let now = Local::now();
    CivilDate { year: now.year(), month: now.month(), day: now.day() }
}

#[test]
fn test_parse_start_time_ymd_hm() {
    let epoch = timesheet::clock::parse_start_time("2025-02-20 09:00", today());
    assert!(epoch.is_some());
    let dt = Local.timestamp_opt(epoch.unwrap(), 0).single().unwrap();
    assert_eq!(dt.year(), 2025);
    assert_eq!(dt.month(), 2);
    assert_eq!(dt.day(), 20);
    assert_eq!(dt.hour(), 9);
    assert_eq!(dt.minute(), 0);
}

#[test]
fn test_parse_start_time_hm() {
    let epoch = timesheet::clock::parse_start_time("14:30", today());
    assert!(epoch.is_some());
    let dt = Local.timestamp_opt(epoch.unwrap(), 0).single().unwrap();
    assert_eq!(dt.hour(), 14);
    assert_eq!(dt.minute(), 30);
}

#[test]
fn test_parse_start_time_invalid() {
    assert!(timesheet::clock::parse_start_time("", today()).is_none());
    assert!(timesheet::clock::parse_start_time("not-a-date", today()).is_none());
}

#[test]
fn rotation_ops_append_into_existing_archive() {
    let ops = rotation_ops("/d/timesheet.log", "/d/timesheet.241027", None, true).unwrap();
    assert_eq!(
        ops,
        vec![
            FileOp::AppendFile {
                from: "/d/timesheet.log".to_string(),
                to: "/d/timesheet.241027".to_string()
            },
            FileOp::Remove { path: "/d/timesheet.log".to_string() },
        ]
    );
}

#[test]
fn rotation_ops_stop_then_rename() {
    let ops = rotation_ops("a.log", "a.241027", Some("STOP|5"), false).unwrap();
    assert_eq!(
        ops,
        vec![
            FileOp::AppendText { path: "a.log".to_string(), text: "STOP|5\n".to_string() },
            FileOp::Rename { from: "a.log".to_string(), to: "a.241027".to_string() },
        ]
    );
}

#[test]
fn rotation_into_itself_is_refused() {
    assert!(rotation_ops("d/x.241027", "d/x.241027", None, true).is_none());
}

#[test]
fn epoch_beyond_chrono_range_is_a_bad_timestamp() {
    let r = plan_rotation(Some("START|1|a\nSTOP|8210266876799\n"), 5, "timesheet");
    assert_eq!(r.err(), Some(RotateError::BadTimestamp));
    let r = plan_rotation(Some("STOP|-8210266876799\n"), 5, "timesheet");
    assert_eq!(r.err(), Some(RotateError::BadTimestamp));
    assert_eq!(week_start_epoch(i64::MAX), None);
}

#[test]
fn weekdays_of_dates() {
    let wd = |year, month, day| timesheet::clock::weekday_number(CivilDate { year, month, day });
    assert_eq!(wd(1970, 1, 1), 4);
    assert_eq!(wd(2025, 2, 16), 0);
    assert_eq!(wd(2000, 2, 29), 2);
    assert_eq!(wd(1969, 12, 31), 3);
    assert_eq!(wd(2026, 10, 19), 1);
}

#[test]
fn start_time_fields_pick_the_first_form() {
    let today = CivilDate { year: 2026, month: 10, day: 19 };
    let f = |s: &str| timesheet::clock::start_time_fields(s, today);
    assert_eq!(f("2025-02-20 09:00"), Some((CivilDate { year: 2025, month: 2, day: 20 }, 9 * 3600)));
    assert_eq!(f("14:30"), Some((today, 14 * 3600 + 30 * 60)));
    assert_eq!(f("2:05 PM"), Some((today, 14 * 3600 + 5 * 60)));
    assert_eq!(f("2025-02-20"), Some((CivilDate { year: 2025, month: 2, day: 20 }, 0)));
    assert_eq!(f("not-a-date"), None);
}
