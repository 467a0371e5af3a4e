use timesheet::edit::{activity_of_words, plan_stop, LogEdit};
use timesheet::log::{parse_log, split_lines};
use timesheet::timeoff::{needs_start, timeoff_plan, Timeoff};

#[test]
fn test_cmd_stop_appends_when_last_is_start() {
    let lines = split_lines(&format!("START|{}|coding\n", 3600));
    assert_eq!(plan_stop(&lines, None, 7200), LogEdit::Append("STOP|7200".to_string()));
}

#[test]
fn test_cmd_stop_no_op_when_last_is_stop() {
    let lines = split_lines(&format!("START|{}|coding\nSTOP|{}\n", 3600, 7200));
    assert_eq!(plan_stop(&lines, None, 9000), LogEdit::Unchanged);
}

#[test]
fn test_cmd_stop_amends_last_stop_when_time_given() {
    let lines = split_lines(&format!("START|{}|coding\nSTOP|{}\n", 7200, 3600));
    assert_eq!(
        plan_stop(&lines, Some(9000), 1),
        LogEdit::Rewrite("START|7200|coding\nSTOP|9000\n".to_string())
    );
}

#[test]
fn stop_on_empty_log_appends() {
    assert_eq!(plan_stop(&Vec::new(), Some(5), 9), LogEdit::Append("STOP|5".to_string()));
}

#[test]
fn test_cmd_start_default_activity() {
    assert_eq!(activity_of_words(&Vec::new()), "misc/unspecified");
    assert_eq!(
        activity_of_words(&vec!["my".to_string(), "activity".to_string()]),
        "my activity"
    );
}

#[test]
fn test_cmd_started_appends() {
    let today = timesheet::clock::CivilDate { year: 2025, month: 2, day: 21 };
    let lines = split_lines("");
    let edit = timesheet::edit::plan_started(&lines, 1740042000, &"manual".to_string(), today);
    assert_eq!(edit, LogEdit::Append("START|1740042000|manual".to_string()));
}

#[test]
fn started_replaces_todays_open_start() {
    let now = chrono::Local::now();
    let today = timesheet::clock::CivilDate {
        year: chrono::Datelike::year(&now),
        month: chrono::Datelike::month(&now),
        day: chrono::Datelike::day(&now),
    };
    let t = now.timestamp();
    let lines = split_lines(&format!("STOP|1\nSTART|{}|x\n", t));
    let edit = timesheet::edit::plan_started(&lines, t - 60, &"y".to_string(), today);
    assert_eq!(edit, LogEdit::Rewrite(format!("STOP|1\nSTART|{}|y\n", t - 60)));
    let lines = split_lines(&format!("START|1|a\nSTOP|{}\n", t));
    let edit = timesheet::edit::plan_started(&lines, t - 60, &"y".to_string(), today);
    assert_eq!(edit, LogEdit::Rewrite(format!("START|1|a\nSTART|{}|y\nSTOP|{}\n", t - 60, t)));
}

#[test]
fn elapsed_formats() {
    assert_eq!(timesheet::edit::elapsed_text(59), "0m");
    assert_eq!(timesheet::edit::elapsed_text(600), "10m");
    assert_eq!(timesheet::edit::elapsed_text(3600 + 120), "1h 2m");
}

#[test]
fn timeoff_over_two_days() {
    // 2 h on day 0 and 4 h on day 1: 16 h owed, 6 h worked.
    let entries = parse_log("START|0|a\nSTOP|7200\nSTART|86400|b\nSTOP|100800\n");
    assert_eq!(
        timeoff_plan(&entries, 200000),
        Timeoff::StopAt { epoch: 200000 + 36 * 1000, hundredths: 1000, days: 2 }
    );
    let entries = parse_log("START|0|a\nSTOP|30000\n");
    assert_eq!(timeoff_plan(&entries, 40000), Timeoff::Done);
    assert_eq!(timeoff_plan(&parse_log(""), 5), Timeoff::NoWork);
    // An open start counts until now, and its day counts even at zero length.
    let entries = parse_log("START|1000|a\n");
    assert_eq!(
        timeoff_plan(&entries, 1000),
        Timeoff::StopAt { epoch: 1000 + 36 * 800, hundredths: 800, days: 1 }
    );
    assert!(needs_start(&split_lines("")));
    assert!(needs_start(&split_lines("START|1|a\nSTOP|2\n")));
    assert!(!needs_start(&split_lines("START|1|a\n")));
}

#[test]
fn started_edit_decides_by_the_last_entrys_day() {
    let lines = split_lines("STOP|1\nSTART|100|x\n");
    assert_eq!(
        timesheet::edit::started_edit(&lines, 50, &"y".to_string(), true),
        LogEdit::Rewrite("STOP|1\nSTART|50|y\n".to_string())
    );
    assert_eq!(
        timesheet::edit::started_edit(&lines, 50, &"y".to_string(), false),
        LogEdit::Append("START|50|y".to_string())
    );
    let lines = split_lines("START|1|a\nSTOP|100\n");
    assert_eq!(
        timesheet::edit::started_edit(&lines, 50, &"y".to_string(), true),
        LogEdit::Rewrite("START|1|a\nSTART|50|y\nSTOP|100\n".to_string())
    );
    assert_eq!(
        timesheet::edit::started_edit(&lines, 150, &"y".to_string(), true),
        LogEdit::Append("START|150|y".to_string())
    );
}

#[test]
fn started_after_far_stop_appends() {
    let today = timesheet::clock::CivilDate { year: 2025, month: 1, day: 1 };
    let lines = split_lines("STOP|8210266876799\n");
    assert_eq!(
        timesheet::edit::plan_started(&lines, 5, &"y".to_string(), today),
        LogEdit::Append("START|5|y".to_string())
    );
}
