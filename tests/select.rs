use chrono::{Datelike, Local};
use timesheet::log::parse_log;
use timesheet::select::{
    archive_name, date_range_in_log, log_epoch_bounds, resolve_list_input, ListCandidate, ListSource,
};

fn cand(extension: &str, content: &str) -> ListCandidate {
    ListCandidate {
        extension: extension.to_string(),
        dates: date_range_in_log(&parse_log(content)),
    }
}

fn year() -> i32 {
    Local::now().year()
}

#[test]
fn test_resolve_list_input_none_returns_timesheet() {
    let cands = vec![cand("log", "")];
    assert_eq!(resolve_list_input(None, false, &cands, year()), Ok(ListSource::Current));
}

#[test]
fn test_resolve_list_input_log_returns_timesheet() {
    let cands = vec![cand("log", "")];
    assert_eq!(resolve_list_input(Some("log"), false, &cands, year()), Ok(ListSource::Current));
}

#[test]
fn test_resolve_list_input_exact_extension() {
    let cands = vec![cand("log", ""), cand("260220", "")];
    assert_eq!(
        resolve_list_input(Some("260220"), false, &cands, year()),
        Ok(ListSource::Archive(1))
    );
}

#[test]
fn test_resolve_list_input_substring_extension() {
    let cands = vec![cand("log", ""), cand("260220", "")];
    assert_eq!(
        resolve_list_input(Some("0220"), false, &cands, year()),
        Ok(ListSource::Archive(1))
    );
}

#[test]
fn test_resolve_list_input_no_match() {
    let cands = vec![cand("log", "")];
    let result = resolve_list_input(Some("999999"), false, &cands, year());
    assert!(result.is_err());
    assert!(result.unwrap_err().contains("no timesheet matches"));
}

#[test]
fn test_resolve_list_input_date_in_range_fallback() {
    let cands = vec![cand("log", ""), cand("250301", "START|1739984400|a\nSTOP|1740891600\n")];
    let out = resolve_list_input(Some("250219"), false, &cands, year());
    assert_eq!(out, Ok(ListSource::Archive(1)), "ts list 250219 should use log that contains that date");
}

#[test]
fn test_resolve_list_input_date_fallback_by_extension() {
    let cands = vec![cand("log", ""), cand("260220", "")];
    let out = resolve_list_input(Some("2/19"), false, &cands, year());
    assert_eq!(
        out,
        Ok(ListSource::Archive(1)),
        "ts list 2/19 should fall back to file with extension date on or after that day"
    );
}

#[test]
fn several_matches_are_an_error() {
    let cands = vec![cand("260220", ""), cand("260221", "")];
    assert_eq!(
        resolve_list_input(Some("2602"), false, &cands, 2026),
        Err("ts list: multiple timesheets match \"2602\".".to_string())
    );
}

#[test]
fn given_file_and_empty_argument() {
    let cands = vec![cand("260220", "")];
    assert_eq!(resolve_list_input(Some("/tmp/x"), true, &cands, 2026), Ok(ListSource::Given));
    assert_eq!(resolve_list_input(Some(""), false, &cands, 2026), Ok(ListSource::Current));
}

#[test]
fn eight_digit_dates_and_earliest_extension() {
    let cands = vec![cand("260301", ""), cand("260225", ""), cand("260101", "")];
    assert_eq!(
        resolve_list_input(Some("20260219"), false, &cands, 2026),
        Ok(ListSource::Archive(1))
    );
}

#[test]
fn content_prefers_requested_year_then_earliest_end() {
    // Both cover 2025-06-15; the second ends earlier.
    let a = cand("250801", "START|1748736000|a\nSTOP|1754006400\n");
    let b = cand("250701", "START|1748736000|a\nSTOP|1751328000\n");
    let cands = vec![a, b];
    assert_eq!(
        resolve_list_input(Some("6/15"), false, &cands, 2025),
        Ok(ListSource::Archive(1))
    );
}

#[test]
fn archive_names() {
    assert!(archive_name("timesheet.260220"));
    assert!(!archive_name("timesheet.log"));
    assert!(!archive_name("timesheet.x1"));
    assert!(!archive_name("other.260220"));
    assert!(!archive_name("timesheet."));
}

#[test]
fn epoch_bounds_and_far_dates() {
    assert_eq!(log_epoch_bounds(&parse_log("STOP|5\nSTART|-3|a\nSTOP|9\n")), Some((-3, 9)));
    assert_eq!(log_epoch_bounds(&parse_log("")), None);
    assert_eq!(date_range_in_log(&parse_log("STOP|8210266876799\n")), None);
    assert!(date_range_in_log(&parse_log("STOP|0\n")).is_some());
}
