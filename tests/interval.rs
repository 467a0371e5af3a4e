use timesheet::interval::{interval_from_text, interval_record, interval_text, parse_interval_duration};

#[test]
fn interval_scenarios() {
    assert_eq!(parse_interval_duration("1h30m"), Ok(5400));
    assert_eq!(parse_interval_duration("100s"), Ok(100));
    assert_eq!(parse_interval_duration("3"), Ok(180));
    assert!(parse_interval_duration("").is_err());
}

#[test]
fn interval_grammar_details() {
    assert_eq!(parse_interval_duration("3m"), Ok(180));
    assert_eq!(parse_interval_duration(" 2H5S "), Ok(7205));
    assert_eq!(parse_interval_duration("1h 30"), Ok(5400));
    assert_eq!(parse_interval_duration("x5y"), Ok(300));
}

#[test]
fn interval_errors() {
    assert_eq!(parse_interval_duration("   "), Err("interval cannot be empty".to_string()));
    assert_eq!(parse_interval_duration("0m"), Err("interval must be positive".to_string()));
    assert_eq!(parse_interval_duration("abc"), Err("interval must be positive".to_string()));
    assert_eq!(
        parse_interval_duration("99999999999999999999h"),
        Err("interval too large".to_string())
    );
}

#[test]
fn interval_file_text() {
    assert_eq!(interval_from_text("600\n"), 600);
    assert_eq!(interval_from_text("junk"), 300);
    assert_eq!(interval_from_text(""), 300);
    assert_eq!(interval_record(5400), Some("5400".to_string()));
    assert_eq!(interval_record(0), None);
}

#[test]
fn interval_display() {
    assert_eq!(interval_text(7200), "2h");
    assert_eq!(interval_text(180), "3m");
    assert_eq!(interval_text(90), "90s");
    assert_eq!(interval_text(5400), "90m");
}
