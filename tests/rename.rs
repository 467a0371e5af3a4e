use timesheet::log::split_lines;
use timesheet::rename::{rename_candidates, rename_lines};

#[test]
fn test_cmd_workalias_no_match_this_week() {
    let lines = split_lines(&format!("START|{}|other\nSTOP|{}\n", 100, 200));
    assert_eq!(rename_candidates(&lines, 0, "nonexistent"), Ok(vec![]));
}

#[test]
fn candidates_are_this_weeks_matching_starts() {
    let lines = split_lines("START|10|coding\nSTART|20|review\nSTOP|30\nSTART|700000|coding\n");
    assert_eq!(rename_candidates(&lines, 0, "^cod"), Ok(vec![0]));
    assert_eq!(rename_candidates(&lines, 0, "o"), Ok(vec![0]));
    assert_eq!(rename_candidates(&lines, 0, "e"), Ok(vec![1]));
}

#[test]
fn bad_pattern_is_an_error() {
    let err = rename_candidates(&Vec::new(), 0, "(").unwrap_err();
    assert!(err.starts_with("invalid pattern"));
}

#[test]
fn chosen_lines_are_renamed() {
    let lines = split_lines("START|10|coding\nnoise\nSTART|20|review\nSTOP|30");
    let text = rename_lines(&lines, &vec![0, 1], &"dev".to_string());
    assert_eq!(text, "START|10|dev\nnoise\nSTART|20|review\nSTOP|30\n");
}
