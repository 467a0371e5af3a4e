use timesheet::daemon::{
    activities_this_week_most_recent_first, daemon_to_stop, next_action, next_stop_signal,
    outcome_of_reply, outcome_of_text, parse_pid, prompt_choices, spawn_needed, DaemonAction,
    PromptReply, ReminderResult, StopSignal,
};
use timesheet::daemon::{wait_step, WaitStep};
use timesheet::log::parse_log;

#[test]
fn transitions_of_the_prompt() {
    assert_eq!(next_action(ReminderResult::DontBugMe), DaemonAction::Exit);
    assert_eq!(
        next_action(ReminderResult::Activity("x".to_string())),
        DaemonAction::RecordStart("x".to_string())
    );
    assert_eq!(next_action(ReminderResult::EnterNew), DaemonAction::AskForText);
    assert_eq!(next_action(ReminderResult::ShowAgain), DaemonAction::PromptAgain);
    assert_eq!(next_action(ReminderResult::Timeout), DaemonAction::StopAndExit);
}

#[test]
fn typed_text_and_replies() {
    assert_eq!(
        outcome_of_text(Some("new".to_string())),
        ReminderResult::Activity("new".to_string())
    );
    assert_eq!(outcome_of_text(Some(String::new())), ReminderResult::ShowAgain);
    assert_eq!(outcome_of_text(None), ReminderResult::ShowAgain);
    let choices = prompt_choices(&vec!["coding".to_string()]);
    assert_eq!(
        outcome_of_reply(PromptReply::Chosen("Don't Bug Me".to_string()), &choices),
        ReminderResult::DontBugMe
    );
    assert_eq!(
        outcome_of_reply(PromptReply::Chosen("Enter new activity...".to_string()), &choices),
        ReminderResult::EnterNew
    );
    assert_eq!(
        outcome_of_reply(PromptReply::Chosen("coding".to_string()), &choices),
        ReminderResult::Activity("coding".to_string())
    );
    assert_eq!(
        outcome_of_reply(PromptReply::Chosen("never offered".to_string()), &choices),
        ReminderResult::ShowAgain
    );
    assert_eq!(outcome_of_reply(PromptReply::Dismissed, &choices), ReminderResult::Dismissed);
    assert_eq!(outcome_of_reply(PromptReply::TimedOut, &choices), ReminderResult::Timeout);
    assert_eq!(next_action(ReminderResult::Dismissed), DaemonAction::Idle);
}

#[test]
fn choices_frame_the_activities() {
    let acts = vec!["b".to_string(), "".to_string(), "a".to_string(), "b".to_string()];
    assert_eq!(
        prompt_choices(&acts),
        vec!["Don't Bug Me", "b", "a", "Enter new activity..."]
    );
    assert_eq!(prompt_choices(&Vec::new()), vec!["Don't Bug Me", "Enter new activity..."]);
}

#[test]
fn pid_file_text() {
    assert_eq!(parse_pid("1234\n"), Some(1234));
    assert_eq!(parse_pid("x"), None);
    assert_eq!(parse_pid("4294967296"), None);
}

#[test]
fn stopping_never_signals_self() {
    assert_eq!(daemon_to_stop(Some("77\n"), 77), None);
    assert_eq!(daemon_to_stop(Some("78"), 77), Some(78));
    assert_eq!(daemon_to_stop(None, 77), None);
    assert_eq!(daemon_to_stop(Some("garbage"), 77), None);
}

#[test]
fn escalation_of_signals() {
    assert_eq!(next_stop_signal(None, true), Some(StopSignal::Terminate));
    assert_eq!(next_stop_signal(Some(StopSignal::Terminate), true), Some(StopSignal::Kill));
    assert_eq!(next_stop_signal(Some(StopSignal::Terminate), false), None);
    assert_eq!(next_stop_signal(Some(StopSignal::Kill), true), None);
}

#[test]
fn single_instance() {
    assert!(!spawn_needed(Some(10), true));
    assert!(spawn_needed(Some(10), false));
    assert!(spawn_needed(None, false));
}

#[test]
fn week_activities_most_recent_first() {
    let entries = parse_log(
        "START|50|old\nSTART|100|a\nSTART|200|b\nSTOP|250\nSTART|300|a\nSTART|99999999|late\n",
    );
    let acts = activities_this_week_most_recent_first(&entries, 100);
    assert_eq!(acts, vec!["a".to_string(), "b".to_string()]);
}

#[test]
fn bounded_wait_for_the_prompt() {
    assert_eq!(wait_step(true, 999_999, 1000), WaitStep::Collect);
    assert_eq!(wait_step(false, 1000, 1000), WaitStep::Kill);
    assert_eq!(wait_step(false, 999, 1000), WaitStep::Wait);
}
