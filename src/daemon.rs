//! Decisions of the reminder daemon: what each answer to the prompt leads
//! to, the choices offered, and the handling of the PID file.

use vstd::prelude::*;
use crate::entry::{Entry, LogLine};
use crate::log::entries_view;
use crate::report::{lists, sorted_order};
use crate::text::{chars_of, parse_u32, parse_u64_in, trim, trim_bounds};

verus! {

/// Label of the choice that ends the reminders.
pub const DONT_BUG_ME: &'static str = "Don't Bug Me";

/// Label of the choice that asks for a new activity.
pub const ENTER_NEW: &'static str = "Enter new activity...";

/// Longest wait for an answer to the prompt, in seconds.
pub const PROMPT_TIMEOUT_SECS: u64 = 300;

/// An answer to the reminder prompt.
#[derive(Clone, Debug, PartialEq, Eq)]
pub enum ReminderResult {
    /// Stop reminding.
    DontBugMe,
    /// Work on this activity now.
    Activity(String),
    /// The user wants to type a new activity.
    EnterNew,
    /// The typing was cancelled: ask again.
    ShowAgain,
    /// The prompt was closed without an answer: sleep, then ask again.
    Dismissed,
    /// No answer in time.
    Timeout,
}

/// What the daemon does next.
#[derive(Clone, Debug, PartialEq, Eq)]
pub enum DaemonAction {
    /// Leave the loop; tracking stays as it is.
    Exit,
    /// Record a start of this activity now, then sleep again.
    RecordStart(String),
    /// Show the single-field prompt for a new activity.
    AskForText,
    /// Show the prompt again without sleeping.
    PromptAgain,
    /// Record nothing; sleep, then show the prompt again.
    Idle,
    /// Record a stop now, then leave the loop.
    StopAndExit,
}

/// The daemon's transition on an answer to the prompt.
pub fn next_action(outcome: ReminderResult) -> (r: DaemonAction)
    ensures
        outcome == ReminderResult::DontBugMe ==> r == DaemonAction::Exit,
        outcome matches ReminderResult::Activity(a) ==> r == DaemonAction::RecordStart(a),
        outcome == ReminderResult::EnterNew ==> r == DaemonAction::AskForText,
        outcome == ReminderResult::ShowAgain ==> r == DaemonAction::PromptAgain,
        outcome == ReminderResult::Dismissed ==> r == DaemonAction::Idle,
        outcome == ReminderResult::Timeout ==> r == DaemonAction::StopAndExit,
{
    match outcome {
        ReminderResult::DontBugMe => DaemonAction::Exit,
        ReminderResult::Activity(a) => DaemonAction::RecordStart(a),
        ReminderResult::EnterNew => DaemonAction::AskForText,
        ReminderResult::ShowAgain => DaemonAction::PromptAgain,
        ReminderResult::Dismissed => DaemonAction::Idle,
        ReminderResult::Timeout => DaemonAction::StopAndExit,
    }
}

/// The answer that the single-field prompt amounts to: an activity when
/// text was typed, else a request to ask again.
pub fn outcome_of_text(text: Option<String>) -> (r: ReminderResult)
    ensures
        text is Some && text->0@.len() > 0 ==> r == ReminderResult::Activity(text->0),
        !(text is Some && text->0@.len() > 0) ==> r == ReminderResult::ShowAgain,
{
    match text {
        Some(t) => if !t.as_str().is_empty() {
            ReminderResult::Activity(t)
        } else {
            ReminderResult::ShowAgain
        },
        None => ReminderResult::ShowAgain,
    }
}

/// What the prompt gave back.
#[derive(Clone, Debug, PartialEq, Eq)]
pub enum PromptReply {
    /// The label that was chosen.
    Chosen(String),
    /// The prompt was closed without a choice.
    Dismissed,
    /// No answer in time.
    TimedOut,
}

/// Whether `a` is one of the activities offered by `choices`, the labels
/// between the first and the last.
pub open spec fn offered(choices: Seq<String>, a: Seq<char>) -> bool {
    exists|k: int| 0 < k < choices.len() - 1 && #[trigger] choices[k]@ == a
}

fn is_offered(choices: &Vec<String>, s: &String) -> (r: bool)
    ensures
        r == offered(choices@, s@),
{
    if choices.len() < 2 {
        return false;
    }
    let last = choices.len() - 1;
    let mut k: usize = 1;
    while k < last
        invariant
            last == choices.len() - 1,
            1 <= k <= last || last == 0,
            forall|q: int| 0 < q < k ==> #[trigger] choices@[q]@ != s@,
        decreases last - k,
    {
        if choices[k] == *s {
            assert(choices@[k as int]@ == s@);
            return true;
        }
        k = k + 1;
    }
    false
}

/// The answer that a reply to the prompt offering `choices` amounts to: a
/// label that was not offered asks again.
pub fn outcome_of_reply(reply: PromptReply, choices: &Vec<String>) -> (r: ReminderResult)
    ensures
        reply matches PromptReply::Chosen(s) ==> r == (if s@ == DONT_BUG_ME@ {
            ReminderResult::DontBugMe
        } else if s@ == ENTER_NEW@ {
            ReminderResult::EnterNew
        } else if s@.len() > 0 && offered(choices@, s@) {
            ReminderResult::Activity(s)
        } else {
            ReminderResult::ShowAgain
        }),
        reply == PromptReply::Dismissed ==> r == ReminderResult::Dismissed,
        reply == PromptReply::TimedOut ==> r == ReminderResult::Timeout,
{
    match reply {
        PromptReply::Chosen(s) => {
            let dont = String::from_str(DONT_BUG_ME);
            let enter = String::from_str(ENTER_NEW);
            if s == dont {
                ReminderResult::DontBugMe
            } else if s == enter {
                ReminderResult::EnterNew
            } else if !s.as_str().is_empty() && is_offered(choices, &s) {
                ReminderResult::Activity(s)
            } else {
                ReminderResult::ShowAgain
            }
        },
        PromptReply::Dismissed => ReminderResult::Dismissed,
        PromptReply::TimedOut => ReminderResult::Timeout,
    }
}

/// The labels offered before the last one: first the one that ends the
/// reminders, then each non-empty activity not offered yet, in order.
pub open spec fn choices_for(acts: Seq<Seq<char>>) -> Seq<Seq<char>>
    decreases acts.len(),
{
    if acts.len() == 0 {
        seq![DONT_BUG_ME@]
    } else {
        let prev = choices_for(acts.drop_last());
        let a = acts.last();
        if a.len() > 0 && !prev.contains(a) {
            prev.push(a)
        } else {
            prev
        }
    }
}

/// The labels offered by the prompt, ending with the one that asks for a
/// new activity.
pub fn prompt_choices(activities: &Vec<String>) -> (r: Vec<String>)
    ensures
        r@.map_values(|l: String| l@) == choices_for(activities@.map_values(|l: String| l@)).push(
            ENTER_NEW@,
        ),
{
    let ghost acts = activities@.map_values(|l: String| l@);
    let mut out: Vec<String> = Vec::new();
    out.push(String::from_str(DONT_BUG_ME));
    assert(acts.take(0) =~= Seq::<Seq<char>>::empty());
    assert(out@.map_values(|l: String| l@) =~= choices_for(acts.take(0)));
    let mut i: usize = 0;
    while i < activities.len()
        invariant
            i <= activities.len(),
            acts == activities@.map_values(|l: String| l@),
            out@.map_values(|l: String| l@) == choices_for(acts.take(i as int)),
        decreases activities.len() - i,
    {
        let ghost prev = out@.map_values(|l: String| l@);
        assert(acts.take(i + 1).drop_last() =~= acts.take(i as int));
        assert(acts.take(i + 1).last() == activities@[i as int]@);
        let a = &activities[i];
        let mut k: usize = 0;
        let mut seen = false;
        while k < out.len() && !seen
            invariant
                k <= out.len(),
                prev == out@.map_values(|l: String| l@),
                seen ==> k < out.len() && out@[k as int]@ == a@,
                !seen ==> forall|m: int| 0 <= m < k ==> out@[m]@ != a@,
            decreases out.len() - k + (if seen {
                0int
            } else {
                1int
            }),
        {
            if out[k] == *a {
                seen = true;
            } else {
                k = k + 1;
            }
        }
        if seen {
            assert(prev[k as int] == a@);
        } else {
            assert(!prev.contains(a@)) by {
                if prev.contains(a@) {
                    let m = choose|m: int| 0 <= m < prev.len() && prev[m] == a@;
                    assert(out@[m]@ == a@);
                }
            }
        }
        if !a.as_str().is_empty() && !seen {
            out.push(a.clone());
            assert(out@.map_values(|l: String| l@) =~= prev.push(a@));
        }
        i = i + 1;
    }
    assert(acts.take(i as int) =~= acts);
    let ghost prev = out@.map_values(|l: String| l@);
    out.push(String::from_str(ENTER_NEW));
    assert(out@.map_values(|l: String| l@) =~= prev.push(ENTER_NEW@));
    out
}

/// A process id as the PID file holds it: trimmed decimal text.
pub fn parse_pid(text: &str) -> (r: Option<u32>)
    ensures
        r == parse_u32(trim(text@)),
{
    let v = chars_of(text);
    let (lo, hi) = trim_bounds(&v, 0, v.len());
    assert(v@.subrange(0, v.len() as int) =~= text@);
    match parse_u64_in(&v, lo, hi) {
        Some(n) => if n <= 0xFFFF_FFFF {
            Some(n as u32)
        } else {
            None
        },
        None => None,
    }
}

/// The process to signal when the daemon is to stop: the one the PID file
/// names, unless there is no such file, it names no process, or it names
/// the caller itself. The file is removed in every case.
pub fn daemon_to_stop(pid_text: Option<&str>, own_pid: u32) -> (r: Option<u32>)
    ensures
        r == (match pid_text {
            Some(t) => match parse_u32(trim(t@)) {
                Some(p) => if p == own_pid {
                    None
                } else {
                    Some(p)
                },
                None => None,
            },
            None => None,
        }),
{
    match pid_text {
        Some(t) => match parse_pid(t) {
            Some(p) => if p == own_pid {
                None
            } else {
                Some(p)
            },
            None => None,
        },
        None => None,
    }
}

/// A signal that asks a process to end.
#[derive(Clone, Copy, Debug, PartialEq, Eq)]
pub enum StopSignal {
    /// The polite request.
    Terminate,
    /// The forced end.
    Kill,
}

/// The next signal to send to a daemon that should stop: none once it is
/// gone; first the polite request, then, if it is still there, the forced
/// end; nothing more after that.
pub fn next_stop_signal(sent: Option<StopSignal>, alive: bool) -> (r: Option<StopSignal>)
    ensures
        !alive ==> r is None,
        alive && sent is None ==> r == Some(StopSignal::Terminate),
        alive && sent == Some(StopSignal::Terminate) ==> r == Some(StopSignal::Kill),
        sent == Some(StopSignal::Kill) ==> r is None,
{
    if !alive {
        return None;
    }
    match sent {
        None => Some(StopSignal::Terminate),
        Some(StopSignal::Terminate) => Some(StopSignal::Kill),
        Some(StopSignal::Kill) => None,
    }
}

/// Whether a daemon must be started: not when the PID file names a
/// process that is alive.
pub fn spawn_needed(recorded: Option<u32>, alive: bool) -> (r: bool)
    ensures
        r == !(recorded is Some && alive),
{
    !(recorded.is_some() && alive)
}

/// Whether `t` falls in the week that begins at `week_start`.
pub open spec fn in_week(t: int, week_start: int) -> bool {
    week_start <= t <= week_start + 7 * 86400 - 1
}

/// Epoch of the last start of `a` in the week, in the order of `es`.
pub open spec fn last_start_in_week(es: Seq<Entry>, week_start: int, a: Seq<char>) -> Option<i64>
    decreases es.len(),
{
    if es.len() == 0 {
        None
    } else {
        match last_start_in_week(es.drop_first(), week_start, a) {
            Some(t) => Some(t),
            None => match es[0] {
                Entry::Start(t, b) => if b == a && in_week(t as int, week_start) {
                    Some(t)
                } else {
                    None
                },
                Entry::Stop(_) => None,
            },
        }
    }
}

spec fn epoch_key(t: i64) -> u128 {
    (t as int + 0x8000_0000_0000_0000) as u128
}

/// The activities started in the week that begins at `week_start`, each
/// once, the most recently started first.
pub fn activities_this_week_most_recent_first(entries: &[(usize, LogLine)], week_start: i64) -> (r:
    Vec<String>)
    ensures
        forall|a: int, b: int| 0 <= a < b < r.len() ==> r@[a]@ != r@[b]@,
        forall|k: int|
            0 <= k < r.len() ==> #[trigger] last_start_in_week(
                entries_view(entries@),
                week_start as int,
                r@[k]@,
            ) is Some,
        forall|a: Seq<char>|
            #[trigger] last_start_in_week(entries_view(entries@), week_start as int, a) is Some
                ==> exists|k: int| 0 <= k < r.len() && r@[k]@ == a,
        forall|a: int, b: int|
            0 <= a < b < r.len() ==> last_start_in_week(
                entries_view(entries@),
                week_start as int,
                r@[a]@,
            )->0 >= last_start_in_week(entries_view(entries@), week_start as int, r@[b]@)->0,
{
    let ghost es = entries_view(entries@);
    let ws = week_start as i128;
    let mut seen: Vec<(String, u128)> = Vec::new();
    let mut i = entries.len();
    assert(es.subrange(i as int, i as int) =~= Seq::<Entry>::empty());
    while i > 0
        invariant
            i <= entries.len(),
            es == entries_view(entries@),
            ws == week_start as i128,
            forall|k: int|
                0 <= k < seen.len() ==> #[trigger] last_start_in_week(
                    es.subrange(i as int, es.len() as int),
                    week_start as int,
                    seen@[k].0@,
                ) is Some && seen@[k].1 == epoch_key(
                    last_start_in_week(
                        es.subrange(i as int, es.len() as int),
                        week_start as int,
                        seen@[k].0@,
                    )->0,
                ),
            forall|a: Seq<char>|
                #[trigger] last_start_in_week(
                    es.subrange(i as int, es.len() as int),
                    week_start as int,
                    a,
                ) is Some ==> exists|k: int| 0 <= k < seen.len() && seen@[k].0@ == a,
            forall|a: int, b: int| 0 <= a < b < seen.len() ==> seen@[a].0@ != seen@[b].0@,
        decreases i,
    {
        let ghost suf = es.subrange(i as int, es.len() as int);
        let ghost suf2 = es.subrange(i - 1, es.len() as int);
        assert(suf2.drop_first() =~= suf);
        assert(suf2[0] == entries@[i - 1].1@);
        match &entries[i - 1].1 {
            LogLine::Start(t, a) => {
                let tt = *t as i128;
                if ws <= tt && tt <= ws + 7 * 86400 - 1 {
                    let mut k: usize = 0;
                    let mut found = false;
                    while k < seen.len() && !found
                        invariant
                            k <= seen.len(),
                            found ==> k < seen.len() && seen@[k as int].0@ == a@,
                            !found ==> forall|m: int| 0 <= m < k ==> seen@[m].0@ != a@,
                        decreases seen.len() - k + (if found { 0int } else { 1int }),
                    {
                        if seen[k].0 == *a {
                            found = true;
                        } else {
                            k = k + 1;
                        }
                    }
                    if !found {
                        let ghost before = seen@;
                        assert(last_start_in_week(suf, week_start as int, a@) is None);
                        let key: u128 = (tt + 0x8000_0000_0000_0000) as u128;
                        seen.push((a.clone(), key));
                        assert forall|k2: int| 0 <= k2 < seen.len() implies #[trigger] last_start_in_week(
                            suf2,
                            week_start as int,
                            seen@[k2].0@,
                        ) is Some && seen@[k2].1 == epoch_key(
                            last_start_in_week(suf2, week_start as int, seen@[k2].0@)->0,
                        ) by {
                            if k2 < before.len() {
                                assert(seen@[k2] == before[k2]);
                                assert(last_start_in_week(suf, week_start as int, before[k2].0@) is Some);
                            }
                        }
                        assert forall|b: Seq<char>|
                            #[trigger] last_start_in_week(suf2, week_start as int, b) is Some implies exists|k2: int|
                            0 <= k2 < seen.len() && seen@[k2].0@ == b by {
                            if b == a@ {
                                assert(seen@[seen.len() - 1].0@ == b);
                            } else {
                                assert(last_start_in_week(suf, week_start as int, b) is Some);
                                let k2 = choose|k2: int| 0 <= k2 < before.len() && before[k2].0@ == b;
                                assert(seen@[k2] == before[k2]);
                            }
                        }
                    } else {
                        assert(last_start_in_week(suf, week_start as int, seen@[k as int].0@) is Some);
                        assert forall|b: Seq<char>|
                            #[trigger] last_start_in_week(suf2, week_start as int, b) is Some implies exists|k2: int|
                            0 <= k2 < seen.len() && seen@[k2].0@ == b by {
                            if b == a@ {
                                assert(seen@[k as int].0@ == b);
                            } else {
                                assert(last_start_in_week(suf, week_start as int, b) is Some);
                            }
                        }
                        assert forall|k2: int| 0 <= k2 < seen.len() implies #[trigger] last_start_in_week(
                            suf2,
                            week_start as int,
                            seen@[k2].0@,
                        ) is Some && seen@[k2].1 == epoch_key(
                            last_start_in_week(suf2, week_start as int, seen@[k2].0@)->0,
                        ) by {
                            assert(last_start_in_week(suf, week_start as int, seen@[k2].0@) is Some);
                        }
                    }
                } else {
                    assert forall|b: Seq<char>|
                        last_start_in_week(suf2, week_start as int, b) == last_start_in_week(
                            suf,
                            week_start as int,
                            b,
                        ) by {}
                }
            },
            LogLine::Stop(_) => {
                assert forall|b: Seq<char>|
                    last_start_in_week(suf2, week_start as int, b) == last_start_in_week(
                        suf,
                        week_start as int,
                        b,
                    ) by {}
            },
        }
        i = i - 1;
    }
    assert(es.subrange(0, es.len() as int) =~= es);
    let order = sorted_order(&seen);
    let mut out: Vec<String> = Vec::new();
    let mut k: usize = 0;
    while k < order.len()
        invariant
            order.len() == seen.len(),
            forall|q: int| 0 <= q < order.len() ==> order[q] < seen.len(),
            k <= order.len(),
            out.len() == k,
            forall|q: int| 0 <= q < k ==> #[trigger] out@[q] == seen@[order[q] as int].0,
        decreases order.len() - k,
    {
        out.push(seen[order[k]].0.clone());
        k = k + 1;
    }
    proof {
        assert forall|a: int, b: int| 0 <= a < b < out.len() implies out@[a]@ != out@[b]@ by {
            assert(out@[a] == seen@[order[a] as int].0);
            assert(out@[b] == seen@[order[b] as int].0);
            if order[a] < order[b] {
            } else {
            }
        }
        assert forall|q: int| 0 <= q < out.len() implies #[trigger] last_start_in_week(
            es,
            week_start as int,
            out@[q]@,
        ) is Some by {
            let m = order[q] as int;
            assert(out@[q] == seen@[m].0);
            assert(last_start_in_week(es, week_start as int, seen@[m].0@) is Some);
        }
        assert forall|a: Seq<char>|
            #[trigger] last_start_in_week(es, week_start as int, a) is Some implies exists|q: int|
            0 <= q < out.len() && out@[q]@ == a by {
            let m = choose|m: int| 0 <= m < seen.len() && seen@[m].0@ == a;
            assert(lists(order@, m));
            let q = choose|q: int| 0 <= q < order.len() && order[q] == m;
            assert(out@[q] == seen@[m].0);
        }
        assert forall|a: int, b: int| 0 <= a < b < out.len() implies last_start_in_week(
            es,
            week_start as int,
            out@[a]@,
        )->0 >= last_start_in_week(es, week_start as int, out@[b]@)->0 by {
            let ma = order[a] as int;
            let mb = order[b] as int;
            assert(out@[a] == seen@[ma].0);
            assert(out@[b] == seen@[mb].0);
            assert(last_start_in_week(es, week_start as int, seen@[ma].0@) is Some);
            assert(last_start_in_week(es, week_start as int, seen@[mb].0@) is Some);
        }
    }
    out
}

/// What to do while waiting for the prompt to answer.
#[derive(Clone, Copy, Debug, PartialEq, Eq)]
pub enum WaitStep {
    /// The prompt has answered: read its answer.
    Collect,
    /// Time is up: kill the prompt; the wait ends as a timeout.
    Kill,
    /// Wait a little longer.
    Wait,
}

/// The next step of the bounded wait for the prompt, after `elapsed_ms`
/// of `timeout_ms`.
pub fn wait_step(finished: bool, elapsed_ms: u64, timeout_ms: u64) -> (r: WaitStep)
    ensures
        finished ==> r == WaitStep::Collect,
        !finished && elapsed_ms >= timeout_ms ==> r == WaitStep::Kill,
        !finished && elapsed_ms < timeout_ms ==> r == WaitStep::Wait,
{
    if finished {
        WaitStep::Collect
    } else if elapsed_ms >= timeout_ms {
        WaitStep::Kill
    } else {
        WaitStep::Wait
    }
}

} // verus!
