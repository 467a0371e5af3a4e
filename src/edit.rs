//! The changes that the start and stop commands make to the log.

use vstd::prelude::*;
use crate::entry::{entry_text, format_line, Entry, LogLine};
use crate::clock::{is_datable, local_date, CivilDate};
use crate::log::{
    ends_open, ends_stopped, find_last_nonblank, last_entry, last_entry_of, last_nonblank,
    lemma_last_nonblank_bound, log_ends_open, log_ends_stopped, strings_view,
};
use crate::text::{digits_of, push_digits};
use crate::text::push_char;

verus! {

/// Activity recorded when none is given.
pub const DEFAULT_ACTIVITY: &'static str = "misc/unspecified";

/// A change to the log file.
#[derive(Debug, PartialEq, Eq)]
pub enum LogEdit {
    /// Leave the file as it is.
    Unchanged,
    /// Append this line and a newline.
    Append(String),
    /// Write this text in place of the whole file.
    Rewrite(String),
}

/// `parts` joined by `sep`.
pub open spec fn joined(parts: Seq<Seq<char>>, sep: Seq<char>) -> Seq<char>
    decreases parts.len(),
{
    if parts.len() == 0 {
        Seq::empty()
    } else if parts.len() == 1 {
        parts[0]
    } else {
        joined(parts.drop_last(), sep) + sep + parts.last()
    }
}

pub fn join(parts: &Vec<String>, sep: &str) -> (r: String)
    ensures
        r@ == joined(strings_view(parts@), sep@),
{
    let mut out = String::new();
    let mut i: usize = 0;
    while i < parts.len()
        invariant
            i <= parts.len(),
            out@ == joined(strings_view(parts@.take(i as int)), sep@),
        decreases parts.len() - i,
    {
        let ghost ps = strings_view(parts@.take(i + 1));
        assert(ps.drop_last() =~= strings_view(parts@.take(i as int)));
        assert(ps.last() == parts@[i as int]@);
        if i > 0 {
            out.append(sep);
        }
        out.append(parts[i].as_str());
        proof {
            if i == 0 {
                assert(out@ =~= joined(ps, sep@));
            }
        }
        i = i + 1;
    }
    assert(parts@.take(i as int) =~= parts@);
    out
}

/// The activity that the words of a start command name: the words joined
/// by spaces, or the default when there are none.
pub fn activity_of_words(words: &Vec<String>) -> (r: String)
    ensures
        words.len() == 0 ==> r@ == DEFAULT_ACTIVITY@,
        words.len() > 0 ==> r@ == joined(strings_view(words@), " "@),
{
    if words.len() == 0 {
        String::from_str(DEFAULT_ACTIVITY)
    } else {
        join(words, " ")
    }
}

/// The file text with its last line replaced by `line`: the other lines
/// joined by newlines, a newline, then `line` and a newline.
pub open spec fn with_last_line(lines: Seq<Seq<char>>, line: Seq<char>) -> Seq<char> {
    joined(lines.drop_last(), seq!['\n']) + seq!['\n'] + line + seq!['\n']
}

/// The change that recording a stop makes. When the log already ends with
/// a stop, a given time amends that stop and no time changes nothing;
/// otherwise a stop at the given time, or at `now`, is appended.
pub fn plan_stop(lines: &Vec<String>, at: Option<i64>, now: i64) -> (r: LogEdit)
    ensures
        ends_stopped(strings_view(lines@)) && at is None ==> r == LogEdit::Unchanged,
        ends_stopped(strings_view(lines@)) && at is Some ==> r is Rewrite && r->Rewrite_0@
            == with_last_line(strings_view(lines@), entry_text(Entry::Stop(at->0))),
        !ends_stopped(strings_view(lines@)) ==> r is Append && r->Append_0@ == entry_text(
            Entry::Stop(
                match at {
                    Some(t) => t,
                    None => now,
                },
            ),
        ),
{
    if log_ends_stopped(lines) {
        match at {
            None => LogEdit::Unchanged,
            Some(t) => {
                let line = format_line(&LogLine::Stop(t));
                LogEdit::Rewrite(replace_last_line(lines, &line))
            },
        }
    } else {
        let t = match at {
            Some(t) => t,
            None => now,
        };
        LogEdit::Append(format_line(&LogLine::Stop(t)))
    }
}

/// The file text with its last line replaced by `line`.
pub fn replace_last_line(lines: &Vec<String>, line: &String) -> (r: String)
    requires
        lines.len() > 0,
    ensures
        r@ == with_last_line(strings_view(lines@), line@),
{
    let mut head: Vec<String> = Vec::new();
    let mut i: usize = 0;
    while i + 1 < lines.len()
        invariant
            i < lines.len(),
            head@ == lines@.take(i as int),
        decreases lines.len() - i,
    {
        head.push(lines[i].clone());
        assert(head@ =~= lines@.take(i + 1));
        i = i + 1;
    }
    assert(strings_view(head@) =~= strings_view(lines@).drop_last());
    let mut out = join(&head, "\n");
    push_char(&mut out, '\n');
    out.append(line.as_str());
    push_char(&mut out, '\n');
    proof {
        reveal_strlit("\n");
        assert("\n"@ =~= seq!['\n']);
    }
    assert(out@ =~= with_last_line(strings_view(lines@), line@));
    out
}

/// The log ends with a start.
pub open spec fn open_start(ls: Seq<Seq<char>>) -> bool {
    ends_open(ls) && match last_entry_of(ls) {
        Some(Entry::Start(_, _)) => true,
        _ => false,
    }
}

/// The log ends with a stop later than `epoch`.
pub open spec fn later_stop(ls: Seq<Seq<char>>, epoch: i64) -> bool {
    ends_stopped(ls) && match last_entry_of(ls) {
        Some(Entry::Stop(e)) => epoch < e,
        _ => false,
    }
}

/// The change that recording a start at `epoch` makes, given whether the
/// log's last entry was made today: when the log ends with a start made
/// today, that start is replaced; when it ends with a later stop made
/// today, the start goes in just before that stop; otherwise the start is
/// appended.
pub fn started_edit(lines: &Vec<String>, epoch: i64, activity: &String, last_is_today: bool) -> (r:
    LogEdit)
    ensures
        ({
            let ls = strings_view(lines@);
            let line = entry_text(Entry::Start(epoch, activity@));
            if last_is_today && open_start(ls) {
                r is Rewrite && r->Rewrite_0@ == with_last_line(ls, line)
            } else if last_is_today && later_stop(ls, epoch) {
                r is Rewrite && r->Rewrite_0@ == with_last_line(
                    ls,
                    line + seq!['\n'] + ls[last_nonblank(ls)->0 as int],
                )
            } else {
                r is Append && r->Append_0@ == line
            }
        }),
{
    let line = format_line(&LogLine::Start(epoch, activity.clone()));
    proof {
        lemma_last_nonblank_bound(strings_view(lines@));
    }
    if last_is_today && log_ends_open(lines) {
        if let Some(LogLine::Start(_, _)) = last_entry(lines) {
            return LogEdit::Rewrite(replace_last_line(lines, &line));
        }
    }
    if last_is_today && log_ends_stopped(lines) {
        if let Some(LogLine::Stop(e)) = last_entry(lines) {
            if epoch < e {
                if let Some(k) = find_last_nonblank(lines) {
                    let mut both = line.clone();
                    push_char(&mut both, '\n');
                    both.append(lines[k].as_str());
                    return LogEdit::Rewrite(replace_last_line(lines, &both));
                }
            }
        }
    }
    LogEdit::Append(line)
}

/// Whether the last entry of the log has, as far as chrono says, the local
/// date `today`; `false` when there is no entry or its epoch is out of
/// chrono's range.
fn last_entry_is_today(lines: &Vec<String>, today: CivilDate) -> (r: bool)
    ensures
        r ==> last_entry_of(strings_view(lines@)) is Some,
{
    match last_entry(lines) {
        Some(l) => {
            let e = l.epoch();
            is_datable(e) && local_date(e) == Some(today)
        },
        None => false,
    }
}

/// The change that recording a start at a past time makes: `started_edit`
/// with the last entry's local date, as chrono gives it, compared to
/// `today`.
pub fn plan_started(lines: &Vec<String>, epoch: i64, activity: &String, today: CivilDate) -> (r:
    LogEdit)
    ensures
        ({
            let ls = strings_view(lines@);
            let line = entry_text(Entry::Start(epoch, activity@));
            ||| r is Append && r->Append_0@ == line
            ||| open_start(ls) && r is Rewrite && r->Rewrite_0@ == with_last_line(ls, line)
            ||| later_stop(ls, epoch) && r is Rewrite && r->Rewrite_0@ == with_last_line(
                ls,
                line + seq!['\n'] + ls[last_nonblank(ls)->0 as int],
            )
        }),
        !open_start(strings_view(lines@)) && !later_stop(strings_view(lines@), epoch) ==> r is Append,
{
    let today_flag = last_entry_is_today(lines, today);
    started_edit(lines, epoch, activity, today_flag)
}

/// Time worked as shown: `<H>h <M>m`, or `<M>m` under an hour.
pub open spec fn elapsed_display(secs: nat) -> Seq<char> {
    let minutes = secs / 60;
    if minutes / 60 > 0 {
        digits_of(minutes / 60) + seq!['h', ' '] + digits_of(minutes % 60) + seq!['m']
    } else {
        digits_of(minutes) + seq!['m']
    }
}

pub fn elapsed_text(secs: u64) -> (r: String)
    ensures
        r@ == elapsed_display(secs as nat),
{
    let minutes = secs / 60;
    let mut out = String::new();
    if minutes / 60 > 0 {
        push_digits(&mut out, (minutes / 60) as u128);
        push_char(&mut out, 'h');
        push_char(&mut out, ' ');
        push_digits(&mut out, (minutes % 60) as u128);
        push_char(&mut out, 'm');
    } else {
        push_digits(&mut out, minutes as u128);
        push_char(&mut out, 'm');
    }
    assert(out@ =~= elapsed_display(secs as nat));
    out
}

} // verus!
