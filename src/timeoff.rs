//! When to stop for an average of eight hours a day.

use vstd::prelude::*;
use crate::entry::{Entry, LogLine};
use crate::log::{
    ends_stopped, entries_view, find_last_nonblank, last_nonblank, log_ends_stopped, strings_view,
};
use crate::report::{pair_all, pair_step, seconds, total_seconds, Session};

verus! {

/// Day number of an epoch.
pub open spec fn day_of(t: int) -> int {
    t / 86400
}

/// The days on which sessions start, each once, in order of first start.
pub open spec fn session_days(ss: Seq<Session>) -> Seq<int>
    decreases ss.len(),
{
    if ss.len() == 0 {
        Seq::empty()
    } else {
        let prev = session_days(ss.drop_last());
        let d = day_of(ss.last().0 as int);
        if prev.contains(d) {
            prev
        } else {
            prev.push(d)
        }
    }
}

/// The entries with the open start, if the last entry is one, stopped at
/// `now`.
pub open spec fn closed_at(es: Seq<Entry>, now: i64) -> Seq<Entry> {
    if es.len() > 0 && es.last() is Start {
        es.push(Entry::Stop(now))
    } else {
        es
    }
}

/// The answer of the time-off command.
#[derive(Debug, PartialEq, Eq)]
pub enum Timeoff {
    /// No session at all.
    NoWork,
    /// The average is already eight hours a day or more.
    Done,
    /// Stop at `epoch`; `hundredths` of an hour remain over `days` days.
    StopAt { epoch: i128, hundredths: u128, days: usize },
}

/// Hundredths of an hour still owed for eight hours on each of `days`
/// days after `secs` seconds of work, both truncated to hundredths.
pub open spec fn owed_hundredths(days: nat, secs: nat) -> int {
    800 * days - secs / 36
}

/// Pairs the entries as the report does, with an open start closed at
/// `now`, and tells when to stop for eight hours a day on average over the
/// days that sessions started on.
pub fn timeoff_plan(entries: &[(usize, LogLine)], now: i64) -> (r: Timeoff)
    requires
        entries.len() < usize::MAX,
    ensures
        ({
            let ss = pair_all(closed_at(entries_view(entries@), now)).closed;
            let days = session_days(ss).len();
            let owed = owed_hundredths(days, total_seconds(ss));
            &&& days == 0 ==> r == Timeoff::NoWork
            &&& days > 0 && owed <= 0 ==> r == Timeoff::Done
            &&& days > 0 && owed > 0 ==> r == (Timeoff::StopAt {
                epoch: (now + 36 * owed) as i128,
                hundredths: owed as u128,
                days: days as usize,
            })
        }),
{
    let ghost es = entries_view(entries@);
    let ghost all = closed_at(es, now);
    let mut stack: Vec<i64> = Vec::new();
    let mut total: u128 = 0;
    let mut days: Vec<i64> = Vec::new();
    let n = entries.len();
    let extra = n > 0 && matches!(entries[n - 1].1, LogLine::Start(_, _));
    let m: usize = if extra {
        n + 1
    } else {
        n
    };
    assert(all.len() == m);
    let mut i: usize = 0;
    while i < m
        invariant
            i <= m,
            m == all.len(),
            n == entries.len(),
            all == closed_at(es, now),
            es == entries_view(entries@),
            extra == (n > 0 && es.last() is Start),
            stack@ == pair_all(all.take(i as int)).open.map_values(|p: (i64, Seq<char>)| p.0),
            total == total_seconds(pair_all(all.take(i as int)).closed),
            total <= i * 0xFFFF_FFFF_FFFF_FFFFu128,
            pair_all(all.take(i as int)).closed.len() <= i,
            days@.map_values(|d: i64| d as int) == session_days(pair_all(all.take(i as int)).closed),
        decreases m - i,
    {
        let ghost p = pair_all(all.take(i as int));
        assert(all.take(i + 1).drop_last() =~= all.take(i as int));
        let (t, opens) = if i < n {
            assert(all[i as int] == entries@[i as int].1@);
            match &entries[i].1 {
                LogLine::Start(t, _) => (*t, true),
                LogLine::Stop(t) => (*t, false),
            }
        } else {
            assert(all[i as int] == Entry::Stop(now));
            (now, false)
        };
        assert(all.take(i + 1).last() == all[i as int]);
        let ghost q = pair_all(all.take(i + 1));
        assert(q == pair_step(p, all[i as int]));
        assert(all[i as int] == (if opens {
            Entry::Start(t, all[i as int]->Start_1)
        } else {
            Entry::Stop(t)
        }));
        let ghost sv = stack@;
        match stack.pop() {
            Some(s) => {
                assert(stack@ =~= p.open.drop_last().map_values(|q: (i64, Seq<char>)| q.0));
                assert(s == p.open.last().0);
                assert(q.closed =~= p.closed.push((s, t, p.open.last().1)));
                assert(q.closed.drop_last() =~= p.closed);
                let ghost old_total = total;
                if t > s {
                    let dur = (t as i128 - s as i128) as u128;
                    assert(total + dur <= (i + 1) * 0xFFFF_FFFF_FFFF_FFFFu128) by (nonlinear_arith)
                        requires
                            total <= i * 0xFFFF_FFFF_FFFF_FFFFu128,
                            dur <= 0xFFFF_FFFF_FFFF_FFFFu128,
                    ;
                    total = total + dur;
                }
                assert(total == total_seconds(q.closed)) by {
                    assert(total_seconds(q.closed) == total_seconds(p.closed) + seconds(
                        q.closed.last(),
                    ));
                }
                let shifted: i128 = s as i128 + 9223372036854806400;
                let d: i64 = (shifted / 86400 - 106751991167301) as i64;
                assert(shifted / 86400 == (s as int) / 86400 + 106751991167301) by (nonlinear_arith)
                    requires
                        shifted == s + 106751991167301 * 86400,
                ;
                assert(d as int == day_of(s as int));
                let ghost dv = days@.map_values(|x: i64| x as int);
                let mut k: usize = 0;
                let mut seen = false;
                while k < days.len() && !seen
                    invariant
                        k <= days.len(),
                        dv == days@.map_values(|x: i64| x as int),
                        seen ==> k < days.len() && days@[k as int] == d,
                        !seen ==> forall|q: int| 0 <= q < k ==> days@[q] != d,
                    decreases days.len() - k + (if seen {
                        0int
                    } else {
                        1int
                    }),
                {
                    if days[k] == d {
                        seen = true;
                    } else {
                        k = k + 1;
                    }
                }
                if seen {
                    assert(dv[k as int] == d as int);
                    assert(dv.contains(d as int));
                } else {
                    assert(!dv.contains(d as int)) by {
                        if dv.contains(d as int) {
                            let q = choose|q: int| 0 <= q < dv.len() && dv[q] == d as int;
                            assert(days@[q] == d);
                        }
                    }
                    days.push(d);
                    assert(days@.map_values(|x: i64| x as int) =~= dv.push(d as int));
                }
            },
            None => {
                assert(p.open.len() == 0);
                assert(q.closed == p.closed);
            },
        }
        if opens {
            stack.push(t);
        }
        proof {
            let q = pair_all(all.take(i + 1));
            assert(stack@ =~= q.open.map_values(|x: (i64, Seq<char>)| x.0));
        }
        i = i + 1;
    }
    assert(all.take(m as int) =~= all);
    if days.len() == 0 {
        return Timeoff::NoWork;
    }
    let worked = total / 36;
    let target: u128 = 800 * days.len() as u128;
    if target <= worked {
        return Timeoff::Done;
    }
    let owed = target - worked;
    assert(owed <= 800 * days.len());
    let later = now as i128 + 36 * owed as i128;
    Timeoff::StopAt { epoch: later, hundredths: owed, days: days.len() }
}

/// Whether the time-off command must record a start first: when the log
/// has no non-blank line or ends with a stop.
pub fn needs_start(lines: &Vec<String>) -> (r: bool)
    ensures
        r == (last_nonblank(strings_view(lines@)) is None || ends_stopped(strings_view(lines@))),
{
    find_last_nonblank(lines).is_none() || log_ends_stopped(lines)
}

} // verus!
