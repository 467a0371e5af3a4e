//! The report over a log: starts and stops are paired last-in first-out,
//! and the time of each closed session is summed per activity and per
//! weekday.

use vstd::prelude::*;
use crate::entry::{Entry, LogLine};
use crate::log::entries_view;

verus! {

/// A closed session: start, end and activity.
pub type Session = (i64, i64, Seq<char>);

/// The pairing state: the open starts, most recent last, and the sessions
/// closed so far, in the order they were closed.
pub struct Pairing {
    pub open: Seq<(i64, Seq<char>)>,
    pub closed: Seq<Session>,
}

/// Closes the most recent open start, if any, at `at`.
pub open spec fn close_top(p: Pairing, at: i64) -> Pairing {
    if p.open.len() > 0 {
        Pairing {
            open: p.open.drop_last(),
            closed: p.closed.push((p.open.last().0, at, p.open.last().1)),
        }
    } else {
        p
    }
}

/// A start closes the session before it at its own time and opens a new
/// one; a stop closes the most recent open session.
pub open spec fn pair_step(p: Pairing, e: Entry) -> Pairing {
    match e {
        Entry::Start(t, a) => {
            let q = close_top(p, t);
            Pairing { open: q.open.push((t, a)), closed: q.closed }
        },
        Entry::Stop(t) => close_top(p, t),
    }
}

pub open spec fn pair_all(es: Seq<Entry>) -> Pairing
    decreases es.len(),
{
    if es.len() == 0 {
        Pairing { open: Seq::empty(), closed: Seq::empty() }
    } else {
        pair_step(pair_all(es.drop_last()), es.last())
    }
}

/// The pairing of the entries, with the most recent open start closed at
/// the virtual stop when one is given.
pub open spec fn pairing(es: Seq<Entry>, virtual_stop: Option<i64>) -> Pairing {
    match virtual_stop {
        Some(v) => close_top(pair_all(es), v),
        None => pair_all(es),
    }
}

/// Seconds that a session counts: none unless it ends after it starts.
pub open spec fn seconds(s: Session) -> nat {
    if s.1 > s.0 {
        (s.1 - s.0) as nat
    } else {
        0
    }
}

/// Weekday of the day that holds epoch `t`, Sunday 0 to Saturday 6; day 0
/// of the epoch was a Thursday.
pub open spec fn weekday_of(t: int) -> int {
    (t / 86400 + 4) % 7
}

pub open spec fn activity_seconds(ss: Seq<Session>, a: Seq<char>) -> nat
    decreases ss.len(),
{
    if ss.len() == 0 {
        0
    } else {
        activity_seconds(ss.drop_last(), a) + if ss.last().2 == a {
            seconds(ss.last())
        } else {
            0
        }
    }
}

pub open spec fn weekday_seconds(ss: Seq<Session>, d: int) -> nat
    decreases ss.len(),
{
    if ss.len() == 0 {
        0
    } else {
        weekday_seconds(ss.drop_last(), d) + if weekday_of(ss.last().0 as int) == d {
            seconds(ss.last())
        } else {
            0
        }
    }
}

pub open spec fn total_seconds(ss: Seq<Session>) -> nat
    decreases ss.len(),
{
    if ss.len() == 0 {
        0
    } else {
        total_seconds(ss.drop_last()) + seconds(ss.last())
    }
}

/// The rows `rows` list each activity with time in `ss` once, with that
/// time, largest first.
pub open spec fn rows_match(rows: Seq<(String, u128)>, ss: Seq<Session>) -> bool {
    &&& forall|i: int|
        0 <= i < rows.len() ==> rows[i].1 == activity_seconds(ss, #[trigger] rows[i].0@)
            && rows[i].1 > 0
    &&& forall|i: int, j: int| 0 <= i < j < rows.len() ==> rows[i].0@ != rows[j].0@
    &&& forall|a: Seq<char>|
        #[trigger] activity_seconds(ss, a) > 0 ==> exists|i: int|
            0 <= i < rows.len() && rows[i].0@ == a
}

pub open spec fn rows_sorted(rows: Seq<(String, u128)>) -> bool {
    forall|i: int, j: int| 0 <= i < j < rows.len() ==> rows[i].1 >= rows[j].1
}

/// What the report holds: time per activity, largest first; time per
/// weekday; the sum of both; and whether a start is left open.
pub struct Report {
    pub activities: Vec<(String, u128)>,
    pub weekdays: Vec<u128>,
    pub total: u128,
    pub work_in_progress: bool,
}

impl Report {
    pub open spec fn describes(&self, es: Seq<Entry>, virtual_stop: Option<i64>) -> bool {
        let p = pairing(es, virtual_stop);
        &&& self.work_in_progress == (p.open.len() > 0)
        &&& self.weekdays.len() == 7
        &&& forall|d: int| 0 <= d < 7 ==> self.weekdays[d] == weekday_seconds(p.closed, d)
        &&& self.total == total_seconds(p.closed)
        &&& rows_match(self.activities@, p.closed)
        &&& rows_sorted(self.activities@)
    }
}

struct Tally {
    acts: Vec<(String, u128)>,
    dow: Vec<u128>,
    total: u128,
}

impl Tally {
    spec fn matches(&self, ss: Seq<Session>) -> bool {
        &&& self.dow.len() == 7
        &&& forall|d: int| 0 <= d < 7 ==> self.dow[d] == weekday_seconds(ss, d)
        &&& self.total == total_seconds(ss)
        &&& ss.len() <= u64::MAX + 1
        &&& self.total <= ss.len() * u64::MAX
        &&& forall|i: int|
            0 <= i < self.acts.len() ==> self.acts[i].1 == activity_seconds(
                ss,
                #[trigger] self.acts[i].0@,
            ) && self.acts[i].1 > 0
        &&& forall|i: int, j: int|
            0 <= i < j < self.acts.len() ==> self.acts[i].0@ != self.acts[j].0@
        &&& forall|a: Seq<char>|
            #[trigger] activity_seconds(ss, a) > 0 ==> exists|i: int|
                0 <= i < self.acts.len() && self.acts[i].0@ == a
    }
}

pub proof fn lemma_parts_le_total(ss: Seq<Session>, a: Seq<char>, d: int)
    ensures
        activity_seconds(ss, a) <= total_seconds(ss),
        weekday_seconds(ss, d) <= total_seconds(ss),
    decreases ss.len(),
{
    if ss.len() > 0 {
        lemma_parts_le_total(ss.drop_last(), a, d);
    }
}

/// Weekday of `t`, computed on a shifted, non-negative value.
fn weekday_index(t: i64) -> (r: usize)
    ensures
        r < 7,
        r as int == weekday_of(t as int),
{
    let shift: i128 = 9223372036855065600;
    let x: i128 = t as i128 + shift;
    let days: i128 = x / 86400;
    let r = ((days + 4) % 7) as usize;
    assert(shift == 15250284452472 * 604800);
    assert(x / 86400 == (t as int) / 86400 + 15250284452472 * 7) by (nonlinear_arith)
        requires
            x == t + 15250284452472 * 604800,
    ;
    assert(((t as int) / 86400 + 15250284452472 * 7 + 4) % 7 == ((t as int) / 86400 + 4) % 7)
        by (nonlinear_arith);
    r
}

fn add_session(tally: &mut Tally, start: i64, end: i64, act: String, Ghost(ss): Ghost<Seq<Session>>)
    requires
        old(tally).matches(ss),
        ss.len() <= u64::MAX,
    ensures
        final(tally).matches(ss.push((start, end, act@))),
{
    let ghost s: Session = (start, end, act@);
    let ghost ns = ss.push(s);
    assert(ns.drop_last() =~= ss);
    if end <= start {
        assert forall|a: Seq<char>| activity_seconds(ns, a) == activity_seconds(ss, a) by {}
        assert forall|d: int| weekday_seconds(ns, d) == weekday_seconds(ss, d) by {}
        assert(tally.total <= ns.len() * u64::MAX) by (nonlinear_arith)
            requires
                tally.total <= ss.len() * u64::MAX,
                ns.len() == ss.len() + 1,
        ;
        return;
    }
    let dur: u128 = (end as i128 - start as i128) as u128;
    assert(dur == seconds(s));
    assert(dur <= u64::MAX);
    assert(tally.total + dur <= ns.len() * u64::MAX) by (nonlinear_arith)
        requires
            tally.total <= ss.len() * u64::MAX,
            ns.len() == ss.len() + 1,
            dur <= u64::MAX,
    ;
    assert(ns.len() * u64::MAX <= (u64::MAX + 1) * u64::MAX) by (nonlinear_arith)
        requires
            ns.len() <= u64::MAX + 1,
    ;
    let w = weekday_index(start);
    proof {
        lemma_parts_le_total(ss, act@, w as int);
    }
    let ghost old_dow = tally.dow@;
    let ghost old_total = tally.total;
    let old_w = tally.dow[w];
    tally.dow.set(w, old_w + dur);
    tally.total = tally.total + dur;
    assert(ns.last() == s);
    assert forall|d: int| 0 <= d < 7 implies tally.dow[d] == weekday_seconds(ns, d) by {
        assert(weekday_seconds(ns, d) == weekday_seconds(ss, d) + if weekday_of(start as int)
            == d {
            seconds(s)
        } else {
            0
        });
        assert(old_dow[d] == weekday_seconds(ss, d));
        if d != w {
            assert(tally.dow[d] == old_dow[d]);
        }
    }
    let mut i: usize = 0;
    let n = tally.acts.len();
    let mut found = false;
    while i < n && !found
        invariant
            n == tally.acts.len(),
            i <= n,
            found ==> i < n && tally.acts@[i as int].0@ == act@,
            !found ==> forall|k: int| 0 <= k < i ==> tally.acts@[k].0@ != act@,
        decreases n - i + (if found { 0int } else { 1int }),
    {
        if tally.acts[i].0 == act {
            found = true;
        } else {
            i = i + 1;
        }
    }
    let ghost old_acts = tally.acts@;
    if found {
        let cur = tally.acts[i].1;
        assert(cur == activity_seconds(ss, act@));
        assert(cur <= old_total);
        let name = tally.acts[i].0.clone();
        tally.acts.set(i, (name, cur + dur));
        assert forall|k: int| 0 <= k < tally.acts.len() implies tally.acts[k].1
            == activity_seconds(ns, #[trigger] tally.acts[k].0@) && tally.acts[k].1 > 0 by {
            if k != i {
                assert(tally.acts[k] == old_acts[k]);
            }
        }
        assert forall|a: Seq<char>| #[trigger] activity_seconds(ns, a) > 0 implies exists|k: int|
            0 <= k < tally.acts.len() && tally.acts[k].0@ == a by {
            if a == act@ {
                assert(tally.acts[i as int].0@ == a);
            } else {
                assert(activity_seconds(ss, a) > 0);
                let k = choose|k: int| 0 <= k < old_acts.len() && old_acts[k].0@ == a;
                assert(tally.acts[k].0@ == a);
            }
        }
    } else {
        tally.acts.push((act, dur));
        assert forall|k: int| 0 <= k < tally.acts.len() implies tally.acts[k].1
            == activity_seconds(ns, #[trigger] tally.acts[k].0@) && tally.acts[k].1 > 0 by {
            if k < n {
                assert(tally.acts[k] == old_acts[k]);
                assert(activity_seconds(ss, s.2) == 0) by {
                    if activity_seconds(ss, s.2) > 0 {
                        let j = choose|j: int| 0 <= j < old_acts.len() && old_acts[j].0@ == s.2;
                    }
                }
            } else {
                assert(activity_seconds(ss, s.2) == 0) by {
                    if activity_seconds(ss, s.2) > 0 {
                        let j = choose|j: int| 0 <= j < old_acts.len() && old_acts[j].0@ == s.2;
                    }
                }
            }
        }
        assert forall|a: Seq<char>| #[trigger] activity_seconds(ns, a) > 0 implies exists|k: int|
            0 <= k < tally.acts.len() && tally.acts[k].0@ == a by {
            if a == s.2 {
                assert(tally.acts[n as int].0@ == a);
            } else {
                assert(activity_seconds(ss, a) > 0);
                let k = choose|k: int| 0 <= k < old_acts.len() && old_acts[k].0@ == a;
                assert(tally.acts[k].0@ == a);
            }
        }
    }
}

pub open spec fn stack_view(v: Seq<(i64, String)>) -> Seq<(i64, Seq<char>)> {
    v.map_values(|x: (i64, String)| (x.0, x.1@))
}

fn close_top_exec(
    stack: &mut Vec<(i64, String)>,
    tally: &mut Tally,
    at: i64,
    Ghost(p): Ghost<Pairing>,
)
    requires
        stack_view(old(stack)@) == p.open,
        old(tally).matches(p.closed),
        p.closed.len() <= u64::MAX,
    ensures
        stack_view(final(stack)@) == close_top(p, at).open,
        final(tally).matches(close_top(p, at).closed),
        close_top(p, at).closed.len() <= p.closed.len() + 1,
{
    let ghost before = stack@;
    match stack.pop() {
        Some((start, act)) => {
            assert(stack_view(stack@) =~= p.open.drop_last());
            assert(p.open.last() == (start, act@));
            add_session(tally, start, at, act, Ghost(p.closed));
        },
        None => {},
    }
}

pub(crate) open spec fn lists(order: Seq<usize>, m: int) -> bool {
    exists|k: int| 0 <= k < order.len() && order[k] == m
}

/// The indices of `rows` ordered by seconds, largest first; equal seconds
/// keep their order.
pub(crate) fn sorted_order(rows: &Vec<(String, u128)>) -> (order: Vec<usize>)
    ensures
        order.len() == rows.len(),
        forall|k: int| 0 <= k < order.len() ==> order[k] < rows.len(),
        forall|a: int, b: int| 0 <= a < b < order.len() ==> order[a] != order[b],
        forall|a: int, b: int|
            0 <= a < b < order.len() ==> rows@[order[a] as int].1 >= rows@[order[b] as int].1,
        forall|m: int| 0 <= m < rows.len() ==> #[trigger] lists(order@, m),
{
    let n = rows.len();
    let mut order: Vec<usize> = Vec::new();
    let ghost mut pos: Seq<int> = Seq::empty();
    let mut j: usize = 0;
    while j < n
        invariant
            n == rows.len(),
            j <= n,
            order.len() == j,
            pos.len() == j,
            forall|k: int| 0 <= k < order.len() ==> order[k] < j,
            forall|a: int, b: int| 0 <= a < b < order.len() ==> order[a] != order[b],
            forall|a: int, b: int|
                0 <= a < b < order.len() ==> rows@[order[a] as int].1 >= rows@[order[b] as int].1,
            forall|m: int| 0 <= m < j ==> 0 <= #[trigger] pos[m] < j && order[pos[m]] == m,
        decreases n - j,
    {
        let x = rows[j].1;
        let mut p: usize = 0;
        while p < j && rows[order[p]].1 >= x
            invariant
                n == rows.len(),
                j < n,
                order.len() == j,
                p <= j,
                forall|k: int| 0 <= k < order.len() ==> order[k] < j,
                forall|k: int| 0 <= k < p ==> rows@[order[k] as int].1 >= x,
            decreases j - p,
        {
            p = p + 1;
        }
        let ghost o = order@;
        proof {
            o.insert_ensures(p as int, j);
        }
        order.insert(p, j);
        proof {
            assert forall|a: int, b: int| 0 <= a < b < order.len() implies rows@[order[a] as int].1
                >= rows@[order[b] as int].1 by {
                if b < p {
                } else if b == p {
                } else if a < p {
                    assert(order[b] == o[b - 1]);
                } else if a == p {
                    assert(order[b] == o[b - 1]);
                    assert(rows@[o[p as int] as int].1 < x);
                } else {
                    assert(order[b] == o[b - 1]);
                    assert(order[a] == o[a - 1]);
                }
            }
            assert forall|a: int, b: int| 0 <= a < b < order.len() implies order[a] != order[b] by {
                if a == p || b == p {
                    let other = if a == p {
                        b
                    } else {
                        a
                    };
                    let ko = if other < p {
                        other
                    } else {
                        other - 1
                    };
                    assert(order[other] == o[ko]);
                } else {
                    let ka = if a < p {
                        a
                    } else {
                        a - 1
                    };
                    let kb = if b < p {
                        b
                    } else {
                        b - 1
                    };
                    assert(order[a] == o[ka]);
                    assert(order[b] == o[kb]);
                }
            }
            let old_pos = pos;
            pos =
            Seq::new(
                (j + 1) as nat,
                |m: int|
                    if m == j {
                        p as int
                    } else if old_pos[m] >= p {
                        old_pos[m] + 1
                    } else {
                        old_pos[m]
                    },
            );
            assert forall|m: int| 0 <= m < j + 1 implies 0 <= #[trigger] pos[m] < j + 1 && order[pos[m]]
                == m by {
                if m < j {
                    if old_pos[m] >= p {
                        assert(order[old_pos[m] + 1] == o[old_pos[m]]);
                    } else {
                        assert(order[old_pos[m]] == o[old_pos[m]]);
                    }
                }
            }
        }
        j = j + 1;
    }
    proof {
        assert forall|m: int| 0 <= m < rows.len() implies #[trigger] lists(order@, m) by {
            assert(order[pos[m]] == m);
        }
    }
    order
}

/// The rows ordered by seconds, largest first; rows with equal seconds keep
/// their order.
fn order_rows(rows: Vec<(String, u128)>, Ghost(ss): Ghost<Seq<Session>>) -> (r: Vec<
    (String, u128),
>)
    requires
        forall|i: int|
            0 <= i < rows.len() ==> rows[i].1 == activity_seconds(ss, #[trigger] rows[i].0@)
                && rows[i].1 > 0,
        forall|i: int, j: int| 0 <= i < j < rows.len() ==> rows[i].0@ != rows[j].0@,
        forall|a: Seq<char>|
            #[trigger] activity_seconds(ss, a) > 0 ==> exists|i: int|
                0 <= i < rows.len() && rows[i].0@ == a,
    ensures
        rows_match(r@, ss),
        rows_sorted(r@),
{
    let order = sorted_order(&rows);
    let mut out: Vec<(String, u128)> = Vec::new();
    let mut k: usize = 0;
    while k < order.len()
        invariant
            order.len() == rows.len(),
            forall|q: int| 0 <= q < order.len() ==> order[q] < rows.len(),
            k <= order.len(),
            out.len() == k,
            forall|q: int| 0 <= q < k ==> #[trigger] out@[q] == rows@[order[q] as int],
        decreases order.len() - k,
    {
        let i = order[k];
        out.push((rows[i].0.clone(), rows[i].1));
        k = k + 1;
    }
    proof {
        assert forall|i: int| 0 <= i < out.len() implies out@[i].1 == activity_seconds(
            ss,
            #[trigger] out@[i].0@,
        ) && out@[i].1 > 0 by {
            let m = order[i] as int;
            assert(out@[i] == rows@[m]);
            assert(rows[m].1 == activity_seconds(ss, rows[m].0@) && rows[m].1 > 0);
        }
        assert forall|a: int, b: int| 0 <= a < b < out.len() implies out@[a].0@ != out@[b].0@ by {
            assert(out@[a] == rows@[order[a] as int]);
            assert(out@[b] == rows@[order[b] as int]);
            if order[a] < order[b] {
            } else {
            }
        }
        assert forall|a: Seq<char>| #[trigger] activity_seconds(ss, a) > 0 implies exists|i: int|
            0 <= i < out.len() && out@[i].0@ == a by {
            let m = choose|m: int| 0 <= m < rows.len() && rows@[m].0@ == a;
            assert(lists(order@, m));
            let q = choose|q: int| 0 <= q < order.len() && order[q] == m;
            assert(out@[q] == rows@[m]);
        }
        assert forall|a: int, b: int| 0 <= a < b < out.len() implies out@[a].1 >= out@[b].1 by {
            assert(out@[a] == rows@[order[a] as int]);
            assert(out@[b] == rows@[order[b] as int]);
        }
    }
    out
}

/// Pairs the entries last-in first-out and sums the closed sessions per
/// activity and per weekday. With a virtual stop, the most recent open
/// start is closed there for the report.
pub fn process_log_for_report(lines: &[(usize, LogLine)], virtual_stop: Option<i64>) -> (r:
    Report)
    ensures
        r.describes(entries_view(lines@), virtual_stop),
{
    let mut stack: Vec<(i64, String)> = Vec::new();
    let mut dow: Vec<u128> = Vec::new();
    let mut d: usize = 0;
    while d < 7
        invariant
            d <= 7,
            dow.len() == d,
            forall|k: int| 0 <= k < d ==> dow@[k] == 0,
        decreases 7 - d,
    {
        dow.push(0);
        d = d + 1;
    }
    let mut tally = Tally { acts: Vec::new(), dow, total: 0 };
    let ghost empty = Pairing { open: Seq::empty(), closed: Seq::empty() };
    assert(stack_view(stack@) =~= empty.open);
    let mut i: usize = 0;
    while i < lines.len()
        invariant
            i <= lines.len(),
            stack_view(stack@) == pair_all(entries_view(lines@.take(i as int))).open,
            tally.matches(pair_all(entries_view(lines@.take(i as int))).closed),
            pair_all(entries_view(lines@.take(i as int))).closed.len() <= i,
        decreases lines.len() - i,
    {
        let ghost p = pair_all(entries_view(lines@.take(i as int)));
        let ghost es = entries_view(lines@.take(i + 1));
        assert(es.drop_last() =~= entries_view(lines@.take(i as int)));
        assert(es.last() == lines@[i as int].1@);
        match &lines[i].1 {
            LogLine::Start(e, a) => {
                close_top_exec(&mut stack, &mut tally, *e, Ghost(p));
                let ghost q = close_top(p, *e);
                let ghost sv = stack@;
                stack.push((*e, a.clone()));
                assert(stack_view(stack@) =~= stack_view(sv).push((*e, a@)));
            },
            LogLine::Stop(e) => {
                close_top_exec(&mut stack, &mut tally, *e, Ghost(p));
            },
        }
        i = i + 1;
    }
    assert(lines@.take(i as int) =~= lines@);
    let ghost p = pair_all(entries_view(lines@));
    if let Some(v) = virtual_stop {
        close_top_exec(&mut stack, &mut tally, v, Ghost(p));
    }
    let work_in_progress = stack.len() > 0;
    let ghost closed = pairing(entries_view(lines@), virtual_stop).closed;
    assert(tally.matches(closed));
    let Tally { acts, dow, total } = tally;
    assert forall|i: int| 0 <= i < acts.len() implies acts[i].1 == activity_seconds(
        closed,
        #[trigger] acts[i].0@,
    ) && acts[i].1 > 0 by {
        assert(acts@[i] == tally.acts@[i]);
    }
    let activities = order_rows(acts, Ghost(pairing(entries_view(lines@), virtual_stop).closed));
    Report { activities, weekdays: dow, total, work_in_progress }
}

proof fn lemma_one_session(ss: Seq<Session>, t0: i64, t1: i64, a: Seq<char>)
    requires
        ss == seq![(t0, t1, a)],
        t0 < t1,
    ensures
        activity_seconds(ss, a) == t1 - t0,
        forall|b: Seq<char>| b != a ==> activity_seconds(ss, b) == 0,
        total_seconds(ss) == t1 - t0,
        forall|d: int|
            weekday_seconds(ss, d) == if d == weekday_of(t0 as int) {
                t1 - t0
            } else {
                0
            },
{
    assert(ss.drop_last() =~= Seq::<Session>::empty());
    assert forall|b: Seq<char>| b != a implies activity_seconds(ss, b) == 0 by {
        assert(activity_seconds(ss.drop_last(), b) == 0);
    }
    assert forall|d: int|
        weekday_seconds(ss, d) == if d == weekday_of(t0 as int) {
            t1 - t0
        } else {
            0
        } by {
        assert(weekday_seconds(ss.drop_last(), d) == 0);
    }
    assert(activity_seconds(ss.drop_last(), a) == 0);
    assert(total_seconds(ss.drop_last()) == 0);
}

proof fn lemma_single_row(r: &Report, ss: Seq<Session>, t0: i64, t1: i64, a: Seq<char>)
    requires
        ss == seq![(t0, t1, a)],
        t0 < t1,
        rows_match(r.activities@, ss),
        r.total == total_seconds(ss),
        r.weekdays.len() == 7,
        forall|d: int| 0 <= d < 7 ==> r.weekdays[d] == weekday_seconds(ss, d),
    ensures
        r.activities.len() == 1,
        r.activities[0].0@ == a,
        r.activities[0].1 == t1 - t0,
        r.total == t1 - t0,
        forall|d: int|
            0 <= d < 7 ==> r.weekdays[d] == if d == weekday_of(t0 as int) {
                t1 - t0
            } else {
                0
            },
{
    lemma_one_session(ss, t0, t1, a);
    let rows = r.activities@;
    assert(activity_seconds(ss, a) > 0);
    let k = choose|k: int| 0 <= k < rows.len() && rows[k].0@ == a;
    assert forall|i: int| 0 <= i < rows.len() implies rows[i].0@ == a by {
        assert(rows[i].1 == activity_seconds(ss, rows[i].0@));
    }
    if rows.len() > 1 {
        assert(rows[0].0@ == a && rows[1].0@ == a);
    }
    assert(rows[0].0@ == a);
    assert forall|d: int| 0 <= d < 7 implies r.weekdays[d] == if d == weekday_of(t0 as int) {
        t1 - t0
    } else {
        0
    } by {
        assert(r.weekdays[d] == weekday_seconds(ss, d));
    }
}

proof fn lemma_pair_start(t0: i64, a: Seq<char>)
    ensures
        pair_all(seq![Entry::Start(t0, a)]).open =~= seq![(t0, a)],
        pair_all(seq![Entry::Start(t0, a)]).closed =~= Seq::<Session>::empty(),
{
    let es = seq![Entry::Start(t0, a)];
    assert(es.drop_last() =~= Seq::<Entry>::empty());
    let p0 = pair_all(es.drop_last());
    assert(p0.open.len() == 0);
    assert(pair_all(es) == pair_step(p0, Entry::Start(t0, a)));
}

/// One start at `t0` and one stop at `t1 > t0` give one activity with all
/// of the time, `t1 - t0` seconds, all on the weekday of `t0`, and no work
/// in progress.
pub proof fn lemma_report_one_session(r: &Report, t0: i64, t1: i64, a: Seq<char>)
    requires
        t0 < t1,
        r.describes(seq![Entry::Start(t0, a), Entry::Stop(t1)], None),
    ensures
        !r.work_in_progress,
        r.activities.len() == 1,
        r.activities[0].0@ == a,
        r.activities[0].1 == r.total,
        r.total == t1 - t0,
        forall|d: int|
            0 <= d < 7 ==> r.weekdays[d] == if d == weekday_of(t0 as int) {
                t1 - t0
            } else {
                0
            },
{
    let es = seq![Entry::Start(t0, a), Entry::Stop(t1)];
    assert(es.drop_last() =~= seq![Entry::Start(t0, a)]);
    lemma_pair_start(t0, a);
    let p1 = pair_all(seq![Entry::Start(t0, a)]);
    assert(pair_all(es) == pair_step(p1, Entry::Stop(t1)));
    let p = pairing(es, None);
    assert(p.closed =~= seq![(t0, t1, a)]);
    assert(p.open.len() == 0);
    lemma_single_row(r, p.closed, t0, t1, a);
}

/// A lone open start at `t0` with a virtual stop at `t1 > t0` reports as
/// the closed session would: one activity with `t1 - t0` seconds, on the
/// weekday of `t0`, and no work in progress.
pub proof fn lemma_report_virtual_stop(r: &Report, t0: i64, t1: i64, a: Seq<char>)
    requires
        t0 < t1,
        r.describes(seq![Entry::Start(t0, a)], Some(t1)),
    ensures
        !r.work_in_progress,
        r.activities.len() == 1,
        r.activities[0].0@ == a,
        r.activities[0].1 == r.total,
        r.total == t1 - t0,
        forall|d: int|
            0 <= d < 7 ==> r.weekdays[d] == if d == weekday_of(t0 as int) {
                t1 - t0
            } else {
                0
            },
{
    let es = seq![Entry::Start(t0, a)];
    lemma_pair_start(t0, a);
    let p = pairing(es, Some(t1));
    assert(p.closed =~= seq![(t0, t1, a)]);
    assert(p.open.len() == 0);
    lemma_single_row(r, p.closed, t0, t1, a);
}

/// A lone open start without a virtual stop reports no activity and no
/// time, with work in progress.
pub proof fn lemma_report_open_start(r: &Report, t0: i64, a: Seq<char>)
    requires
        r.describes(seq![Entry::Start(t0, a)], None),
    ensures
        r.work_in_progress,
        r.activities.len() == 0,
        r.total == 0,
        forall|d: int| 0 <= d < 7 ==> r.weekdays[d] == 0,
{
    let es = seq![Entry::Start(t0, a)];
    lemma_pair_start(t0, a);
    let p = pairing(es, None);
    assert(p.open.len() == 1);
    assert forall|d: int| 0 <= d < 7 implies r.weekdays[d] == 0 by {
        assert(weekday_seconds(p.closed, d) == 0);
    }
    if r.activities.len() > 0 {
        assert(r.activities@[0].1 == activity_seconds(p.closed, r.activities@[0].0@));
    }
}

} // verus!
