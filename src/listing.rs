//! The report as text lines.

use vstd::prelude::*;
use crate::entry::LogLine;
use crate::log::entries_view;
use crate::report::{lemma_parts_le_total, pairing, process_log_for_report, Report};
use crate::text::{digit_char, digits_of, push_char, push_digits};

verus! {

/// `n` hundredths as `<units>.<two digits>`.
pub open spec fn hundredths_text(n: nat) -> Seq<char> {
    digits_of(n / 100) + seq!['.', digit_char((n / 10) % 10), digit_char(n % 10)]
}

/// `n` tenths as `<units>.<digit>`.
pub open spec fn tenths_text(n: nat) -> Seq<char> {
    digits_of(n / 10) + seq!['.', digit_char(n % 10)]
}

/// Hours in `secs`, truncated to hundredths.
pub open spec fn hour_hundredths(secs: nat) -> nat {
    secs / 36
}

/// Percent that `part` is of `whole`, in tenths, rounded half up.
pub open spec fn percent_tenths(part: nat, whole: nat) -> nat {
    if whole == 0 {
        0
    } else {
        (2000 * part + whole) / (2 * whole)
    }
}

pub open spec fn day_name(d: int) -> Seq<char> {
    if d == 0 {
        "Sunday"@
    } else if d == 1 {
        "Monday"@
    } else if d == 2 {
        "Tuesday"@
    } else if d == 3 {
        "Wednesday"@
    } else if d == 4 {
        "Thursday"@
    } else if d == 5 {
        "Friday"@
    } else {
        "Saturday"@
    }
}

pub open spec fn activity_line(a: Seq<char>, secs: nat, total: nat) -> Seq<char> {
    tenths_text(percent_tenths(secs, total)) + "%  "@ + hundredths_text(hour_hundredths(secs))
        + "h  "@ + a
}

pub open spec fn weekday_line(d: int, secs: nat) -> Seq<char> {
    day_name(d) + "  "@ + hundredths_text(hour_hundredths(secs))
}

/// Sum over the first `n` days of their truncated hours, in hundredths.
pub open spec fn truncated_sum(days: Seq<u128>, n: int) -> nat
    decreases n,
{
    if n <= 0 {
        0
    } else {
        truncated_sum(days, n - 1) + hour_hundredths(days[n - 1] as nat)
    }
}

pub open spec fn total_line(days: Seq<u128>) -> Seq<char> {
    "Total  "@ + hundredths_text(truncated_sum(days, 7))
}

/// The lines of the report: one per activity, one per weekday from Sunday,
/// and the total; or one line saying that no work is recorded.
pub open spec fn report_text(r: &Report) -> Seq<Seq<char>> {
    if r.activities.len() == 0 {
        seq!["No work recorded."@]
    } else {
        Seq::new(
            r.activities.len() as nat,
            |i: int|
                activity_line(r.activities[i].0@, r.activities[i].1 as nat, r.total as nat),
        ) + Seq::new(7, |d: int| weekday_line(d, r.weekdays[d] as nat)) + seq![
            total_line(r.weekdays@),
        ]
    }
}

/// `k * r` divided by `total`, for `r < total` and small `k`, by adding
/// `r` modulo `total`.
fn times_div(r: u128, k: u128, total: u128) -> (qr: (u128, u128))
    requires
        r < total,
        k <= 10,
    ensures
        qr.0 * total + qr.1 == k * r,
        qr.1 < total,
        qr.0 <= k,
{
    let mut q: u128 = 0;
    let mut t: u128 = 0;
    let mut i: u128 = 0;
    while i < k
        invariant
            r < total,
            i <= k <= 10,
            q * total + t == i * r,
            t < total,
            q <= i,
        decreases k - i,
    {
        let ghost (q0, t0) = (q, t);
        if t >= total - r {
            t = t - (total - r);
            q = q + 1;
            assert(q * total == q0 * total + total) by (nonlinear_arith)
                requires
                    q == q0 + 1,
            ;
        } else {
            t = t + r;
        }
        assert(q * total + t == (i + 1) * r) by (nonlinear_arith)
            requires
                q0 * total + t0 == i * r,
                q * total + t == q0 * total + t0 + r,
        {
        }
        i = i + 1;
    }
    (q, t)
}

/// `percent_tenths(part, whole)`, without overflow.
fn percent_tenths_of(part: u128, whole: u128) -> (r: u128)
    requires
        part <= whole,
    ensures
        r == percent_tenths(part as nat, whole as nat),
{
    if whole == 0 {
        return 0;
    }
    let q0: u128 = if part == whole { 1 } else { 0 };
    let r0: u128 = if part == whole { 0 } else { part };
    assert(q0 * whole + r0 == part);
    let (d1, r1) = times_div(r0, 10, whole);
    let (d2, r2) = times_div(r1, 10, whole);
    let (d3, r3) = times_div(r2, 10, whole);
    let q = ((q0 * 10 + d1) * 10 + d2) * 10 + d3;
    assert(q * whole + r3 == 1000 * part) by (nonlinear_arith)
        requires
            q0 * whole + r0 == part,
            d1 * whole + r1 == 10 * r0,
            d2 * whole + r2 == 10 * r1,
            d3 * whole + r3 == 10 * r2,
            q == ((q0 * 10 + d1) * 10 + d2) * 10 + d3,
    {
    }
    let up: u128 = if r3 >= whole - r3 { 1 } else { 0 };
    assert((2000 * part + whole) / (2 * whole) == q + up) by (nonlinear_arith)
        requires
            q * whole + r3 == 1000 * part,
            r3 < whole,
            whole > 0,
            up == (if 2 * r3 >= whole { 1int } else { 0int }),
    {
        let n = 2000 * part + whole;
        assert(n == (q + up) * (2 * whole) + (2 * r3 + whole - up * 2 * whole));
    }
    q + up
}

fn push_hundredths(out: &mut String, n: u128)
    ensures
        final(out)@ == old(out)@ + hundredths_text(n as nat),
{
    push_digits(out, n / 100);
    push_char(out, '.');
    push_char(out, digit_of((n / 10) % 10));
    push_char(out, digit_of(n % 10));
    assert(final(out)@ =~= old(out)@ + hundredths_text(n as nat));
}

fn push_tenths(out: &mut String, n: u128)
    ensures
        final(out)@ == old(out)@ + tenths_text(n as nat),
{
    push_digits(out, n / 10);
    push_char(out, '.');
    push_char(out, digit_of(n % 10));
    assert(final(out)@ =~= old(out)@ + tenths_text(n as nat));
}

fn digit_of(d: u128) -> (c: char)
    requires
        d < 10,
    ensures
        c == digit_char(d as nat),
{
    let c = ((d as u32) + 48) as u8 as char;
    assert(c == digit_char(d as nat)) by {
        assert((d as u32 + 48) as u8 as char == ((d + 48) as u32) as char);
    }
    c
}

fn day_name_str(d: usize) -> (s: &'static str)
    requires
        d < 7,
    ensures
        s@ == day_name(d as int),
{
    if d == 0 {
        "Sunday"
    } else if d == 1 {
        "Monday"
    } else if d == 2 {
        "Tuesday"
    } else if d == 3 {
        "Wednesday"
    } else if d == 4 {
        "Thursday"
    } else if d == 5 {
        "Friday"
    } else {
        "Saturday"
    }
}

/// Lines of the report, each without its newline.
pub fn report_lines(r: &Report) -> (lines: Vec<String>)
    requires
        r.weekdays.len() == 7,
        forall|i: int| 0 <= i < r.activities.len() ==> r.activities[i].1 <= r.total,
    ensures
        lines@.map_values(|l: String| l@) == report_text(r),
{
    let mut lines: Vec<String> = Vec::new();
    if r.activities.len() == 0 {
        lines.push(String::from_str("No work recorded."));
        assert(lines@.map_values(|l: String| l@) =~= report_text(r));
        return lines;
    }
    let total = r.total;
    let mut i: usize = 0;
    while i < r.activities.len()
        invariant
            i <= r.activities.len(),
            total == r.total,
            forall|k: int| 0 <= k < r.activities.len() ==> r.activities[k].1 <= r.total,
            lines.len() == i,
            forall|k: int|
                0 <= k < i ==> #[trigger] lines@[k]@ == activity_line(
                    r.activities[k].0@,
                    r.activities[k].1 as nat,
                    r.total as nat,
                ),
        decreases r.activities.len() - i,
    {
        let secs = r.activities[i].1;
        let tenths = percent_tenths_of(secs, total);
        let mut line = String::new();
        push_tenths(&mut line, tenths);
        line.append("%  ");
        push_hundredths(&mut line, secs / 36);
        line.append("h  ");
        line.append(r.activities[i].0.as_str());
        lines.push(line);
        i = i + 1;
    }
    let mut d: usize = 0;
    let mut sum: u128 = 0;
    while d < 7
        invariant
            d <= 7,
            r.weekdays.len() == 7,
            lines.len() == r.activities.len() + d,
            sum == truncated_sum(r.weekdays@, d as int),
            sum <= d * (u128::MAX / 36),
            forall|k: int|
                0 <= k < r.activities.len() ==> #[trigger] lines@[k]@ == activity_line(
                    r.activities[k].0@,
                    r.activities[k].1 as nat,
                    r.total as nat,
                ),
            forall|k: int|
                0 <= k < d ==> #[trigger] lines@[r.activities.len() + k]@ == weekday_line(
                    k,
                    r.weekdays[k] as nat,
                ),
        decreases 7 - d,
    {
        let secs = r.weekdays[d];
        let mut line = String::new();
        line.append(day_name_str(d));
        line.append("  ");
        push_hundredths(&mut line, secs / 36);
        lines.push(line);
        sum = sum + secs / 36;
        d = d + 1;
    }
    let mut line = String::from_str("Total  ");
    push_hundredths(&mut line, sum);
    lines.push(line);
    let ghost n = r.activities.len() as int;
    let ghost lv = lines@.map_values(|l: String| l@);
    let ghost want = report_text(r);
    assert(lv.len() == want.len());
    assert forall|k: int| 0 <= k < lv.len() implies lv[k] == want[k] by {
        if k < n {
            assert(lines@[k]@ == activity_line(
                r.activities[k].0@,
                r.activities[k].1 as nat,
                r.total as nat,
            ));
        } else if k < n + 7 {
            let d = k - n;
            assert(lines@[n + d]@ == weekday_line(d, r.weekdays[d] as nat));
        }
    }
    assert(lv =~= want);
    lines
}

/// The report over the entries as text lines.
pub fn list_lines(entries: &[(usize, LogLine)], virtual_stop: Option<i64>) -> (lines: Vec<String>)
    ensures
        exists|r: Report|
            r.describes(entries_view(entries@), virtual_stop) && lines@.map_values(
                |l: String| l@,
            ) == report_text(&r),
{
    let r = process_log_for_report(entries, virtual_stop);
    proof {
        let ss = pairing(entries_view(entries@), virtual_stop).closed;
        assert forall|i: int| 0 <= i < r.activities.len() implies r.activities[i].1 <= r.total by {
            lemma_parts_le_total(ss, r.activities[i].0@, 0);
        }
    }
    let lines = report_lines(&r);
    lines
}

/// `n` hundredths as text with two decimals.
pub fn hundredths_string(n: u128) -> (r: String)
    ensures
        r@ == hundredths_text(n as nat),
{
    let mut out = String::new();
    push_hundredths(&mut out, n);
    assert(out@ =~= hundredths_text(n as nat));
    out
}

} // verus!
