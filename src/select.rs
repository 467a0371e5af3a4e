//! Which log a report reads: the current one, a file named on the command
//! line, or an archive picked by its extension or by the dates it covers.

use vstd::prelude::*;
use crate::clock::{datable, is_datable, local_date, CivilDate};
use crate::entry::{entry_epoch, find_char, first_index, LogLine};
use crate::log::entries_view;
use crate::rotate::two_digits;
use crate::text::{
    all_digits, chars_of, digit_char, digits_of, digits_value, is_digit, parse_u32, parse_u64_in,
    push_char, push_digits,
};

verus! {

pub open spec fn is_leap(y: int) -> bool {
    (y % 4 == 0 && y % 100 != 0) || y % 400 == 0
}

pub open spec fn days_in_month(y: int, m: int) -> int {
    if m == 2 {
        if is_leap(y) {
            29
        } else {
            28
        }
    } else if m == 4 || m == 6 || m == 9 || m == 11 {
        30
    } else {
        31
    }
}

/// Whether year, month and day name a day of the Gregorian calendar.
pub open spec fn date_exists(y: int, m: int, d: int) -> bool {
    1 <= m <= 12 && 1 <= d <= days_in_month(y, m)
}

fn date_exists_exec(y: i32, m: u32, d: u32) -> (r: bool)
    ensures
        r == date_exists(y as int, m as int, d as int),
{
    if m < 1 || m > 12 || d < 1 {
        return false;
    }
    let leap = (y % 4 == 0 && y % 100 != 0) || y % 400 == 0;
    let dim: u32 = if m == 2 {
        if leap {
            29
        } else {
            28
        }
    } else if m == 4 || m == 6 || m == 9 || m == 11 {
        30
    } else {
        31
    };
    d <= dim
}

/// Calendar order of dates.
pub open spec fn date_rank(d: CivilDate) -> int {
    d.year as int * 512 + d.month as int * 32 + d.day as int
}

fn date_le(a: CivilDate, b: CivilDate) -> (r: bool)
    requires
        a.wf(),
        b.wf(),
    ensures
        r == (date_rank(a) <= date_rank(b)),
{
    if a.year != b.year {
        a.year < b.year
    } else if a.month != b.month {
        a.month < b.month
    } else {
        a.day <= b.day
    }
}

/// Smallest and largest epoch among the entries.
pub open spec fn epoch_bounds(es: Seq<crate::entry::Entry>) -> Option<(i64, i64)>
    decreases es.len(),
{
    if es.len() == 0 {
        None
    } else {
        let e = entry_epoch(es.last());
        match epoch_bounds(es.drop_last()) {
            Some((lo, hi)) => Some((if e < lo { e } else { lo }, if e > hi { e } else { hi })),
            None => Some((e, e)),
        }
    }
}

/// The smallest and largest epoch among the entries.
pub fn log_epoch_bounds(entries: &[(usize, LogLine)]) -> (r: Option<(i64, i64)>)
    ensures
        r == epoch_bounds(entries_view(entries@)),
{
    let mut bounds: Option<(i64, i64)> = None;
    let mut i: usize = 0;
    while i < entries.len()
        invariant
            i <= entries.len(),
            bounds == epoch_bounds(entries_view(entries@.take(i as int))),
        decreases entries.len() - i,
    {
        let ghost es = entries_view(entries@.take(i + 1));
        assert(es.drop_last() =~= entries_view(entries@.take(i as int)));
        let e = entries[i].1.epoch();
        bounds = match bounds {
            Some((lo, hi)) => Some((if e < lo { e } else { lo }, if e > hi { e } else { hi })),
            None => Some((e, e)),
        };
        i = i + 1;
    }
    assert(entries@.take(i as int) =~= entries@);
    bounds
}

/// The local dates of the earliest and the latest entry, as chrono gives
/// them; `None` when there is no entry, or an epoch lies outside chrono's
/// range.
pub fn date_range_in_log(entries: &[(usize, LogLine)]) -> (r: Option<(CivilDate, CivilDate)>)
    ensures
        epoch_bounds(entries_view(entries@)) is None ==> r is None,
        r matches Some(p) ==> p.0.wf() && p.1.wf(),
        r is Some ==> (epoch_bounds(entries_view(entries@)) matches Some((lo, hi)) && datable(
            lo as int,
        ) && datable(hi as int)),
{
    let (lo, hi) = log_epoch_bounds(entries)?;
    if !is_datable(lo) || !is_datable(hi) {
        return None;
    }
    let first = local_date(lo)?;
    let last = local_date(hi)?;
    Some((first, last))
}

/// Whether `n` occurs in `h`.
pub open spec fn contains_seq(h: Seq<char>, n: Seq<char>) -> bool {
    exists|i: int| 0 <= i <= h.len() - n.len() && #[trigger] h.subrange(i, i + n.len()) == n
}

fn contains_exec(h: &Vec<char>, n: &Vec<char>) -> (r: bool)
    ensures
        r == contains_seq(h@, n@),
{
    if n.len() > h.len() {
        return false;
    }
    let last = h.len() - n.len();
    let mut i: usize = 0;
    while i <= last
        invariant
            last == h.len() - n.len(),
            i <= last + 1,
            forall|j: int| 0 <= j < i ==> #[trigger] h@.subrange(j, j + n.len()) != n@,
        decreases last + 1 - i,
    {
        let mut k: usize = 0;
        while k < n.len() && h[i + k] == n[k]
            invariant
                i <= last,
                last == h.len() - n.len(),
                k <= n.len(),
                forall|q: int| 0 <= q < k ==> h@[i + q] == n@[q],
            decreases n.len() - k,
        {
            k = k + 1;
        }
        if k == n.len() {
            assert(h@.subrange(i as int, i + n.len()) =~= n@);
            return true;
        }
        assert(h@.subrange(i as int, i + n.len())[k as int] != n@[k as int]);
        i = i + 1;
    }
    false
}

/// A number as `{:02}` writes it.
pub open spec fn pad2(n: nat) -> Seq<char> {
    if n < 10 {
        seq!['0', digit_char(n)]
    } else {
        digits_of(n)
    }
}

/// The `YYMMDD` form of a date argument: the last six digits of eight, six
/// digits as they are, or `month/day` in year `year`.
pub open spec fn norm_of(arg: Seq<char>, year: int) -> Option<Seq<char>> {
    if arg.len() == 8 && all_digits(arg) {
        Some(arg.skip(2))
    } else if arg.len() == 6 && all_digits(arg) {
        Some(arg)
    } else if first_index(arg, '/') < arg.len() {
        let k = first_index(arg, '/') as int;
        match (parse_u32(arg.take(k)), parse_u32(arg.skip(k + 1))) {
            (Some(m), Some(d)) => Some(
                two_digits((year % 100) as nat) + pad2(m as nat) + pad2(d as nat),
            ),
            _ => None,
        }
    } else {
        None
    }
}

fn all_digits_exec(v: &Vec<char>) -> (r: bool)
    ensures
        r == all_digits(v@),
{
    let mut i: usize = 0;
    while i < v.len()
        invariant
            i <= v.len(),
            forall|k: int| 0 <= k < i ==> is_digit(#[trigger] v@[k]),
        decreases v.len() - i,
    {
        if !(48 <= v[i] as u32 && v[i] as u32 <= 57) {
            return false;
        }
        i = i + 1;
    }
    true
}

fn push_pad2(out: &mut String, n: u32)
    ensures
        final(out)@ == old(out)@ + pad2(n as nat),
{
    if n < 10 {
        push_char(out, '0');
        push_char(out, ((n + 48) as u8) as char);
        assert(((n + 48) as u8) as char == digit_char(n as nat));
        assert(final(out)@ =~= old(out)@ + pad2(n as nat));
    } else {
        push_digits(out, n as u128);
    }
}

fn norm_exec(v: &Vec<char>, year: i32) -> (r: Option<Vec<char>>)
    ensures
        match r {
            Some(n) => norm_of(v@, year as int) == Some(n@),
            None => norm_of(v@, year as int) is None,
        },
{
    let digits = all_digits_exec(v);
    if v.len() == 8 && digits {
        let mut out: Vec<char> = Vec::new();
        let mut i: usize = 2;
        while i < 8
            invariant
                v.len() == 8,
                2 <= i <= 8,
                out@ == v@.subrange(2, i as int),
            decreases 8 - i,
        {
            out.push(v[i]);
            assert(out@ =~= v@.subrange(2, i + 1));
            i = i + 1;
        }
        assert(v@.skip(2) =~= v@.subrange(2, 8));
        return Some(out);
    }
    if v.len() == 6 && digits {
        let mut out: Vec<char> = Vec::new();
        let mut i: usize = 0;
        while i < 6
            invariant
                v.len() == 6,
                i <= 6,
                out@ == v@.subrange(0, i as int),
            decreases 6 - i,
        {
            out.push(v[i]);
            assert(out@ =~= v@.subrange(0, i + 1));
            i = i + 1;
        }
        assert(v@.subrange(0, 6) =~= v@);
        return Some(out);
    }
    let k = find_char(v, 0, v.len(), '/');
    assert(v@.subrange(0, v.len() as int) =~= v@);
    if k == v.len() {
        return None;
    }
    assert(v@.take(k as int) =~= v@.subrange(0, k as int));
    assert(v@.skip(k + 1) =~= v@.subrange(k + 1, v.len() as int));
    let m = match parse_u64_in(v, 0, k) {
        Some(m) => if m <= 0xFFFF_FFFF {
            m as u32
        } else {
            return None;
        },
        None => return None,
    };
    let d = match parse_u64_in(v, k + 1, v.len()) {
        Some(d) => if d <= 0xFFFF_FFFF {
            d as u32
        } else {
            return None;
        },
        None => return None,
    };
    let y = year % 100;
    let yy: u32 = if y < 0 {
        (y + 100) as u32
    } else {
        y as u32
    };
    assert(yy as int == year as int % 100);
    let mut text = String::new();
    push_char(&mut text, ((yy / 10 + 48) as u8) as char);
    push_char(&mut text, ((yy % 10 + 48) as u8) as char);
    assert(((yy / 10 + 48) as u8) as char == digit_char((yy / 10) as nat));
    assert(((yy % 10 + 48) as u8) as char == digit_char((yy % 10) as nat));
    push_pad2(&mut text, m);
    push_pad2(&mut text, d);
    let out = chars_of(text.as_str());
    assert(out@ =~= two_digits(yy as nat) + pad2(m as nat) + pad2(d as nat));
    Some(out)
}

/// Whether an archive name is one the report may pick: `timesheet.`
/// followed by a digit, other than the current log.
pub open spec fn is_archive_name(name: Seq<char>) -> bool {
    name.len() > 10 && name.take(10) == "timesheet."@ && name != "timesheet.log"@ && is_digit(
        name[10],
    )
}

pub fn archive_name(name: &str) -> (r: bool)
    ensures
        r == is_archive_name(name@),
{
    let v = chars_of(name);
    let prefix = chars_of("timesheet.");
    let current = chars_of("timesheet.log");
    if v.len() <= 10 || prefix.len() != 10 {
        proof {
            reveal_strlit("timesheet.");
        }
        return false;
    }
    let mut i: usize = 0;
    while i < 10
        invariant
            v@ == name@,
            prefix@ == "timesheet."@,
            v.len() > 10,
            prefix.len() == 10,
            i <= 10,
            forall|k: int| 0 <= k < i ==> v@[k] == prefix@[k],
        decreases 10 - i,
    {
        if v[i] != prefix[i] {
            assert(v@.take(10)[i as int] != prefix@[i as int]);
            return false;
        }
        i = i + 1;
    }
    assert(v@.take(10) =~= prefix@);
    let mut same = v.len() == current.len();
    if same {
        let mut k: usize = 0;
        while k < v.len() && same
            invariant
                v@ == name@,
                current@ == "timesheet.log"@,
                v.len() == current.len(),
                k <= v.len(),
                same ==> forall|q: int| 0 <= q < k ==> v@[q] == current@[q],
                !same ==> v@ != current@,
            decreases v.len() - k + (if same { 1int } else { 0int }),
        {
            if v[k] != current[k] {
                assert(v@[k as int] != current@[k as int]);
                same = false;
            } else {
                k = k + 1;
            }
        }
        if same {
            assert(v@ =~= current@);
        }
    }
    !same && 48 <= v[10] as u32 && v[10] as u32 <= 57
}

/// Whether an archive with extension `suffix` answers the argument `arg`.
pub open spec fn arg_matches(arg: Seq<char>, suffix: Seq<char>, norm: Option<Seq<char>>) -> bool {
    arg == suffix || contains_seq(suffix, arg) || contains_seq(arg, suffix) || norm == Some(suffix)
}

/// An archive the report may read: its extension, and the local dates of
/// its earliest and latest entry, if it has entries.
pub struct ListCandidate {
    pub extension: String,
    pub dates: Option<(CivilDate, CivilDate)>,
}

/// The log a report reads.
#[derive(Clone, Copy, Debug, PartialEq, Eq)]
pub enum ListSource {
    /// The current log.
    Current,
    /// The file named by the argument.
    Given,
    /// The archive at this index among the candidates.
    Archive(usize),
}

/// The date that six digits `YYMMDD` name in this century, if it exists.
pub open spec fn ymd_of6(n: Seq<char>) -> Option<CivilDate> {
    if n.len() == 6 && all_digits(n) {
        let y = 2000 + digits_value(n.take(2));
        let m = digits_value(n.subrange(2, 4));
        let d = digits_value(n.subrange(4, 6));
        if date_exists(y as int, m as int, d as int) {
            Some(CivilDate { year: y as i32, month: m as u32, day: d as u32 })
        } else {
            None
        }
    } else {
        None
    }
}

/// The requested date, then the same day a year before and a year after,
/// where those exist.
pub open spec fn tries_of(w: CivilDate) -> Seq<CivilDate> {
    let prev = CivilDate { year: (w.year - 1) as i32, ..w };
    let next = CivilDate { year: (w.year + 1) as i32, ..w };
    seq![w] + (if date_exists(w.year - 1, w.month as int, w.day as int) {
        seq![prev]
    } else {
        Seq::empty()
    }) + (if date_exists(w.year + 1, w.month as int, w.day as int) {
        seq![next]
    } else {
        Seq::empty()
    })
}

pub open spec fn covers(c: ListCandidate, d: CivilDate) -> bool {
    match c.dates {
        Some((lo, hi)) => date_rank(lo) <= date_rank(d) <= date_rank(hi),
        None => false,
    }
}

/// Index of the first of the tried dates that the candidate covers.
pub open spec fn priority(c: ListCandidate, ts: Seq<CivilDate>) -> Option<nat> {
    if ts.len() > 0 && covers(c, ts[0]) {
        Some(0)
    } else if ts.len() > 1 && covers(c, ts[1]) {
        Some(1)
    } else if ts.len() > 2 && covers(c, ts[2]) {
        Some(2)
    } else {
        None
    }
}

pub open spec fn dates_wf(c: ListCandidate) -> bool {
    match c.dates {
        Some((lo, hi)) => lo.wf() && hi.wf(),
        None => true,
    }
}

/// The local date of a candidate's latest entry.
pub open spec fn end_date(c: ListCandidate) -> CivilDate {
    match c.dates {
        Some((_, hi)) => hi,
        None => CivilDate { year: 0, month: 1, day: 1 },
    }
}

/// Whether candidate `a` comes before `b` in the search by dates: a
/// lower priority, then an earlier last date.
pub open spec fn content_before(a: ListCandidate, b: ListCandidate, ts: Seq<CivilDate>) -> bool {
    priority(a, ts)->0 < priority(b, ts)->0 || (priority(a, ts)->0 == priority(b, ts)->0
        && date_rank(end_date(a)) < date_rank(end_date(b)))
}

pub open spec fn ext_eligible(c: ListCandidate, w: CivilDate) -> bool {
    ymd_of6(c.extension@) is Some && date_rank(ymd_of6(c.extension@)->0) >= date_rank(w)
}

pub open spec fn count_matches(cs: Seq<ListCandidate>, arg: Seq<char>, norm: Option<Seq<char>>) -> nat
    decreases cs.len(),
{
    if cs.len() == 0 {
        0
    } else {
        count_matches(cs.drop_last(), arg, norm) + if arg_matches(
            arg,
            cs.last().extension@,
            norm,
        ) {
            1nat
        } else {
            0nat
        }
    }
}

fn two_digit_at(v: &Vec<char>, i: usize) -> (r: u32)
    requires
        i + 2 <= v.len(),
        is_digit(v@[i as int]),
        is_digit(v@[i + 1]),
    ensures
        r == digits_value(v@.subrange(i as int, i + 2)),
        r < 100,
{
    let a = v[i] as u32 - 48;
    let b = v[i + 1] as u32 - 48;
    let ghost s = v@.subrange(i as int, i + 2);
    let ghost s1 = s.drop_last();
    assert(s1.drop_last() =~= Seq::<char>::empty());
    assert(s1.last() == v@[i as int]);
    assert(s.last() == v@[i + 1]);
    assert(digits_value(s1.drop_last()) == 0);
    assert(digits_value(s1) == a);
    a * 10 + b
}

fn ymd6(v: &Vec<char>) -> (r: Option<CivilDate>)
    ensures
        r == ymd_of6(v@),
        r matches Some(d) ==> d.wf() && 2000 <= d.year <= 2099,
{
    if v.len() != 6 || !all_digits_exec(v) {
        return None;
    }
    let yy = two_digit_at(v, 0);
    let m = two_digit_at(v, 2);
    let d = two_digit_at(v, 4);
    assert(v@.subrange(0, 2) =~= v@.take(2));
    let y: i32 = 2000 + yy as i32;
    assert(y as int == 2000 + digits_value(v@.take(2)));
    if date_exists_exec(y, m, d) {
        Some(CivilDate { year: y, month: m, day: d })
    } else {
        None
    }
}

fn tries_exec(w: CivilDate) -> (r: Vec<CivilDate>)
    requires
        w.wf(),
        2000 <= w.year <= 2099,
    ensures
        r@ == tries_of(w),
        forall|k: int| 0 <= k < r.len() ==> (#[trigger] r@[k]).wf(),
{
    let mut r: Vec<CivilDate> = Vec::new();
    r.push(w);
    if date_exists_exec(w.year - 1, w.month, w.day) {
        r.push(CivilDate { year: w.year - 1, ..w });
    }
    if date_exists_exec(w.year + 1, w.month, w.day) {
        r.push(CivilDate { year: w.year + 1, ..w });
    }
    assert(r@ =~= tries_of(w));
    r
}

fn priority_exec(c: &ListCandidate, ts: &Vec<CivilDate>) -> (r: Option<usize>)
    requires
        forall|k: int| 0 <= k < ts.len() ==> (#[trigger] ts@[k]).wf(),
        c.dates matches Some(p) ==> p.0.wf() && p.1.wf(),
    ensures
        r matches Some(p) ==> priority(*c, ts@) == Some(p as nat),
        r is None ==> priority(*c, ts@) is None,
{
    let (lo, hi) = match c.dates {
        Some(p) => p,
        None => return None,
    };
    let mut j: usize = 0;
    while j < ts.len() && j < 3
        invariant
            forall|k: int| 0 <= k < ts.len() ==> (#[trigger] ts@[k]).wf(),
            c.dates == Some((lo, hi)),
            lo.wf(),
            hi.wf(),
            j <= 3,
            forall|k: int| 0 <= k < j && k < ts.len() ==> !covers(*c, #[trigger] ts@[k]),
        decreases 3 - j,
    {
        if date_le(lo, ts[j]) && date_le(ts[j], hi) {
            return Some(j);
        }
        j = j + 1;
    }
    None
}

fn content_before_exec(a: &ListCandidate, pa: usize, b: &ListCandidate, pb: usize) -> (r: bool)
    requires
        a.dates is Some,
        b.dates is Some,
        end_date(*a).wf(),
        end_date(*b).wf(),
    ensures
        r == (pa < pb || (pa == pb && date_rank(end_date(*a)) < date_rank(end_date(*b)))),
{
    let ha = match a.dates {
        Some(p) => p.1,
        None => return false,
    };
    let hb = match b.dates {
        Some(p) => p.1,
        None => return false,
    };
    pa < pb || (pa == pb && !date_le(hb, ha))
}

fn same_chars(a: &Vec<char>, b: &Vec<char>) -> (r: bool)
    ensures
        r == (a@ == b@),
{
    if a.len() != b.len() {
        return false;
    }
    let mut i: usize = 0;
    while i < a.len()
        invariant
            a.len() == b.len(),
            i <= a.len(),
            forall|k: int| 0 <= k < i ==> a@[k] == b@[k],
        decreases a.len() - i,
    {
        if a[i] != b[i] {
            assert(a@[i as int] != b@[i as int]);
            return false;
        }
        i = i + 1;
    }
    assert(a@ =~= b@);
    true
}

fn quoted_message(head: &str, arg: &str) -> (r: String)
    ensures
        r@ == head@ + arg@ + "\"."@,
{
    let mut out = String::from_str(head);
    out.append(arg);
    out.append("\".");
    out
}

/// Picks the log that a report reads. With no argument, an empty one or
/// `log`, the current log; when the argument names an existing file, that
/// file. Otherwise the archives are searched: by extension, where exactly
/// one must match; failing any match, by a date in the argument, for the
/// archive whose entries cover it (the requested year first, then the one
/// that ends earliest), and last for the archive whose extension is the
/// earliest date on or after it. `this_year` fills in `month/day`.
pub fn resolve_list_input(
    arg: Option<&str>,
    arg_is_file: bool,
    candidates: &Vec<ListCandidate>,
    this_year: i32,
) -> (r: Result<ListSource, String>)
    requires
        forall|k: int|
            0 <= k < candidates.len() ==> dates_wf(#[trigger] candidates@[k]),
    ensures
        arg is None ==> r == Ok::<ListSource, String>(ListSource::Current),
        arg matches Some(a) ==> {
            let norm = norm_of(a@, this_year as int);
            let cs = candidates@;
            let n = count_matches(cs, a@, norm);
            if a@.len() == 0 {
                r == Ok::<ListSource, String>(ListSource::Current)
            } else if arg_is_file {
                r == Ok::<ListSource, String>(ListSource::Given)
            } else if a@ == "log"@ {
                r == Ok::<ListSource, String>(ListSource::Current)
            } else if n == 1 {
                r matches Ok(ListSource::Archive(i)) && i < cs.len() && arg_matches(
                    a@,
                    cs[i as int].extension@,
                    norm,
                )
            } else if n > 1 {
                r matches Err(e) && e@ == "ts list: multiple timesheets match \""@ + a@ + "\"."@
            } else {
                match r {
                    Ok(ListSource::Archive(i)) => {
                        &&& i < cs.len()
                        &&& norm matches Some(nv) && ymd_of6(nv) matches Some(w) && {
                            let ts = tries_of(w);
                            ||| {
                                &&& priority(cs[i as int], ts) is Some
                                &&& forall|j: int|
                                    0 <= j < i && priority(#[trigger] cs[j], ts) is Some
                                        ==> content_before(cs[i as int], cs[j], ts)
                                &&& forall|j: int|
                                    i < j < cs.len() && priority(#[trigger] cs[j], ts) is Some
                                        ==> !content_before(cs[j], cs[i as int], ts)
                            }
                            ||| {
                                &&& forall|j: int|
                                    0 <= j < cs.len() ==> priority(#[trigger] cs[j], ts) is None
                                &&& ext_eligible(cs[i as int], w)
                                &&& forall|j: int|
                                    0 <= j < i && ext_eligible(#[trigger] cs[j], w)
                                        ==> date_rank(ymd_of6(cs[i as int].extension@)->0)
                                        < date_rank(ymd_of6(cs[j].extension@)->0)
                                &&& forall|j: int|
                                    i < j < cs.len() && ext_eligible(#[trigger] cs[j], w)
                                        ==> date_rank(ymd_of6(cs[i as int].extension@)->0)
                                        <= date_rank(ymd_of6(cs[j].extension@)->0)
                            }
                        }
                    },
                    Ok(_) => false,
                    Err(e) => {
                        &&& e@ == "ts list: no timesheet matches \""@ + a@ + "\"."@
                        &&& forall|j: int|
                            0 <= j < cs.len() ==> match norm {
                                Some(nv) => match ymd_of6(nv) {
                                    Some(w) => priority(#[trigger] cs[j], tries_of(w)) is None
                                        && !ext_eligible(cs[j], w),
                                    None => true,
                                },
                                None => true,
                            }
                    },
                }
            }
        },
{
    let a = match arg {
        Some(a) => a,
        None => return Ok(ListSource::Current),
    };
    if a.is_empty() {
        return Ok(ListSource::Current);
    }
    if arg_is_file {
        return Ok(ListSource::Given);
    }
    let v = chars_of(a);
    let log = chars_of("log");
    if same_chars(&v, &log) {
        return Ok(ListSource::Current);
    }
    let norm = norm_exec(&v, this_year);
    let ghost nview = match &norm {
        Some(nv) => Some(nv@),
        None => None,
    };
    let mut count: usize = 0;
    let mut found: usize = 0;
    let mut i: usize = 0;
    while i < candidates.len()
        invariant
            i <= candidates.len(),
            v@ == a@,
            nview == norm_of(a@, this_year as int),
            norm is Some ==> nview == Some(norm->0@),
            norm is None ==> nview is None,
            count == count_matches(candidates@.take(i as int), a@, nview),
            count <= i,
            count > 0 ==> found < candidates.len() && arg_matches(
                a@,
                candidates@[found as int].extension@,
                nview,
            ),
        decreases candidates.len() - i,
    {
        let ghost cs = candidates@.take(i + 1);
        assert(cs.drop_last() =~= candidates@.take(i as int));
        assert(cs.last() == candidates@[i as int]);
        let ext = chars_of(candidates[i].extension.as_str());
        let hit = same_chars(&v, &ext) || contains_exec(&ext, &v) || contains_exec(&v, &ext) || match &norm {
            Some(nv) => same_chars(nv, &ext),
            None => false,
        };
        assert(hit == arg_matches(a@, candidates@[i as int].extension@, nview));
        if hit {
            count = count + 1;
            found = i;
        }
        i = i + 1;
    }
    assert(candidates@.take(i as int) =~= candidates@);
    if count == 1 {
        return Ok(ListSource::Archive(found));
    }
    if count > 1 {
        return Err(quoted_message("ts list: multiple timesheets match \"", a));
    }
    let none = quoted_message("ts list: no timesheet matches \"", a);
    let nv = match &norm {
        Some(nv) => nv,
        None => return Err(none),
    };
    let want = match ymd6(nv) {
        Some(w) => w,
        None => return Err(none),
    };
    let ts = tries_exec(want);
    let ghost cs = candidates@;
    let mut best: Option<(usize, usize)> = None;
    let mut j: usize = 0;
    while j < candidates.len()
        invariant
            j <= candidates.len(),
            cs == candidates@,
            ts@ == tries_of(want),
            forall|k: int| 0 <= k < ts.len() ==> (#[trigger] ts@[k]).wf(),
            forall|k: int|
                0 <= k < candidates.len() ==> dates_wf(#[trigger] candidates@[k]),
            best is None ==> forall|k: int| 0 <= k < j ==> priority(#[trigger] cs[k], ts@) is None,
            best matches Some(b) ==> {
                &&& b.0 < j
                &&& priority(cs[b.0 as int], ts@) == Some(b.1 as nat)
                &&& forall|k: int|
                    0 <= k < b.0 && priority(#[trigger] cs[k], ts@) is Some ==> content_before(
                        cs[b.0 as int],
                        cs[k],
                        ts@,
                    )
                &&& forall|k: int|
                    b.0 < k < j && priority(#[trigger] cs[k], ts@) is Some ==> !content_before(
                        cs[k],
                        cs[b.0 as int],
                        ts@,
                    )
            },
        decreases candidates.len() - j,
    {
        match priority_exec(&candidates[j], &ts) {
            Some(p) => {
                let take = match best {
                    None => true,
                    Some((b, pb)) => content_before_exec(&candidates[j], p, &candidates[b], pb),
                };
                if take {
                    best = Some((j, p));
                }
            },
            None => {},
        }
        j = j + 1;
    }
    if let Some((b, _)) = best {
        return Ok(ListSource::Archive(b));
    }
    let mut pick: Option<(usize, CivilDate)> = None;
    let mut k: usize = 0;
    while k < candidates.len()
        invariant
            k <= candidates.len(),
            cs == candidates@,
            want.wf(),
            pick is None ==> forall|q: int| 0 <= q < k ==> !ext_eligible(#[trigger] cs[q], want),
            pick matches Some(p) ==> {
                &&& p.0 < k
                &&& ext_eligible(cs[p.0 as int], want)
                &&& ymd_of6(cs[p.0 as int].extension@) == Some(p.1)
                &&& p.1.wf()
                &&& forall|q: int|
                    0 <= q < p.0 && ext_eligible(#[trigger] cs[q], want) ==> date_rank(p.1)
                        < date_rank(ymd_of6(cs[q].extension@)->0)
                &&& forall|q: int|
                    p.0 < q < k && ext_eligible(#[trigger] cs[q], want) ==> date_rank(p.1)
                        <= date_rank(ymd_of6(cs[q].extension@)->0)
            },
        decreases candidates.len() - k,
    {
        let ext = chars_of(candidates[k].extension.as_str());
        match ymd6(&ext) {
            Some(d) => {
                if date_le(want, d) {
                    let take = match pick {
                        None => true,
                        Some((_, pd)) => !date_le(pd, d),
                    };
                    if take {
                        pick = Some((k, d));
                    }
                }
            },
            None => {},
        }
        k = k + 1;
    }
    match pick {
        Some((p, _)) => Ok(ListSource::Archive(p)),
        None => Err(none),
    }
}

} // verus!
