//! Log entries: one `START|<epoch>|<activity>` or `STOP|<epoch>` per line.

use vstd::prelude::*;
use crate::text::{
    chars_of, decimal, is_space, lemma_parse_decimal, parse_i64, parse_i64_in,
    push_char, push_i64, string_of, trim, trim_bounds, trim_end, trim_start,
};

verus! {

/// What a log line means.
pub enum Entry {
    Start(i64, Seq<char>),
    Stop(i64),
}

/// A parsed line of the timesheet log.
#[derive(Clone, Debug, PartialEq, Eq)]
pub enum LogLine {
    /// `START|epoch|activity`
    Start(i64, String),
    /// `STOP|epoch`
    Stop(i64),
}

impl View for LogLine {
    type V = Entry;

    open spec fn view(&self) -> Entry {
        match self {
            LogLine::Start(e, a) => Entry::Start(*e, a@),
            LogLine::Stop(e) => Entry::Stop(*e),
        }
    }
}

impl LogLine {
    pub open spec fn spec_epoch(&self) -> i64 {
        match self {
            LogLine::Start(e, _) => *e,
            LogLine::Stop(e) => *e,
        }
    }

    /// The time stamp of the entry.
    pub fn epoch(&self) -> (r: i64)
        ensures
            r == self.spec_epoch(),
    {
        match self {
            LogLine::Start(e, _) => *e,
            LogLine::Stop(e) => *e,
        }
    }
}

pub open spec fn entry_epoch(e: Entry) -> i64 {
    match e {
        Entry::Start(t, _) => t,
        Entry::Stop(t) => t,
    }
}

pub open spec fn start_tag() -> Seq<char> {
    seq!['S', 'T', 'A', 'R', 'T', '|']
}

pub open spec fn stop_tag() -> Seq<char> {
    seq!['S', 'T', 'O', 'P', '|']
}

/// Index of the first `c` in `s`, or the length of `s` when there is none.
pub open spec fn first_index(s: Seq<char>, c: char) -> nat
    decreases s.len(),
{
    if s.len() == 0 {
        0
    } else if s[0] == c {
        0
    } else {
        1 + first_index(s.drop_first(), c)
    }
}

pub proof fn lemma_first_index_bound(s: Seq<char>, c: char)
    ensures
        first_index(s, c) <= s.len(),
    decreases s.len(),
{
    if s.len() > 0 && s[0] != c {
        lemma_first_index_bound(s.drop_first(), c);
    }
}

/// What a line of the log says, if it says anything: the line is trimmed;
/// after `START|` the epoch runs to the next `|` and the rest, verbatim, is
/// the activity; after `STOP|` the rest is the epoch.
pub open spec fn parse_entry(line: Seq<char>) -> Option<Entry> {
    let t = trim(line);
    if t.len() >= 6 && t.take(6) == start_tag() {
        let rest = t.skip(6);
        let k = first_index(rest, '|');
        let activity = if k < rest.len() {
            rest.skip((k + 1) as int)
        } else {
            Seq::<char>::empty()
        };
        match parse_i64(trim(rest.take(k as int))) {
            Some(e) => Some(Entry::Start(e, activity)),
            None => None,
        }
    } else if t.len() >= 5 && t.take(5) == stop_tag() {
        match parse_i64(trim(t.skip(5))) {
            Some(e) => Some(Entry::Stop(e)),
            None => None,
        }
    } else {
        None
    }
}

/// The line (without its newline) that records `e`.
pub open spec fn entry_text(e: Entry) -> Seq<char> {
    match e {
        Entry::Start(t, a) => start_tag() + decimal(t as int) + seq!['|'] + a,
        Entry::Stop(t) => stop_tag() + decimal(t as int),
    }
}

/// Whether `v[lo..hi]` begins with `p`.
fn has_prefix(v: &Vec<char>, lo: usize, hi: usize, p: &Vec<char>) -> (r: bool)
    requires
        lo <= hi <= v.len(),
    ensures
        r == (hi - lo >= p.len() && v@.subrange(lo as int, hi as int).take(p.len() as int)
            == p@),
{
    if hi - lo < p.len() {
        return false;
    }
    let ghost t = v@.subrange(lo as int, hi as int).take(p.len() as int);
    let mut i: usize = 0;
    while i < p.len()
        invariant
            lo + p.len() <= hi <= v.len(),
            t == v@.subrange(lo as int, hi as int).take(p.len() as int),
            i <= p.len(),
            forall|k: int| 0 <= k < i ==> t[k] == p@[k],
        decreases p.len() - i,
    {
        if v[lo + i] != p[i] {
            assert(t[i as int] != p@[i as int]);
            return false;
        }
        i = i + 1;
    }
    assert(t =~= p@);
    true
}

/// Index of the first `c` in `v[from..to]`, or `to`.
pub fn find_char(v: &Vec<char>, from: usize, to: usize, c: char) -> (k: usize)
    requires
        from <= to <= v.len(),
    ensures
        from <= k <= to,
        k - from == first_index(v@.subrange(from as int, to as int), c),
{
    let mut i = from;
    while i < to && v[i] != c
        invariant
            from <= i <= to <= v.len(),
            first_index(v@.subrange(from as int, to as int), c) == (i - from) + first_index(
                v@.subrange(i as int, to as int),
                c,
            ),
        decreases to - i,
    {
        assert(v@.subrange(i as int, to as int).drop_first() =~= v@.subrange(i + 1, to as int));
        i = i + 1;
    }
    i
}

/// Parses one log line; `None` for anything that is not a `START` or `STOP`
/// record.
pub fn parse_line(s: &str) -> (r: Option<LogLine>)
    ensures
        match r {
            Some(l) => parse_entry(s@) == Some(l@),
            None => parse_entry(s@) is None,
        },
{
    let v = chars_of(s);
    let (lo, hi) = trim_bounds(&v, 0, v.len());
    assert(v@.subrange(0, v@.len() as int) =~= s@);
    let ghost t = v@.subrange(lo as int, hi as int);
    let start = vec!['S', 'T', 'A', 'R', 'T', '|'];
    let stop = vec!['S', 'T', 'O', 'P', '|'];
    assert(start@ =~= start_tag());
    assert(stop@ =~= stop_tag());
    if has_prefix(&v, lo, hi, &start) {
        let k = find_char(&v, lo + 6, hi, '|');
        let ghost rest = t.skip(6);
        assert(rest =~= v@.subrange(lo + 6, hi as int));
        assert(rest.take(k - (lo + 6)) =~= v@.subrange(lo + 6, k as int));
        let (flo, fhi) = trim_bounds(&v, lo + 6, k);
        match parse_i64_in(&v, flo, fhi) {
            Some(e) => {
                let activity = if k < hi {
                    assert(rest.skip(k - (lo + 6) + 1) =~= v@.subrange(k + 1, hi as int));
                    string_of(&v, k + 1, hi)
                } else {
                    String::new()
                };
                Some(LogLine::Start(e, activity))
            },
            None => None,
        }
    } else if has_prefix(&v, lo, hi, &stop) {
        assert(t.skip(5) =~= v@.subrange(lo + 5, hi as int));
        let (flo, fhi) = trim_bounds(&v, lo + 5, hi);
        match parse_i64_in(&v, flo, fhi) {
            Some(e) => Some(LogLine::Stop(e)),
            None => None,
        }
    } else {
        None
    }
}

fn push_all(out: &mut String, p: &Vec<char>)
    ensures
        final(out)@ == old(out)@ + p@,
{
    let mut i: usize = 0;
    while i < p.len()
        invariant
            i <= p.len(),
            out@ == old(out)@ + p@.take(i as int),
        decreases p.len() - i,
    {
        push_char(out, p[i]);
        assert(out@ =~= old(out)@ + p@.take(i + 1));
        i = i + 1;
    }
    assert(p@.take(i as int) =~= p@);
}

/// The line, without its newline, that records `entry`.
pub fn format_line(entry: &LogLine) -> (r: String)
    ensures
        r@ == entry_text(entry@),
{
    let mut out = String::new();
    match entry {
        LogLine::Start(e, a) => {
            let tag = vec!['S', 'T', 'A', 'R', 'T', '|'];
            assert(tag@ =~= start_tag());
            push_all(&mut out, &tag);
            push_i64(&mut out, *e);
            push_char(&mut out, '|');
            out.append(a.as_str());
            assert(out@ =~= entry_text(entry@));
        },
        LogLine::Stop(e) => {
            let tag = vec!['S', 'T', 'O', 'P', '|'];
            assert(tag@ =~= stop_tag());
            push_all(&mut out, &tag);
            push_i64(&mut out, *e);
            assert(out@ =~= entry_text(entry@));
        },
    }
    out
}

/// An entry whose line reads back as the same entry: an activity that ends
/// in whitespace would lose it to the trimming of the line.
pub open spec fn round_trips(e: Entry) -> bool {
    match e {
        Entry::Start(_, a) => a.len() == 0 || !is_space(a.last()),
        Entry::Stop(_) => true,
    }
}

proof fn lemma_trim_unchanged(s: Seq<char>)
    requires
        s.len() > 0,
        !is_space(s[0]),
        !is_space(s.last()),
    ensures
        trim(s) == s,
{
    assert(trim_start(s) == s);
    assert(trim_end(s) == s);
}

proof fn lemma_first_index_concat(p: Seq<char>, c: char, r: Seq<char>)
    requires
        forall|i: int| 0 <= i < p.len() ==> p[i] != c,
        r.len() > 0,
        r[0] == c,
    ensures
        first_index(p + r, c) == p.len(),
    decreases p.len(),
{
    if p.len() == 0 {
        assert(p + r =~= r);
    } else {
        assert((p + r).drop_first() =~= p.drop_first() + r);
        lemma_first_index_concat(p.drop_first(), c, r);
    }
}

/// Reading back the line written for an entry gives the entry, an activity
/// that holds `|` included.
pub proof fn lemma_line_round_trip(e: Entry)
    requires
        round_trips(e),
    ensures
        parse_entry(entry_text(e)) == Some(e),
{
    let s = entry_text(e);
    match e {
        Entry::Start(t, a) => {
            let d = decimal(t as int);
            lemma_parse_decimal(t);
            assert(s[0] == 'S');
            if a.len() > 0 {
                assert(s.last() == a.last());
            } else {
                assert(s.last() == '|');
            }
            lemma_trim_unchanged(s);
            assert(s.take(6) =~= start_tag());
            let rest = s.skip(6);
            assert(rest =~= d + (seq!['|'] + a));
            lemma_first_index_concat(d, '|', seq!['|'] + a);
            let k = first_index(rest, '|');
            assert(k == d.len());
            assert(rest.take(k as int) =~= d);
            assert(rest.skip((k + 1) as int) =~= a);
            lemma_trim_unchanged(d);
        },
        Entry::Stop(t) => {
            let d = decimal(t as int);
            lemma_parse_decimal(t);
            assert(s[0] == 'S');
            assert(s.last() == d.last());
            lemma_trim_unchanged(s);
            assert(s.len() < 6 || s.take(6)[3] != start_tag()[3]);
            assert(s.take(5) =~= stop_tag());
            assert(s.skip(5) =~= d);
            lemma_trim_unchanged(d);
        },
    }
}

} // verus!
