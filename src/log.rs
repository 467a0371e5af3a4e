//! The log as a whole: its lines, the entries they hold, and what the
//! commands read off its end.

use vstd::prelude::*;
use crate::entry::{
    entry_epoch, find_char, first_index, lemma_first_index_bound, parse_entry, parse_line,
    start_tag, stop_tag, Entry, LogLine,
};
use crate::text::{chars_of, string_of, trim, trim_bounds};

verus! {

pub open spec fn strip_cr(s: Seq<char>) -> Seq<char> {
    if s.len() > 0 && s.last() == '\r' {
        s.drop_last()
    } else {
        s
    }
}

/// The lines of `s` as `str::lines` gives them: split at `\n`, one `\r`
/// before it dropped, no empty line after a final `\n`.
pub open spec fn lines_of(s: Seq<char>) -> Seq<Seq<char>>
    decreases s.len(),
{
    if s.len() == 0 {
        Seq::empty()
    } else {
        let k = first_index(s, '\n');
        if k < s.len() {
            seq![strip_cr(s.take(k as int))] + lines_of(s.skip((k + 1) as int))
        } else {
            seq![strip_cr(s)]
        }
    }
}

/// The entries of the lines, each with its 1-based line number.
pub open spec fn entries_of(lines: Seq<Seq<char>>) -> Seq<(nat, Entry)>
    decreases lines.len(),
{
    if lines.len() == 0 {
        Seq::empty()
    } else {
        let prev = entries_of(lines.drop_last());
        match parse_entry(lines.last()) {
            Some(e) => prev.push((lines.len(), e)),
            None => prev,
        }
    }
}

pub open spec fn strings_view(v: Seq<String>) -> Seq<Seq<char>> {
    v.map_values(|s: String| s@)
}

pub open spec fn numbered_view(v: Seq<(usize, LogLine)>) -> Seq<(nat, Entry)> {
    v.map_values(|p: (usize, LogLine)| (p.0 as nat, p.1@))
}

pub open spec fn entries_view(v: Seq<(usize, LogLine)>) -> Seq<Entry> {
    v.map_values(|p: (usize, LogLine)| p.1@)
}

/// Splits text into its lines.
pub fn split_lines(content: &str) -> (r: Vec<String>)
    ensures
        strings_view(r@) == lines_of(content@),
{
    let v = chars_of(content);
    let n = v.len();
    let mut out: Vec<String> = Vec::new();
    let mut start: usize = 0;
    assert(v@.subrange(0, n as int) =~= content@);
    while start < n
        invariant
            n == v.len(),
            start <= n,
            v@ == content@,
            lines_of(content@) == strings_view(out@) + lines_of(v@.subrange(start as int, n as int)),
        decreases n - start,
    {
        let ghost s = v@.subrange(start as int, n as int);
        let k = find_char(&v, start, n, '\n');
        let mut e = k;
        if e > start && v[e - 1] == '\r' {
            e = e - 1;
        }
        assert(s.take(k - start) =~= v@.subrange(start as int, k as int));
        assert(strip_cr(s.take(k - start)) =~= v@.subrange(start as int, e as int));
        let line = string_of(&v, start, e);
        let ghost before = strings_view(out@);
        out.push(line);
        assert(strings_view(out@) =~= before.push(line@));
        if k < n {
            assert(s.skip(k - start + 1) =~= v@.subrange(k + 1, n as int));
            assert(lines_of(s) == seq![line@] + lines_of(v@.subrange(k + 1, n as int)));
            assert(lines_of(content@) =~= strings_view(out@) + lines_of(
                v@.subrange(k + 1, n as int),
            ));
            start = k + 1;
        } else {
            assert(lines_of(s) == seq![line@]);
            assert(v@.subrange(n as int, n as int) =~= Seq::<char>::empty());
            assert(lines_of(content@) =~= strings_view(out@) + lines_of(
                v@.subrange(n as int, n as int),
            ));
            start = n;
        }
    }
    assert(lines_of(v@.subrange(n as int, n as int)) =~= Seq::<Seq<char>>::empty());
    assert(lines_of(content@) =~= strings_view(out@));
    out
}

/// The entries that the lines hold, in order, with their line numbers;
/// other lines are skipped.
pub fn parse_lines(lines: &Vec<String>) -> (r: Vec<(usize, LogLine)>)
    requires
        lines.len() < usize::MAX,
    ensures
        numbered_view(r@) == entries_of(strings_view(lines@)),
{
    let mut out: Vec<(usize, LogLine)> = Vec::new();
    let mut i: usize = 0;
    while i < lines.len()
        invariant
            i <= lines.len() < usize::MAX,
            numbered_view(out@) == entries_of(strings_view(lines@.take(i as int))),
        decreases lines.len() - i,
    {
        let ghost before = numbered_view(out@);
        let ghost ls = strings_view(lines@.take(i + 1));
        assert(ls.drop_last() =~= strings_view(lines@.take(i as int)));
        assert(ls.last() == lines@[i as int]@);
        match parse_line(lines[i].as_str()) {
            Some(l) => {
                out.push((i + 1, l));
                assert(numbered_view(out@) =~= before.push(((i + 1) as nat, l@)));
            },
            None => {
                assert(numbered_view(out@) =~= before);
            },
        }
        i = i + 1;
    }
    assert(lines@.take(i as int) =~= lines@);
    out
}

/// The entries of a whole log text, with their line numbers.
pub fn parse_log(content: &str) -> (r: Vec<(usize, LogLine)>)
    requires
        content@.len() < usize::MAX,
    ensures
        numbered_view(r@) == entries_of(lines_of(content@)),
{
    let lines = split_lines(content);
    proof {
        lemma_lines_count(content@);
    }
    parse_lines(&lines)
}

pub proof fn lemma_lines_count(s: Seq<char>)
    ensures
        lines_of(s).len() <= s.len(),
    decreases s.len(),
{
    if s.len() > 0 {
        let k = first_index(s, '\n');
        lemma_first_index_bound(s, '\n');
        if k < s.len() {
            lemma_lines_count(s.skip((k + 1) as int));
        }
    }
}

/// Index of the last line that holds more than whitespace.
pub open spec fn last_nonblank(lines: Seq<Seq<char>>) -> Option<nat>
    decreases lines.len(),
{
    if lines.len() == 0 {
        None
    } else if trim(lines.last()).len() > 0 {
        Some((lines.len() - 1) as nat)
    } else {
        last_nonblank(lines.drop_last())
    }
}

pub fn find_last_nonblank(lines: &Vec<String>) -> (r: Option<usize>)
    ensures
        match r {
            Some(k) => last_nonblank(strings_view(lines@)) == Some(k as nat),
            None => last_nonblank(strings_view(lines@)) is None,
        },
{
    let mut i = lines.len();
    assert(lines@.take(i as int) =~= lines@);
    while i > 0
        invariant
            i <= lines.len(),
            last_nonblank(strings_view(lines@)) == last_nonblank(
                strings_view(lines@.take(i as int)),
            ),
        decreases i,
    {
        let ghost ls = strings_view(lines@.take(i as int));
        assert(ls.drop_last() =~= strings_view(lines@.take(i - 1)));
        let v = chars_of(lines[i - 1].as_str());
        let (lo, hi) = trim_bounds(&v, 0, v.len());
        assert(v@.subrange(0, v.len() as int) =~= ls.last());
        if lo < hi {
            return Some(i - 1);
        }
        i = i - 1;
    }
    assert(strings_view(lines@.take(0)) =~= Seq::<Seq<char>>::empty());
    None
}

/// The entry on the last non-blank line, if that line holds one.
pub open spec fn last_entry_of(lines: Seq<Seq<char>>) -> Option<Entry> {
    match last_nonblank(lines) {
        Some(k) => parse_entry(lines[k as int]),
        None => None,
    }
}

pub fn last_entry(lines: &Vec<String>) -> (r: Option<LogLine>)
    ensures
        match r {
            Some(l) => last_entry_of(strings_view(lines@)) == Some(l@),
            None => last_entry_of(strings_view(lines@)) is None,
        },
{
    proof {
        lemma_last_nonblank_bound(strings_view(lines@));
    }
    match find_last_nonblank(lines) {
        Some(k) => parse_line(lines[k].as_str()),
        None => None,
    }
}

pub proof fn lemma_last_nonblank_bound(lines: Seq<Seq<char>>)
    ensures
        match last_nonblank(lines) {
            Some(k) => k < lines.len(),
            None => true,
        },
    decreases lines.len(),
{
    if lines.len() > 0 && trim(lines.last()).len() == 0 {
        lemma_last_nonblank_bound(lines.drop_last());
    }
}

pub open spec fn starts_with(s: Seq<char>, p: Seq<char>) -> bool {
    s.len() >= p.len() && s.take(p.len() as int) == p
}

/// Whether the last non-blank line begins, as written, with `START|`: work
/// is then in progress.
pub open spec fn ends_open(lines: Seq<Seq<char>>) -> bool {
    match last_nonblank(lines) {
        Some(k) => starts_with(lines[k as int], start_tag()),
        None => false,
    }
}

/// Whether the last non-blank line begins, as written, with `STOP|`.
pub open spec fn ends_stopped(lines: Seq<Seq<char>>) -> bool {
    match last_nonblank(lines) {
        Some(k) => starts_with(lines[k as int], stop_tag()),
        None => false,
    }
}

fn line_starts_with(s: &String, p: &Vec<char>) -> (r: bool)
    ensures
        r == starts_with(s@, p@),
{
    let v = chars_of(s.as_str());
    if v.len() < p.len() {
        return false;
    }
    let mut i: usize = 0;
    while i < p.len()
        invariant
            p.len() <= v.len(),
            v@ == s@,
            i <= p.len(),
            forall|k: int| 0 <= k < i ==> v@[k] == p@[k],
        decreases p.len() - i,
    {
        if v[i] != p[i] {
            assert(s@.take(p.len() as int)[i as int] != p@[i as int]);
            return false;
        }
        i = i + 1;
    }
    assert(s@.take(p.len() as int) =~= p@);
    true
}

pub fn log_ends_open(lines: &Vec<String>) -> (r: bool)
    ensures
        r == ends_open(strings_view(lines@)),
{
    proof {
        lemma_last_nonblank_bound(strings_view(lines@));
    }
    let tag = vec!['S', 'T', 'A', 'R', 'T', '|'];
    assert(tag@ =~= start_tag());
    match find_last_nonblank(lines) {
        Some(k) => line_starts_with(&lines[k], &tag),
        None => false,
    }
}

pub fn log_ends_stopped(lines: &Vec<String>) -> (r: bool)
    ensures
        r == ends_stopped(strings_view(lines@)),
{
    proof {
        lemma_last_nonblank_bound(strings_view(lines@));
    }
    let tag = vec!['S', 'T', 'O', 'P', '|'];
    assert(tag@ =~= stop_tag());
    match find_last_nonblank(lines) {
        Some(k) => line_starts_with(&lines[k], &tag),
        None => false,
    }
}

/// The largest epoch among the entries.
pub open spec fn max_epoch_of(es: Seq<Entry>) -> Option<i64>
    decreases es.len(),
{
    if es.len() == 0 {
        None
    } else {
        let e = entry_epoch(es.last());
        match max_epoch_of(es.drop_last()) {
            Some(m) => Some(if m >= e {
                m
            } else {
                e
            }),
            None => Some(e),
        }
    }
}

pub fn max_epoch(entries: &[(usize, LogLine)]) -> (r: Option<i64>)
    ensures
        r == max_epoch_of(entries_view(entries@)),
{
    let mut best: Option<i64> = None;
    let mut i: usize = 0;
    while i < entries.len()
        invariant
            i <= entries.len(),
            best == max_epoch_of(entries_view(entries@.take(i as int))),
        decreases entries.len() - i,
    {
        let ghost es = entries_view(entries@.take(i + 1));
        assert(es.drop_last() =~= entries_view(entries@.take(i as int)));
        let e = entries[i].1.epoch();
        best = match best {
            Some(m) => Some(if m >= e {
                m
            } else {
                e
            }),
            None => Some(e),
        };
        i = i + 1;
    }
    assert(entries@.take(i as int) =~= entries@);
    best
}

} // verus!
