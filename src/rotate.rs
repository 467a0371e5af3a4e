//! Rotation of the log into a dated archive, and when it is due.

use vstd::prelude::*;
use crate::clock::{is_datable, local_date, local_instant, weekday_number, CivilDate};
use crate::entry::{entry_epoch, entry_text, format_line, Entry, LogLine};
use crate::log::{
    ends_open, entries_of, entries_view, last_entry, last_entry_of, lines_of, log_ends_open,
    max_epoch, max_epoch_of, parse_lines, split_lines, strings_view,
};
use crate::text::{chars_of, digit_char, push_char};

verus! {

/// Why a rotation could not be made.
#[derive(Clone, Copy, Debug, PartialEq, Eq)]
pub enum RotateError {
    /// There is no log.
    NoData,
    /// The log holds no entry.
    NoValidEntries,
    /// The latest epoch has no local date.
    BadTimestamp,
}

impl RotateError {
    /// The message for the user.
    pub fn message(&self) -> (r: String)
        ensures
            *self == RotateError::NoData ==> r@ == "ts rotate: no timesheet data found."@,
            *self == RotateError::NoValidEntries ==> r@ == "ts rotate: no valid entries in timesheet."@,
            *self == RotateError::BadTimestamp ==> r@ == "ts rotate: could not format timestamp."@,
    {
        match self {
            RotateError::NoData => String::from_str("ts rotate: no timesheet data found."),
            RotateError::NoValidEntries => String::from_str(
                "ts rotate: no valid entries in timesheet.",
            ),
            RotateError::BadTimestamp => String::from_str("ts rotate: could not format timestamp."),
        }
    }
}

/// What a rotation does: the stop line to append first, if work is in
/// progress, and the name of the archive.
pub struct Rotation {
    pub stop_line: Option<String>,
    pub target_name: String,
}

/// `n` as two digits, for `n < 100`.
pub open spec fn two_digits(n: nat) -> Seq<char> {
    seq![digit_char(n / 10), digit_char(n % 10)]
}

/// `YYMMDD` of a date: the year modulo 100, the month and the day.
pub open spec fn stamp_text(d: CivilDate) -> Seq<char> {
    two_digits((d.year as int % 100) as nat) + two_digits(d.month as nat) + two_digits(
        d.day as nat,
    )
}

fn push_two(out: &mut String, n: u32)
    requires
        n < 100,
    ensures
        final(out)@ == old(out)@ + two_digits(n as nat),
{
    push_char(out, ((n / 10 + 48) as u8) as char);
    push_char(out, ((n % 10 + 48) as u8) as char);
    assert(((n / 10 + 48) as u8) as char == digit_char((n / 10) as nat));
    assert(((n % 10 + 48) as u8) as char == digit_char((n % 10) as nat));
    assert(final(out)@ =~= old(out)@ + two_digits(n as nat));
}

/// The six-digit stamp of a date.
pub fn date_stamp(d: CivilDate) -> (r: String)
    requires
        d.wf(),
    ensures
        r@ == stamp_text(d),
{
    let mut out = String::new();
    let y = d.year % 100;
    let yy: u32 = if y < 0 {
        (y + 100) as u32
    } else {
        y as u32
    };
    assert(yy as int == d.year as int % 100);
    push_two(&mut out, yy);
    push_two(&mut out, d.month);
    push_two(&mut out, d.day);
    assert(out@ =~= stamp_text(d));
    out
}

/// The epoch that dates a rotation: the latest entry's, counting the stop
/// at `now` that closes work in progress.
pub open spec fn rotation_epoch(lines: Seq<Seq<char>>, now: i64) -> Option<i64> {
    let es = entries_of(lines).map_values(|p: (nat, Entry)| p.1);
    if ends_open(lines) {
        max_epoch_of(es.push(Entry::Stop(now)))
    } else {
        max_epoch_of(es)
    }
}

/// Plans the rotation of a log with text `content` (`None` when there is
/// no log) at time `now`; the archive is named `<stem>.<YYMMDD>` after the
/// local date of the latest epoch.
pub fn plan_rotation(content: Option<&str>, now: i64, stem: &str) -> (r: Result<
    Rotation,
    RotateError,
>)
    requires
        content matches Some(c) ==> c@.len() < usize::MAX,
    ensures
        content is None ==> r == Err::<Rotation, RotateError>(RotateError::NoData),
        content matches Some(c) ==> {
            let lines = lines_of(c@);
            &&& rotation_epoch(lines, now) is None <==> r == Err::<Rotation, RotateError>(
                RotateError::NoValidEntries,
            )
            &&& r matches Ok(rot) ==> {
                &&& (rot.stop_line is Some <==> ends_open(lines))
                &&& (rot.stop_line matches Some(l) ==> l@ == entry_text(Entry::Stop(now)))
                &&& exists|d: CivilDate|
                    d.wf() && rot.target_name@ == stem@ + seq!['.'] + stamp_text(d)
            }
        },
{
    let c = match content {
        Some(c) => c,
        None => return Err(RotateError::NoData),
    };
    let lines = split_lines(c);
    proof {
        crate::log::lemma_lines_count(c@);
    }
    let mut entries = parse_lines(&lines);
    let open = log_ends_open(&lines);
    let ghost es = entries_of(lines_of(c@)).map_values(|p: (nat, Entry)| p.1);
    assert(entries_view(entries@) =~= es);
    let stop_line = if open {
        let stop = LogLine::Stop(now);
        let text = format_line(&stop);
        entries.push((0, stop));
        assert(entries_view(entries@) =~= es.push(Entry::Stop(now)));
        Some(text)
    } else {
        None
    };
    let latest = match max_epoch(entries.as_slice()) {
        Some(m) => m,
        None => return Err(RotateError::NoValidEntries),
    };
    if !is_datable(latest) {
        return Err(RotateError::BadTimestamp);
    }
    let date = match local_date(latest) {
        Some(d) => d,
        None => return Err(RotateError::BadTimestamp),
    };
    let mut target_name = String::new();
    target_name.append(stem);
    push_char(&mut target_name, '.');
    let stamp = date_stamp(date);
    target_name.append(stamp.as_str());
    assert(target_name@ =~= stem@ + seq!['.'] + stamp_text(date));
    Ok(Rotation { stop_line, target_name })
}

/// Whether a log whose last entry has epoch `last` is due for rotation in
/// the week that begins at `week_start`.
pub open spec fn rotation_due_spec(lines: Seq<Seq<char>>, week_start: i64) -> bool {
    match last_entry_of(lines) {
        Some(e) => entry_epoch(e) < week_start,
        None => false,
    }
}

/// Whether the log's last entry lies before the week that begins at
/// `week_start`, so that the log must be rotated before it is changed.
pub fn rotation_due(lines: &Vec<String>, week_start: i64) -> (r: bool)
    ensures
        r == rotation_due_spec(strings_view(lines@), week_start),
{
    match last_entry(lines) {
        Some(e) => e.epoch() < week_start,
        None => false,
    }
}

/// The start of the week whose first day begins at `midnight` and whose
/// current day is `weekday` days after Sunday.
pub fn week_start_from(midnight: i64, weekday: u32) -> (r: Option<i64>)
    requires
        weekday < 7,
    ensures
        r == (if i64::MIN <= midnight - 86400 * weekday {
            Some((midnight - 86400 * weekday) as i64)
        } else {
            None
        }),
{
    let back: i64 = 86400 * weekday as i64;
    midnight.checked_sub(back)
}

/// Epoch of local Sunday 00:00:00 of the week that holds `now`: the
/// local midnight of its day, less one day per day since Sunday.
pub fn week_start_epoch(now: i64) -> (r: Option<i64>)
    ensures
        r matches Some(w) ==> exists|midnight: i64, weekday: u32|
            weekday < 7 && #[trigger] days_back(midnight, weekday) == w as int,
{
    if !is_datable(now) {
        return None;
    }
    let today = local_date(now)?;
    let weekday = weekday_number(today);
    let midnight = local_instant(today, 0)?;
    let r = week_start_from(midnight, weekday);
    assert(r matches Some(w) ==> days_back(midnight, weekday) == w as int);
    r
}

/// `midnight` moved back by `weekday` days.
pub open spec fn days_back(midnight: i64, weekday: u32) -> int {
    midnight - 86400 * weekday
}

/// Rotation is due exactly when the log's last entry precedes the week
/// start; once rotated away the log has no lines, and a log without lines
/// is never due, so one rotation is all that a command makes.
pub proof fn lemma_rotation_due_once(lines: Seq<Seq<char>>, week_start: i64)
    ensures
        rotation_due_spec(lines, week_start) <==> (last_entry_of(lines) matches Some(e)
            && entry_epoch(e) < week_start),
        !rotation_due_spec(Seq::<Seq<char>>::empty(), week_start),
{
    assert(crate::log::last_nonblank(Seq::<Seq<char>>::empty()) is None);
}

/// A change to the files around the log.
#[derive(Debug, PartialEq, Eq)]
pub enum FileOp {
    /// Append `text` to the file at `path`.
    AppendText { path: String, text: String },
    /// Append the whole file `from` to the file `to`.
    AppendFile { from: String, to: String },
    /// Delete the file at `path`.
    Remove { path: String },
    /// Move the file `from` to `to`.
    Rename { from: String, to: String },
}

/// File contents by path.
pub type Files = Map<Seq<char>, Seq<char>>;

pub open spec fn apply_op(fs: Files, op: FileOp) -> Files {
    match op {
        FileOp::AppendText { path, text } => fs.insert(path@, fs[path@] + text@),
        FileOp::AppendFile { from, to } => fs.insert(to@, fs[to@] + fs[from@]),
        FileOp::Remove { path } => fs.remove(path@),
        FileOp::Rename { from, to } => fs.remove(from@).insert(to@, fs[from@]),
    }
}

pub open spec fn apply_ops(fs: Files, ops: Seq<FileOp>) -> Files
    decreases ops.len(),
{
    if ops.len() == 0 {
        fs
    } else {
        apply_op(apply_ops(fs, ops.drop_last()), ops.last())
    }
}

/// `ops` are the file changes of a rotation of the log at `source` into
/// the distinct archive path `target`: the stop line first, if any; then
/// the log is appended to an archive that exists, and removed, or else
/// renamed to the archive.
pub open spec fn rotation_ops_are(
    ops: Seq<FileOp>,
    source: Seq<char>,
    target: Seq<char>,
    stop: Option<Seq<char>>,
    target_exists: bool,
) -> bool {
    let k = if stop is Some { 1int } else { 0int };
    &&& source != target
    &&& ops.len() == k + (if target_exists { 2int } else { 1int })
    &&& stop matches Some(l) ==> ops[0] matches FileOp::AppendText { path, text } && path@
        == source && text@ == l
    &&& if target_exists {
        &&& ops[k] matches FileOp::AppendFile { from, to } && from@ == source && to@ == target
        &&& ops[k + 1] matches FileOp::Remove { path } && path@ == source
    } else {
        ops[k] matches FileOp::Rename { from, to } && from@ == source && to@ == target
    }
}

/// The file changes of a rotation of the log at `source` into the archive
/// at `target`, with the stop line, if any, ended by a newline; `None` when
/// the two paths are the same, which no rotation can merge.
pub fn rotation_ops(source: &str, target: &str, stop_line: Option<&str>, target_exists: bool) -> (r:
    Option<Vec<FileOp>>)
    ensures
        r is None <==> source@ == target@,
        r matches Some(ops) ==> rotation_ops_are(
            ops@,
            source@,
            target@,
            match stop_line {
                Some(l) => Some(l@ + seq!['\n']),
                None => None,
            },
            target_exists,
        ),
{
    let sv = chars_of(source);
    let tv = chars_of(target);
    if sv.len() == tv.len() {
        let mut i: usize = 0;
        let mut same = true;
        while i < sv.len() && same
            invariant
                sv.len() == tv.len(),
                i <= sv.len(),
                same ==> forall|q: int| 0 <= q < i ==> sv@[q] == tv@[q],
                !same ==> sv@ != tv@,
            decreases sv.len() - i + (if same { 1int } else { 0int }),
        {
            if sv[i] != tv[i] {
                assert(sv@[i as int] != tv@[i as int]);
                same = false;
            } else {
                i = i + 1;
            }
        }
        if same {
            assert(sv@ =~= tv@);
            return None;
        }
    }
    assert(source@ != target@);
    let mut ops: Vec<FileOp> = Vec::new();
    if let Some(l) = stop_line {
        let mut text = String::from_str(l);
        push_char(&mut text, '\n');
        assert(text@ =~= l@ + seq!['\n']);
        ops.push(FileOp::AppendText { path: String::from_str(source), text });
    }
    let ghost first = ops@;
    if target_exists {
        ops.push(FileOp::AppendFile { from: String::from_str(source), to: String::from_str(target) });
        ops.push(FileOp::Remove { path: String::from_str(source) });
    } else {
        ops.push(FileOp::Rename { from: String::from_str(source), to: String::from_str(target) });
    }
    assert(stop_line is Some ==> ops@[0] == first[0]);
    let ghost stop = match stop_line {
        Some(l) => Some(l@ + seq!['\n']),
        None => None,
    };
    assert(rotation_ops_are(ops@, source@, target@, stop, target_exists));
    Some(ops)
}

/// Rotating into an archive that exists appends the whole log, stop line
/// included, to the archive and removes the log; the archive keeps what it
/// held, and no other file changes. Without such an archive the log is
/// renamed to it. Either way the log is gone afterwards, so a second
/// rotation finds no log.
pub proof fn lemma_rotation_files(
    fs: Files,
    source: Seq<char>,
    target: Seq<char>,
    stop: Option<Seq<char>>,
    ops: Seq<FileOp>,
)
    requires
        fs.contains_key(source),
        rotation_ops_are(ops, source, target, stop, fs.contains_key(target)),
    ensures
        ({
            let after = apply_ops(fs, ops);
            let log = match stop {
                Some(l) => fs[source] + l,
                None => fs[source],
            };
            &&& !after.contains_key(source)
            &&& after.contains_key(target)
            &&& fs.contains_key(target) ==> after[target] == fs[target] + log
            &&& !fs.contains_key(target) ==> after[target] == log
            &&& forall|p: Seq<char>| p != source && p != target ==> after.contains_key(p)
                == fs.contains_key(p) && after[p] == fs[p]
        }),
{
    let target_exists = fs.contains_key(target);
    let k = if stop is Some { 1int } else { 0int };
    let log = match stop {
        Some(l) => fs[source] + l,
        None => fs[source],
    };
    let mid = apply_ops(fs, ops.take(k));
    if stop is Some {
        assert(ops.take(1).drop_last() =~= Seq::<FileOp>::empty());
        assert(apply_ops(fs, Seq::<FileOp>::empty()) == fs);
        assert(ops.take(1).last() == ops[0]);
        assert(mid == apply_op(fs, ops[0]));
    } else {
        assert(ops.take(0) =~= Seq::<FileOp>::empty());
    }
    assert(mid.contains_key(source) && mid[source] == log);
    assert(mid.contains_key(target) == fs.contains_key(target) && mid[target] == fs[target]);
    assert(forall|p: Seq<char>| p != source ==> mid.contains_key(p) == fs.contains_key(p) && mid[p] == fs[p]);
    if target_exists {
        assert(ops.take(k + 1).drop_last() =~= ops.take(k));
        assert(ops.take(k + 2).drop_last() =~= ops.take(k + 1));
        assert(ops.take(k + 2) =~= ops);
        let one = apply_ops(fs, ops.take(k + 1));
        assert(one == apply_op(mid, ops[k]));
        assert(apply_ops(fs, ops) == apply_op(one, ops[k + 1]));
    } else {
        assert(ops.take(k + 1).drop_last() =~= ops.take(k));
        assert(ops.take(k + 1) =~= ops);
        assert(apply_ops(fs, ops) == apply_op(mid, ops[k]));
    }
}

} // verus!
