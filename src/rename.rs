//! Renaming this week's activities: which start lines a pattern picks, and
//! the log text once chosen lines carry the new activity.

use vstd::prelude::*;
use regex::Regex;
use crate::daemon::in_week;
use crate::entry::{entry_text, format_line, parse_entry, parse_line, Entry, LogLine};
use crate::log::strings_view;
use crate::text::push_char;

verus! {

#[verifier::external_type_specification]
#[verifier::external_body]
pub struct ExRegex(Regex);

/// Relies on `regex::Regex::new`: compiles a pattern, or says why it is
/// not one.
#[verifier::external_body]
fn compile_pattern(pattern: &str) -> (r: Result<Regex, String>) {
    Regex::new(pattern).map_err(|e| format!("invalid pattern: {}", e))
}

/// Whether `pattern`, compiled by `regex::Regex::new`, matches somewhere in
/// `text`; `None` when it does not compile.
pub uninterp spec fn regex_match(pattern: Seq<char>, text: Seq<char>) -> Option<bool>;

/// Relies on `regex::Regex::new` and `Regex::is_match`: whether the
/// compiled pattern matches somewhere in `text`, which depends on the two
/// strings alone.
#[verifier::external_body]
fn pattern_matches(pattern: &str, text: &str) -> (r: Option<bool>)
    ensures
        r == regex_match(pattern@, text@),
{
    let re = Regex::new(pattern).ok()?;
    Some(re.is_match(text))
}

/// Whether a line holds a start in the week from `week_start` whose
/// activity `pattern` matches.
pub open spec fn picked(line: Seq<char>, week_start: int, pattern: Seq<char>) -> bool {
    match parse_entry(line) {
        Some(Entry::Start(t, a)) => in_week(t as int, week_start) && regex_match(pattern, a)
            == Some(true),
        _ => false,
    }
}

/// The lines, by index and in order, that hold a start in the week from
/// `week_start` whose activity `pattern` matches; an error when `pattern`
/// is no regular expression.
pub fn rename_candidates(lines: &Vec<String>, week_start: i64, pattern: &str) -> (r: Result<
    Vec<usize>,
    String,
>)
    ensures
        r matches Ok(v) ==> forall|k: int|
            0 <= k < v.len() ==> #[trigger] v@[k] < lines.len() && picked(
                lines@[v@[k] as int]@,
                week_start as int,
                pattern@,
            ),
        r matches Ok(v) ==> forall|a: int, b: int| 0 <= a < b < v.len() ==> v@[a] < v@[b],
        r matches Ok(v) ==> forall|i: int|
            0 <= i < lines.len() && picked(#[trigger] lines@[i]@, week_start as int, pattern@)
                ==> v@.contains(i as usize),
{
    compile_pattern(pattern)?;
    let mut out: Vec<usize> = Vec::new();
    let mut i: usize = 0;
    while i < lines.len()
        invariant
            i <= lines.len(),
            forall|k: int|
                0 <= k < out.len() ==> #[trigger] out@[k] < i && picked(
                    lines@[out@[k] as int]@,
                    week_start as int,
                    pattern@,
                ),
            forall|a: int, b: int| 0 <= a < b < out.len() ==> out@[a] < out@[b],
            forall|q: int|
                0 <= q < i && picked(#[trigger] lines@[q]@, week_start as int, pattern@)
                    ==> out@.contains(q as usize),
        decreases lines.len() - i,
    {
        let ghost before = out@;
        let mut take = false;
        if let Some(LogLine::Start(t, a)) = parse_line(lines[i].as_str()) {
            let tt = t as i128;
            let ws = week_start as i128;
            if ws <= tt && tt <= ws + 7 * 86400 - 1 {
                take = pattern_matches(pattern, a.as_str()) == Some(true);
            }
        }
        assert(take == picked(lines@[i as int]@, week_start as int, pattern@));
        if take {
            out.push(i);
            assert(out@[out.len() - 1] == i);
        }
        assert forall|q: int|
            0 <= q < i + 1 && picked(#[trigger] lines@[q]@, week_start as int, pattern@)
                implies out@.contains(q as usize) by {
            if q < i {
                let k = choose|k: int| 0 <= k < before.len() && before[k] == q as usize;
                assert(out@[k] == q as usize);
            } else {
                assert(out@[out.len() - 1] == i);
            }
        }
        i = i + 1;
    }
    Ok(out)
}

/// A line after renaming: a chosen start line says `replacement` as its
/// activity; any other line stays as it is.
pub open spec fn renamed_line(line: Seq<char>, chosen: bool, replacement: Seq<char>) -> Seq<char> {
    if chosen {
        match parse_entry(line) {
            Some(Entry::Start(t, _)) => entry_text(Entry::Start(t, replacement)),
            _ => line,
        }
    } else {
        line
    }
}

/// The log text with the chosen lines renamed, each line ended by a
/// newline.
pub open spec fn renamed_text(lines: Seq<Seq<char>>, chosen: Seq<usize>, replacement: Seq<char>) -> Seq<char>
    decreases lines.len(),
{
    if lines.len() == 0 {
        Seq::empty()
    } else {
        let k = lines.len() - 1;
        renamed_text(lines.drop_last(), chosen, replacement) + renamed_line(
            lines.last(),
            chosen.contains(k as usize),
            replacement,
        ) + seq!['\n']
    }
}

/// The log text after renaming the chosen lines.
pub fn rename_lines(lines: &Vec<String>, chosen: &Vec<usize>, replacement: &String) -> (r: String)
    ensures
        r@ == renamed_text(strings_view(lines@), chosen@, replacement@),
{
    let mut out = String::new();
    let mut i: usize = 0;
    while i < lines.len()
        invariant
            i <= lines.len(),
            out@ == renamed_text(strings_view(lines@.take(i as int)), chosen@, replacement@),
        decreases lines.len() - i,
    {
        let ghost ls = strings_view(lines@.take(i + 1));
        assert(ls.drop_last() =~= strings_view(lines@.take(i as int)));
        assert(ls.last() == lines@[i as int]@);
        let mut k: usize = 0;
        let mut pick = false;
        while k < chosen.len() && !pick
            invariant
                k <= chosen.len(),
                pick ==> k < chosen.len() && chosen@[k as int] == i,
                !pick ==> forall|q: int| 0 <= q < k ==> chosen@[q] != i,
            decreases chosen.len() - k + (if pick {
                0int
            } else {
                1int
            }),
        {
            if chosen[k] == i {
                pick = true;
            } else {
                k = k + 1;
            }
        }
        assert(pick == chosen@.contains(i)) by {
            if pick {
                assert(chosen@[k as int] == i);
            }
        }
        let mut done = false;
        if pick {
            if let Some(LogLine::Start(t, _)) = parse_line(lines[i].as_str()) {
                let line = format_line(&LogLine::Start(t, replacement.clone()));
                out.append(line.as_str());
                done = true;
            }
        }
        if !done {
            out.append(lines[i].as_str());
        }
        push_char(&mut out, '\n');
        assert(out@ =~= renamed_text(ls, chosen@, replacement@));
        i = i + 1;
    }
    assert(lines@.take(i as int) =~= lines@);
    out
}

} // verus!
