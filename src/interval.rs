//! The reminder interval: the duration grammar of the interval command and
//! the value kept in the interval file.

use vstd::prelude::*;
use crate::text::{
    all_digits, chars_of, digits_capped, digits_value, is_digit, parse_u64,
    parse_u64_in, push_char, push_digits, digits_of, trim, trim_bounds,
};

verus! {

/// Interval used when none is configured, in seconds.
pub const DEFAULT_INTERVAL_SECS: u64 = 300;

/// Seconds that a unit letter stands for.
pub open spec fn unit_seconds(c: char) -> Option<nat> {
    if c == 'h' || c == 'H' {
        Some(3600)
    } else if c == 'm' || c == 'M' {
        Some(60)
    } else if c == 's' || c == 'S' {
        Some(1)
    } else {
        None
    }
}

/// Length of the run of digits that `s` begins with.
pub open spec fn digit_run(s: Seq<char>) -> nat
    decreases s.len(),
{
    if s.len() > 0 && is_digit(s[0]) {
        1 + digit_run(s.drop_first())
    } else {
        0
    }
}

proof fn lemma_digit_run(s: Seq<char>)
    ensures
        digit_run(s) <= s.len(),
        all_digits(s.take(digit_run(s) as int)),
    decreases s.len(),
{
    if s.len() > 0 && is_digit(s[0]) {
        lemma_digit_run(s.drop_first());
        let k = digit_run(s) as int;
        assert forall|i: int| 0 <= i < k implies is_digit(#[trigger] s.take(k)[i]) by {
            if i > 0 {
                assert(s.take(k)[i] == s.drop_first().take(k - 1)[i - 1]);
            }
        }
    }
}

/// Seconds that a duration text adds up to: each run of digits is a number,
/// followed by `h`, `m` or `s` (either case) or else counted as minutes;
/// other characters are passed over.
pub open spec fn duration_seconds(s: Seq<char>) -> nat
    decreases s.len(),
{
    if s.len() == 0 {
        0
    } else if !is_digit(s[0]) {
        duration_seconds(s.drop_first())
    } else {
        let k = digit_run(s);
        let n = digits_value(s.take(k as int));
        let rest = s.skip(k as int);
        if k <= s.len() && rest.len() > 0 && unit_seconds(rest[0]) is Some {
            n * unit_seconds(rest[0])->0 + duration_seconds(rest.drop_first())
        } else if 0 < k <= s.len() {
            n * 60 + duration_seconds(rest)
        } else {
            0
        }
    }
}

pub open spec fn capped(n: nat, cap: nat) -> nat {
    if n < cap {
        n
    } else {
        cap
    }
}

/// Parses a duration such as `3`, `3m`, `100s` or `1h30m` into seconds.
/// It is rejected when it is blank, adds up to zero, or does not fit in
/// `u64`.
pub fn parse_interval_duration(s: &str) -> (r: Result<u64, String>)
    ensures
        trim(s@).len() == 0 ==> r is Err && r->Err_0@ == "interval cannot be empty"@,
        trim(s@).len() > 0 && duration_seconds(trim(s@)) == 0 ==> r is Err && r->Err_0@
            == "interval must be positive"@,
        trim(s@).len() > 0 && duration_seconds(trim(s@)) > u64::MAX ==> r is Err && r->Err_0@
            == "interval too large"@,
        trim(s@).len() > 0 && 0 < duration_seconds(trim(s@)) <= u64::MAX ==> r == Ok::<
            u64,
            String,
        >(duration_seconds(trim(s@)) as u64),
{
    let v = chars_of(s);
    let (lo, hi) = trim_bounds(&v, 0, v.len());
    assert(v@.subrange(0, v.len() as int) =~= s@);
    if lo == hi {
        return Err(String::from_str("interval cannot be empty"));
    }
    let ghost t = v@.subrange(lo as int, hi as int);
    let cap: u128 = 0x1_0000_0000_0000_0000;
    let mut acc: u128 = 0;
    let ghost mut partial: nat = 0;
    let mut i = lo;
    while i < hi
        invariant
            lo <= i <= hi <= v.len(),
            t == v@.subrange(lo as int, hi as int),
            cap == 0x1_0000_0000_0000_0000u128,
            duration_seconds(t) == partial + duration_seconds(v@.subrange(i as int, hi as int)),
            acc == capped(partial, cap as nat),
        decreases hi - i,
    {
        let ghost u = v@.subrange(i as int, hi as int);
        let c = v[i];
        let code = c as u32;
        if !(48 <= code && code <= 57) {
            assert(u.drop_first() =~= v@.subrange(i + 1, hi as int));
            i = i + 1;
        } else {
            let mut j = i;
            while j < hi && (48 <= v[j] as u32 && v[j] as u32 <= 57)
                invariant
                    i <= j <= hi <= v.len(),
                    u == v@.subrange(i as int, hi as int),
                    digit_run(u) == (j - i) + digit_run(v@.subrange(j as int, hi as int)),
                decreases hi - j,
            {
                assert(v@.subrange(j as int, hi as int).drop_first() =~= v@.subrange(
                    j + 1,
                    hi as int,
                ));
                j = j + 1;
            }
            proof {
                lemma_digit_run(u);
            }
            let k = j - i;
            assert(u.take(k as int) =~= v@.subrange(i as int, j as int));
            assert(u.skip(k as int) =~= v@.subrange(j as int, hi as int));
            let n = match digits_capped(&v, i, j, cap) {
                Some(n) => n,
                None => 0,
            };
            let ghost nv = digits_value(u.take(k as int));
            assert(n == capped(nv, cap as nat));
            let (mult, next): (u128, usize) = if j < hi && (v[j] == 'h' || v[j] == 'H') {
                (3600, j + 1)
            } else if j < hi && (v[j] == 'm' || v[j] == 'M') {
                (60, j + 1)
            } else if j < hi && (v[j] == 's' || v[j] == 'S') {
                (1, j + 1)
            } else {
                (60, j)
            };
            assert(next > j ==> v@.subrange(j as int, hi as int).drop_first() =~= v@.subrange(
                j + 1,
                hi as int,
            ));
            let ghost add: nat = (nv * mult) as nat;
            assert(n * mult <= cap * 3600) by (nonlinear_arith)
                requires
                    n <= cap,
                    1 <= mult <= 3600,
            ;
            let step = n * mult;
            assert(step == add || (step >= cap && add >= cap)) by (nonlinear_arith)
                requires
                    n == capped(nv, cap as nat),
                    1 <= mult <= 3600,
                    add == nv * mult,
                    step == n * mult,
            {
            }
            let sum = acc + step;
            acc = if sum < cap {
                sum
            } else {
                cap
            };
            proof {
                partial = (partial + add) as nat;
            }
            i = next;
        }
    }
    assert(v@.subrange(hi as int, hi as int) =~= Seq::<char>::empty());
    if acc == 0 {
        Err(String::from_str("interval must be positive"))
    } else if acc >= cap {
        Err(String::from_str("interval too large"))
    } else {
        Ok(acc as u64)
    }
}

/// The interval that the interval file's text gives: its trimmed text read
/// as an unsigned decimal, or the default when that fails.
pub fn interval_from_text(text: &str) -> (secs: u64)
    ensures
        secs == match parse_u64(trim(text@)) {
            Some(n) => n,
            None => DEFAULT_INTERVAL_SECS,
        },
{
    let v = chars_of(text);
    let (lo, hi) = trim_bounds(&v, 0, v.len());
    assert(v@.subrange(0, v.len() as int) =~= text@);
    match parse_u64_in(&v, lo, hi) {
        Some(n) => n,
        None => DEFAULT_INTERVAL_SECS,
    }
}

/// The text to store in the interval file; `None` for zero, which is no
/// interval.
pub fn interval_record(secs: u64) -> (r: Option<String>)
    ensures
        secs == 0 ==> r is None,
        secs > 0 ==> r is Some && r->0@ == digits_of(secs as nat),
{
    if secs == 0 {
        return None;
    }
    let mut out = String::new();
    push_digits(&mut out, secs as u128);
    assert(out@ =~= digits_of(secs as nat));
    Some(out)
}

/// An interval as shown to the user: whole hours as `<n>h`, else whole
/// minutes as `<n>m`, else `<n>s`.
pub open spec fn interval_display(secs: nat) -> Seq<char> {
    if secs >= 3600 && secs % 3600 == 0 {
        digits_of(secs / 3600).push('h')
    } else if secs >= 60 && secs % 60 == 0 {
        digits_of(secs / 60).push('m')
    } else {
        digits_of(secs).push('s')
    }
}

pub fn interval_text(secs: u64) -> (r: String)
    ensures
        r@ == interval_display(secs as nat),
{
    let mut out = String::new();
    if secs >= 3600 && secs % 3600 == 0 {
        push_digits(&mut out, (secs / 3600) as u128);
        push_char(&mut out, 'h');
    } else if secs >= 60 && secs % 60 == 0 {
        push_digits(&mut out, (secs / 60) as u128);
        push_char(&mut out, 'm');
    } else {
        push_digits(&mut out, secs as u128);
        push_char(&mut out, 's');
    }
    assert(out@ =~= interval_display(secs as nat));
    out
}

} // verus!
