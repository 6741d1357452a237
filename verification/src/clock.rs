//! The local clock, and the time stamp written into output file names
//! (`%Y%m%d_%H%M%S`: year, month, day, `_`, hour, minute, second).

use vstd::prelude::*;
use chrono::{Datelike, Timelike};

verus! {

/// One reading of the local clock: the calendar date and the time of day. A leap second is
/// counted in `nanosecond` from 10^9 on, within second 59.
#[derive(Debug, Clone, Copy, PartialEq, Eq, Structural)]
pub struct ClockReading {
    pub year: i32,
    pub month: u32,
    pub day: u32,
    pub hour: u32,
    pub minute: u32,
    pub second: u32,
    pub nanosecond: u32,
}

/// A reading the clock can give: month 1 to 12, day 1 to 31, hour below 24, minute and second
/// below 60, and a leap second only within second 59.
pub open spec fn clock_valid(t: ClockReading) -> bool {
    &&& 1 <= t.month <= 12
    &&& 1 <= t.day <= 31
    &&& t.hour < 24
    &&& t.minute < 60
    &&& t.second < 60
    &&& t.nanosecond < 2_000_000_000
    &&& t.nanosecond >= 1_000_000_000 ==> t.second == 59
}

/// Calls `chrono::Local::now()` and reads its fields with `Datelike::year`, `month`, `day` and
/// `Timelike::hour`, `minute`, `second`, `nanosecond`. The contract states the ranges that
/// chrono's date and time types keep; the reading itself comes from the system clock.
#[verifier::external_body]
pub(crate) fn local_clock() -> (t: ClockReading)
    ensures
        clock_valid(t),
{
    let now = chrono::Local::now();
    ClockReading {
        year: now.year(),
        month: now.month(),
        day: now.day(),
        hour: now.hour(),
        minute: now.minute(),
        second: now.second(),
        nanosecond: now.nanosecond(),
    }
}

/// The character of decimal digit `d`.
pub open spec fn digit_char(d: int) -> char {
    (d + 48) as char
}

/// `n` in decimal, without leading zeros.
pub open spec fn decimal(n: nat) -> Seq<char>
    decreases n,
{
    if n < 10 {
        seq![digit_char(n as int)]
    } else {
        decimal(n / 10).push(digit_char((n % 10) as int))
    }
}

/// `n` in decimal, left-padded with zeros to at least `width` digits.
pub open spec fn padded(n: nat, width: nat) -> Seq<char> {
    if decimal(n).len() < width {
        Seq::new((width - decimal(n).len()) as nat, |_i: int| '0') + decimal(n)
    } else {
        decimal(n)
    }
}

/// The year as `%Y` writes it: four digits for years 0 to 9999, otherwise a sign and at least
/// four digits.
pub open spec fn year_text(y: int) -> Seq<char> {
    if 0 <= y <= 9999 {
        padded(y as nat, 4)
    } else if y < 0 {
        seq!['-'] + padded((-y) as nat, 4)
    } else {
        seq!['+'] + padded(y as nat, 4)
    }
}

/// The time stamp of reading `t`, as `%Y%m%d_%H%M%S` writes it (a leap second shows as 60).
pub open spec fn timestamp_text(t: ClockReading) -> Seq<char> {
    year_text(t.year as int) + padded(t.month as nat, 2) + padded(t.day as nat, 2) + seq!['_']
        + padded(t.hour as nat, 2) + padded(t.minute as nat, 2)
        + padded((t.second + t.nanosecond / 1_000_000_000) as nat, 2)
}

/// Appends decimal digit `d`.
fn push_digit(s: &mut String, d: u64)
    requires
        d < 10,
    ensures
        final(s)@ == old(s)@.push(digit_char(d as int)),
{
    let digits = "0123456789";
    proof {
        reveal_strlit("0123456789");
    }
    let one = digits.substring_char(d as usize, (d + 1) as usize);
    s.append(one);
    assert(one@ =~= seq![digit_char(d as int)]);
    assert(s@ =~= old(s)@.push(digit_char(d as int)));
}

/// Appends `n` in decimal.
fn push_decimal(s: &mut String, n: u64)
    ensures
        final(s)@ == old(s)@ + decimal(n as nat),
    decreases n,
{
    if n >= 10 {
        push_decimal(s, n / 10);
    }
    push_digit(s, n % 10);
    assert(final(s)@ =~= old(s)@ + decimal(n as nat)) by {
        if n >= 10 {
            assert(decimal(n as nat) == decimal((n / 10) as nat).push(digit_char((n % 10) as int)));
        }
    }
}

/// Number of decimal digits of `n`.
fn decimal_len(n: u64) -> (r: u64)
    ensures
        r == decimal(n as nat).len(),
        r <= n + 1,
    decreases n,
{
    if n >= 10 {
        decimal_len(n / 10) + 1
    } else {
        1
    }
}

/// Appends `n` zero-padded to at least `width` digits.
fn push_padded(s: &mut String, n: u64, width: u64)
    requires
        width <= 4,
    ensures
        final(s)@ == old(s)@ + padded(n as nat, width as nat),
{
    let ghost start = s@;
    let len = decimal_len(n);
    if len < width {
        let mut k: u64 = 0;
        while k < width - len
            invariant
                0 <= k <= width - len,
                len < width,
                s@ == start + Seq::new(k as nat, |_i: int| '0'),
            decreases width - len - k,
        {
            push_digit(s, 0);
            k = k + 1;
            assert(s@ =~= start + Seq::new(k as nat, |_i: int| '0'));
        }
    }
    push_decimal(s, n);
    assert(s@ =~= start + padded(n as nat, width as nat));
}

/// The time stamp of reading `t`.
pub fn timestamp_of(t: &ClockReading) -> (r: String)
    requires
        clock_valid(*t),
    ensures
        r@ == timestamp_text(*t),
{
    let mut s = String::new();
    let y = t.year as i64;
    if 0 <= y && y <= 9999 {
        push_padded(&mut s, y as u64, 4);
    } else if y < 0 {
        s.append("-");
        proof { reveal_strlit("-"); }
        push_padded(&mut s, (-y) as u64, 4);
    } else {
        s.append("+");
        proof { reveal_strlit("+"); }
        push_padded(&mut s, y as u64, 4);
    }
    assert(s@ =~= year_text(t.year as int));
    push_padded(&mut s, t.month as u64, 2);
    push_padded(&mut s, t.day as u64, 2);
    s.append("_");
    proof { reveal_strlit("_"); }
    push_padded(&mut s, t.hour as u64, 2);
    push_padded(&mut s, t.minute as u64, 2);
    push_padded(&mut s, (t.second + t.nanosecond / 1_000_000_000) as u64, 2);
    assert(s@ =~= timestamp_text(*t));
    s
}

} // verus!
