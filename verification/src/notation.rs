//! How numbers, clocks and dates are written on the wire and in a game's
//! record.

use crate::decimal::{decimal_digits, decimal_signed, digit_char, digit_str, push_decimal, push_signed};
use chrono::Datelike;
use vstd::prelude::*;

verus! {

/// A number below 100 written with two digits.
pub open spec fn two_digits(n: nat) -> Seq<char> {
    seq![digit_char(n / 10), digit_char(n % 10)]
}

pub fn push_two_digits(out: &mut String, n: u8)
    requires
        n < 100,
    ensures
        final(out)@ == old(out)@ + two_digits(n as nat),
{
    out.append(digit_str(n / 10));
    out.append(digit_str(n % 10));
    assert(old(out)@ + seq![digit_char((n / 10) as nat)] + seq![digit_char((n % 10) as nat)]
        == old(out)@ + two_digits(n as nat));
}

/// A number written with at least two digits.
pub open spec fn at_least_two_digits(n: nat) -> Seq<char> {
    if n < 10 {
        two_digits(n)
    } else {
        decimal_digits(n)
    }
}

pub fn push_at_least_two_digits(out: &mut String, n: u32)
    ensures
        final(out)@ == old(out)@ + at_least_two_digits(n as nat),
{
    if n < 10 {
        push_two_digits(out, n as u8);
    } else {
        push_decimal(out, n as u128);
    }
}

/// A number of hundredths written with two decimals.
pub open spec fn hundredths(n: nat) -> Seq<char> {
    decimal_digits(n / 100) + seq!['.'] + two_digits(n % 100)
}

pub fn push_hundredths(out: &mut String, n: u128)
    ensures
        final(out)@ == old(out)@ + hundredths(n as nat),
{
    proof {
        reveal_strlit(".");
    }
    push_decimal(out, n / 100);
    out.append(".");
    assert("."@ =~= seq!['.']);
    push_two_digits(out, (n % 100) as u8);
    assert(old(out)@ + decimal_digits((n / 100) as nat) + seq!['.'] + two_digits((n % 100) as nat)
        == old(out)@ + hundredths(n as nat));
}

/// A number of tenths written with one decimal.
pub open spec fn tenths(n: nat) -> Seq<char> {
    decimal_digits(n / 10) + seq!['.'] + seq![digit_char(n % 10)]
}

pub fn push_tenths(out: &mut String, n: u128)
    ensures
        final(out)@ == old(out)@ + tenths(n as nat),
{
    proof {
        reveal_strlit(".");
    }
    push_decimal(out, n / 10);
    out.append(".");
    assert("."@ =~= seq!['.']);
    out.append(digit_str((n % 10) as u8));
    assert(old(out)@ + decimal_digits((n / 10) as nat) + seq!['.'] + seq![
        digit_char((n % 10) as nat),
    ] == old(out)@ + tenths(n as nat));
}

/// A quotient rounded to the nearest whole, halves upwards.
pub open spec fn rounded(n: nat, unit: nat) -> nat {
    n / unit + if 2 * (n % unit) >= unit {
        1nat
    } else {
        0nat
    }
}

pub fn round_to(n: u128, unit: u128) -> (r: u128)
    requires
        unit > 0,
    ensures
        r == rounded(n as nat, unit as nat),
{
    let q = n / unit;
    let rest = n % unit;
    if rest >= unit - rest {
        proof {
            vstd::arithmetic::div_mod::lemma_fundamental_div_mod(n as int, unit as int);
            assert(q < n) by (nonlinear_arith)
                requires
                    q == n / unit,
                    2 * (n % unit) >= unit,
                    unit > 0,
                    n == unit * (n / unit) + n % unit,
                    n % unit >= 0,
            ;
        }
        q + 1
    } else {
        q
    }
}

/// A time control as it is written in the clock tag: the base time in
/// minutes and seconds, and the increment in seconds with one decimal. Both
/// are given in milliseconds.
pub open spec fn clock_text(time: nat, increment: nat) -> Seq<char> {
    decimal_digits(time / 1000 / 60) + seq![':'] + two_digits(time / 1000 % 60) + " +"@ + tenths(
        rounded(increment, 100),
    )
}

pub fn push_clock(out: &mut String, time: u64, increment: u64)
    ensures
        final(out)@ == old(out)@ + clock_text(time as nat, increment as nat),
{
    proof {
        reveal_strlit(":");
    }
    let secs = time / 1000;
    push_decimal(out, (secs / 60) as u128);
    out.append(":");
    assert(":"@ =~= seq![':']);
    push_two_digits(out, (secs % 60) as u8);
    out.append(" +");
    let t: u128 = round_to(increment as u128, 100);
    push_tenths(out, t);
    assert(old(out)@ + decimal_digits((secs / 60) as nat) + seq![':'] + two_digits(
        (secs % 60) as nat,
    ) + " +"@ + tenths(t as nat) == old(out)@ + clock_text(time as nat, increment as nat));
}

/// The clock tag of a game: one time control where both sides have the same,
/// else that of white and that of black.
pub open spec fn clock_tag(
    white_time: nat,
    white_inc: nat,
    black_time: nat,
    black_inc: nat,
) -> Seq<char> {
    if white_time == black_time && white_inc == black_inc {
        clock_text(white_time, white_inc)
    } else {
        clock_text(white_time, white_inc) + " vs "@ + clock_text(black_time, black_inc)
    }
}

pub fn clock_tag_string(white_time: u64, white_inc: u64, black_time: u64, black_inc: u64) -> (s:
    String)
    ensures
        s@ == clock_tag(white_time as nat, white_inc as nat, black_time as nat, black_inc as nat),
{
    let mut s = String::new();
    push_clock(&mut s, white_time, white_inc);
    if !(white_time == black_time && white_inc == black_inc) {
        s.append(" vs ");
        push_clock(&mut s, black_time, black_inc);
        assert(s@ == clock_text(white_time as nat, white_inc as nat) + " vs "@ + clock_text(
            black_time as nat,
            black_inc as nat,
        ));
    }
    s
}

/// A day of the calendar.
#[derive(Clone, Copy, Debug, PartialEq, Eq, Structural)]
pub struct Date {
    pub year: i32,
    pub month: u32,
    pub day: u32,
}

/// The day it is by the clock and the time zone of the machine, from
/// `chrono::Local::now`. Which day that is is left open. What is taken on
/// trust is that chrono numbers the months from 1 to 12 and the days of a
/// month from 1 to 31.
#[verifier::external_body]
fn local_date() -> (date: Date)
    ensures
        1 <= date.month <= 12,
        1 <= date.day <= 31,
{
    let now = chrono::Local::now();
    Date { year: now.year(), month: now.month(), day: now.day() }
}

impl Date {
    /// Whether the month and the day are numbers that a month and a day can
    /// have.
    pub open spec fn in_calendar(self) -> bool {
        1 <= self.month <= 12 && 1 <= self.day <= 31
    }

    /// The day it is, where the machine is.
    pub fn today() -> (date: Date)
        ensures
            date.in_calendar(),
    {
        local_date()
    }
}

/// A date as it is written in the date tag: year, month and day with points
/// between them, month and day with two digits.
pub open spec fn date_text(date: Date) -> Seq<char> {
    decimal_signed(date.year as int) + seq!['.'] + at_least_two_digits(date.month as nat) + seq![
        '.',
    ] + at_least_two_digits(date.day as nat)
}

pub fn date_string(date: Date) -> (s: String)
    ensures
        s@ == date_text(date),
{
    proof {
        reveal_strlit(".");
    }
    let mut s = String::new();
    push_signed(&mut s, date.year as i64);
    s.append(".");
    assert("."@ =~= seq!['.']);
    push_at_least_two_digits(&mut s, date.month);
    s.append(".");
    push_at_least_two_digits(&mut s, date.day);
    assert(s@ == date_text(date));
    s
}

/// A komi as it is written in the komi tag, from the number of half points:
/// the points, with `.5` behind them where the number is odd.
pub open spec fn komi_text(half_komi: int) -> Seq<char> {
    let sign = if half_komi < 0 {
        seq!['-']
    } else {
        Seq::<char>::empty()
    };
    let size = if half_komi < 0 {
        (-half_komi) as nat
    } else {
        half_komi as nat
    };
    if size % 2 == 0 {
        sign + decimal_digits(size / 2)
    } else {
        sign + decimal_digits(size / 2) + ".5"@
    }
}

pub fn komi_string(half_komi: i8) -> (s: String)
    ensures
        s@ == komi_text(half_komi as int),
{
    proof {
        reveal_strlit("-");
    }
    let mut s = String::new();
    let size: u128 = if half_komi < 0 {
        s.append("-");
        assert("-"@ =~= seq!['-']);
        (-(half_komi as i16)) as u128
    } else {
        half_komi as u128
    };
    push_decimal(&mut s, size / 2);
    if size % 2 == 1 {
        s.append(".5");
    }
    assert(s@ == komi_text(half_komi as int));
    s
}

} // verus!
