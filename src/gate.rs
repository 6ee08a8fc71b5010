//! The once-per-day, per-version gate on the "app started" event, and the
//! calendar-day text it compares.

use vstd::prelude::*;

verus! {

/// Prefix of the settings key under which the last tracked day is kept.
pub const APP_STARTED_TRACKED_DAY_KEY_PREFIX: &'static str = "analytics.app_started_day.";

/// The settings key for a version: the prefix followed by the version.
pub open spec fn day_key_of(version: Seq<char>) -> Seq<char> {
    "analytics.app_started_day."@ + version
}

/// The settings key that holds the last day tracked for `version`.
pub fn app_started_day_key(version: &str) -> (r: String)
    ensures
        r@ == day_key_of(version@),
{
    String::from_str(APP_STARTED_TRACKED_DAY_KEY_PREFIX).concat(version)
}

/// The event is tracked unless it was already tracked on `today`.
pub fn should_track_app_started(last_tracked_day: Option<&str>, today: &str) -> (r: bool)
    ensures
        r == match last_tracked_day {
            Some(day) => day@ != today@,
            None => true,
        },
{
    match last_tracked_day {
        Some(day) => String::from_str(day) != String::from_str(today),
        None => true,
    }
}

/// The decimal digit `d`.
pub open spec fn digit_char(d: nat) -> char {
    if d < 10 {
        (('0' as nat) + d) as char
    } else {
        '0'
    }
}

/// Decimal digits of `n`, without leading zeros.
pub open spec fn digits(n: nat) -> Seq<char>
    decreases n,
{
    if n < 10 {
        seq![digit_char(n)]
    } else {
        digits(n / 10).push(digit_char(n % 10))
    }
}

/// Decimal digits of `n`, left-padded with zeros to at least `w` characters.
pub open spec fn padded(n: nat, w: nat) -> Seq<char> {
    let d = digits(n);
    if d.len() < w {
        Seq::new((w - d.len()) as nat, |i: int| '0') + d
    } else {
        d
    }
}

/// A year zero-padded to four characters, a minus sign counting as one.
pub open spec fn year_text(y: int) -> Seq<char> {
    if y >= 0 {
        padded(y as nat, 4)
    } else {
        seq!['-'] + padded((-y) as nat, 3)
    }
}

/// A calendar day as `YYYY-MM-DD`.
pub open spec fn ymd_text(y: int, m: nat, d: nat) -> Seq<char> {
    year_text(y) + seq!['-'] + padded(m, 2) + seq!['-'] + padded(d, 2)
}

fn digit_str(d: u32) -> (r: &'static str)
    requires
        d < 10,
    ensures
        r@ == seq![digit_char(d as nat)],
{
    proof {
        reveal_strlit("0");
        reveal_strlit("1");
        reveal_strlit("2");
        reveal_strlit("3");
        reveal_strlit("4");
        reveal_strlit("5");
        reveal_strlit("6");
        reveal_strlit("7");
        reveal_strlit("8");
        reveal_strlit("9");
    }
    match d {
        0 => "0",
        1 => "1",
        2 => "2",
        3 => "3",
        4 => "4",
        5 => "5",
        6 => "6",
        7 => "7",
        8 => "8",
        _ => "9",
    }
}

fn push_digits(out: &mut String, n: u32)
    ensures
        final(out)@ == old(out)@ + digits(n as nat),
    decreases n,
{
    if n >= 10 {
        push_digits(out, n / 10);
        out.append(digit_str(n % 10));
        assert(digits(n as nat) == digits((n / 10) as nat).push(digit_char((n % 10) as nat)));
    } else {
        out.append(digit_str(n));
    }
}

fn digit_count(n: u32) -> (r: u32)
    ensures
        r as nat == digits(n as nat).len(),
        r as int <= n as int + 1,
    decreases n,
{
    if n >= 10 {
        1 + digit_count(n / 10)
    } else {
        1
    }
}

fn push_padded(out: &mut String, n: u32, w: u32)
    requires
        w <= 4,
    ensures
        final(out)@ == old(out)@ + padded(n as nat, w as nat),
{
    let c = digit_count(n);
    let ghost start = out@;
    if c < w {
        let mut k: u32 = c;
        while k < w
            invariant
                c <= k <= w,
                out@ == start + Seq::new((k - c) as nat, |i: int| '0'),
            decreases w - k,
        {
            out.append("0");
            proof {
                reveal_strlit("0");
            }
            assert(Seq::new((k + 1 - c) as nat, |i: int| '0') =~= Seq::new(
                (k - c) as nat,
                |i: int| '0',
            ).push('0'));
            k = k + 1;
        }
    }
    push_digits(out, n);
    assert(out@ =~= start + padded(n as nat, w as nat));
}

/// A calendar day written as `YYYY-MM-DD`, each part zero-padded.
pub fn format_ymd(year: i32, month: u8, day: u8) -> (r: String)
    ensures
        r@ == ymd_text(year as int, month as nat, day as nat),
{
    let mut out = String::new();
    if year >= 0 {
        push_padded(&mut out, year as u32, 4);
    } else {
        out.append("-");
        proof {
            reveal_strlit("-");
        }
        let magnitude: u32 = (-(year as i64)) as u32;
        push_padded(&mut out, magnitude, 3);
    }
    out.append("-");
    push_padded(&mut out, month as u32, 2);
    out.append("-");
    push_padded(&mut out, day as u32, 2);
    proof {
        reveal_strlit("-");
    }
    assert(out@ =~= ymd_text(year as int, month as nat, day as nat));
    out
}

/// Relies on `time::OffsetDateTime::now_utc` and `Date::{year, month, day}`:
/// today's UTC date, its year within the crate's default range, its month
/// numbered 1 to 12 and its day 1 to 31.
#[verifier::external_body]
fn utc_today() -> (r: (i32, u8, u8))
    ensures
        -9999 <= r.0 <= 9999,
        1 <= r.1 <= 12,
        1 <= r.2 <= 31,
{
    let date = time::OffsetDateTime::now_utc().date();
    (date.year(), date.month() as u8, date.day())
}

/// Today's UTC date as `YYYY-MM-DD`.
pub fn today_utc_ymd() -> (r: String)
    ensures
        exists|y: int, m: nat, d: nat|
            -9999 <= y <= 9999 && 1 <= m <= 12 && 1 <= d <= 31 && r@ == ymd_text(y, m, d),
{
    let (y, m, d) = utc_today();
    format_ymd(y, m, d)
}

} // verus!
