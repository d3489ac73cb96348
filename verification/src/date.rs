//! RFC 1123 date codec.
//!
//! Turns a Unix timestamp (seconds since the epoch, always GMT) into the
//! fixed 29-character date string `"Www, dd Mmm yyyy hh:mm:ss GMT"`, and
//! back.  The calendar arithmetic uses only integer operations: days are
//! decomposed into 400-year, 100-year, 4-year and 1-year cycles of the
//! civil calendar, and months are laid out March-first so that the leap
//! day falls at the end of the month table.
//!
//! Supported range: from the epoch up to (excluding) the year 10000.
//! Timestamps beyond that are a programmer error, ruled out by
//! `requires`, not reported through `HTTPError`.

use vstd::prelude::*;
use vstd::arithmetic::div_mod::{
    lemma_fundamental_div_mod, lemma_fundamental_div_mod_converse, lemma_mod_mod,
};
use crate::text::{ascii_view, is_ascii_bytes, digit_byte, ascii_bytes_to_string};

verus! {

/// One more second than the largest supported timestamp
/// (the first instant of the year 10000).
pub const MAX_HTTP_DATE_SECONDS: u64 = 253402300800;

// Day counts of the calendar cycles: 400 years hold 97 leap days,
// 100 years hold 24, 4 years hold 1.
pub const DAYS_PER_400Y: u64 = 146097;
pub const DAYS_PER_100Y: u64 = 36524;
pub const DAYS_PER_4Y: u64 = 1461;

/// Days between 1600-03-01 and 1970-01-01.  Counting days of the shifted
/// calendar from 1600-03-01 (one full 400-year cycle before the
/// 2000-03-01 anchor) keeps every quantity non-negative.
pub const EPOCH_SHIFT_DAYS: u64 = 135080;

/// Days since 1600-03-01 of the civil day holding timestamp `t`.
pub open spec fn spec_dshift(t: int) -> int {
    t / 86400 + 135080
}

/// Seconds into the day.
pub open spec fn spec_secs_of_day(t: int) -> int {
    t % 86400
}

/// Completed 400-year cycles since 1600-03-01.
pub open spec fn spec_qc_cycles(t: int) -> int {
    spec_dshift(t) / 146097
}

/// Days into the current 400-year cycle.
pub open spec fn spec_rem400(t: int) -> int {
    spec_dshift(t) % 146097
}

/// Completed 100-year cycles within the 400-year cycle; the last day of
/// the cycle (the leap day closing it) stays in the third century.
pub open spec fn spec_c_cycles(t: int) -> int {
    if spec_rem400(t) / 36524 == 4 {
        3
    } else {
        spec_rem400(t) / 36524
    }
}

/// Days into the current century.
pub open spec fn spec_rem100(t: int) -> int {
    spec_rem400(t) - spec_c_cycles(t) * 36524
}

/// Completed 4-year cycles within the century.
pub open spec fn spec_q_cycles(t: int) -> int {
    if spec_rem100(t) / 1461 == 25 {
        24
    } else {
        spec_rem100(t) / 1461
    }
}

/// Days into the current 4-year cycle.
pub open spec fn spec_rem4y(t: int) -> int {
    spec_rem100(t) - spec_q_cycles(t) * 1461
}

/// Completed years within the 4-year cycle; the leap day at its end
/// stays in the third year.
pub open spec fn spec_rem_years(t: int) -> int {
    if spec_rem4y(t) / 365 == 4 {
        3
    } else {
        spec_rem4y(t) / 365
    }
}

/// Days into the current March-first year.
pub open spec fn spec_rem_days(t: int) -> int {
    spec_rem4y(t) - spec_rem_years(t) * 365
}

/// Days before the `m` first months of the March-first year, whose month
/// lengths are 31,30,31,30,31,31,30,31,30,31,31,29.
pub open spec fn month_prefix(m: int) -> int {
    if m <= 0 {
        0
    } else if m == 1 {
        31
    } else if m == 2 {
        61
    } else if m == 3 {
        92
    } else if m == 4 {
        122
    } else if m == 5 {
        153
    } else if m == 6 {
        184
    } else if m == 7 {
        214
    } else if m == 8 {
        245
    } else if m == 9 {
        275
    } else if m == 10 {
        306
    } else if m == 11 {
        337
    } else {
        366
    }
}

/// The month (1 = March .. 12 = February) holding day `spec_rem_days`.
pub open spec fn spec_month_march(t: int) -> int {
    let r = spec_rem_days(t);
    if r < 31 {
        1
    } else if r < 61 {
        2
    } else if r < 92 {
        3
    } else if r < 122 {
        4
    } else if r < 153 {
        5
    } else if r < 184 {
        6
    } else if r < 214 {
        7
    } else if r < 245 {
        8
    } else if r < 275 {
        9
    } else if r < 306 {
        10
    } else if r < 337 {
        11
    } else {
        12
    }
}

/// Day of the month, starting at 1.
pub open spec fn spec_mday(t: int) -> int {
    spec_rem_days(t) - month_prefix(spec_month_march(t) - 1) + 1
}

/// The March-first year, assembled from the cycles (1600-based).
pub open spec fn spec_year_march(t: int) -> int {
    1600 + 400 * spec_qc_cycles(t) + 100 * spec_c_cycles(t) + 4 * spec_q_cycles(t)
        + spec_rem_years(t)
}

/// Calendar month, January = 1.
pub open spec fn spec_month(t: int) -> int {
    if spec_month_march(t) + 2 > 12 {
        spec_month_march(t) - 10
    } else {
        spec_month_march(t) + 2
    }
}

/// Calendar year; January and February belong to the year after their
/// March-first year.
pub open spec fn spec_year(t: int) -> int {
    if spec_month_march(t) + 2 > 12 {
        spec_year_march(t) + 1
    } else {
        spec_year_march(t)
    }
}

/// Weekday, Monday = 1 .. Sunday = 7.  1600-03-01 was a Wednesday, so an
/// offset of 3 makes the count come out right; 400 years are exact weeks.
pub open spec fn spec_wday(t: int) -> int {
    let w = (spec_dshift(t) + 3) % 7;
    if w == 0 {
        7
    } else {
        w
    }
}

pub open spec fn spec_hour(t: int) -> int {
    spec_secs_of_day(t) / 3600
}

pub open spec fn spec_minute(t: int) -> int {
    (spec_secs_of_day(t) % 3600) / 60
}

pub open spec fn spec_second(t: int) -> int {
    spec_secs_of_day(t) % 60
}

/// The three name bytes of a weekday (Monday = 1 .. Sunday = 7).
pub open spec fn wday_bytes(w: int) -> Seq<u8> {
    if w == 1 {
        seq![('M' as u8), ('o' as u8), ('n' as u8)]
    } else if w == 2 {
        seq![('T' as u8), ('u' as u8), ('e' as u8)]
    } else if w == 3 {
        seq![('W' as u8), ('e' as u8), ('d' as u8)]
    } else if w == 4 {
        seq![('T' as u8), ('h' as u8), ('u' as u8)]
    } else if w == 5 {
        seq![('F' as u8), ('r' as u8), ('i' as u8)]
    } else if w == 6 {
        seq![('S' as u8), ('a' as u8), ('t' as u8)]
    } else {
        seq![('S' as u8), ('u' as u8), ('n' as u8)]
    }
}

/// The three name bytes of a calendar month (January = 1 .. December = 12).
pub open spec fn month_bytes(m: int) -> Seq<u8> {
    if m == 1 {
        seq![('J' as u8), ('a' as u8), ('n' as u8)]
    } else if m == 2 {
        seq![('F' as u8), ('e' as u8), ('b' as u8)]
    } else if m == 3 {
        seq![('M' as u8), ('a' as u8), ('r' as u8)]
    } else if m == 4 {
        seq![('A' as u8), ('p' as u8), ('r' as u8)]
    } else if m == 5 {
        seq![('M' as u8), ('a' as u8), ('y' as u8)]
    } else if m == 6 {
        seq![('J' as u8), ('u' as u8), ('n' as u8)]
    } else if m == 7 {
        seq![('J' as u8), ('u' as u8), ('l' as u8)]
    } else if m == 8 {
        seq![('A' as u8), ('u' as u8), ('g' as u8)]
    } else if m == 9 {
        seq![('S' as u8), ('e' as u8), ('p' as u8)]
    } else if m == 10 {
        seq![('O' as u8), ('c' as u8), ('t' as u8)]
    } else if m == 11 {
        seq![('N' as u8), ('o' as u8), ('v' as u8)]
    } else {
        seq![('D' as u8), ('e' as u8), ('c' as u8)]
    }
}

/// Two zero-padded decimal digit bytes.
pub open spec fn two_digit_bytes(n: int) -> Seq<u8> {
    seq![digit_byte(n / 10), digit_byte(n % 10)]
}

/// Four zero-padded decimal digit bytes.
pub open spec fn four_digit_bytes(n: int) -> Seq<u8> {
    seq![
        digit_byte(n / 1000),
        digit_byte((n / 100) % 10),
        digit_byte((n / 10) % 10),
        digit_byte(n % 10),
    ]
}

/// The 29 bytes of the RFC 1123 date for timestamp `t`.
pub open spec fn spec_http_date_bytes(t: int) -> Seq<u8> {
    wday_bytes(spec_wday(t)) + seq![(',' as u8), (' ' as u8)] + two_digit_bytes(spec_mday(t)) + seq![(' ' as u8)]
        + month_bytes(spec_month(t)) + seq![(' ' as u8)] + four_digit_bytes(spec_year(t)) + seq![(' ' as u8)]
        + two_digit_bytes(spec_hour(t)) + seq![(':' as u8)] + two_digit_bytes(spec_minute(t))
        + seq![(':' as u8)] + two_digit_bytes(spec_second(t)) + seq![(' ' as u8), ('G' as u8), ('M' as u8), ('T' as u8)]
}

/// The 29 characters of the RFC 1123 date for timestamp `t`.
pub open spec fn spec_http_date(t: int) -> Seq<char> {
    ascii_view(spec_http_date_bytes(t))
}

/// The cycle decomposition is exact and every calendar field is in range.
pub proof fn lemma_date_decomposition(t: int)
    requires
        0 <= t < 253402300800,
    ensures
        spec_dshift(t) == 146097 * spec_qc_cycles(t) + 36524 * spec_c_cycles(t) + 1461
            * spec_q_cycles(t) + 365 * spec_rem_years(t) + spec_rem_days(t),
        135080 <= spec_dshift(t) <= 3067976,
        0 <= spec_qc_cycles(t) <= 20,
        0 <= spec_c_cycles(t) <= 3,
        0 <= spec_q_cycles(t) <= 24,
        0 <= spec_rem_years(t) <= 3,
        0 <= spec_rem_days(t) <= 365,
        1 <= spec_month_march(t) <= 12,
        month_prefix(spec_month_march(t) - 1) <= spec_rem_days(t) < month_prefix(
            spec_month_march(t),
        ),
        1 <= spec_mday(t) <= 31,
        1 <= spec_month(t) <= 12,
        1600 <= spec_year(t) <= 9999,
        1 <= spec_wday(t) <= 7,
        0 <= spec_hour(t) <= 23,
        0 <= spec_minute(t) <= 59,
        0 <= spec_second(t) <= 59,
        t == (spec_dshift(t) - 135080) * 86400 + 3600 * spec_hour(t) + 60 * spec_minute(t)
            + spec_second(t),
{
    let d = spec_dshift(t);
    lemma_fundamental_div_mod(t, 86400);
    assert(0 <= t / 86400 <= 2932896);
    let rem400 = spec_rem400(t);
    lemma_fundamental_div_mod(d, 146097);
    assert(0 <= rem400 < 146097);
    let cc = spec_c_cycles(t);
    lemma_fundamental_div_mod(rem400, 36524);
    assert(0 <= rem400 / 36524 <= 4);
    let rem100 = spec_rem100(t);
    assert(0 <= rem100 <= 36524);
    lemma_fundamental_div_mod(rem100, 1461);
    assert(0 <= rem100 / 1461 <= 24);
    let rem4y = spec_rem4y(t);
    assert(0 <= rem4y <= 1460);
    lemma_fundamental_div_mod(rem4y, 365);
    assert(0 <= rem4y / 365 <= 4);
    let remd = spec_rem_days(t);
    assert(0 <= remd <= 365);

    // year bound: a year of 10000 or more would need more days than the
    // range allows
    assert(d <= 3067976);
    assert(spec_year(t) <= 9999) by {
        if spec_year(t) > 9999 {
            if spec_month_march(t) + 2 > 12 {
                assert(spec_year_march(t) >= 9999);
                assert(400 * spec_qc_cycles(t) >= 8399 - 100 * 3 - 4 * 24 - 3);
                assert(spec_qc_cycles(t) >= 20);
                if spec_qc_cycles(t) == 20 {
                    assert(spec_c_cycles(t) == 3 && spec_q_cycles(t) == 24
                        && spec_rem_years(t) == 3);
                    assert(spec_rem_days(t) >= 306);
                    assert(d >= 146097 * 20 + 36524 * 3 + 1461 * 24 + 365 * 3 + 306);
                } else {
                    assert(d >= 146097 * 21);
                }
            } else {
                assert(spec_year_march(t) >= 10000);
                assert(400 * spec_qc_cycles(t) >= 8400 - 100 * 3 - 4 * 24 - 3);
                assert(spec_qc_cycles(t) >= 21);
                assert(d >= 146097 * 21);
            }
        }
    }

    // seconds of the day decompose into hour, minute, second
    let sod = spec_secs_of_day(t);
    lemma_fundamental_div_mod(sod, 3600);
    lemma_fundamental_div_mod(sod % 3600, 60);
    lemma_mod_mod(sod, 60, 60);
    assert(0 <= sod < 86400);
}

/// The date string is 29 ASCII bytes.
#[verifier::rlimit(60)]
pub proof fn lemma_http_date_bytes_ascii(t: int)
    requires
        0 <= t < 253402300800,
    ensures
        is_ascii_bytes(spec_http_date_bytes(t)),
        spec_http_date_bytes(t).len() == 29,
{
    lemma_date_decomposition(t);
    let b = spec_http_date_bytes(t);
    assert(wday_bytes(spec_wday(t)).len() == 3);
    assert(month_bytes(spec_month(t)).len() == 3);
    assert(b.len() == 29);
    assert forall|i: int| 0 <= i < b.len() implies b[i] < 128 by {
        assert(b[i] == spec_http_date_bytes(t)[i]);
    }
}

/// Appends the three name bytes of weekday `w`.
fn push_wday(v: &mut Vec<u8>, w: u64)
    requires
        1 <= w <= 7,
    ensures
        final(v)@ == old(v)@ + wday_bytes(w as int),
{
    if w == 1 {
        v.push('M' as u8);
        v.push('o' as u8);
        v.push('n' as u8);
    } else if w == 2 {
        v.push('T' as u8);
        v.push('u' as u8);
        v.push('e' as u8);
    } else if w == 3 {
        v.push('W' as u8);
        v.push('e' as u8);
        v.push('d' as u8);
    } else if w == 4 {
        v.push('T' as u8);
        v.push('h' as u8);
        v.push('u' as u8);
    } else if w == 5 {
        v.push('F' as u8);
        v.push('r' as u8);
        v.push('i' as u8);
    } else if w == 6 {
        v.push('S' as u8);
        v.push('a' as u8);
        v.push('t' as u8);
    } else {
        v.push('S' as u8);
        v.push('u' as u8);
        v.push('n' as u8);
    }
    assert(v@ =~= old(v)@ + wday_bytes(w as int));
}

/// Appends the three name bytes of calendar month `m`.
fn push_month(v: &mut Vec<u8>, m: u64)
    requires
        1 <= m <= 12,
    ensures
        final(v)@ == old(v)@ + month_bytes(m as int),
{
    if m == 1 {
        v.push('J' as u8);
        v.push('a' as u8);
        v.push('n' as u8);
    } else if m == 2 {
        v.push('F' as u8);
        v.push('e' as u8);
        v.push('b' as u8);
    } else if m == 3 {
        v.push('M' as u8);
        v.push('a' as u8);
        v.push('r' as u8);
    } else if m == 4 {
        v.push('A' as u8);
        v.push('p' as u8);
        v.push('r' as u8);
    } else if m == 5 {
        v.push('M' as u8);
        v.push('a' as u8);
        v.push('y' as u8);
    } else if m == 6 {
        v.push('J' as u8);
        v.push('u' as u8);
        v.push('n' as u8);
    } else if m == 7 {
        v.push('J' as u8);
        v.push('u' as u8);
        v.push('l' as u8);
    } else if m == 8 {
        v.push('A' as u8);
        v.push('u' as u8);
        v.push('g' as u8);
    } else if m == 9 {
        v.push('S' as u8);
        v.push('e' as u8);
        v.push('p' as u8);
    } else if m == 10 {
        v.push('O' as u8);
        v.push('c' as u8);
        v.push('t' as u8);
    } else if m == 11 {
        v.push('N' as u8);
        v.push('o' as u8);
        v.push('v' as u8);
    } else {
        v.push('D' as u8);
        v.push('e' as u8);
        v.push('c' as u8);
    }
    assert(v@ =~= old(v)@ + month_bytes(m as int));
}

/// Appends `n` as two zero-padded digits.
fn push_two_digits(v: &mut Vec<u8>, n: u64)
    requires
        n <= 99,
    ensures
        final(v)@ == old(v)@ + two_digit_bytes(n as int),
{
    v.push(48 + (n / 10) as u8);
    v.push(48 + (n % 10) as u8);
    assert(v@ =~= old(v)@ + two_digit_bytes(n as int));
}

/// Appends `n` as four zero-padded digits.
fn push_four_digits(v: &mut Vec<u8>, n: u64)
    requires
        n <= 9999,
    ensures
        final(v)@ == old(v)@ + four_digit_bytes(n as int),
{
    v.push(48 + (n / 1000) as u8);
    v.push(48 + ((n / 100) % 10) as u8);
    v.push(48 + ((n / 10) % 10) as u8);
    v.push(48 + (n % 10) as u8);
    assert(v@ =~= old(v)@ + four_digit_bytes(n as int));
}

/// Encodes a timestamp as its RFC 1123 date string, e.g.
/// `"Thu, 01 Jan 1970 00:00:00 GMT"`.
#[verifier::rlimit(80)]
pub fn turn_system_time_to_http_date(seconds_since_epoch: u64) -> (r: String)
    requires
        seconds_since_epoch < MAX_HTTP_DATE_SECONDS,
    ensures
        r@ == spec_http_date(seconds_since_epoch as int),
        r@.len() == 29,
{
    let t = seconds_since_epoch;
    let ghost ti = t as int;
    proof {
        lemma_date_decomposition(ti);
    }
    let dshift: u64 = t / 86400 + EPOCH_SHIFT_DAYS;
    let secs_of_day: u64 = t % 86400;
    assert(dshift as int == spec_dshift(ti));

    let qc_cycles: u64 = dshift / DAYS_PER_400Y;
    let mut remdays: u64 = dshift % DAYS_PER_400Y;
    assert(remdays as int == spec_rem400(ti));

    let mut c_cycles: u64 = remdays / DAYS_PER_100Y;
    if c_cycles == 4 {
        c_cycles = 3;
    }
    assert(c_cycles as int == spec_c_cycles(ti));
    proof {
        lemma_fundamental_div_mod(remdays as int, 36524);
    }
    remdays = remdays - c_cycles * DAYS_PER_100Y;
    assert(remdays as int == spec_rem100(ti));

    let mut q_cycles: u64 = remdays / DAYS_PER_4Y;
    if q_cycles == 25 {
        q_cycles = 24;
    }
    assert(q_cycles as int == spec_q_cycles(ti));
    proof {
        lemma_fundamental_div_mod(remdays as int, 1461);
    }
    remdays = remdays - q_cycles * DAYS_PER_4Y;
    assert(remdays as int == spec_rem4y(ti));

    let mut rem_years: u64 = remdays / 365;
    if rem_years == 4 {
        rem_years = 3;
    }
    assert(rem_years as int == spec_rem_years(ti));
    proof {
        lemma_fundamental_div_mod(remdays as int, 365);
    }
    remdays = remdays - rem_years * 365;
    assert(remdays as int == spec_rem_days(ti));

    let year_march: u64 = 1600 + 400 * qc_cycles + 100 * c_cycles + 4 * q_cycles + rem_years;
    assert(year_march as int == spec_year_march(ti));

    // month of the March-first year, and the day within it
    let (month_march, mday): (u64, u64) = if remdays < 31 {
        (1, remdays + 1)
    } else if remdays < 61 {
        (2, remdays - 30)
    } else if remdays < 92 {
        (3, remdays - 60)
    } else if remdays < 122 {
        (4, remdays - 91)
    } else if remdays < 153 {
        (5, remdays - 121)
    } else if remdays < 184 {
        (6, remdays - 152)
    } else if remdays < 214 {
        (7, remdays - 183)
    } else if remdays < 245 {
        (8, remdays - 213)
    } else if remdays < 275 {
        (9, remdays - 244)
    } else if remdays < 306 {
        (10, remdays - 274)
    } else if remdays < 337 {
        (11, remdays - 305)
    } else {
        (12, remdays - 336)
    };
    assert(month_march as int == spec_month_march(ti));
    assert(mday as int == spec_mday(ti));

    // back to calendar months: January and February close the next year
    let (month, year): (u64, u64) = if month_march + 2 > 12 {
        (month_march - 10, year_march + 1)
    } else {
        (month_march + 2, year_march)
    };
    assert(month as int == spec_month(ti));
    assert(year as int == spec_year(ti));

    let w0: u64 = (dshift + 3) % 7;
    let wday: u64 = if w0 == 0 {
        7
    } else {
        w0
    };
    assert(wday as int == spec_wday(ti));

    let hour: u64 = secs_of_day / 3600;
    let minute: u64 = (secs_of_day % 3600) / 60;
    let second: u64 = secs_of_day % 60;

    let mut v: Vec<u8> = Vec::new();
    push_wday(&mut v, wday);
    v.push(',' as u8);
    v.push(' ' as u8);
    push_two_digits(&mut v, mday);
    v.push(' ' as u8);
    push_month(&mut v, month);
    v.push(' ' as u8);
    push_four_digits(&mut v, year);
    v.push(' ' as u8);
    push_two_digits(&mut v, hour);
    v.push(':' as u8);
    push_two_digits(&mut v, minute);
    v.push(':' as u8);
    push_two_digits(&mut v, second);
    v.push(' ' as u8);
    v.push('G' as u8);
    v.push('M' as u8);
    v.push('T' as u8);

    proof {
        assert(v@ =~= spec_http_date_bytes(ti));
        lemma_http_date_bytes_ascii(ti);
    }
    ascii_bytes_to_string(v)
}

/// The numeric value of a digit character.
pub open spec fn char_val(c: char) -> int {
    c as u32 - 48
}

pub open spec fn is_digit(c: char) -> bool {
    '0' <= c && c <= '9'
}

/// The calendar month named by three characters, or 0 when they name none.
pub open spec fn spec_month_of_name(a: char, b: char, c: char) -> int {
    if a == 'J' && b == 'a' && c == 'n' {
        1
    } else if a == 'F' && b == 'e' && c == 'b' {
        2
    } else if a == 'M' && b == 'a' && c == 'r' {
        3
    } else if a == 'A' && b == 'p' && c == 'r' {
        4
    } else if a == 'M' && b == 'a' && c == 'y' {
        5
    } else if a == 'J' && b == 'u' && c == 'n' {
        6
    } else if a == 'J' && b == 'u' && c == 'l' {
        7
    } else if a == 'A' && b == 'u' && c == 'g' {
        8
    } else if a == 'S' && b == 'e' && c == 'p' {
        9
    } else if a == 'O' && b == 'c' && c == 't' {
        10
    } else if a == 'N' && b == 'o' && c == 'v' {
        11
    } else if a == 'D' && b == 'e' && c == 'c' {
        12
    } else {
        0
    }
}

/// Days since 1600-03-01 of the civil date `year-month-mday`
/// (the inverse of the cycle decomposition).
pub open spec fn spec_days_from_civil(year: int, month: int, mday: int) -> int {
    let monm = if month >= 3 {
        month - 2
    } else {
        month + 10
    };
    let ym = if month >= 3 {
        year
    } else {
        year - 1
    };
    let yoff = ym - 1600;
    let qcs = yoff / 400;
    let rest = yoff % 400;
    let cc = rest / 100;
    let qc = (rest % 100) / 4;
    let ry = rest % 4;
    146097 * qcs + 36524 * cc + 1461 * qc + 365 * ry + month_prefix(monm - 1) + (mday - 1)
}

/// The timestamp read back from a 29-character RFC 1123 date string.
/// The weekday name is not checked, and the day of the month is not
/// checked against the month's length: the digits are taken at face
/// value and folded back through the calendar.
pub open spec fn spec_decode_http_date(s: Seq<char>) -> Option<int> {
    if s.len() != 29 {
        None
    } else if !(s[3] == ',' && s[4] == ' ' && s[7] == ' ' && s[11] == ' ' && s[16] == ' '
        && s[19] == ':' && s[22] == ':' && s[25] == ' ' && s[26] == 'G' && s[27] == 'M'
        && s[28] == 'T') {
        None
    } else if !(is_digit(s[5]) && is_digit(s[6]) && is_digit(s[12]) && is_digit(s[13])
        && is_digit(s[14]) && is_digit(s[15]) && is_digit(s[17]) && is_digit(s[18])
        && is_digit(s[20]) && is_digit(s[21]) && is_digit(s[23]) && is_digit(s[24])) {
        None
    } else {
        let month = spec_month_of_name(s[8], s[9], s[10]);
        let mday = char_val(s[5]) * 10 + char_val(s[6]);
        let year = char_val(s[12]) * 1000 + char_val(s[13]) * 100 + char_val(s[14]) * 10
            + char_val(s[15]);
        let hour = char_val(s[17]) * 10 + char_val(s[18]);
        let minute = char_val(s[20]) * 10 + char_val(s[21]);
        let second = char_val(s[23]) * 10 + char_val(s[24]);
        if month == 0 || mday < 1 || year < 1601 || hour > 23 || minute > 59 || second > 59 {
            None
        } else {
            let v = (spec_days_from_civil(year, month, mday) - 135080) * 86400 + hour * 3600
                + minute * 60 + second;
            if 0 <= v < 253402300800 {
                Some(v)
            } else {
                None
            }
        }
    }
}

/// A two-digit rendering reads back as its value.
proof fn lemma_two_digit_value(n: int)
    requires
        0 <= n <= 99,
    ensures
        char_val(ascii_view(two_digit_bytes(n))[0]) == n / 10,
        char_val(ascii_view(two_digit_bytes(n))[1]) == n % 10,
        char_val(ascii_view(two_digit_bytes(n))[0]) * 10 + char_val(
            ascii_view(two_digit_bytes(n))[1],
        ) == n,
        is_digit(ascii_view(two_digit_bytes(n))[0]),
        is_digit(ascii_view(two_digit_bytes(n))[1]),
{
    lemma_fundamental_div_mod(n, 10);
}

/// A four-digit rendering reads back as its value.
proof fn lemma_four_digit_value(n: int)
    requires
        0 <= n <= 9999,
    ensures
        char_val(ascii_view(four_digit_bytes(n))[0]) * 1000 + char_val(
            ascii_view(four_digit_bytes(n))[1],
        ) * 100 + char_val(ascii_view(four_digit_bytes(n))[2]) * 10 + char_val(
            ascii_view(four_digit_bytes(n))[3],
        ) == n,
        is_digit(ascii_view(four_digit_bytes(n))[0]),
        is_digit(ascii_view(four_digit_bytes(n))[1]),
        is_digit(ascii_view(four_digit_bytes(n))[2]),
        is_digit(ascii_view(four_digit_bytes(n))[3]),
{
    lemma_fundamental_div_mod(n, 1000);
    assert(n % 1000 == n % ((100int) * 10));
    vstd::arithmetic::div_mod::lemma_mod_breakdown(n, 100, 10);
    assert(n % 100 == n % ((10int) * 10));
    vstd::arithmetic::div_mod::lemma_mod_breakdown(n, 10, 10);
}

/// Encoding a timestamp and reading the string back recovers it exactly.
#[verifier::rlimit(80)]
pub proof fn lemma_http_date_round_trip(t: int)
    requires
        0 <= t < 253402300800,
    ensures
        spec_decode_http_date(spec_http_date(t)) == Some(t),
{
    lemma_date_decomposition(t);
    lemma_http_date_bytes_ascii(t);
    let b = spec_http_date_bytes(t);
    let s = spec_http_date(t);
    assert(s.len() == 29);
    assert(forall|i: int| 0 <= i < 29 ==> s[i] == #[trigger] b[i] as char);

    let wb = wday_bytes(spec_wday(t));
    let mb = month_bytes(spec_month(t));
    assert(wb.len() == 3 && mb.len() == 3);

    // where each field sits in the byte string
    let dayb = two_digit_bytes(spec_mday(t));
    let yearb = four_digit_bytes(spec_year(t));
    let hourb = two_digit_bytes(spec_hour(t));
    let minb = two_digit_bytes(spec_minute(t));
    let secb = two_digit_bytes(spec_second(t));
    assert(b[3] == (',' as u8) && b[4] == (' ' as u8));
    assert(b[5] == dayb[0] && b[6] == dayb[1]);
    assert(b[7] == (' ' as u8));
    assert(b[8] == mb[0] && b[9] == mb[1] && b[10] == mb[2]);
    assert(b[11] == (' ' as u8));
    assert(b[12] == yearb[0] && b[13] == yearb[1] && b[14] == yearb[2] && b[15] == yearb[3]);
    assert(b[16] == (' ' as u8));
    assert(b[17] == hourb[0] && b[18] == hourb[1]);
    assert(b[19] == (':' as u8));
    assert(b[20] == minb[0] && b[21] == minb[1]);
    assert(b[22] == (':' as u8));
    assert(b[23] == secb[0] && b[24] == secb[1]);
    assert(b[25] == (' ' as u8) && b[26] == ('G' as u8) && b[27] == ('M' as u8) && b[28] == ('T'
        as u8));

    lemma_two_digit_value(spec_mday(t));
    lemma_four_digit_value(spec_year(t));
    lemma_two_digit_value(spec_hour(t));
    lemma_two_digit_value(spec_minute(t));
    lemma_two_digit_value(spec_second(t));

    // the month name maps back to the month number
    assert(spec_month_of_name(s[8], s[9], s[10]) == spec_month(t));

    // the fields fold back to the same day count
    let year = spec_year(t);
    let month = spec_month(t);
    let monm = spec_month_march(t);
    assert(year >= 1969);
    lemma_days_from_civil_inverse(t);

    // and the day count and clock fields fold back to the timestamp
    assert(spec_decode_http_date(s) == Some(t));
}

/// Folding the encoded calendar fields back through
/// `spec_days_from_civil` recovers the day count.
proof fn lemma_days_from_civil_inverse(t: int)
    requires
        0 <= t < 253402300800,
    ensures
        spec_days_from_civil(spec_year(t), spec_month(t), spec_mday(t)) == spec_dshift(t),
{
    lemma_date_decomposition(t);
    let monm = spec_month_march(t);
    let month = spec_month(t);
    let year = spec_year(t);
    // the March-first month and year are recovered exactly
    assert((if month >= 3 { month - 2 } else { month + 10 }) == monm);
    assert((if month >= 3 { year } else { year - 1 }) == spec_year_march(t));

    let yoff = spec_year_march(t) - 1600;
    let qcs = spec_qc_cycles(t);
    let cc = spec_c_cycles(t);
    let qc = spec_q_cycles(t);
    let ry = spec_rem_years(t);
    let rest = 100 * cc + 4 * qc + ry;
    assert(yoff == 400 * qcs + rest);
    assert(0 <= rest < 400);
    lemma_fundamental_div_mod_converse(yoff, 400, qcs, rest);
    lemma_fundamental_div_mod_converse(rest, 100, cc, 4 * qc + ry);
    lemma_fundamental_div_mod_converse(4 * qc + ry, 4, qc, ry);
    assert(yoff / 400 == qcs && yoff % 400 == rest);
    assert(rest / 100 == cc && rest % 100 == 4 * qc + ry);
    assert((rest % 100) / 4 == qc && (rest % 100) % 4 == ry);
    assert(spec_mday(t) - 1 == spec_rem_days(t) - month_prefix(monm - 1));
}

/// Reads a timestamp back from an RFC 1123 date string.  Returns `None`
/// when the string does not have the fixed 29-character shape.
#[verifier::rlimit(80)]
pub fn http_date_to_timestamp(s: &str) -> (r: Option<u64>)
    ensures
        r is Some <==> spec_decode_http_date(s@) is Some,
        r matches Some(v) ==> spec_decode_http_date(s@) == Some(v as int),
{
    let n = s.unicode_len();
    if n != 29 {
        return None;
    }
    let c3 = s.get_char(3);
    let c4 = s.get_char(4);
    let c7 = s.get_char(7);
    let c11 = s.get_char(11);
    let c16 = s.get_char(16);
    let c19 = s.get_char(19);
    let c22 = s.get_char(22);
    let c25 = s.get_char(25);
    let c26 = s.get_char(26);
    let c27 = s.get_char(27);
    let c28 = s.get_char(28);
    if !(c3 == ',' && c4 == ' ' && c7 == ' ' && c11 == ' ' && c16 == ' ' && c19 == ':' && c22
        == ':' && c25 == ' ' && c26 == 'G' && c27 == 'M' && c28 == 'T') {
        return None;
    }
    let c5 = s.get_char(5);
    let c6 = s.get_char(6);
    let c12 = s.get_char(12);
    let c13 = s.get_char(13);
    let c14 = s.get_char(14);
    let c15 = s.get_char(15);
    let c17 = s.get_char(17);
    let c18 = s.get_char(18);
    let c20 = s.get_char(20);
    let c21 = s.get_char(21);
    let c23 = s.get_char(23);
    let c24 = s.get_char(24);
    if !(is_digit_char(c5) && is_digit_char(c6) && is_digit_char(c12) && is_digit_char(c13)
        && is_digit_char(c14) && is_digit_char(c15) && is_digit_char(c17) && is_digit_char(c18)
        && is_digit_char(c20) && is_digit_char(c21) && is_digit_char(c23) && is_digit_char(c24)) {
        return None;
    }
    let c8 = s.get_char(8);
    let c9 = s.get_char(9);
    let c10 = s.get_char(10);
    let month: u64 = if c8 == 'J' && c9 == 'a' && c10 == 'n' {
        1
    } else if c8 == 'F' && c9 == 'e' && c10 == 'b' {
        2
    } else if c8 == 'M' && c9 == 'a' && c10 == 'r' {
        3
    } else if c8 == 'A' && c9 == 'p' && c10 == 'r' {
        4
    } else if c8 == 'M' && c9 == 'a' && c10 == 'y' {
        5
    } else if c8 == 'J' && c9 == 'u' && c10 == 'n' {
        6
    } else if c8 == 'J' && c9 == 'u' && c10 == 'l' {
        7
    } else if c8 == 'A' && c9 == 'u' && c10 == 'g' {
        8
    } else if c8 == 'S' && c9 == 'e' && c10 == 'p' {
        9
    } else if c8 == 'O' && c9 == 'c' && c10 == 't' {
        10
    } else if c8 == 'N' && c9 == 'o' && c10 == 'v' {
        11
    } else if c8 == 'D' && c9 == 'e' && c10 == 'c' {
        12
    } else {
        return None;
    };
    assert(month as int == spec_month_of_name(c8, c9, c10));

    let mday: u64 = digit_of(c5) * 10 + digit_of(c6);
    let year: u64 = digit_of(c12) * 1000 + digit_of(c13) * 100 + digit_of(c14) * 10 + digit_of(
        c15,
    );
    let hour: u64 = digit_of(c17) * 10 + digit_of(c18);
    let minute: u64 = digit_of(c20) * 10 + digit_of(c21);
    let second: u64 = digit_of(c23) * 10 + digit_of(c24);
    if mday < 1 || year < 1601 || hour > 23 || minute > 59 || second > 59 {
        return None;
    }

    // fold the civil date back into a day count since 1600-03-01
    let (monm, ym): (u64, u64) = if month >= 3 {
        (month - 2, year)
    } else {
        (month + 10, year - 1)
    };
    let yoff: u64 = ym - 1600;
    let qcs: u64 = yoff / 400;
    let rest: u64 = yoff % 400;
    let cc: u64 = rest / 100;
    let qc: u64 = (rest % 100) / 4;
    let ry: u64 = rest % 4;
    let prefix: u64 = month_prefix_of(monm - 1);
    let days: u64 = 146097 * qcs + 36524 * cc + 1461 * qc + 365 * ry + prefix + (mday - 1);
    assert(days as int == spec_days_from_civil(year as int, month as int, mday as int));

    let sod: u64 = hour * 3600 + minute * 60 + second;
    if days < EPOCH_SHIFT_DAYS {
        return None;
    }
    let v: u64 = (days - EPOCH_SHIFT_DAYS) * 86400 + sod;
    if v >= MAX_HTTP_DATE_SECONDS {
        return None;
    }
    Some(v)
}

/// True when the character is a decimal digit.
fn is_digit_char(c: char) -> (r: bool)
    ensures
        r == is_digit(c),
{
    '0' <= c && c <= '9'
}

/// The numeric value of a digit character.
fn digit_of(c: char) -> (r: u64)
    requires
        is_digit(c),
    ensures
        r == char_val(c),
        r <= 9,
{
    (c as u32 - 48) as u64
}

/// `month_prefix` as executable code.
fn month_prefix_of(m: u64) -> (r: u64)
    requires
        m <= 12,
    ensures
        r as int == month_prefix(m as int),
{
    if m == 0 {
        0
    } else if m == 1 {
        31
    } else if m == 2 {
        61
    } else if m == 3 {
        92
    } else if m == 4 {
        122
    } else if m == 5 {
        153
    } else if m == 6 {
        184
    } else if m == 7 {
        214
    } else if m == 8 {
        245
    } else if m == 9 {
        275
    } else if m == 10 {
        306
    } else if m == 11 {
        337
    } else {
        366
    }
}

} // verus!
