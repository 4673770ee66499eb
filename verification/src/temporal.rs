//! Codecs for the temporal payloads.  Each variant has one canonical,
//! zero-padded textual pattern:
//!
//! - date: `YYYY-MM-DD` (proleptic Gregorian),
//! - time: `HH:MM:SS`,
//! - datetime: `YYYY-MM-DDTHH:MM:SS`,
//! - zoned datetime: `YYYY-MM-DDTHH:MM:SS[+HH:MM]` (or a `-` offset),
//! - duration: `PT<seconds>S`, the sign, if any, in front of the `P`.
//!
//! Decoding accepts exactly the canonical patterns (for durations, also a
//! non-canonical digit run such as `PT007S`), rejecting impossible
//! calendar dates and out-of-range clock fields.

use vstd::prelude::*;
use vstd::string::*;
use crate::num::{all_digs, dec_val, dig_val, is_dig, u_digits, scan_i64, push_u_digits, lemma_u_digits};

use crate::value::{Date, Time, DateTime, ZonedDateTime, Duration};

verus! {

pub open spec fn leap_year(y: int) -> bool {
    y % 4 == 0 && (y % 100 != 0 || y % 400 == 0)
}

pub open spec fn days_in_month(y: int, m: int) -> int {
    if m == 2 {
        if leap_year(y) {
            29
        } else {
            28
        }
    } else if m == 4 || m == 6 || m == 9 || m == 11 {
        30
    } else {
        31
    }
}

pub open spec fn date_wf(d: Date) -> bool {
    &&& d.year <= 9999
    &&& 1 <= d.month <= 12
    &&& 1 <= d.day <= days_in_month(d.year as int, d.month as int)
}

pub open spec fn time_wf(t: Time) -> bool {
    t.hour <= 23 && t.minute <= 59 && t.second <= 59
}

pub open spec fn datetime_wf(dt: DateTime) -> bool {
    date_wf(dt.date) && time_wf(dt.time)
}

pub open spec fn zdt_wf(z: ZonedDateTime) -> bool {
    datetime_wf(z.datetime) && -1439 <= z.offset_minutes <= 1439
}

// ----- canonical text ------------------------------------------------------

pub open spec fn two_digits(n: int) -> Seq<char> {
    seq![(48 + n / 10) as char, (48 + n % 10) as char]
}

pub open spec fn four_digits(n: int) -> Seq<char> {
    two_digits(n / 100) + two_digits(n % 100)
}

pub open spec fn date_text(d: Date) -> Seq<char> {
    four_digits(d.year as int) + seq!['-'] + two_digits(d.month as int) + seq!['-']
        + two_digits(d.day as int)
}

pub open spec fn time_text(t: Time) -> Seq<char> {
    two_digits(t.hour as int) + seq![':'] + two_digits(t.minute as int) + seq![':']
        + two_digits(t.second as int)
}

pub open spec fn datetime_text(dt: DateTime) -> Seq<char> {
    date_text(dt.date) + seq!['T'] + time_text(dt.time)
}

pub open spec fn zdt_text(z: ZonedDateTime) -> Seq<char> {
    datetime_text(z.datetime) + seq!['['] + seq![
        if z.offset_minutes < 0 {
            '-'
        } else {
            '+'
        },
    ] + two_digits(abs_minutes(z) / 60) + seq![':'] + two_digits(abs_minutes(z) % 60) + seq![']']
}

pub open spec fn abs_minutes(z: ZonedDateTime) -> int {
    if z.offset_minutes < 0 {
        -(z.offset_minutes as int)
    } else {
        z.offset_minutes as int
    }
}

pub open spec fn duration_text(d: Duration) -> Seq<char> {
    if d.seconds < 0 {
        seq!['-', 'P', 'T'] + u_digits((-(d.seconds as int)) as nat) + seq!['S']
    } else {
        seq!['P', 'T'] + u_digits(d.seconds as nat) + seq!['S']
    }
}

// ----- what a payload text denotes -----------------------------------------

pub open spec fn date_of_text(s: Seq<char>) -> Option<Date> {
    if s.len() == 10 && s[4] == '-' && s[7] == '-' && all_digs(s.subrange(0, 4)) && all_digs(
        s.subrange(5, 7),
    ) && all_digs(s.subrange(8, 10)) {
        let y = dec_val(s.subrange(0, 4));
        let mo = dec_val(s.subrange(5, 7));
        let da = dec_val(s.subrange(8, 10));
        if 1 <= mo <= 12 && 1 <= da <= days_in_month(y, mo) {
            Some(Date { year: y as u16, month: mo as u8, day: da as u8 })
        } else {
            None
        }
    } else {
        None
    }
}

pub open spec fn time_of_text(s: Seq<char>) -> Option<Time> {
    if s.len() == 8 && s[2] == ':' && s[5] == ':' && all_digs(s.subrange(0, 2)) && all_digs(
        s.subrange(3, 5),
    ) && all_digs(s.subrange(6, 8)) {
        let h = dec_val(s.subrange(0, 2));
        let mi = dec_val(s.subrange(3, 5));
        let se = dec_val(s.subrange(6, 8));
        if h <= 23 && mi <= 59 && se <= 59 {
            Some(Time { hour: h as u8, minute: mi as u8, second: se as u8 })
        } else {
            None
        }
    } else {
        None
    }
}

pub open spec fn datetime_of_text(s: Seq<char>) -> Option<DateTime> {
    if s.len() == 19 && s[10] == 'T' {
        match (date_of_text(s.subrange(0, 10)), time_of_text(s.subrange(11, 19))) {
            (Some(d), Some(t)) => Some(DateTime { date: d, time: t }),
            _ => None,
        }
    } else {
        None
    }
}

pub open spec fn zdt_of_text(s: Seq<char>) -> Option<ZonedDateTime> {
    if s.len() == 27 && s[19] == '[' && (s[20] == '+' || s[20] == '-') && s[23] == ':' && s[26]
        == ']' && all_digs(s.subrange(21, 23)) && all_digs(s.subrange(24, 26)) {
        match datetime_of_text(s.subrange(0, 19)) {
            Some(dt) => {
                let oh = dec_val(s.subrange(21, 23));
                let om = dec_val(s.subrange(24, 26));
                if oh <= 23 && om <= 59 {
                    let a = oh * 60 + om;
                    Some(
                        ZonedDateTime {
                            datetime: dt,
                            offset_minutes: (if s[20] == '-' {
                                -a
                            } else {
                                a
                            }) as i16,
                        },
                    )
                } else {
                    None
                }
            },
            None => None,
        }
    } else {
        None
    }
}

pub open spec fn duration_of_text(s: Seq<char>) -> Option<Duration> {
    let neg = s.len() > 0 && s[0] == '-';
    let b: Seq<char> = if neg {
        s.subrange(1, s.len() as int)
    } else {
        s
    };
    if b.len() >= 4 && b[0] == 'P' && b[1] == 'T' && b.last() == 'S' && all_digs(
        b.subrange(2, b.len() - 1),
    ) {
        let m = dec_val(b.subrange(2, b.len() - 1));
        let v = if neg {
            -m
        } else {
            m
        };
        if i64::MIN <= v <= i64::MAX {
            Some(Duration { seconds: v as i64 })
        } else {
            None
        }
    } else {
        None
    }
}

// ----- executable parsers --------------------------------------------------

fn days_in_month_x(y: u16, m: u8) -> (r: u8)
    ensures
        r as int == days_in_month(y as int, m as int),
{
    if m == 2 {
        if y % 4 == 0 && (y % 100 != 0 || y % 400 == 0) {
            29
        } else {
            28
        }
    } else if m == 4 || m == 6 || m == 9 || m == 11 {
        30
    } else {
        31
    }
}

/// Reads the digits at `from .. to` (a short fixed-width field); the
/// result is the field's value.
fn read_field(s: &str, from: usize, to: usize) -> (r: Option<u16>)
    requires
        from <= to <= s@.len(),
        to - from <= 4,
    ensures
        ({
            let t = s@.subrange(from as int, to as int);
            match r {
                Some(u) => from < to && all_digs(t) && u as int == dec_val(t),
                None => !(from < to && all_digs(t)),
            }
        }),
{
    let ghost t = s@.subrange(from as int, to as int);
    proof {
        if from < to && all_digs(t) {
            lemma_dec_val_small(t);
        }
    }
    match scan_i64(s, from, to, false) {
        Some(v) => {
            proof {
                lemma_dec_val_small(t);
            }
            Some(v as u16)
        },
        None => None,
    }
}

pub proof fn lemma_dec_val_small(s: Seq<char>)
    requires
        all_digs(s),
        s.len() <= 4,
    ensures
        0 <= dec_val(s),
        s.len() <= 1 ==> dec_val(s) <= 9,
        s.len() <= 2 ==> dec_val(s) <= 99,
        s.len() <= 3 ==> dec_val(s) <= 999,
        s.len() <= 4 ==> dec_val(s) <= 9999,
    decreases s.len(),
{
    if s.len() > 0 {
        assert(all_digs(s.drop_last()));
        lemma_dec_val_small(s.drop_last());
    }
}

/// Decodes a `YYYY-MM-DD` date payload; rejects impossible calendar
/// dates.
pub fn parse_date(s: &str) -> (r: Option<Date>)
    ensures
        r == date_of_text(s@),
{
    let n = s.unicode_len();
    if n != 10 {
        return None;
    }
    if s.get_char(4) != '-' || s.get_char(7) != '-' {
        return None;
    }
    let y = match read_field(s, 0, 4) {
        Some(v) => v,
        None => {
            return None;
        },
    };
    let mo = match read_field(s, 5, 7) {
        Some(v) => v,
        None => {
            return None;
        },
    };
    let da = match read_field(s, 8, 10) {
        Some(v) => v,
        None => {
            return None;
        },
    };
    if mo < 1 || mo > 12 {
        return None;
    }
    let dm = days_in_month_x(y, mo as u8);
    if da < 1 || da > dm as u16 {
        return None;
    }
    Some(Date { year: y, month: mo as u8, day: da as u8 })
}

/// Decodes an `HH:MM:SS` time payload; rejects out-of-range fields.
pub fn parse_time(s: &str) -> (r: Option<Time>)
    ensures
        r == time_of_text(s@),
{
    let n = s.unicode_len();
    if n != 8 {
        return None;
    }
    if s.get_char(2) != ':' || s.get_char(5) != ':' {
        return None;
    }
    let h = match read_field(s, 0, 2) {
        Some(v) => v,
        None => {
            return None;
        },
    };
    let mi = match read_field(s, 3, 5) {
        Some(v) => v,
        None => {
            return None;
        },
    };
    let se = match read_field(s, 6, 8) {
        Some(v) => v,
        None => {
            return None;
        },
    };
    if h > 23 || mi > 59 || se > 59 {
        return None;
    }
    Some(Time { hour: h as u8, minute: mi as u8, second: se as u8 })
}

/// Decodes a `YYYY-MM-DDTHH:MM:SS` timestamp payload.
pub fn parse_datetime(s: &str) -> (r: Option<DateTime>)
    ensures
        r == datetime_of_text(s@),
{
    let n = s.unicode_len();
    if n != 19 {
        return None;
    }
    if s.get_char(10) != 'T' {
        return None;
    }
    let d = match parse_date(s.substring_char(0, 10)) {
        Some(v) => v,
        None => {
            return None;
        },
    };
    let t = match parse_time(s.substring_char(11, 19)) {
        Some(v) => v,
        None => {
            return None;
        },
    };
    Some(DateTime { date: d, time: t })
}

/// Decodes a `YYYY-MM-DDTHH:MM:SS[+HH:MM]` zoned timestamp payload.
pub fn parse_zdt(s: &str) -> (r: Option<ZonedDateTime>)
    ensures
        r == zdt_of_text(s@),
{
    let n = s.unicode_len();
    if n != 27 {
        return None;
    }
    let sign = s.get_char(20);
    if s.get_char(19) != '[' || (sign != '+' && sign != '-') || s.get_char(23) != ':'
        || s.get_char(26) != ']' {
        return None;
    }
    let dt = match parse_datetime(s.substring_char(0, 19)) {
        Some(v) => v,
        None => {
            return None;
        },
    };
    let oh = match read_field(s, 21, 23) {
        Some(v) => v,
        None => {
            return None;
        },
    };
    let om = match read_field(s, 24, 26) {
        Some(v) => v,
        None => {
            return None;
        },
    };
    if oh > 23 || om > 59 {
        return None;
    }
    let a: i16 = (oh * 60 + om) as i16;
    let off: i16 = if sign == '-' {
        -a
    } else {
        a
    };
    Some(ZonedDateTime { datetime: dt, offset_minutes: off })
}

/// Decodes a `PT<seconds>S` duration payload, with an optional leading
/// minus sign.
pub fn parse_duration(s: &str) -> (r: Option<Duration>)
    ensures
        r == duration_of_text(s@),
{
    let n = s.unicode_len();
    let neg = n > 0 && s.get_char(0) == '-';
    let off: usize = if neg {
        1
    } else {
        0
    };
    let ghost b = if neg {
        s@.subrange(1, n as int)
    } else {
        s@
    };
    proof {
        assert(b =~= s@.subrange(off as int, n as int));
    }
    if n < off + 4 {
        return None;
    }
    if s.get_char(off) != 'P' || s.get_char(off + 1) != 'T' || s.get_char(n - 1) != 'S' {
        proof {
            assert(b[0] == s@[off as int]);
            assert(b[1] == s@[off as int + 1]);
            assert(b.last() == s@[n - 1]);
        }
        return None;
    }
    let ghost mid = b.subrange(2, b.len() - 1);
    proof {
        assert(mid =~= s@.subrange(off as int + 2, n - 1));
        assert(b[0] == s@[off as int]);
        assert(b[1] == s@[off as int + 1]);
        assert(b.last() == s@[n - 1]);
    }
    match scan_i64(s, off + 2, n - 1, neg) {
        Some(v) => Some(Duration { seconds: v }),
        None => None,
    }
}

// ----- executable formatters -----------------------------------------------

fn push_2(out: &mut String, n: u8)
    requires
        n <= 99,
    ensures
        final(out)@ == old(out)@ + two_digits(n as int),
{
    out.push((48 + n / 10) as char);
    out.push((48 + n % 10) as char);
    proof {
        assert(final(out)@ =~= old(out)@ + two_digits(n as int));
    }
}

fn push_date(out: &mut String, d: &Date)
    requires
        date_wf(*d),
    ensures
        final(out)@ == old(out)@ + date_text(*d),
{
    push_2(out, (d.year / 100) as u8);
    push_2(out, (d.year % 100) as u8);
    out.push('-');
    push_2(out, d.month);
    out.push('-');
    push_2(out, d.day);
    proof {
        assert(final(out)@ =~= old(out)@ + date_text(*d));
    }
}

fn push_time(out: &mut String, t: &Time)
    requires
        time_wf(*t),
    ensures
        final(out)@ == old(out)@ + time_text(*t),
{
    push_2(out, t.hour);
    out.push(':');
    push_2(out, t.minute);
    out.push(':');
    push_2(out, t.second);
    proof {
        assert(final(out)@ =~= old(out)@ + time_text(*t));
    }
}

fn push_datetime(out: &mut String, dt: &DateTime)
    requires
        datetime_wf(*dt),
    ensures
        final(out)@ == old(out)@ + datetime_text(*dt),
{
    push_date(out, &dt.date);
    out.push('T');
    push_time(out, &dt.time);
    proof {
        assert(final(out)@ =~= old(out)@ + datetime_text(*dt));
    }
}

/// Encodes a date in its canonical pattern.
pub fn format_date(d: &Date) -> (s: String)
    requires
        date_wf(*d),
    ensures
        s@ == date_text(*d),
{
    let mut s = String::new();
    push_date(&mut s, d);
    s
}

/// Encodes a time in its canonical pattern.
pub fn format_time(t: &Time) -> (s: String)
    requires
        time_wf(*t),
    ensures
        s@ == time_text(*t),
{
    let mut s = String::new();
    push_time(&mut s, t);
    s
}

/// Encodes a timestamp in its canonical pattern.
pub fn format_datetime(dt: &DateTime) -> (s: String)
    requires
        datetime_wf(*dt),
    ensures
        s@ == datetime_text(*dt),
{
    let mut s = String::new();
    push_datetime(&mut s, dt);
    s
}

/// Encodes a zoned timestamp in its canonical pattern.
pub fn format_zdt(z: &ZonedDateTime) -> (s: String)
    requires
        zdt_wf(*z),
    ensures
        s@ == zdt_text(*z),
{
    let mut s = String::new();
    push_datetime(&mut s, &z.datetime);
    s.push('[');
    if z.offset_minutes < 0 {
        s.push('-');
    } else {
        s.push('+');
    }
    let a: i16 = if z.offset_minutes < 0 {
        -z.offset_minutes
    } else {
        z.offset_minutes
    };
    push_2(&mut s, (a / 60) as u8);
    s.push(':');
    push_2(&mut s, (a % 60) as u8);
    s.push(']');
    proof {
        assert(s@ =~= zdt_text(*z));
    }
    s
}

/// Encodes a duration in its canonical pattern.
pub fn format_duration(d: &Duration) -> (s: String)
    ensures
        s@ == duration_text(*d),
{
    let mut s = String::new();
    if d.seconds < 0 {
        s.push('-');
    }
    s.push('P');
    s.push('T');
    let m: u64 = if d.seconds < 0 {
        (-(d.seconds + 1)) as u64 + 1
    } else {
        d.seconds as u64
    };
    push_u_digits(&mut s, m);
    s.push('S');
    proof {
        assert(s@ =~= duration_text(*d));
    }
    s
}

// ----- round trips ---------------------------------------------------------

pub proof fn lemma_two_digits(n: int)
    requires
        0 <= n <= 99,
    ensures
        two_digits(n).len() == 2,
        all_digs(two_digits(n)),
        dec_val(two_digits(n)) == n,
{
    let w = two_digits(n);
    let c0 = (48 + n / 10) as char;
    let c1 = (48 + n % 10) as char;
    assert(dig_val(c0) == n / 10);
    assert(dig_val(c1) == n % 10);
    assert(dec_val(seq![c0]) == dig_val(c0)) by {
        assert(seq![c0].len() == 1);
        assert(seq![c0].drop_last() =~= Seq::<char>::empty());
        assert(dec_val(Seq::<char>::empty()) == 0);
        assert(seq![c0].last() == c0);
    }
    assert(w.drop_last() =~= seq![c0]);
    assert(w.last() == c1);
    assert(dec_val(w) == dec_val(seq![c0]) * 10 + dig_val(c1));
    assert((n / 10) * 10 + n % 10 == n);
    assert(forall|i: int| 0 <= i < w.len() ==> is_dig(#[trigger] w[i]));
}

pub proof fn lemma_four_digits(n: int)
    requires
        0 <= n <= 9999,
    ensures
        four_digits(n).len() == 4,
        all_digs(four_digits(n)),
        dec_val(four_digits(n)) == n,
{
    lemma_two_digits(n / 100);
    lemma_two_digits(n % 100);
    let a = two_digits(n / 100);
    let b = two_digits(n % 100);
    let w = four_digits(n);
    assert(w.drop_last() =~= a + b.drop_last());
    assert((a + b.drop_last()).drop_last() =~= a);
    assert(dec_val(a + b.drop_last()) == dec_val(a) * 10 + dig_val(b[0]));
    assert(dec_val(w) == (dec_val(a) * 10 + dig_val(b[0])) * 10 + dig_val(b[1]));
    assert(dec_val(b) == dig_val(b[0]) * 10 + dig_val(b[1])) by {
        assert(b.drop_last() =~= seq![b[0]]);
        assert(seq![b[0]].drop_last() =~= Seq::<char>::empty());
    }
    assert((n / 100) * 100 + n % 100 == n);
    assert(forall|i: int| 0 <= i < w.len() ==> is_dig(#[trigger] w[i]));
}

/// Round trip for dates: decoding the canonical text of a well-formed
/// date yields that date.
pub proof fn lemma_date_round_trip(d: Date)
    requires
        date_wf(d),
    ensures
        date_of_text(date_text(d)) == Some(d),
{
    let s = date_text(d);
    lemma_four_digits(d.year as int);
    lemma_two_digits(d.month as int);
    lemma_two_digits(d.day as int);
    assert(s.subrange(0, 4) =~= four_digits(d.year as int));
    assert(s.subrange(5, 7) =~= two_digits(d.month as int));
    assert(s.subrange(8, 10) =~= two_digits(d.day as int));
}

/// Round trip for times.
pub proof fn lemma_time_round_trip(t: Time)
    requires
        time_wf(t),
    ensures
        time_of_text(time_text(t)) == Some(t),
{
    let s = time_text(t);
    lemma_two_digits(t.hour as int);
    lemma_two_digits(t.minute as int);
    lemma_two_digits(t.second as int);
    assert(s.subrange(0, 2) =~= two_digits(t.hour as int));
    assert(s.subrange(3, 5) =~= two_digits(t.minute as int));
    assert(s.subrange(6, 8) =~= two_digits(t.second as int));
}

/// Round trip for timestamps.
pub proof fn lemma_datetime_round_trip(dt: DateTime)
    requires
        datetime_wf(dt),
    ensures
        datetime_of_text(datetime_text(dt)) == Some(dt),
{
    let s = datetime_text(dt);
    lemma_date_round_trip(dt.date);
    lemma_time_round_trip(dt.time);
    assert(s.subrange(0, 10) =~= date_text(dt.date));
    assert(s.subrange(11, 19) =~= time_text(dt.time));
}

/// Round trip for zoned timestamps.
pub proof fn lemma_zdt_round_trip(z: ZonedDateTime)
    requires
        zdt_wf(z),
    ensures
        zdt_of_text(zdt_text(z)) == Some(z),
{
    let s = zdt_text(z);
    let a = abs_minutes(z);
    lemma_datetime_round_trip(z.datetime);
    lemma_two_digits(a / 60);
    lemma_two_digits(a % 60);
    assert(s.subrange(0, 19) =~= datetime_text(z.datetime));
    assert(s.subrange(21, 23) =~= two_digits(a / 60));
    assert(s.subrange(24, 26) =~= two_digits(a % 60));
    assert((a / 60) * 60 + a % 60 == a);
    assert(a / 60 <= 23);
}

/// Round trip for durations.
pub proof fn lemma_duration_round_trip(d: Duration)
    ensures
        duration_of_text(duration_text(d)) == Some(d),
{
    let s = duration_text(d);
    if d.seconds < 0 {
        let m = (-(d.seconds as int)) as nat;
        lemma_u_digits(m);
        let b = s.subrange(1, s.len() as int);
        assert(b =~= seq!['P', 'T'] + u_digits(m) + seq!['S']);
        assert(b.subrange(2, b.len() - 1) =~= u_digits(m));
        assert(b.last() == 'S');
    } else {
        let m = d.seconds as nat;
        lemma_u_digits(m);
        assert(s[0] == 'P');
        assert(s.subrange(2, s.len() - 1) =~= u_digits(m));
        assert(s.last() == 'S');
    }
}


/// A decoded date is well-formed.
pub proof fn lemma_date_of_text_wf(s: Seq<char>)
    ensures
        date_of_text(s) matches Some(d) ==> date_wf(d),
{
    if s.len() == 10 && s[4] == '-' && s[7] == '-' && all_digs(s.subrange(0, 4)) && all_digs(
        s.subrange(5, 7),
    ) && all_digs(s.subrange(8, 10)) {
        lemma_dec_val_small(s.subrange(0, 4));
        lemma_dec_val_small(s.subrange(5, 7));
        lemma_dec_val_small(s.subrange(8, 10));
    }
}

/// A decoded time is well-formed.
pub proof fn lemma_time_of_text_wf(s: Seq<char>)
    ensures
        time_of_text(s) matches Some(t) ==> time_wf(t),
{
    if s.len() == 8 && s[2] == ':' && s[5] == ':' && all_digs(s.subrange(0, 2)) && all_digs(
        s.subrange(3, 5),
    ) && all_digs(s.subrange(6, 8)) {
        lemma_dec_val_small(s.subrange(0, 2));
        lemma_dec_val_small(s.subrange(3, 5));
        lemma_dec_val_small(s.subrange(6, 8));
    }
}

/// A decoded timestamp is well-formed.
pub proof fn lemma_datetime_of_text_wf(s: Seq<char>)
    ensures
        datetime_of_text(s) matches Some(dt) ==> datetime_wf(dt),
{
    if s.len() == 19 && s[10] == 'T' {
        lemma_date_of_text_wf(s.subrange(0, 10));
        lemma_time_of_text_wf(s.subrange(11, 19));
    }
}

/// A decoded zoned timestamp is well-formed.
pub proof fn lemma_zdt_of_text_wf(s: Seq<char>)
    ensures
        zdt_of_text(s) matches Some(z) ==> zdt_wf(z),
{
    if s.len() == 27 && s[19] == '[' && (s[20] == '+' || s[20] == '-') && s[23] == ':' && s[26]
        == ']' && all_digs(s.subrange(21, 23)) && all_digs(s.subrange(24, 26)) {
        lemma_datetime_of_text_wf(s.subrange(0, 19));
        lemma_dec_val_small(s.subrange(21, 23));
        lemma_dec_val_small(s.subrange(24, 26));
    }
}

} // verus!
