//! Connection timestamps: a calendar date and time of day with an explicit
//! UTC offset, plus the fixed-width wire form `YYYY-MM-DDThh:mm:ss+hh:mm`
//! and the proof that parsing inverts formatting.

use vstd::prelude::*;

use crate::lex::dchar;
use crate::lex::dval;
use crate::lex::is_digit;
use crate::lex::lemma_dchar_dval;

verus! {

/// A point in time with an explicit UTC offset.
#[derive(Clone, Copy, Debug, PartialEq, Eq, Structural)]
pub struct Timestamp {
    pub year: u16,
    pub month: u8,
    pub day: u8,
    pub hour: u8,
    pub minute: u8,
    pub second: u8,
    /// Sign of the UTC offset; a zero offset is always non-negative.
    pub offset_negative: bool,
    pub offset_hour: u8,
    pub offset_minute: u8,
}

/// Leap years of the proleptic Gregorian calendar.
pub open spec fn is_leap_year(y: int) -> bool {
    y % 4 == 0 && (y % 100 != 0 || y % 400 == 0)
}

/// Days of a month.
pub open spec fn days_in_month(y: int, m: int) -> int {
    if m == 2 {
        if is_leap_year(y) {
            29
        } else {
            28
        }
    } else if m == 4 || m == 6 || m == 9 || m == 11 {
        30
    } else {
        31
    }
}

/// A well-formed timestamp: a real calendar date, a real time of day, and
/// an offset under one day that is negative only when it is non-zero.
pub open spec fn ts_wf(t: Timestamp) -> bool {
    &&& 1 <= t.year <= 9999
    &&& 1 <= t.month <= 12
    &&& 1 <= t.day <= days_in_month(t.year as int, t.month as int)
    &&& t.hour <= 23
    &&& t.minute <= 59
    &&& t.second <= 59
    &&& t.offset_hour <= 23
    &&& t.offset_minute <= 59
    &&& (t.offset_negative ==> t.offset_hour + t.offset_minute > 0)
}

impl Timestamp {
    /// Whether this is a well-formed timestamp.
    pub fn valid(&self) -> (r: bool)
        ensures
            r == ts_wf(*self),
    {
        let y = self.year;
        let leap = y % 4 == 0 && (y % 100 != 0 || y % 400 == 0);
        let dim: u8 = if self.month == 2 {
            if leap {
                29
            } else {
                28
            }
        } else if self.month == 4 || self.month == 6 || self.month == 9 || self.month == 11 {
            30
        } else {
            31
        };
        1 <= self.year && self.year <= 9999 && 1 <= self.month && self.month <= 12 && 1 <= self.day
            && self.day <= dim && self.hour <= 23 && self.minute <= 59 && self.second <= 59
            && self.offset_hour <= 23 && self.offset_minute <= 59 && (!self.offset_negative || (
        self.offset_hour as u16 + self.offset_minute as u16) > 0)
    }
}

// ---------------------------------------------------------------------------
// Fixed-width decimal fields
// ---------------------------------------------------------------------------
/// Two digits, zero padded; defined for 0..=99.
pub open spec fn pad2(n: int) -> Seq<char> {
    seq![dchar(n / 10), dchar(n % 10)]
}

/// Four digits, zero padded; defined for 0..=9999.
pub open spec fn pad4(n: int) -> Seq<char> {
    pad2(n / 100) + pad2(n % 100)
}

/// Reads two digits at `i`.
pub open spec fn p2(s: Seq<char>, i: int) -> Option<int> {
    if 0 <= i && i + 2 <= s.len() && is_digit(s[i]) && is_digit(s[i + 1]) {
        Some(dval(s[i]) * 10 + dval(s[i + 1]))
    } else {
        None
    }
}

/// Reads four digits at `i`.
pub open spec fn p4(s: Seq<char>, i: int) -> Option<int> {
    match (p2(s, i), p2(s, i + 2)) {
        (Some(h), Some(l)) => Some(h * 100 + l),
        _ => None,
    }
}

pub proof fn lemma_p2_pad2(s: Seq<char>, i: int, n: int)
    requires
        0 <= n < 100,
        0 <= i,
        i + 2 <= s.len(),
        s[i] == pad2(n)[0],
        s[i + 1] == pad2(n)[1],
    ensures
        p2(s, i) == Some(n),
{
    lemma_dchar_dval(n / 10);
    lemma_dchar_dval(n % 10);
}

pub proof fn lemma_p4_pad4(s: Seq<char>, i: int, n: int)
    requires
        0 <= n < 10000,
        0 <= i,
        i + 4 <= s.len(),
        s[i] == pad4(n)[0],
        s[i + 1] == pad4(n)[1],
        s[i + 2] == pad4(n)[2],
        s[i + 3] == pad4(n)[3],
    ensures
        p4(s, i) == Some(n),
{
    assert(pad4(n)[0] == pad2(n / 100)[0]);
    assert(pad4(n)[1] == pad2(n / 100)[1]);
    assert(pad4(n)[2] == pad2(n % 100)[0]);
    assert(pad4(n)[3] == pad2(n % 100)[1]);
    lemma_p2_pad2(s, i, n / 100);
    lemma_p2_pad2(s, i + 2, n % 100);
}

// ---------------------------------------------------------------------------
// The wire form
// ---------------------------------------------------------------------------
/// The serialized timestamp, always exactly 25 characters.
pub open spec fn ser_ts(t: Timestamp) -> Seq<char> {
    pad4(t.year as int) + seq!['-'] + pad2(t.month as int) + seq!['-'] + pad2(t.day as int)
        + seq!['T'] + pad2(t.hour as int) + seq![':'] + pad2(t.minute as int) + seq![':'] + pad2(
        t.second as int,
    ) + seq![if t.offset_negative {
        '-'
    } else {
        '+'
    }] + pad2(t.offset_hour as int) + seq![':'] + pad2(t.offset_minute as int)
}

pub proof fn lemma_ser_ts_len(t: Timestamp)
    ensures
        ser_ts(t).len() == 25,
{
}

/// Parses the fixed-width timestamp form at `i`.  The shape alone is
/// checked here; whether the fields make a real date is `ts_wf`'s business.
pub open spec fn p_ts(s: Seq<char>, i: int) -> Option<(Timestamp, int)> {
    if 0 <= i && i + 25 <= s.len() {
        match (p4(s, i), p2(s, i + 5), p2(s, i + 8), p2(s, i + 11), p2(s, i + 14), p2(s, i + 17),
        p2(s, i + 20), p2(s, i + 23)) {
            (
                Some(year),
                Some(month),
                Some(day),
                Some(hour),
                Some(minute),
                Some(second),
                Some(oh),
                Some(om),
            ) => {
                if s[i + 4] == '-' && s[i + 7] == '-' && s[i + 10] == 'T' && s[i + 13] == ':' && s[i
                    + 16] == ':' && (s[i + 19] == '+' || s[i + 19] == '-') && s[i + 22] == ':' {
                    Some(
                        (
                            Timestamp {
                                year: year as u16,
                                month: month as u8,
                                day: day as u8,
                                hour: hour as u8,
                                minute: minute as u8,
                                second: second as u8,
                                offset_negative: s[i + 19] == '-',
                                offset_hour: oh as u8,
                                offset_minute: om as u8,
                            },
                            i + 25,
                        ),
                    )
                } else {
                    None
                }
            },
            _ => None,
        }
    } else {
        None
    }
}

/// The timestamp parser inverts the timestamp emitter.
pub proof fn lemma_p_ts_ser(s: Seq<char>, i: int, t: Timestamp)
    requires
        ts_wf(t),
        0 <= i,
        i + 25 <= s.len(),
        s.subrange(i, i + 25) == ser_ts(t),
    ensures
        p_ts(s, i) == Some((t, i + 25)),
{
    let st = ser_ts(t);
    assert forall|k: int| 0 <= k < 25 implies s[i + k] == st[k] by {
        assert(s.subrange(i, i + 25)[k] == s[i + k]);
    }
    assert(st[0] == pad4(t.year as int)[0]);
    assert(s[i + 0] == pad4(t.year as int)[0]);
    assert(st[1] == pad4(t.year as int)[1]);
    assert(s[i + 1] == pad4(t.year as int)[1]);
    assert(st[2] == pad4(t.year as int)[2]);
    assert(s[i + 2] == pad4(t.year as int)[2]);
    assert(st[3] == pad4(t.year as int)[3]);
    assert(s[i + 3] == pad4(t.year as int)[3]);
    assert(st[5] == pad2(t.month as int)[0]);
    assert(s[i + 5] == pad2(t.month as int)[0]);
    assert(st[6] == pad2(t.month as int)[1]);
    assert(s[i + 6] == pad2(t.month as int)[1]);
    assert(st[8] == pad2(t.day as int)[0]);
    assert(s[i + 8] == pad2(t.day as int)[0]);
    assert(st[9] == pad2(t.day as int)[1]);
    assert(s[i + 9] == pad2(t.day as int)[1]);
    assert(st[11] == pad2(t.hour as int)[0]);
    assert(s[i + 11] == pad2(t.hour as int)[0]);
    assert(st[12] == pad2(t.hour as int)[1]);
    assert(s[i + 12] == pad2(t.hour as int)[1]);
    assert(st[14] == pad2(t.minute as int)[0]);
    assert(s[i + 14] == pad2(t.minute as int)[0]);
    assert(st[15] == pad2(t.minute as int)[1]);
    assert(s[i + 15] == pad2(t.minute as int)[1]);
    assert(st[17] == pad2(t.second as int)[0]);
    assert(s[i + 17] == pad2(t.second as int)[0]);
    assert(st[18] == pad2(t.second as int)[1]);
    assert(s[i + 18] == pad2(t.second as int)[1]);
    assert(st[20] == pad2(t.offset_hour as int)[0]);
    assert(s[i + 20] == pad2(t.offset_hour as int)[0]);
    assert(st[21] == pad2(t.offset_hour as int)[1]);
    assert(s[i + 21] == pad2(t.offset_hour as int)[1]);
    assert(st[23] == pad2(t.offset_minute as int)[0]);
    assert(s[i + 23] == pad2(t.offset_minute as int)[0]);
    assert(st[24] == pad2(t.offset_minute as int)[1]);
    assert(s[i + 24] == pad2(t.offset_minute as int)[1]);
    assert(st[4] == '-');
    assert(s[i + 4] == '-');
    assert(st[7] == '-');
    assert(s[i + 7] == '-');
    assert(st[10] == 'T');
    assert(s[i + 10] == 'T');
    assert(st[13] == ':');
    assert(s[i + 13] == ':');
    assert(st[16] == ':');
    assert(s[i + 16] == ':');
    assert(st[22] == ':');
    assert(s[i + 22] == ':');
    if t.offset_negative {
        assert(st[19] == '-');
        assert(s[i + 19] == '-');
    } else {
        assert(st[19] == '+');
        assert(s[i + 19] == '+');
        assert(s[i + 19] != '-');
    }
    assert(s[i] == s[i + 0]);
    lemma_p4_pad4(s, i, t.year as int);
    lemma_p2_pad2(s, i + 5, t.month as int);
    lemma_p2_pad2(s, i + 8, t.day as int);
    lemma_p2_pad2(s, i + 11, t.hour as int);
    lemma_p2_pad2(s, i + 14, t.minute as int);
    lemma_p2_pad2(s, i + 17, t.second as int);
    lemma_p2_pad2(s, i + 20, t.offset_hour as int);
    lemma_p2_pad2(s, i + 23, t.offset_minute as int);
}

// ---------------------------------------------------------------------------
// Executable emitter and parser
// ---------------------------------------------------------------------------
/// Emits two zero-padded digits.
pub fn push_pad2(out: &mut Vec<char>, n: u8)
    requires
        n < 100,
    ensures
        final(out)@ == old(out)@ + pad2(n as int),
{
    let hi: char = ((48 + n / 10) as u8) as char;
    let lo: char = ((48 + n % 10) as u8) as char;
    out.push(hi);
    out.push(lo);
    proof {
        assert(hi == dchar(n as int / 10));
        assert(lo == dchar(n as int % 10));
        assert(old(out)@.push(hi).push(lo) =~= old(out)@ + pad2(n as int));
    }
}

/// Emits the 25-character timestamp form.
pub fn push_ts(out: &mut Vec<char>, t: &Timestamp)
    requires
        ts_wf(*t),
    ensures
        final(out)@ == old(out)@ + ser_ts(*t),
{
    push_pad2(out, (t.year / 100) as u8);
    push_pad2(out, (t.year % 100) as u8);
    out.push('-');
    push_pad2(out, t.month);
    out.push('-');
    push_pad2(out, t.day);
    out.push('T');
    push_pad2(out, t.hour);
    out.push(':');
    push_pad2(out, t.minute);
    out.push(':');
    push_pad2(out, t.second);
    out.push(if t.offset_negative {
        '-'
    } else {
        '+'
    });
    push_pad2(out, t.offset_hour);
    out.push(':');
    push_pad2(out, t.offset_minute);
    proof {
        assert(pad2(t.year as int / 100) + pad2(t.year as int % 100) =~= pad4(t.year as int));
        assert(final(out)@ =~= old(out)@ + ser_ts(*t));
    }
}

/// Parses two digits into a number under 100.
pub fn parse_pad2(v: &Vec<char>, i: usize) -> (r: Option<u8>)
    requires
        i + 2 <= v@.len(),
    ensures
        match r {
            Some(n) => p2(v@, i as int) == Some(n as int) && n < 100,
            None => p2(v@, i as int) is None,
        },
{
    let n = v.len();
    let c0 = v[i];
    let c1 = v[i + 1];
    if '0' <= c0 && c0 <= '9' && '0' <= c1 && c1 <= '9' {
        let n: u8 = ((c0 as u32 - 48) * 10 + (c1 as u32 - 48)) as u8;
        Some(n)
    } else {
        None
    }
}

/// Parses the fixed-width timestamp form at `i`.
#[verifier::rlimit(60)]
pub fn parse_ts(v: &Vec<char>, i: usize) -> (r: Option<(Timestamp, usize)>)
    requires
        i <= v@.len(),
    ensures
        match r {
            Some((t, j)) => p_ts(v@, i as int) == Some((t, j as int)) && j == i + 25,
            None => p_ts(v@, i as int) is None,
        },
{
    if v.len() - i < 25 {
        return None;
    }
    let yh = match parse_pad2(v, i) {
        Some(x) => x,
        None => {
            return None;
        },
    };
    let yl = match parse_pad2(v, i + 2) {
        Some(x) => x,
        None => {
            return None;
        },
    };
    let month = match parse_pad2(v, i + 5) {
        Some(x) => x,
        None => {
            return None;
        },
    };
    let day = match parse_pad2(v, i + 8) {
        Some(x) => x,
        None => {
            return None;
        },
    };
    let hour = match parse_pad2(v, i + 11) {
        Some(x) => x,
        None => {
            return None;
        },
    };
    let minute = match parse_pad2(v, i + 14) {
        Some(x) => x,
        None => {
            return None;
        },
    };
    let second = match parse_pad2(v, i + 17) {
        Some(x) => x,
        None => {
            return None;
        },
    };
    let oh = match parse_pad2(v, i + 20) {
        Some(x) => x,
        None => {
            return None;
        },
    };
    let om = match parse_pad2(v, i + 23) {
        Some(x) => x,
        None => {
            return None;
        },
    };
    if !(v[i + 4] == '-' && v[i + 7] == '-' && v[i + 10] == 'T' && v[i + 13] == ':' && v[i + 16]
        == ':' && (v[i + 19] == '+' || v[i + 19] == '-') && v[i + 22] == ':') {
        return None;
    }
    let year: u16 = yh as u16 * 100 + yl as u16;
    Some(
        (
            Timestamp {
                year,
                month,
                day,
                hour,
                minute,
                second,
                offset_negative: v[i + 19] == '-',
                offset_hour: oh,
                offset_minute: om,
            },
            i + 25,
        ),
    )
}

} // verus!
