//! UTC timestamps at second precision, stored as RFC 3339 strings with the
//! `+00:00` offset; parsing also accepts a `Z` suffix.

use vstd::prelude::*;

use crate::digits::{
    all_digits, digits_val, fixed_digits, lemma_digits_val_bound, lemma_fixed_digits_shape,
    lemma_fixed_digits_val, lemma_pow10_vals, parse_dec_range, encode_fixed,
};

verus! {

/// A point in time, normalized to UTC, at second precision.
#[derive(Clone, Copy, PartialEq, Eq, Structural, Debug)]
pub struct Timestamp {
    pub year: u16,
    pub month: u8,
    pub day: u8,
    pub hour: u8,
    pub minute: u8,
    pub second: u8,
}

pub open spec fn is_leap_year(y: int) -> bool {
    y % 4 == 0 && (y % 100 != 0 || y % 400 == 0)
}

pub open spec fn days_in_month(y: int, m: int) -> int {
    if m == 2 {
        if is_leap_year(y) {
            29
        } else {
            28
        }
    } else if m == 4 || m == 6 || m == 9 || m == 11 {
        30
    } else {
        31
    }
}

/// The number of days of a month, February of leap years included.
pub fn month_length(year: u16, month: u8) -> (d: u8)
    ensures
        d as int == days_in_month(year as int, month as int),
{
    if month == 2 {
        if year % 4 == 0 && (year % 100 != 0 || year % 400 == 0) {
            29
        } else {
            28
        }
    } else if month == 4 || month == 6 || month == 9 || month == 11 {
        30
    } else {
        31
    }
}

impl Timestamp {
    /// What every timestamp must satisfy: a real calendar date of at most
    /// four year digits, and a time of day.
    pub open spec fn wf(self) -> bool {
        &&& self.year <= 9999
        &&& 1 <= self.month <= 12
        &&& 1 <= self.day <= days_in_month(self.year as int, self.month as int)
        &&& self.hour <= 23
        &&& self.minute <= 59
        &&& self.second <= 59
    }

    /// Build a timestamp, rejecting anything that is no calendar time.
    pub fn new(year: u16, month: u8, day: u8, hour: u8, minute: u8, second: u8) -> (r: Option<
        Timestamp,
    >)
        ensures
            ({
                let t = Timestamp { year, month, day, hour, minute, second };
                match r {
                    Some(v) => v == t && t.wf(),
                    None => !t.wf(),
                }
            }),
    {
        if year <= 9999 && 1 <= month && month <= 12 && 1 <= day && day <= month_length(
            year,
            month,
        ) && hour <= 23 && minute <= 59 && second <= 59 {
            Some(Timestamp { year, month, day, hour, minute, second })
        } else {
            None
        }
    }
}

/// Chronological order on timestamps: `a` at or before `b`.
pub open spec fn ts_le(a: Timestamp, b: Timestamp) -> bool {
    if a.year != b.year {
        a.year < b.year
    } else if a.month != b.month {
        a.month < b.month
    } else if a.day != b.day {
        a.day < b.day
    } else if a.hour != b.hour {
        a.hour < b.hour
    } else if a.minute != b.minute {
        a.minute < b.minute
    } else {
        a.second <= b.second
    }
}

/// Decide the chronological order of two timestamps.
pub fn ts_le_exec(a: &Timestamp, b: &Timestamp) -> (r: bool)
    ensures
        r == ts_le(*a, *b),
{
    if a.year != b.year {
        a.year < b.year
    } else if a.month != b.month {
        a.month < b.month
    } else if a.day != b.day {
        a.day < b.day
    } else if a.hour != b.hour {
        a.hour < b.hour
    } else if a.minute != b.minute {
        a.minute < b.minute
    } else {
        a.second <= b.second
    }
}

/// The canonical RFC 3339 form written to storage.
pub open spec fn ts_chars(t: Timestamp) -> Seq<char> {
    fixed_digits(t.year as int, 4, 10) + seq!['-'] + fixed_digits(t.month as int, 2, 10) + seq![
        '-',
    ] + fixed_digits(t.day as int, 2, 10) + seq!['T'] + fixed_digits(t.hour as int, 2, 10) + seq![
        ':',
    ] + fixed_digits(t.minute as int, 2, 10) + seq![':'] + fixed_digits(t.second as int, 2, 10)
        + seq!['+', '0', '0', ':', '0', '0']
}

/// The timestamp a string denotes, if it is a well-formed RFC 3339 form at
/// UTC: either the `+00:00` offset or a `Z`, and no fractional seconds.
pub open spec fn parse_ts_chars(s: Seq<char>) -> Option<Timestamp> {
    let shape_ok = {
        &&& (s.len() == 20 || s.len() == 25)
        &&& s[4] == '-'
        &&& s[7] == '-'
        &&& (s[10] == 'T' || s[10] == 't' || s[10] == ' ')
        &&& s[13] == ':'
        &&& s[16] == ':'
        &&& (if s.len() == 20 {
            s[19] == 'Z' || s[19] == 'z'
        } else {
            s[19] == '+' && s[20] == '0' && s[21] == '0' && s[22] == ':' && s[23] == '0' && s[24]
                == '0'
        })
        &&& all_digits(s.subrange(0, 4), 10)
        &&& all_digits(s.subrange(5, 7), 10)
        &&& all_digits(s.subrange(8, 10), 10)
        &&& all_digits(s.subrange(11, 13), 10)
        &&& all_digits(s.subrange(14, 16), 10)
        &&& all_digits(s.subrange(17, 19), 10)
    };
    if shape_ok {
        let t = Timestamp {
            year: digits_val(s.subrange(0, 4), 10) as u16,
            month: digits_val(s.subrange(5, 7), 10) as u8,
            day: digits_val(s.subrange(8, 10), 10) as u8,
            hour: digits_val(s.subrange(11, 13), 10) as u8,
            minute: digits_val(s.subrange(14, 16), 10) as u8,
            second: digits_val(s.subrange(17, 19), 10) as u8,
        };
        if t.wf() {
            Some(t)
        } else {
            None
        }
    } else {
        None
    }
}

/// Every well-formed timestamp is recovered exactly from its string.
pub proof fn lemma_ts_round_trip(t: Timestamp)
    requires
        t.wf(),
    ensures
        parse_ts_chars(ts_chars(t)) == Some(t),
{
    lemma_pow10_vals();
    let s = ts_chars(t);
    let fy = fixed_digits(t.year as int, 4, 10);
    let fmo = fixed_digits(t.month as int, 2, 10);
    let fd = fixed_digits(t.day as int, 2, 10);
    let fh = fixed_digits(t.hour as int, 2, 10);
    let fmi = fixed_digits(t.minute as int, 2, 10);
    let fs = fixed_digits(t.second as int, 2, 10);
    lemma_fixed_digits_shape(t.year as int, 4, 10);
    lemma_fixed_digits_shape(t.month as int, 2, 10);
    lemma_fixed_digits_shape(t.day as int, 2, 10);
    lemma_fixed_digits_shape(t.hour as int, 2, 10);
    lemma_fixed_digits_shape(t.minute as int, 2, 10);
    lemma_fixed_digits_shape(t.second as int, 2, 10);
    lemma_fixed_digits_val(t.year as int, 4, 10);
    lemma_fixed_digits_val(t.month as int, 2, 10);
    lemma_fixed_digits_val(t.day as int, 2, 10);
    lemma_fixed_digits_val(t.hour as int, 2, 10);
    lemma_fixed_digits_val(t.minute as int, 2, 10);
    lemma_fixed_digits_val(t.second as int, 2, 10);
    assert(s.len() == 25);
    assert(s.subrange(0, 4) =~= fy);
    assert(s.subrange(5, 7) =~= fmo);
    assert(s.subrange(8, 10) =~= fd);
    assert(s.subrange(11, 13) =~= fh);
    assert(s.subrange(14, 16) =~= fmi);
    assert(s.subrange(17, 19) =~= fs);
    assert(s[4] == '-' && s[7] == '-' && s[10] == 'T' && s[13] == ':' && s[16] == ':');
    assert(s[19] == '+' && s[20] == '0' && s[21] == '0' && s[22] == ':' && s[23] == '0' && s[24]
        == '0');
}

/// Encode a timestamp as its canonical RFC 3339 string.
pub fn encode_ts(t: &Timestamp) -> (s: String)
    ensures
        s@ == ts_chars(*t),
{
    proof {
        reveal_strlit("-");
        reveal_strlit("T");
        reveal_strlit(":");
        reveal_strlit("+00:00");
    }
    let mut out = String::new();
    out.append(encode_fixed(t.year as u128, 4, 10).as_str());
    out.append("-");
    out.append(encode_fixed(t.month as u128, 2, 10).as_str());
    out.append("-");
    out.append(encode_fixed(t.day as u128, 2, 10).as_str());
    out.append("T");
    out.append(encode_fixed(t.hour as u128, 2, 10).as_str());
    out.append(":");
    out.append(encode_fixed(t.minute as u128, 2, 10).as_str());
    out.append(":");
    out.append(encode_fixed(t.second as u128, 2, 10).as_str());
    out.append("+00:00");
    proof {
        assert(out@ =~= ts_chars(*t));
    }
    out
}

/// Parse an RFC 3339 string at UTC back into a timestamp.
#[verifier::rlimit(60)]
pub fn parse_ts(s: &str) -> (r: Option<Timestamp>)
    ensures
        r == parse_ts_chars(s@),
{
    let n = s.unicode_len();
    if n != 20 && n != 25 {
        return None;
    }
    if s.get_char(4) != '-' || s.get_char(7) != '-' {
        return None;
    }
    let mid = s.get_char(10);
    if mid != 'T' && mid != 't' && mid != ' ' {
        return None;
    }
    if s.get_char(13) != ':' || s.get_char(16) != ':' {
        return None;
    }
    if n == 20 {
        let z = s.get_char(19);
        if z != 'Z' && z != 'z' {
            return None;
        }
    } else {
        if s.get_char(19) != '+' || s.get_char(20) != '0' || s.get_char(21) != '0' || s.get_char(
            22,
        ) != ':' || s.get_char(23) != '0' || s.get_char(24) != '0' {
            return None;
        }
    }
    let year = match parse_dec_range(s, 0, 4) {
        Some(v) => v,
        None => {
            return None;
        },
    };
    let month = match parse_dec_range(s, 5, 7) {
        Some(v) => v,
        None => {
            return None;
        },
    };
    let day = match parse_dec_range(s, 8, 10) {
        Some(v) => v,
        None => {
            return None;
        },
    };
    let hour = match parse_dec_range(s, 11, 13) {
        Some(v) => v,
        None => {
            return None;
        },
    };
    let minute = match parse_dec_range(s, 14, 16) {
        Some(v) => v,
        None => {
            return None;
        },
    };
    let second = match parse_dec_range(s, 17, 19) {
        Some(v) => v,
        None => {
            return None;
        },
    };
    proof {
        lemma_pow10_vals();
        lemma_digits_val_bound(s@.subrange(0, 4), 10);
        lemma_digits_val_bound(s@.subrange(5, 7), 10);
        lemma_digits_val_bound(s@.subrange(8, 10), 10);
        lemma_digits_val_bound(s@.subrange(11, 13), 10);
        lemma_digits_val_bound(s@.subrange(14, 16), 10);
        lemma_digits_val_bound(s@.subrange(17, 19), 10);
    }
    Timestamp::new(year as u16, month as u8, day as u8, hour as u8, minute as u8, second as u8)
}

} // verus!
