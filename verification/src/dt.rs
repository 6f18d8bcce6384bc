//! Calendar date-times as plain values, and the fixed-width FTN datetime
//! format `DD MMM YY  HH:MM:SS`.

use vstd::prelude::*;

verus! {

use vstd::string::StrSliceExecFns;
use crate::util::{trim_ws, trim_ws_str, scan_u16, scan_u16_rec, NumParse, scan_u16_range};

/// A local calendar date-time, no time zone.
#[derive(Clone, Copy, Debug, PartialEq, Eq, Structural)]
pub struct DateTime {
    pub year: u16,
    pub month: u8,
    pub day: u8,
    pub hour: u8,
    pub minute: u8,
    pub second: u8,
}

pub open spec fn is_leap_year(y: int) -> bool {
    y % 4 == 0 && (y % 100 != 0 || y % 400 == 0)
}

pub open spec fn days_in_month(y: int, m: int) -> int {
    if m == 1 || m == 3 || m == 5 || m == 7 || m == 8 || m == 10 || m == 12 {
        31
    } else if m == 4 || m == 6 || m == 9 || m == 11 {
        30
    } else if m == 2 {
        if is_leap_year(y) {
            29
        } else {
            28
        }
    } else {
        0
    }
}

pub open spec fn valid_ymd(y: int, m: int, d: int) -> bool {
    1 <= m <= 12 && 1 <= d <= days_in_month(y, m)
}

pub open spec fn valid_hms(h: int, mi: int, s: int) -> bool {
    0 <= h < 24 && 0 <= mi < 60 && 0 <= s < 60
}

impl DateTime {
    /// A proper date on the proleptic Gregorian calendar, with a proper
    /// time of day.
    pub open spec fn valid(self) -> bool {
        valid_ymd(self.year as int, self.month as int, self.day as int) && valid_hms(
            self.hour as int,
            self.minute as int,
            self.second as int,
        )
    }
}

/// Calendar check on arbitrary numbers, as a packet header may carry them.
pub fn check_ymd(y: u32, m: u32, d: u32) -> (r: bool)
    ensures
        r == valid_ymd(y as int, m as int, d as int),
{
    if m < 1 || m > 12 {
        return false;
    }
    let dim: u32 = if m == 1 || m == 3 || m == 5 || m == 7 || m == 8 || m == 10 || m == 12 {
        31
    } else if m == 4 || m == 6 || m == 9 || m == 11 {
        30
    } else {
        if y % 4 == 0 && (y % 100 != 0 || y % 400 == 0) {
            29
        } else {
            28
        }
    };
    1 <= d && d <= dim
}

pub fn check_hms(h: u32, mi: u32, s: u32) -> (r: bool)
    ensures
        r == valid_hms(h as int, mi as int, s as int),
{
    h < 24 && mi < 60 && s < 60
}

/// Errors of the FTN datetime parser; a rejected calendar date or time of
/// day carries the offending fields.
#[derive(Clone, Copy, Debug, PartialEq, Eq, Structural)]
pub enum DateTimeError {
    Format,
    Date { year: u32, month: u32, day: u32 },
    Time { hour: u32, minute: u32, second: u32 },
}

impl DateTimeError {
    pub fn date(year: u32, month: u32, day: u32) -> (r: Self)
        ensures
            r == (DateTimeError::Date { year, month, day }),
    {
        DateTimeError::Date { year, month, day }
    }

    pub fn time(hour: u32, minute: u32, second: u32) -> (r: Self)
        ensures
            r == (DateTimeError::Time { hour, minute, second }),
    {
        DateTimeError::Time { hour, minute, second }
    }
}

/// English three-letter month names, case as FTS-0001 writes them.
pub open spec fn month_num(c0: char, c1: char, c2: char) -> Option<int> {
    if c0 == 'J' && c1 == 'a' && c2 == 'n' {
        Some(1)
    } else if c0 == 'F' && c1 == 'e' && c2 == 'b' {
        Some(2)
    } else if c0 == 'M' && c1 == 'a' && c2 == 'r' {
        Some(3)
    } else if c0 == 'A' && c1 == 'p' && c2 == 'r' {
        Some(4)
    } else if c0 == 'M' && c1 == 'a' && c2 == 'y' {
        Some(5)
    } else if c0 == 'J' && c1 == 'u' && c2 == 'n' {
        Some(6)
    } else if c0 == 'J' && c1 == 'u' && c2 == 'l' {
        Some(7)
    } else if c0 == 'A' && c1 == 'u' && c2 == 'g' {
        Some(8)
    } else if c0 == 'S' && c1 == 'e' && c2 == 'p' {
        Some(9)
    } else if c0 == 'O' && c1 == 'c' && c2 == 't' {
        Some(10)
    } else if c0 == 'N' && c1 == 'o' && c2 == 'v' {
        Some(11)
    } else if c0 == 'D' && c1 == 'e' && c2 == 'c' {
        Some(12)
    } else {
        None
    }
}

/// The FTN datetime grammar on a 19-character string
/// `DD MMM YY  HH:MM:SS`: the day may carry leading white space, the year
/// is windowed at 90 between the 1900s and the 2000s; a shape mismatch is
/// `Format`, an impossible date or time is reported with its fields.
pub open spec fn parse_ftn_datetime_spec(s: Seq<char>) -> Result<DateTime, DateTimeError> {
    if s.len() != 19 {
        Err(DateTimeError::Format)
    } else if !(s[2] == ' ' && s[6] == ' ' && s[9] == ' ' && s[10] == ' ' && s[13] == ':' && s[16]
        == ':') {
        Err(DateTimeError::Format)
    } else {
        let dp = scan_u16(trim_ws(s.subrange(0, 2)));
        let mo = month_num(s[3], s[4], s[5]);
        let yp = scan_u16(s.subrange(7, 9));
        let hp = scan_u16(s.subrange(11, 13));
        let mip = scan_u16(s.subrange(14, 16));
        let sp = scan_u16(s.subrange(17, 19));
        if !(dp is Value && mo is Some && yp is Value && hp is Value && mip is Value
            && sp is Value) {
            Err(DateTimeError::Format)
        } else {
            let day = dp->Value_0 as int;
            let month = mo->0;
            let yy = yp->Value_0 as int;
            let year = if yy >= 90 {
                yy + 1900
            } else {
                yy + 2000
            };
            let hour = hp->Value_0 as int;
            let minute = mip->Value_0 as int;
            let second = sp->Value_0 as int;
            if !valid_ymd(year, month, day) {
                Err(DateTimeError::Date {
                    year: year as u32,
                    month: month as u32,
                    day: day as u32,
                })
            } else if !valid_hms(hour, minute, second) {
                Err(DateTimeError::Time {
                    hour: hour as u32,
                    minute: minute as u32,
                    second: second as u32,
                })
            } else {
                Ok(DateTime {
                    year: year as u16,
                    month: month as u8,
                    day: day as u8,
                    hour: hour as u8,
                    minute: minute as u8,
                    second: second as u8,
                })
            }
        }
    }
}

/// A two-character decimal field holds a value up to 99.
proof fn lemma_scan_two_digits(s: Seq<char>)
    requires
        s.len() == 2,
        scan_u16(s) is Value,
    ensures
        0 <= scan_u16(s)->Value_0 <= 99,
{
    let d = s.drop_first();
    assert(d.len() == 1);
    assert(d[0] == s[1]);
    assert(d.drop_first().len() == 0);
    assert(scan_u16(s) == scan_u16_rec(s, 0));
    if crate::util::is_digit(s[0]) {
        let a1 = crate::util::digit_val(s[0]);
        assert(scan_u16_rec(s, 0) == scan_u16_rec(d, a1));
        if crate::util::is_digit(s[1]) {
            let a2 = a1 * 10 + crate::util::digit_val(s[1]);
            assert(scan_u16_rec(d, a1) == scan_u16_rec(d.drop_first(), a2));
            assert(scan_u16_rec(d.drop_first(), a2) == NumParse::Value(a2 as u16));
            assert(a2 <= 99);
        }
    }
}

/// On any 19-character string of the grammar's shape — separators in
/// place, a known month name, the numeric fields decimal — parsing yields
/// the calendar date-time with the two-digit year windowed at exactly 90
/// between the 1900s and the 2000s, or the structured error carrying the
/// rejected date or time fields.
pub proof fn lemma_ftn_datetime_grammar(s: Seq<char>)
    requires
        s.len() == 19,
        s[2] == ' ' && s[6] == ' ' && s[9] == ' ' && s[10] == ' ' && s[13] == ':' && s[16] == ':',
        scan_u16(trim_ws(s.subrange(0, 2))) is Value,
        month_num(s[3], s[4], s[5]) is Some,
        scan_u16(s.subrange(7, 9)) is Value,
        scan_u16(s.subrange(11, 13)) is Value,
        scan_u16(s.subrange(14, 16)) is Value,
        scan_u16(s.subrange(17, 19)) is Value,
    ensures
        ({
            let day = scan_u16(trim_ws(s.subrange(0, 2)))->Value_0 as int;
            let month = month_num(s[3], s[4], s[5])->0;
            let yy = scan_u16(s.subrange(7, 9))->Value_0 as int;
            let year = if yy >= 90 {
                yy + 1900
            } else {
                yy + 2000
            };
            let hour = scan_u16(s.subrange(11, 13))->Value_0 as int;
            let minute = scan_u16(s.subrange(14, 16))->Value_0 as int;
            let second = scan_u16(s.subrange(17, 19))->Value_0 as int;
            &&& 0 <= yy <= 99
            &&& valid_ymd(year, month, day) && valid_hms(hour, minute, second)
                ==> (parse_ftn_datetime_spec(s) matches Ok(dt) && dt.year as int == year
                    && dt.month as int == month && dt.day as int == day && dt.hour as int == hour
                    && dt.minute as int == minute && dt.second as int == second)
            &&& !valid_ymd(year, month, day) ==> parse_ftn_datetime_spec(s) == Err::<
                DateTime,
                DateTimeError,
            >(DateTimeError::Date { year: year as u32, month: month as u32, day: day as u32 })
            &&& valid_ymd(year, month, day) && !valid_hms(hour, minute, second)
                ==> parse_ftn_datetime_spec(s) == Err::<DateTime, DateTimeError>(
                DateTimeError::Time {
                    hour: hour as u32,
                    minute: minute as u32,
                    second: second as u32,
                },
            )
        }),
{
    lemma_scan_two_digits(s.subrange(7, 9));
}

pub fn parse_ftn_datetime(s: &str) -> (r: Result<DateTime, DateTimeError>)
    ensures
        r == parse_ftn_datetime_spec(s@),
{
    let n: usize = s.unicode_len();
    if n != 19 {
        return Err(DateTimeError::Format);
    }
    if !(s.get_char(2) == ' ' && s.get_char(6) == ' ' && s.get_char(9) == ' ' && s.get_char(10)
        == ' ' && s.get_char(13) == ':' && s.get_char(16) == ':') {
        return Err(DateTimeError::Format);
    }
    let day_str = trim_ws_str(s.substring_char(0, 2));
    let day_n: usize = day_str.unicode_len();
    proof {
        assert(day_str@.subrange(0, day_str@.len() as int) =~= day_str@);
    }
    let dp = scan_u16_range(day_str, 0, day_n);
    let mo = month_num_exec(s.get_char(3), s.get_char(4), s.get_char(5));
    let yp = scan_u16_range(s, 7, 9);
    let hp = scan_u16_range(s, 11, 13);
    let mip = scan_u16_range(s, 14, 16);
    let sp = scan_u16_range(s, 17, 19);
    let day: u16 = match dp {
        NumParse::Value(v) => v,
        _ => {
            return Err(DateTimeError::Format);
        }
    };
    let month: u8 = match mo {
        Some(m) => m,
        None => {
            return Err(DateTimeError::Format);
        }
    };
    let yy: u16 = match yp {
        NumParse::Value(v) => v,
        _ => {
            return Err(DateTimeError::Format);
        }
    };
    let hour: u16 = match hp {
        NumParse::Value(v) => v,
        _ => {
            return Err(DateTimeError::Format);
        }
    };
    let minute: u16 = match mip {
        NumParse::Value(v) => v,
        _ => {
            return Err(DateTimeError::Format);
        }
    };
    let second: u16 = match sp {
        NumParse::Value(v) => v,
        _ => {
            return Err(DateTimeError::Format);
        }
    };
    let year: u32 = if yy >= 90 {
        yy as u32 + 1900
    } else {
        yy as u32 + 2000
    };
    if !check_ymd(year, month as u32, day as u32) {
        return Err(DateTimeError::date(year, month as u32, day as u32));
    }
    if !check_hms(hour as u32, minute as u32, second as u32) {
        return Err(DateTimeError::time(hour as u32, minute as u32, second as u32));
    }
    Ok(DateTime {
        year: year as u16,
        month,
        day: day as u8,
        hour: hour as u8,
        minute: minute as u8,
        second: second as u8,
    })
}

fn month_num_exec(c0: char, c1: char, c2: char) -> (r: Option<u8>)
    ensures
        match r {
            Some(m) => month_num(c0, c1, c2) == Some(m as int),
            None => month_num(c0, c1, c2) is None,
        },
{
    if c0 == 'J' && c1 == 'a' && c2 == 'n' {
        Some(1)
    } else if c0 == 'F' && c1 == 'e' && c2 == 'b' {
        Some(2)
    } else if c0 == 'M' && c1 == 'a' && c2 == 'r' {
        Some(3)
    } else if c0 == 'A' && c1 == 'p' && c2 == 'r' {
        Some(4)
    } else if c0 == 'M' && c1 == 'a' && c2 == 'y' {
        Some(5)
    } else if c0 == 'J' && c1 == 'u' && c2 == 'n' {
        Some(6)
    } else if c0 == 'J' && c1 == 'u' && c2 == 'l' {
        Some(7)
    } else if c0 == 'A' && c1 == 'u' && c2 == 'g' {
        Some(8)
    } else if c0 == 'S' && c1 == 'e' && c2 == 'p' {
        Some(9)
    } else if c0 == 'O' && c1 == 'c' && c2 == 't' {
        Some(10)
    } else if c0 == 'N' && c1 == 'o' && c2 == 'v' {
        Some(11)
    } else if c0 == 'D' && c1 == 'e' && c2 == 'c' {
        Some(12)
    } else {
        None
    }
}

} // verus!
