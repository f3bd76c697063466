//! The one strict field of the document: a UTC instant written in the fixed
//! textual pattern `YYYY-MM-DDTHH:MM:SS[.fff]Z` (one to three fractional
//! digits, or none). A present time field must match this pattern and name a
//! real calendar date, else decoding of the whole document fails; the parsed
//! instant converts to milliseconds on the proleptic Gregorian calendar for
//! the averaging engine.

use vstd::prelude::*;

verus! {

/// A decoded UTC instant, held field by field with millisecond precision.
#[derive(Clone, Copy, PartialEq, Eq, Structural, Debug)]
pub struct Timestamp {
    pub year: u16,
    pub month: u8,
    pub day: u8,
    pub hour: u8,
    pub minute: u8,
    pub second: u8,
    pub millis: u16,
}

/// Proleptic Gregorian leap year.
pub open spec fn leap_year(y: int) -> bool {
    y % 4 == 0 && (y % 100 != 0 || y % 400 == 0)
}

/// Days in a month of the proleptic Gregorian calendar.
pub open spec fn days_in_month(y: int, m: int) -> int {
    if m == 2 {
        if leap_year(y) {
            29
        } else {
            28
        }
    } else if m == 4 || m == 6 || m == 9 || m == 11 {
        30
    } else {
        31
    }
}

/// Number of leap years among the years `0 .. y`.
pub open spec fn leap_count_before(y: int) -> int {
    (y + 3) / 4 - (y + 99) / 100 + (y + 399) / 400
}

/// Days in the months of year `y` that precede month `m`.
pub open spec fn days_before_month(y: int, m: int) -> int {
    let plain: int = if m == 1 {
        0
    } else if m == 2 {
        31
    } else if m == 3 {
        59
    } else if m == 4 {
        90
    } else if m == 5 {
        120
    } else if m == 6 {
        151
    } else if m == 7 {
        181
    } else if m == 8 {
        212
    } else if m == 9 {
        243
    } else if m == 10 {
        273
    } else if m == 11 {
        304
    } else {
        334
    };
    plain + if m > 2 && leap_year(y) {
        1int
    } else {
        0int
    }
}

impl Timestamp {
    /// Fields name a real instant: a valid calendar date and a valid
    /// time of day, within the four-digit-year pattern.
    pub open spec fn wf(self) -> bool {
        &&& self.year <= 9999
        &&& 1 <= self.month <= 12
        &&& 1 <= self.day <= days_in_month(self.year as int, self.month as int)
        &&& self.hour < 24
        &&& self.minute < 60
        &&& self.second < 60
        &&& self.millis < 1000
    }

    /// The day number of this instant's date, counting day 0 as
    /// 0000-01-01 of the proleptic Gregorian calendar.
    pub open spec fn day_number(self) -> int {
        365 * self.year + leap_count_before(self.year as int) + days_before_month(
            self.year as int,
            self.month as int,
        ) + self.day - 1
    }

    /// Milliseconds from 0000-01-01T00:00:00Z to this instant.
    pub open spec fn epoch_ms_spec(self) -> int {
        self.day_number() * 86400000 + self.hour * 3600000 + self.minute * 60000 + self.second
            * 1000 + self.millis
    }

    /// Convert to milliseconds for the engine's series timestamps.
    pub fn epoch_millis(&self) -> (r: u64)
        requires
            self.wf(),
        ensures
            r == self.epoch_ms_spec(),
    {
        let y: u64 = self.year as u64;
        let leaps: u64 = (y + 3) / 4 - (y + 99) / 100 + (y + 399) / 400;
        let before: u64 = match self.month {
            1 => 0,
            2 => 31,
            3 => 59,
            4 => 90,
            5 => 120,
            6 => 151,
            7 => 181,
            8 => 212,
            9 => 243,
            10 => 273,
            11 => 304,
            _ => 334,
        };
        let leap_fix: u64 = if self.month > 2 && y % 4 == 0 && (y % 100 != 0 || y % 400 == 0) {
            1
        } else {
            0
        };
        let days: u64 = 365 * y + leaps + before + leap_fix + (self.day as u64) - 1;
        days * 86400000 + (self.hour as u64) * 3600000 + (self.minute as u64) * 60000 + (
        self.second as u64) * 1000 + (self.millis as u64)
    }
}

/// Days in a month, for the decoder's calendar check.
pub fn days_in_month_of(year: u16, month: u8) -> (r: u8)
    requires
        1 <= month <= 12,
    ensures
        r == days_in_month(year as int, month as int),
{
    if month == 2 {
        if year % 4 == 0 && (year % 100 != 0 || year % 400 == 0) {
            29
        } else {
            28
        }
    } else if month == 4 || month == 6 || month == 9 || month == 11 {
        30
    } else {
        31
    }
}

/// An ASCII decimal digit.
pub open spec fn is_digit(c: u8) -> bool {
    48 <= c <= 57
}

/// The value of an ASCII decimal digit.
pub open spec fn dv(c: u8) -> int {
    c - 48
}

/// The value of the two digits at `i`, `i + 1`.
pub open spec fn two_at(s: Seq<u8>, i: int) -> int {
    10 * dv(s[i]) + dv(s[i + 1])
}

/// The value of the four digits at `i .. i + 4`.
pub open spec fn four_at(s: Seq<u8>, i: int) -> int {
    1000 * dv(s[i]) + 100 * dv(s[i + 1]) + 10 * dv(s[i + 2]) + dv(s[i + 3])
}

/// The `n` bytes at `i .. i + n` are all decimal digits.
pub open spec fn digits_at(s: Seq<u8>, i: int, n: int) -> bool {
    forall|k: int| i <= k < i + n ==> is_digit(#[trigger] s[k])
}

/// Milliseconds named by the optional fraction: one to three digits after
/// the dot, shorter fractions standing for coarser precision.
pub open spec fn frac_millis(s: Seq<u8>) -> int {
    if s.len() == 20 {
        0
    } else if s.len() == 22 {
        100 * dv(s[20])
    } else if s.len() == 23 {
        100 * dv(s[20]) + 10 * dv(s[21])
    } else {
        100 * dv(s[20]) + 10 * dv(s[21]) + dv(s[22])
    }
}

/// The text matches the fixed pattern `YYYY-MM-DDTHH:MM:SS[.fff]Z`.
pub open spec fn stamp_shape(s: Seq<u8>) -> bool {
    &&& (s.len() == 20 || s.len() == 22 || s.len() == 23 || s.len() == 24)
    &&& digits_at(s, 0, 4)
    &&& s[4] == 45u8
    &&& digits_at(s, 5, 2)
    &&& s[7] == 45u8
    &&& digits_at(s, 8, 2)
    &&& s[10] == 84u8
    &&& digits_at(s, 11, 2)
    &&& s[13] == 58u8
    &&& digits_at(s, 14, 2)
    &&& s[16] == 58u8
    &&& digits_at(s, 17, 2)
    &&& s[s.len() - 1] == 90u8
    &&& (s.len() > 20 ==> s[19] == 46u8 && digits_at(s, 20, s.len() - 21))
}

/// The fields written in a pattern-shaped text.
pub open spec fn fields_of(s: Seq<u8>) -> Timestamp {
    Timestamp {
        year: four_at(s, 0) as u16,
        month: two_at(s, 5) as u8,
        day: two_at(s, 8) as u8,
        hour: two_at(s, 11) as u8,
        minute: two_at(s, 14) as u8,
        second: two_at(s, 17) as u8,
        millis: frac_millis(s) as u16,
    }
}

/// What decoding the strict time field means: the instant named by a text
/// that matches the pattern and is a real calendar instant, nothing else.
pub open spec fn parse_spec(s: Seq<u8>) -> Option<Timestamp> {
    if stamp_shape(s) && fields_of(s).wf() {
        Some(fields_of(s))
    } else {
        None
    }
}

/// Read the two digits at `i`, `i + 1`.
fn read_two(s: &Vec<u8>, i: usize) -> (r: Option<u8>)
    requires
        i + 2 <= s@.len(),
    ensures
        r is Some <==> digits_at(s@, i as int, 2),
        r matches Some(x) ==> x == two_at(s@, i as int),
{
    let n = s.len();
    proof {
        assert(i + 2 <= n);
    }
    let a = s[i];
    let b = s[i + 1];
    if 48 <= a && a <= 57 && 48 <= b && b <= 57 {
        Some((a - 48) * 10 + (b - 48))
    } else {
        None
    }
}

/// Decode the strict time field. Returns the instant exactly when the text
/// matches the fixed pattern and names a real calendar date and time.
pub fn parse_timestamp(s: &Vec<u8>) -> (r: Option<Timestamp>)
    ensures
        r == parse_spec(s@),
        r matches Some(t) ==> t.wf(),
{
    let n = s.len();
    if !(n == 20 || n == 22 || n == 23 || n == 24) {
        return None;
    }
    if s[4] != 45 || s[7] != 45 || s[10] != 84 || s[13] != 58 || s[16] != 58 || s[n - 1] != 90 {
        return None;
    }
    if n > 20 && s[19] != 46 {
        return None;
    }
    let y1 = match read_two(s, 0) {
        Some(x) => x,
        None => {
            return None;
        },
    };
    let y2 = match read_two(s, 2) {
        Some(x) => x,
        None => {
            return None;
        },
    };
    let year: u16 = (y1 as u16) * 100 + (y2 as u16);
    let month = match read_two(s, 5) {
        Some(x) => x,
        None => {
            return None;
        },
    };
    let day = match read_two(s, 8) {
        Some(x) => x,
        None => {
            return None;
        },
    };
    let hour = match read_two(s, 11) {
        Some(x) => x,
        None => {
            return None;
        },
    };
    let minute = match read_two(s, 14) {
        Some(x) => x,
        None => {
            return None;
        },
    };
    let second = match read_two(s, 17) {
        Some(x) => x,
        None => {
            return None;
        },
    };
    let mut millis: u16 = 0;
    if n > 20 {
        let mut scale: u16 = 100;
        let mut j: usize = 20;
        while j < n - 1
            invariant
                20 <= j <= n - 1,
                n == s@.len(),
                22 <= n <= 24,
                digits_at(s@, 20, j - 20),
                j == 20 ==> scale == 100 && millis == 0,
                j == 21 ==> scale == 10 && millis == 100 * dv(s@[20]),
                j == 22 ==> scale == 1 && millis == 100 * dv(s@[20]) + 10 * dv(s@[21]),
                j == 23 ==> millis == 100 * dv(s@[20]) + 10 * dv(s@[21]) + dv(s@[22]),
            decreases n - j,
        {
            let c = s[j];
            if c < 48 || c > 57 {
                return None;
            }
            millis = millis + scale * ((c - 48) as u16);
            scale = scale / 10;
            j = j + 1;
        }
        assert(millis == frac_millis(s@));
    }
    proof {
        assert(digits_at(s@, 0, 4)) by {
            assert(is_digit(s@[0]) && is_digit(s@[1]) && is_digit(s@[2]) && is_digit(s@[3]));
        }
        assert(stamp_shape(s@));
        assert(year == four_at(s@, 0));
    }
    let ts = Timestamp { year, month, day, hour, minute, second, millis };
    if month < 1 || month > 12 {
        return None;
    }
    if day < 1 || day > days_in_month_of(year, month) {
        return None;
    }
    if hour >= 24 || minute >= 60 || second >= 60 {
        return None;
    }
    assert(ts == fields_of(s@) && ts.wf());
    Some(ts)
}

/// The date-and-time part of an instant's canonical text, through the
/// seconds field.
pub open spec fn encode_head(t: Timestamp) -> Seq<u8> {
    seq![
        (48 + t.year / 1000) as u8,
        (48 + (t.year / 100) % 10) as u8,
        (48 + (t.year / 10) % 10) as u8,
        (48 + t.year % 10) as u8,
        45u8,
        (48 + t.month / 10) as u8,
        (48 + t.month % 10) as u8,
        45u8,
        (48 + t.day / 10) as u8,
        (48 + t.day % 10) as u8,
        84u8,
        (48 + t.hour / 10) as u8,
        (48 + t.hour % 10) as u8,
        58u8,
        (48 + t.minute / 10) as u8,
        (48 + t.minute % 10) as u8,
        58u8,
        (48 + t.second / 10) as u8,
        (48 + t.second % 10) as u8,
    ]
}

/// The canonical text of an instant: the fixed pattern, with a three-digit
/// fraction exactly when the instant has sub-second precision.
pub open spec fn encode_spec(t: Timestamp) -> Seq<u8> {
    if t.millis == 0 {
        encode_head(t) + seq![90u8]
    } else {
        encode_head(t) + seq![
            46u8,
            (48 + t.millis / 100) as u8,
            (48 + (t.millis / 10) % 10) as u8,
            (48 + t.millis % 10) as u8,
            90u8,
        ]
    }
}

/// Write an instant back in the fixed pattern.
pub fn encode_timestamp(t: &Timestamp) -> (r: Vec<u8>)
    requires
        t.wf(),
    ensures
        r@ == encode_spec(*t),
{
    let mut r: Vec<u8> = Vec::new();
    r.push(48 + (t.year / 1000) as u8);
    r.push(48 + ((t.year / 100) % 10) as u8);
    r.push(48 + ((t.year / 10) % 10) as u8);
    r.push(48 + (t.year % 10) as u8);
    r.push(45);
    r.push(48 + t.month / 10);
    r.push(48 + t.month % 10);
    r.push(45);
    r.push(48 + t.day / 10);
    r.push(48 + t.day % 10);
    r.push(84);
    r.push(48 + t.hour / 10);
    r.push(48 + t.hour % 10);
    r.push(58);
    r.push(48 + t.minute / 10);
    r.push(48 + t.minute % 10);
    r.push(58);
    r.push(48 + t.second / 10);
    r.push(48 + t.second % 10);
    proof {
        assert(r@ =~= encode_head(*t));
    }
    if t.millis == 0 {
        r.push(90);
    } else {
        r.push(46);
        r.push(48 + (t.millis / 100) as u8);
        r.push(48 + ((t.millis / 10) % 10) as u8);
        r.push(48 + (t.millis % 10) as u8);
        r.push(90);
    }
    proof {
        assert(r@ =~= encode_spec(*t));
    }
    r
}

/// Decoding is format-preserving on the accepted subset: a well-formed
/// instant's canonical text matches the pattern and decodes back to the
/// very same instant.
pub proof fn lemma_timestamp_round_trip(t: Timestamp)
    requires
        t.wf(),
    ensures
        parse_spec(encode_spec(t)) == Some(t),
{
    let s = encode_spec(t);
    assert(stamp_shape(s)) by {
        assert forall|k: int| 0 <= k < 4 implies is_digit(#[trigger] s[k]) by {}
        if t.millis != 0 {
            assert forall|k: int| 20 <= k < s.len() - 1 implies is_digit(#[trigger] s[k]) by {}
        }
    }
    assert(four_at(s, 0) == t.year) by {
        lemma_four_digit_value(t.year as int);
    }
    assert(two_at(s, 5) == t.month) by {
        lemma_two_digit_value(t.month as int);
    }
    assert(two_at(s, 8) == t.day) by {
        lemma_two_digit_value(t.day as int);
    }
    assert(two_at(s, 11) == t.hour) by {
        lemma_two_digit_value(t.hour as int);
    }
    assert(two_at(s, 14) == t.minute) by {
        lemma_two_digit_value(t.minute as int);
    }
    assert(two_at(s, 17) == t.second) by {
        lemma_two_digit_value(t.second as int);
    }
    if t.millis != 0 {
        assert(frac_millis(s) == t.millis) by {
            lemma_three_digit_value(t.millis as int);
        }
    }
    assert(fields_of(s) == t);
}

/// A two-digit rendering reads back as its value.
proof fn lemma_two_digit_value(x: int)
    requires
        0 <= x < 100,
    ensures
        10 * (x / 10) + x % 10 == x,
{
}

/// A three-digit rendering reads back as its value.
proof fn lemma_three_digit_value(x: int)
    requires
        0 <= x < 1000,
    ensures
        100 * (x / 100) + 10 * ((x / 10) % 10) + x % 10 == x,
{
    assert(100 * (x / 100) + 10 * ((x / 10) % 10) + x % 10 == x) by (nonlinear_arith)
        requires
            0 <= x < 1000,
    {
        assert(x / 10 == 10 * (x / 100) + (x / 10) % 10);
    }
}

/// A four-digit rendering reads back as its value.
proof fn lemma_four_digit_value(x: int)
    requires
        0 <= x < 10000,
    ensures
        1000 * (x / 1000) + 100 * ((x / 100) % 10) + 10 * ((x / 10) % 10) + x % 10 == x,
{
    assert(1000 * (x / 1000) + 100 * ((x / 100) % 10) + 10 * ((x / 10) % 10) + x % 10 == x)
        by (nonlinear_arith)
        requires
            0 <= x < 10000,
    {
        assert(x / 10 == 10 * (x / 100) + (x / 10) % 10);
        assert(x / 100 == 10 * (x / 1000) + (x / 100) % 10);
    }
}

} // verus!
