//! Civil (time-zone-less) date-times, their order, and the fixed-width digit
//! grammar used in file and folder names.

use vstd::prelude::*;

verus! {

/// A calendar date and wall-clock time with second precision, no time zone.
#[derive(Clone, Copy, Debug)]
pub struct CivilDateTime {
    pub year: i16,
    pub month: i8,
    pub day: i8,
    pub hour: i8,
    pub minute: i8,
    pub second: i8,
}

pub open spec fn is_leap_year(y: int) -> bool {
    y % 4 == 0 && (y % 100 != 0 || y % 400 == 0)
}

pub open spec fn days_in_month(y: int, m: int) -> int {
    if m == 2 {
        if is_leap_year(y) { 29 } else { 28 }
    } else if m == 4 || m == 6 || m == 9 || m == 11 {
        30
    } else {
        31
    }
}

/// The date-times of the proleptic Gregorian calendar between the years
/// -9999 and 9999.
pub open spec fn valid_datetime(y: int, mo: int, d: int, h: int, mi: int, s: int) -> bool {
    &&& -9999 <= y <= 9999
    &&& 1 <= mo <= 12
    &&& 1 <= d <= days_in_month(y, mo)
    &&& 0 <= h <= 23
    &&& 0 <= mi <= 59
    &&& 0 <= s <= 59
}

/// Relies on jiff::civil::DateTime::new, which succeeds exactly on the
/// calendar-valid date-times (its documented range checks).
#[verifier::external_body]
fn jiff_accepts(year: i16, month: i8, day: i8, hour: i8, minute: i8, second: i8) -> (r: bool)
    ensures
        r == valid_datetime(year as int, month as int, day as int, hour as int, minute as int, second as int),
{
    jiff::civil::DateTime::new(year, month, day, hour, minute, second, 0).is_ok()
}

impl CivilDateTime {
    pub open spec fn wf(self) -> bool {
        valid_datetime(
            self.year as int,
            self.month as int,
            self.day as int,
            self.hour as int,
            self.minute as int,
            self.second as int,
        )
    }

    /// Strictly earlier: the fields compared from year down to second.
    pub open spec fn lt(self, o: Self) -> bool {
        if self.year != o.year {
            self.year < o.year
        } else if self.month != o.month {
            self.month < o.month
        } else if self.day != o.day {
            self.day < o.day
        } else if self.hour != o.hour {
            self.hour < o.hour
        } else if self.minute != o.minute {
            self.minute < o.minute
        } else {
            self.second < o.second
        }
    }

    pub open spec fn le(self, o: Self) -> bool {
        !o.lt(self)
    }

    pub fn is_before(&self, o: &Self) -> (r: bool)
        ensures
            r == self.lt(*o),
    {
        if self.year != o.year {
            self.year < o.year
        } else if self.month != o.month {
            self.month < o.month
        } else if self.day != o.day {
            self.day < o.day
        } else if self.hour != o.hour {
            self.hour < o.hour
        } else if self.minute != o.minute {
            self.minute < o.minute
        } else {
            self.second < o.second
        }
    }

    /// Builds a date-time from its fields when they form a valid one.
    pub fn from_fields(year: i16, month: i8, day: i8, hour: i8, minute: i8, second: i8) -> (r:
        Option<Self>)
        ensures
            r is Some <==> valid_datetime(
                year as int,
                month as int,
                day as int,
                hour as int,
                minute as int,
                second as int,
            ),
            r matches Some(t) ==> t.wf() && t == (CivilDateTime { year, month, day, hour, minute, second }),
    {
        if jiff_accepts(year, month, day, hour, minute, second) {
            Some(CivilDateTime { year, month, day, hour, minute, second })
        } else {
            None
        }
    }
}

/// The strict order is irreflexive, transitive and total on distinct values.
pub proof fn lemma_lt_order(a: CivilDateTime, b: CivilDateTime, c: CivilDateTime)
    ensures
        !a.lt(a),
        a.lt(b) && b.lt(c) ==> a.lt(c),
        a.lt(b) ==> !b.lt(a),
        !a.lt(b) && !b.lt(a) ==> a == b,
{
}

pub open spec fn is_digit(b: u8) -> bool {
    48 <= b <= 57
}

pub open spec fn two_digits(s: Seq<u8>, i: int) -> int {
    (s[i] - 48) * 10 + (s[i + 1] - 48)
}

pub open spec fn four_digits(s: Seq<u8>, i: int) -> int {
    two_digits(s, i) * 100 + two_digits(s, i + 2)
}

pub open spec fn all_digits(s: Seq<u8>, i: int, n: int) -> bool {
    forall|k: int| i <= k < i + n ==> is_digit(#[trigger] s[k])
}

/// The date-time whose fields stand at the given offsets of `s`.
pub open spec fn fields_at(s: Seq<u8>, y: int, mo: int, d: int, h: int, mi: int, se: int) -> CivilDateTime {
    CivilDateTime {
        year: four_digits(s, y) as i16,
        month: two_digits(s, mo) as i8,
        day: two_digits(s, d) as i8,
        hour: two_digits(s, h) as i8,
        minute: two_digits(s, mi) as i8,
        second: two_digits(s, se) as i8,
    }
}

pub open spec fn fields_valid_at(s: Seq<u8>, y: int, mo: int, d: int, h: int, mi: int, se: int) -> bool {
    valid_datetime(
        four_digits(s, y),
        two_digits(s, mo),
        two_digits(s, d),
        two_digits(s, h),
        two_digits(s, mi),
        two_digits(s, se),
    )
}

pub fn is_digit_byte(b: u8) -> (r: bool)
    ensures
        r == is_digit(b),
{
    48 <= b && b <= 57
}

pub fn digits_in(b: &[u8], i: usize, n: usize) -> (r: bool)
    requires
        i + n <= b@.len(),
    ensures
        r == all_digits(b@, i as int, n as int),
{
    let _len = b.len();
    let end = i + n;
    let mut k: usize = i;
    while k < end
        invariant
            end == i + n,
            i <= k <= end,
            i + n <= b@.len(),
            all_digits(b@, i as int, k - i),
        decreases end - k,
    {
        if !is_digit_byte(b[k]) {
            return false;
        }
        k = k + 1;
    }
    true
}

fn two_at(b: &[u8], i: usize) -> (r: i8)
    requires
        i + 2 <= b@.len(),
        all_digits(b@, i as int, 2),
    ensures
        r as int == two_digits(b@, i as int),
        0 <= r <= 99,
{
    assert(is_digit(b@[i as int]) && is_digit(b@[i + 1]));
    ((b[i] - 48) * 10 + (b[i + 1] - 48)) as i8
}

fn four_at(b: &[u8], i: usize) -> (r: i16)
    requires
        i + 4 <= b@.len(),
        all_digits(b@, i as int, 4),
    ensures
        r as int == four_digits(b@, i as int),
        0 <= r <= 9999,
{
    let _len = b.len();
    assert(is_digit(b@[i + 2]) && is_digit(b@[i + 3]));
    let hi = two_at(b, i) as i16;
    let lo = two_at(b, i + 2) as i16;
    hi * 100 + lo
}

/// Reads a date-time from digit fields at the given offsets; `None` when the
/// fields do not form a valid calendar date-time.
pub fn datetime_at(b: &[u8], y: usize, mo: usize, d: usize, h: usize, mi: usize, se: usize) -> (r:
    Option<CivilDateTime>)
    requires
        y + 4 <= b@.len(),
        mo + 2 <= b@.len(),
        d + 2 <= b@.len(),
        h + 2 <= b@.len(),
        mi + 2 <= b@.len(),
        se + 2 <= b@.len(),
        all_digits(b@, y as int, 4),
        all_digits(b@, mo as int, 2),
        all_digits(b@, d as int, 2),
        all_digits(b@, h as int, 2),
        all_digits(b@, mi as int, 2),
        all_digits(b@, se as int, 2),
    ensures
        r is Some <==> fields_valid_at(b@, y as int, mo as int, d as int, h as int, mi as int, se as int),
        r matches Some(t) ==> t.wf() && t == fields_at(
            b@,
            y as int,
            mo as int,
            d as int,
            h as int,
            mi as int,
            se as int,
        ),
{
    let year = four_at(b, y);
    let month = two_at(b, mo);
    let day = two_at(b, d);
    let hour = two_at(b, h);
    let minute = two_at(b, mi);
    let second = two_at(b, se);
    CivilDateTime::from_fields(year, month, day, hour, minute, second)
}

} // verus!
