//! Civil calendar dates: the digest store keys records by a `YYYY-MM-DD`
//! stamp, and a digest build must look one day back.

use vstd::prelude::*;
use crate::num::{dec_of, fmt_u64, lemma_dec_of};

verus! {

/// A Gregorian calendar date.
#[derive(Debug, Clone, Copy, PartialEq, Eq, Structural)]
pub struct Date {
    pub year: u32,
    pub month: u32,
    pub day: u32,
}

/// Gregorian leap years.
pub open spec fn is_leap_year(y: int) -> bool {
    y % 4 == 0 && (y % 100 != 0 || y % 400 == 0)
}

/// The number of days in a month.
pub open spec fn spec_days_in_month(y: int, m: int) -> int {
    if m == 2 {
        if is_leap_year(y) {
            29
        } else {
            28
        }
    } else if m == 4 || m == 6 || m == 9 || m == 11 {
        30
    } else {
        31
    }
}

/// The number of days in a month of a year.
pub fn days_in_month(y: u32, m: u32) -> (r: u32)
    ensures
        r == spec_days_in_month(y as int, m as int),
{
    if m == 2 {
        if y % 4 == 0 && (y % 100 != 0 || y % 400 == 0) {
            29
        } else {
            28
        }
    } else if m == 4 || m == 6 || m == 9 || m == 11 {
        30
    } else {
        31
    }
}

/// The calendar day before a date, where one exists.
pub open spec fn spec_prev_day(d: Date) -> Date {
    if d.day > 1 {
        Date { year: d.year, month: d.month, day: (d.day - 1) as u32 }
    } else if d.month > 1 {
        Date {
            year: d.year,
            month: (d.month - 1) as u32,
            day: spec_days_in_month(d.year as int, d.month - 1) as u32,
        }
    } else {
        Date { year: (d.year - 1) as u32, month: 12, day: 31 }
    }
}

impl Date {
    /// A real calendar date with a four-digit year.
    pub open spec fn wf(self) -> bool {
        1 <= self.year <= 9999 && 1 <= self.month <= 12 && 1 <= self.day
            <= spec_days_in_month(self.year as int, self.month as int)
    }

    /// The calendar day before this one.
    pub fn prev_day(&self) -> (r: Date)
        requires
            self.wf(),
            !(self.year == 1 && self.month == 1 && self.day == 1),
        ensures
            r == spec_prev_day(*self),
            r.wf(),
    {
        if self.day > 1 {
            Date { year: self.year, month: self.month, day: self.day - 1 }
        } else if self.month > 1 {
            Date {
                year: self.year,
                month: self.month - 1,
                day: days_in_month(self.year, self.month - 1),
            }
        } else {
            Date { year: self.year - 1, month: 12, day: 31 }
        }
    }
}

/// A number rendered as exactly two digits.
pub open spec fn two_digits(n: nat) -> Seq<char> {
    if n < 10 {
        seq!['0'] + dec_of(n)
    } else {
        dec_of(n)
    }
}

/// A number rendered as exactly four digits.
pub open spec fn four_digits(n: nat) -> Seq<char> {
    if n < 10 {
        seq!['0', '0', '0'] + dec_of(n)
    } else if n < 100 {
        seq!['0', '0'] + dec_of(n)
    } else if n < 1000 {
        seq!['0'] + dec_of(n)
    } else {
        dec_of(n)
    }
}

/// The `YYYY-MM-DD` stamp of a date.
pub open spec fn spec_datestamp(d: Date) -> Seq<char> {
    four_digits(d.year as nat) + seq!['-'] + two_digits(d.month as nat) + seq!['-'] + two_digits(
        d.day as nat,
    )
}

/// Render a number as exactly two digits.
fn fmt_two_digits(n: u32) -> (r: String)
    requires
        n < 100,
    ensures
        r@ == two_digits(n as nat),
{
    proof {
        reveal_strlit("0");
        lemma_dec_of(n as nat);
    }
    if n < 10 {
        let mut s = "0".to_owned();
        let digits = fmt_u64(n as u64);
        s.append(digits.as_str());
        proof {
            assert("0"@ =~= seq!['0']);
            assert(s@ =~= two_digits(n as nat));
        }
        s
    } else {
        fmt_u64(n as u64)
    }
}

/// Render a number as exactly four digits.
fn fmt_four_digits(n: u32) -> (r: String)
    requires
        n < 10000,
    ensures
        r@ == four_digits(n as nat),
{
    proof {
        reveal_strlit("0");
        reveal_strlit("00");
        reveal_strlit("000");
        lemma_dec_of(n as nat);
    }
    if n < 10 {
        let mut s = "000".to_owned();
        let digits = fmt_u64(n as u64);
        s.append(digits.as_str());
        proof {
            assert("000"@ =~= seq!['0', '0', '0']);
            assert(s@ =~= four_digits(n as nat));
        }
        s
    } else if n < 100 {
        let mut s = "00".to_owned();
        let digits = fmt_u64(n as u64);
        s.append(digits.as_str());
        proof {
            assert("00"@ =~= seq!['0', '0']);
            assert(s@ =~= four_digits(n as nat));
        }
        s
    } else if n < 1000 {
        let mut s = "0".to_owned();
        let digits = fmt_u64(n as u64);
        s.append(digits.as_str());
        proof {
            assert("0"@ =~= seq!['0']);
            assert(s@ =~= four_digits(n as nat));
        }
        s
    } else {
        fmt_u64(n as u64)
    }
}

/// The `YYYY-MM-DD` sort key of a date.
pub fn datestamp(d: &Date) -> (r: String)
    requires
        d.wf(),
    ensures
        r@ == spec_datestamp(*d),
{
    let mut s = fmt_four_digits(d.year);
    let dash = "-";
    proof {
        reveal_strlit("-");
        assert("-"@ =~= seq!['-']);
    }
    s.append(dash);
    let mm = fmt_two_digits(d.month);
    s.append(mm.as_str());
    s.append(dash);
    let dd = fmt_two_digits(d.day);
    s.append(dd.as_str());
    proof {
        assert(s@ =~= spec_datestamp(*d));
    }
    s
}

} // verus!
