//! Calendar dates and the strict `YYYY-MM-DD` format the series parser
//! and exporter use. A date is valid only if it names a real proleptic
//! Gregorian calendar day.

use vstd::prelude::*;
use crate::num::{
    all_digits, digits_val, fixed_digits, is_digit, lemma_digits_val_bound, lemma_fixed_digits_val,
    pow10,
};

verus! {

#[derive(Clone, Copy, PartialEq, Eq, Structural, Debug)]
pub struct Date {
    pub year: u32,
    pub month: u32,
    pub day: u32,
}

pub open spec fn is_leap_year(y: nat) -> bool {
    y % 4 == 0 && (y % 100 != 0 || y % 400 == 0)
}

pub open spec fn days_in_month(y: nat, m: nat) -> nat {
    if m == 2 {
        if is_leap_year(y) {
            29
        } else {
            28
        }
    } else if m == 4 || m == 6 || m == 9 || m == 11 {
        30
    } else {
        31
    }
}

/// A real calendar day whose year has four decimal digits.
pub open spec fn date_wf(d: Date) -> bool {
    &&& d.year <= 9999
    &&& 1 <= d.month <= 12
    &&& 1 <= d.day <= days_in_month(d.year as nat, d.month as nat)
}

/// Total order on dates: later days have larger numbers.
pub open spec fn date_num(d: Date) -> int {
    d.year * 10000 + d.month * 100 + d.day
}

/// What the strict `YYYY-MM-DD` parser yields on a byte sequence:
/// exactly ten bytes, digits in the three fields, dashes between them,
/// and the fields naming a real calendar day.
pub open spec fn spec_parse_date(s: Seq<u8>) -> Option<Date> {
    if s.len() == 10 && s[4] == 45 && s[7] == 45 && all_digits(s.subrange(0, 4)) && all_digits(
        s.subrange(5, 7),
    ) && all_digits(s.subrange(8, 10)) {
        let y = digits_val(s.subrange(0, 4));
        let m = digits_val(s.subrange(5, 7));
        let d = digits_val(s.subrange(8, 10));
        if 1 <= m <= 12 && 1 <= d <= days_in_month(y, m) {
            Some(Date { year: y as u32, month: m as u32, day: d as u32 })
        } else {
            None
        }
    } else {
        None
    }
}

/// The strict rendering of a date: zero-padded `YYYY-MM-DD`.
pub open spec fn spec_fmt_date(d: Date) -> Seq<u8> {
    fixed_digits(d.year as nat, 4) + seq![45u8] + fixed_digits(d.month as nat, 2) + seq![45u8]
        + fixed_digits(d.day as nat, 2)
}

/// Reads `w` ASCII digits of `v` starting at `i` as a base-10 value;
/// `None` if any byte there is not a digit.
pub fn read_fixed(v: &Vec<u8>, i: usize, w: usize) -> (r: Option<u32>)
    requires
        i + w <= v@.len(),
        w <= 9,
    ensures
        match r {
            Some(x) => all_digits(v@.subrange(i as int, i + w)) && x == digits_val(
                v@.subrange(i as int, i + w),
            ),
            None => !all_digits(v@.subrange(i as int, i + w)),
        },
{
    let n = v.len();
    let mut acc: u32 = 0;
    let mut j: usize = 0;
    proof {
        assert(v@.subrange(i as int, i as int) =~= Seq::<u8>::empty());
        assert(pow10(8) == 100000000) by {
            reveal_with_fuel(pow10, 9);
        }
    }
    while j < w
        invariant
            0 <= j <= w,
            i + w <= n == v@.len(),
            w <= 9,
            all_digits(v@.subrange(i as int, i + j)),
            acc == digits_val(v@.subrange(i as int, i + j)),
            pow10(8) == 100000000,
        decreases w - j,
    {
        let b = v[i + j];
        if !(48 <= b && b <= 57) {
            proof {
                assert(v@.subrange(i as int, i + w)[j as int] == b);
            }
            return None;
        }
        proof {
            let pre = v@.subrange(i as int, i + j);
            let cur = v@.subrange(i as int, i + j + 1);
            assert(cur.drop_last() =~= pre);
            assert(cur.last() == b);
            lemma_digits_val_bound(pre);
            crate::num::lemma_pow10_mono(pre.len() as nat, 8);
            assert(acc < 100000000);
        }
        acc = acc * 10 + (b - 48) as u32;
        j = j + 1;
    }
    Some(acc)
}

/// Appends the zero-padded `w`-digit rendering of `n` to `v`.
pub fn push_fixed(v: &mut Vec<u8>, n: u32, w: usize)
    ensures
        final(v)@ == old(v)@ + fixed_digits(n as nat, w as nat),
    decreases w,
{
    if w == 0 {
        proof {
            assert(old(v)@ + fixed_digits(n as nat, 0) =~= old(v)@);
        }
    } else {
        push_fixed(v, n / 10, w - 1);
        v.push((48 + n % 10) as u8);
        proof {
            assert(final(v)@ =~= old(v)@ + fixed_digits(n as nat, w as nat));
        }
    }
}

impl Date {
    /// Parses the ten bytes of `v` starting at `i` as a strict
    /// `YYYY-MM-DD` calendar date.
    pub fn parse_at(v: &Vec<u8>, i: usize) -> (r: Option<Date>)
        requires
            i + 10 <= v@.len(),
        ensures
            r == spec_parse_date(v@.subrange(i as int, i + 10)),
    {
        let n = v.len();
        let ghost s = v@.subrange(i as int, i + 10);
        proof {
            assert(i + 10 <= n);
            assert(s.subrange(0, 4) =~= v@.subrange(i as int, i + 4));
            assert(s.subrange(5, 7) =~= v@.subrange(i + 5, i + 7));
            assert(s.subrange(8, 10) =~= v@.subrange(i + 8, i + 10));
            assert(s[4] == v@[i + 4]);
            assert(s[7] == v@[i + 7]);
        }
        if v[i + 4] != 45 || v[i + 7] != 45 {
            return None;
        }
        let y = match read_fixed(v, i, 4) {
            Some(x) => x,
            None => {
                return None;
            },
        };
        let m = match read_fixed(v, i + 5, 2) {
            Some(x) => x,
            None => {
                return None;
            },
        };
        let d = match read_fixed(v, i + 8, 2) {
            Some(x) => x,
            None => {
                return None;
            },
        };
        if 1 <= m && m <= 12 && 1 <= d && d <= days_in_month_exec(y, m) {
            Some(Date { year: y, month: m, day: d })
        } else {
            None
        }
    }

    /// Parses a whole byte string as a strict `YYYY-MM-DD` date.
    pub fn parse(v: &Vec<u8>) -> (r: Option<Date>)
        ensures
            r == spec_parse_date(v@),
    {
        if v.len() != 10 {
            return None;
        }
        proof {
            assert(v@.subrange(0, 10) =~= v@);
        }
        Date::parse_at(v, 0)
    }

    /// Renders the date as its strict ten-byte `YYYY-MM-DD` form.
    pub fn format(self) -> (r: Vec<u8>)
        requires
            date_wf(self),
        ensures
            r@ == spec_fmt_date(self),
    {
        let mut v: Vec<u8> = Vec::new();
        push_fixed(&mut v, self.year, 4);
        v.push(45);
        push_fixed(&mut v, self.month, 2);
        v.push(45);
        push_fixed(&mut v, self.day, 2);
        proof {
            assert(v@ =~= spec_fmt_date(self));
        }
        v
    }

    /// Strictly-earlier comparison in calendar order.
    pub fn lt(self, other: Date) -> (r: bool)
        requires
            date_wf(self),
            date_wf(other),
        ensures
            r == (date_num(self) < date_num(other)),
    {
        let a: u32 = self.year * 10000 + self.month * 100 + self.day;
        let b: u32 = other.year * 10000 + other.month * 100 + other.day;
        a < b
    }
}

pub fn days_in_month_exec(y: u32, m: u32) -> (r: u32)
    ensures
        r == days_in_month(y as nat, m as nat),
{
    if m == 2 {
        if y % 4 == 0 && (y % 100 != 0 || y % 400 == 0) {
            29
        } else {
            28
        }
    } else if m == 4 || m == 6 || m == 9 || m == 11 {
        30
    } else {
        31
    }
}

/// Formatting a valid date and parsing the result yields the date back.
pub proof fn lemma_date_round_trip(d: Date)
    requires
        date_wf(d),
    ensures
        spec_parse_date(spec_fmt_date(d)) == Some(d),
{
    let s = spec_fmt_date(d);
    let a = fixed_digits(d.year as nat, 4);
    let m = fixed_digits(d.month as nat, 2);
    let c = fixed_digits(d.day as nat, 2);
    lemma_fixed_digits_val(d.year as nat, 4);
    lemma_fixed_digits_val(d.month as nat, 2);
    lemma_fixed_digits_val(d.day as nat, 2);
    assert(pow10(4) == 10000 && pow10(2) == 100) by {
        reveal_with_fuel(pow10, 5);
    }
    assert(s.len() == 10);
    assert(s[4] == 45);
    assert(s[7] == 45);
    assert(s.subrange(0, 4) =~= a);
    assert(s.subrange(5, 7) =~= m);
    assert(s.subrange(8, 10) =~= c);
}

/// A successfully parsed date is a well-formed calendar date.
pub proof fn lemma_parse_date_wf(s: Seq<u8>)
    requires
        spec_parse_date(s) is Some,
    ensures
        date_wf(spec_parse_date(s)->Some_0),
{
    lemma_digits_val_bound(s.subrange(0, 4));
    assert(pow10(4) == 10000) by {
        reveal_with_fuel(pow10, 5);
    }
}

/// Dates with equal order numbers are the same date.
pub proof fn lemma_date_num_injective(a: Date, b: Date)
    requires
        date_wf(a),
        date_wf(b),
        date_num(a) == date_num(b),
    ensures
        a == b,
{
    assert(a.month * 100 + a.day < 10000);
    assert(b.month * 100 + b.day < 10000);
    assert(a.year == b.year) by (nonlinear_arith)
        requires
            a.year * 10000 + a.month * 100 + a.day == b.year * 10000 + b.month * 100 + b.day,
            a.month * 100 + a.day < 10000,
            b.month * 100 + b.day < 10000,
    ;
    assert(a.day <= 31 && b.day <= 31);
    assert(a.month == b.month && a.day == b.day);
}

} // verus!
