//! Non-scientific base-10 decimal numbers: the closing prices of the
//! series and the predicted price of an analysis. A value is a sign, an
//! integer mantissa and a scale (number of fractional digits); prices are
//! parsed from and rendered to plain `digits[.digits]` byte strings, and
//! compared through their value in millionths.

use vstd::prelude::*;
use crate::num::{
    all_digits, digits_of, digits_val, fixed_digits, is_digit, lemma_digits_of_val,
    lemma_digits_val_append, lemma_digits_val_bound, lemma_fixed_digits_val, lemma_pow10_mono,
    lemma_pow10_pos, pow10,
};

verus! {

/// Mantissas stay below ten to the twelfth, so every value in
/// millionths fits a 64-bit signed integer.
pub const MANT_LIMIT: u64 = 1000000000000;

/// At most six fractional digits are kept.
pub const MAX_SCALE: u32 = 6;

#[derive(Clone, Copy, PartialEq, Eq, Structural, Debug)]
pub struct Decimal {
    pub neg: bool,
    pub mant: u64,
    pub scale: u32,
}

pub open spec fn dec_wf(d: Decimal) -> bool {
    d.mant < MANT_LIMIT && d.scale <= MAX_SCALE
}

/// The number's value measured in millionths of a unit.
pub open spec fn value_e6(d: Decimal) -> int {
    (if d.neg {
        -1
    } else {
        1
    }) * d.mant * pow10((MAX_SCALE - d.scale) as nat)
}

/// Bytes that may occur in a decimal literal.
pub open spec fn num_char(b: u8) -> bool {
    is_digit(b) || b == 45 || b == 46
}

/// A decomposition of `r` into integer digits, a dot, and fractional
/// digits, both parts nonempty.
pub open spec fn dec_split(r: Seq<u8>, a: Seq<u8>, b: Seq<u8>) -> bool {
    &&& r == a + seq![46u8] + b
    &&& a.len() >= 1
    &&& b.len() >= 1
    &&& all_digits(a)
    &&& all_digits(b)
}

pub open spec fn has_dec_split(r: Seq<u8>) -> bool {
    exists|ab: (Seq<u8>, Seq<u8>)| dec_split(r, ab.0, ab.1)
}

/// What the decimal parser yields: an optional minus sign, then either
/// all digits, or digits-dot-digits; the combined digits must read below
/// the mantissa limit and at most six fractional digits are accepted.
pub open spec fn spec_parse_dec(s: Seq<u8>) -> Option<Decimal> {
    let neg = s.len() > 0 && s[0] == 45;
    let r = if neg {
        s.subrange(1, s.len() as int)
    } else {
        s
    };
    if r.len() >= 1 && all_digits(r) {
        if digits_val(r) < MANT_LIMIT {
            Some(Decimal { neg, mant: digits_val(r) as u64, scale: 0 })
        } else {
            None
        }
    } else if has_dec_split(r) {
        let ab = choose|ab: (Seq<u8>, Seq<u8>)| dec_split(r, ab.0, ab.1);
        if ab.1.len() <= MAX_SCALE && digits_val(ab.0 + ab.1) < MANT_LIMIT {
            Some(
                Decimal {
                    neg,
                    mant: digits_val(ab.0 + ab.1) as u64,
                    scale: ab.1.len() as u32,
                },
            )
        } else {
            None
        }
    } else {
        None
    }
}

/// The canonical rendering: sign, integer part without leading zeros,
/// and, for a positive scale, a dot and exactly `scale` fractional
/// digits.
pub open spec fn spec_fmt_dec(d: Decimal) -> Seq<u8> {
    let ip = (d.mant as nat) / pow10(d.scale as nat);
    let fp = (d.mant as nat) % pow10(d.scale as nat);
    (if d.neg {
        seq![45u8]
    } else {
        seq![]
    }) + int_digits(ip) + (if d.scale == 0 {
        seq![]
    } else {
        seq![46u8] + fixed_digits(fp, d.scale as nat)
    })
}

/// Digits of `n` without padding; a single zero digit for zero.
pub open spec fn int_digits(n: nat) -> Seq<u8> {
    if n == 0 {
        seq![48u8]
    } else {
        digits_of(n)
    }
}

pub proof fn lemma_int_digits(n: nat)
    ensures
        all_digits(int_digits(n)),
        int_digits(n).len() >= 1,
        digits_val(int_digits(n)) == n,
        is_digit(int_digits(n)[0]),
{
    lemma_digits_of_val(n);
    if n == 0 {
        assert(int_digits(0) =~= seq![48u8]);
        assert(int_digits(0).drop_last() =~= Seq::<u8>::empty());
        assert(digits_val(int_digits(0)) == 0);
    }
}

/// In a decomposition, the dot position is forced, so the decomposition
/// is unique.
pub proof fn lemma_dec_split_unique(r: Seq<u8>, a1: Seq<u8>, b1: Seq<u8>, a2: Seq<u8>, b2: Seq<u8>)
    requires
        dec_split(r, a1, b1),
        dec_split(r, a2, b2),
    ensures
        a1 == a2,
        b1 == b2,
{
    assert(r[a1.len() as int] == 46);
    assert(r[a2.len() as int] == 46);
    if a1.len() < a2.len() {
        assert(r[a1.len() as int] == a2[a1.len() as int]);
        assert(is_digit(a2[a1.len() as int]));
        assert(false);
    }
    if a2.len() < a1.len() {
        assert(r[a2.len() as int] == a1[a2.len() as int]);
        assert(is_digit(a1[a2.len() as int]));
        assert(false);
    }
    assert(a1 =~= a2) by {
        assert(forall|i: int| 0 <= i < a1.len() ==> a1[i] == r[i] && a2[i] == r[i]);
    }
    assert(b1 =~= b2) by {
        assert(b1.len() == r.len() - a1.len() - 1);
        assert(b2.len() == r.len() - a2.len() - 1);
        assert(forall|i: int|
            0 <= i < b1.len() ==> b1[i] == r[a1.len() + 1 + i] && b2[i] == r[a2.len() + 1 + i]);
    }
}

/// In a decomposition every byte of `r` is a digit except the single
/// dot.
pub proof fn lemma_dec_split_chars(r: Seq<u8>, a: Seq<u8>, b: Seq<u8>)
    requires
        dec_split(r, a, b),
    ensures
        forall|i: int| 0 <= i < r.len() ==> ((#[trigger] r[i] == 46) <==> i == a.len()),
        forall|i: int| 0 <= i < r.len() && i != a.len() ==> is_digit(#[trigger] r[i]),
        r.len() == a.len() + 1 + b.len(),
{
    assert forall|i: int| 0 <= i < r.len() && i != a.len() implies is_digit(r[i]) by {
        if i < a.len() {
            assert(r[i] == a[i]);
        } else {
            assert(r[i] == b[i - a.len() - 1]);
        }
    }
    assert forall|i: int| 0 <= i < r.len() implies ((r[i] == 46) <==> i == a.len()) by {
        if i != a.len() {
            assert(is_digit(r[i]));
        } else {
            assert(r[i] == 46);
        }
    }
}

pub fn pow10_u64(n: u32) -> (r: u64)
    requires
        n <= 12,
    ensures
        r == pow10(n as nat),
{
    proof {
        reveal_with_fuel(pow10, 13);
    }
    let mut r: u64 = 1;
    let mut j: u32 = 0;
    while j < n
        invariant
            0 <= j <= n <= 12,
            r == pow10(j as nat),
        decreases n - j,
    {
        proof {
            lemma_pow10_mono(j as nat + 1, 12);
            reveal_with_fuel(pow10, 13);
        }
        r = r * 10;
        j = j + 1;
    }
    r
}

/// Appends the digits of `n` (no padding, nothing for zero) to `v`.
pub fn push_digits(v: &mut Vec<u8>, n: u64)
    ensures
        final(v)@ == old(v)@ + digits_of(n as nat),
    decreases n,
{
    if n == 0 {
        proof {
            assert(old(v)@ + digits_of(0) =~= old(v)@);
        }
    } else {
        push_digits(v, n / 10);
        v.push((48 + (n % 10)) as u8);
        proof {
            assert(final(v)@ =~= old(v)@ + digits_of(n as nat));
        }
    }
}

impl Decimal {
    pub open spec fn wf(self) -> bool {
        dec_wf(self)
    }

    /// The decimal zero.
    pub fn zero() -> (r: Decimal)
        ensures
            r == (Decimal { neg: false, mant: 0, scale: 1 }),
    {
        Decimal { neg: false, mant: 0, scale: 1 }
    }

    /// The value in millionths, as a machine integer.
    pub fn value_e6_i64(&self) -> (r: i64)
        requires
            dec_wf(*self),
        ensures
            r == value_e6(*self),
    {
        let p = pow10_u64(6 - self.scale);
        proof {
            lemma_pow10_mono((6 - self.scale) as nat, 6);
            reveal_with_fuel(pow10, 7);
            assert(self.mant * p <= self.mant * 1000000) by (nonlinear_arith)
                requires
                    p <= 1000000,
            ;
            assert(self.mant * 1000000 < 1000000000000000000int) by (nonlinear_arith)
                requires
                    self.mant < 1000000000000,
            ;
        }
        let x = self.mant * p;
        if self.neg {
            proof {
                assert(value_e6(*self) == -1 * self.mant * p);
                assert(-1 * self.mant * p == -(self.mant * p)) by (nonlinear_arith);
            }
            -(x as i64)
        } else {
            proof {
                assert(value_e6(*self) == 1 * self.mant * p);
            }
            x as i64
        }
    }

    /// Value order on decimals.
    pub fn le(&self, other: &Decimal) -> (r: bool)
        requires
            dec_wf(*self),
            dec_wf(*other),
        ensures
            r == (value_e6(*self) <= value_e6(*other)),
    {
        self.value_e6_i64() <= other.value_e6_i64()
    }

    /// Renders the decimal canonically: sign, unpadded integer part,
    /// then `scale` fractional digits when the scale is positive.
    pub fn format(&self) -> (r: Vec<u8>)
        requires
            dec_wf(*self),
        ensures
            r@ == spec_fmt_dec(*self),
    {
        let mut v: Vec<u8> = Vec::new();
        if self.neg {
            v.push(45);
        }
        let p = pow10_u64(self.scale);
        proof {
            lemma_pow10_pos(self.scale as nat);
        }
        let ip = self.mant / p;
        let fp = self.mant % p;
        if ip == 0 {
            v.push(48);
            proof {
                assert(v@ =~= (if self.neg {
                    seq![45u8]
                } else {
                    seq![]
                }) + int_digits((self.mant as nat) / pow10(self.scale as nat)));
            }
        } else {
            push_digits(&mut v, ip);
            proof {
                assert(v@ =~= (if self.neg {
                    seq![45u8]
                } else {
                    seq![]
                }) + int_digits((self.mant as nat) / pow10(self.scale as nat)));
            }
        }
        if self.scale > 0 {
            v.push(46);
            proof {
                lemma_pow10_mono(self.scale as nat, 6);
                reveal_with_fuel(pow10, 7);
            }
            push_fixed_u64(&mut v, fp, self.scale as usize);
        }
        proof {
            assert(v@ =~= spec_fmt_dec(*self));
        }
        v
    }
}

/// Appends the zero-padded `w`-digit rendering of `n` to `v`.
pub fn push_fixed_u64(v: &mut Vec<u8>, n: u64, w: usize)
    ensures
        final(v)@ == old(v)@ + fixed_digits(n as nat, w as nat),
    decreases w,
{
    if w == 0 {
        proof {
            assert(old(v)@ + fixed_digits(n as nat, 0) =~= old(v)@);
        }
    } else {
        push_fixed_u64(v, n / 10, w - 1);
        v.push((48 + (n % 10)) as u8);
        proof {
            assert(final(v)@ =~= old(v)@ + fixed_digits(n as nat, w as nat));
        }
    }
}

/// A successfully parsed decimal is well-formed.
pub proof fn lemma_parse_dec_wf(s: Seq<u8>)
    requires
        spec_parse_dec(s) is Some,
    ensures
        dec_wf(spec_parse_dec(s)->Some_0),
{
}

/// No byte sequence with a byte that is neither digit nor dot parses.
proof fn lemma_split_free(r: Seq<u8>, k: int)
    requires
        0 <= k < r.len(),
        !is_digit(r[k]),
        r[k] != 46,
    ensures
        !has_dec_split(r),
        !all_digits(r),
{
    assert forall|ab: (Seq<u8>, Seq<u8>)| !dec_split(r, ab.0, ab.1) by {
        if dec_split(r, ab.0, ab.1) {
            lemma_dec_split_chars(r, ab.0, ab.1);
        }
    }
}

/// A dot fixes where any decomposition must put its integer part.
proof fn lemma_split_dot_at(r: Seq<u8>, dot: int)
    requires
        0 <= dot < r.len(),
        r[dot] == 46,
    ensures
        forall|ab: (Seq<u8>, Seq<u8>)|
            dec_split(r, ab.0, ab.1) ==> ab.0.len() == dot && ab.1.len() == r.len() - dot - 1,
        !all_digits(r),
{
    assert(!is_digit(46u8));
    assert forall|ab: (Seq<u8>, Seq<u8>)|
        dec_split(r, ab.0, ab.1) implies ab.0.len() == dot && ab.1.len() == r.len() - dot
        - 1 by {
        lemma_dec_split_chars(r, ab.0, ab.1);
    }
}

impl Decimal {
    /// Parses a whole byte string as a plain decimal literal:
    /// `-?digits(.digits)?`, with at most six fractional digits and a
    /// mantissa below the limit. Anything else yields `None`.
    pub fn parse(v: &Vec<u8>) -> (r: Option<Decimal>)
        ensures
            r == spec_parse_dec(v@),
    {
        let n = v.len();
        let ghost s = v@;
        let neg = n > 0 && v[0] == 45;
        let start: usize = if neg {
            1
        } else {
            0
        };
        let ghost rs = if neg {
            s.subrange(1, s.len() as int)
        } else {
            s
        };
        proof {
            assert(rs =~= s.subrange(start as int, n as int));
        }
        let mut i: usize = start;
        let mut acc: u64 = 0;
        let mut int_count: usize = 0;
        let mut frac_count: usize = 0;
        let mut seen_dot = false;
        proof {
            assert(s.subrange(start as int, start as int) =~= Seq::<u8>::empty());
        }
        while i < n
            invariant
                n == s.len() == v@.len(),
                s == v@,
                start == if neg {
                    1int
                } else {
                    0int
                },
                neg == (s.len() > 0 && s[0] == 45),
                rs == s.subrange(start as int, n as int),
                start <= i <= n,
                !seen_dot ==> int_count == i - start && frac_count == 0,
                seen_dot ==> int_count >= 1 && start + int_count < i && s[start + int_count] == 46
                    && frac_count == i - (start + int_count + 1),
                all_digits(s.subrange(start as int, start + int_count)),
                seen_dot ==> all_digits(s.subrange(start + int_count + 1, i as int)),
                frac_count <= 6,
                acc <= MANT_LIMIT,
                ({
                    let ds = if seen_dot {
                        s.subrange(start as int, start + int_count) + s.subrange(
                            start + int_count + 1,
                            i as int,
                        )
                    } else {
                        s.subrange(start as int, i as int)
                    };
                    (digits_val(ds) < MANT_LIMIT && acc == digits_val(ds)) || (digits_val(ds)
                        >= MANT_LIMIT && acc == MANT_LIMIT)
                }),
            decreases n - i,
        {
            let ghost ds_old = if seen_dot {
                s.subrange(start as int, start + int_count) + s.subrange(
                    start + int_count + 1,
                    i as int,
                )
            } else {
                s.subrange(start as int, i as int)
            };
            let b = v[i];
            if 48 <= b && b <= 57 {
                if seen_dot {
                    if frac_count == 6 {
                        proof {
                            let dot = int_count as int;
                            assert(rs[dot] == s[start + int_count]);
                            lemma_split_dot_at(rs, dot);
                            assert(rs.len() == n - start);
                            assert(rs.len() - dot - 1 >= 7);
                            if has_dec_split(rs) {
                                let ab = choose|ab: (Seq<u8>, Seq<u8>)|
                                    dec_split(rs, ab.0, ab.1);
                                assert(ab.1.len() > 6);
                            }
                        }
                        return None;
                    }
                    proof {
                        let a = s.subrange(start as int, start + int_count);
                        let bb = s.subrange(start + int_count + 1, i as int);
                        let bb2 = s.subrange(start + int_count + 1, i + 1);
                        assert(bb2 =~= bb.push(b));
                        assert((a + bb2).drop_last() =~= a + bb);
                        assert((a + bb2).last() == b);
                    }
                    frac_count = frac_count + 1;
                } else {
                    proof {
                        let dsn = s.subrange(start as int, i + 1);
                        assert(dsn.drop_last() =~= ds_old);
                        assert(dsn.last() == b);
                    }
                    int_count = int_count + 1;
                }
                let x = acc * 10 + ((b - 48) as u64);
                proof {
                    let dv = digits_val(ds_old);
                    if dv >= MANT_LIMIT {
                        assert(dv * 10 >= MANT_LIMIT * 10 >= MANT_LIMIT);
                    }
                }
                acc = if x >= MANT_LIMIT {
                    MANT_LIMIT
                } else {
                    x
                };
                i = i + 1;
            } else if b == 46 {
                if seen_dot {
                    proof {
                        let d1 = int_count as int;
                        let d2 = i - start;
                        assert(rs[d1] == 46 && rs[d2] == 46 && d1 < d2);
                        lemma_split_dot_at(rs, d1);
                        if has_dec_split(rs) {
                            let ab = choose|ab: (Seq<u8>, Seq<u8>)| dec_split(rs, ab.0, ab.1);
                            lemma_dec_split_chars(rs, ab.0, ab.1);
                        }
                    }
                    return None;
                }
                if int_count == 0 {
                    proof {
                        assert(rs[0] == s[start as int]);
                        assert(rs[0] == 46);
                        assert forall|ab: (Seq<u8>, Seq<u8>)| !dec_split(rs, ab.0, ab.1) by {
                            if dec_split(rs, ab.0, ab.1) {
                                lemma_dec_split_chars(rs, ab.0, ab.1);
                                assert(is_digit(rs[0]));
                            }
                        }
                        assert(!is_digit(46u8));
                    }
                    return None;
                }
                seen_dot = true;
                i = i + 1;
                proof {
                    assert(s.subrange(start + int_count + 1, i as int) =~= Seq::<u8>::empty());
                    assert(s.subrange(start as int, start + int_count) + Seq::<u8>::empty()
                        =~= ds_old);
                }
            } else {
                proof {
                    let k = i - start;
                    assert(rs[k] == s[i as int]);
                    lemma_split_free(rs, k);
                }
                return None;
            }
        }
        if int_count == 0 {
            proof {
                assert(rs.len() == 0);
                assert forall|ab: (Seq<u8>, Seq<u8>)| !dec_split(rs, ab.0, ab.1) by {
                    if dec_split(rs, ab.0, ab.1) {
                        assert(rs.len() == ab.0.len() + 1 + ab.1.len());
                    }
                }
            }
            return None;
        }
        if seen_dot && frac_count == 0 {
            proof {
                let dot = int_count as int;
                assert(rs[dot] == 46);
                lemma_split_dot_at(rs, dot);
                assert(rs.len() == dot + 1);
                if has_dec_split(rs) {
                    let ab = choose|ab: (Seq<u8>, Seq<u8>)| dec_split(rs, ab.0, ab.1);
                    assert(ab.1.len() == 0);
                }
            }
            return None;
        }
        proof {
            if !seen_dot {
                assert(rs =~= s.subrange(start as int, n as int));
                assert(rs =~= s.subrange(start as int, start + int_count));
                assert(rs.len() >= 1 && all_digits(rs));
            } else {
                let a = rs.subrange(0, int_count as int);
                let bb = rs.subrange(int_count + 1, rs.len() as int);
                assert(a =~= s.subrange(start as int, start + int_count));
                assert(bb =~= s.subrange(start + int_count + 1, n as int));
                assert(rs =~= a + seq![46u8] + bb);
                assert(dec_split(rs, a, bb));
                assert(has_dec_split(rs)) by {
                    let ab = (a, bb);
                    assert(dec_split(rs, ab.0, ab.1));
                }
                assert(!all_digits(rs)) by {
                    assert(rs[int_count as int] == 46);
                    assert(!is_digit(46u8));
                }
                let ab = choose|ab: (Seq<u8>, Seq<u8>)| dec_split(rs, ab.0, ab.1);
                lemma_dec_split_unique(rs, ab.0, ab.1, a, bb);
            }
        }
        if acc >= MANT_LIMIT {
            return None;
        }
        Some(
            Decimal {
                neg,
                mant: acc,
                scale: frac_count as u32,
            },
        )
    }
}

/// The canonical rendering of a well-formed decimal parses back to the
/// same decimal.
pub proof fn lemma_dec_round_trip(d: Decimal)
    requires
        dec_wf(d),
    ensures
        spec_parse_dec(spec_fmt_dec(d)) == Some(d),
{
    let s = spec_fmt_dec(d);
    let p = pow10(d.scale as nat);
    let ip = (d.mant as nat) / p;
    let fp = (d.mant as nat) % p;
    lemma_pow10_pos(d.scale as nat);
    lemma_int_digits(ip);
    let sign: Seq<u8> = if d.neg {
        seq![45u8]
    } else {
        seq![]
    };
    let a = int_digits(ip);
    if d.scale == 0 {
        assert(s =~= sign + a);
        assert(fp == 0 && ip == d.mant) by {
            assert(p == 1);
            assert((d.mant as nat) % 1 == 0);
            assert((d.mant as nat) / 1 == d.mant as nat);
        }
        let r = if d.neg {
            s.subrange(1, s.len() as int)
        } else {
            s
        };
        assert(r =~= a);
        assert(s.len() > 0 && (s[0] == 45) == d.neg) by {
            if d.neg {
                assert(s[0] == 45);
            } else {
                assert(s[0] == a[0]);
            }
        }
        assert(digits_val(r) == d.mant);
    } else {
        let b = fixed_digits(fp, d.scale as nat);
        lemma_fixed_digits_val(fp, d.scale as nat);
        assert(fp < p);
        assert(s =~= sign + a + seq![46u8] + b);
        let r = if d.neg {
            s.subrange(1, s.len() as int)
        } else {
            s
        };
        assert(r =~= a + seq![46u8] + b);
        assert(s.len() > 0 && (s[0] == 45) == d.neg) by {
            if d.neg {
                assert(s[0] == 45);
            } else {
                assert(s[0] == a[0]);
                assert(is_digit(a[0]));
            }
        }
        assert(dec_split(r, a, b));
        lemma_dec_split_chars(r, a, b);
        assert(!all_digits(r)) by {
            assert(r[a.len() as int] == 46);
            assert(!is_digit(46u8));
        }
        assert(has_dec_split(r)) by {
            let ab = (a, b);
            assert(dec_split(r, ab.0, ab.1));
        }
        let ab = choose|ab: (Seq<u8>, Seq<u8>)| dec_split(r, ab.0, ab.1);
        lemma_dec_split_unique(r, ab.0, ab.1, a, b);
        lemma_digits_val_append(a, b);
        assert(digits_val(a + b) == ip * pow10(d.scale as nat) + fp);
        vstd::arithmetic::div_mod::lemma_fundamental_div_mod(d.mant as int, p as int);
        assert(digits_val(a + b) == d.mant);
        assert(ab.1.len() == d.scale);
    }
}

/// Every byte the renderer emits is a sign, dot or digit, and the
/// rendering is never empty.
pub proof fn lemma_fmt_dec_chars(d: Decimal)
    requires
        dec_wf(d),
    ensures
        spec_fmt_dec(d).len() >= 1,
        forall|i: int|
            0 <= i < spec_fmt_dec(d).len() ==> num_char(#[trigger] spec_fmt_dec(d)[i]),
{
    let s = spec_fmt_dec(d);
    let p = pow10(d.scale as nat);
    let ip = (d.mant as nat) / p;
    let fp = (d.mant as nat) % p;
    lemma_int_digits(ip);
    lemma_fixed_digits_val(fp, d.scale as nat);
    let sign: Seq<u8> = if d.neg {
        seq![45u8]
    } else {
        seq![]
    };
    let a = int_digits(ip);
    let b = fixed_digits(fp, d.scale as nat);
    assert forall|i: int| 0 <= i < s.len() implies num_char(s[i]) by {
        if d.scale == 0 {
            assert(s =~= sign + a);
            if i < sign.len() {
                assert(s[i] == 45);
            } else {
                assert(s[i] == a[i - sign.len()]);
            }
        } else {
            assert(s =~= sign + a + seq![46u8] + b);
            if i < sign.len() {
                assert(s[i] == 45);
            } else if i < sign.len() + a.len() {
                assert(s[i] == a[i - sign.len()]);
            } else if i == sign.len() + a.len() {
                assert(s[i] == 46);
            } else {
                assert(s[i] == b[i - sign.len() - a.len() - 1]);
            }
        }
    }
}

} // verus!
