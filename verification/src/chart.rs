//! Layout of the rendered chart: axis bounds over the series, the
//! predicted-price overlay level, and the text labels. The price axis
//! spans exactly the closes' range; a degenerate range (a single price
//! level) is padded by one whole unit on each side so the axis always
//! has positive height.

use vstd::prelude::*;
use crate::dates::Date;
use crate::decimal::{dec_wf, int_digits, pow10_u64, value_e6, Decimal};
use crate::num::{fixed_digits, lemma_pow10_mono, pow10};
use crate::series::{point_wf, series_wf, PricePoint};

verus! {

/// One whole currency unit, in millionths.
pub const UNIT_E6: i64 = 1000000;

pub struct ChartSpec {
    /// Date-axis bounds: the first and last date of the presorted
    /// series.
    pub x_first: Date,
    pub x_last: Date,
    /// Price-axis bounds in millionths, strictly ordered.
    pub y_lo_e6: i64,
    pub y_hi_e6: i64,
    /// The level of the flat predicted-price overlay, in millionths.
    pub pred_e6: i64,
    /// `Stock Prices: <SYMBOL>` with the symbol upper-cased.
    pub caption: Vec<u8>,
    /// Legend label of the close-price line.
    pub close_label: Vec<u8>,
    /// Legend label of the overlay: `Predicted Price: <value>`.
    pub pred_label: Vec<u8>,
    /// Annotation at the overlay's right end: `Predicted: <value>`.
    pub note_label: Vec<u8>,
}

/// Least close value of a non-empty series, in millionths.
pub open spec fn min_close_e6(s: Seq<PricePoint>) -> int
    decreases s.len(),
{
    if s.len() <= 1 {
        value_e6(s[0].close)
    } else if value_e6(s.last().close) < min_close_e6(s.drop_last()) {
        value_e6(s.last().close)
    } else {
        min_close_e6(s.drop_last())
    }
}

/// Greatest close value of a non-empty series, in millionths.
pub open spec fn max_close_e6(s: Seq<PricePoint>) -> int
    decreases s.len(),
{
    if s.len() <= 1 {
        value_e6(s[0].close)
    } else if value_e6(s.last().close) > max_close_e6(s.drop_last()) {
        value_e6(s.last().close)
    } else {
        max_close_e6(s.drop_last())
    }
}

/// The extremes bound every close and are attained by some close.
pub proof fn lemma_min_max_close(s: Seq<PricePoint>)
    requires
        s.len() >= 1,
    ensures
        min_close_e6(s) <= max_close_e6(s),
        forall|i: int|
            0 <= i < s.len() ==> min_close_e6(s) <= value_e6(#[trigger] s[i].close)
                <= max_close_e6(s),
        exists|i: int| 0 <= i < s.len() && min_close_e6(s) == value_e6(#[trigger] s[i].close),
        exists|i: int| 0 <= i < s.len() && max_close_e6(s) == value_e6(#[trigger] s[i].close),
    decreases s.len(),
{
    if s.len() == 1 {
        assert(min_close_e6(s) == value_e6(s[0].close));
    } else {
        lemma_min_max_close(s.drop_last());
        assert forall|i: int| 0 <= i < s.len() implies min_close_e6(s) <= value_e6(
            #[trigger] s[i].close,
        ) <= max_close_e6(s) by {
            if i < s.len() - 1 {
                assert(s.drop_last()[i] == s[i]);
            }
        }
        let j = choose|j: int|
            0 <= j < s.drop_last().len() && min_close_e6(s.drop_last()) == value_e6(
                #[trigger] s.drop_last()[j].close,
            );
        let j2 = choose|j: int|
            0 <= j < s.drop_last().len() && max_close_e6(s.drop_last()) == value_e6(
                #[trigger] s.drop_last()[j].close,
            );
        assert(s.drop_last()[j] == s[j]);
        assert(s.drop_last()[j2] == s[j2]);
    }
}

/// The value in millionths of a well-formed decimal is below one
/// quintillion in magnitude.
pub proof fn lemma_value_e6_bound(d: Decimal)
    requires
        dec_wf(d),
    ensures
        -1000000000000000000 < value_e6(d) < 1000000000000000000,
{
    lemma_pow10_mono((6 - d.scale) as nat, 6);
    assert(pow10(6) == 1000000) by {
        reveal_with_fuel(pow10, 7);
    }
    assert(d.mant * pow10((6 - d.scale) as nat) <= d.mant * 1000000) by (nonlinear_arith)
        requires
            pow10((6 - d.scale) as nat) <= 1000000,
    ;
    assert(d.mant * 1000000 < 1000000000000000000int) by (nonlinear_arith)
        requires
            d.mant < 1000000000000,
    ;
    assert(d.mant * pow10((6 - d.scale) as nat) >= 0) by (nonlinear_arith);
    assert(-1 * d.mant * pow10((6 - d.scale) as nat) == -(d.mant * pow10((6 - d.scale) as nat)))
        by (nonlinear_arith);
    assert(1 * d.mant * pow10((6 - d.scale) as nat) == d.mant * pow10((6 - d.scale) as nat))
        by (nonlinear_arith);
}

/// The value rendered to two decimal places, rounding half away from
/// zero: sign, unpadded units, a dot, and two digits.
pub open spec fn spec_label_2dp(d: Decimal) -> Seq<u8> {
    let v = (d.mant as nat) * pow10((6 - d.scale) as nat);
    let cents = (v + 5000) / 10000;
    (if d.neg {
        seq![45u8]
    } else {
        seq![]
    }) + int_digits(cents / 100) + seq![46u8] + fixed_digits(cents % 100, 2)
}

/// Renders a price to exactly two decimal places.
pub fn label_2dp(d: &Decimal) -> (r: Vec<u8>)
    requires
        dec_wf(*d),
    ensures
        r@ == spec_label_2dp(*d),
{
    let p = pow10_u64(6 - d.scale);
    proof {
        lemma_pow10_mono((6 - d.scale) as nat, 6);
        reveal_with_fuel(pow10, 7);
        assert(d.mant * p <= d.mant * 1000000) by (nonlinear_arith)
            requires
                p <= 1000000,
        ;
        assert(d.mant * 1000000 < 1000000000000000000int) by (nonlinear_arith)
            requires
                d.mant < 1000000000000,
        ;
    }
    let v = d.mant * p;
    let cents = (v + 5000) / 10000;
    let mut out: Vec<u8> = Vec::new();
    if d.neg {
        out.push(45);
    }
    let units = cents / 100;
    if units == 0 {
        out.push(48);
    } else {
        crate::decimal::push_digits(&mut out, units);
    }
    out.push(46);
    crate::decimal::push_fixed_u64(&mut out, cents % 100, 2);
    proof {
        assert(out@ =~= spec_label_2dp(*d));
    }
    out
}

/// The fixed text fragments of the chart.
pub open spec fn caption_prefix_bytes() -> Seq<u8> {
    seq![83u8, 116u8, 111u8, 99u8, 107u8, 32u8, 80u8, 114u8, 105u8, 99u8, 101u8, 115u8, 58u8, 32u8]
}

pub open spec fn close_label_bytes() -> Seq<u8> {
    seq![67u8, 108u8, 111u8, 115u8, 101u8, 32u8, 80u8, 114u8, 105u8, 99u8, 101u8]
}

pub open spec fn pred_label_prefix_bytes() -> Seq<u8> {
    seq![
        80u8, 114u8, 101u8, 100u8, 105u8, 99u8, 116u8, 101u8, 100u8, 32u8, 80u8, 114u8, 105u8,
        99u8, 101u8, 58u8, 32u8,
    ]
}

pub open spec fn note_prefix_bytes() -> Seq<u8> {
    seq![80u8, 114u8, 101u8, 100u8, 105u8, 99u8, 116u8, 101u8, 100u8, 58u8, 32u8]
}

/// Upper-cases an ASCII letter, leaving every other byte alone.
pub open spec fn upper_byte(b: u8) -> u8 {
    if 97 <= b <= 122 {
        (b - 32) as u8
    } else {
        b
    }
}

/// The symbol upper-cased byte by byte.
pub fn ascii_upper(v: &Vec<u8>) -> (r: Vec<u8>)
    ensures
        r@ == v@.map_values(|b: u8| upper_byte(b)),
{
    let n = v.len();
    let mut r: Vec<u8> = Vec::new();
    let mut i: usize = 0;
    proof {
        assert(r@ =~= v@.subrange(0, 0).map_values(|b: u8| upper_byte(b)));
    }
    while i < n
        invariant
            0 <= i <= n == v@.len(),
            r@ == v@.subrange(0, i as int).map_values(|b: u8| upper_byte(b)),
        decreases n - i,
    {
        let b = v[i];
        if 97 <= b && b <= 122 {
            r.push(b - 32);
        } else {
            r.push(b);
        }
        proof {
            assert(v@.subrange(0, i + 1).map_values(|b: u8| upper_byte(b)) =~= v@.subrange(
                0,
                i as int,
            ).map_values(|b: u8| upper_byte(b)).push(upper_byte(v@[i as int])));
        }
        i = i + 1;
    }
    proof {
        assert(v@.subrange(0, n as int) =~= v@);
    }
    r
}

fn push_caption_prefix(v: &mut Vec<u8>)
    ensures
        final(v)@ == old(v)@ + caption_prefix_bytes(),
{
    v.push(83);
    v.push(116);
    v.push(111);
    v.push(99);
    v.push(107);
    v.push(32);
    v.push(80);
    v.push(114);
    v.push(105);
    v.push(99);
    v.push(101);
    v.push(115);
    v.push(58);
    v.push(32);
    proof {
        assert(final(v)@ =~= old(v)@ + caption_prefix_bytes());
    }
}

fn close_label() -> (r: Vec<u8>)
    ensures
        r@ == close_label_bytes(),
{
    let mut v: Vec<u8> = Vec::new();
    v.push(67);
    v.push(108);
    v.push(111);
    v.push(115);
    v.push(101);
    v.push(32);
    v.push(80);
    v.push(114);
    v.push(105);
    v.push(99);
    v.push(101);
    proof {
        assert(v@ =~= close_label_bytes());
    }
    v
}

fn push_pred_label_prefix(v: &mut Vec<u8>)
    ensures
        final(v)@ == old(v)@ + pred_label_prefix_bytes(),
{
    v.push(80);
    v.push(114);
    v.push(101);
    v.push(100);
    v.push(105);
    v.push(99);
    v.push(116);
    v.push(101);
    v.push(100);
    v.push(32);
    v.push(80);
    v.push(114);
    v.push(105);
    v.push(99);
    v.push(101);
    v.push(58);
    v.push(32);
    proof {
        assert(final(v)@ =~= old(v)@ + pred_label_prefix_bytes());
    }
}

fn push_note_prefix(v: &mut Vec<u8>)
    ensures
        final(v)@ == old(v)@ + note_prefix_bytes(),
{
    v.push(80);
    v.push(114);
    v.push(101);
    v.push(100);
    v.push(105);
    v.push(99);
    v.push(116);
    v.push(101);
    v.push(100);
    v.push(58);
    v.push(32);
    proof {
        assert(final(v)@ =~= old(v)@ + note_prefix_bytes());
    }
}

/// Appends all of `src` to `v`.
fn push_all(v: &mut Vec<u8>, src: &Vec<u8>)
    ensures
        final(v)@ == old(v)@ + src@,
{
    let n = src.len();
    let mut t: usize = 0;
    proof {
        assert(v@ =~= old(v)@ + src@.subrange(0, 0));
    }
    while t < n
        invariant
            t <= n == src@.len(),
            v@ == old(v)@ + src@.subrange(0, t as int),
        decreases n - t,
    {
        v.push(src[t]);
        proof {
            assert(old(v)@ + src@.subrange(0, t + 1) =~= (old(v)@ + src@.subrange(0, t as int)).push(
                src@[t as int],
            ));
        }
        t = t + 1;
    }
    proof {
        assert(src@.subrange(0, n as int) =~= src@);
    }
}

/// Everything the chart layout promises of a non-empty series: the
/// date axis spans first to last date, the price axis spans the closes'
/// range — padded by one unit on each side when the range is a single
/// level, so it always has positive height — the overlay level is the
/// predicted price, and the caption and labels are the fixed texts
/// around the upper-cased symbol and the two-decimal price.
pub open spec fn chart_matches(
    c: ChartSpec,
    series: Seq<PricePoint>,
    pred: Decimal,
    symbol: Seq<u8>,
) -> bool {
    &&& series.len() > 0
    &&& c.x_first == series[0].date
    &&& c.x_last == series[series.len() - 1].date
    &&& (if min_close_e6(series) == max_close_e6(series) {
        c.y_lo_e6 == min_close_e6(series) - UNIT_E6 && c.y_hi_e6 == max_close_e6(series) + UNIT_E6
    } else {
        c.y_lo_e6 == min_close_e6(series) && c.y_hi_e6 == max_close_e6(series)
    })
    &&& c.y_lo_e6 < c.y_hi_e6
    &&& forall|i: int|
        0 <= i < series.len() ==> c.y_lo_e6 <= value_e6(#[trigger] series[i].close) <= c.y_hi_e6
    &&& c.pred_e6 == value_e6(pred)
    &&& c.caption@ == caption_prefix_bytes() + symbol.map_values(|b: u8| upper_byte(b))
    &&& c.close_label@ == close_label_bytes()
    &&& c.pred_label@ == pred_label_prefix_bytes() + spec_label_2dp(pred)
    &&& c.note_label@ == note_prefix_bytes() + spec_label_2dp(pred)
}

/// Computes the chart layout for a non-empty series. An empty series
/// has no chart.
#[verifier::rlimit(100)]
pub fn chart_spec(series: &Vec<PricePoint>, pred: &Decimal, symbol: &Vec<u8>) -> (r: Option<
    ChartSpec,
>)
    requires
        series_wf(series@),
        dec_wf(*pred),
    ensures
        (r is Some) <==> series@.len() > 0,
        r matches Some(c) ==> chart_matches(c, series@, *pred, symbol@),
{
    let n = series.len();
    if n == 0 {
        return None;
    }
    proof {
        assert(point_wf(series@[0]));
        assert(series@.subrange(0, 1).len() == 1);
    }
    let first = series[0];
    let mut lo = first.close.value_e6_i64();
    let mut hi = lo;
    let mut i: usize = 1;
    proof {
        assert(series@.subrange(0, 1)[0] == series@[0]);
        assert(min_close_e6(series@.subrange(0, 1)) == value_e6(series@[0].close));
        assert(max_close_e6(series@.subrange(0, 1)) == value_e6(series@[0].close));
    }
    while i < n
        invariant
            1 <= i <= n == series@.len(),
            series_wf(series@),
            lo == min_close_e6(series@.subrange(0, i as int)),
            hi == max_close_e6(series@.subrange(0, i as int)),
        decreases n - i,
    {
        proof {
            assert(point_wf(series@[i as int]));
        }
        let v = series[i].close.value_e6_i64();
        proof {
            let pre = series@.subrange(0, i as int);
            let cur = series@.subrange(0, i + 1);
            assert(cur.drop_last() =~= pre);
            assert(cur.last() == series@[i as int]);
            assert(cur.len() > 1);
        }
        if v < lo {
            lo = v;
        }
        if v > hi {
            hi = v;
        }
        i = i + 1;
    }
    proof {
        assert(series@.subrange(0, n as int) =~= series@);
        lemma_min_max_close(series@);
        let j = choose|j: int|
            0 <= j < series@.len() && min_close_e6(series@) == value_e6(
                #[trigger] series@[j].close,
            );
        assert(point_wf(series@[j]));
        lemma_value_e6_bound(series@[j].close);
        let j2 = choose|j: int|
            0 <= j < series@.len() && max_close_e6(series@) == value_e6(
                #[trigger] series@[j].close,
            );
        assert(point_wf(series@[j2]));
        lemma_value_e6_bound(series@[j2].close);
    }
    let (y_lo, y_hi) = if lo == hi {
        (lo - UNIT_E6, hi + UNIT_E6)
    } else {
        (lo, hi)
    };
    let mut caption: Vec<u8> = Vec::new();
    push_caption_prefix(&mut caption);
    let mut up = ascii_upper(symbol);
    caption.append(&mut up);
    let lbl = label_2dp(pred);
    let mut pred_label: Vec<u8> = Vec::new();
    push_pred_label_prefix(&mut pred_label);
    push_all(&mut pred_label, &lbl);
    let mut note_label: Vec<u8> = Vec::new();
    push_note_prefix(&mut note_label);
    push_all(&mut note_label, &lbl);
    let last = series[n - 1];
    Some(
        ChartSpec {
            x_first: first.date,
            x_last: last.date,
            y_lo_e6: y_lo,
            y_hi_e6: y_hi,
            pred_e6: pred.value_e6_i64(),
            caption,
            close_label: close_label(),
            pred_label,
            note_label,
        },
    )
}

} // verus!
