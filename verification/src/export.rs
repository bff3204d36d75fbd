//! The intermediate file handed to the external predictor: a
//! pretty-printed array of `["YYYY-MM-DD", price]` pairs, one pair per
//! line. The emitter writes a canonical form; the parser reads exactly
//! that form back, so an exported series survives a round trip
//! unchanged.

use vstd::prelude::*;
use crate::dates::{lemma_date_round_trip, spec_fmt_date, spec_parse_date, Date};
use crate::decimal::{
    lemma_dec_round_trip, lemma_fmt_dec_chars, num_char, spec_fmt_dec, spec_parse_dec, Decimal,
};
use crate::num::lemma_fixed_digits_val;
use crate::series::{point_wf, PricePoint};

verus! {

/// One emitted line: two spaces, `["`, the date, `", `, the price, `]`.
pub open spec fn spec_emit_pair(p: PricePoint) -> Seq<u8> {
    seq![32u8, 32u8, 91u8, 34u8] + spec_fmt_date(p.date) + seq![34u8, 44u8, 32u8] + spec_fmt_dec(
        p.close,
    ) + seq![93u8]
}

/// The emitted pairs, joined by `,\n`.
pub open spec fn spec_emit_pairs(s: Seq<PricePoint>) -> Seq<u8>
    decreases s.len(),
{
    if s.len() == 0 {
        seq![]
    } else if s.len() == 1 {
        spec_emit_pair(s[0])
    } else {
        spec_emit_pair(s[0]) + seq![44u8, 10u8] + spec_emit_pairs(s.skip(1))
    }
}

/// The whole export file: `[]` for an empty series, otherwise the
/// bracketed, newline-framed pair lines.
pub open spec fn spec_emit_export(s: Seq<PricePoint>) -> Seq<u8> {
    if s.len() == 0 {
        seq![91u8, 93u8]
    } else {
        seq![91u8, 10u8] + spec_emit_pairs(s) + seq![10u8, 93u8]
    }
}

/// Length of the run of decimal-literal bytes starting at `i`.
pub open spec fn num_run(b: Seq<u8>, i: int) -> int
    decreases b.len() - i,
{
    if i < 0 || i >= b.len() || !num_char(b[i]) {
        0
    } else {
        1 + num_run(b, i + 1)
    }
}

/// Parses one pair line and then either a `,\n` and further pairs, or
/// the closing `\n]` that must end the input.
pub open spec fn spec_parse_pairs(b: Seq<u8>) -> Option<Seq<PricePoint>>
    decreases b.len(),
{
    if b.len() >= 17 && b[0] == 32 && b[1] == 32 && b[2] == 91 && b[3] == 34 && b[14] == 34 && b[15]
        == 44 && b[16] == 32 {
        match spec_parse_date(b.subrange(4, 14)) {
            Some(date) => {
                let m = num_run(b, 17);
                if m >= 1 && 17 + m < b.len() && b[17 + m] == 93 {
                    match spec_parse_dec(b.subrange(17, 17 + m)) {
                        Some(close) => {
                            let p = PricePoint { date, close };
                            let rest = 18 + m;
                            if rest + 2 <= b.len() && b[rest] == 44 && b[rest + 1] == 10 {
                                match spec_parse_pairs(b.subrange(rest + 2, b.len() as int)) {
                                    Some(t) => Some(seq![p] + t),
                                    None => None,
                                }
                            } else if rest + 2 == b.len() && b[rest] == 10 && b[rest + 1] == 93 {
                                Some(seq![p])
                            } else {
                                None
                            }
                        },
                        None => None,
                    }
                } else {
                    None
                }
            },
            None => None,
        }
    } else {
        None
    }
}

/// What the strict export parser accepts: exactly the emitter's shape.
pub open spec fn spec_parse_export(b: Seq<u8>) -> Option<Seq<PricePoint>> {
    if b.len() == 2 && b[0] == 91 && b[1] == 93 {
        Some(Seq::<PricePoint>::empty())
    } else if b.len() >= 2 && b[0] == 91 && b[1] == 10 {
        spec_parse_pairs(b.subrange(2, b.len() as int))
    } else {
        None
    }
}

/// Serializes the series canonically.
pub fn emit_export(series: &Vec<PricePoint>) -> (r: Vec<u8>)
    requires
        forall|i: int| 0 <= i < series@.len() ==> point_wf(#[trigger] series@[i]),
    ensures
        r@ == spec_emit_export(series@),
{
    let n = series.len();
    let mut v: Vec<u8> = Vec::new();
    v.push(91);
    if n == 0 {
        v.push(93);
        proof {
            assert(v@ =~= spec_emit_export(series@));
        }
        return v;
    }
    v.push(10);
    let mut i: usize = 0;
    proof {
        assert(v@ =~= seq![91u8, 10u8]);
        assert(series@.skip(0) =~= series@);
    }
    while i < n
        invariant
            n == series@.len(),
            0 <= i < n || (i == n),
            i <= n,
            forall|t: int| 0 <= t < series@.len() ==> point_wf(#[trigger] series@[t]),
            i < n ==> v@ + spec_emit_pairs(series@.skip(i as int)) == seq![91u8, 10u8]
                + spec_emit_pairs(series@),
            i == n ==> v@ == seq![91u8, 10u8] + spec_emit_pairs(series@),
        decreases n - i,
    {
        let ghost v_pre = v@;
        let p = series[i];
        v.push(32);
        v.push(32);
        v.push(91);
        v.push(34);
        let mut db = p.date.format();
        v.append(&mut db);
        v.push(34);
        v.push(44);
        v.push(32);
        let mut cb = p.close.format();
        v.append(&mut cb);
        v.push(93);
        proof {
            assert(v@ =~= v_pre + spec_emit_pair(series@[i as int]));
        }
        if i + 1 < n {
            v.push(44);
            v.push(10);
            proof {
                let tail = series@.skip(i as int);
                assert(tail.len() >= 2);
                assert(tail[0] == series@[i as int]);
                assert(tail.skip(1) =~= series@.skip(i + 1));
                assert(spec_emit_pairs(tail) == spec_emit_pair(series@[i as int])
                    + seq![44u8, 10u8] + spec_emit_pairs(series@.skip(i + 1)));
                assert(v@ =~= v_pre + (spec_emit_pair(series@[i as int]) + seq![44u8, 10u8]));
                assert(v@ + spec_emit_pairs(series@.skip(i + 1)) =~= v_pre + spec_emit_pairs(
                    series@.skip(i as int),
                ));
            }
        } else {
            proof {
                let tail = series@.skip(i as int);
                assert(tail.len() == 1);
                assert(tail[0] == series@[i as int]);
                assert(spec_emit_pairs(tail) == spec_emit_pair(series@[i as int]));
                assert(v@ =~= v_pre + spec_emit_pairs(series@.skip(i as int)));
            }
        }
        i = i + 1;
    }
    v.push(10);
    v.push(93);
    proof {
        assert(v@ =~= spec_emit_export(series@));
    }
    v
}

/// Does this byte belong to a decimal literal?
pub fn is_num_byte(b: u8) -> (r: bool)
    ensures
        r == num_char(b),
{
    (48 <= b && b <= 57) || b == 45 || b == 46
}

/// Copies `v[a..b]` into a fresh vector.
pub fn copy_range(v: &Vec<u8>, a: usize, b: usize) -> (r: Vec<u8>)
    requires
        a <= b <= v@.len(),
    ensures
        r@ == v@.subrange(a as int, b as int),
{
    let mut r: Vec<u8> = Vec::new();
    let mut j: usize = a;
    proof {
        assert(v@.subrange(a as int, a as int) =~= Seq::<u8>::empty());
    }
    while j < b
        invariant
            a <= j <= b <= v@.len(),
            r@ == v@.subrange(a as int, j as int),
        decreases b - j,
    {
        r.push(v[j]);
        proof {
            assert(v@.subrange(a as int, j + 1) =~= v@.subrange(a as int, j as int).push(
                v@[j as int],
            ));
        }
        j = j + 1;
    }
    r
}

/// Reads back an export file written by `emit_export`; accepts exactly
/// the emitter's canonical shape and yields its pairs in file order.
#[verifier::rlimit(100)]
pub fn parse_export(v: &Vec<u8>) -> (r: Option<Vec<PricePoint>>)
    ensures
        match r {
            Some(s) => spec_parse_export(v@) == Some(s@),
            None => spec_parse_export(v@) is None,
        },
{
    let n = v.len();
    if n == 2 && v[0] == 91 && v[1] == 93 {
        let out: Vec<PricePoint> = Vec::new();
        proof {
            assert(out@ =~= Seq::<PricePoint>::empty());
        }
        return Some(out);
    }
    if !(n >= 2 && v[0] == 91 && v[1] == 10) {
        return None;
    }
    let mut out: Vec<PricePoint> = Vec::new();
    let mut pos: usize = 2;
    proof {
        assert(out@ + spec_parse_pairs(v@.subrange(2, n as int))->Some_0 =~= spec_parse_pairs(
            v@.subrange(2, n as int),
        )->Some_0);
    }
    loop
        invariant
            2 <= pos <= n,
            n == v@.len(),
            spec_parse_export(v@) == match spec_parse_pairs(v@.subrange(pos as int, n as int)) {
                Some(t) => Some(out@ + t),
                None => None::<Seq<PricePoint>>,
            },
        decreases n - pos,
    {
        let ghost sfx = v@.subrange(pos as int, n as int);
        proof {
            assert(sfx.len() == n - pos);
            assert(forall|j: int| 0 <= j < sfx.len() ==> sfx[j] == v@[pos + j]);
        }
        if n - pos < 17 {
            return None;
        }
        if v[pos] != 32 || v[pos + 1] != 32 || v[pos + 2] != 91 || v[pos + 3] != 34 || v[pos + 14]
            != 34 || v[pos + 15] != 44 || v[pos + 16] != 32 {
            return None;
        }
        proof {
            assert(sfx.subrange(4, 14) =~= v@.subrange(pos + 4, pos + 14));
        }
        let d = match Date::parse_at(v, pos + 4) {
            Some(d) => d,
            None => {
                return None;
            },
        };
        let mut q: usize = pos + 17;
        while q < n && is_num_byte(v[q])
            invariant
                pos + 17 <= q <= n,
                n == v@.len(),
                forall|t: int| pos + 17 <= t < q ==> num_char(#[trigger] v@[t]),
            decreases n - q,
        {
            q = q + 1;
        }
        let m = q - (pos + 17);
        proof {
            assert forall|t: int| 17 <= t < 17 + m implies num_char(#[trigger] sfx[t]) by {
                assert(sfx[t] == v@[pos + t]);
            }
            if 17 + m < sfx.len() {
                assert(sfx[17 + m] == v@[q as int]);
            }
            lemma_num_run_exact(sfx, 17, m as int);
        }
        if m == 0 {
            return None;
        }
        if q >= n {
            return None;
        }
        if v[q] != 93 {
            return None;
        }
        let tok = copy_range(v, pos + 17, q);
        proof {
            assert(tok@ =~= sfx.subrange(17, 17 + m));
        }
        let c = match Decimal::parse(&tok) {
            Some(c) => c,
            None => {
                return None;
            },
        };
        let p = PricePoint { date: d, close: c };
        let rest = q + 1;
        proof {
            assert(rest == pos + 18 + m);
        }
        if n - rest >= 2 && v[rest] == 44 && v[rest + 1] == 10 {
            let ghost t_old = spec_parse_pairs(sfx);
            out.push(p);
            pos = rest + 2;
            proof {
                let sfx2 = v@.subrange(pos as int, n as int);
                assert(sfx2 =~= sfx.subrange(18 + m + 2, sfx.len() as int));
                assert(spec_parse_pairs(sfx) == match spec_parse_pairs(sfx2) {
                    Some(t) => Some(seq![p] + t),
                    None => None::<Seq<PricePoint>>,
                });
                match spec_parse_pairs(sfx2) {
                    Some(t) => {
                        assert(out@ + t =~= out@.drop_last() + (seq![p] + t));
                    },
                    None => {},
                }
            }
        } else if n - rest == 2 && v[rest] == 10 && v[rest + 1] == 93 {
            proof {
                assert(spec_parse_pairs(sfx) == Some(seq![p]));
            }
            out.push(p);
            proof {
                assert(out@ =~= out@.drop_last() + seq![p]);
            }
            return Some(out);
        } else {
            return None;
        }
    }
}

/// Structure of one emitted line, byte by byte.
proof fn lemma_emit_pair(p: PricePoint)
    requires
        point_wf(p),
    ensures
        ({
            let e = spec_emit_pair(p);
            let dl = spec_fmt_dec(p.close).len() as int;
            &&& e.len() == 18 + dl
            &&& dl >= 1
            &&& e[0] == 32 && e[1] == 32 && e[2] == 91 && e[3] == 34
            &&& e.subrange(4, 14) == spec_fmt_date(p.date)
            &&& e[14] == 34 && e[15] == 44 && e[16] == 32
            &&& e.subrange(17, 17 + dl) == spec_fmt_dec(p.close)
            &&& e[17 + dl] == 93
            &&& forall|t: int| 17 <= t < 17 + dl ==> num_char(#[trigger] e[t])
        }),
{
    let e = spec_emit_pair(p);
    let dt = spec_fmt_date(p.date);
    let dc = spec_fmt_dec(p.close);
    lemma_fmt_dec_chars(p.close);
    assert(dt.len() == 10) by {
        lemma_fixed_digits_val(p.date.year as nat, 4);
        lemma_fixed_digits_val(p.date.month as nat, 2);
        lemma_fixed_digits_val(p.date.day as nat, 2);
    }
    assert(e.subrange(4, 14) =~= dt);
    assert(e.subrange(17, 17 + dc.len() as int) =~= dc);
    assert forall|t: int| 17 <= t < 17 + dc.len() implies num_char(e[t]) by {
        assert(e[t] == dc[t - 17]);
    }
}

/// A maximal run of decimal bytes has exactly the length of the region
/// that is followed by a non-decimal byte or by the end of the input.
proof fn lemma_num_run_exact(b: Seq<u8>, i: int, m: int)
    requires
        0 <= i,
        0 <= m,
        i + m <= b.len(),
        forall|t: int| i <= t < i + m ==> num_char(#[trigger] b[t]),
        i + m < b.len() ==> !num_char(b[i + m]),
    ensures
        num_run(b, i) == m,
    decreases m,
{
    if m == 0 {
    } else {
        lemma_num_run_exact(b, i + 1, m - 1);
    }
}

/// Emitted pair lines followed by the closing frame parse back to
/// exactly the series they came from.
#[verifier::spinoff_prover]
#[verifier::rlimit(100)]
proof fn lemma_pairs_round_trip(s: Seq<PricePoint>)
    requires
        s.len() >= 1,
        forall|i: int| 0 <= i < s.len() ==> point_wf(#[trigger] s[i]),
    ensures
        spec_parse_pairs(spec_emit_pairs(s) + seq![10u8, 93u8]) == Some(s),
    decreases s.len(),
{
    let p = s[0];
    let e = spec_emit_pair(p);
    let dl = spec_fmt_dec(p.close).len() as int;
    let b = spec_emit_pairs(s) + seq![10u8, 93u8];
    lemma_emit_pair(p);
    lemma_date_round_trip(p.date);
    lemma_dec_round_trip(p.close);
    if s.len() == 1 {
        assert(b =~= e + seq![10u8, 93u8]);
        assert(forall|t: int| 0 <= t < e.len() ==> b[t] == e[t]);
        assert(b.subrange(4, 14) =~= e.subrange(4, 14));
        assert(b.subrange(17, 17 + dl) =~= e.subrange(17, 17 + dl));
        lemma_num_run_exact(b, 17, dl);
        let rest = 18 + dl;
        assert(b[rest] == 10 && b[rest + 1] == 93 && rest + 2 == b.len());
        assert(b[rest] != 44);
        assert(spec_parse_pairs(b) == Some(seq![p]));
        assert(seq![p] =~= s);
    } else {
        let tail = s.skip(1);
        lemma_pairs_round_trip(tail);
        let bt = spec_emit_pairs(tail) + seq![10u8, 93u8];
        assert(spec_emit_pairs(s) == e + seq![44u8, 10u8] + spec_emit_pairs(tail));
        assert(b =~= e + seq![44u8, 10u8] + bt);
        assert(forall|t: int| 0 <= t < e.len() ==> b[t] == e[t]);
        assert(b.subrange(4, 14) =~= e.subrange(4, 14));
        assert(b.subrange(17, 17 + dl) =~= e.subrange(17, 17 + dl));
        lemma_num_run_exact(b, 17, dl);
        let rest = 18 + dl;
        assert(rest == e.len());
        assert(b[rest] == 44 && b[rest + 1] == 10);
        assert(rest + 2 <= b.len());
        assert(b.subrange(rest + 2, b.len() as int) =~= bt);
        assert(spec_parse_pairs(bt) == Some(tail));
        assert(spec_parse_pairs(b) == Some(seq![p] + tail));
        assert(seq![p] + tail =~= s);
    }
}

/// Exporting a series and re-parsing the exported bytes reproduces the
/// same ordered sequence of (date, price) pairs exactly.
pub proof fn lemma_export_round_trip(s: Seq<PricePoint>)
    requires
        forall|i: int| 0 <= i < s.len() ==> point_wf(#[trigger] s[i]),
    ensures
        spec_parse_export(spec_emit_export(s)) == Some(s),
{
    let b = spec_emit_export(s);
    if s.len() == 0 {
        assert(b[0] == 91 && b[1] == 93 && b.len() == 2);
        assert(Seq::<PricePoint>::empty() =~= s);
    } else {
        lemma_pairs_round_trip(s);
        assert(b =~= seq![91u8, 10u8] + (spec_emit_pairs(s) + seq![10u8, 93u8]));
        assert(b[0] == 91 && b[1] == 10);
        assert(b.subrange(2, b.len() as int) =~= spec_emit_pairs(s) + seq![10u8, 93u8]);
        assert(b.len() >= 2);
        assert(!(b.len() == 2 && b[1] == 93)) by {
            if b.len() == 2 {
                assert(spec_emit_pairs(s).len() == 0);
                lemma_emit_pair(s[0]);
                if s.len() == 1 {
                } else {
                    assert(spec_emit_pairs(s).len() >= spec_emit_pair(s[0]).len());
                }
            }
        }
    }
}

} // verus!
