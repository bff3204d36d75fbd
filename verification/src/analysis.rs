//! The predictor's analysis: trend, predicted price and recommendation,
//! read from the result file with per-field defaulting. A missing or
//! wrongly-typed field degrades to its default; only a file that is not
//! a structured object at all is unreadable. The whole read is pinned
//! to a spec-level parse: `spec_parse_result` says which raw fields an
//! object body yields, and the decoded analysis is exactly those fields
//! with the defaults filled in.

use vstd::prelude::*;
use crate::decimal::{dec_wf, lemma_parse_dec_wf, spec_parse_dec, Decimal};
use crate::errors::PipeError;
use crate::export::copy_range;
use crate::scan::{
    lemma_scan_tail_bounds, scan_string, skip_value, skip_ws, spec_scan_string, spec_skip_value,
    spec_skip_ws,
};

verus! {

#[derive(Debug)]
pub struct AnalysisResult {
    pub trend: Vec<u8>,
    pub predicted: Decimal,
    pub recommendation: Vec<u8>,
}

/// The default label for an absent or non-string text field.
pub open spec fn na_label() -> Seq<u8> {
    seq![78u8, 47u8, 65u8]
}

/// The default predicted price: zero.
pub open spec fn zero_price() -> Decimal {
    Decimal { neg: false, mant: 0, scale: 1 }
}

/// The field names of the result file.
pub open spec fn predicted_key_bytes() -> Seq<u8> {
    seq![
        112u8, 114u8, 101u8, 100u8, 105u8, 99u8, 116u8, 101u8, 100u8, 95u8, 112u8, 114u8, 105u8,
        99u8, 101u8,
    ]
}

pub open spec fn trend_key_bytes() -> Seq<u8> {
    seq![116u8, 114u8, 101u8, 110u8, 100u8]
}

pub open spec fn recommendation_key_bytes() -> Seq<u8> {
    seq![
        114u8, 101u8, 99u8, 111u8, 109u8, 109u8, 101u8, 110u8, 100u8, 97u8, 116u8, 105u8, 111u8,
        110u8,
    ]
}

/// An optional byte string as an abstract sequence.
pub open spec fn opt_bytes(o: Option<Vec<u8>>) -> Option<Seq<u8>> {
    match o {
        Some(v) => Some(v@),
        None => None,
    }
}

/// Walks the fields of the result object from `i` (just past its
/// opening brace), with per-field last-wins accumulation: a string
/// value feeds the text fields, a bare scalar that parses as a decimal
/// feeds the price, and a wrongly-typed occurrence clears the field it
/// names.
pub open spec fn spec_result_fields(
    s: Seq<u8>,
    i: int,
    pr: Option<Decimal>,
    tr: Option<Seq<u8>>,
    rc: Option<Seq<u8>>,
) -> Option<((Option<Decimal>, Option<Seq<u8>>, Option<Seq<u8>>), int)>
    decreases s.len() - i,
{
    let j = spec_skip_ws(s, i);
    if j >= s.len() {
        None
    } else if s[j] == 125 {
        Some(((pr, tr, rc), j + 1))
    } else if s[j] != 34 {
        None
    } else {
        match spec_scan_string(s, j) {
            None => None,
            Some(ke) => {
                let k = spec_skip_ws(s, ke + 1);
                if k >= s.len() || s[k] != 58 {
                    None
                } else {
                    let w = spec_skip_ws(s, k + 1);
                    if w >= s.len() {
                        None
                    } else {
                        let key = s.subrange(j + 1, ke);
                        let isp = key == predicted_key_bytes();
                        let ist = key == trend_key_bytes();
                        let isr = key == recommendation_key_bytes();
                        match spec_skip_value(s, w) {
                            None => None,
                            Some(nx) => {
                                let is_str = s[w] == 34;
                                let is_comp = s[w] == 123 || s[w] == 91;
                                let pr2 = if isp {
                                    if is_str || is_comp {
                                        None
                                    } else {
                                        spec_parse_dec(s.subrange(w, nx))
                                    }
                                } else {
                                    pr
                                };
                                let tr2 = if ist {
                                    if is_str {
                                        Some(s.subrange(w + 1, nx - 1))
                                    } else {
                                        None
                                    }
                                } else {
                                    tr
                                };
                                let rc2 = if isr {
                                    if is_str {
                                        Some(s.subrange(w + 1, nx - 1))
                                    } else {
                                        None
                                    }
                                } else {
                                    rc
                                };
                                let t = spec_skip_ws(s, nx);
                                if t >= s.len() {
                                    None
                                } else if s[t] == 44 {
                                    if t < i {
                                        None
                                    } else {
                                        spec_result_fields(s, t + 1, pr2, tr2, rc2)
                                    }
                                } else if s[t] == 125 {
                                    Some(((pr2, tr2, rc2), t + 1))
                                } else {
                                    None
                                }
                            },
                        }
                    }
                }
            },
        }
    }
}

/// The raw fields a whole result file yields: `Some` exactly when the
/// input is one JSON object, possibly surrounded by whitespace, whose
/// members scan.
pub open spec fn spec_parse_result(s: Seq<u8>) -> Option<
    (Option<Decimal>, Option<Seq<u8>>, Option<Seq<u8>>),
> {
    let i = spec_skip_ws(s, 0);
    if i >= s.len() || s[i] != 123 {
        None
    } else {
        match spec_result_fields(s, i + 1, None, None, None) {
            Some((f, end)) => if spec_skip_ws(s, end) < s.len() {
                None
            } else {
                Some(f)
            },
            None => None,
        }
    }
}

/// Builds the analysis from optional raw fields, defaulting each absent
/// field on its own: the price to zero, the labels to `N/A`. No absent
/// field is fatal.
pub fn from_fields(price: Option<Decimal>, trend: Option<Vec<u8>>, rec: Option<Vec<u8>>) -> (r:
    AnalysisResult)
    ensures
        r.predicted == match price {
            Some(d) => d,
            None => zero_price(),
        },
        r.trend@ == match opt_bytes(trend) {
            Some(t) => t,
            None => na_label(),
        },
        r.recommendation@ == match opt_bytes(rec) {
            Some(t) => t,
            None => na_label(),
        },
{
    let p = match price {
        Some(d) => d,
        None => Decimal { neg: false, mant: 0, scale: 1 },
    };
    let t = match trend {
        Some(t) => t,
        None => na(),
    };
    let c = match rec {
        Some(t) => t,
        None => na(),
    };
    AnalysisResult { trend: t, predicted: p, recommendation: c }
}

/// The literal `N/A` label.
pub fn na() -> (r: Vec<u8>)
    ensures
        r@ == na_label(),
{
    let mut v: Vec<u8> = Vec::new();
    v.push(78);
    v.push(47);
    v.push(65);
    proof {
        assert(v@ =~= na_label());
    }
    v
}

fn predicted_key() -> (k: Vec<u8>)
    ensures
        k@ == predicted_key_bytes(),
{
    let mut k: Vec<u8> = Vec::new();
    k.push(112);
    k.push(114);
    k.push(101);
    k.push(100);
    k.push(105);
    k.push(99);
    k.push(116);
    k.push(101);
    k.push(100);
    k.push(95);
    k.push(112);
    k.push(114);
    k.push(105);
    k.push(99);
    k.push(101);
    proof {
        assert(k@ =~= predicted_key_bytes());
    }
    k
}

fn trend_key() -> (k: Vec<u8>)
    ensures
        k@ == trend_key_bytes(),
{
    let mut k: Vec<u8> = Vec::new();
    k.push(116);
    k.push(114);
    k.push(101);
    k.push(110);
    k.push(100);
    proof {
        assert(k@ =~= trend_key_bytes());
    }
    k
}

fn recommendation_key() -> (k: Vec<u8>)
    ensures
        k@ == recommendation_key_bytes(),
{
    let mut k: Vec<u8> = Vec::new();
    k.push(114);
    k.push(101);
    k.push(99);
    k.push(111);
    k.push(109);
    k.push(109);
    k.push(101);
    k.push(110);
    k.push(100);
    k.push(97);
    k.push(116);
    k.push(105);
    k.push(111);
    k.push(110);
    proof {
        assert(k@ =~= recommendation_key_bytes());
    }
    k
}

/// Executable twin of `spec_result_fields`.
#[verifier::rlimit(100)]
fn result_fields(
    body: &Vec<u8>,
    i: usize,
    pr: Option<Decimal>,
    tr: Option<Vec<u8>>,
    rc: Option<Vec<u8>>,
) -> (r: Option<(Option<Decimal>, Option<Vec<u8>>, Option<Vec<u8>>, usize)>)
    requires
        i <= body@.len(),
        pr matches Some(d) ==> dec_wf(d),
    ensures
        match r {
            Some((pr2, tr2, rc2, nx)) => {
                &&& spec_result_fields(body@, i as int, pr, opt_bytes(tr), opt_bytes(rc)) == Some(
                    ((pr2, opt_bytes(tr2), opt_bytes(rc2)), nx as int),
                )
                &&& i < nx <= body@.len()
                &&& (pr2 matches Some(d) ==> dec_wf(d))
            },
            None => spec_result_fields(body@, i as int, pr, opt_bytes(tr), opt_bytes(rc)) is None,
        },
    decreases body@.len() - i,
{
    let n = body.len();
    let j = skip_ws(body, i);
    if j >= n {
        return None;
    }
    if body[j] == 125 {
        return Some((pr, tr, rc, j + 1));
    }
    if body[j] != 34 {
        return None;
    }
    let ke = match scan_string(body, j) {
        Some(e) => e,
        None => {
            return None;
        },
    };
    let k = skip_ws(body, ke + 1);
    if k >= n || body[k] != 58 {
        return None;
    }
    let w = skip_ws(body, k + 1);
    if w >= n {
        return None;
    }
    let pk = predicted_key();
    let tk = trend_key();
    let rk = recommendation_key();
    let isp = crate::payload::range_eq(body, j + 1, ke, &pk);
    let ist = crate::payload::range_eq(body, j + 1, ke, &tk);
    let isr = crate::payload::range_eq(body, j + 1, ke, &rk);
    let nx = match skip_value(body, w) {
        Some(x) => x,
        None => {
            return None;
        },
    };
    let is_str = body[w] == 34;
    let is_comp = body[w] == 123 || body[w] == 91;
    proof {
        if body@[w as int] == 34 {
            assert(spec_scan_string(body@, w as int) == Some(nx - 1 as int));
            lemma_scan_tail_bounds(body@, w + 1);
        }
    }
    let pr2 = if isp {
        if is_str || is_comp {
            None
        } else {
            let tok = copy_range(body, w, nx);
            let d = Decimal::parse(&tok);
            proof {
                if d is Some {
                    lemma_parse_dec_wf(tok@);
                }
            }
            d
        }
    } else {
        pr
    };
    let tr2 = if ist {
        if is_str {
            Some(copy_range(body, w + 1, nx - 1))
        } else {
            None
        }
    } else {
        tr
    };
    let rc2 = if isr {
        if is_str {
            Some(copy_range(body, w + 1, nx - 1))
        } else {
            None
        }
    } else {
        rc
    };
    let t = skip_ws(body, nx);
    if t >= n {
        return None;
    }
    if body[t] == 44 {
        result_fields(body, t + 1, pr2, tr2, rc2)
    } else if body[t] == 125 {
        Some((pr2, tr2, rc2, t + 1))
    } else {
        None
    }
}

/// Parses the predictor's result file. `Ok` exactly when
/// `spec_parse_result` yields fields, and then the analysis is those
/// fields with per-field defaulting: the price defaults to zero, the
/// labels to `N/A`, and a wrongly-typed field falls back to its
/// default. Anything that is not one JSON object is
/// `ResultUnreadable`.
pub fn parse_result(body: &Vec<u8>) -> (r: Result<AnalysisResult, PipeError>)
    ensures
        (r is Ok) <==> spec_parse_result(body@) is Some,
        r matches Ok(a) ==> (spec_parse_result(body@) matches Some((pr, tr, rc)) && a.predicted
            == (match pr {
            Some(d) => d,
            None => zero_price(),
        }) && a.trend@ == (match tr {
            Some(t) => t,
            None => na_label(),
        }) && a.recommendation@ == (match rc {
            Some(t) => t,
            None => na_label(),
        })),
        r matches Ok(a) ==> dec_wf(a.predicted),
        r matches Err(e) ==> e == PipeError::ResultUnreadable,
{
    let n = body.len();
    let i = skip_ws(body, 0);
    if i >= n || body[i] != 123 {
        return Err(PipeError::ResultUnreadable);
    }
    match result_fields(body, i + 1, None, None, None) {
        Some((pr, tr, rc, end)) => {
            let t = skip_ws(body, end);
            if t < n {
                return Err(PipeError::ResultUnreadable);
            }
            Ok(from_fields(pr, tr, rc))
        },
        None => Err(PipeError::ResultUnreadable),
    }
}

} // verus!
