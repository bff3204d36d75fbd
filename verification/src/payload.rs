//! The quote payload: a JSON object that must hold the daily series
//! under its well-known key, mapping date strings to per-date objects
//! whose closing price sits under the close-field key. Everything else
//! in the payload is skipped; any shape that lacks the series is a
//! `MissingSeries` failure before anything is written. The whole read
//! is pinned to a spec-level parse: `spec_parse_payload` says which raw
//! (date, close) entries a payload yields, and the executable parser
//! returns exactly the series those entries build.

use vstd::prelude::*;
use crate::errors::PipeError;
use crate::export::copy_range;
use crate::scan::{
    scan_string, skip_value, skip_ws, spec_scan_string, spec_skip_value, spec_skip_ws,
};
use crate::series::{build_inv, entries_view, series_from_entries, series_wf, PricePoint};

verus! {

/// The top-level key holding the daily series: `Time Series (Daily)`.
pub open spec fn series_key_bytes() -> Seq<u8> {
    seq![
        84u8, 105u8, 109u8, 101u8, 32u8, 83u8, 101u8, 114u8, 105u8, 101u8, 115u8, 32u8, 40u8,
        68u8, 97u8, 105u8, 108u8, 121u8, 41u8,
    ]
}

/// The per-date field holding the closing price: `4. close`.
pub open spec fn close_key_bytes() -> Seq<u8> {
    seq![52u8, 46u8, 32u8, 99u8, 108u8, 111u8, 115u8, 101u8]
}

fn series_key() -> (k: Vec<u8>)
    ensures
        k@ == series_key_bytes(),
{
    let mut k: Vec<u8> = Vec::new();
    k.push(84);
    k.push(105);
    k.push(109);
    k.push(101);
    k.push(32);
    k.push(83);
    k.push(101);
    k.push(114);
    k.push(105);
    k.push(101);
    k.push(115);
    k.push(32);
    k.push(40);
    k.push(68);
    k.push(97);
    k.push(105);
    k.push(108);
    k.push(121);
    k.push(41);
    proof {
        assert(k@ =~= series_key_bytes());
    }
    k
}

fn close_key() -> (k: Vec<u8>)
    ensures
        k@ == close_key_bytes(),
{
    let mut k: Vec<u8> = Vec::new();
    k.push(52);
    k.push(46);
    k.push(32);
    k.push(99);
    k.push(108);
    k.push(111);
    k.push(115);
    k.push(101);
    proof {
        assert(k@ =~= close_key_bytes());
    }
    k
}

/// Does `v[a..b]` hold exactly the bytes of `k`?
pub fn range_eq(v: &Vec<u8>, a: usize, b: usize, k: &Vec<u8>) -> (r: bool)
    requires
        a <= b <= v@.len(),
    ensures
        r == (v@.subrange(a as int, b as int) == k@),
{
    let ghost sub = v@.subrange(a as int, b as int);
    if b - a != k.len() {
        proof {
            assert(sub.len() != k@.len());
        }
        return false;
    }
    let mut t: usize = 0;
    while t < b - a
        invariant
            a <= b <= v@.len(),
            k@.len() == b - a,
            t <= b - a,
            sub == v@.subrange(a as int, b as int),
            forall|u: int| 0 <= u < t ==> sub[u] == k@[u],
        decreases b - a - t,
    {
        if v[a + t] != k[t] {
            proof {
                assert(sub[t as int] == v@[a + t]);
                assert(sub[t as int] != k@[t as int]);
            }
            return false;
        }
        t = t + 1;
    }
    proof {
        assert(sub =~= k@);
    }
    true
}

/// A recorded close span, as abstract positions.
pub open spec fn opt_span(o: Option<(usize, usize)>) -> Option<(int, int)> {
    match o {
        Some((a, b)) => Some((a as int, b as int)),
        None => None,
    }
}

/// Walks the fields of one per-date object from `i` (just past its
/// opening brace): the span of the last close field whose value is a
/// string (a later occurrence replaces an earlier one; a non-string
/// value clears it), and the position just past the closing brace.
pub open spec fn spec_close_fields(s: Seq<u8>, i: int, acc: Option<(int, int)>) -> Option<
    (Option<(int, int)>, int),
>
    decreases s.len() - i,
{
    let j = spec_skip_ws(s, i);
    if j >= s.len() {
        None
    } else if s[j] == 125 {
        Some((acc, j + 1))
    } else if s[j] != 34 {
        None
    } else {
        match spec_scan_string(s, j) {
            None => None,
            Some(fe) => {
                let k = spec_skip_ws(s, fe + 1);
                if k >= s.len() || s[k] != 58 {
                    None
                } else {
                    let w = spec_skip_ws(s, k + 1);
                    if w >= s.len() {
                        None
                    } else {
                        let isc = s.subrange(j + 1, fe) == close_key_bytes();
                        match spec_skip_value(s, w) {
                            None => None,
                            Some(nx) => {
                                let acc2 = if isc {
                                    if s[w] == 34 {
                                        Some((w + 1, nx - 1))
                                    } else {
                                        None
                                    }
                                } else {
                                    acc
                                };
                                let t = spec_skip_ws(s, nx);
                                if t >= s.len() {
                                    None
                                } else if s[t] == 44 {
                                    if t < i {
                                        None
                                    } else {
                                        spec_close_fields(s, t + 1, acc2)
                                    }
                                } else if s[t] == 125 {
                                    Some((acc2, t + 1))
                                } else {
                                    None
                                }
                            },
                        }
                    }
                }
            },
        }
    }
}

/// Walks the members of the series object from `i` (just past its
/// opening brace): the raw (date, close) entries in member order — one
/// per date whose value is an object with a recorded close span — and
/// the position just past the closing brace.
pub open spec fn spec_series_members(s: Seq<u8>, i: int) -> Option<(Seq<(Seq<u8>, Seq<u8>)>, int)>
    decreases s.len() - i,
{
    let j = spec_skip_ws(s, i);
    if j >= s.len() {
        None
    } else if s[j] == 125 {
        Some((Seq::empty(), j + 1))
    } else if s[j] != 34 {
        None
    } else {
        match spec_scan_string(s, j) {
            None => None,
            Some(de) => {
                let k = spec_skip_ws(s, de + 1);
                if k >= s.len() || s[k] != 58 {
                    None
                } else {
                    let w = spec_skip_ws(s, k + 1);
                    if w >= s.len() {
                        None
                    } else {
                        let step: Option<(Seq<(Seq<u8>, Seq<u8>)>, int)> = if s[w] == 123 {
                            match spec_close_fields(s, w + 1, None) {
                                Some((c, end)) => Some(
                                    (
                                        match c {
                                            Some((cs, ce)) => seq![
                                                (s.subrange(j + 1, de), s.subrange(cs, ce)),
                                            ],
                                            None => Seq::empty(),
                                        },
                                        end,
                                    ),
                                ),
                                None => None,
                            }
                        } else {
                            match spec_skip_value(s, w) {
                                Some(nx) => Some((Seq::empty(), nx)),
                                None => None,
                            }
                        };
                        match step {
                            None => None,
                            Some((es1, pos)) => {
                                let t = spec_skip_ws(s, pos);
                                if t >= s.len() {
                                    None
                                } else if s[t] == 44 {
                                    if t < i {
                                        None
                                    } else {
                                        match spec_series_members(s, t + 1) {
                                            Some((rest, end)) => Some((es1 + rest, end)),
                                            None => None,
                                        }
                                    }
                                } else if s[t] == 125 {
                                    Some((es1, t + 1))
                                } else {
                                    None
                                }
                            },
                        }
                    }
                }
            },
        }
    }
}

/// Walks the members of the top-level object from `i`: the entries of
/// the last series object seen under the well-known key (`None` while
/// none was seen), and the position just past the closing brace.
pub open spec fn spec_top_members(
    s: Seq<u8>,
    i: int,
    acc: Option<Seq<(Seq<u8>, Seq<u8>)>>,
) -> Option<(Option<Seq<(Seq<u8>, Seq<u8>)>>, int)>
    decreases s.len() - i,
{
    let j = spec_skip_ws(s, i);
    if j >= s.len() {
        None
    } else if s[j] == 125 {
        Some((acc, j + 1))
    } else if s[j] != 34 {
        None
    } else {
        match spec_scan_string(s, j) {
            None => None,
            Some(ke) => {
                let k = spec_skip_ws(s, ke + 1);
                if k >= s.len() || s[k] != 58 {
                    None
                } else {
                    let w = spec_skip_ws(s, k + 1);
                    if w >= s.len() {
                        None
                    } else {
                        let iss = s.subrange(j + 1, ke) == series_key_bytes();
                        let step: Option<(Option<Seq<(Seq<u8>, Seq<u8>)>>, int)> = if iss {
                            if s[w] == 123 {
                                match spec_series_members(s, w + 1) {
                                    Some((es, end)) => Some((Some(es), end)),
                                    None => None,
                                }
                            } else {
                                None
                            }
                        } else {
                            match spec_skip_value(s, w) {
                                Some(nx) => Some((acc, nx)),
                                None => None,
                            }
                        };
                        match step {
                            None => None,
                            Some((acc2, pos)) => {
                                let t = spec_skip_ws(s, pos);
                                if t >= s.len() {
                                    None
                                } else if s[t] == 44 {
                                    if t < i {
                                        None
                                    } else {
                                        spec_top_members(s, t + 1, acc2)
                                    }
                                } else if s[t] == 125 {
                                    Some((acc2, t + 1))
                                } else {
                                    None
                                }
                            },
                        }
                    }
                }
            },
        }
    }
}

/// The raw (date, close) entries a whole payload yields: `Some` exactly
/// when the input is one JSON object, possibly surrounded by
/// whitespace, whose members scan and which holds the series object
/// under the well-known key.
pub open spec fn spec_parse_payload(s: Seq<u8>) -> Option<Seq<(Seq<u8>, Seq<u8>)>> {
    let i = spec_skip_ws(s, 0);
    if i >= s.len() || s[i] != 123 {
        None
    } else {
        match spec_top_members(s, i + 1, None) {
            Some((acc, end)) => if spec_skip_ws(s, end) < s.len() {
                None
            } else {
                acc
            },
            None => None,
        }
    }
}

/// Executable twin of `spec_close_fields`.
#[verifier::rlimit(100)]
fn close_fields(body: &Vec<u8>, i: usize, acc: Option<(usize, usize)>) -> (r: Option<
    (Option<(usize, usize)>, usize),
>)
    requires
        i <= body@.len(),
        opt_span(acc) matches Some((a, b)) ==> 0 <= a <= b <= body@.len(),
    ensures
        match r {
            Some((c, nx)) => {
                &&& spec_close_fields(body@, i as int, opt_span(acc)) == Some(
                    (opt_span(c), nx as int),
                )
                &&& i < nx <= body@.len()
                &&& (opt_span(c) matches Some((a, b)) ==> 0 <= a <= b <= body@.len())
            },
            None => spec_close_fields(body@, i as int, opt_span(acc)) is None,
        },
    decreases body@.len() - i,
{
    let n = body.len();
    let j = skip_ws(body, i);
    if j >= n {
        return None;
    }
    if body[j] == 125 {
        return Some((acc, j + 1));
    }
    if body[j] != 34 {
        return None;
    }
    let fe = match scan_string(body, j) {
        Some(e) => e,
        None => {
            return None;
        },
    };
    let k = skip_ws(body, fe + 1);
    if k >= n || body[k] != 58 {
        return None;
    }
    let w = skip_ws(body, k + 1);
    if w >= n {
        return None;
    }
    let ck = close_key();
    let isc = range_eq(body, j + 1, fe, &ck);
    let nx = match skip_value(body, w) {
        Some(x) => x,
        None => {
            return None;
        },
    };
    proof {
        if body@[w as int] == 34 {
            assert(spec_scan_string(body@, w as int) == Some(nx - 1 as int));
            crate::scan::lemma_scan_tail_bounds(body@, w + 1);
        }
    }
    let acc2 = if isc {
        if body[w] == 34 {
            Some((w + 1, nx - 1))
        } else {
            None
        }
    } else {
        acc
    };
    proof {
        assert(opt_span(acc2) == (if isc {
            if body@[w as int] == 34 {
                Some((w + 1 as int, nx - 1 as int))
            } else {
                None::<(int, int)>
            }
        } else {
            opt_span(acc)
        }));
    }
    let t = skip_ws(body, nx);
    if t >= n {
        return None;
    }
    if body[t] == 44 {
        close_fields(body, t + 1, acc2)
    } else if body[t] == 125 {
        Some((acc2, t + 1))
    } else {
        None
    }
}

/// Executable twin of `spec_series_members`: appends the entries it
/// finds to `entries`.
#[verifier::rlimit(100)]
fn series_members(body: &Vec<u8>, i: usize, entries: &mut Vec<(Vec<u8>, Vec<u8>)>) -> (r: Option<
    usize,
>)
    requires
        i <= body@.len(),
    ensures
        match r {
            Some(nx) => {
                &&& i < nx <= body@.len()
                &&& (spec_series_members(body@, i as int) matches Some((es, end)) && end == nx
                    && entries_view(final(entries)@) == entries_view(old(entries)@) + es)
            },
            None => spec_series_members(body@, i as int) is None,
        },
    decreases body@.len() - i,
{
    let n = body.len();
    let j = skip_ws(body, i);
    if j >= n {
        return None;
    }
    if body[j] == 125 {
        proof {
            assert(entries_view(entries@) =~= entries_view(entries@) + Seq::<
                (Seq<u8>, Seq<u8>),
            >::empty());
        }
        return Some(j + 1);
    }
    if body[j] != 34 {
        return None;
    }
    let de = match scan_string(body, j) {
        Some(e) => e,
        None => {
            return None;
        },
    };
    let k = skip_ws(body, de + 1);
    if k >= n || body[k] != 58 {
        return None;
    }
    let w = skip_ws(body, k + 1);
    if w >= n {
        return None;
    }
    let ghost pre = entries@;
    let pos: usize;
    let ghost es1: Seq<(Seq<u8>, Seq<u8>)>;
    if body[w] == 123 {
        let (c, end) = match close_fields(body, w + 1, None) {
            Some(x) => x,
            None => {
                return None;
            },
        };
        match c {
            Some((cs, ce)) => {
                let db = copy_range(body, j + 1, de);
                let cb = copy_range(body, cs, ce);
                entries.push((db, cb));
                proof {
                    es1 = seq![(body@.subrange(j + 1, de as int), body@.subrange(cs as int, ce as int))];
                    assert(entries_view(entries@) =~= entries_view(pre) + es1);
                }
            },
            None => {
                proof {
                    es1 = Seq::empty();
                    assert(entries_view(entries@) =~= entries_view(pre) + es1);
                }
            },
        }
        pos = end;
    } else {
        match skip_value(body, w) {
            Some(nx) => {
                pos = nx;
            },
            None => {
                return None;
            },
        }
        proof {
            es1 = Seq::empty();
            assert(entries_view(entries@) =~= entries_view(pre) + es1);
        }
    }
    let t = skip_ws(body, pos);
    if t >= n {
        return None;
    }
    if body[t] == 44 {
        let ghost mid = entries@;
        let r = series_members(body, t + 1, entries);
        proof {
            if r is Some {
                let (rest, end) = spec_series_members(body@, t + 1)->Some_0;
                assert(entries_view(final(entries)@) =~= entries_view(pre) + (es1 + rest)) by {
                    assert(entries_view(final(entries)@) == entries_view(mid) + rest);
                }
            }
        }
        r
    } else if body[t] == 125 {
        Some(t + 1)
    } else {
        None
    }
}

/// Executable twin of `spec_top_members`: fills `entries` with the
/// last-seen series object's entries and reports whether one was seen.
#[verifier::rlimit(100)]
fn top_members(body: &Vec<u8>, i: usize, entries: &mut Vec<(Vec<u8>, Vec<u8>)>, found: bool) -> (r:
    Option<(bool, usize)>)
    requires
        i <= body@.len(),
    ensures
        ({
            let acc0 = if found {
                Some(entries_view(old(entries)@))
            } else {
                None::<Seq<(Seq<u8>, Seq<u8>)>>
            };
            match r {
                Some((f2, nx)) => {
                    &&& i < nx <= body@.len()
                    &&& (spec_top_members(body@, i as int, acc0) matches Some((acc2, end)) && end
                        == nx && (f2 <==> acc2 is Some) && (f2 ==> entries_view(final(entries)@)
                        == acc2->Some_0))
                },
                None => spec_top_members(body@, i as int, acc0) is None,
            }
        }),
    decreases body@.len() - i,
{
    let n = body.len();
    let ghost acc0 = if found {
        Some(entries_view(entries@))
    } else {
        None::<Seq<(Seq<u8>, Seq<u8>)>>
    };
    let j = skip_ws(body, i);
    if j >= n {
        return None;
    }
    if body[j] == 125 {
        return Some((found, j + 1));
    }
    if body[j] != 34 {
        return None;
    }
    let ke = match scan_string(body, j) {
        Some(e) => e,
        None => {
            return None;
        },
    };
    let k = skip_ws(body, ke + 1);
    if k >= n || body[k] != 58 {
        return None;
    }
    let w = skip_ws(body, k + 1);
    if w >= n {
        return None;
    }
    let sk = series_key();
    let iss = range_eq(body, j + 1, ke, &sk);
    let pos: usize;
    let found2: bool;
    if iss {
        if body[w] != 123 {
            return None;
        }
        entries.clear();
        let end = match series_members(body, w + 1, entries) {
            Some(x) => x,
            None => {
                return None;
            },
        };
        proof {
            assert(entries_view(entries@) =~= Seq::<(Seq<u8>, Seq<u8>)>::empty() + spec_series_members(
                body@,
                w + 1,
            )->Some_0.0);
            assert(entries_view(entries@) =~= spec_series_members(body@, w + 1)->Some_0.0);
        }
        pos = end;
        found2 = true;
    } else {
        match skip_value(body, w) {
            Some(nx) => {
                pos = nx;
            },
            None => {
                return None;
            },
        }
        found2 = found;
    }
    let ghost acc2 = if found2 {
        Some(entries_view(entries@))
    } else {
        None::<Seq<(Seq<u8>, Seq<u8>)>>
    };
    let t = skip_ws(body, pos);
    if t >= n {
        return None;
    }
    if body[t] == 44 {
        top_members(body, t + 1, entries, found2)
    } else if body[t] == 125 {
        Some((found2, t + 1))
    } else {
        None
    }
}

/// Parses the whole quote payload into the ordered series. `Ok` exactly
/// when `spec_parse_payload` yields entries, and then the result is the
/// series those raw entries build — sorted ascending, no duplicate
/// dates, each point from the last entry naming its date, entries that
/// fail a parse dropped. Every other payload fails with
/// `MissingSeries`, and nothing is written anywhere on that path.
pub fn parse_payload(body: &Vec<u8>) -> (r: Result<Vec<PricePoint>, PipeError>)
    ensures
        (r is Ok) <==> spec_parse_payload(body@) is Some,
        r matches Ok(s) ==> build_inv(
            spec_parse_payload(body@)->Some_0,
            spec_parse_payload(body@)->Some_0.len() as int,
            s@,
        ) && series_wf(s@),
        r matches Err(e) ==> e == PipeError::MissingSeries,
{
    let n = body.len();
    let i = skip_ws(body, 0);
    if i >= n || body[i] != 123 {
        return Err(PipeError::MissingSeries);
    }
    let mut entries: Vec<(Vec<u8>, Vec<u8>)> = Vec::new();
    match top_members(body, i + 1, &mut entries, false) {
        Some((found, end)) => {
            let t = skip_ws(body, end);
            if t < n {
                return Err(PipeError::MissingSeries);
            }
            if !found {
                return Err(PipeError::MissingSeries);
            }
            Ok(series_from_entries(&entries))
        },
        None => Err(PipeError::MissingSeries),
    }
}

} // verus!
