//! The ordered price series: one closing price per calendar day, sorted
//! ascending by date. Raw (date, price) byte-string entries are parsed
//! individually; an entry that fails either parse, or carries a negative
//! price, is dropped rather than failing the series, and a later entry
//! for the same date replaces an earlier one.

use vstd::prelude::*;
use crate::dates::{
    date_num, date_wf, lemma_date_num_injective, lemma_parse_date_wf, spec_parse_date, Date,
};
use crate::decimal::{dec_wf, lemma_parse_dec_wf, spec_parse_dec, Decimal};

verus! {

#[derive(Clone, Copy, PartialEq, Eq, Structural, Debug)]
pub struct PricePoint {
    pub date: Date,
    pub close: Decimal,
}

/// A usable point: a real calendar date and a well-formed, non-negative
/// closing price.
pub open spec fn point_wf(p: PricePoint) -> bool {
    date_wf(p.date) && dec_wf(p.close) && !p.close.neg
}

/// Dates strictly increase, so they are also pairwise distinct.
pub open spec fn sorted_strict(s: Seq<PricePoint>) -> bool {
    forall|i: int, j: int|
        0 <= i < j < s.len() ==> date_num(#[trigger] s[i].date) < date_num(#[trigger] s[j].date)
}

pub open spec fn series_wf(s: Seq<PricePoint>) -> bool {
    sorted_strict(s) && forall|i: int| 0 <= i < s.len() ==> point_wf(#[trigger] s[i])
}

/// What one raw entry contributes: its date parsed strictly, its price
/// parsed as a non-negative decimal; `None` when the entry is dropped.
pub open spec fn entry_point(date_b: Seq<u8>, close_b: Seq<u8>) -> Option<PricePoint> {
    match (spec_parse_date(date_b), spec_parse_dec(close_b)) {
        (Some(d), Some(c)) => if !c.neg {
            Some(PricePoint { date: d, close: c })
        } else {
            None
        },
        _ => None,
    }
}

/// A raw entry list as plain byte sequences.
pub open spec fn entries_view(es: Seq<(Vec<u8>, Vec<u8>)>) -> Seq<(Seq<u8>, Seq<u8>)> {
    es.map_values(|e: (Vec<u8>, Vec<u8>)| (e.0@, e.1@))
}

/// The point contributed by entry `k` of a raw entry list.
pub open spec fn ep_at(es: Seq<(Seq<u8>, Seq<u8>)>, k: int) -> Option<PricePoint> {
    entry_point(es[k].0, es[k].1)
}

/// Is some point with this date in the series?
pub open spec fn has_date(s: Seq<PricePoint>, d: Date) -> bool {
    exists|j: int| 0 <= j < s.len() && (#[trigger] s[j]).date == d
}

/// No entry of `es` with index in `(k, n)` contributes a point dated `d`.
pub open spec fn no_later_date(es: Seq<(Seq<u8>, Seq<u8>)>, k: int, n: int, d: Date) -> bool {
    forall|l: int|
        k < l < n ==> match #[trigger] ep_at(es, l) {
            Some(q) => q.date != d,
            None => true,
        }
}

/// `p` is the contribution of some entry before `n`, and no later entry
/// before `n` names the same date (a later entry replaces an earlier
/// one).
pub open spec fn from_last_entry(es: Seq<(Seq<u8>, Seq<u8>)>, n: int, p: PricePoint) -> bool {
    exists|k: int|
        0 <= k < n && #[trigger] ep_at(es, k) == Some(p) && no_later_date(es, k, n, p.date)
}

/// Prefix invariants of the series builder, after the first `k` entries.
pub open spec fn build_inv(es: Seq<(Seq<u8>, Seq<u8>)>, k: int, s: Seq<PricePoint>) -> bool {
    &&& series_wf(s)
    &&& forall|kk: int|
        0 <= kk < k && (#[trigger] ep_at(es, kk)).is_some() ==> has_date(
            s,
            ep_at(es, kk).unwrap().date,
        )
    &&& forall|j: int| 0 <= j < s.len() ==> from_last_entry(es, k, #[trigger] s[j])
}

/// Taking entry `k` (placed or replacing at `pos`) preserves the
/// builder's invariants.
#[verifier::rlimit(100)]
proof fn lemma_step_added(
    es: Seq<(Seq<u8>, Seq<u8>)>,
    k: int,
    pre: Seq<PricePoint>,
    cur: Seq<PricePoint>,
    p: PricePoint,
    pos: int,
    replace: bool,
)
    requires
        0 <= k < es.len(),
        build_inv(es, k, pre),
        point_wf(p),
        ep_at(es, k) == Some(p),
        0 <= pos <= pre.len(),
        forall|t: int| 0 <= t < pos ==> date_num(#[trigger] pre[t].date) < date_num(p.date),
        replace ==> pos < pre.len() && pre[pos].date == p.date && cur == pre.update(pos, p),
        !replace ==> cur == pre.insert(pos, p) && (pos < pre.len() ==> date_num(pre[pos].date)
            > date_num(p.date)),
    ensures
        build_inv(es, k + 1, cur),
{
    assert(cur[pos] == p);
    if replace {
        assert forall|i: int, j: int| 0 <= i < j < cur.len() implies date_num(cur[i].date)
            < date_num(cur[j].date) by {
            assert(cur[i] == if i == pos {
                p
            } else {
                pre[i]
            });
            assert(cur[j] == if j == pos {
                p
            } else {
                pre[j]
            });
            assert(date_num(pre[pos].date) == date_num(p.date));
        }
        assert(forall|i: int| 0 <= i < cur.len() ==> point_wf(#[trigger] cur[i]));
    } else {
        assert forall|i: int, j: int| 0 <= i < j < cur.len() implies date_num(cur[i].date)
            < date_num(cur[j].date) by {
            assert(cur[i] == if i < pos {
                pre[i]
            } else if i == pos {
                p
            } else {
                pre[i - 1]
            });
            assert(cur[j] == if j < pos {
                pre[j]
            } else if j == pos {
                p
            } else {
                pre[j - 1]
            });
        }
        assert(forall|i: int| 0 <= i < cur.len() ==> point_wf(#[trigger] cur[i]));
    }
    // Every date present before is still present.
    assert forall|dd: Date| has_date(pre, dd) implies has_date(cur, dd) by {
        let j = choose|j: int| 0 <= j < pre.len() && (#[trigger] pre[j]).date == dd;
        if replace || j < pos {
            assert(cur[j].date == dd);
        } else {
            assert(cur[j + 1].date == dd);
        }
    }
    assert(has_date(cur, p.date)) by {
        assert(cur[pos].date == p.date);
    }
    // Each point of the result comes from the last entry naming its date.
    assert forall|j: int| 0 <= j < cur.len() implies from_last_entry(es, k + 1, cur[j]) by {
        if j == pos {
            assert(no_later_date(es, k, k + 1, p.date));
        } else {
            let q = if replace || j < pos {
                pre[j]
            } else {
                pre[j - 1]
            };
            assert(cur[j] == q);
            assert(q.date != p.date) by {
                if replace {
                    if j < pos {
                        assert(date_num(q.date) < date_num(pre[pos].date));
                    } else {
                        assert(date_num(q.date) > date_num(pre[pos].date));
                    }
                } else {
                    if j < pos {
                        assert(date_num(q.date) < date_num(p.date));
                    } else {
                        assert(date_num(q.date) >= date_num(pre[pos].date));
                    }
                }
            }
            assert(from_last_entry(es, k, q));
            let kk = choose|kk: int|
                0 <= kk < k && #[trigger] ep_at(es, kk) == Some(q) && no_later_date(
                    es,
                    kk,
                    k,
                    q.date,
                );
            assert(no_later_date(es, kk, k + 1, q.date));
        }
    }
}

/// Dropping entry `k` (both parses failed, or the price was negative)
/// preserves the builder's invariants.
proof fn lemma_step_dropped(es: Seq<(Seq<u8>, Seq<u8>)>, k: int, s: Seq<PricePoint>)
    requires
        0 <= k < es.len(),
        build_inv(es, k, s),
        ep_at(es, k) is None,
    ensures
        build_inv(es, k + 1, s),
{
    assert forall|j: int| 0 <= j < s.len() implies from_last_entry(es, k + 1, s[j]) by {
        let q = s[j];
        assert(from_last_entry(es, k, q));
        let kk = choose|kk: int|
            0 <= kk < k && #[trigger] ep_at(es, kk) == Some(q) && no_later_date(es, kk, k, q.date);
        assert(no_later_date(es, kk, k + 1, q.date));
    }
}

/// Builds the ordered series from raw entries: every parsed entry's
/// date is present, each point comes from the last entry naming its
/// date, and the result is sorted ascending with no duplicate dates.
pub fn series_from_entries(entries: &Vec<(Vec<u8>, Vec<u8>)>) -> (r: Vec<PricePoint>)
    ensures
        build_inv(entries_view(entries@), entries@.len() as int, r@),
        series_wf(r@),
{
    let n = entries.len();
    let ghost ev = entries_view(entries@);
    let mut out: Vec<PricePoint> = Vec::new();
    let mut k: usize = 0;
    while k < n
        invariant
            n == entries@.len(),
            ev == entries_view(entries@),
            ev.len() == n,
            0 <= k <= n,
            build_inv(ev, k as int, out@),
        decreases n - k,
    {
        let e = &entries[k];
        let pd = Date::parse(&e.0);
        let pc = Decimal::parse(&e.1);
        proof {
            assert(ev[k as int] == (e.0@, e.1@));
        }
        let ghost pre = out@;
        let mut dropped = true;
        match (pd, pc) {
            (Some(d), Some(c)) => {
                if !c.neg {
                    dropped = false;
                    let p = PricePoint { date: d, close: c };
                    proof {
                        lemma_parse_date_wf(e.0@);
                        lemma_parse_dec_wf(e.1@);
                        assert(point_wf(p));
                        assert(ep_at(ev, k as int) == Some(p));
                    }
                    let olen = out.len();
                    let mut pos: usize = 0;
                    while pos < olen && out[pos].date.lt(d)
                        invariant
                            0 <= pos <= olen == out@.len(),
                            out@ == pre,
                            series_wf(out@),
                            point_wf(p),
                            p.date == d,
                            forall|t: int|
                                0 <= t < pos ==> date_num(#[trigger] out@[t].date) < date_num(
                                    p.date,
                                ),
                        decreases olen - pos,
                    {
                        pos = pos + 1;
                    }
                    let replace = pos < olen && out[pos].date == d;
                    proof {
                        if pos < olen && !replace {
                            if date_num(out@[pos as int].date) == date_num(p.date) {
                                lemma_date_num_injective(out@[pos as int].date, p.date);
                            }
                        }
                    }
                    if replace {
                        out.remove(pos);
                        out.insert(pos, p);
                        proof {
                            assert(out@ =~= pre.update(pos as int, p));
                        }
                    } else {
                        out.insert(pos, p);
                    }
                    proof {
                        lemma_step_added(ev, k as int, pre, out@, p, pos as int, replace);
                    }
                }
            },
            _ => {},
        }
        proof {
            if dropped {
                assert(ep_at(ev, k as int) is None);
                lemma_step_dropped(ev, k as int, out@);
            }
        }
        k = k + 1;
    }
    out
}

} // verus!
