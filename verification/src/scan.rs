//! Lenient scanning over raw JSON text: finding the end of a quoted
//! string, skipping whitespace, and skipping over one value of any
//! shape. The quote payload and the predictor's result file arrive as
//! arbitrary bytes; these helpers advance through the parts whose
//! content the pipeline does not use. Each executable scanner is pinned
//! to a spec-level twin, so the parsers built on them can state exactly
//! what a byte string parses to.

use vstd::prelude::*;

verus! {

/// JSON insignificant whitespace.
pub open spec fn is_ws(b: u8) -> bool {
    b == 32 || b == 9 || b == 10 || b == 13
}

/// A byte that ends a bare scalar token.
pub open spec fn is_delim_byte(b: u8) -> bool {
    b == 44 || b == 125 || b == 93 || is_ws(b)
}

/// First index at or after `i` holding a non-whitespace byte (or the
/// end of the input).
pub open spec fn spec_skip_ws(s: Seq<u8>, i: int) -> int
    decreases s.len() - i,
{
    if 0 <= i < s.len() && is_ws(s[i]) {
        spec_skip_ws(s, i + 1)
    } else {
        i
    }
}

/// Index of the closing quote of a string whose opening quote stands at
/// `i`, honouring backslash escapes.
pub open spec fn spec_scan_string(s: Seq<u8>, i: int) -> Option<int> {
    spec_scan_tail(s, i + 1)
}

pub open spec fn spec_scan_tail(s: Seq<u8>, j: int) -> Option<int>
    decreases s.len() - j,
{
    if j < 0 || j >= s.len() {
        None
    } else if s[j] == 34 {
        Some(j)
    } else if s[j] == 92 {
        if s.len() - j < 2 {
            None
        } else {
            spec_scan_tail(s, j + 2)
        }
    } else {
        spec_scan_tail(s, j + 1)
    }
}

/// End of the bare scalar run starting at `j`.
pub open spec fn spec_scalar_end(s: Seq<u8>, j: int) -> int
    decreases s.len() - j,
{
    if 0 <= j < s.len() && !is_delim_byte(s[j]) {
        spec_scalar_end(s, j + 1)
    } else {
        j
    }
}

/// Scan of a brace- or bracket-delimited composite, `depth` levels
/// deep, starting just past the opening byte. Braces and brackets are
/// counted without being matched up, and a nesting counter at the
/// machine limit stops the scan.
pub open spec fn spec_skip_composite(s: Seq<u8>, j: int, depth: int) -> Option<int>
    decreases s.len() - j,
{
    if depth <= 0 {
        Some(j)
    } else if j < 0 || j >= s.len() {
        None
    } else if s[j] == 34 {
        match spec_scan_string(s, j) {
            Some(e) => if e <= j || e + 1 > s.len() {
                None
            } else {
                spec_skip_composite(s, e + 1, depth)
            },
            None => None,
        }
    } else if s[j] == 123 || s[j] == 91 {
        if depth == usize::MAX as int {
            None
        } else {
            spec_skip_composite(s, j + 1, depth + 1)
        }
    } else if s[j] == 125 || s[j] == 93 {
        spec_skip_composite(s, j + 1, depth - 1)
    } else {
        spec_skip_composite(s, j + 1, depth)
    }
}

/// Index just past one JSON value starting at the non-whitespace byte
/// `s[i]`: a string, a composite, or a nonempty bare scalar run.
pub open spec fn spec_skip_value(s: Seq<u8>, i: int) -> Option<int> {
    if i < 0 || i >= s.len() {
        None
    } else if s[i] == 34 {
        match spec_scan_string(s, i) {
            Some(e) => Some(e + 1),
            None => None,
        }
    } else if s[i] == 123 || s[i] == 91 {
        spec_skip_composite(s, i + 1, 1)
    } else {
        if spec_scalar_end(s, i) == i {
            None
        } else {
            Some(spec_scalar_end(s, i))
        }
    }
}

/// The scanned string end lies strictly past the opening quote and
/// within the input.
pub proof fn lemma_scan_tail_bounds(s: Seq<u8>, j: int)
    requires
        spec_scan_tail(s, j) is Some,
    ensures
        j <= spec_scan_tail(s, j)->Some_0 < s.len(),
    decreases s.len() - j,
{
    if 0 <= j < s.len() && s[j] != 34 {
        if s[j] == 92 {
            lemma_scan_tail_bounds(s, j + 2);
        } else {
            lemma_scan_tail_bounds(s, j + 1);
        }
    }
}

pub fn skip_ws(v: &Vec<u8>, i: usize) -> (r: usize)
    requires
        i <= v@.len(),
    ensures
        r == spec_skip_ws(v@, i as int),
        i <= r <= v@.len(),
        r < v@.len() ==> !is_ws(v@[r as int]),
{
    let n = v.len();
    let mut j = i;
    while j < n && (v[j] == 32 || v[j] == 9 || v[j] == 10 || v[j] == 13)
        invariant
            i <= j <= n == v@.len(),
            spec_skip_ws(v@, i as int) == spec_skip_ws(v@, j as int),
        decreases n - j,
    {
        j = j + 1;
    }
    j
}

/// With `v[i]` an opening quote, the index of the matching closing
/// quote; `None` if the string never closes.
pub fn scan_string(v: &Vec<u8>, i: usize) -> (r: Option<usize>)
    requires
        i < v@.len(),
    ensures
        match r {
            Some(e) => i < e < v@.len() && spec_scan_string(v@, i as int) == Some(e as int),
            None => spec_scan_string(v@, i as int) is None,
        },
{
    let n = v.len();
    let mut j = i + 1;
    while j < n
        invariant
            i < j <= n == v@.len(),
            spec_scan_tail(v@, i + 1) == spec_scan_tail(v@, j as int),
        decreases n - j,
    {
        let c = v[j];
        if c == 34 {
            return Some(j);
        }
        if c == 92 {
            if n - j < 2 {
                return None;
            }
            j = j + 2;
        } else {
            j = j + 1;
        }
    }
    None
}

/// Is this byte one that ends a bare scalar token?
pub fn is_delim(b: u8) -> (r: bool)
    ensures
        r == is_delim_byte(b),
{
    b == 44 || b == 125 || b == 93 || b == 32 || b == 9 || b == 10 || b == 13
}

/// End of the bare scalar run starting at `j`.
pub fn scalar_end(v: &Vec<u8>, i: usize) -> (r: usize)
    requires
        i <= v@.len(),
    ensures
        r == spec_scalar_end(v@, i as int),
        i <= r <= v@.len(),
{
    let n = v.len();
    let mut j = i;
    while j < n && !is_delim(v[j])
        invariant
            i <= j <= n == v@.len(),
            spec_scalar_end(v@, i as int) == spec_scalar_end(v@, j as int),
        decreases n - j,
    {
        j = j + 1;
    }
    j
}

/// Skips one JSON value starting at the non-whitespace byte `v[i]`.
/// Yields the index just past the value.
pub fn skip_value(v: &Vec<u8>, i: usize) -> (r: Option<usize>)
    requires
        i < v@.len(),
    ensures
        match r {
            Some(nx) => i < nx <= v@.len() && spec_skip_value(v@, i as int) == Some(nx as int),
            None => spec_skip_value(v@, i as int) is None,
        },
{
    let n = v.len();
    let b = v[i];
    if b == 34 {
        match scan_string(v, i) {
            Some(e) => Some(e + 1),
            None => None,
        }
    } else if b == 123 || b == 91 {
        let mut depth: usize = 1;
        let mut j = i + 1;
        while j < n && depth > 0
            invariant
                i < j <= n == v@.len(),
                v@[i as int] == 123 || v@[i as int] == 91,
                spec_skip_composite(v@, i + 1, 1) == spec_skip_composite(
                    v@,
                    j as int,
                    depth as int,
                ),
            decreases n - j,
        {
            let c = v[j];
            if c == 34 {
                match scan_string(v, j) {
                    Some(e) => {
                        j = e + 1;
                    },
                    None => {
                        proof {
                            assert(spec_skip_value(v@, i as int) is None);
                        }
                        return None;
                    },
                }
            } else if c == 123 || c == 91 {
                if depth == usize::MAX {
                    proof {
                        assert(spec_skip_value(v@, i as int) is None);
                    }
                    return None;
                }
                depth = depth + 1;
                j = j + 1;
            } else if c == 125 || c == 93 {
                depth = depth - 1;
                j = j + 1;
            } else {
                j = j + 1;
            }
        }
        if depth == 0 {
            Some(j)
        } else {
            None
        }
    } else {
        let e = scalar_end(v, i);
        if e == i {
            None
        } else {
            Some(e)
        }
    }
}

} // verus!
