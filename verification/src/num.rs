//! Decimal digit strings: the numeric groundwork shared by the date and
//! price formats. A number is rendered and read as a sequence of ASCII
//! digit bytes; these functions tie such sequences to their values.

use vstd::prelude::*;

verus! {

pub open spec fn pow10(n: nat) -> nat
    decreases n,
{
    if n == 0 {
        1
    } else {
        10 * pow10((n - 1) as nat)
    }
}

/// Is this byte an ASCII digit?
pub open spec fn is_digit(b: u8) -> bool {
    48 <= b <= 57
}

/// Every byte of the sequence is an ASCII digit.
pub open spec fn all_digits(s: Seq<u8>) -> bool {
    forall|i: int| 0 <= i < s.len() ==> is_digit(#[trigger] s[i])
}

/// Value of a digit string read in base 10 (leading zeros allowed).
pub open spec fn digits_val(s: Seq<u8>) -> nat
    decreases s.len(),
{
    if s.len() == 0 {
        0
    } else {
        digits_val(s.drop_last()) * 10 + (if is_digit(s.last()) {
            (s.last() - 48) as nat
        } else {
            0
        })
    }
}

/// The digits of `n` without leading zeros; empty for zero.
pub open spec fn digits_of(n: nat) -> Seq<u8>
    decreases n,
{
    if n == 0 {
        seq![]
    } else {
        digits_of(n / 10) + seq![(48 + n % 10) as u8]
    }
}

/// The digits of `n`, zero-padded on the left to exactly `w` digits
/// (keeps only the low `w` digits of `n`).
pub open spec fn fixed_digits(n: nat, w: nat) -> Seq<u8>
    decreases w,
{
    if w == 0 {
        seq![]
    } else {
        fixed_digits(n / 10, (w - 1) as nat) + seq![(48 + n % 10) as u8]
    }
}

pub proof fn lemma_pow10_pos(n: nat)
    ensures
        pow10(n) >= 1,
    decreases n,
{
    if n > 0 {
        lemma_pow10_pos((n - 1) as nat);
    }
}

pub proof fn lemma_pow10_mono(a: nat, b: nat)
    requires
        a <= b,
    ensures
        pow10(a) <= pow10(b),
    decreases b,
{
    if a < b {
        lemma_pow10_mono(a, (b - 1) as nat);
        lemma_pow10_pos((b - 1) as nat);
    }
}

/// Reading a concatenation of digit strings: the left part is shifted by
/// the length of the right part.
pub proof fn lemma_digits_val_append(a: Seq<u8>, b: Seq<u8>)
    ensures
        digits_val(a + b) == digits_val(a) * pow10(b.len()) + digits_val(b),
    decreases b.len(),
{
    if b.len() == 0 {
        assert(a + b =~= a);
        assert(digits_val(b) == 0);
        assert(pow10(0) == 1);
        assert(digits_val(a) * 1 == digits_val(a));
    } else {
        lemma_digits_val_append(a, b.drop_last());
        assert((a + b).drop_last() =~= a + b.drop_last());
        assert((a + b).last() == b.last());
        assert(digits_val(a + b) == (digits_val(a) * pow10((b.len() - 1) as nat) + digits_val(
            b.drop_last(),
        )) * 10 + (if is_digit(b.last()) {
            (b.last() - 48) as nat
        } else {
            0
        })) by {
            assert(digits_val(a + b) == digits_val((a + b).drop_last()) * 10 + (if is_digit(
                (a + b).last(),
            ) {
                ((a + b).last() - 48) as nat
            } else {
                0
            }));
        }
        assert((digits_val(a) * pow10((b.len() - 1) as nat) + digits_val(b.drop_last())) * 10
            == digits_val(a) * pow10(b.len()) + digits_val(b.drop_last()) * 10)
            by (nonlinear_arith)
            requires
                pow10(b.len()) == 10 * pow10((b.len() - 1) as nat),
        ;
        assert(digits_val(b) == digits_val(b.drop_last()) * 10 + (if is_digit(b.last()) {
            (b.last() - 48) as nat
        } else {
            0
        }));
        assert(digits_val(a + b) == digits_val(a) * pow10(b.len()) + digits_val(b));
    }
}

/// A digit string of length `n` reads below `10^n`.
pub proof fn lemma_digits_val_bound(s: Seq<u8>)
    ensures
        digits_val(s) < pow10(s.len()),
    decreases s.len(),
{
    if s.len() == 0 {
    } else {
        lemma_digits_val_bound(s.drop_last());
    }
}

/// `digits_of(n)` is a digit string that reads back as `n`.
pub proof fn lemma_digits_of_val(n: nat)
    ensures
        all_digits(digits_of(n)),
        digits_val(digits_of(n)) == n,
        n > 0 ==> digits_of(n).len() >= 1,
        n > 0 ==> digits_of(n)[0] != 48,
    decreases n,
{
    if n > 0 {
        lemma_digits_of_val(n / 10);
        let s = digits_of(n);
        assert(s.drop_last() =~= digits_of(n / 10));
        assert(s.last() == (48 + n % 10) as u8);
        if n / 10 == 0 {
            assert(s.len() == 1);
            assert(n % 10 == n);
            assert(s[0] == (48 + n % 10) as u8);
        } else {
            assert(s[0] == digits_of(n / 10)[0]);
        }
    }
}

/// `fixed_digits(n, w)` has exactly `w` digits and, when `n < 10^w`,
/// reads back as `n`.
pub proof fn lemma_fixed_digits_val(n: nat, w: nat)
    ensures
        all_digits(fixed_digits(n, w)),
        fixed_digits(n, w).len() == w,
        n < pow10(w) ==> digits_val(fixed_digits(n, w)) == n,
    decreases w,
{
    if w > 0 {
        lemma_fixed_digits_val(n / 10, (w - 1) as nat);
        let s = fixed_digits(n, w);
        assert(s.drop_last() =~= fixed_digits(n / 10, (w - 1) as nat));
        assert(s.last() == (48 + n % 10) as u8);
        if n < pow10(w) {
            assert(n / 10 < pow10((w - 1) as nat)) by (nonlinear_arith)
                requires
                    n < pow10(w),
                    pow10(w) == 10 * pow10((w - 1) as nat),
            ;
        }
    }
}

} // verus!
