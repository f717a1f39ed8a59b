//! Fixed-width decimal digit runs: the numeric layer under the native
//! document format.

use vstd::prelude::*;

verus! {

/// Powers of ten.
pub open spec fn pow10(k: nat) -> nat
    decreases k,
{
    if k == 0 {
        1
    } else {
        10 * pow10((k - 1) as nat)
    }
}

pub open spec fn digit_byte(d: nat) -> u8 {
    (48 + d) as u8
}

/// The last `k` decimal digits of `v`, zero padded, most significant
/// first.
pub open spec fn u64_digits_rec(v: nat, k: nat) -> Seq<u8>
    decreases k,
{
    if k == 0 {
        Seq::empty()
    } else {
        u64_digits_rec(v / 10, (k - 1) as nat).push(digit_byte(v % 10))
    }
}

/// An unsigned number's twenty zero-padded decimal digits.
pub open spec fn u64_digits(v: u64) -> Seq<u8> {
    u64_digits_rec(v as nat, 20)
}

/// The value the decimal digits spell, most significant first.
pub open spec fn fold_digits(s: Seq<u8>) -> int
    decreases s.len(),
{
    if s.len() == 0 {
        0
    } else {
        fold_digits(s.drop_last()) * 10 + (s.last() as int - 48)
    }
}

/// The shape of a fixed-width digit run: `k` bytes, all decimal digits,
/// spelling the value they were produced from.
pub proof fn lemma_u64_digits_shape(v: nat, k: nat)
    requires
        v < pow10(k),
    ensures
        u64_digits_rec(v, k).len() == k,
        forall|i: int| 0 <= i < k ==> 48 <= #[trigger] u64_digits_rec(v, k)[i] <= 57,
        fold_digits(u64_digits_rec(v, k)) == v,
    decreases k,
{
    if k == 0 {
        assert(pow10(0) == 1);
    } else {
        let t = v / 10;
        assert(0 <= v % 10 < 10 && v == (v / 10) * 10 + v % 10) by (nonlinear_arith)
            requires
                v >= 0,
        ;
        assert(t < pow10((k - 1) as nat)) by {
            if t >= pow10((k - 1) as nat) {
                assert(t * 10 >= pow10((k - 1) as nat) * 10) by (nonlinear_arith)
                    requires
                        t >= pow10((k - 1) as nat),
                ;
                assert(pow10(k) == 10 * pow10((k - 1) as nat));
                assert(10 * pow10((k - 1) as nat) == pow10((k - 1) as nat) * 10)
                    by (nonlinear_arith);
                assert(v >= t * 10);
                assert(false);
            }
        }
        lemma_u64_digits_shape(t, (k - 1) as nat);
        let s = u64_digits_rec(v, k);
        assert(s.drop_last() =~= u64_digits_rec(t, (k - 1) as nat));
        assert(s.last() == digit_byte(v % 10));
        assert(forall|i: int| 0 <= i < k ==> 48 <= #[trigger] s[i] <= 57) by {
            assert(forall|i: int|
                0 <= i < k - 1 ==> s[i] == #[trigger] u64_digits_rec(t, (k - 1) as nat)[i]);
        }
        assert(fold_digits(s) == (t as int) * 10 + (v % 10));
    }
}

/// Every `u64` has fewer than twenty-one digits.
pub proof fn lemma_u64_fits_twenty_digits(v: u64)
    ensures
        (v as nat) < pow10(20),
{
    reveal_with_fuel(pow10, 21);
    assert(pow10(20) == 100_000_000_000_000_000_000);
}

/// A digit run's value is bounded by its width.
pub proof fn lemma_fold_digits_bound(s: Seq<u8>)
    requires
        forall|i: int| 0 <= i < s.len() ==> 48 <= #[trigger] s[i] <= 57,
    ensures
        0 <= fold_digits(s) < pow10(s.len() as nat),
    decreases s.len(),
{
    if s.len() == 0 {
        assert(pow10(0) == 1);
    } else {
        assert(forall|i: int| 0 <= i < s.len() - 1 ==> s.drop_last()[i] == #[trigger] s[i]);
        lemma_fold_digits_bound(s.drop_last());
        let p = pow10((s.len() - 1) as nat);
        assert(fold_digits(s.drop_last()) * 10 + 9 < p * 10) by (nonlinear_arith)
            requires
                0 <= fold_digits(s.drop_last()) < p,
        ;
        assert(pow10(s.len() as nat) == 10 * p);
        assert(10 * p == p * 10) by (nonlinear_arith);
    }
}

/// `pow10` is monotone.
pub proof fn lemma_pow10_le(a: nat, b: nat)
    requires
        a <= b,
    ensures
        pow10(a) <= pow10(b),
    decreases b,
{
    if a < b {
        lemma_pow10_le(a, (b - 1) as nat);
        assert(pow10(b) == 10 * pow10((b - 1) as nat));
        assert(10 * pow10((b - 1) as nat) >= pow10((b - 1) as nat)) by (nonlinear_arith)
            requires
                pow10((b - 1) as nat) >= 0,
        ;
    }
}

/// A number's digit run is always twenty bytes wide; stated ambiently so
/// encodings have known widths wherever they appear.
pub broadcast proof fn lemma_u64_digits_len_ambient(v: u64)
    ensures
        (#[trigger] u64_digits(v)).len() == 20,
{
    lemma_u64_fits_twenty_digits(v);
    lemma_u64_digits_shape(v as nat, 20);
}

} // verus!
