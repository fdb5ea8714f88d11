//! Mathematical model of fixed-width bit arithmetic: bit length, trailing
//! zero count, population count and power-of-two floor over `nat`, with the
//! lemmas that relate them to powers of two.
use vstd::prelude::*;
use vstd::arithmetic::power2::*;
use vstd::arithmetic::div_mod::*;
use vstd::arithmetic::mul::*;

verus! {

/// 1-indexed position of the highest set bit; 0 for 0.
pub open spec fn spec_bit_length(x: nat) -> nat
    decreases x,
{
    if x == 0 {
        0
    } else {
        1 + spec_bit_length(x / 2)
    }
}

/// Number of set bits.
pub open spec fn spec_popcount(x: nat) -> nat
    decreases x,
{
    if x == 0 {
        0
    } else {
        x % 2 + spec_popcount(x / 2)
    }
}

/// Number of trailing zero bits; 0 for 0 (callers treat 0 separately).
pub open spec fn spec_ctz(x: nat) -> nat
    decreases x,
{
    if x == 0 {
        0
    } else if x % 2 == 1 {
        0
    } else {
        1 + spec_ctz(x / 2)
    }
}

/// Largest power of two that is at most `x`; 0 for 0.
pub open spec fn spec_bit_floor(x: nat) -> nat {
    if x == 0 {
        0
    } else {
        pow2((spec_bit_length(x) - 1) as nat)
    }
}

/// Whether `x` is a power of two.
pub open spec fn spec_is_pow2(x: nat) -> bool {
    exists|k: nat| x == pow2(k)
}

/// `a - b`, saturating at 0.
pub open spec fn spec_floor_sub(a: nat, b: nat) -> nat {
    if a >= b {
        (a - b) as nat
    } else {
        0
    }
}

/// A positive value lies between the powers of two that its bit length names.
pub proof fn lemma_bit_length_interval(x: nat)
    requires
        x > 0,
    ensures
        spec_bit_length(x) >= 1,
        pow2((spec_bit_length(x) - 1) as nat) <= x,
        x < pow2(spec_bit_length(x)),
    decreases x,
{
    lemma2_to64();
    reveal_with_fuel(spec_bit_length, 2);
    if x == 1 {
    } else {
        lemma_bit_length_interval(x / 2);
        let bl = spec_bit_length(x / 2);
        lemma_pow2_unfold(bl);
        lemma_pow2_unfold(spec_bit_length(x));
        assert(pow2((bl - 1) as nat) <= x / 2);
        assert(x / 2 < pow2(bl));
        assert(x < 2 * (x / 2) + 2);
        assert(2 * (x / 2) <= x);
    }
}

/// `x < 2^n` bounds the bit length by `n`.
pub proof fn lemma_bit_length_le(x: nat, n: nat)
    requires
        x < pow2(n),
    ensures
        spec_bit_length(x) <= n,
{
    if x > 0 {
        lemma_bit_length_interval(x);
        if spec_bit_length(x) > n {
            lemma_pow2_increases(n, (spec_bit_length(x) - 1) as nat);
            assert(pow2(n) <= pow2((spec_bit_length(x) - 1) as nat));
        }
    }
}

/// Monotone version of `pow2`'s strict growth.
pub proof fn lemma_pow2_increases(e1: nat, e2: nat)
    requires
        e1 <= e2,
    ensures
        pow2(e1) <= pow2(e2),
{
    if e1 < e2 {
        lemma_pow2_strictly_increases(e1, e2);
    }
}

/// The bit length of `2^k` is `k + 1`.
pub proof fn lemma_bit_length_pow2(k: nat)
    ensures
        spec_bit_length(pow2(k)) == k + 1,
    decreases k,
{
    lemma2_to64();
    reveal_with_fuel(spec_bit_length, 2);
    if k == 0 {
    } else {
        lemma_bit_length_pow2((k - 1) as nat);
        lemma_pow2_unfold(k);
        lemma_pow2_pos((k - 1) as nat);
        assert(pow2(k) / 2 == pow2((k - 1) as nat));
    }
}

/// The bit length of `2^k - 1` is `k`.
pub proof fn lemma_bit_length_pow2_minus1(k: nat)
    ensures
        spec_bit_length((pow2(k) - 1) as nat) == k,
    decreases k,
{
    lemma2_to64();
    reveal_with_fuel(spec_bit_length, 2);
    if k == 0 {
    } else if k == 1 {
    } else {
        lemma_bit_length_pow2_minus1((k - 1) as nat);
        lemma_pow2_unfold(k);
        lemma_pow2_pos((k - 1) as nat);
        assert((pow2(k) - 1) as nat / 2 == (pow2((k - 1) as nat) - 1) as nat);
    }
}

/// Bit length is monotone.
pub proof fn lemma_bit_length_mono(x: nat, y: nat)
    requires
        x <= y,
    ensures
        spec_bit_length(x) <= spec_bit_length(y),
{
    if x > 0 {
        lemma_bit_length_interval(x);
        lemma_bit_length_interval(y);
        if spec_bit_length(x) > spec_bit_length(y) {
            lemma_pow2_increases(spec_bit_length(y), (spec_bit_length(x) - 1) as nat);
        }
    }
}

/// Dividing by `2^k` drops exactly `k` from the bit length, saturating at 0.
pub proof fn lemma_bit_length_div_pow2(x: nat, k: nat)
    ensures
        spec_bit_length(x / pow2(k)) == spec_floor_sub(spec_bit_length(x), k),
    decreases k,
{
    lemma2_to64();
    if k == 0 {
        lemma_pow2_unfold(1);
        assert(pow2(0) == 1);
        assert(x / 1 == x) by (nonlinear_arith);
    } else {
        lemma_bit_length_div_pow2(x, (k - 1) as nat);
        lemma_pow2_unfold(k);
        lemma_pow2_pos((k - 1) as nat);
        let p = pow2((k - 1) as nat);
        assert(x / (p * 2) == (x / p) / 2) by {
            lemma_div_denominator(x as int, p as int, 2);
        }
        assert(pow2(k) == 2 * p);
        assert(x / pow2(k) == (x / p) / 2);
        let y = x / p;
        if y == 0 {
            assert(spec_bit_length(0nat) == 0);
        } else {
            assert(spec_bit_length(y / 2) == (spec_bit_length(y) - 1) as nat || (y / 2 == 0
                && spec_bit_length(y) == 1));
        }
    }
}

/// A positive count of set bits.
pub proof fn lemma_popcount_pos(x: nat)
    requires
        x > 0,
    ensures
        spec_popcount(x) >= 1,
    decreases x,
{
    if x % 2 == 0 {
        lemma_popcount_pos(x / 2);
    }
}

/// A value has one set bit exactly when it is a power of two.
pub proof fn lemma_popcount_one_iff_pow2(x: nat)
    requires
        x > 0,
    ensures
        (spec_popcount(x) == 1) == spec_is_pow2(x),
    decreases x,
{
    lemma2_to64();
    reveal_with_fuel(spec_popcount, 2);
    if x == 1 {
        assert(1nat == pow2(0));
    } else if x % 2 == 0 {
        lemma_popcount_one_iff_pow2(x / 2);
        assert(spec_popcount(x) == spec_popcount(x / 2));
        if spec_is_pow2(x / 2) {
            let k = choose|k: nat| x / 2 == pow2(k);
            lemma_pow2_unfold((k + 1) as nat);
            assert(x == 2 * (x / 2));
            assert(x == pow2(k + 1));
        }
        if spec_is_pow2(x) {
            let k = choose|k: nat| x == pow2(k);
            if k == 0 {
                assert(x == 1);
            } else {
                lemma_pow2_unfold(k);
                assert(x / 2 == pow2((k - 1) as nat));
            }
        }
    } else {
        // odd and greater than one: at least two set bits, and not a power of two
        lemma_popcount_pos(x / 2);
        assert(spec_popcount(x) >= 2);
        if spec_is_pow2(x) {
            let k = choose|k: nat| x == pow2(k);
            if k == 0 {
                assert(x == 1);
            } else {
                lemma_pow2_unfold(k);
                lemma_pow2_pos((k - 1) as nat);
                assert(x % 2 == 0);
            }
        }
    }
}

/// The trailing zero count of `2^k` is `k`.
pub proof fn lemma_ctz_pow2(k: nat)
    ensures
        spec_ctz(pow2(k)) == k,
    decreases k,
{
    lemma2_to64();
    if k == 0 {
        assert(spec_ctz(1nat) == 0);
    } else {
        lemma_ctz_pow2((k - 1) as nat);
        lemma_pow2_unfold(k);
        lemma_pow2_pos((k - 1) as nat);
        assert(pow2(k) % 2 == 0) by {
            assert(pow2(k) == 2 * pow2((k - 1) as nat));
        }
        assert(pow2(k) / 2 == pow2((k - 1) as nat));
    }
}

/// The trailing zero count stays below the bit length.
pub proof fn lemma_ctz_lt_bit_length(x: nat)
    requires
        x > 0,
    ensures
        spec_ctz(x) < spec_bit_length(x),
    decreases x,
{
    if x % 2 == 0 {
        lemma_ctz_lt_bit_length(x / 2);
    }
}

/// `n + 1 <= 2^n`.
pub proof fn lemma_succ_le_pow2(n: nat)
    ensures
        n + 1 <= pow2(n),
    decreases n,
{
    lemma2_to64();
    if n > 0 {
        lemma_succ_le_pow2((n - 1) as nat);
        lemma_pow2_unfold(n);
    }
}

/// The bit floor never exceeds its argument and is itself a power of two.
pub proof fn lemma_bit_floor_le(x: nat)
    requires
        x > 0,
    ensures
        1 <= spec_bit_floor(x) <= x,
        spec_is_pow2(spec_bit_floor(x)),
        spec_bit_floor(x) == pow2((spec_bit_length(x) - 1) as nat),
{
    lemma_bit_length_interval(x);
    lemma_pow2_pos((spec_bit_length(x) - 1) as nat);
}

/// Applying the bit floor twice changes nothing.
pub proof fn lemma_bit_floor_idempotent(x: nat)
    ensures
        spec_bit_floor(spec_bit_floor(x)) == spec_bit_floor(x),
{
    if x > 0 {
        lemma_bit_floor_le(x);
        let k = (spec_bit_length(x) - 1) as nat;
        lemma_bit_length_pow2(k);
        assert(spec_bit_floor(pow2(k)) == pow2(k));
    }
}

/// A power of two divided by a smaller power of two is the power of the
/// difference; by a larger one, zero.
pub proof fn lemma_pow2_div(s: nat, k: nat)
    ensures
        k <= s ==> pow2(s) / pow2(k) == pow2((s - k) as nat),
        k > s ==> pow2(s) / pow2(k) == 0,
{
    lemma_pow2_pos(k);
    if k <= s {
        lemma_pow2_adds((s - k) as nat, k);
        lemma_div_by_multiple(pow2((s - k) as nat) as int, pow2(k) as int);
    } else {
        lemma_pow2_strictly_increases(s, k);
        lemma_basic_div(pow2(s) as int, pow2(k) as int);
    }
}

/// A power of two has exactly one set bit.
pub proof fn lemma_popcount_pow2(k: nat)
    ensures
        spec_popcount(pow2(k)) == 1,
    decreases k,
{
    lemma2_to64();
    reveal_with_fuel(spec_popcount, 2);
    if k > 0 {
        lemma_popcount_pow2((k - 1) as nat);
        lemma_pow2_unfold(k);
        lemma_pow2_pos((k - 1) as nat);
        assert(pow2(k) % 2 == 0) by {
            assert(pow2(k) == 2 * pow2((k - 1) as nat));
        }
        assert(pow2(k) / 2 == pow2((k - 1) as nat));
    }
}

/// The popcount never exceeds the bit length.
pub proof fn lemma_popcount_le_bit_length(x: nat)
    ensures
        spec_popcount(x) <= spec_bit_length(x),
    decreases x,
{
    if x > 0 {
        lemma_popcount_le_bit_length(x / 2);
    }
}

/// The bit lengths of the four supported widths.
pub proof fn lemma_bit_length_of_widths()
    ensures
        spec_bit_length(8) == 4,
        spec_bit_length(16) == 5,
        spec_bit_length(32) == 6,
        spec_bit_length(64) == 7,
{
    reveal_with_fuel(spec_bit_length, 8);
}

/// Incrementing turns the trailing ones into zeros and sets one bit: the
/// popcount drops by the trailing zero count of the successor, less one.
pub proof fn lemma_popcount_succ(y: nat)
    ensures
        spec_popcount(y + 1) + spec_ctz(y + 1) == spec_popcount(y) + 1,
    decreases y,
{
    reveal_with_fuel(spec_popcount, 2);
    reveal_with_fuel(spec_ctz, 2);
    if y % 2 == 0 {
        assert((y + 1) / 2 == y / 2);
    } else {
        lemma_popcount_succ(y / 2);
        assert((y + 1) / 2 == y / 2 + 1);
        assert(spec_popcount(y + 1) == spec_popcount(y / 2 + 1));
        assert(spec_ctz(y + 1) == 1 + spec_ctz(y / 2 + 1));
        assert(spec_popcount(y) == 1 + spec_popcount(y / 2));
    }
}

/// Subtracting from a power of two preserves the trailing zero count.
pub proof fn lemma_ctz_pow2_minus(k: nat, x: nat)
    requires
        0 < x < pow2(k),
    ensures
        spec_ctz((pow2(k) - x) as nat) == spec_ctz(x),
    decreases k,
{
    lemma2_to64();
    lemma_pow2_pos(k);
    assert(k >= 1) by {
        if k == 0 {
            assert(pow2(0) == 1);
        }
    }
    lemma_pow2_unfold(k);
    let d = (pow2(k) - x) as nat;
    if x % 2 == 1 {
        assert(d % 2 == 1);
    } else {
        assert(d % 2 == 0);
        assert(d > 0);
        assert(d / 2 == (pow2((k - 1) as nat) - x / 2) as nat);
        assert(0 < x / 2 < pow2((k - 1) as nat));
        lemma_ctz_pow2_minus((k - 1) as nat, x / 2);
    }
}

/// Multiplying by a power of two does not change the popcount.
pub proof fn lemma_popcount_mul_pow2(c: nat, m: nat)
    ensures
        spec_popcount(pow2(c) * m) == spec_popcount(m),
    decreases c,
{
    lemma2_to64();
    if c == 0 {
        assert(pow2(0) * m == m);
    } else {
        lemma_popcount_mul_pow2((c - 1) as nat, m);
        lemma_pow2_unfold(c);
        let y = pow2((c - 1) as nat) * m;
        assert(pow2(c) * m == 2 * y) by (nonlinear_arith)
            requires
                pow2(c) == 2 * pow2((c - 1) as nat),
                y == pow2((c - 1) as nat) * m,
        ;
        if y == 0 {
        } else {
            assert((2 * y) % 2 == 0);
            assert((2 * y) / 2 == y);
            assert(spec_popcount(2 * y) == spec_popcount(y));
        }
    }
}

/// `2^e - e` grows with `e`.
pub proof fn lemma_pow2_minus_linear_mono(a: nat, b: nat)
    requires
        a <= b,
    ensures
        pow2(a) + b <= pow2(b) + a,
    decreases b - a,
{
    if a < b {
        lemma_pow2_minus_linear_mono(a, (b - 1) as nat);
        lemma_pow2_unfold(b);
        lemma_succ_le_pow2((b - 1) as nat);
    }
}

/// The popcount of `3 * 2^c + 1` is 3, for positive `c`.
pub proof fn lemma_popcount_3pow2_plus1(c: nat)
    requires
        c >= 1,
    ensures
        spec_popcount(3 * pow2(c) + 1) == 3,
{
    lemma2_to64();
    lemma_pow2_unfold(c);
    lemma_pow2_pos((c - 1) as nat);
    let m = 3 * pow2((c - 1) as nat);
    assert(3 * pow2(c) == 2 * m) by (nonlinear_arith)
        requires
            pow2(c) == 2 * pow2((c - 1) as nat),
            m == 3 * pow2((c - 1) as nat),
    ;
    assert((2 * m + 1) % 2 == 1);
    assert((2 * m + 1) / 2 == m);
    assert(spec_popcount(2 * m + 1) == 1 + spec_popcount(m));
    lemma_popcount_mul_pow2((c - 1) as nat, 3);
    assert(spec_popcount(3) == 2) by {
        reveal_with_fuel(spec_popcount, 3);
    }
}

/// A value strictly between a power of two and its double has at least two
/// set bits.
pub proof fn lemma_popcount_between_pow2(k: nat, x: nat)
    requires
        pow2(k) < x < pow2(k + 1),
    ensures
        spec_popcount(x) >= 2,
    decreases k,
{
    lemma2_to64();
    lemma_pow2_unfold(k + 1);
    if k == 0 {
        assert(x < 2);
        assert(false);
    } else {
        lemma_pow2_unfold(k);
        lemma_pow2_pos((k - 1) as nat);
        if x % 2 == 1 {
            // odd: the low bit plus some bit at or above position k
            lemma_pow2_pos(k);
            assert(x / 2 >= pow2(k) / 2);
            assert(x / 2 > 0);
            lemma_popcount_pos(x / 2);
        } else {
            assert(x / 2 > pow2((k - 1) as nat) || x / 2 == pow2((k - 1) as nat));
            if x / 2 == pow2((k - 1) as nat) {
                assert(x == 2 * (x / 2));
                assert(x == pow2(k));
                assert(false);
            }
            assert(x / 2 < pow2(k)) by {
                assert(x < 2 * pow2(k));
            }
            lemma_popcount_between_pow2((k - 1) as nat, x / 2);
        }
    }
}

} // verus!
