//! Tilted curation: site assignment that biases retention density toward
//! recent history, exponentially coarsening older history. Capacity is
//! bounded by a horizon of `2^S - 1` ingest steps.
use vstd::prelude::*;
use vstd::arithmetic::power2::*;
use vstd::arithmetic::div_mod::*;
use vstd::arithmetic::mul::*;

use crate::_auxlib as aux;
use crate::_auxlib::UnsignedTrait;
use crate::bitmath::spec_bit_length;
use crate::bitmath::spec_bit_floor;
use crate::bitmath::spec_popcount;
use crate::bitmath::spec_is_pow2;
use crate::bitmath::spec_floor_sub;
use crate::bitmath::lemma_bit_length_le;
use crate::bitmath::lemma_ctz_lt_bit_length;
use crate::bitmath::lemma_bit_length_interval;
use crate::bitmath::lemma_bit_length_mono;
use crate::bitmath::lemma_bit_length_pow2;
use crate::bitmath::lemma_bit_length_of_widths;
use crate::bitmath::lemma_bit_floor_le;
use crate::bitmath::spec_ctz;
use crate::bitmath::lemma_bit_length_div_pow2;
use crate::bitmath::lemma_popcount_succ;
use crate::bitmath::lemma_popcount_3pow2_plus1;
use crate::bitmath::lemma_pow2_minus_linear_mono;
use crate::bitmath::lemma_ctz_pow2_minus;
use crate::bitmath::lemma_popcount_mul_pow2;
use crate::bitmath::lemma_popcount_pos;
use crate::bitmath::lemma_popcount_pow2;
use crate::bitmath::lemma_popcount_le_bit_length;
use crate::bitmath::lemma_popcount_one_iff_pow2;
use crate::bitmath::lemma_popcount_between_pow2;
use crate::bitmath::lemma_pow2_div;
use crate::bitmath::lemma_pow2_increases;
use crate::bitmath::lemma_succ_le_pow2;
use crate::dstream::quantities::spec_capacity_log2;
use crate::dstream::quantities::spec_epoch;
use crate::dstream::quantities::spec_hanoi_value;
use crate::dstream::quantities::spec_incidence;
use crate::dstream::quantities::lemma_capacity_pow2;
use crate::dstream::quantities::lemma_hanoi_le;
use crate::dstream::quantities::lemma_hanoi_wrap;
use crate::dstream::_algo_traits::AssignStorageSiteTrait;
use crate::dstream::_algo_traits::HasIngestCapacityTrait;

verus! {

/// Tilted capacity: the buffer size must be a power of two greater than 1,
/// and the time must stay below the designed horizon of `2^S - 1`.
pub open spec fn spec_tilted_has_capacity(cap: nat, time: nat) -> bool {
    cap > 1 && spec_is_pow2(cap) && time + 1 < pow2(cap)
}

/// The current meta-epoch `tau`.
pub open spec fn spec_tilted_tau(cap: nat, time: nat) -> nat {
    let ep = spec_epoch(cap, time);
    let blt = spec_bit_length(ep);
    let eps_tau: nat = if 2 * spec_bit_floor(ep) > ep + blt {
        1
    } else {
        0
    };
    spec_floor_sub(blt, eps_tau)
}

/// How many bunches are available to the current hanoi value (`B`).
pub open spec fn spec_tilted_bunch_count(cap: nat, time: nat) -> nat {
    let tau = spec_tilted_tau(cap, time);
    let t0 = spec_floor_sub(pow2(tau), tau);
    let t1 = spec_floor_sub(pow2(tau + 1), tau + 1);
    let ep = spec_epoch(cap, time);
    let h = spec_hanoi_value(time);
    let eps_b: nat = if ep < h + t0 && h + t0 < t1 {
        1
    } else {
        0
    };
    let q = cap / pow2(spec_floor_sub(tau + 1, eps_b));
    if q >= 1 {
        q
    } else {
        1
    }
}

/// Logical bunch index (`b_l`): in order filled.
pub open spec fn spec_tilted_logical_bunch(cap: nat, time: nat) -> nat {
    spec_incidence(time) % spec_tilted_bunch_count(cap, time)
}

/// Physical bunch index (`b_p`): in left-to-right buffer order.
pub open spec fn spec_tilted_physical_bunch(cap: nat, time: nat) -> nat {
    let lb = spec_tilted_logical_bunch(cap, time);
    let v = spec_bit_length(lb);
    let wd = if v > 0 {
        cap / pow2(v)
    } else {
        0
    };
    let off = wd / 2;
    let p = spec_floor_sub(lb, spec_bit_floor(lb));
    off + wd * p
}

/// The tilted site function: the base slot of the physical bunch plus the
/// hanoi value as the within-bunch offset.
pub open spec fn spec_tilted_site_raw(cap: nat, time: nat) -> nat {
    let lb = spec_tilted_logical_bunch(cap, time);
    let bp = spec_tilted_physical_bunch(cap, time);
    let eps_kb: nat = if lb > 0 {
        1
    } else {
        0
    };
    let kb = spec_floor_sub(2 * bp + spec_popcount(spec_floor_sub(2 * cap, bp)), 1 + eps_kb);
    kb + spec_hanoi_value(time)
}

/// Bounds on every intermediate quantity of the tilted site computation:
/// the bunch count is a power of two taking at most half the buffer, the
/// physical bunch index stays below half the buffer, and the base-slot
/// subtraction never underflows.
pub proof fn lemma_tilted_site_bounds(cap: nat, time: nat)
    requires
        spec_tilted_has_capacity(cap, time),
    ensures
        spec_is_pow2(spec_tilted_bunch_count(cap, time)),
        1 <= spec_tilted_bunch_count(cap, time),
        2 * spec_tilted_bunch_count(cap, time) <= cap,
        spec_tilted_logical_bunch(cap, time) < spec_tilted_bunch_count(cap, time),
        spec_bit_length(spec_tilted_logical_bunch(cap, time)) + 1 <= spec_capacity_log2(cap),
        2 * spec_tilted_physical_bunch(cap, time) < cap,
        spec_tilted_logical_bunch(cap, time) == 0 ==> spec_tilted_physical_bunch(cap, time) == 0,
        spec_tilted_logical_bunch(cap, time) > 0 ==> 1 <= spec_tilted_physical_bunch(cap, time),
        1 <= spec_popcount(
            spec_floor_sub(2 * cap, spec_tilted_physical_bunch(cap, time)),
        ) <= spec_capacity_log2(cap) + 2,
        spec_tilted_logical_bunch(cap, time) > 0 ==> 2 <= spec_popcount(
            spec_floor_sub(2 * cap, spec_tilted_physical_bunch(cap, time)),
        ),
        spec_tilted_site_raw(cap, time) + 1 + (if spec_tilted_logical_bunch(cap, time) > 0 {
            1nat
        } else {
            0nat
        }) == 2 * spec_tilted_physical_bunch(cap, time) + spec_popcount(
            spec_floor_sub(2 * cap, spec_tilted_physical_bunch(cap, time)),
        ) + spec_hanoi_value(time),
        spec_tilted_site_raw(cap, time) <= cap + spec_capacity_log2(cap) + spec_hanoi_value(time),
        spec_hanoi_value(time) < cap,
        spec_tilted_logical_bunch(cap, time) == 0 ==> spec_tilted_site_raw(cap, time)
            == spec_hanoi_value(time) < cap,
{
    let s = spec_capacity_log2(cap);
    lemma_capacity_pow2(cap);
    lemma2_to64();
    // the hanoi value stays inside the buffer while capacity lasts
    lemma_bit_length_le(time + 1, cap);
    lemma_ctz_lt_bit_length(time + 1);
    let ep = spec_epoch(cap, time);
    let tau = spec_tilted_tau(cap, time);
    let t0 = spec_floor_sub(pow2(tau), tau);
    let t1 = spec_floor_sub(pow2(tau + 1), tau + 1);
    let h = spec_hanoi_value(time);
    let eps_b: nat = if ep < h + t0 && h + t0 < t1 {
        1
    } else {
        0
    };
    lemma_succ_le_pow2(tau);
    lemma_succ_le_pow2(tau + 1);
    if tau == 0 {
        assert(t0 == 1);
        assert(t1 == 1);
        assert(eps_b == 0);
    }
    let sh = spec_floor_sub(tau + 1, eps_b);
    assert(sh >= 1);
    let bcnt = spec_tilted_bunch_count(cap, time);
    lemma_pow2_div(s, sh);
    lemma_pow2_unfold(s);
    if sh <= s {
        lemma_pow2_pos((s - sh) as nat);
        assert(bcnt == pow2((s - sh) as nat));
        lemma_pow2_increases((s - sh) as nat, (s - 1) as nat);
    } else {
        assert(cap / pow2(sh) == 0);
        assert(bcnt == 1);
        assert(1nat == pow2(0));
        lemma_pow2_increases(0, (s - 1) as nat);
    }
    assert(bcnt <= pow2((s - 1) as nat));
    let lb = spec_tilted_logical_bunch(cap, time);
    assert(lb < bcnt);
    let v = spec_bit_length(lb);
    lemma_pow2_strictly_increases((s - 1) as nat, s);
    lemma_bit_length_le(lb, (s - 1) as nat);
    let bp = spec_tilted_physical_bunch(cap, time);
    if lb == 0 {
        assert(v == 0);
        assert(bp == 0);
        assert(2 * cap == pow2(s + 1)) by {
            lemma_pow2_unfold(s + 1);
        }
        lemma_popcount_pow2(s + 1);
        assert(spec_popcount(spec_floor_sub(2 * cap, 0)) == 1);
    } else {
        lemma_bit_length_interval(lb);
        assert(1 <= v <= s - 1);
        lemma_pow2_div(s, v);
        let wd = cap / pow2(v);
        assert(wd == pow2((s - v) as nat));
        lemma_pow2_unfold((s - v) as nat);
        let off = pow2((s - v - 1) as nat);
        assert(wd / 2 == off) by {
            lemma_div_multiples_vanish(off as int, 2);
        }
        lemma_pow2_pos((s - v - 1) as nat);
        let p = spec_floor_sub(lb, spec_bit_floor(lb));
        lemma_bit_floor_le(lb);
        let halfv = pow2((v - 1) as nat);
        assert(spec_bit_floor(lb) == halfv);
        lemma_pow2_unfold(v);
        assert(lb < pow2(v));
        assert(p <= halfv - 1);
        assert(bp == off + wd * p);
        assert(wd * p <= wd * ((halfv - 1) as nat)) by {
            lemma_mul_inequality(p as int, (halfv - 1) as int, wd as int);
            lemma_mul_is_commutative(p as int, wd as int);
            lemma_mul_is_commutative((halfv - 1) as int, wd as int);
        }
        assert(wd * halfv == pow2((s - 1) as nat)) by {
            lemma_pow2_adds((s - v) as nat, (v - 1) as nat);
        }
        assert(wd * ((halfv - 1) as nat) == pow2((s - 1) as nat) - wd) by {
            lemma_mul_is_distributive_sub(wd as int, halfv as int, 1);
        }
        assert(2 * off == wd);
        assert(2 * bp <= 2 * off + 2 * (pow2((s - 1) as nat) - wd));
        assert(2 * pow2((s - 1) as nat) == cap);
        assert(2 * bp <= cap - wd);
        lemma_pow2_pos((s - v) as nat);
        assert(2 * bp < cap);
        assert(bp >= 1);
        // with a bunch strictly inside the first half, the slot count keeps
        // at least two set bits
        let x = spec_floor_sub(2 * cap, bp);
        assert(2 * cap == pow2(s + 1)) by {
            lemma_pow2_unfold(s + 1);
        }
        assert(pow2(s) < x < pow2(s + 1));
        lemma_popcount_between_pow2(s, x);
    }
    let x = spec_floor_sub(2 * cap, bp);
    assert(x >= 1);
    lemma_popcount_pos(x);
    lemma_popcount_le_bit_length(x);
    assert(2 * cap == pow2(s + 1)) by {
        lemma_pow2_unfold(s + 1);
    }
    lemma_bit_length_mono(x, pow2(s + 1));
    lemma_bit_length_pow2(s + 1);
    assert(spec_popcount(x) <= s + 2);
    let eps_kb: nat = if lb > 0 {
        1
    } else {
        0
    };
    assert(2 * bp + spec_popcount(x) >= 1 + eps_kb);
    assert(spec_tilted_site_raw(cap, time) == 2 * bp + spec_popcount(x) - 1 - eps_kb + h);
}

/// The running layout total `2 b + popcount(2 cap - b)`: two more than the
/// base slot of the bunch at physical index `b`, for `b >= 1`.
pub open spec fn spec_tilted_layout_prefix(cap: nat, b: nat) -> nat {
    2 * b + spec_popcount(spec_floor_sub(2 * cap, b))
}

/// Stepping to the next physical bunch advances the layout by that bunch's
/// size, one more than its trailing zero count.
proof fn lemma_tilted_layout_step(cap: nat, b: nat)
    requires
        cap >= 2,
        spec_is_pow2(cap),
        1 <= b < cap,
    ensures
        spec_tilted_layout_prefix(cap, b + 1) == spec_tilted_layout_prefix(cap, b) + 1 + spec_ctz(
            b,
        ),
{
    lemma_capacity_pow2(cap);
    let s = spec_capacity_log2(cap);
    assert(2 * cap == pow2(s + 1)) by {
        lemma_pow2_unfold(s + 1);
    }
    let y = (2 * cap - b - 1) as nat;
    lemma_popcount_succ(y);
    lemma_ctz_pow2_minus(s + 1, b);
    assert(spec_floor_sub(2 * cap, b) == y + 1);
    assert(spec_floor_sub(2 * cap, b + 1) == y);
    assert(spec_ctz((y + 1) as nat) == spec_ctz(b));
}

/// The layout total is monotone.
proof fn lemma_tilted_layout_mono(cap: nat, a: nat, b: nat)
    requires
        cap >= 2,
        spec_is_pow2(cap),
        1 <= a <= b <= cap / 2,
    ensures
        spec_tilted_layout_prefix(cap, a) <= spec_tilted_layout_prefix(cap, b),
    decreases b - a,
{
    if a < b {
        lemma_tilted_layout_step(cap, a);
        lemma_tilted_layout_mono(cap, a + 1, b);
    }
}

/// The meta-epoch brackets the epoch: the correction `eps_tau` places every
/// epoch `t >= 1` inside `[2^tau - tau, 2^(tau+1) - (tau+1))`.
proof fn lemma_tilted_meta_epoch_brackets(cap: nat, time: nat)
    ensures
        ({
            let ep = spec_epoch(cap, time);
            let tau = spec_tilted_tau(cap, time);
            ep + tau + 1 < pow2(tau + 1) && (ep >= 1 ==> pow2(tau) <= ep + tau)
        }),
{
    let ep = spec_epoch(cap, time);
    let blt = spec_bit_length(ep);
    let tau = spec_tilted_tau(cap, time);
    lemma2_to64();
    if ep == 0 {
        assert(blt == 0);
        assert(spec_bit_floor(0nat) == 0);
        assert(tau == 0);
    } else {
        lemma_bit_length_interval(ep);
        lemma_bit_floor_le(ep);
        assert(spec_bit_floor(ep) == pow2((blt - 1) as nat));
        lemma_succ_le_pow2((blt - 1) as nat);
        if 2 * spec_bit_floor(ep) > ep + blt {
            // eps_tau = 1: the correction's own condition is the upper bracket
            assert(tau == blt - 1);
            lemma_pow2_unfold(blt);
            assert(ep + blt < 2 * pow2((blt - 1) as nat));
            assert(pow2(tau) <= ep);
        } else {
            // eps_tau = 0: the failed condition is the lower bracket
            assert(tau == blt);
            lemma_pow2_unfold(blt);
            assert(pow2(blt) <= ep + blt);
            assert(ep < pow2(blt));
            lemma_pow2_unfold(blt + 1);
            lemma_succ_le_pow2(blt);
        }
    }
}

/// The tilted placement always lands strictly inside the buffer: the hanoi
/// value never reaches past the slots that remain after its bunch's base,
/// because the meta-epoch machinery caps the epoch each bunch depth serves.
pub proof fn lemma_tilted_site_in_range(cap: nat, time: nat)
    requires
        spec_tilted_has_capacity(cap, time),
    ensures
        spec_tilted_site_raw(cap, time) < cap,
{
    lemma_tilted_site_bounds(cap, time);
    lemma_capacity_pow2(cap);
    lemma2_to64();
    let s = spec_capacity_log2(cap);
    let h = spec_hanoi_value(time);
    let i = spec_incidence(time);
    let lb = spec_tilted_logical_bunch(cap, time);
    if lb > 0 {
        let bcnt = spec_tilted_bunch_count(cap, time);
        let ep = spec_epoch(cap, time);
        let blt_time = spec_bit_length(time);
        assert(blt_time <= s + ep);
        // the bunch depth and the hanoi value together spend the bit length
        // of the time
        lemma_pow2_pos(h + 1);
        lemma_mod_decreases(i, bcnt);
        assert(i > 0);
        lemma_bit_length_div_pow2(time, h + 1);
        assert(spec_bit_length(i) >= 1) by {
            lemma_bit_length_interval(i);
        }
        assert(blt_time >= h + 2);
        assert(spec_bit_length(i) == blt_time - h - 1);
        let v = spec_bit_length(lb);
        lemma_bit_length_mono(lb, i);
        assert(1 <= v <= s - 1);
        let e = (s - v) as nat;
        assert(h + v + 1 <= s + ep);
        // the meta-epoch machinery: the depth on offer is capped by the
        // bunch count, and the epoch by the meta-epoch bracket
        let tau = spec_tilted_tau(cap, time);
        let t0 = spec_floor_sub(pow2(tau), tau);
        let t1 = spec_floor_sub(pow2(tau + 1), tau + 1);
        let eps_b: nat = if ep < h + t0 && h + t0 < t1 {
            1
        } else {
            0
        };
        let sh = spec_floor_sub(tau + 1, eps_b);
        lemma_succ_le_pow2(tau);
        lemma_succ_le_pow2(tau + 1);
        if tau == 0 {
            assert(t0 == 1);
            assert(t1 == 1);
            assert(eps_b == 0);
        }
        assert(sh >= 1);
        lemma_tilted_meta_epoch_brackets(cap, time);
        // the logical bunch stays below the bunch count, bounding the depth
        assert(sh <= s) by {
            if sh > s {
                lemma_pow2_div(s, sh);
                assert(bcnt == 1);
            }
        }
        lemma_pow2_div(s, sh);
        assert(bcnt == pow2((s - sh) as nat)) by {
            lemma_pow2_pos((s - sh) as nat);
        }
        lemma_bit_length_le(lb, (s - sh) as nat);
        assert(v <= s - sh);
        assert(sh <= e);
        // the hanoi value fits the room its bunch depth leaves
        lemma_pow2_minus_linear_mono(sh, e);
        if eps_b == 1 {
            assert(tau >= 1);
            assert(sh == tau);
            lemma_pow2_unfold(tau + 1);
            assert(h + (pow2(tau) - tau) < pow2(tau + 1) - (tau + 1));
            assert(h + 1 < pow2(tau));
            lemma_pow2_increases(tau, e);
            assert(h + 2 <= pow2(e));
        } else {
            assert(sh == tau + 1);
            assert(ep + sh < pow2(sh));
            assert(h <= ep + e - 1);
            assert(h + 2 <= pow2(e));
        }
        // the physical bunch is an odd multiple of half its spacing; the
        // last such multiple below the half-buffer mark bounds them all
        let bp = spec_tilted_physical_bunch(cap, time);
        lemma_pow2_div(s, v);
        let wd = cap / pow2(v);
        assert(wd == pow2(e));
        lemma_pow2_unfold(e);
        let off = pow2((e - 1) as nat);
        assert(wd / 2 == off) by {
            lemma_div_multiples_vanish(off as int, 2);
        }
        let p = spec_floor_sub(lb, spec_bit_floor(lb));
        assert(bp == off + wd * p);
        assert(bp == pow2((e - 1) as nat) * (2 * p + 1)) by (nonlinear_arith)
            requires
                bp == off + wd * p,
                wd == 2 * off,
                off == pow2((e - 1) as nat),
        ;
        lemma_pow2_unfold(s);
        assert(cap / 2 == pow2((s - 1) as nat)) by {
            lemma_div_multiples_vanish(pow2((s - 1) as nat) as int, 2);
        }
        assert(2 * bp < cap);
        lemma_pow2_adds((e - 1) as nat, (s - e) as nat);
        assert(2 * p + 1 < pow2((s - e) as nat)) by (nonlinear_arith)
            requires
                bp == pow2((e - 1) as nat) * (2 * p + 1),
                bp < pow2((s - 1) as nat),
                pow2((s - 1) as nat) == pow2((e - 1) as nat) * pow2((s - e) as nat),
                pow2((e - 1) as nat) >= 1,
        ;
        assert(pow2((s - e) as nat) % 2 == 0) by {
            lemma_pow2_unfold((s - e) as nat);
        }
        assert(2 * p + 1 <= pow2((s - e) as nat) - 1);
        let blast = (pow2((s - 1) as nat) - pow2((e - 1) as nat)) as nat;
        assert(bp <= blast) by (nonlinear_arith)
            requires
                bp == pow2((e - 1) as nat) * (2 * p + 1),
                2 * p + 1 <= pow2((s - e) as nat) - 1,
                pow2((s - 1) as nat) == pow2((e - 1) as nat) * pow2((s - e) as nat),
                blast == pow2((s - 1) as nat) - pow2((e - 1) as nat),
        ;
        // the layout total at that last bunch, computed directly
        lemma_pow2_increases((e - 1) as nat, (s - 1) as nat);
        lemma_pow2_pos((e - 1) as nat);
        assert(spec_floor_sub(2 * cap, blast) == 3 * pow2((s - 1) as nat) + pow2((e - 1) as nat));
        assert(3 * pow2((s - 1) as nat) + pow2((e - 1) as nat) == pow2((e - 1) as nat) * (3 * pow2(
            (s - e) as nat,
        ) + 1)) by (nonlinear_arith)
            requires
                pow2((s - 1) as nat) == pow2((e - 1) as nat) * pow2((s - e) as nat),
        ;
        lemma_popcount_mul_pow2((e - 1) as nat, 3 * pow2((s - e) as nat) + 1);
        lemma_popcount_3pow2_plus1((s - e) as nat);
        assert(spec_popcount(spec_floor_sub(2 * cap, blast)) == 3);
        assert(2 * blast == cap - pow2(e)) by {
            lemma_pow2_unfold(e);
        }
        assert(spec_tilted_layout_prefix(cap, blast) == cap + 3 - pow2(e));
        // monotonicity carries the bound back to the actual bunch
        assert(blast <= cap / 2);
        assert(bp >= 1);
        lemma_tilted_layout_mono(cap, bp, blast);
        assert(spec_tilted_layout_prefix(cap, bp) <= cap + 3 - pow2(e));
        assert(spec_tilted_site_raw(cap, time) + 2 == spec_tilted_layout_prefix(cap, bp) + h);
    }
}

/// Characterization of the implemented capacity test: accounting for the
/// wraparound correction at the maximum representable time, the computed
/// condition holds exactly when the time stays below the horizon `2^cap - 1`.
proof fn lemma_tilted_capacity_cond(w: nat, cap: nat, time: nat)
    requires
        2 <= cap < pow2(w),
        time < pow2(w),
        w >= 8,
    ensures
        ({
            let eps: nat = if time + 1 == pow2(w) {
                1
            } else {
                0
            };
            let q: nat = if (cap - eps) as nat >= w {
                0
            } else {
                ((time - eps + 1) as nat) / pow2((cap - eps) as nat)
            };
            (q == 0) == (time + 1 < pow2(cap))
        }),
{
    let eps: nat = if time + 1 == pow2(w) {
        1
    } else {
        0
    };
    if eps == 0 {
        assert(time + 1 < pow2(w));
        if cap >= w {
            lemma_pow2_increases(w, cap);
        } else {
            lemma_pow2_pos(cap);
            if time + 1 < pow2(cap) {
                lemma_basic_div((time + 1) as int, pow2(cap) as int);
            } else {
                lemma_div_non_zero((time + 1) as int, pow2(cap) as int);
            }
        }
    } else {
        assert(time == pow2(w) - 1);
        if (cap - 1) as nat >= w {
            assert(cap > w);
            lemma_pow2_strictly_increases(w, cap);
        } else {
            lemma_pow2_pos((cap - 1) as nat);
            if time < pow2((cap - 1) as nat) {
                // the horizon check passes only when the width fits under it
                lemma_basic_div(time as int, pow2((cap - 1) as nat) as int);
                assert(pow2(w) <= pow2((cap - 1) as nat));
                if w > (cap - 1) as nat {
                    lemma_pow2_strictly_increases((cap - 1) as nat, w);
                }
                assert(w <= cap - 1);
                lemma_pow2_strictly_increases(w, cap);
            } else {
                lemma_div_non_zero(time as int, pow2((cap - 1) as nat) as int);
                assert(pow2((cap - 1) as nat) <= time);
                if time + 1 < pow2(cap) {
                    assert(pow2(w) < pow2(cap));
                    if cap <= w {
                        lemma_pow2_increases(cap, w);
                    }
                    assert(w < cap);
                    lemma_pow2_increases(w, (cap - 1) as nat);
                    assert(pow2(w) <= pow2((cap - 1) as nat));
                    assert(time < pow2(w));
                    assert(false);
                }
            }
        }
    }
}

/// Does this algorithm have the capacity to ingest a data item at logical
/// time `T`, into a buffer of `S` sites? Capacity holds while `T` stays
/// below the horizon of `2^S - 1` ingest steps.
#[allow(non_snake_case)]
pub fn has_ingest_capacity<Uint: UnsignedTrait>(S: Uint, T: Uint) -> (r: bool)
    ensures
        r == spec_tilted_has_capacity(S.as_nat(), T.as_nat()),
{
    let _0: Uint = Uint::zero();
    let _1: Uint = Uint::one();
    proof {
        Uint::lemma_width();
        S.lemma_in_range();
        T.lemma_in_range();
        if S.as_nat() > 0 {
            lemma_popcount_one_iff_pow2(S.as_nat());
        }
        lemma_hanoi_wrap(T.as_nat(), Uint::bits());
        lemma2_to64();
        lemma_pow2_increases(8, Uint::bits());
    }
    let surface_size_ok: bool = _1.lt_u(S) && aux::popcount(S).eq_u(_1);
    if !surface_size_ok {
        return false;
    }
    let overflow_epsilon: Uint = aux::from_bool(T.wrap_add_u(_1).lt_u(T));
    let q: Uint = aux::overflow_shr(T.sub_u(overflow_epsilon).add_u(_1), S.sub_u(overflow_epsilon));
    proof {
        lemma_tilted_capacity_cond(Uint::bits(), S.as_nat(), T.as_nat());
    }
    q.eq_u(_0)
}

/// Site selection implementation for tilted curation. `S` must leave one
/// leading zero bit (`2 * S` representable) so the doubled-buffer popcount
/// term cannot overflow; `T` must satisfy the capacity check.
#[allow(non_snake_case)]
#[verifier::rlimit(50)]
pub fn _assign_storage_site<Uint: UnsignedTrait>(S: Uint, T: Uint) -> (r: Uint)
    requires
        spec_tilted_has_capacity(S.as_nat(), T.as_nat()),
        2 * S.as_nat() < pow2(Uint::bits()),
    ensures
        r.as_nat() == spec_tilted_site_raw(S.as_nat(), T.as_nat()),
{
    let _0: Uint = Uint::zero();
    let _1: Uint = Uint::one();
    proof {
        Uint::lemma_width();
        S.lemma_in_range();
        T.lemma_in_range();
        lemma_capacity_pow2(S.as_nat());
        lemma_bit_length_le(S.as_nat(), Uint::bits());
        lemma_bit_length_le(T.as_nat(), Uint::bits());
        lemma_bit_length_interval(S.as_nat());
        lemma_hanoi_le(T.as_nat(), Uint::bits());
        lemma_hanoi_wrap(T.as_nat(), Uint::bits());
        lemma_tilted_site_bounds(S.as_nat(), T.as_nat());
        lemma2_to64();
        lemma_pow2_increases(8, Uint::bits());
    }
    let s: Uint = aux::bit_length(S).sub_u(_1);
    let t: Uint = aux::floor_subtract(aux::bit_length(T), s);
    let h: Uint = aux::ctz(T.wrap_add_u(_1));
    proof {
        assert(h.as_nat() == spec_hanoi_value(T.as_nat()));
    }
    let i: Uint = aux::overflow_shr(T, h.add_u(_1));
    proof {
        if h.as_nat() + 1 >= Uint::bits() {
            lemma_pow2_increases(Uint::bits(), spec_hanoi_value(T.as_nat()) + 1);
            lemma_pow2_pos(spec_hanoi_value(T.as_nat()) + 1);
            lemma_basic_div(T.as_nat() as int, pow2(spec_hanoi_value(T.as_nat()) + 1) as int);
        }
        assert(i.as_nat() == spec_incidence(T.as_nat()));
        assert(t.as_nat() <= Uint::bits());
        lemma_bit_length_mono(t.as_nat(), Uint::bits());
        lemma_bit_length_of_widths();
    }
    let blt: Uint = aux::bit_length(t);
    let epsilon_tau: Uint = aux::from_bool(t.add_u(blt).lt_u(aux::bit_floor(t).shl_u(_1)));
    proof {
        if epsilon_tau.as_nat() == 1 {
            assert(t.as_nat() > 0);
        }
        assert(blt.as_nat() <= 7);
    }
    let tau: Uint = blt.sub_u(epsilon_tau);
    proof {
        assert(tau.as_nat() == spec_tilted_tau(S.as_nat(), T.as_nat()));
        assert(tau.as_nat() + 2 <= Uint::bits());
        lemma_pow2_strictly_increases(tau.as_nat(), Uint::bits());
        lemma_pow2_strictly_increases(tau.as_nat() + 1, Uint::bits());
        lemma_succ_le_pow2(tau.as_nat());
        lemma_succ_le_pow2(tau.as_nat() + 1);
        lemma_pow2_increases(tau.as_nat(), 7);
        lemma_pow2_increases(tau.as_nat() + 1, 8);
    }
    let t_0: Uint = aux::shl(_1, tau).sub_u(tau);
    let t_1: Uint = aux::shl(_1, tau.add_u(_1)).sub_u(tau.add_u(_1));
    let h_t0: Uint = h.add_u(t_0);
    let epsilon_b: Uint = aux::from_bool(t.lt_u(h_t0) && h_t0.lt_u(t_1));
    let sh_b: Uint = tau.add_u(_1).sub_u(epsilon_b);
    let bq: Uint = aux::shr(S, sh_b);
    let bcnt: Uint = if bq.eq_u(_0) {
        _1
    } else {
        bq
    };
    proof {
        assert(bcnt.as_nat() == spec_tilted_bunch_count(S.as_nat(), T.as_nat()));
    }
    let b_l: Uint = aux::modpow2(i, bcnt);
    proof {
        assert(b_l.as_nat() == spec_tilted_logical_bunch(S.as_nat(), T.as_nat()));
        assert(spec_bit_length(b_l.as_nat()) + 1 <= spec_capacity_log2(S.as_nat()));
        if b_l.as_nat() > 0 {
            lemma_bit_floor_le(b_l.as_nat());
        }
    }
    let v: Uint = aux::bit_length(b_l);
    let w: Uint = if v.eq_u(_0) {
        _0
    } else {
        aux::shr(S, v)
    };
    let o: Uint = w.shr_u(_1);
    let p: Uint = b_l.sub_u(aux::bit_floor(b_l));
    proof {
        assert(o.as_nat() + w.as_nat() * p.as_nat() == spec_tilted_physical_bunch(
            S.as_nat(),
            T.as_nat(),
        ));
        assert(w.as_nat() * p.as_nat() <= spec_tilted_physical_bunch(S.as_nat(), T.as_nat()));
    }
    let b_p: Uint = o.add_u(w.mul_u(p));
    let epsilon_k_b: Uint = aux::from_bool(_0.lt_u(b_l));
    let pc: Uint = aux::popcount(S.shl_u(_1).sub_u(b_p));
    let k_b: Uint = b_p.shl_u(_1).add_u(pc).sub_u(_1.add_u(epsilon_k_b));
    k_b.add_u(h)
}

/// Site selection for tilted curation: the slot the `T`'th data item should
/// be stored to. Unlike steady curation, tilted curation never discards
/// while capacity lasts: a slot inside the buffer is always returned.
#[allow(non_snake_case)]
pub fn assign_storage_site<Uint: UnsignedTrait>(S: Uint, T: Uint) -> (r: Option<Uint>)
    requires
        spec_tilted_has_capacity(S.as_nat(), T.as_nat()),
        2 * S.as_nat() < pow2(Uint::bits()),
    ensures
        match r {
            Some(k) => k.as_nat() == spec_tilted_site_raw(S.as_nat(), T.as_nat()) && k.as_nat()
                < S.as_nat(),
            None => false,
        },
{
    proof {
        lemma_tilted_site_in_range(S.as_nat(), T.as_nat());
    }
    let k: Uint = _assign_storage_site(S, T);
    if k.eq_u(S) {
        None
    } else {
        Some(k)
    }
}

/// The tilted algorithm as a capability.
pub struct Algo;

impl HasIngestCapacityTrait for Algo {
    open spec fn spec_has_capacity(cap: nat, time: nat) -> bool {
        spec_tilted_has_capacity(cap, time)
    }

    #[allow(non_snake_case)]
    fn has_ingest_capacity<Uint: UnsignedTrait>(S: Uint, T: Uint) -> (r: bool) {
        has_ingest_capacity::<Uint>(S, T)
    }
}

impl AssignStorageSiteTrait for Algo {
    open spec fn spec_site_raw(cap: nat, time: nat) -> nat {
        spec_tilted_site_raw(cap, time)
    }

    open spec fn spec_assign_pre(w: nat, cap: nat, time: nat) -> bool {
        spec_tilted_has_capacity(cap, time) && 2 * cap < pow2(w)
    }

    #[allow(non_snake_case)]
    fn _assign_storage_site<Uint: UnsignedTrait>(S: Uint, T: Uint) -> (r: Uint) {
        _assign_storage_site::<Uint>(S, T)
    }

    #[allow(non_snake_case)]
    fn assign_storage_site<Uint: UnsignedTrait>(S: Uint, T: Uint) -> (r: Option<Uint>) {
        assign_storage_site::<Uint>(S, T)
    }
}

} // verus!
