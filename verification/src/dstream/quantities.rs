//! Per-call derived quantities shared by the algorithm families: the epoch,
//! the hanoi value and its incidence, each a pure function of `(S, T)`.
use vstd::prelude::*;
use vstd::arithmetic::power2::*;
use vstd::arithmetic::div_mod::*;

use crate::bitmath::spec_bit_length;
use crate::bitmath::spec_ctz;
use crate::bitmath::spec_is_pow2;
use crate::bitmath::spec_floor_sub;
use crate::bitmath::lemma_bit_length_pow2;
use crate::bitmath::lemma_bit_length_le;
use crate::bitmath::lemma_bit_length_div_pow2;
use crate::bitmath::lemma_ctz_lt_bit_length;
use crate::bitmath::lemma_ctz_pow2;

verus! {

/// `log2` of the buffer capacity (the `s` parameter), for power-of-two
/// capacities.
pub open spec fn spec_capacity_log2(cap: nat) -> nat {
    spec_floor_sub(spec_bit_length(cap), 1)
}

/// The current epoch: how many capacity-doublings behind `cap` the time sits.
pub open spec fn spec_epoch(cap: nat, time: nat) -> nat {
    spec_floor_sub(spec_bit_length(time), spec_capacity_log2(cap))
}

/// The hanoi value of a logical time: the trailing zero count of `time + 1`.
pub open spec fn spec_hanoi_value(time: nat) -> nat {
    spec_ctz(time + 1)
}

/// The incidence of the current hanoi value: how many times it has occurred
/// up to and including `time`.
pub open spec fn spec_incidence(time: nat) -> nat {
    time / pow2(spec_hanoi_value(time) + 1)
}

/// A power-of-two capacity greater than 1 equals `2^s` for its exponent `s`,
/// which is at least 1.
pub proof fn lemma_capacity_pow2(cap: nat)
    requires
        cap > 1,
        spec_is_pow2(cap),
    ensures
        cap == pow2(spec_capacity_log2(cap)),
        spec_capacity_log2(cap) >= 1,
        spec_bit_length(cap) == spec_capacity_log2(cap) + 1,
{
    let k = choose|k: nat| cap == pow2(k);
    lemma_bit_length_pow2(k);
    lemma2_to64();
    if k == 0 {
        assert(cap == 1);
    }
}

/// The hanoi value is bounded by the bit width whenever the time fits it.
pub proof fn lemma_hanoi_le(time: nat, w: nat)
    requires
        time < pow2(w),
    ensures
        spec_hanoi_value(time) <= w,
{
    lemma_ctz_lt_bit_length(time + 1);
    lemma_pow2_strictly_increases(w, w + 1);
    lemma_bit_length_le(time + 1, w + 1);
}

/// The wrapped successor `(time + 1) % 2^w` has the trailing-zero structure
/// of the exact successor: at the wrap point both counts equal `w`.
pub proof fn lemma_hanoi_wrap(time: nat, w: nat)
    requires
        time < pow2(w),
    ensures
        time + 1 == pow2(w) ==> spec_hanoi_value(time) == w && (time + 1) % pow2(w) == 0,
        time + 1 < pow2(w) ==> (time + 1) % pow2(w) == time + 1,
{
    if time + 1 == pow2(w) {
        lemma_ctz_pow2(w);
        lemma_pow2_pos(w);
        lemma_mod_self_0(pow2(w) as int);
    } else {
        lemma_pow2_pos(w);
        lemma_small_mod(time + 1, pow2(w));
    }
}

/// A positive incidence pins the bit length of the incidence to the bit
/// length of the time, less the hanoi value plus one.
pub proof fn lemma_incidence_bit_length(time: nat)
    requires
        spec_incidence(time) > 0,
    ensures
        spec_bit_length(time) >= spec_hanoi_value(time) + 2,
        spec_bit_length(spec_incidence(time)) == spec_bit_length(time) - (spec_hanoi_value(time)
            + 1),
{
    let h = spec_hanoi_value(time);
    lemma_bit_length_div_pow2(time, h + 1);
    assert(spec_bit_length(spec_incidence(time)) >= 1);
}

} // verus!
