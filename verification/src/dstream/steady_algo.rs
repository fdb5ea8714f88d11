//! Steady curation: site assignment that maintains uniform retention density
//! across the whole observed time window.
use vstd::prelude::*;
use vstd::arithmetic::power2::*;
use vstd::arithmetic::div_mod::*;
use vstd::arithmetic::mul::*;

use crate::_auxlib as aux;
use crate::_auxlib::UnsignedTrait;
use crate::bitmath::spec_bit_length;
use crate::bitmath::spec_is_pow2;
use crate::bitmath::spec_floor_sub;
use crate::bitmath::lemma_bit_length_le;
use crate::bitmath::lemma_bit_length_interval;
use crate::bitmath::lemma_bit_length_pow2_minus1;
use crate::bitmath::lemma_bit_floor_le;
use crate::bitmath::lemma_popcount_one_iff_pow2;
use crate::bitmath::lemma_succ_le_pow2;
use crate::bitmath::lemma_pow2_increases;
use crate::dstream::quantities::spec_capacity_log2;
use crate::dstream::quantities::spec_epoch;
use crate::dstream::quantities::spec_hanoi_value;
use crate::dstream::quantities::spec_incidence;
use crate::dstream::quantities::lemma_capacity_pow2;
use crate::dstream::quantities::lemma_hanoi_le;
use crate::dstream::quantities::lemma_hanoi_wrap;
use crate::dstream::quantities::lemma_incidence_bit_length;
use crate::dstream::_algo_traits::AssignStorageSiteTrait;
use crate::dstream::_algo_traits::HasIngestCapacityTrait;

verus! {

/// Steady capacity: the buffer size must be a power of two greater than 1.
/// The logical time plays no part, so capacity never runs out.
pub open spec fn spec_steady_has_capacity(cap: nat) -> bool {
    cap > 1 && spec_is_pow2(cap)
}

/// Whether the current hanoi value is an active class at the current epoch;
/// inactive classes are superseded and discarded.
pub open spec fn spec_steady_is_active(cap: nat, time: nat) -> bool {
    spec_hanoi_value(time) >= spec_epoch(cap, time)
}

/// Number of fully-filled bunches preceding the current one (`B`).
pub open spec fn spec_steady_bunch(time: nat) -> nat {
    spec_floor_sub(spec_bit_length(spec_incidence(time)), 1)
}

/// Segment width `w`: how many slots the current segment spans.
pub open spec fn spec_steady_segment_width(cap: nat, time: nat) -> nat {
    if spec_incidence(time) == 0 {
        spec_capacity_log2(cap) + 1
    } else {
        spec_floor_sub(
            spec_hanoi_value(time) + spec_capacity_log2(cap) + 1,
            spec_bit_length(time),
        )
    }
}

/// Bunch base offset `k_b`: where the current bunch begins in the buffer.
pub open spec fn spec_steady_bunch_base(cap: nat, time: nat) -> nat {
    if spec_incidence(time) == 0 {
        0
    } else {
        pow2(spec_steady_bunch(time)) * spec_floor_sub(
            spec_capacity_log2(cap) + 1,
            spec_steady_bunch(time),
        )
    }
}

/// Within-bunch offset `o`: where the current segment begins in its bunch.
pub open spec fn spec_steady_offset(cap: nat, time: nat) -> nat {
    if spec_incidence(time) == 0 {
        0
    } else {
        spec_steady_segment_width(cap, time) * spec_floor_sub(
            spec_incidence(time),
            pow2(spec_steady_bunch(time)),
        )
    }
}

/// The steady placement site for an active class.
pub open spec fn spec_steady_site_at(cap: nat, time: nat) -> nat {
    spec_steady_bunch_base(cap, time) + spec_steady_offset(cap, time) + spec_hanoi_value(time)
        % spec_steady_segment_width(cap, time)
}

/// The steady site function with `cap` as in-band discard sentinel.
pub open spec fn spec_steady_site_raw(cap: nat, time: nat) -> nat {
    if spec_steady_is_active(cap, time) {
        spec_steady_site_at(cap, time)
    } else {
        cap
    }
}

/// In the active branch the steady placement lands strictly inside the
/// buffer; the supporting facts pin every intermediate quantity.
pub proof fn lemma_steady_site_in_range(cap: nat, time: nat)
    requires
        spec_steady_has_capacity(cap),
        spec_steady_is_active(cap, time),
    ensures
        spec_steady_segment_width(cap, time) >= 1,
        spec_steady_site_at(cap, time) < cap,
        spec_bit_length(time) <= spec_hanoi_value(time) + spec_capacity_log2(cap),
        spec_incidence(time) > 0 ==> spec_steady_bunch(time) + 2 <= spec_capacity_log2(cap),
        spec_incidence(time) > 0 ==> pow2(spec_steady_bunch(time)) <= spec_incidence(time) < pow2(
            spec_steady_bunch(time) + 1,
        ),
        spec_incidence(time) > 0 ==> spec_bit_length(spec_incidence(time)) == spec_steady_bunch(
            time,
        ) + 1,
{
    let s = spec_capacity_log2(cap);
    let blt = spec_bit_length(time);
    let h = spec_hanoi_value(time);
    let i = spec_incidence(time);
    let w = spec_steady_segment_width(cap, time);
    lemma_capacity_pow2(cap);
    lemma_succ_le_pow2(s);
    // active means the bit length of the time stays within h + s
    assert(blt <= h + s) by {
        assert(spec_epoch(cap, time) == spec_floor_sub(blt, s));
        if blt > s {
            assert(h >= blt - s);
        }
    }
    if i == 0 {
        assert(w == s + 1);
        assert(h % w < w);
        assert(spec_steady_site_at(cap, time) <= s);
        assert(s < pow2(s));
    } else {
        lemma_incidence_bit_length(time);
        let b = spec_steady_bunch(time);
        assert(spec_bit_length(i) == blt - (h + 1));
        assert(spec_bit_length(i) >= 1) by {
            lemma_bit_length_interval(i);
        }
        assert(b == blt - h - 2);
        assert(w == h + s + 1 - blt);
        assert(w >= 1);
        assert(b + 2 <= s) by {
            assert(blt >= h + 2);
            assert(b + 2 == blt - h <= s + ((w - 1) as nat) + 1 - 1);
        }
        assert(spec_floor_sub(s + 1, b) == w + 2);
        let kb = spec_steady_bunch_base(cap, time);
        let o = spec_steady_offset(cap, time);
        assert(kb == pow2(b) * (w + 2));
        lemma_bit_length_interval(i);
        assert(pow2(b) <= i < pow2(b + 1)) by {
            assert(pow2((spec_bit_length(i) - 1) as nat) <= i);
        }
        assert(o == w * ((i - pow2(b)) as nat));
        assert(i - pow2(b) <= pow2(b) - 1) by {
            lemma_pow2_unfold(b + 1);
        }
        assert(o <= w * ((pow2(b) - 1) as nat)) by {
            lemma_mul_inequality((i - pow2(b)) as int, (pow2(b) - 1) as int, w as int);
            lemma_mul_is_commutative(w as int, (i - pow2(b)) as int);
            lemma_mul_is_commutative(w as int, (pow2(b) - 1) as int);
        }
        assert(h % w < w);
        let p2b = pow2(b) as int;
        let wi = w as int;
        assert(p2b >= 1) by {
            lemma_pow2_pos(b);
        }
        assert(p2b * (wi + 2) + wi * (p2b - 1) + (wi - 1) == 2 * p2b * (wi + 1) - 1)
            by (nonlinear_arith);
        assert(spec_steady_site_at(cap, time) <= 2 * p2b * (wi + 1) - 1);
        assert(2 * p2b == pow2(b + 1) as int) by {
            lemma_pow2_unfold(b + 1);
        }
        assert(w + 1 <= pow2(w)) by {
            lemma_succ_le_pow2(w);
        }
        assert(pow2(b + 1) * (w + 1) <= pow2(b + 1) * pow2(w)) by {
            lemma_mul_inequality((w + 1) as int, pow2(w) as int, pow2(b + 1) as int);
            lemma_mul_is_commutative(pow2(b + 1) as int, (w + 1) as int);
            lemma_mul_is_commutative(pow2(b + 1) as int, pow2(w) as int);
        }
        assert(pow2(b + 1) * pow2(w) == pow2(b + 1 + w)) by {
            lemma_pow2_adds(b + 1, w);
        }
        assert(b + 1 + w == s);
        assert(spec_steady_site_at(cap, time) < pow2(s));
    }
}

/// Within one segment -- equal bunch base, width and offset -- two active
/// placements collide exactly when their hanoi values agree modulo the
/// segment width: the segment's `w` slots cycle through the hanoi classes.
pub proof fn lemma_steady_no_collision_within_segment(cap: nat, t1: nat, t2: nat)
    requires
        spec_steady_has_capacity(cap),
        spec_steady_is_active(cap, t1),
        spec_steady_is_active(cap, t2),
        spec_steady_bunch_base(cap, t1) == spec_steady_bunch_base(cap, t2),
        spec_steady_segment_width(cap, t1) == spec_steady_segment_width(cap, t2),
        spec_steady_offset(cap, t1) == spec_steady_offset(cap, t2),
    ensures
        (spec_steady_site_raw(cap, t1) == spec_steady_site_raw(cap, t2)) == (spec_hanoi_value(t1)
            % spec_steady_segment_width(cap, t1) == spec_hanoi_value(t2)
            % spec_steady_segment_width(cap, t2)),
{
    lemma_steady_site_in_range(cap, t1);
    lemma_steady_site_in_range(cap, t2);
}

/// Does this algorithm have the capacity to ingest a data item at logical
/// time `T`? For steady curation this is independent of `T`.
#[allow(non_snake_case)]
pub fn has_ingest_capacity<Uint: UnsignedTrait>(S: Uint, T: Uint) -> (r: bool)
    ensures
        r == spec_steady_has_capacity(S.as_nat()),
{
    let _1: Uint = Uint::one();
    let ones: Uint = aux::popcount(S);
    proof {
        if S.as_nat() > 0 {
            lemma_popcount_one_iff_pow2(S.as_nat());
        }
    }
    ones.eq_u(_1) && _1.lt_u(S)
}

/// Site selection implementation for steady curation, with `S` itself as an
/// in-band discard sentinel.
#[allow(non_snake_case)]
pub fn _assign_storage_site<Uint: UnsignedTrait>(S: Uint, T: Uint) -> (r: Uint)
    requires
        spec_steady_has_capacity(S.as_nat()),
    ensures
        r.as_nat() == spec_steady_site_raw(S.as_nat(), T.as_nat()),
{
    let _0: Uint = Uint::zero();
    let _1: Uint = Uint::one();
    proof {
        Uint::lemma_width();
        S.lemma_in_range();
        T.lemma_in_range();
        lemma_capacity_pow2(S.as_nat());
        lemma_bit_length_le(S.as_nat(), Uint::bits());
        lemma_bit_length_interval(S.as_nat());
        lemma_hanoi_le(T.as_nat(), Uint::bits());
        lemma_hanoi_wrap(T.as_nat(), Uint::bits());
        lemma2_to64();
        lemma_pow2_increases(8, Uint::bits());
    }
    let s: Uint = aux::bit_length(S).sub_u(_1);
    let blT: Uint = aux::bit_length(T);
    let t: Uint = aux::floor_subtract(blT, s);
    let h: Uint = aux::ctz(T.wrap_add_u(_1));
    proof {
        assert(h.as_nat() == spec_hanoi_value(T.as_nat()));
        lemma_bit_length_le(T.as_nat(), Uint::bits());
    }
    if h.lt_u(t) {
        // the hanoi class is not active at this epoch: discard
        return S;
    }
    proof {
        lemma_steady_site_in_range(S.as_nat(), T.as_nat());
    }
    let i: Uint = aux::overflow_shr(T, h.add_u(_1));
    proof {
        if h.as_nat() + 1 >= Uint::bits() {
            lemma_pow2_increases(Uint::bits(), spec_hanoi_value(T.as_nat()) + 1);
            lemma_pow2_pos(spec_hanoi_value(T.as_nat()) + 1);
            lemma_basic_div(T.as_nat() as int, pow2(spec_hanoi_value(T.as_nat()) + 1) as int);
        }
        assert(i.as_nat() == spec_incidence(T.as_nat()));
    }
    let sp1: Uint = s.add_u(_1);
    if i.eq_u(_0) {
        // the zeroth bunch spans the first s+1 slots
        return h.rem_u(sp1);
    }
    proof {
        lemma_bit_floor_le(i.as_nat());
    }
    let j: Uint = aux::bit_floor(i).sub_u(_1);
    proof {
        lemma_bit_length_pow2_minus1((spec_bit_length(i.as_nat()) - 1) as nat);
        assert(spec_bit_length(j.as_nat()) == spec_steady_bunch(T.as_nat()));
    }
    let bb: Uint = aux::bit_length(j);
    proof {
        assert(bb.as_nat() == spec_steady_bunch(T.as_nat()));
        assert(bb.as_nat() + 2 <= spec_capacity_log2(S.as_nat()));
        lemma_pow2_strictly_increases(bb.as_nat(), Uint::bits());
        assert(pow2(bb.as_nat()) * spec_floor_sub(s.as_nat() + 1, bb.as_nat())
            == spec_steady_bunch_base(S.as_nat(), T.as_nat()));
        assert(spec_steady_bunch_base(S.as_nat(), T.as_nat()) <= spec_steady_site_at(
            S.as_nat(),
            T.as_nat(),
        ));
    }
    let kb: Uint = aux::overflow_shl(_1, bb).mul_u(sp1.sub_u(bb));
    proof {
        assert(kb.as_nat() == spec_steady_bunch_base(S.as_nat(), T.as_nat()));
    }
    let w: Uint = h.add_u(s).add_u(_1).sub_u(blT);
    proof {
        assert(w.as_nat() == spec_steady_segment_width(S.as_nat(), T.as_nat()));
        assert(j.as_nat() + 1 == pow2(spec_steady_bunch(T.as_nat())));
        assert(j.as_nat() + 1 <= i.as_nat());
        assert(w.as_nat() * ((i.as_nat() - pow2(spec_steady_bunch(T.as_nat()))) as nat)
            == spec_steady_offset(S.as_nat(), T.as_nat()));
        assert(spec_steady_offset(S.as_nat(), T.as_nat()) <= spec_steady_site_at(
            S.as_nat(),
            T.as_nat(),
        ));
    }
    let o: Uint = w.mul_u(i.sub_u(j.add_u(_1)));
    proof {
        assert(o.as_nat() == spec_steady_offset(S.as_nat(), T.as_nat()));
    }
    kb.add_u(o).add_u(h.rem_u(w))
}

/// Site selection for steady curation: the slot the `T`'th data item should
/// occupy, or `None` to discard. A slot is returned exactly when the current
/// hanoi class is active, and it always lies inside the buffer.
#[allow(non_snake_case)]
pub fn assign_storage_site<Uint: UnsignedTrait>(S: Uint, T: Uint) -> (r: Option<Uint>)
    requires
        spec_steady_has_capacity(S.as_nat()),
    ensures
        match r {
            Some(k) => spec_steady_is_active(S.as_nat(), T.as_nat()) && k.as_nat()
                == spec_steady_site_at(S.as_nat(), T.as_nat()) && k.as_nat() < S.as_nat(),
            None => !spec_steady_is_active(S.as_nat(), T.as_nat()),
        },
{
    let k: Uint = _assign_storage_site(S, T);
    proof {
        if spec_steady_is_active(S.as_nat(), T.as_nat()) {
            lemma_steady_site_in_range(S.as_nat(), T.as_nat());
        }
    }
    if k.eq_u(S) {
        None
    } else {
        Some(k)
    }
}

/// The steady algorithm as a capability.
pub struct SteadyAlgo;

impl HasIngestCapacityTrait for SteadyAlgo {
    open spec fn spec_has_capacity(cap: nat, time: nat) -> bool {
        spec_steady_has_capacity(cap)
    }

    #[allow(non_snake_case)]
    fn has_ingest_capacity<Uint: UnsignedTrait>(S: Uint, T: Uint) -> (r: bool) {
        has_ingest_capacity::<Uint>(S, T)
    }
}

impl AssignStorageSiteTrait for SteadyAlgo {
    open spec fn spec_site_raw(cap: nat, time: nat) -> nat {
        spec_steady_site_raw(cap, time)
    }

    open spec fn spec_assign_pre(w: nat, cap: nat, time: nat) -> bool {
        spec_steady_has_capacity(cap)
    }

    #[allow(non_snake_case)]
    fn _assign_storage_site<Uint: UnsignedTrait>(S: Uint, T: Uint) -> (r: Uint) {
        _assign_storage_site::<Uint>(S, T)
    }

    #[allow(non_snake_case)]
    fn assign_storage_site<Uint: UnsignedTrait>(S: Uint, T: Uint) -> (r: Option<Uint>) {
        proof {
            if spec_steady_is_active(S.as_nat(), T.as_nat()) {
                lemma_steady_site_in_range(S.as_nat(), T.as_nat());
            }
        }
        assign_storage_site::<Uint>(S, T)
    }
}

} // verus!
