//! Hybrid steady/tilted curation: the buffer is split in half, even logical
//! times route through steady addressing into the low half and odd logical
//! times through tilted addressing into the high half.
use vstd::prelude::*;
use vstd::arithmetic::power2::pow2;
use vstd::arithmetic::power2::lemma2_to64;
use vstd::arithmetic::power2::lemma_pow2_unfold;

use crate::_auxlib::UnsignedTrait;
use crate::bitmath::spec_bit_length;
use crate::bitmath::lemma_bit_length_le;
use crate::bitmath::lemma_pow2_increases;
use crate::dstream::quantities::spec_capacity_log2;
use crate::dstream::quantities::lemma_hanoi_le;
use crate::dstream::quantities::spec_hanoi_value;
use crate::dstream::steady_algo;
use crate::dstream::steady_algo::spec_steady_has_capacity;
use crate::dstream::steady_algo::spec_steady_is_active;
use crate::dstream::steady_algo::spec_steady_site_raw;
use crate::dstream::steady_algo::lemma_steady_site_in_range;
use crate::dstream::tilted_algo;
use crate::dstream::tilted_algo::spec_tilted_has_capacity;
use crate::dstream::tilted_algo::spec_tilted_site_raw;
use crate::dstream::tilted_algo::lemma_tilted_site_bounds;
use crate::dstream::tilted_algo::lemma_tilted_site_in_range;
use crate::dstream::_algo_traits::AssignStorageSiteTrait;
use crate::dstream::_algo_traits::HasIngestCapacityTrait;

verus! {

/// Hybrid capacity: the steady half must accept `T / 2` (which it does for
/// any time, given a valid half-buffer) and, past time 0, the tilted half
/// must accept `(T - 1) / 2`.
pub open spec fn spec_hybrid_has_capacity(cap: nat, time: nat) -> bool {
    spec_steady_has_capacity(cap / 2) && (time == 0 || spec_tilted_has_capacity(
        cap / 2,
        ((time - 1) / 2) as nat,
    ))
}

/// The hybrid site function with `cap` as in-band discard sentinel. An even
/// time takes the steady site in the low half, a steady discard propagating
/// as a hybrid discard; an odd time takes the tilted site offset into the
/// high half, with no check of the tilted sentinel.
pub open spec fn spec_hybrid_site_raw(cap: nat, time: nat) -> nat {
    let half = cap / 2;
    if time % 2 == 0 {
        let k = spec_steady_site_raw(half, time / 2);
        if k == half {
            cap
        } else {
            k
        }
    } else {
        half + spec_tilted_site_raw(half, time / 2)
    }
}

/// Routing: a retained even-time item always lands in the low half, and an
/// even-time discard happens exactly when the steady half discards; an
/// odd-time item always lands in the high half. In particular the tilted
/// half never signals a discard that the odd branch would fail to check.
pub proof fn lemma_hybrid_routing(cap: nat, time: nat)
    requires
        spec_hybrid_has_capacity(cap, time),
    ensures
        time % 2 == 0 ==> (spec_hybrid_site_raw(cap, time) == cap) == !spec_steady_is_active(
            cap / 2,
            time / 2,
        ),
        time % 2 == 0 && spec_hybrid_site_raw(cap, time) != cap ==> spec_hybrid_site_raw(cap, time)
            < cap / 2,
        time % 2 == 1 ==> cap / 2 <= spec_hybrid_site_raw(cap, time) < cap,
{
    if time % 2 == 0 {
        if spec_steady_is_active(cap / 2, time / 2) {
            lemma_steady_site_in_range(cap / 2, time / 2);
        }
    } else {
        assert(time / 2 == ((time - 1) / 2) as nat);
        lemma_tilted_site_in_range(cap / 2, time / 2);
        assert(cap / 2 + cap / 2 <= cap);
    }
}

/// Does this algorithm have the capacity to ingest a data item at logical
/// time `T`, into a buffer of `S` sites?
#[allow(non_snake_case)]
pub fn has_ingest_capacity<Uint: UnsignedTrait>(S: Uint, T: Uint) -> (r: bool)
    ensures
        r == spec_hybrid_has_capacity(S.as_nat(), T.as_nat()),
{
    let _0: Uint = Uint::zero();
    let _1: Uint = Uint::one();
    proof {
        Uint::lemma_width();
        lemma2_to64();
    }
    let half_S: Uint = S.shr_u(_1);
    let has_capacity_1st: bool = steady_algo::has_ingest_capacity(half_S, T.shr_u(_1));
    let has_capacity_2nd: bool = T.eq_u(_0) || tilted_algo::has_ingest_capacity(
        half_S,
        T.sub_u(_1).shr_u(_1),
    );
    has_capacity_1st && has_capacity_2nd
}

/// Site selection for hybrid steady/tilted curation, with `S` itself as an
/// in-band discard sentinel. Even times delegate to the steady half, odd
/// times to the tilted half offset by `S / 2`; only the steady branch maps
/// the half-buffer sentinel back to the full-buffer one.
#[allow(non_snake_case)]
pub fn _assign_storage_site<Uint: UnsignedTrait>(S: Uint, T: Uint) -> (r: Uint)
    requires
        spec_hybrid_has_capacity(S.as_nat(), T.as_nat()),
    ensures
        r.as_nat() == spec_hybrid_site_raw(S.as_nat(), T.as_nat()),
{
    let _0: Uint = Uint::zero();
    let _1: Uint = Uint::one();
    proof {
        Uint::lemma_width();
        S.lemma_in_range();
        T.lemma_in_range();
        lemma2_to64();
        lemma_pow2_increases(8, Uint::bits());
    }
    let _2: Uint = _1.add_u(_1);
    let half_S: Uint = S.shr_u(_1);
    let half_T: Uint = T.shr_u(_1);
    if T.rem_u(_2).eq_u(_0) {
        let site: Uint = steady_algo::_assign_storage_site(half_S, half_T);
        proof {
            if spec_steady_is_active(S.as_nat() / 2, T.as_nat() / 2) {
                lemma_steady_site_in_range(S.as_nat() / 2, T.as_nat() / 2);
            }
        }
        if site.eq_u(half_S) {
            S
        } else {
            site
        }
    } else {
        proof {
            let w = Uint::bits();
            let half = S.as_nat() / 2;
            assert(T.as_nat() / 2 == ((T.as_nat() - 1) / 2) as nat);
            lemma_tilted_site_bounds(half, T.as_nat() / 2);
            lemma_hanoi_le(T.as_nat() / 2, w);
            lemma_bit_length_le(half, w);
            // a power-of-two half buffer leaves two leading zero bits, so
            // the offset into the high half cannot overflow
            lemma_pow2_unfold(w);
            assert(half < pow2((w - 1) as nat));
            let k = choose|k: nat| half == pow2(k);
            if k >= w - 1 {
                lemma_pow2_increases((w - 1) as nat, k);
                assert(false);
            }
            lemma_pow2_increases(k, (w - 2) as nat);
            assert(half <= pow2((w - 2) as nat));
            lemma_pow2_unfold((w - 1) as nat);
            lemma_pow2_increases(7, (w - 1) as nat);
            assert(spec_capacity_log2(half) <= spec_bit_length(half) <= w);
            assert(half + (half + spec_capacity_log2(half) + spec_hanoi_value(T.as_nat() / 2))
                < pow2(w));
        }
        half_S.add_u(tilted_algo::_assign_storage_site(half_S, half_T))
    }
}

/// Site selection for hybrid steady/tilted curation: the slot the `T`'th
/// data item should be stored to, or `None` to discard. A discard happens
/// exactly when an even time's steady half discards; odd times always land
/// in the high half.
#[allow(non_snake_case)]
pub fn assign_storage_site<Uint: UnsignedTrait>(S: Uint, T: Uint) -> (r: Option<Uint>)
    requires
        spec_hybrid_has_capacity(S.as_nat(), T.as_nat()),
    ensures
        match r {
            Some(k) => k.as_nat() == spec_hybrid_site_raw(S.as_nat(), T.as_nat()) && k.as_nat()
                < S.as_nat(),
            None => spec_hybrid_site_raw(S.as_nat(), T.as_nat()) == S.as_nat(),
        },
        (r is None) == (T.as_nat() % 2 == 0 && !spec_steady_is_active(
            S.as_nat() / 2,
            T.as_nat() / 2,
        )),
{
    proof {
        lemma_hybrid_routing(S.as_nat(), T.as_nat());
        S.lemma_in_range();
    }
    let k: Uint = _assign_storage_site(S, T);
    if k.eq_u(S) {
        None
    } else {
        Some(k)
    }
}

/// The hybrid steady/tilted algorithm as a capability.
pub struct Algo;

impl HasIngestCapacityTrait for Algo {
    open spec fn spec_has_capacity(cap: nat, time: nat) -> bool {
        spec_hybrid_has_capacity(cap, time)
    }

    #[allow(non_snake_case)]
    fn has_ingest_capacity<Uint: UnsignedTrait>(S: Uint, T: Uint) -> (r: bool) {
        has_ingest_capacity::<Uint>(S, T)
    }
}

impl AssignStorageSiteTrait for Algo {
    open spec fn spec_site_raw(cap: nat, time: nat) -> nat {
        spec_hybrid_site_raw(cap, time)
    }

    open spec fn spec_assign_pre(w: nat, cap: nat, time: nat) -> bool {
        spec_hybrid_has_capacity(cap, time)
    }

    #[allow(non_snake_case)]
    fn _assign_storage_site<Uint: UnsignedTrait>(S: Uint, T: Uint) -> (r: Uint) {
        _assign_storage_site::<Uint>(S, T)
    }

    #[allow(non_snake_case)]
    fn assign_storage_site<Uint: UnsignedTrait>(S: Uint, T: Uint) -> (r: Option<Uint>) {
        assign_storage_site::<Uint>(S, T)
    }
}

} // verus!
