//! The shared two-operation interface every algorithm family exposes:
//! capacity queries and site assignment, each pinned to a width-independent
//! mathematical model of the family.
use vstd::prelude::*;
use vstd::arithmetic::power2::pow2;

use crate::_auxlib::UnsignedTrait;

verus! {

/// Capacity queries. `spec_has_capacity` is the family's mathematical
/// capacity predicate; it takes no bit width, so results agree across widths
/// whenever `(S, T)` are exactly representable.
#[allow(non_snake_case)]
pub trait HasIngestCapacityTrait {
    /// The family's ingest-capacity predicate over mathematical values.
    spec fn spec_has_capacity(cap: nat, time: nat) -> bool;

    /// Does this algorithm have the capacity to ingest a data item at
    /// logical time `T`, into a buffer of `S` sites?
    fn has_ingest_capacity<Uint: UnsignedTrait>(S: Uint, T: Uint) -> (r: bool)
        ensures
            r == Self::spec_has_capacity(S.as_nat(), T.as_nat()),
    ;
}

/// Site assignment. `spec_site_raw` is the family's mathematical site
/// function, returning the capacity itself as an in-band discard sentinel;
/// it takes no bit width, so sites agree across widths whenever `(S, T)` are
/// exactly representable.
#[allow(non_snake_case)]
pub trait AssignStorageSiteTrait {
    /// The family's site function over mathematical values; a result equal
    /// to `cap` signals discard.
    spec fn spec_site_raw(cap: nat, time: nat) -> nat;

    /// The family's precondition for site assignment at bit width `w`.
    spec fn spec_assign_pre(w: nat, cap: nat, time: nat) -> bool;

    /// What buffer site should the `T`'th data item be stored to, with `S`
    /// itself as an in-band discard sentinel?
    fn _assign_storage_site<Uint: UnsignedTrait>(S: Uint, T: Uint) -> (r: Uint)
        requires
            Self::spec_assign_pre(Uint::bits(), S.as_nat(), T.as_nat()),
        ensures
            r.as_nat() == Self::spec_site_raw(S.as_nat(), T.as_nat()),
    ;

    /// What buffer site should the `T`'th data item be stored to, if any?
    fn assign_storage_site<Uint: UnsignedTrait>(S: Uint, T: Uint) -> (r: Option<Uint>)
        requires
            Self::spec_assign_pre(Uint::bits(), S.as_nat(), T.as_nat()),
        ensures
            match r {
                Some(k) => k.as_nat() == Self::spec_site_raw(S.as_nat(), T.as_nat())
                    && k.as_nat() != S.as_nat(),
                None => Self::spec_site_raw(S.as_nat(), T.as_nat()) == S.as_nat(),
            },
    ;
}

/// Cross-width agreement: each family's capacity predicate and site
/// function take only the mathematical values of `S` and `T`, never the bit
/// width, and every width's implementation is proved equal to them. So two
/// widths that both represent `(S, T)` exactly must answer alike.
pub proof fn lemma_cross_width_agreement<
    A: AssignStorageSiteTrait + HasIngestCapacityTrait,
    U1: UnsignedTrait,
    U2: UnsignedTrait,
>(s1: U1, t1: U1, s2: U2, t2: U2)
    requires
        s1.as_nat() == s2.as_nat(),
        t1.as_nat() == t2.as_nat(),
    ensures
        A::spec_has_capacity(s1.as_nat(), t1.as_nat()) == A::spec_has_capacity(
            s2.as_nat(),
            t2.as_nat(),
        ),
        A::spec_site_raw(s1.as_nat(), t1.as_nat()) == A::spec_site_raw(s2.as_nat(), t2.as_nat()),
{
}

} // verus!
