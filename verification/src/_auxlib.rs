//! Width-independent bit-arithmetic toolkit over a generic unsigned
//! fixed-width integer capability, plus that capability itself
//! (`UnsignedTrait`), implemented for the four supported widths.
use vstd::prelude::*;
use vstd::arithmetic::power2::*;
use vstd::arithmetic::div_mod::lemma_small_mod;
use vstd::arithmetic::div_mod::lemma_mod_multiples_vanish;
use vstd::bits::*;

use crate::bitmath::spec_bit_length;
use crate::bitmath::spec_popcount;
use crate::bitmath::spec_ctz;
use crate::bitmath::spec_bit_floor;
use crate::bitmath::spec_is_pow2;
use crate::bitmath::spec_floor_sub;
use crate::bitmath::lemma_bit_length_le;
use crate::bitmath::lemma_bit_length_interval;
use crate::bitmath::lemma_ctz_lt_bit_length;
use crate::bitmath::lemma_pow2_increases;
use crate::bitmath::lemma_popcount_le_bit_length;

verus! {

/// Capability of an unsigned fixed-width integer: a mathematical value, a bit
/// width, and the primitive operations the toolkit is built from. Contracts
/// speak of `as_nat`, so everything proved over one width holds at any other.
pub trait UnsignedTrait: Sized + Copy {
    /// The value as a mathematical natural number.
    spec fn as_nat(self) -> nat;

    /// The width in bits.
    spec fn bits() -> nat;

    /// The supported widths.
    proof fn lemma_width()
        ensures
            Self::bits() == 8 || Self::bits() == 16 || Self::bits() == 32 || Self::bits() == 64,
    ;

    /// Every value fits its width.
    proof fn lemma_in_range(self)
        ensures
            self.as_nat() < pow2(Self::bits()),
    ;

    fn zero() -> (r: Self)
        ensures
            r.as_nat() == 0,
    ;

    fn one() -> (r: Self)
        ensures
            r.as_nat() == 1,
    ;

    /// The width itself, as a value of the type.
    fn size_u() -> (r: Self)
        ensures
            r.as_nat() == Self::bits(),
    ;

    /// Whether a `u64` value is exactly representable at this width.
    fn fits_u64(value: u64) -> (r: bool)
        ensures
            r == ((value as nat) < pow2(Self::bits())),
    ;

    fn eq_u(self, other: Self) -> (r: bool)
        ensures
            r == (self.as_nat() == other.as_nat()),
    ;

    fn lt_u(self, other: Self) -> (r: bool)
        ensures
            r == (self.as_nat() < other.as_nat()),
    ;

    fn add_u(self, other: Self) -> (r: Self)
        requires
            self.as_nat() + other.as_nat() < pow2(Self::bits()),
        ensures
            r.as_nat() == self.as_nat() + other.as_nat(),
    ;

    fn sub_u(self, other: Self) -> (r: Self)
        requires
            other.as_nat() <= self.as_nat(),
        ensures
            r.as_nat() == self.as_nat() - other.as_nat(),
    ;

    fn mul_u(self, other: Self) -> (r: Self)
        requires
            self.as_nat() * other.as_nat() < pow2(Self::bits()),
        ensures
            r.as_nat() == self.as_nat() * other.as_nat(),
    ;

    fn rem_u(self, other: Self) -> (r: Self)
        requires
            other.as_nat() > 0,
        ensures
            r.as_nat() == self.as_nat() % other.as_nat(),
    ;

    fn shl_u(self, shift: Self) -> (r: Self)
        requires
            shift.as_nat() < Self::bits(),
            self.as_nat() * pow2(shift.as_nat()) < pow2(Self::bits()),
        ensures
            r.as_nat() == self.as_nat() * pow2(shift.as_nat()),
    ;

    fn shr_u(self, shift: Self) -> (r: Self)
        requires
            shift.as_nat() < Self::bits(),
        ensures
            r.as_nat() == self.as_nat() / pow2(shift.as_nat()),
    ;

    /// Addition that wraps modulo `2^bits`.
    fn wrap_add_u(self, other: Self) -> (r: Self)
        ensures
            r.as_nat() == (self.as_nat() + other.as_nat()) % pow2(Self::bits()),
    ;
}

/// Number of bits in type `Uint`.
pub fn bit_size_of<Uint: UnsignedTrait>() -> (r: Uint)
    ensures
        r.as_nat() == Uint::bits(),
{
    Uint::size_u()
}

/// Returns the position of the highest set bit (1-based); 0 for 0.
pub fn bit_length<Uint: UnsignedTrait>(value: Uint) -> (r: Uint)
    ensures
        r.as_nat() == spec_bit_length(value.as_nat()),
{
    let _0: Uint = Uint::zero();
    let _1: Uint = Uint::one();
    proof {
        Uint::lemma_width();
        value.lemma_in_range();
        lemma_bit_length_le(value.as_nat(), Uint::bits());
        lemma2_to64();
    }
    let mut x: Uint = value;
    let mut n: Uint = _0;
    while !x.eq_u(_0)
        invariant
            _0.as_nat() == 0,
            _1.as_nat() == 1,
            Uint::bits() >= 8,
            spec_bit_length(value.as_nat()) == n.as_nat() + spec_bit_length(x.as_nat()),
            n.as_nat() + spec_bit_length(x.as_nat()) <= Uint::bits() < pow2(Uint::bits()),
        decreases x.as_nat(),
    {
        proof {
            lemma2_to64();
        }
        x = x.shr_u(_1);
        n = n.add_u(_1);
    }
    n
}

/// Returns the largest power of 2 that is <= `value`; 0 for 0.
pub fn bit_floor<Uint: UnsignedTrait>(value: Uint) -> (r: Uint)
    ensures
        r.as_nat() == spec_bit_floor(value.as_nat()),
{
    let _0: Uint = Uint::zero();
    let _1: Uint = Uint::one();
    if _0.lt_u(value) {
        let length: Uint = bit_length(value);
        let shift: Uint = length.sub_u(_1);
        proof {
            Uint::lemma_width();
            value.lemma_in_range();
            lemma_bit_length_interval(value.as_nat());
            lemma_bit_length_le(value.as_nat(), Uint::bits());
            lemma_pow2_increases(shift.as_nat(), (Uint::bits() - 1) as nat);
            lemma_pow2_strictly_increases((Uint::bits() - 1) as nat, Uint::bits());
        }
        _1.shl_u(shift)
    } else {
        _0
    }
}

/// Check if a `u64` value can fit into `Uint` without loss.
pub fn can_type_fit_value<Uint: UnsignedTrait>(value: u64) -> (r: bool)
    ensures
        r == ((value as nat) < pow2(Uint::bits())),
{
    Uint::fits_u64(value)
}

/// Count leading zeros in binary representation, as a value of the arg type.
pub fn clz<Uint: UnsignedTrait>(value: Uint) -> (r: Uint)
    ensures
        r.as_nat() == Uint::bits() - spec_bit_length(value.as_nat()),
{
    proof {
        value.lemma_in_range();
        lemma_bit_length_le(value.as_nat(), Uint::bits());
    }
    Uint::size_u().sub_u(bit_length(value))
}

/// Count trailing zeros in binary representation, as a value of the arg type;
/// the full width for 0.
pub fn ctz<Uint: UnsignedTrait>(value: Uint) -> (r: Uint)
    ensures
        value.as_nat() == 0 ==> r.as_nat() == Uint::bits(),
        value.as_nat() > 0 ==> r.as_nat() == spec_ctz(value.as_nat()),
{
    let _0: Uint = Uint::zero();
    let _1: Uint = Uint::one();
    if value.eq_u(_0) {
        return Uint::size_u();
    }
    proof {
        Uint::lemma_width();
        value.lemma_in_range();
        lemma_bit_length_le(value.as_nat(), Uint::bits());
        lemma_ctz_lt_bit_length(value.as_nat());
        lemma2_to64();
    }
    let _2: Uint = _1.add_u(_1);
    let mut x: Uint = value;
    let mut n: Uint = _0;
    while x.rem_u(_2).eq_u(_0)
        invariant
            x.as_nat() > 0,
            _0.as_nat() == 0,
            _1.as_nat() == 1,
            _2.as_nat() == 2,
            Uint::bits() >= 8,
            spec_ctz(value.as_nat()) == n.as_nat() + spec_ctz(x.as_nat()),
            n.as_nat() + spec_ctz(x.as_nat()) < Uint::bits() < pow2(Uint::bits()),
        decreases x.as_nat(),
    {
        proof {
            lemma2_to64();
            assert(x.as_nat() % 2 == 0);
            assert(spec_ctz(x.as_nat()) == 1 + spec_ctz(x.as_nat() / 2));
            assert(x.as_nat() / 2 > 0);
        }
        x = x.shr_u(_1);
        n = n.add_u(_1);
    }
    n
}

/// If `minuend >= subtrahend`, returns `minuend - subtrahend`; otherwise 0.
pub fn floor_subtract<Uint: UnsignedTrait>(minuend: Uint, subtrahend: Uint) -> (r: Uint)
    ensures
        r.as_nat() == spec_floor_sub(minuend.as_nat(), subtrahend.as_nat()),
{
    if minuend.lt_u(subtrahend) {
        Uint::zero()
    } else {
        minuend.sub_u(subtrahend)
    }
}

/// Convert a boolean to a `Uint` value.
pub fn from_bool<Uint: UnsignedTrait>(value: bool) -> (r: Uint)
    ensures
        value ==> r.as_nat() == 1,
        !value ==> r.as_nat() == 0,
{
    if value {
        Uint::one()
    } else {
        Uint::zero()
    }
}

/// Equivalent to `dividend % divisor`; `divisor` must be a power of two.
pub fn modpow2<Uint: UnsignedTrait>(dividend: Uint, divisor: Uint) -> (r: Uint)
    requires
        spec_is_pow2(divisor.as_nat()),
    ensures
        r.as_nat() == dividend.as_nat() % divisor.as_nat(),
{
    proof {
        let k = choose|k: nat| divisor.as_nat() == pow2(k);
        lemma_pow2_pos(k);
    }
    dividend.rem_u(divisor)
}

/// Reducing modulo a power of two is the same as masking to its low bits:
/// the machine-level identity `modpow2` is built on.
pub proof fn lemma_modpow2_is_mask(x: u64, k: u64)
    requires
        k < 64,
    ensures
        (1u64 << k) == pow2(k as nat),
        x % (1u64 << k) == x & ((1u64 << k) - 1) as u64,
{
    lemma_u64_pow2_no_overflow(k as nat);
    lemma_u64_shl_is_mul(1u64, k);
    lemma_u64_low_bits_mask_is_mod(x, k as nat);
}

/// Shift-left that yields 0 whenever the shift amount reaches the width.
pub fn overflow_shl<Uint: UnsignedTrait>(a: Uint, b: Uint) -> (r: Uint)
    requires
        b.as_nat() < Uint::bits() ==> a.as_nat() * pow2(b.as_nat()) < pow2(Uint::bits()),
    ensures
        b.as_nat() >= Uint::bits() ==> r.as_nat() == 0,
        b.as_nat() < Uint::bits() ==> r.as_nat() == a.as_nat() * pow2(b.as_nat()),
{
    let size_bits: Uint = bit_size_of::<Uint>();
    if b.lt_u(size_bits) {
        a.shl_u(b)
    } else {
        Uint::zero()
    }
}

/// Shift-right that yields 0 whenever the shift amount reaches the width.
pub fn overflow_shr<Uint: UnsignedTrait>(a: Uint, b: Uint) -> (r: Uint)
    ensures
        b.as_nat() >= Uint::bits() ==> r.as_nat() == 0,
        b.as_nat() < Uint::bits() ==> r.as_nat() == a.as_nat() / pow2(b.as_nat()),
{
    let size_bits: Uint = bit_size_of::<Uint>();
    if b.lt_u(size_bits) {
        a.shr_u(b)
    } else {
        Uint::zero()
    }
}

/// Count ones in binary representation, as a value of the arg type.
pub fn popcount<Uint: UnsignedTrait>(value: Uint) -> (r: Uint)
    ensures
        r.as_nat() == spec_popcount(value.as_nat()),
{
    let _0: Uint = Uint::zero();
    let _1: Uint = Uint::one();
    proof {
        Uint::lemma_width();
        value.lemma_in_range();
        lemma_popcount_le_bit_length(value.as_nat());
        lemma_bit_length_le(value.as_nat(), Uint::bits());
        lemma2_to64();
    }
    let _2: Uint = _1.add_u(_1);
    let mut x: Uint = value;
    let mut n: Uint = _0;
    while !x.eq_u(_0)
        invariant
            _0.as_nat() == 0,
            _1.as_nat() == 1,
            _2.as_nat() == 2,
            Uint::bits() >= 8,
            spec_popcount(value.as_nat()) == n.as_nat() + spec_popcount(x.as_nat()),
            n.as_nat() + spec_popcount(x.as_nat()) <= Uint::bits() < pow2(Uint::bits()),
        decreases x.as_nat(),
    {
        let parity: Uint = x.rem_u(_2);
        proof {
            lemma2_to64();
            assert(spec_popcount(x.as_nat()) == x.as_nat() % 2 + spec_popcount(x.as_nat() / 2));
        }
        n = n.add_u(parity);
        x = x.shr_u(_1);
    }
    n
}

/// Plain shift-left; the shift amount must stay below the width and no set
/// bit may be shifted out.
pub fn shl<Uint: UnsignedTrait>(a: Uint, b: Uint) -> (r: Uint)
    requires
        b.as_nat() < Uint::bits(),
        a.as_nat() * pow2(b.as_nat()) < pow2(Uint::bits()),
    ensures
        r.as_nat() == a.as_nat() * pow2(b.as_nat()),
{
    a.shl_u(b)
}

/// Plain shift-right; the shift amount must stay below the width.
pub fn shr<Uint: UnsignedTrait>(a: Uint, b: Uint) -> (r: Uint)
    requires
        b.as_nat() < Uint::bits(),
    ensures
        r.as_nat() == a.as_nat() / pow2(b.as_nat()),
{
    a.shr_u(b)
}

} // verus!
