//! `UnsignedTrait` implementations for the four supported widths.
use vstd::prelude::*;
use vstd::arithmetic::power2::*;
use vstd::arithmetic::div_mod::lemma_small_mod;
use vstd::arithmetic::div_mod::lemma_mod_multiples_vanish;
use vstd::bits::*;

use crate::_auxlib::UnsignedTrait;

verus! {

impl UnsignedTrait for u8 {
    open spec fn as_nat(self) -> nat {
        self as nat
    }

    open spec fn bits() -> nat {
        8
    }

    proof fn lemma_width() {
    }

    proof fn lemma_in_range(self) {
        lemma2_to64();
    }

    fn zero() -> (r: Self) {
        0
    }

    fn one() -> (r: Self) {
        1
    }

    fn size_u() -> (r: Self) {
        8
    }

    fn fits_u64(value: u64) -> (r: bool) {
        proof {
            lemma2_to64();
        }
        value <= u8::MAX as u64
    }

    fn eq_u(self, other: Self) -> (r: bool) {
        self == other
    }

    fn lt_u(self, other: Self) -> (r: bool) {
        self < other
    }

    fn add_u(self, other: Self) -> (r: Self) {
        proof {
            lemma2_to64();
        }
        self + other
    }

    fn sub_u(self, other: Self) -> (r: Self) {
        self - other
    }

    fn mul_u(self, other: Self) -> (r: Self) {
        proof {
            lemma2_to64();
        }
        self * other
    }

    fn rem_u(self, other: Self) -> (r: Self) {
        self % other
    }

    fn shl_u(self, shift: Self) -> (r: Self) {
        proof {
            lemma2_to64();
            lemma_u8_shl_is_mul(self, shift);
        }
        self << shift
    }

    fn shr_u(self, shift: Self) -> (r: Self) {
        proof {
            lemma_u8_shr_is_div(self, shift);
        }
        self >> shift
    }

    fn wrap_add_u(self, other: Self) -> (r: Self) {
        proof {
            lemma2_to64();
        }
        if other <= u8::MAX - self {
            proof {
                lemma_small_mod((self + other) as nat, 256);
            }
            self + other
        } else {
            proof {
                lemma_mod_multiples_vanish(1, self + other - 256, 256);
                lemma_small_mod((self + other - 256) as nat, 256);
            }
            self - (u8::MAX - other) - 1
        }
    }
}

impl UnsignedTrait for u16 {
    open spec fn as_nat(self) -> nat {
        self as nat
    }

    open spec fn bits() -> nat {
        16
    }

    proof fn lemma_width() {
    }

    proof fn lemma_in_range(self) {
        lemma2_to64();
    }

    fn zero() -> (r: Self) {
        0
    }

    fn one() -> (r: Self) {
        1
    }

    fn size_u() -> (r: Self) {
        16
    }

    fn fits_u64(value: u64) -> (r: bool) {
        proof {
            lemma2_to64();
        }
        value <= u16::MAX as u64
    }

    fn eq_u(self, other: Self) -> (r: bool) {
        self == other
    }

    fn lt_u(self, other: Self) -> (r: bool) {
        self < other
    }

    fn add_u(self, other: Self) -> (r: Self) {
        proof {
            lemma2_to64();
        }
        self + other
    }

    fn sub_u(self, other: Self) -> (r: Self) {
        self - other
    }

    fn mul_u(self, other: Self) -> (r: Self) {
        proof {
            lemma2_to64();
        }
        self * other
    }

    fn rem_u(self, other: Self) -> (r: Self) {
        self % other
    }

    fn shl_u(self, shift: Self) -> (r: Self) {
        proof {
            lemma2_to64();
            lemma_u16_shl_is_mul(self, shift);
        }
        self << shift
    }

    fn shr_u(self, shift: Self) -> (r: Self) {
        proof {
            lemma_u16_shr_is_div(self, shift);
        }
        self >> shift
    }

    fn wrap_add_u(self, other: Self) -> (r: Self) {
        proof {
            lemma2_to64();
        }
        if other <= u16::MAX - self {
            proof {
                lemma_small_mod((self + other) as nat, 65536);
            }
            self + other
        } else {
            proof {
                lemma_mod_multiples_vanish(1, self + other - 65536, 65536);
                lemma_small_mod((self + other - 65536) as nat, 65536);
            }
            self - (u16::MAX - other) - 1
        }
    }
}

impl UnsignedTrait for u32 {
    open spec fn as_nat(self) -> nat {
        self as nat
    }

    open spec fn bits() -> nat {
        32
    }

    proof fn lemma_width() {
    }

    proof fn lemma_in_range(self) {
        lemma2_to64();
    }

    fn zero() -> (r: Self) {
        0
    }

    fn one() -> (r: Self) {
        1
    }

    fn size_u() -> (r: Self) {
        32
    }

    fn fits_u64(value: u64) -> (r: bool) {
        proof {
            lemma2_to64();
        }
        value <= u32::MAX as u64
    }

    fn eq_u(self, other: Self) -> (r: bool) {
        self == other
    }

    fn lt_u(self, other: Self) -> (r: bool) {
        self < other
    }

    fn add_u(self, other: Self) -> (r: Self) {
        proof {
            lemma2_to64();
        }
        self + other
    }

    fn sub_u(self, other: Self) -> (r: Self) {
        self - other
    }

    fn mul_u(self, other: Self) -> (r: Self) {
        proof {
            lemma2_to64();
        }
        self * other
    }

    fn rem_u(self, other: Self) -> (r: Self) {
        self % other
    }

    fn shl_u(self, shift: Self) -> (r: Self) {
        proof {
            lemma2_to64();
            lemma_u32_shl_is_mul(self, shift);
        }
        self << shift
    }

    fn shr_u(self, shift: Self) -> (r: Self) {
        proof {
            lemma_u32_shr_is_div(self, shift);
        }
        self >> shift
    }

    fn wrap_add_u(self, other: Self) -> (r: Self) {
        proof {
            lemma2_to64();
        }
        if other <= u32::MAX - self {
            proof {
                lemma_small_mod((self + other) as nat, 0x1_0000_0000);
            }
            self + other
        } else {
            proof {
                lemma_mod_multiples_vanish(1, self + other - 0x1_0000_0000, 0x1_0000_0000);
                lemma_small_mod((self + other - 0x1_0000_0000) as nat, 0x1_0000_0000);
            }
            self - (u32::MAX - other) - 1
        }
    }
}

impl UnsignedTrait for u64 {
    open spec fn as_nat(self) -> nat {
        self as nat
    }

    open spec fn bits() -> nat {
        64
    }

    proof fn lemma_width() {
    }

    proof fn lemma_in_range(self) {
        lemma2_to64();
    }

    fn zero() -> (r: Self) {
        0
    }

    fn one() -> (r: Self) {
        1
    }

    fn size_u() -> (r: Self) {
        64
    }

    fn fits_u64(value: u64) -> (r: bool) {
        proof {
            lemma2_to64();
        }
        true
    }

    fn eq_u(self, other: Self) -> (r: bool) {
        self == other
    }

    fn lt_u(self, other: Self) -> (r: bool) {
        self < other
    }

    fn add_u(self, other: Self) -> (r: Self) {
        proof {
            lemma2_to64();
        }
        self + other
    }

    fn sub_u(self, other: Self) -> (r: Self) {
        self - other
    }

    fn mul_u(self, other: Self) -> (r: Self) {
        proof {
            lemma2_to64();
        }
        self * other
    }

    fn rem_u(self, other: Self) -> (r: Self) {
        self % other
    }

    fn shl_u(self, shift: Self) -> (r: Self) {
        proof {
            lemma2_to64();
            lemma_u64_shl_is_mul(self, shift);
        }
        self << shift
    }

    fn shr_u(self, shift: Self) -> (r: Self) {
        proof {
            lemma_u64_shr_is_div(self, shift);
        }
        self >> shift
    }

    fn wrap_add_u(self, other: Self) -> (r: Self) {
        proof {
            lemma2_to64();
        }
        if other <= u64::MAX - self {
            proof {
                lemma_small_mod((self + other) as nat, 0x1_0000_0000_0000_0000);
            }
            self + other
        } else {
            proof {
                lemma_mod_multiples_vanish(
                    1,
                    self + other - 0x1_0000_0000_0000_0000,
                    0x1_0000_0000_0000_0000,
                );
                lemma_small_mod(
                    (self + other - 0x1_0000_0000_0000_0000) as nat,
                    0x1_0000_0000_0000_0000,
                );
            }
            self - (u64::MAX - other) - 1
        }
    }
}

} // verus!
