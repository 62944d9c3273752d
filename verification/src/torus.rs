//! Torus elements as unsigned integers.
//!
//! An unsigned integer of `W` bits stands for a real number in `[0, 1)` scaled
//! by two to the power `W`, or by a custom modulus below that. Rounding a real
//! number to the nearest element yields a signed integer first; this module
//! brings that signed integer into the unsigned range, exactly, in the integer
//! domain.

use vstd::arithmetic::div_mod::{lemma_fundamental_div_mod_converse, lemma_small_mod};
use vstd::arithmetic::power2::{lemma2_to64, lemma_pow2_adds, pow2};
use vstd::prelude::*;

verus! {

/// An unsigned integer type that can hold torus elements, and so the
/// coefficients of ciphertexts and keys.
pub trait UnsignedTorus: Copy + Sized {
    /// The signed integer type of the same width.
    type Signed: Copy;

    /// The integer that the element holds.
    spec fn value(self) -> nat;

    /// The integer that a signed value holds.
    spec fn signed_value(signed: Self::Signed) -> int;

    /// The width of the type in bits.
    spec fn bits() -> nat;

    /// Zero for `false`, one for `true`.
    fn from_bit(bit: bool) -> (element: Self)
        ensures
            element.value() == (if bit {
                1nat
            } else {
                0nat
            }),
    ;

    /// The element that a signed value stands for under the native modulus,
    /// two to the power of the width: negative values wrap around.
    fn from_signed(signed: Self::Signed) -> (element: Self)
        ensures
            element.value() == Self::signed_value(signed) % (pow2(Self::bits()) as int),
    ;

    /// The element that a signed value stands for under a custom modulus: a
    /// negative value has the modulus added, so that the result is never the
    /// modulus or more.
    fn from_signed_custom_mod(signed: Self::Signed, custom_modulus: Self) -> (element: Self)
        requires
            -custom_modulus.value() <= Self::signed_value(signed) < custom_modulus.value(),
        ensures
            element.value() < custom_modulus.value(),
            element.value() == Self::signed_value(signed) % (custom_modulus.value() as int),
    ;
}

/// The element that stands for `x` under the modulus `m` comes back from
/// either signed value that rounding can give for it: `x` itself, and `x` less
/// the modulus.
pub proof fn law_custom_mod_recovers_element(x: nat, m: nat)
    requires
        x < m,
    ensures
        (x as int) % (m as int) == x,
        (x - m) % (m as int) == x,
{
    lemma_small_mod(x, m);
    lemma_fundamental_div_mod_converse(x - m, m as int, -1, x as int);
}

impl UnsignedTorus for u32 {
    type Signed = i32;

    open spec fn value(self) -> nat {
        self as nat
    }

    open spec fn signed_value(signed: i32) -> int {
        signed as int
    }

    open spec fn bits() -> nat {
        32
    }

    fn from_bit(bit: bool) -> (element: u32) {
        if bit {
            1
        } else {
            0
        }
    }

    fn from_signed(signed: i32) -> (element: u32) {
        proof {
            lemma2_to64();
        }
        if signed >= 0 {
            proof {
                lemma_small_mod(signed as nat, pow2(32));
            }
            signed as u32
        } else {
            let below: u32 = (-(signed + 1)) as u32;
            let element: u32 = u32::MAX - below;
            proof {
                lemma_fundamental_div_mod_converse(
                    signed as int,
                    pow2(32) as int,
                    -1,
                    element as int,
                );
            }
            element
        }
    }

    fn from_signed_custom_mod(signed: i32, custom_modulus: u32) -> (element: u32) {
        if signed >= 0 {
            proof {
                lemma_small_mod(signed as nat, custom_modulus as nat);
            }
            signed as u32
        } else {
            // The magnitude of the negative value, less one, so that it fits.
            let below: u32 = (-(signed + 1)) as u32;
            // As the value was negative, its magnitude is subtracted from the
            // modulus to get the proper representant.
            let element: u32 = custom_modulus - 1 - below;
            proof {
                lemma_fundamental_div_mod_converse(
                    signed as int,
                    custom_modulus as int,
                    -1,
                    element as int,
                );
            }
            element
        }
    }
}

impl UnsignedTorus for u64 {
    type Signed = i64;

    open spec fn value(self) -> nat {
        self as nat
    }

    open spec fn signed_value(signed: i64) -> int {
        signed as int
    }

    open spec fn bits() -> nat {
        64
    }

    fn from_bit(bit: bool) -> (element: u64) {
        if bit {
            1
        } else {
            0
        }
    }

    fn from_signed(signed: i64) -> (element: u64) {
        proof {
            lemma2_to64();
        }
        if signed >= 0 {
            proof {
                lemma_small_mod(signed as nat, pow2(64));
            }
            signed as u64
        } else {
            let below: u64 = (-(signed + 1)) as u64;
            let element: u64 = u64::MAX - below;
            proof {
                lemma_fundamental_div_mod_converse(
                    signed as int,
                    pow2(64) as int,
                    -1,
                    element as int,
                );
            }
            element
        }
    }

    fn from_signed_custom_mod(signed: i64, custom_modulus: u64) -> (element: u64) {
        if signed >= 0 {
            proof {
                lemma_small_mod(signed as nat, custom_modulus as nat);
            }
            signed as u64
        } else {
            // The magnitude of the negative value, less one, so that it fits.
            let below: u64 = (-(signed + 1)) as u64;
            // As the value was negative, its magnitude is subtracted from the
            // modulus to get the proper representant.
            let element: u64 = custom_modulus - 1 - below;
            proof {
                lemma_fundamental_div_mod_converse(
                    signed as int,
                    custom_modulus as int,
                    -1,
                    element as int,
                );
            }
            element
        }
    }
}

impl UnsignedTorus for u128 {
    type Signed = i128;

    open spec fn value(self) -> nat {
        self as nat
    }

    open spec fn signed_value(signed: i128) -> int {
        signed as int
    }

    open spec fn bits() -> nat {
        128
    }

    fn from_bit(bit: bool) -> (element: u128) {
        if bit {
            1
        } else {
            0
        }
    }

    fn from_signed(signed: i128) -> (element: u128) {
        proof {
            lemma2_to64();
            lemma_pow2_adds(64, 64);
            assert(0x1_0000_0000_0000_0000 * 0x1_0000_0000_0000_0000 == u128::MAX + 1) by (nonlinear_arith);
        }
        if signed >= 0 {
            proof {
                lemma_small_mod(signed as nat, pow2(128));
            }
            signed as u128
        } else {
            let below: u128 = (-(signed + 1)) as u128;
            let element: u128 = u128::MAX - below;
            proof {
                lemma_fundamental_div_mod_converse(
                    signed as int,
                    pow2(128) as int,
                    -1,
                    element as int,
                );
            }
            element
        }
    }

    fn from_signed_custom_mod(signed: i128, custom_modulus: u128) -> (element: u128) {
        if signed >= 0 {
            proof {
                lemma_small_mod(signed as nat, custom_modulus as nat);
            }
            signed as u128
        } else {
            // The magnitude of the negative value, less one, so that it fits.
            let below: u128 = (-(signed + 1)) as u128;
            // As the value was negative, its magnitude is subtracted from the
            // modulus to get the proper representant.
            let element: u128 = custom_modulus - 1 - below;
            proof {
                lemma_fundamental_div_mod_converse(
                    signed as int,
                    custom_modulus as int,
                    -1,
                    element as int,
                );
            }
            element
        }
    }
}

} // verus!
