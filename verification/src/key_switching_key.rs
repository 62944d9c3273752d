//! Casting a digit from one parameter set to another.
//!
//! A key switch re-encrypts a digit under another key and keeps its place on
//! the torus. Where the two full moduli differ, that place stands for another
//! content, and a lookup table shifts the content back: after the switch when
//! the destination is wider, before it when the destination is narrower, so
//! that the digit never has to hold more than the modulus it lives in.

use crate::capability::{full_modulus, DigitCapability, LweKeyswitchKey};
use vstd::arithmetic::div_mod::{
    lemma_div_by_multiple, lemma_mod_multiples_basic, lemma_small_mod, lemma_truncate_middle,
};
use vstd::arithmetic::power2::{
    lemma2_to64, lemma2_to64_rest, lemma_pow2_adds, lemma_pow2_pos, lemma_pow2_strictly_increases,
    lemma_pow2_unfold, pow2,
};
use vstd::bits::{lemma_u64_pow2_no_overflow, lemma_u64_shl_is_mul, lemma_u64_shr_is_div};
use vstd::prelude::*;

verus! {

/// `n` is two to some power.
pub open spec fn is_power_of_two(n: nat) -> bool {
    exists|k: nat| n == pow2(k)
}

/// The number of bits of a power of two: the `k` with `n == pow2(k)`.
pub open spec fn bits_of(n: nat) -> nat {
    choose|k: nat| n == pow2(k)
}

/// A power of two has one number of bits only.
pub proof fn lemma_bits_of_pow2(k: nat)
    ensures
        is_power_of_two(pow2(k)),
        bits_of(pow2(k)) == k,
{
    let b = bits_of(pow2(k));
    if b < k {
        lemma_pow2_strictly_increases(b, k);
    }
    if k < b {
        lemma_pow2_strictly_increases(k, b);
    }
}

/// The number of bits of `x` where `x` is a power of two, `None` where it is
/// not.
pub fn power_of_two_bits(x: u64) -> (bits: Option<u8>)
    ensures
        bits.is_some() == is_power_of_two(x as nat),
        bits.is_some() ==> bits.unwrap() < 64 && bits.unwrap() == bits_of(x as nat) && x == pow2(
            bits.unwrap() as nat,
        ),
{
    let mut p: u64 = 1;
    let mut k: u8 = 0;
    proof {
        lemma2_to64();
        lemma2_to64_rest();
    }
    while p < x && k < 63
        invariant
            p == pow2(k as nat),
            k <= 63,
            k > 0 ==> pow2((k - 1) as nat) < x,
        decreases 63 - k,
    {
        proof {
            lemma2_to64();
            lemma_pow2_unfold((k + 1) as nat);
            lemma_pow2_strictly_increases((k + 1) as nat, 64);
        }
        p = p * 2;
        k = k + 1;
    }
    if p == x {
        proof {
            lemma_bits_of_pow2(k as nat);
        }
        Some(k)
    } else {
        proof {
            assert forall|j: nat| x != pow2(j) by {
                if j < k {
                    if j < k - 1 {
                        lemma_pow2_strictly_increases(j, (k - 1) as nat);
                    }
                } else if j > k {
                    lemma_pow2_strictly_increases(k as nat, j);
                    if k == 63 && p < x {
                        if j > 64 {
                            lemma_pow2_strictly_increases(64, j);
                        }
                    }
                }
            }
        }
        None
    }
}

/// The lookup table of `n >> shift`: one entry for each content below
/// `modulus`.
pub fn shift_right_table(modulus: u64, shift: u8) -> (table: Vec<u64>)
    requires
        shift < 64,
    ensures
        table@.len() == modulus,
        forall|n: int| 0 <= n < modulus ==> #[trigger] table@[n] == n / (pow2(shift as nat) as int),
        forall|n: int| 0 <= n < modulus ==> #[trigger] table@[n] < modulus,
{
    let mut table: Vec<u64> = Vec::new();
    let mut n: u64 = 0;
    while n < modulus
        invariant
            shift < 64,
            n <= modulus,
            table@.len() == n,
            forall|i: int| 0 <= i < n ==> #[trigger] table@[i] == i / (pow2(shift as nat) as int),
            forall|i: int| 0 <= i < n ==> #[trigger] table@[i] < modulus,
        decreases modulus - n,
    {
        let sh: u64 = shift as u64;
        proof {
            lemma_u64_shr_is_div(n, sh);
            lemma_pow2_pos(shift as nat);
            vstd::arithmetic::div_mod::lemma_div_is_ordered_by_denominator(
                n as int,
                1,
                pow2(shift as nat) as int,
            );
        }
        table.push(n >> sh);
        n = n + 1;
    }
    table
}

/// The lookup table of `n << shift`, reduced modulo `modulus`: one entry for
/// each content below `modulus`.
pub fn shift_left_table(modulus: u64, shift: u8) -> (table: Vec<u64>)
    requires
        shift < 64,
    ensures
        table@.len() == modulus,
        forall|n: int|
            0 <= n < modulus ==> #[trigger] table@[n] == (n * pow2(shift as nat)) % (
            modulus as int),
        forall|n: int| 0 <= n < modulus ==> #[trigger] table@[n] < modulus,
{
    let sh: u64 = shift as u64;
    proof {
        lemma_u64_pow2_no_overflow(shift as nat);
        lemma_u64_shl_is_mul(1, sh);
    }
    let factor: u64 = 1u64 << sh;
    let mut table: Vec<u64> = Vec::new();
    let mut n: u64 = 0;
    while n < modulus
        invariant
            factor == pow2(shift as nat),
            n <= modulus,
            table@.len() == n,
            forall|i: int|
                0 <= i < n ==> #[trigger] table@[i] == (i * pow2(shift as nat)) % (modulus as int),
            forall|i: int| 0 <= i < n ==> #[trigger] table@[i] < modulus,
        decreases modulus - n,
    {
        proof {
            assert(n * factor <= u64::MAX * u64::MAX) by (nonlinear_arith)
                requires
                    n <= u64::MAX,
                    factor <= u64::MAX,
            ;
            vstd::arithmetic::div_mod::lemma_mod_bound((n * factor) as int, modulus as int);
        }
        let wide: u128 = (n as u128) * (factor as u128);
        let entry: u64 = (wide % (modulus as u128)) as u64;
        table.push(entry);
        n = n + 1;
    }
    table
}

/// Why a casting key could not be made.
#[derive(Clone, Copy, Debug, PartialEq, Eq)]
pub enum KeySwitchingKeyError {
    /// The full modulus of one of the two parameter sets is not a power of
    /// two: a shift by bits cannot rescale its contents.
    FullModulusNotPowerOfTwo,
}

/// The casting key: what a server needs to cast digits of a source parameter
/// set to a destination parameter set.
pub struct KeySwitchingKey<S: DigitCapability, D: DigitCapability, T: LweKeyswitchKey<S, D>> {
    pub key_switching_key: T,
    pub dest_server_key: D,
    pub src_server_key: S,
    /// Bits of the destination full modulus minus bits of the source full
    /// modulus.
    pub cast_rshift: i8,
}

impl<S: DigitCapability, D: DigitCapability, T: LweKeyswitchKey<S, D>> KeySwitchingKey<S, D, T> {
    /// The key is usable: its two capabilities are, the transform connects
    /// them, both full moduli are powers of two, and `cast_rshift` is the
    /// difference of their bits.
    pub open spec fn wf(&self) -> bool {
        &&& self.src_server_key.wf()
        &&& self.dest_server_key.wf()
        &&& self.key_switching_key.connects(&self.src_server_key, &self.dest_server_key)
        &&& is_power_of_two(full_modulus(&self.src_server_key))
        &&& is_power_of_two(full_modulus(&self.dest_server_key))
        &&& self.cast_rshift == bits_of(full_modulus(&self.dest_server_key)) - bits_of(
            full_modulus(&self.src_server_key),
        )
    }

    /// Packs a casting key from the transform and the two capabilities that it
    /// connects. It fails where the full modulus of either parameter set is not
    /// a power of two, and only there.
    pub fn new(key_switching_key: T, src_server_key: S, dest_server_key: D) -> (made: Result<
        Self,
        KeySwitchingKeyError,
    >)
        requires
            src_server_key.wf(),
            dest_server_key.wf(),
            key_switching_key.connects(&src_server_key, &dest_server_key),
        ensures
            made.is_ok() == (is_power_of_two(full_modulus(&src_server_key)) && is_power_of_two(
                full_modulus(&dest_server_key),
            )),
            match made {
                Ok(key) => {
                    &&& key.wf()
                    &&& key.key_switching_key == key_switching_key
                    &&& key.src_server_key == src_server_key
                    &&& key.dest_server_key == dest_server_key
                    &&& key.cast_rshift == bits_of(full_modulus(&dest_server_key)) - bits_of(
                        full_modulus(&src_server_key),
                    )
                },
                Err(error) => error == KeySwitchingKeyError::FullModulusNotPowerOfTwo,
            },
    {
        proof {
            src_server_key.parameters_are_valid();
            dest_server_key.parameters_are_valid();
        }
        let full_message_modulus_1 = full_modulus_of(&src_server_key);
        let full_message_modulus_2 = full_modulus_of(&dest_server_key);
        match (power_of_two_bits(full_message_modulus_1), power_of_two_bits(full_message_modulus_2)) {
            (Some(nb_bits_1), Some(nb_bits_2)) => {
                let cast_rshift: i8 = (nb_bits_2 as i8) - (nb_bits_1 as i8);
                Ok(KeySwitchingKey { key_switching_key, dest_server_key, src_server_key, cast_rshift })
            },
            _ => Err(KeySwitchingKeyError::FullModulusNotPowerOfTwo),
        }
    }

    /// Casts a digit of the source parameter set into `ct_dest`, a digit of the
    /// destination parameter set. The content arrives unchanged where the
    /// destination can hold it, and reduced modulo the destination full modulus
    /// in any case.
    pub fn cast_into(&self, ct: &S::Digit, ct_dest: &mut D::Digit)
        requires
            self.wf(),
            self.src_server_key.valid_digit(ct),
            self.dest_server_key.valid_digit(old(ct_dest)),
        ensures
            self.dest_server_key.valid_digit(final(ct_dest)),
            self.dest_server_key.content(final(ct_dest)) == self.src_server_key.content(ct)
                % full_modulus(&self.dest_server_key),
            self.src_server_key.content(ct) < full_modulus(&self.dest_server_key)
                ==> self.dest_server_key.content(final(ct_dest)) == self.src_server_key.content(
                ct,
            ),
    {
        let ghost p = self.src_server_key.content(ct);
        let ghost src_full = full_modulus(&self.src_server_key);
        let ghost dest_full = full_modulus(&self.dest_server_key);
        let ghost src_bits = bits_of(src_full);
        let ghost dest_bits = bits_of(dest_full);
        proof {
            self.src_server_key.parameters_are_valid();
            self.dest_server_key.parameters_are_valid();
            self.src_server_key.content_is_representable(ct);
            lemma_pow2_pos(src_bits);
            lemma_pow2_pos(dest_bits);
            lemma2_to64();
            if src_bits > 64 {
                lemma_pow2_strictly_increases(64, src_bits);
            }
            if dest_bits > 64 {
                lemma_pow2_strictly_increases(64, dest_bits);
            }
            assert(src_bits < 64 && dest_bits < 64);
        }
        let shift = self.cast_rshift;
        if shift == 0 {
            // Same bit size: only key switch.
            proof {
                lemma_mod_multiples_basic(p as int, src_full as int);
                lemma_small_mod(p, dest_full);
            }
            self.key_switching_key.keyswitch_lwe_ciphertext(
                &self.src_server_key,
                &self.dest_server_key,
                ct,
                ct_dest,
            );
            proof {
                lemma_cancel(self.dest_server_key.content(ct_dest), p, src_full);
            }
        } else if shift > 0 {
            // Cast to bigger bit length: key switch, then right shift.
            let bits: u8 = shift as u8;
            let ghost scale = pow2(bits as nat);
            proof {
                lemma_pow2_adds(src_bits, bits as nat);
                lemma_pow2_pos(bits as nat);
                assert(p * dest_full == (p * scale) * src_full) by (nonlinear_arith)
                    requires
                        dest_full == src_full * scale,
                ;
                lemma_mod_multiples_basic((p * scale) as int, src_full as int);
                assert(p < dest_full) by (nonlinear_arith)
                    requires
                        dest_full == src_full * scale,
                        p < src_full,
                        scale >= 1,
                ;
                lemma_small_mod(p, dest_full);
            }
            self.key_switching_key.keyswitch_lwe_ciphertext(
                &self.src_server_key,
                &self.dest_server_key,
                ct,
                ct_dest,
            );
            proof {
                lemma_cancel(self.dest_server_key.content(ct_dest), p * scale, src_full);
                lemma_div_by_multiple(p as int, scale as int);
                self.dest_server_key.content_is_representable(ct_dest);
            }
            let acc = shift_right_table(full_modulus_of(&self.dest_server_key), bits);
            self.dest_server_key.apply_lookup_table_assign(ct_dest, &acc);
        } else {
            // Cast to smaller bit length: left shift, then key switch.
            let bits: u8 = (-shift) as u8;
            let ghost scale = pow2(bits as nat);
            let acc = shift_left_table(full_modulus_of(&self.src_server_key), bits);
            let shifted_cipher = self.src_server_key.apply_lookup_table(ct, &acc);
            let ghost reduced = p % dest_full;
            proof {
                lemma_pow2_adds(dest_bits, bits as nat);
                lemma_pow2_pos(bits as nat);
                lemma_truncate_middle(p as int, scale as int, dest_full as int);
                assert(src_full == scale * dest_full) by (nonlinear_arith)
                    requires
                        src_full == dest_full * scale,
                ;
                assert(p * scale == scale * p) by (nonlinear_arith);
                let q = self.src_server_key.content(&shifted_cipher);
                assert(q == scale * reduced);
                assert(q * dest_full == reduced * src_full) by (nonlinear_arith)
                    requires
                        q == scale * reduced,
                        src_full == dest_full * scale,
                ;
                lemma_mod_multiples_basic(reduced as int, src_full as int);
            }
            self.key_switching_key.keyswitch_lwe_ciphertext(
                &self.src_server_key,
                &self.dest_server_key,
                &shifted_cipher,
                ct_dest,
            );
            proof {
                lemma_cancel(self.dest_server_key.content(ct_dest), reduced, src_full);
                if p < dest_full {
                    lemma_small_mod(p, dest_full);
                }
            }
        }
    }

    /// Casts a digit of the source parameter set to the destination parameter
    /// set and returns the new digit, as `cast_into` does.
    pub fn cast(&self, ct: &S::Digit) -> (ret: D::Digit)
        requires
            self.wf(),
            self.src_server_key.valid_digit(ct),
        ensures
            self.dest_server_key.valid_digit(&ret),
            self.dest_server_key.content(&ret) == self.src_server_key.content(ct) % full_modulus(
                &self.dest_server_key,
            ),
            self.src_server_key.content(ct) < full_modulus(&self.dest_server_key)
                ==> self.dest_server_key.content(&ret) == self.src_server_key.content(ct),
    {
        proof {
            self.dest_server_key.parameters_are_valid();
            assert(0 < full_modulus(&self.dest_server_key)) by (nonlinear_arith)
                requires
                    self.dest_server_key.message_modulus_spec() >= 2,
                    self.dest_server_key.carry_modulus_spec() >= 1,
                    full_modulus(&self.dest_server_key)
                        == self.dest_server_key.message_modulus_spec()
                        * self.dest_server_key.carry_modulus_spec(),
            ;
        }
        let mut ret = self.dest_server_key.create_trivial(0);
        self.cast_into(ct, &mut ret);
        ret
    }
}

/// Equal multiples of a positive number come from equal numbers.
proof fn lemma_cancel(a: nat, b: nat, f: nat)
    requires
        f > 0,
        a * f == b * f,
    ensures
        a == b,
{
    assert(a == b) by (nonlinear_arith)
        requires
            f > 0,
            a * f == b * f,
    ;
}

/// The full modulus of a capability: carry modulus times message modulus.
pub fn full_modulus_of<K: DigitCapability>(key: &K) -> (full: u64)
    requires
        key.wf(),
    ensures
        full == full_modulus(key),
{
    proof {
        key.parameters_are_valid();
        vstd::arithmetic::mul::lemma_mul_is_commutative(
            key.carry_modulus_spec() as int,
            key.message_modulus_spec() as int,
        );
    }
    key.carry_modulus() * key.message_modulus()
}

} // verus!
