//! The operations on single encrypted digits that the radix layer is built on.

use vstd::prelude::*;

verus! {

/// A provider of homomorphic operations on the digits of one parameter set.
///
/// The radix layer never reads a digit. It reasons about the plaintext that a
/// digit holds, `content`, and relies on each operation to act on that
/// plaintext as stated here. Every operation may be as expensive as a
/// bootstrap, and one provider may serve several threads at once.
pub trait DigitCapability: Sync {
    /// One encrypted digit.
    type Digit: Send + Sync;

    /// The provider is usable: see `parameters_are_valid`.
    spec fn wf(&self) -> bool;

    /// The size of the message space of a digit.
    spec fn message_modulus_spec(&self) -> nat;

    /// The size of the carry space of a digit.
    spec fn carry_modulus_spec(&self) -> nat;

    /// The digit belongs to this parameter set and its content is representable.
    spec fn valid_digit(&self, ct: &Self::Digit) -> bool;

    /// The plaintext that the digit holds: its message plus its carry times the
    /// message modulus.
    spec fn content(&self, ct: &Self::Digit) -> nat;

    /// Whether the parallel carry propagation may be used with this parameter
    /// set. It depends on the parameters alone, never on a digit. As far as
    /// contents go every usable parameter set could say yes: a carry moved back
    /// to its place never exceeds the digit it came from. A provider says no
    /// where its own limits, such as noise, forbid the parallel way.
    spec fn parallel_carryless_add_spec(&self) -> bool;

    /// A usable provider has at least two messages, at least one carry state,
    /// and a full modulus that fits in 64 bits.
    proof fn parameters_are_valid(&self)
        requires
            self.wf(),
        ensures
            self.message_modulus_spec() >= 2,
            self.carry_modulus_spec() >= 1,
            self.message_modulus_spec() * self.carry_modulus_spec() <= u64::MAX,
    ;

    /// A valid digit holds less than the full modulus.
    proof fn content_is_representable(&self, ct: &Self::Digit)
        requires
            self.wf(),
            self.valid_digit(ct),
        ensures
            self.content(ct) < self.message_modulus_spec() * self.carry_modulus_spec(),
    ;

    fn message_modulus(&self) -> (m: u64)
        requires
            self.wf(),
        ensures
            m == self.message_modulus_spec(),
    ;

    fn carry_modulus(&self) -> (c: u64)
        requires
            self.wf(),
        ensures
            c == self.carry_modulus_spec(),
    ;

    fn is_eligible_for_parallel_carryless_add(&self) -> (eligible: bool)
        requires
            self.wf(),
        ensures
            eligible == self.parallel_carryless_add_spec(),
    ;

    /// A digit that holds only the carry of `ct`, moved to the message position.
    fn carry_extract(&self, ct: &Self::Digit) -> (carry: Self::Digit)
        requires
            self.wf(),
            self.valid_digit(ct),
        ensures
            self.valid_digit(&carry),
            self.content(&carry) == self.content(ct) / self.message_modulus_spec(),
    ;

    /// A digit that holds only the message of `ct`.
    fn message_extract(&self, ct: &Self::Digit) -> (message: Self::Digit)
        requires
            self.wf(),
            self.valid_digit(ct),
        ensures
            self.valid_digit(&message),
            self.content(&message) == self.content(ct) % self.message_modulus_spec(),
    ;

    /// The sum of two digits. Nothing checks for overflow: where the sum is
    /// representable the result holds it, and where it is not the result is
    /// some valid digit of which no more is known.
    fn unchecked_add(&self, lhs: &Self::Digit, rhs: &Self::Digit) -> (sum: Self::Digit)
        requires
            self.wf(),
            self.valid_digit(lhs),
            self.valid_digit(rhs),
        ensures
            self.valid_digit(&sum),
            self.content(lhs) + self.content(rhs) < self.message_modulus_spec()
                * self.carry_modulus_spec() ==> self.content(&sum) == self.content(lhs)
                + self.content(rhs),
    ;

    /// Adds `rhs` into `lhs`, as `unchecked_add` does.
    fn unchecked_add_assign(&self, lhs: &mut Self::Digit, rhs: &Self::Digit)
        requires
            self.wf(),
            self.valid_digit(old(lhs)),
            self.valid_digit(rhs),
        ensures
            self.valid_digit(final(lhs)),
            self.content(old(lhs)) + self.content(rhs) < self.message_modulus_spec()
                * self.carry_modulus_spec() ==> self.content(final(lhs)) == self.content(old(lhs))
                + self.content(rhs),
    ;

    /// Takes `rhs` out of `lhs` by plain subtraction of the ciphertexts, without
    /// a bootstrap. The caller knows that `lhs` holds at least what `rhs` holds.
    fn unchecked_sub_assign(&self, lhs: &mut Self::Digit, rhs: &Self::Digit)
        requires
            self.wf(),
            self.valid_digit(old(lhs)),
            self.valid_digit(rhs),
            self.content(rhs) <= self.content(old(lhs)),
        ensures
            self.valid_digit(final(lhs)),
            self.content(final(lhs)) == self.content(old(lhs)) - self.content(rhs),
    ;

    /// The digit times a public scalar. Nothing checks for overflow: where the
    /// product is representable the result holds it, and where it is not the
    /// result is some valid digit of which no more is known.
    fn unchecked_scalar_mul(&self, ct: &Self::Digit, scalar: u64) -> (product: Self::Digit)
        requires
            self.wf(),
            self.valid_digit(ct),
        ensures
            self.valid_digit(&product),
            self.content(ct) * scalar < self.message_modulus_spec() * self.carry_modulus_spec()
                ==> self.content(&product) == self.content(ct) * scalar,
    ;

    /// A digit that holds `table[p]` where `ct` holds `p`. The table has one
    /// entry for each representable content.
    fn apply_lookup_table(&self, ct: &Self::Digit, table: &Vec<u64>) -> (image: Self::Digit)
        requires
            self.wf(),
            self.valid_digit(ct),
            table@.len() == self.message_modulus_spec() * self.carry_modulus_spec(),
            forall|p: int|
                0 <= p < table@.len() ==> #[trigger] table@[p] < self.message_modulus_spec()
                    * self.carry_modulus_spec(),
        ensures
            self.valid_digit(&image),
            self.content(&image) == table@[self.content(ct) as int],
    ;

    /// Replaces the content `p` of `ct` by `table[p]`, as `apply_lookup_table`
    /// does.
    fn apply_lookup_table_assign(&self, ct: &mut Self::Digit, table: &Vec<u64>)
        requires
            self.wf(),
            self.valid_digit(old(ct)),
            table@.len() == self.message_modulus_spec() * self.carry_modulus_spec(),
            forall|p: int|
                0 <= p < table@.len() ==> #[trigger] table@[p] < self.message_modulus_spec()
                    * self.carry_modulus_spec(),
        ensures
            self.valid_digit(final(ct)),
            self.content(final(ct)) == table@[self.content(old(ct)) as int],
    ;

    /// A digit that holds `value` without encrypting it: it decrypts to `value`
    /// under any key.
    fn create_trivial(&self, value: u64) -> (ct: Self::Digit)
        requires
            self.wf(),
            value < self.message_modulus_spec() * self.carry_modulus_spec(),
        ensures
            self.valid_digit(&ct),
            self.content(&ct) == value,
    ;
}

/// The number of contents that a digit of `key` can hold: message modulus times
/// carry modulus.
pub open spec fn full_modulus<K: DigitCapability>(key: &K) -> nat {
    key.message_modulus_spec() * key.carry_modulus_spec()
}

/// The plaintexts that a sequence of digits holds, digit by digit.
pub open spec fn digit_contents<K: DigitCapability>(key: &K, blocks: Seq<K::Digit>) -> Seq<nat> {
    Seq::new(blocks.len(), |i: int| key.content(&blocks[i]))
}

/// Every digit of the sequence is a valid digit of `key`.
pub open spec fn all_valid<K: DigitCapability>(key: &K, blocks: Seq<K::Digit>) -> bool {
    forall|i: int| 0 <= i < blocks.len() ==> key.valid_digit(&#[trigger] blocks[i])
}

/// A transform that re-encrypts a digit of the source parameter set `S` under
/// the key of the destination parameter set `D`.
///
/// Key switching is linear. It keeps the digit's place on the torus, that is
/// its content relative to the full modulus: content over source modulus
/// before equals content over destination modulus after.
pub trait LweKeyswitchKey<S: DigitCapability, D: DigitCapability> {
    /// This transform was made for switching from `src` to `dest`.
    spec fn connects(&self, src: &S, dest: &D) -> bool;

    /// Overwrites `ct_dest` with the re-encryption of `ct`. The caller knows
    /// that the place of `ct` on the torus is one that a destination digit can
    /// hold exactly.
    fn keyswitch_lwe_ciphertext(&self, src: &S, dest: &D, ct: &S::Digit, ct_dest: &mut D::Digit)
        requires
            src.wf(),
            dest.wf(),
            self.connects(src, dest),
            src.valid_digit(ct),
            dest.valid_digit(old(ct_dest)),
            (src.content(ct) * full_modulus(dest)) % full_modulus(src) == 0,
        ensures
            dest.valid_digit(final(ct_dest)),
            dest.content(final(ct_dest)) * full_modulus(src) == src.content(ct) * full_modulus(
                dest,
            ),
    ;
}

} // verus!
