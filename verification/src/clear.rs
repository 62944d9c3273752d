//! A provider of digit operations that works on digits in the clear.
//!
//! A clear digit is a trivial encryption: it shows its content. The provider
//! serves as the executable model of the operations and lets the radix layer
//! run without any key material.

use crate::capability::{all_valid, digit_contents, DigitCapability, LweKeyswitchKey};
use crate::radix_model::{radix_digits, radix_value};
use crate::ciphertext::RadixCiphertext;
use vstd::prelude::*;

verus! {

/// A digit that holds its content in the clear.
#[derive(Clone, Copy, Debug, PartialEq, Eq)]
pub struct ClearDigit {
    pub value: u64,
}

/// The parameters of a set of clear digits.
#[derive(Clone, Copy, Debug, PartialEq, Eq)]
pub struct ClearKey {
    message_modulus: u64,
    carry_modulus: u64,
    parallel_carryless_add: bool,
}

/// Moduli that a provider can work with.
pub open spec fn valid_moduli(message_modulus: nat, carry_modulus: nat) -> bool {
    message_modulus >= 2 && carry_modulus >= 1 && message_modulus * carry_modulus <= u64::MAX
}

impl ClearKey {
    /// A provider for the given moduli, or `None` where they are not valid.
    /// `parallel_carryless_add` says whether the parallel propagation is to be
    /// used with it.
    pub fn new(message_modulus: u64, carry_modulus: u64, parallel_carryless_add: bool) -> (key:
        Option<ClearKey>)
        ensures
            key.is_some() == valid_moduli(message_modulus as nat, carry_modulus as nat),
            key.is_some() ==> {
                let k = key.unwrap();
                &&& k.wf()
                &&& k.message_modulus_spec() == message_modulus
                &&& k.carry_modulus_spec() == carry_modulus
                &&& k.parallel_carryless_add_spec() == parallel_carryless_add
            },
    {
        if message_modulus < 2 || carry_modulus < 1 {
            return None;
        }
        match message_modulus.checked_mul(carry_modulus) {
            Some(_) => Some(ClearKey { message_modulus, carry_modulus, parallel_carryless_add }),
            None => None,
        }
    }

    /// What a clear digit keeps of a content that may be too large for it: the
    /// content reduced modulo the full modulus.
    fn reduce(&self, content: u128) -> (value: u64)
        requires
            self.wf(),
        ensures
            value == content % ((self.message_modulus_spec() * self.carry_modulus_spec()) as u128),
            value < self.message_modulus_spec() * self.carry_modulus_spec(),
            content < self.message_modulus_spec() * self.carry_modulus_spec() ==> value
                == content,
    {
        let full: u64 = self.message_modulus * self.carry_modulus;
        proof {
            assert(0 < self.message_modulus * self.carry_modulus) by (nonlinear_arith)
                requires
                    self.message_modulus >= 2,
                    self.carry_modulus >= 1,
            ;
            vstd::arithmetic::div_mod::lemma_mod_bound(content as int, full as int);
            if content < full {
                vstd::arithmetic::div_mod::lemma_small_mod(content as nat, full as nat);
            }
        }
        (content % (full as u128)) as u64
    }

    /// The content of a digit.
    pub fn decrypt(&self, ct: &ClearDigit) -> (value: u64)
        ensures
            value == self.content(ct),
    {
        ct.value
    }

    /// The clean radix integer of `num_blocks` digits that stands for `value`,
    /// reduced to what that many digits can hold.
    pub fn encrypt_radix(&self, value: u64, num_blocks: usize) -> (ctxt: RadixCiphertext<
        ClearDigit,
    >)
        requires
            self.wf(),
        ensures
            ctxt.blocks@.len() == num_blocks,
            all_valid(self, ctxt.blocks@),
            digit_contents(self, ctxt.blocks@) == radix_digits(
                value as nat,
                self.message_modulus_spec(),
                num_blocks as nat,
            ),
    {
        let ghost m = self.message_modulus as nat;
        let mut blocks: Vec<ClearDigit> = Vec::new();
        let mut rest: u64 = value;
        let mut k: usize = 0;
        while k < num_blocks
            invariant
                self.wf(),
                m == self.message_modulus,
                k <= num_blocks,
                blocks@.len() == k,
                all_valid(self, blocks@),
                radix_digits(value as nat, m, num_blocks as nat) == digit_contents(self, blocks@)
                    + radix_digits(rest as nat, m, (num_blocks - k) as nat),
            decreases num_blocks - k,
        {
            let ghost before = digit_contents(self, blocks@);
            let digit = ClearDigit { value: rest % self.message_modulus };
            proof {
                vstd::arithmetic::mul::lemma_mul_increases(
                    self.carry_modulus as int,
                    self.message_modulus as int,
                );
                vstd::arithmetic::mul::lemma_mul_is_commutative(
                    self.carry_modulus as int,
                    self.message_modulus as int,
                );
            }
            blocks.push(digit);
            proof {
                let tail = radix_digits((rest / self.message_modulus) as nat, m, (num_blocks - k
                    - 1) as nat);
                assert(radix_digits(rest as nat, m, (num_blocks - k) as nat) == seq![
                    (rest % self.message_modulus) as nat,
                ] + tail);
                assert(digit_contents(self, blocks@) =~= before + seq![
                    (rest % self.message_modulus) as nat,
                ]);
                assert(before + (seq![(rest % self.message_modulus) as nat] + tail) =~= (before
                    + seq![(rest % self.message_modulus) as nat]) + tail);
            }
            rest = rest / self.message_modulus;
            k = k + 1;
        }
        assert(radix_digits(rest as nat, m, 0) =~= Seq::<nat>::empty());
        assert(digit_contents(self, blocks@) + Seq::<nat>::empty() =~= digit_contents(
            self,
            blocks@,
        ));
        RadixCiphertext::from_blocks(blocks)
    }

    /// The integer that a radix integer stands for, carries included, or `None`
    /// where it does not fit in 64 bits.
    pub fn decrypt_radix(&self, ctxt: &RadixCiphertext<ClearDigit>) -> (value: Option<u64>)
        requires
            self.wf(),
        ensures
            value.is_some() == (radix_value(
                digit_contents(self, ctxt.blocks@),
                self.message_modulus_spec(),
            ) <= u64::MAX),
            value.is_some() ==> value.unwrap() == radix_value(
                digit_contents(self, ctxt.blocks@),
                self.message_modulus_spec(),
            ),
    {
        let ghost m = self.message_modulus as nat;
        let ghost s = digit_contents(self, ctxt.blocks@);
        let mut acc: u64 = 0;
        let mut k: usize = ctxt.blocks.len();
        assert(s.skip(k as int) =~= Seq::<nat>::empty());
        while k > 0
            invariant
                self.wf(),
                m == self.message_modulus,
                s == digit_contents(self, ctxt.blocks@),
                k <= ctxt.blocks@.len(),
                acc == radix_value(s.skip(k as int), m),
            decreases k,
        {
            proof {
                let upper = s.skip(k - 1);
                assert(upper.skip(1) =~= s.skip(k as int));
                assert(upper[0] == ctxt.blocks@[k - 1].value);
                assert(upper.len() > 0);
                assert(radix_value(upper, m) == upper[0] + m * radix_value(upper.skip(1), m));
                assert(m * acc == acc * self.message_modulus) by (nonlinear_arith)
                    requires
                        m == self.message_modulus,
                ;
                lemma_value_of_suffix(s, m, k - 1);
            }
            let scaled = match acc.checked_mul(self.message_modulus) {
                Some(scaled) => scaled,
                None => { return None; },
            };
            let sum = match scaled.checked_add(ctxt.blocks[k - 1].value) {
                Some(sum) => sum,
                None => { return None; },
            };
            acc = sum;
            k = k - 1;
        }
        assert(s.skip(0) =~= s);
        Some(acc)
    }
}

/// The digits from `k` on stand for no more than all digits stand for.
proof fn lemma_value_of_suffix(s: Seq<nat>, m: nat, k: int)
    requires
        m >= 1,
        0 <= k <= s.len(),
    ensures
        radix_value(s.skip(k), m) <= radix_value(s, m),
    decreases k,
{
    if k > 0 {
        lemma_value_of_suffix(s, m, k - 1);
        let upper = s.skip(k - 1);
        assert(upper.skip(1) =~= s.skip(k));
        let v = radix_value(s.skip(k), m);
        assert(v <= m * v) by (nonlinear_arith)
            requires
                m >= 1,
                v >= 0,
        ;
    } else {
        assert(s.skip(0) =~= s);
    }
}

impl DigitCapability for ClearKey {
    type Digit = ClearDigit;

    open spec fn wf(&self) -> bool {
        valid_moduli(self.message_modulus_spec(), self.carry_modulus_spec())
    }

    closed spec fn message_modulus_spec(&self) -> nat {
        self.message_modulus as nat
    }

    closed spec fn carry_modulus_spec(&self) -> nat {
        self.carry_modulus as nat
    }

    open spec fn valid_digit(&self, ct: &ClearDigit) -> bool {
        ct.value < self.message_modulus_spec() * self.carry_modulus_spec()
    }

    open spec fn content(&self, ct: &ClearDigit) -> nat {
        ct.value as nat
    }

    closed spec fn parallel_carryless_add_spec(&self) -> bool {
        self.parallel_carryless_add
    }

    proof fn parameters_are_valid(&self) {
    }

    proof fn content_is_representable(&self, ct: &ClearDigit) {
    }

    fn message_modulus(&self) -> (m: u64) {
        self.message_modulus
    }

    fn carry_modulus(&self) -> (c: u64) {
        self.carry_modulus
    }

    fn is_eligible_for_parallel_carryless_add(&self) -> (eligible: bool) {
        self.parallel_carryless_add
    }

    fn carry_extract(&self, ct: &ClearDigit) -> (carry: ClearDigit) {
        proof {
            vstd::arithmetic::div_mod::lemma_div_is_ordered_by_denominator(
                ct.value as int,
                1,
                self.message_modulus as int,
            );
        }
        ClearDigit { value: ct.value / self.message_modulus }
    }

    fn message_extract(&self, ct: &ClearDigit) -> (message: ClearDigit) {
        proof {
            vstd::arithmetic::mul::lemma_mul_increases(
                self.carry_modulus as int,
                self.message_modulus as int,
            );
            vstd::arithmetic::mul::lemma_mul_is_commutative(
                self.carry_modulus as int,
                self.message_modulus as int,
            );
        }
        ClearDigit { value: ct.value % self.message_modulus }
    }

    fn unchecked_add(&self, lhs: &ClearDigit, rhs: &ClearDigit) -> (sum: ClearDigit) {
        ClearDigit { value: self.reduce((lhs.value as u128) + (rhs.value as u128)) }
    }

    fn unchecked_add_assign(&self, lhs: &mut ClearDigit, rhs: &ClearDigit) {
        lhs.value = self.reduce((lhs.value as u128) + (rhs.value as u128));
    }

    fn unchecked_sub_assign(&self, lhs: &mut ClearDigit, rhs: &ClearDigit) {
        lhs.value = lhs.value - rhs.value;
    }

    fn unchecked_scalar_mul(&self, ct: &ClearDigit, scalar: u64) -> (product: ClearDigit) {
        proof {
            assert(ct.value * scalar <= u64::MAX * u64::MAX) by (nonlinear_arith)
                requires
                    ct.value <= u64::MAX,
                    scalar <= u64::MAX,
            ;
        }
        ClearDigit { value: self.reduce((ct.value as u128) * (scalar as u128)) }
    }

    fn apply_lookup_table(&self, ct: &ClearDigit, table: &Vec<u64>) -> (image: ClearDigit) {
        let entries = table.len();
        assert(ct.value < entries);
        ClearDigit { value: table[ct.value as usize] }
    }

    fn apply_lookup_table_assign(&self, ct: &mut ClearDigit, table: &Vec<u64>) {
        let entries = table.len();
        assert(ct.value < entries);
        ct.value = table[ct.value as usize];
    }

    fn create_trivial(&self, value: u64) -> (ct: ClearDigit) {
        ClearDigit { value }
    }
}

/// The key switch between two sets of clear digits: it rescales the content
/// from the source full modulus to the destination full modulus.
#[derive(Clone, Copy, Debug, PartialEq, Eq)]
pub struct ClearKeyswitchKey {}

impl ClearKeyswitchKey {
    pub fn new() -> (key: Self) {
        ClearKeyswitchKey {  }
    }
}

impl LweKeyswitchKey<ClearKey, ClearKey> for ClearKeyswitchKey {
    open spec fn connects(&self, src: &ClearKey, dest: &ClearKey) -> bool {
        true
    }

    fn keyswitch_lwe_ciphertext(
        &self,
        src: &ClearKey,
        dest: &ClearKey,
        ct: &ClearDigit,
        ct_dest: &mut ClearDigit,
    ) {
        let src_full: u64 = src.message_modulus * src.carry_modulus;
        let dest_full: u64 = dest.message_modulus * dest.carry_modulus;
        let ghost p = ct.value as int;
        let ghost fs = src_full as int;
        let ghost fd = dest_full as int;
        proof {
            assert(p * fd < fs * fd && p * fd <= u64::MAX * u64::MAX) by (nonlinear_arith)
                requires
                    0 <= p < fs,
                    0 < fd <= u64::MAX,
                    fs <= u64::MAX,
            ;
            vstd::arithmetic::div_mod::lemma_fundamental_div_mod(p * fd, fs);
            let q = (p * fd) / fs;
            assert(q < fd) by (nonlinear_arith)
                requires
                    fs * q == p * fd,
                    p * fd < fs * fd,
                    fs > 0,
            ;
            assert(q * fs == fs * q) by (nonlinear_arith);
        }
        let wide: u128 = (ct.value as u128) * (dest_full as u128) / (src_full as u128);
        ct_dest.value = wide as u64;
    }
}

} // verus!
