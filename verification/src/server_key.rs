//! Carry propagation over radix integers.
//!
//! A radix integer is dirty while some digit holds a carry and clean when none
//! does. The functions here take a radix integer from dirty to clean, either
//! digit after digit or, where the parameter set allows it, by stripping all
//! carries at once and merging them one position up.

use crate::capability::{all_valid, digit_contents, full_modulus, DigitCapability};
use crate::ciphertext::RadixCiphertext;
use crate::radix_model::{
    all_below, carry_into, is_clean, law_propagation_correct, lemma_realigned_digits,
    lemma_realigned_propagates, lemma_sequential_pass, message_of, propagate_step,
    propagated_from, propagates_within, radix_value, realigned, sequential_pass, step_fits,
};
use vstd::arithmetic::power::pow;
use rayon::iter::{IntoParallelRefMutIterator, ParallelIterator};
use vstd::prelude::*;

verus! {

/// The key that evaluates operations on radix integers: a digit capability
/// applied digit by digit.
pub struct ServerKey<K: DigitCapability> {
    pub key: K,
}

/// Runs `carry_extract` and `message_extract` on one digit side by side with
/// `rayon::join`, which runs both closures to their end and hands back their
/// two results as a pair, in the order of its arguments. The contract is that
/// of the two extractions.
#[verifier::external_body]
fn extract_carry_and_message<K: DigitCapability>(key: &K, ct: &K::Digit) -> (parts: (
    K::Digit,
    K::Digit,
))
    requires
        key.wf(),
        key.valid_digit(ct),
    ensures
        key.valid_digit(&parts.0),
        key.content(&parts.0) == key.content(ct) / key.message_modulus_spec(),
        key.valid_digit(&parts.1),
        key.content(&parts.1) == key.content(ct) % key.message_modulus_spec(),
{
    rayon::join(|| key.carry_extract(ct), || key.message_extract(ct))
}

/// Takes the carry out of one digit: the digit keeps its message, and the carry
/// comes back as a digit of its own, at the message position.
pub fn strip_carry<K: DigitCapability>(key: &K, block: &mut K::Digit) -> (carry: K::Digit)
    requires
        key.wf(),
        key.valid_digit(old(block)),
    ensures
        key.valid_digit(final(block)),
        key.content(final(block)) == key.content(old(block)) % key.message_modulus_spec(),
        key.valid_digit(&carry),
        key.content(&carry) == key.content(old(block)) / key.message_modulus_spec(),
{
    let carry = key.carry_extract(block);
    let message_modulus = key.message_modulus();
    proof {
        key.parameters_are_valid();
        key.content_is_representable(block);
        vstd::arithmetic::div_mod::lemma_fundamental_div_mod(
            key.content(block) as int,
            message_modulus as int,
        );
        vstd::arithmetic::div_mod::lemma_mod_bound(
            key.content(block) as int,
            message_modulus as int,
        );
        vstd::arithmetic::mul::lemma_mul_is_commutative(
            key.content(&carry) as int,
            message_modulus as int,
        );
    }
    // Move the carry back to where it stands in the digit, so that it can be
    // subtracted.
    let shifted_carry = key.unchecked_scalar_mul(&carry, message_modulus);
    key.unchecked_sub_assign(block, &shifted_carry);
    carry
}

/// Applies `strip_carry` to every digit from `start_index` on, the digits
/// handed out to threads by rayon's `par_iter_mut`, and collects the carries
/// with `map` and `collect`, which keep the order of the slice: carry `j`
/// comes from digit `start_index + j`. Each digit is visited once and in
/// place; the digits before `start_index` are not touched.
#[verifier::external_body]
fn strip_carries<K: DigitCapability>(
    key: &K,
    blocks: &mut Vec<K::Digit>,
    start_index: usize,
) -> (carries: Vec<K::Digit>)
    requires
        key.wf(),
        start_index <= old(blocks).len(),
        all_valid(key, old(blocks)@),
    ensures
        final(blocks)@.len() == old(blocks)@.len(),
        carries@.len() == old(blocks)@.len() - start_index,
        forall|i: int| 0 <= i < start_index ==> final(blocks)@[i] == old(blocks)@[i],
        forall|i: int|
            start_index <= i < old(blocks)@.len() ==> {
                &&& key.valid_digit(&#[trigger] final(blocks)@[i])
                &&& key.content(&final(blocks)@[i]) == key.content(&old(blocks)@[i])
                    % key.message_modulus_spec()
                &&& key.valid_digit(&carries@[i - start_index])
                &&& key.content(&carries@[i - start_index]) == key.content(&old(blocks)@[i])
                    / key.message_modulus_spec()
            },
{
    blocks[start_index..].par_iter_mut().map(|block| strip_carry(key, block)).collect::<Vec<_>>()
}

impl<K: DigitCapability> ServerKey<K> {
    /// The plaintexts that the digits of `ctxt` hold, least significant first.
    pub open spec fn contents(&self, ctxt: &RadixCiphertext<K::Digit>) -> Seq<nat> {
        digit_contents(&self.key, ctxt.blocks@)
    }

    /// Every digit of `ctxt` is a valid digit of this key.
    pub open spec fn holds(&self, ctxt: &RadixCiphertext<K::Digit>) -> bool {
        all_valid(&self.key, ctxt.blocks@)
    }

    /// The server key that works with the given digit capability.
    pub fn new(key: K) -> (server_key: Self)
        ensures
            server_key.key == key,
    {
        ServerKey { key }
    }

    /// Whether the parameter set allows the parallel propagation.
    pub fn is_eligible_for_parallel_carryless_add(&self) -> (eligible: bool)
        requires
            self.key.wf(),
        ensures
            eligible == self.key.parallel_carryless_add_spec(),
    {
        self.key.is_eligible_for_parallel_carryless_add()
    }

    /// Propagates the carry of the digit at `index` to the next one: the digit
    /// keeps its message, and its carry is added into digit `index + 1`, if
    /// there is one. The carry of the last digit is dropped. Where the next
    /// digit cannot hold the sum, it is left with some valid content of which
    /// no more is known; the other digits are as stated in any case.
    pub fn propagate_parallelized(&self, ctxt: &mut RadixCiphertext<K::Digit>, index: usize)
        requires
            self.key.wf(),
            self.holds(old(ctxt)),
            index < old(ctxt).blocks.len(),
        ensures
            final(ctxt).blocks.len() == old(ctxt).blocks.len(),
            self.holds(final(ctxt)),
            self.contents(final(ctxt))[index as int] == message_of(
                self.contents(old(ctxt))[index as int],
                self.key.message_modulus_spec(),
            ),
            forall|j: int|
                0 <= j < old(ctxt).blocks.len() && j != index && j != index + 1
                    ==> #[trigger] self.contents(final(ctxt))[j] == self.contents(old(ctxt))[j],
            step_fits(
                self.contents(old(ctxt)),
                self.key.message_modulus_spec(),
                full_modulus(&self.key),
                index as int,
            ) ==> self.contents(final(ctxt)) == propagate_step(
                self.contents(old(ctxt)),
                self.key.message_modulus_spec(),
                index as int,
            ),
    {
        let (carry, message) = extract_carry_and_message(&self.key, &ctxt.blocks[index]);
        ctxt.blocks[index] = message;

        // Add the carry to the next block.
        if index < ctxt.blocks.len() - 1 {
            self.key.unchecked_add_assign(&mut ctxt.blocks[index + 1], &carry);
        }
        proof {
            if step_fits(
                self.contents(old(ctxt)),
                self.key.message_modulus_spec(),
                full_modulus(&self.key),
                index as int,
            ) {
                assert(self.contents(ctxt) =~= propagate_step(
                    self.contents(old(ctxt)),
                    self.key.message_modulus_spec(),
                    index as int,
                ));
            }
        }
    }

    /// Propagates the digits from `start_index` on, one after the other in
    /// increasing order, so that each digit has received the carry of its
    /// predecessor before it gives up its own. The digits come out clean; they
    /// are the digits of a pass in sequence where no digit overflowed on the
    /// way.
    fn propagate_in_sequence(&self, ctxt: &mut RadixCiphertext<K::Digit>, start_index: usize)
        requires
            self.key.wf(),
            self.holds(old(ctxt)),
            start_index <= old(ctxt).blocks.len(),
        ensures
            final(ctxt).blocks.len() == old(ctxt).blocks.len(),
            self.holds(final(ctxt)),
            self.contents(final(ctxt)).subrange(0, start_index as int) == self.contents(
                old(ctxt),
            ).subrange(0, start_index as int),
            is_clean(
                self.contents(final(ctxt)).subrange(
                    start_index as int,
                    old(ctxt).blocks.len() as int,
                ),
                self.key.message_modulus_spec(),
            ),
            propagates_within(
                self.contents(old(ctxt)).subrange(
                    start_index as int,
                    old(ctxt).blocks.len() as int,
                ),
                self.key.message_modulus_spec(),
                full_modulus(&self.key),
            ) ==> self.contents(final(ctxt)) == self.contents(old(ctxt)).subrange(
                0,
                start_index as int,
            ) + sequential_pass(
                self.contents(old(ctxt)).subrange(
                    start_index as int,
                    old(ctxt).blocks.len() as int,
                ),
                self.key.message_modulus_spec(),
            ),
    {
        let len = ctxt.blocks.len();
        let ghost m = self.key.message_modulus_spec();
        let ghost before = self.contents(ctxt);
        let ghost tail = before.subrange(start_index as int, len as int);
        let ghost fits = propagates_within(tail, m, full_modulus(&self.key));
        proof {
            self.key.parameters_are_valid();
        }
        let mut i: usize = start_index;
        while i < len
            invariant
                self.key.wf(),
                self.holds(ctxt),
                m == self.key.message_modulus_spec(),
                m >= 2,
                ctxt.blocks.len() == len,
                before.len() == len,
                tail == before.subrange(start_index as int, len as int),
                fits == propagates_within(tail, m, full_modulus(&self.key)),
                start_index <= i <= len,
                forall|j: int|
                    0 <= j < start_index ==> #[trigger] self.contents(ctxt)[j] == before[j],
                forall|j: int| start_index <= j < i ==> #[trigger] self.contents(ctxt)[j] < m,
                forall|j: int| i < j < len ==> #[trigger] self.contents(ctxt)[j] == before[j],
                fits ==> forall|j: int|
                    start_index <= j < i ==> #[trigger] self.contents(ctxt)[j] == sequential_pass(
                        tail,
                        m,
                    )[j - start_index],
                fits && i < len ==> self.contents(ctxt)[i as int] == tail[i - start_index]
                    + carry_into(tail, m, (i - start_index) as nat),
            decreases len - i,
        {
            let ghost k: int = i - start_index;
            let ghost prior = self.contents(ctxt);
            proof {
                vstd::arithmetic::div_mod::lemma_mod_bound(prior[i as int] as int, m as int);
                if fits && i + 1 < len {
                    assert(tail[k + 1] + carry_into(tail, m, (k + 1) as nat) < full_modulus(
                        &self.key,
                    ));
                    assert(carry_into(tail, m, (k + 1) as nat) == (tail[k] + carry_into(
                        tail,
                        m,
                        k as nat,
                    )) / m);
                    assert(tail[k + 1] == before[i + 1]);
                    assert(prior[i + 1] == before[i + 1]);
                }
            }
            self.propagate_parallelized(ctxt, i);
            proof {
                assert forall|j: int| start_index <= j < i + 1 implies #[trigger] self.contents(
                    ctxt,
                )[j] < m by {
                    if j < i {
                        assert(self.contents(ctxt)[j] == prior[j]);
                    }
                }
                if fits {
                    assert(step_fits(prior, m, full_modulus(&self.key), i as int));
                    assert forall|j: int| start_index <= j < i + 1 implies #[trigger] self.contents(
                        ctxt,
                    )[j] == sequential_pass(tail, m)[j - start_index] by {
                        if j < i {
                            assert(self.contents(ctxt)[j] == prior[j]);
                        }
                    }
                }
            }
            i = i + 1;
        }
        proof {
            let cleaned = self.contents(ctxt).subrange(start_index as int, len as int);
            assert forall|j: int| 0 <= j < cleaned.len() implies #[trigger] cleaned[j] < m by {
                assert(cleaned[j] == self.contents(ctxt)[start_index + j]);
            }
            assert(self.contents(ctxt).subrange(0, start_index as int) =~= before.subrange(
                0,
                start_index as int,
            ));
            if fits {
                let after = before.subrange(0, start_index as int) + sequential_pass(tail, m);
                assert forall|j: int| 0 <= j < len implies self.contents(ctxt)[j] == after[j] by {
                    if j >= start_index {
                        assert(after[j] == sequential_pass(tail, m)[j - start_index]);
                    }
                }
                assert(self.contents(ctxt) =~= after);
            }
        }
    }

    /// Adds carry `j` into digit `start_index + j`, for every carry.
    fn merge_carries(
        &self,
        ctxt: &mut RadixCiphertext<K::Digit>,
        carries: &Vec<K::Digit>,
        start_index: usize,
    )
        requires
            self.key.wf(),
            self.holds(old(ctxt)),
            all_valid(&self.key, carries@),
            start_index + carries@.len() == old(ctxt).blocks.len(),
            forall|j: int|
                0 <= j < carries@.len() ==> self.contents(old(ctxt))[start_index + j]
                    + #[trigger] digit_contents(&self.key, carries@)[j] < full_modulus(&self.key),
        ensures
            final(ctxt).blocks.len() == old(ctxt).blocks.len(),
            self.holds(final(ctxt)),
            forall|i: int|
                0 <= i < start_index ==> self.contents(final(ctxt))[i] == self.contents(
                    old(ctxt),
                )[i],
            forall|j: int|
                0 <= j < carries@.len() ==> self.contents(final(ctxt))[start_index + j]
                    == self.contents(old(ctxt))[start_index + j] + #[trigger] digit_contents(
                    &self.key,
                    carries@,
                )[j],
    {
        let ghost before = self.contents(ctxt);
        let ghost added = digit_contents(&self.key, carries@);
        let count = carries.len();
        let mut j: usize = 0;
        while j < count
            invariant
                self.key.wf(),
                self.holds(ctxt),
                all_valid(&self.key, carries@),
                count == carries@.len(),
                added == digit_contents(&self.key, carries@),
                start_index + count == ctxt.blocks.len(),
                before.len() == ctxt.blocks.len(),
                j <= count,
                forall|i: int|
                    0 <= i < count ==> before[start_index + i] + #[trigger] added[i]
                        < full_modulus(&self.key),
                forall|i: int|
                    0 <= i < start_index ==> #[trigger] self.contents(ctxt)[i] == before[i],
                forall|i: int|
                    start_index <= i < start_index + j ==> #[trigger] self.contents(ctxt)[i]
                        == before[i] + added[i - start_index],
                forall|i: int|
                    start_index + j <= i < ctxt.blocks.len() ==> #[trigger] self.contents(
                        ctxt,
                    )[i] == before[i],
            decreases count - j,
        {
            assert(self.contents(ctxt)[start_index + j] == before[start_index + j]);
            assert(added[j as int] == self.key.content(&carries@[j as int]));
            assert(before[start_index + j] + added[j as int] < full_modulus(&self.key));
            let ghost prior = self.contents(ctxt);
            self.key.unchecked_add_assign(&mut ctxt.blocks[start_index + j], &carries[j]);
            assert(forall|i: int|
                0 <= i < ctxt.blocks.len() && i != start_index + j ==> #[trigger] self.contents(
                    ctxt,
                )[i] == prior[i]);
            assert(self.contents(ctxt)[start_index + j] == before[start_index + j]
                + added[j as int]);
            j = j + 1;
        }
    }

    /// Propagates the carries of the digits from `start_index` on. Afterwards
    /// these digits are clean, and the digits before `start_index` have kept
    /// their contents.
    ///
    /// Where the parameter set is eligible, all carries are stripped at once,
    /// moved one position up and merged, and one pass in sequence absorbs what
    /// the merge left over. Otherwise the digits are propagated in sequence.
    /// Either way the digits from `start_index` on come out as the base-`m`
    /// digits of the value that they stood for before, reduced to as many digits
    /// as there are. The pass in sequence owes this only where no digit
    /// overflows on the way; the parallel propagation owes it always.
    pub fn partial_propagate_parallelized(
        &self,
        ctxt: &mut RadixCiphertext<K::Digit>,
        start_index: usize,
    )
        requires
            self.key.wf(),
            self.holds(old(ctxt)),
            start_index <= old(ctxt).blocks.len(),
        ensures
            final(ctxt).blocks.len() == old(ctxt).blocks.len(),
            self.holds(final(ctxt)),
            self.contents(final(ctxt)).subrange(0, start_index as int) == self.contents(
                old(ctxt),
            ).subrange(0, start_index as int),
            is_clean(
                self.contents(final(ctxt)).subrange(
                    start_index as int,
                    old(ctxt).blocks.len() as int,
                ),
                self.key.message_modulus_spec(),
            ),
            self.key.parallel_carryless_add_spec() || propagates_within(
                self.contents(old(ctxt)).subrange(
                    start_index as int,
                    old(ctxt).blocks.len() as int,
                ),
                self.key.message_modulus_spec(),
                full_modulus(&self.key),
            ) ==> self.contents(final(ctxt)) == propagated_from(
                self.contents(old(ctxt)),
                self.key.message_modulus_spec(),
                start_index as int,
            ),
    {
        let len = ctxt.blocks.len();
        let ghost m = self.key.message_modulus_spec();
        let ghost c = self.key.carry_modulus_spec();
        let ghost before = self.contents(ctxt);
        let ghost tail = before.subrange(start_index as int, len as int);
        proof {
            self.key.parameters_are_valid();
            lemma_sequential_pass(tail, m);
            law_propagation_correct(before, m, start_index as int);
        }
        if start_index < len && self.is_eligible_for_parallel_carryless_add() {
            let mut carries = strip_carries(&self.key, &mut ctxt.blocks, start_index);
            let ghost stripped = carries@;
            assert(0 < m * c) by (nonlinear_arith)
                requires
                    m >= 2,
                    c >= 1,
            ;

            // Align the carries with the digits that receive them: the carry of
            // the last digit leaves, and the first digit takes no input carry.
            let _ = carries.pop();
            let zero = self.key.create_trivial(0);
            carries.insert(0, zero);

            proof {
                assert(all_below(tail, m * c)) by {
                    assert forall|k: int| 0 <= k < tail.len() implies #[trigger] tail[k] < m
                        * c by {
                        self.key.content_is_representable(&old(ctxt).blocks@[start_index + k]);
                    }
                }
                lemma_realigned_propagates(tail, m, c);
                lemma_realigned_digits(tail, m, 0, 0);
                lemma_sequential_pass(realigned(tail, m), m);
                assert(carries@ =~= stripped.drop_last().insert(0, zero));
                assert forall|j: int| 0 <= j < carries@.len() implies self.key.valid_digit(
                    &#[trigger] carries@[j],
                ) by {
                    if j > 0 {
                        assert(self.key.valid_digit(&ctxt.blocks@[start_index + j - 1]));
                        assert(carries@[j] == stripped[j - 1]);
                    }
                }
                assert forall|j: int| 0 <= j < carries@.len() implies self.contents(
                    ctxt,
                )[start_index + j] + #[trigger] digit_contents(&self.key, carries@)[j]
                    == realigned(tail, m)[j] by {
                    assert(self.key.valid_digit(&ctxt.blocks@[start_index + j]));
                    assert(self.contents(ctxt)[start_index + j] == tail[j] % m);
                    if j > 0 {
                        assert(self.key.valid_digit(&ctxt.blocks@[start_index + j - 1]));
                        assert(carries@[j] == stripped[j - 1]);
                        assert(self.key.content(&carries@[j]) == tail[j - 1] / m);
                    }
                }
                assert(all_below(realigned(tail, m), m * c));
                assert forall|i: int| 0 <= i < ctxt.blocks@.len() implies self.key.valid_digit(
                    &#[trigger] ctxt.blocks@[i],
                ) by {
                    if i < start_index {
                        assert(self.key.valid_digit(&old(ctxt).blocks@[i]));
                    }
                }
            }
            let ghost stripped_contents = self.contents(ctxt);
            self.merge_carries(ctxt, &carries, start_index);
            proof {
                let merged = self.contents(ctxt).subrange(start_index as int, len as int);
                assert forall|j: int| 0 <= j < merged.len() implies merged[j] == realigned(
                    tail,
                    m,
                )[j] by {
                    assert(self.contents(ctxt)[start_index + j] == stripped_contents[start_index
                        + j] + digit_contents(&self.key, carries@)[j]);
                }
                assert(merged =~= realigned(tail, m));
                assert(self.contents(ctxt).subrange(0, start_index as int) =~= before.subrange(
                    0,
                    start_index as int,
                ));
            }
            self.propagate_in_sequence(ctxt, start_index);
        } else {
            if start_index == len {
                assert(propagates_within(tail, m, full_modulus(&self.key)));
            }
            self.propagate_in_sequence(ctxt, start_index);
        }
    }

    /// Propagates all the carries: `partial_propagate_parallelized` from the
    /// first digit. Afterwards the radix integer is clean. It stands for the
    /// value that it stood for before, carries included, reduced modulo the
    /// message modulus to the power of the number of digits: always where the
    /// parameter set is eligible for the parallel propagation, and otherwise
    /// where no digit overflows in a pass in sequence.
    pub fn full_propagate_parallelized(&self, ctxt: &mut RadixCiphertext<K::Digit>)
        requires
            self.key.wf(),
            self.holds(old(ctxt)),
        ensures
            final(ctxt).blocks.len() == old(ctxt).blocks.len(),
            self.holds(final(ctxt)),
            is_clean(self.contents(final(ctxt)), self.key.message_modulus_spec()),
            self.key.parallel_carryless_add_spec() || propagates_within(
                self.contents(old(ctxt)),
                self.key.message_modulus_spec(),
                full_modulus(&self.key),
            ) ==> {
                &&& self.contents(final(ctxt)) == propagated_from(
                    self.contents(old(ctxt)),
                    self.key.message_modulus_spec(),
                    0,
                )
                &&& radix_value(self.contents(final(ctxt)), self.key.message_modulus_spec())
                    == radix_value(self.contents(old(ctxt)), self.key.message_modulus_spec()) % (
                pow(self.key.message_modulus_spec() as int, old(ctxt).blocks.len() as nat) as nat)
            },
    {
        let ghost before = self.contents(ctxt);
        proof {
            self.key.parameters_are_valid();
            law_propagation_correct(before, self.key.message_modulus_spec(), 0);
            assert(before.subrange(0, ctxt.blocks.len() as int) =~= before);
        }
        self.partial_propagate_parallelized(ctxt, 0);
        assert(self.contents(ctxt).subrange(0, ctxt.blocks.len() as int) =~= self.contents(ctxt));
    }
}

} // verus!
