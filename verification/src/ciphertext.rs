//! Radix integers: multi-digit integers as sequences of encrypted digits.

use vstd::prelude::*;

verus! {

/// An integer as a sequence of encrypted digits, least significant first, all
/// of one parameter set. Once propagated it stands for the sum of its digits'
/// messages, digit `i` weighted by the message modulus to the power `i`. The
/// number of digits is fixed when the value is made: no operation of this
/// library changes it.
pub struct RadixCiphertext<D> {
    pub blocks: Vec<D>,
}

impl<D> RadixCiphertext<D> {
    /// The radix integer made of the given digits.
    pub fn from_blocks(blocks: Vec<D>) -> (ctxt: Self)
        ensures
            ctxt.blocks == blocks,
    {
        RadixCiphertext { blocks }
    }
}

} // verus!
