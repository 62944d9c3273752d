//! Binary GLWE secret keys and their generation from random bytes.

use crate::torus::UnsignedTorus;
use vstd::prelude::*;

verus! {

/// The number of polynomials of a GLWE secret key.
#[derive(Clone, Copy, Debug, PartialEq, Eq)]
pub struct GlweDimension(pub usize);

/// The number of coefficients of each polynomial.
#[derive(Clone, Copy, Debug, PartialEq, Eq)]
pub struct PolynomialSize(pub usize);

/// A GLWE secret key: the coefficients of its polynomials, one polynomial
/// after the other.
pub struct GlweSecretKey<Scalar> {
    pub data: Vec<Scalar>,
    pub polynomial_size: PolynomialSize,
}

/// Every coefficient is zero or one.
pub open spec fn is_binary<Scalar: UnsignedTorus>(data: Seq<Scalar>) -> bool {
    forall|i: int| 0 <= i < data.len() ==> (#[trigger] data[i]).value() <= 1
}

impl<Scalar: UnsignedTorus> GlweSecretKey<Scalar> {
    /// A key of `glwe_dimension` polynomials of `polynomial_size` coefficients,
    /// each coefficient equal to `fill`.
    pub fn new(fill: Scalar, glwe_dimension: GlweDimension, polynomial_size: PolynomialSize) -> (key:
        Self)
        requires
            glwe_dimension.0 * polynomial_size.0 <= usize::MAX,
        ensures
            key.polynomial_size == polynomial_size,
            key.data@ == Seq::new((glwe_dimension.0 * polynomial_size.0) as nat, |i: int| fill),
    {
        let count: usize = glwe_dimension.0 * polynomial_size.0;
        let mut data: Vec<Scalar> = Vec::new();
        let mut i: usize = 0;
        while i < count
            invariant
                i <= count,
                data@ == Seq::new(i as nat, |j: int| fill),
            decreases count - i,
        {
            data.push(fill);
            i = i + 1;
            assert(data@ =~= Seq::new(i as nat, |j: int| fill));
        }
        GlweSecretKey { data, polynomial_size }
    }
}

/// A source of random bytes. Nothing is known of a byte before it is drawn.
pub trait ByteRandomGenerator {
    fn next_byte(&mut self) -> u8;
}

/// The generator of the secret coefficients of keys.
pub struct SecretRandomGenerator<G: ByteRandomGenerator> {
    pub generator: G,
}

/// The binary coefficient that one random byte gives: its lowest bit.
pub fn uniform_binary_from_byte<Scalar: UnsignedTorus>(byte: u8) -> (coefficient: Scalar)
    ensures
        coefficient.value() == byte % 2,
{
    assert((byte & 1 == 1) == (byte % 2 == 1)) by (bit_vector);
    Scalar::from_bit(byte & 1 == 1)
}

impl<G: ByteRandomGenerator> SecretRandomGenerator<G> {
    /// The secret generator that draws from the given source of bytes.
    pub fn new(generator: G) -> (secret_generator: Self)
        ensures
            secret_generator.generator == generator,
    {
        SecretRandomGenerator { generator }
    }

    /// Overwrites every element of `output` with a random binary coefficient,
    /// one byte drawn for each, in increasing order of position.
    pub fn fill_slice_with_random_uniform_binary<Scalar: UnsignedTorus>(
        &mut self,
        output: &mut Vec<Scalar>,
    )
        ensures
            final(output)@.len() == old(output)@.len(),
            is_binary(final(output)@),
    {
        let count = output.len();
        let mut i: usize = 0;
        while i < count
            invariant
                i <= count,
                output@.len() == count,
                forall|j: int| 0 <= j < i ==> (#[trigger] output@[j]).value() <= 1,
            decreases count - i,
        {
            let byte = self.generator.next_byte();
            let coefficient: Scalar = uniform_binary_from_byte(byte);
            output[i] = coefficient;
            i = i + 1;
        }
    }
}

/// Fills a GLWE secret key with random binary coefficients. The shape of the
/// key stays; every coefficient is drawn anew.
pub fn generate_binary_glwe_secret_key<Scalar: UnsignedTorus, G: ByteRandomGenerator>(
    glwe_secret_key: &mut GlweSecretKey<Scalar>,
    generator: &mut SecretRandomGenerator<G>,
)
    ensures
        final(glwe_secret_key).polynomial_size == old(glwe_secret_key).polynomial_size,
        final(glwe_secret_key).data@.len() == old(glwe_secret_key).data@.len(),
        is_binary(final(glwe_secret_key).data@),
{
    generator.fill_slice_with_random_uniform_binary(&mut glwe_secret_key.data)
}

/// Allocates a GLWE secret key of the given shape and fills it with random
/// binary coefficients.
pub fn allocate_and_generate_new_binary_glwe_secret_key<
    Scalar: UnsignedTorus,
    G: ByteRandomGenerator,
>(
    glwe_dimension: GlweDimension,
    polynomial_size: PolynomialSize,
    generator: &mut SecretRandomGenerator<G>,
) -> (glwe_secret_key: GlweSecretKey<Scalar>)
    requires
        glwe_dimension.0 * polynomial_size.0 <= usize::MAX,
    ensures
        glwe_secret_key.polynomial_size == polynomial_size,
        glwe_secret_key.data@.len() == glwe_dimension.0 * polynomial_size.0,
        is_binary(glwe_secret_key.data@),
{
    let mut glwe_secret_key = GlweSecretKey::new(
        Scalar::from_bit(false),
        glwe_dimension,
        polynomial_size,
    );

    generate_binary_glwe_secret_key(&mut glwe_secret_key, generator);

    glwe_secret_key
}

} // verus!
