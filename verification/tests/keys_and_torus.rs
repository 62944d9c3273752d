use radix_fhe::glwe_secret_key::{
    allocate_and_generate_new_binary_glwe_secret_key, generate_binary_glwe_secret_key,
    uniform_binary_from_byte, ByteRandomGenerator, GlweDimension, GlweSecretKey, PolynomialSize,
    SecretRandomGenerator,
};
use radix_fhe::torus::UnsignedTorus;

/// Hands out the bytes 0, 7, 14, ... in turn.
struct SteppingGenerator {
    next: u8,
}

impl ByteRandomGenerator for SteppingGenerator {
    fn next_byte(&mut self) -> u8 {
        let byte = self.next;
        self.next = self.next.wrapping_add(7);
        byte
    }
}

#[test]
fn binary_coefficient_is_the_lowest_bit() {
    assert_eq!(uniform_binary_from_byte::<u64>(0), 0);
    assert_eq!(uniform_binary_from_byte::<u64>(1), 1);
    assert_eq!(uniform_binary_from_byte::<u32>(254), 0);
    assert_eq!(uniform_binary_from_byte::<u128>(255), 1);
}

#[test]
fn allocated_key_has_the_asked_shape_and_binary_coefficients() {
    let mut generator = SecretRandomGenerator::new(SteppingGenerator { next: 0 });
    let key: GlweSecretKey<u64> = allocate_and_generate_new_binary_glwe_secret_key(
        GlweDimension(2),
        PolynomialSize(4),
        &mut generator,
    );
    assert_eq!(key.polynomial_size, PolynomialSize(4));
    assert_eq!(key.data, vec![0, 1, 0, 1, 0, 1, 0, 1]);
    assert_eq!(generator.generator.next, 56);
}

#[test]
fn generation_overwrites_every_coefficient() {
    let mut generator = SecretRandomGenerator::new(SteppingGenerator { next: 1 });
    let mut key = GlweSecretKey::new(9u32, GlweDimension(1), PolynomialSize(3));
    assert_eq!(key.data, vec![9, 9, 9]);
    generate_binary_glwe_secret_key(&mut key, &mut generator);
    assert_eq!(key.data, vec![1, 0, 1]);
    assert_eq!(key.polynomial_size, PolynomialSize(3));
}

#[test]
fn empty_key_draws_nothing() {
    let mut generator = SecretRandomGenerator::new(SteppingGenerator { next: 5 });
    let key: GlweSecretKey<u128> = allocate_and_generate_new_binary_glwe_secret_key(
        GlweDimension(0),
        PolynomialSize(1024),
        &mut generator,
    );
    assert!(key.data.is_empty());
    assert_eq!(generator.generator.next, 5);
}

#[test]
fn fill_keeps_the_length_of_the_slice() {
    let mut generator = SecretRandomGenerator::new(SteppingGenerator { next: 3 });
    let mut output = vec![7u64; 5];
    generator.fill_slice_with_random_uniform_binary(&mut output);
    assert_eq!(output, vec![1, 0, 1, 0, 1]);
}

#[test]
fn signed_value_under_custom_modulus() {
    assert_eq!(u64::from_signed_custom_mod(0, 10), 0);
    assert_eq!(u64::from_signed_custom_mod(4, 10), 4);
    assert_eq!(u64::from_signed_custom_mod(-1, 10), 9);
    assert_eq!(u64::from_signed_custom_mod(-5, 10), 5);
    assert_eq!(u64::from_signed_custom_mod(-10, 10), 0);
    assert_eq!(u64::from_signed_custom_mod(i64::MIN, u64::MAX), (1u64 << 63) - 1);
    assert_eq!(u32::from_signed_custom_mod(-3, 7), 4);
    assert_eq!(u128::from_signed_custom_mod(-1, (1u128 << 127) + 1), 1u128 << 127);
}

#[test]
fn signed_value_under_native_modulus() {
    assert_eq!(u64::from_signed(0), 0);
    assert_eq!(u64::from_signed(5), 5);
    assert_eq!(u64::from_signed(-1), u64::MAX);
    assert_eq!(u64::from_signed(i64::MIN), 1u64 << 63);
    assert_eq!(u32::from_signed(-2), u32::MAX - 1);
    assert_eq!(u128::from_signed(-1), u128::MAX);
    assert_eq!(u128::from_signed(i128::MIN), 1u128 << 127);
}

#[test]
fn bit_as_torus_element() {
    assert_eq!(u32::from_bit(false), 0);
    assert_eq!(u64::from_bit(true), 1);
    assert_eq!(u128::from_bit(true), 1);
}
