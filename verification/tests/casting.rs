use radix_fhe::capability::{DigitCapability, LweKeyswitchKey};
use radix_fhe::clear::{ClearDigit, ClearKey, ClearKeyswitchKey};
use radix_fhe::key_switching_key::{
    full_modulus_of, power_of_two_bits, shift_left_table, shift_right_table, KeySwitchingKey,
    KeySwitchingKeyError,
};

fn casting_key(
    src: (u64, u64),
    dest: (u64, u64),
) -> Result<KeySwitchingKey<ClearKey, ClearKey, ClearKeyswitchKey>, KeySwitchingKeyError> {
    let src_key = ClearKey::new(src.0, src.1, false).unwrap();
    let dest_key = ClearKey::new(dest.0, dest.1, false).unwrap();
    KeySwitchingKey::new(ClearKeyswitchKey::new(), src_key, dest_key)
}

#[test]
fn cast_to_wider_parameters_keeps_the_plaintext() {
    let ksk = casting_key((2, 2), (4, 4)).unwrap();
    assert_eq!(ksk.cast_rshift, 2);
    let cipher = ClearDigit { value: 1 };
    let cipher_2 = ksk.cast(&cipher);
    assert_eq!(ksk.dest_server_key.decrypt(&cipher_2), 1);
}

#[test]
fn cast_keeps_every_plaintext_that_fits() {
    let pairs = [((2, 2), (4, 4)), ((4, 4), (2, 2)), ((4, 4), (4, 4)), ((2, 1), (8, 8)), ((8, 8), (2, 1))];
    for (src, dest) in pairs {
        let ksk = casting_key(src, dest).unwrap();
        let limit = std::cmp::min(src.0 * src.1, dest.0 * dest.1);
        for p in 0..limit {
            assert_eq!(ksk.cast(&ClearDigit { value: p }).value, p);
        }
    }
}

#[test]
fn cast_rshift_is_the_difference_of_bits() {
    assert_eq!(casting_key((2, 2), (4, 4)).unwrap().cast_rshift, 2);
    assert_eq!(casting_key((4, 4), (2, 2)).unwrap().cast_rshift, -2);
    assert_eq!(casting_key((4, 4), (2, 8)).unwrap().cast_rshift, 0);
    assert_eq!(casting_key((2, 1), (16, 16)).unwrap().cast_rshift, 7);
}

#[test]
fn cast_to_narrower_parameters_reduces_what_does_not_fit() {
    let ksk = casting_key((4, 4), (2, 2)).unwrap();
    assert_eq!(ksk.cast(&ClearDigit { value: 3 }).value, 3);
    assert_eq!(ksk.cast(&ClearDigit { value: 5 }).value, 1);
    assert_eq!(ksk.cast(&ClearDigit { value: 15 }).value, 3);
}

#[test]
fn cast_into_overwrites_the_destination() {
    let ksk = casting_key((2, 2), (4, 4)).unwrap();
    let mut dest = ksk.dest_server_key.create_trivial(9);
    ksk.cast_into(&ClearDigit { value: 3 }, &mut dest);
    assert_eq!(dest.value, 3);
    let same = casting_key((4, 4), (4, 4)).unwrap();
    let mut dest = same.dest_server_key.create_trivial(0);
    same.cast_into(&ClearDigit { value: 11 }, &mut dest);
    assert_eq!(dest.value, 11);
}

#[test]
fn casting_key_needs_power_of_two_moduli() {
    assert_eq!(
        casting_key((3, 2), (4, 4)).err(),
        Some(KeySwitchingKeyError::FullModulusNotPowerOfTwo)
    );
    assert_eq!(
        casting_key((4, 4), (2, 3)).err(),
        Some(KeySwitchingKeyError::FullModulusNotPowerOfTwo)
    );
    assert!(casting_key((3, 2), (3, 2)).is_err());
    assert!(casting_key((2, 2), (2, 2)).is_ok());
}

#[test]
fn power_of_two_bits_counts_bits() {
    assert_eq!(power_of_two_bits(0), None);
    assert_eq!(power_of_two_bits(1), Some(0));
    assert_eq!(power_of_two_bits(2), Some(1));
    assert_eq!(power_of_two_bits(6), None);
    assert_eq!(power_of_two_bits(16), Some(4));
    assert_eq!(power_of_two_bits(1 << 63), Some(63));
    assert_eq!(power_of_two_bits((1 << 63) + 1), None);
    assert_eq!(power_of_two_bits(u64::MAX), None);
}

#[test]
fn shift_tables_hold_the_shifted_contents() {
    assert_eq!(shift_right_table(8, 2), vec![0, 0, 0, 0, 1, 1, 1, 1]);
    assert_eq!(shift_right_table(4, 0), vec![0, 1, 2, 3]);
    assert_eq!(shift_left_table(8, 1), vec![0, 2, 4, 6, 0, 2, 4, 6]);
    assert_eq!(shift_left_table(16, 2)[3], 12);
    assert_eq!(shift_left_table(4, 63), vec![0, 0, 0, 0]);
    assert_eq!(shift_right_table(0, 3).len(), 0);
}

#[test]
fn full_modulus_is_the_product_of_the_moduli() {
    assert_eq!(full_modulus_of(&ClearKey::new(4, 2, false).unwrap()), 8);
}

#[test]
fn clear_keyswitch_rescales_the_content() {
    let src = ClearKey::new(2, 2, false).unwrap();
    let dest = ClearKey::new(4, 4, false).unwrap();
    let mut out = ClearDigit { value: 0 };
    ClearKeyswitchKey::new().keyswitch_lwe_ciphertext(&src, &dest, &ClearDigit { value: 3 }, &mut out);
    assert_eq!(out.value, 12);
    let mut back = ClearDigit { value: 0 };
    ClearKeyswitchKey::new().keyswitch_lwe_ciphertext(&dest, &src, &ClearDigit { value: 8 }, &mut back);
    assert_eq!(back.value, 2);
}
