use radix_fhe::capability::DigitCapability;
use radix_fhe::clear::{ClearDigit, ClearKey};
use radix_fhe::ciphertext::RadixCiphertext;
use radix_fhe::server_key::{strip_carry, ServerKey};

fn radix(values: &[u64]) -> RadixCiphertext<ClearDigit> {
    RadixCiphertext::from_blocks(values.iter().map(|&value| ClearDigit { value }).collect())
}

fn contents(ctxt: &RadixCiphertext<ClearDigit>) -> Vec<u64> {
    ctxt.blocks.iter().map(|block| block.value).collect()
}

fn decode(ctxt: &RadixCiphertext<ClearDigit>, message_modulus: u64) -> u64 {
    let mut value = 0u64;
    for block in ctxt.blocks.iter().rev() {
        value = value * message_modulus + block.value;
    }
    value
}

fn encode(mut value: u64, message_modulus: u64, num_blocks: usize) -> Vec<u64> {
    let mut digits = Vec::new();
    for _ in 0..num_blocks {
        digits.push(value % message_modulus);
        value /= message_modulus;
    }
    digits
}

fn add_blockwise(key: &ClearKey, lhs: &[u64], rhs: &[u64]) -> RadixCiphertext<ClearDigit> {
    let blocks = lhs
        .iter()
        .zip(rhs.iter())
        .map(|(&a, &b)| key.unchecked_add(&ClearDigit { value: a }, &ClearDigit { value: b }))
        .collect();
    RadixCiphertext::from_blocks(blocks)
}

fn server_key(message_modulus: u64, carry_modulus: u64, parallel: bool) -> ServerKey<ClearKey> {
    ServerKey::new(ClearKey::new(message_modulus, carry_modulus, parallel).unwrap())
}

#[test]
fn seven_plus_seven_decodes_to_fourteen() {
    for parallel in [false, true] {
        let sks = server_key(4, 4, parallel);
        let seven = encode(7, 4, 4);
        assert_eq!(seven, vec![3, 1, 0, 0]);
        let mut ct_res = add_blockwise(&sks.key, &seven, &seven);
        assert_eq!(contents(&ct_res), vec![6, 2, 0, 0]);
        sks.full_propagate_parallelized(&mut ct_res);
        assert_eq!(contents(&ct_res), vec![2, 3, 0, 0]);
        assert_eq!(decode(&ct_res, 4), 14);
        assert_eq!(sks.key.decrypt_radix(&ct_res), Some(14));
    }
}

#[test]
fn encrypt_radix_gives_the_digits_of_the_value() {
    let key = ClearKey::new(4, 4, false).unwrap();
    assert_eq!(contents(&key.encrypt_radix(7, 4)), vec![3, 1, 0, 0]);
    assert_eq!(contents(&key.encrypt_radix(255, 4)), vec![3, 3, 3, 3]);
    assert_eq!(contents(&key.encrypt_radix(256, 4)), vec![0, 0, 0, 0]);
    assert_eq!(contents(&key.encrypt_radix(27, 2)), vec![3, 2]);
    assert_eq!(key.encrypt_radix(5, 0).blocks.len(), 0);
    let binary = ClearKey::new(2, 1, false).unwrap();
    assert_eq!(contents(&binary.encrypt_radix(6, 3)), vec![0, 1, 1]);
}

#[test]
fn decrypt_radix_counts_carries_in_full() {
    let key = ClearKey::new(4, 4, false).unwrap();
    assert_eq!(key.decrypt_radix(&radix(&[6, 2, 0, 0])), Some(14));
    assert_eq!(key.decrypt_radix(&radix(&[15, 15])), Some(75));
    assert_eq!(key.decrypt_radix(&radix(&[])), Some(0));
    assert_eq!(key.decrypt_radix(&key.encrypt_radix(201, 4)), Some(201));
}

#[test]
fn decrypt_radix_refuses_what_does_not_fit() {
    let key = ClearKey::new(1 << 32, 1, false).unwrap();
    assert_eq!(key.decrypt_radix(&radix(&[5, 7])), Some(5 + (7 << 32)));
    assert_eq!(key.decrypt_radix(&radix(&[0, 0, 1])), None);
    assert_eq!(key.decrypt_radix(&radix(&[0, (1 << 32) - 1])), Some(((1u64 << 32) - 1) << 32));
}

#[test]
fn smallest_parameters_propagate_in_parallel() {
    // One carry state only: every digit is clean already.
    let sks = server_key(2, 1, true);
    let mut ctxt = radix(&[1, 0, 1, 1]);
    sks.full_propagate_parallelized(&mut ctxt);
    assert_eq!(contents(&ctxt), vec![1, 0, 1, 1]);
    let wide = server_key(2, 8, true);
    let mut ctxt = radix(&[15, 15, 15, 15]);
    wide.full_propagate_parallelized(&mut ctxt);
    // 15 * 15 = 225 = 1 mod 16.
    assert_eq!(contents(&ctxt), vec![1, 0, 0, 0]);
}

#[test]
fn ten_plus_ten_decodes_to_twenty() {
    for parallel in [false, true] {
        let sks = server_key(4, 4, parallel);
        let ten = encode(10, 4, 4);
        let mut ct_res = add_blockwise(&sks.key, &ten, &ten);
        sks.full_propagate_parallelized(&mut ct_res);
        assert_eq!(contents(&ct_res), vec![0, 1, 1, 0]);
        assert_eq!(decode(&ct_res, 4), 20);
    }
}

#[test]
fn propagate_moves_one_carry_to_the_next_block() {
    let sks = server_key(4, 4, false);
    let seven = encode(7, 4, 4);
    let mut ct_res = add_blockwise(&sks.key, &seven, &seven);
    sks.propagate_parallelized(&mut ct_res, 0);
    assert_eq!(ct_res.blocks[0].value, 2);
    assert_eq!(ct_res.blocks[1].value, 3);
    assert_eq!(contents(&ct_res), vec![2, 3, 0, 0]);
}

#[test]
fn propagate_on_the_last_block_drops_its_carry() {
    let sks = server_key(4, 4, false);
    let mut ctxt = radix(&[1, 2, 13]);
    sks.propagate_parallelized(&mut ctxt, 2);
    assert_eq!(contents(&ctxt), vec![1, 2, 1]);
}

#[test]
fn propagate_leaves_the_other_blocks_alone() {
    let sks = server_key(4, 4, false);
    let mut ctxt = radix(&[9, 10, 5, 7]);
    sks.propagate_parallelized(&mut ctxt, 1);
    assert_eq!(contents(&ctxt), vec![9, 2, 7, 7]);
}

#[test]
fn strip_carry_splits_message_and_carry() {
    let key = ClearKey::new(4, 4, true).unwrap();
    let mut block = ClearDigit { value: 14 };
    let carry = strip_carry(&key, &mut block);
    assert_eq!(block.value, 2);
    assert_eq!(carry.value, 3);
}

#[test]
fn full_propagate_reduces_modulo_the_capacity() {
    // 7 + 7 * 4 = 35, and two digits of base 4 hold 35 mod 16 = 3.
    for parallel in [false, true] {
        let sks = server_key(4, 4, parallel);
        let mut ctxt = radix(&[7, 7]);
        sks.full_propagate_parallelized(&mut ctxt);
        assert_eq!(contents(&ctxt), vec![3, 0]);
        assert_eq!(decode(&ctxt, 4), 35 % 16);
    }
}

#[test]
fn full_propagate_is_idempotent() {
    for parallel in [false, true] {
        let sks = server_key(4, 4, parallel);
        let mut ctxt = radix(&[6, 2, 5, 3]);
        sks.full_propagate_parallelized(&mut ctxt);
        let once = contents(&ctxt);
        assert_eq!(once, vec![2, 3, 1, 0]);
        sks.full_propagate_parallelized(&mut ctxt);
        assert_eq!(contents(&ctxt), once);
    }
}

#[test]
fn parallel_and_sequential_propagation_agree() {
    let sequential = server_key(4, 4, false);
    let parallel = server_key(4, 4, true);
    let inputs: [[u64; 4]; 5] =
        [[6, 2, 0, 0], [3, 3, 3, 3], [12, 3, 11, 7], [0, 0, 0, 0], [15, 0, 15, 0]];
    for input in inputs.iter() {
        let mut a = radix(input);
        let mut b = radix(input);
        sequential.full_propagate_parallelized(&mut a);
        parallel.full_propagate_parallelized(&mut b);
        assert_eq!(contents(&a), contents(&b));
        let value: u64 = input.iter().rev().fold(0, |acc, digit| acc * 4 + digit);
        assert_eq!(decode(&a, 4), value % 256);
    }
}

#[test]
fn parallel_propagation_takes_full_digits() {
    // Every digit holds the largest content: a pass in sequence would ask digit
    // 1 to hold 15 + 3, the parallel propagation does not.
    let sks = server_key(4, 4, true);
    let mut ctxt = radix(&[15, 15, 15]);
    sks.full_propagate_parallelized(&mut ctxt);
    // 15 + 15 * 4 + 15 * 16 = 315 = 59 mod 64 = 3 + 2 * 4 + 3 * 16.
    assert_eq!(contents(&ctxt), vec![3, 2, 3]);
}

#[test]
fn sequential_propagation_cleans_even_where_a_digit_overflows() {
    // Digit 1 cannot hold 15 + 3: the value is lost, the digits are clean.
    let sks = server_key(4, 4, false);
    let mut ctxt = radix(&[15, 15, 15]);
    sks.full_propagate_parallelized(&mut ctxt);
    assert_eq!(ctxt.blocks.len(), 3);
    assert!(contents(&ctxt).iter().all(|&digit| digit < 4));
    let mut ctxt = radix(&[15, 15, 15]);
    sks.propagate_parallelized(&mut ctxt, 0);
    assert_eq!(ctxt.blocks[0].value, 3);
    assert!(ctxt.blocks[1].value < 16);
    assert_eq!(ctxt.blocks[2].value, 15);
}

#[test]
fn unchecked_operations_stay_within_the_full_modulus() {
    let key = ClearKey::new(4, 4, false).unwrap();
    let sum = key.unchecked_add(&ClearDigit { value: 15 }, &ClearDigit { value: 15 });
    assert!(sum.value < 16);
    let product = key.unchecked_scalar_mul(&ClearDigit { value: 15 }, u64::MAX);
    assert!(product.value < 16);
    assert_eq!(key.unchecked_scalar_mul(&ClearDigit { value: 5 }, 3).value, 15);
    assert_eq!(key.unchecked_add(&ClearDigit { value: 7 }, &ClearDigit { value: 8 }).value, 15);
}

#[test]
fn partial_propagate_keeps_the_blocks_before_the_start() {
    for parallel in [false, true] {
        let sks = server_key(4, 4, parallel);
        let mut ctxt = radix(&[9, 6, 2, 0]);
        sks.partial_propagate_parallelized(&mut ctxt, 1);
        assert_eq!(contents(&ctxt), vec![9, 2, 3, 0]);
    }
}

#[test]
fn partial_propagate_from_the_end_changes_nothing() {
    for parallel in [false, true] {
        let sks = server_key(4, 4, parallel);
        let mut ctxt = radix(&[9, 6]);
        sks.partial_propagate_parallelized(&mut ctxt, 2);
        assert_eq!(contents(&ctxt), vec![9, 6]);
        let mut empty = radix(&[]);
        sks.full_propagate_parallelized(&mut empty);
        assert_eq!(empty.blocks.len(), 0);
    }
}

#[test]
fn propagation_keeps_the_number_of_blocks() {
    let sks = server_key(2, 2, true);
    let mut ctxt = radix(&[3, 3, 3, 3, 3]);
    sks.full_propagate_parallelized(&mut ctxt);
    assert_eq!(ctxt.blocks.len(), 5);
    // 3 * 31 = 93 = 29 mod 32 = 0b11101.
    assert_eq!(contents(&ctxt), vec![1, 0, 1, 1, 1]);
}

#[test]
fn eligibility_is_a_property_of_the_key() {
    assert!(server_key(4, 4, true).is_eligible_for_parallel_carryless_add());
    assert!(!server_key(4, 4, false).is_eligible_for_parallel_carryless_add());
}

#[test]
fn clear_key_rejects_invalid_moduli() {
    assert!(ClearKey::new(1, 4, false).is_none());
    assert!(ClearKey::new(4, 0, false).is_none());
    assert!(ClearKey::new(1 << 32, 1 << 32, false).is_none());
    let key = ClearKey::new(4, 2, false).unwrap();
    assert_eq!(key.message_modulus(), 4);
    assert_eq!(key.carry_modulus(), 2);
}

#[test]
fn clear_key_operations_act_on_contents() {
    let key = ClearKey::new(4, 4, false).unwrap();
    let digit = ClearDigit { value: 13 };
    assert_eq!(key.carry_extract(&digit).value, 3);
    assert_eq!(key.message_extract(&digit).value, 1);
    assert_eq!(key.unchecked_scalar_mul(&ClearDigit { value: 3 }, 4).value, 12);
    assert_eq!(key.create_trivial(5).value, 5);
    assert_eq!(key.decrypt(&digit), 13);
    let mut lhs = ClearDigit { value: 9 };
    key.unchecked_add_assign(&mut lhs, &ClearDigit { value: 4 });
    assert_eq!(lhs.value, 13);
    key.unchecked_sub_assign(&mut lhs, &ClearDigit { value: 12 });
    assert_eq!(lhs.value, 1);
    let table: Vec<u64> = (0..16).map(|n| 15 - n).collect();
    assert_eq!(key.apply_lookup_table(&digit, &table).value, 2);
    let mut image = ClearDigit { value: 4 };
    key.apply_lookup_table_assign(&mut image, &table);
    assert_eq!(image.value, 11);
}
