use std::collections::HashMap;

use num_bigint::BigUint;
use poseidon_tweak::digits::to_digits;
use poseidon_tweak::field::{Algebra, F};
use poseidon_tweak::packed::PackedF;
use poseidon_tweak::tweak::{
    PoseidonTweak, TWEAK_SEPARATOR_FOR_CHAIN_HASH, TWEAK_SEPARATOR_FOR_TREE_HASH,
};
use rand::Rng;

fn element(x: BigUint) -> F {
    let x: u64 = x.try_into().unwrap();
    F::from_u64(x)
}

#[test]
fn test_tree_tweak_field_elements() {
    let level = 1u8;
    let pos_in_level = 2u32;
    let sep = TWEAK_SEPARATOR_FOR_TREE_HASH as u64;

    let tweak_bigint: BigUint =
        (BigUint::from(level) << 40) + (BigUint::from(pos_in_level) << 8) + sep;

    let p = BigUint::from(F::ORDER_U64);
    let expected = [element(&tweak_bigint % &p), element((&tweak_bigint / &p) % &p)];

    let tweak = PoseidonTweak::TreeTweak { level, pos_in_level };
    let computed = tweak.to_field_elements::<2>();
    assert_eq!(computed, expected);
}

#[test]
fn test_chain_tweak_field_elements() {
    let epoch = 1u32;
    let chain_index = 2u8;
    let pos_in_chain = 3u8;
    let sep = TWEAK_SEPARATOR_FOR_CHAIN_HASH as u64;

    let tweak_bigint: BigUint = (BigUint::from(epoch) << 24)
        + (BigUint::from(chain_index) << 16)
        + (BigUint::from(pos_in_chain) << 8)
        + sep;

    let p = BigUint::from(F::ORDER_U64);
    let expected = [element(&tweak_bigint % &p), element((&tweak_bigint / &p) % &p)];

    let tweak = PoseidonTweak::ChainTweak { epoch, chain_index, pos_in_chain };
    let computed = tweak.to_field_elements::<2>();
    assert_eq!(computed, expected);
}

#[test]
fn test_tree_tweak_field_elements_max_values() {
    let level = u8::MAX;
    let pos_in_level = u32::MAX;
    let sep = TWEAK_SEPARATOR_FOR_TREE_HASH as u64;

    let tweak_bigint: BigUint =
        (BigUint::from(level) << 40) + (BigUint::from(pos_in_level) << 8) + sep;

    let p = BigUint::from(F::ORDER_U64);
    let expected = [element(&tweak_bigint % &p), element((&tweak_bigint / &p) % &p)];

    let tweak = PoseidonTweak::TreeTweak { level, pos_in_level };
    let computed = tweak.to_field_elements::<2>();
    assert_eq!(computed, expected);
}

#[test]
fn test_chain_tweak_field_elements_max_values() {
    let epoch = u32::MAX;
    let chain_index = u8::MAX;
    let pos_in_chain = u8::MAX;
    let sep = TWEAK_SEPARATOR_FOR_CHAIN_HASH as u64;

    let tweak_bigint: BigUint = (BigUint::from(epoch) << 24)
        + (BigUint::from(chain_index) << 16)
        + (BigUint::from(pos_in_chain) << 8)
        + sep;

    let p = BigUint::from(F::ORDER_U64);
    let expected = [element(&tweak_bigint % &p), element((&tweak_bigint / &p) % &p)];

    let tweak = PoseidonTweak::ChainTweak { epoch, chain_index, pos_in_chain };
    let computed = tweak.to_field_elements::<2>();
    assert_eq!(computed, expected);
}

#[test]
fn test_tree_tweak_injective() {
    let mut rng = rand::rng();

    // random inputs
    let mut map = HashMap::new();
    for _ in 0..100_000 {
        let level = rng.random();
        let pos_in_level = rng.random();
        let tweak_encoding =
            PoseidonTweak::TreeTweak { level, pos_in_level }.to_field_elements::<2>();

        if let Some((prev_level, prev_pos_in_level)) =
            map.insert(tweak_encoding, (level, pos_in_level))
        {
            assert_eq!(
                (prev_level, prev_pos_in_level),
                (level, pos_in_level),
                "Collision detected for ({},{}) and ({},{}) with output {:?}",
                prev_level,
                prev_pos_in_level,
                level,
                pos_in_level,
                tweak_encoding
            );
        }
    }

    // inputs with common level
    let mut map = HashMap::new();
    let level = rng.random();
    for _ in 0..10_000 {
        let pos_in_level = rng.random();
        let tweak_encoding =
            PoseidonTweak::TreeTweak { level, pos_in_level }.to_field_elements::<2>();

        if let Some(prev_pos_in_level) = map.insert(tweak_encoding, pos_in_level) {
            assert_eq!(
                prev_pos_in_level, pos_in_level,
                "Collision detected for ({},{}) and ({},{}) with output {:?}",
                level, prev_pos_in_level, level, pos_in_level, tweak_encoding
            );
        }
    }

    // inputs with common pos_in_level
    let mut map = HashMap::new();
    let pos_in_level = rng.random();
    for _ in 0..10_000 {
        let level = rng.random();
        let tweak_encoding =
            PoseidonTweak::TreeTweak { level, pos_in_level }.to_field_elements::<2>();

        if let Some(prev_level) = map.insert(tweak_encoding, level) {
            assert_eq!(
                prev_level, level,
                "Collision detected for ({},{}) and ({},{}) with output {:?}",
                prev_level, pos_in_level, level, pos_in_level, tweak_encoding
            );
        }
    }
}

#[test]
fn test_chain_tweak_injective() {
    let mut rng = rand::rng();

    // random inputs
    let mut map = HashMap::new();
    for _ in 0..100_000 {
        let epoch = rng.random();
        let chain_index = rng.random();
        let pos_in_chain = rng.random();

        let input = (epoch, chain_index, pos_in_chain);

        let tweak_encoding = PoseidonTweak::ChainTweak { epoch, chain_index, pos_in_chain }
            .to_field_elements::<2>();

        if let Some(prev_input) = map.insert(tweak_encoding, input) {
            assert_eq!(
                prev_input, input,
                "Collision detected for {prev_input:?} and {input:?} with output {tweak_encoding:?}"
            );
        }
    }

    // inputs with fixed epoch
    let mut map = HashMap::new();
    let epoch = rng.random();
    for _ in 0..10_000 {
        let chain_index = rng.random();
        let pos_in_chain = rng.random();

        let input = (chain_index, pos_in_chain);

        let tweak_encoding = PoseidonTweak::ChainTweak { epoch, chain_index, pos_in_chain }
            .to_field_elements::<2>();

        if let Some(prev_input) = map.insert(tweak_encoding, input) {
            assert_eq!(
                prev_input, input,
                "Collision detected for {prev_input:?} and {input:?} with output {tweak_encoding:?}"
            );
        }
    }

    // inputs with fixed chain_index
    let mut map = HashMap::new();
    let chain_index = rng.random();
    for _ in 0..10_000 {
        let epoch = rng.random();
        let pos_in_chain = rng.random();

        let input = (epoch, pos_in_chain);

        let tweak_encoding = PoseidonTweak::ChainTweak { epoch, chain_index, pos_in_chain }
            .to_field_elements::<2>();

        if let Some(prev_input) = map.insert(tweak_encoding, input) {
            assert_eq!(
                prev_input, input,
                "Collision detected for {prev_input:?} and {input:?} with output {tweak_encoding:?}"
            );
        }
    }

    // inputs with fixed pos_in_chain
    let mut map = HashMap::new();
    let pos_in_chain = rng.random();
    for _ in 0..10_000 {
        let epoch = rng.random();
        let chain_index = rng.random();

        let input = (epoch, chain_index);

        let tweak_encoding = PoseidonTweak::ChainTweak { epoch, chain_index, pos_in_chain }
            .to_field_elements::<2>();

        if let Some(prev_input) = map.insert(tweak_encoding, input) {
            assert_eq!(
                prev_input, input,
                "Collision detected for {prev_input:?} and {input:?} with output {tweak_encoding:?}"
            );
        }
    }
}

#[test]
fn proptest_chain_tweak_encoding_properties() {
    let mut rng = rand::rng();
    for _ in 0..256 {
        let epoch1: u32 = rng.random();
        let epoch2: u32 = if rng.random() { epoch1 } else { rng.random() };
        let chain_index: u8 = rng.random();
        let pos_in_chain: u8 = rng.random();

        let tweak1 = PoseidonTweak::ChainTweak { epoch: epoch1, chain_index, pos_in_chain };
        let result1 = tweak1.to_field_elements::<2>();
        let result2 = tweak1.to_field_elements::<2>();
        assert_eq!(result1, result2);
        assert_eq!(result1.len(), 2);

        let tweak2 = PoseidonTweak::ChainTweak { epoch: epoch2, chain_index, pos_in_chain };
        let other = tweak2.to_field_elements::<2>();
        if epoch1 == epoch2 {
            assert_eq!(result1, other);
        } else {
            assert_ne!(result1, other);
        }

        let tree_tweak = PoseidonTweak::TreeTweak { level: 0, pos_in_level: epoch1 };
        assert_ne!(result1, tree_tweak.to_field_elements::<2>());
    }
}

#[test]
fn proptest_tree_tweak_encoding_properties() {
    let mut rng = rand::rng();
    for _ in 0..256 {
        let level1: u8 = rng.random();
        let level2: u8 = if rng.random() { level1 } else { rng.random() };
        let pos_in_level: u32 = rng.random();

        let tweak1 = PoseidonTweak::TreeTweak { level: level1, pos_in_level };
        let result1 = tweak1.to_field_elements::<2>();
        let result2 = tweak1.to_field_elements::<2>();
        assert_eq!(result1, result2);
        assert_eq!(result1.len(), 2);

        let tweak2 = PoseidonTweak::TreeTweak { level: level2, pos_in_level };
        let other = tweak2.to_field_elements::<2>();
        if level1 == level2 {
            assert_eq!(result1, other);
        } else {
            assert_ne!(result1, other);
        }
    }
}

#[test]
fn tweaks_have_exact_digits() {
    // 2^40 + 2 * 2^8 + 1 = 516 * p + 67108861
    let tree = PoseidonTweak::TreeTweak { level: 1, pos_in_level: 2 };
    assert_eq!(tree.to_field_elements::<3>(), [F::new(67108861), F::new(516), F::zero()]);

    // 2^24 + 2 * 2^16 + 3 * 2^8 is below p
    let chain = PoseidonTweak::ChainTweak { epoch: 1, chain_index: 2, pos_in_chain: 3 };
    assert_eq!(chain.to_field_elements::<2>(), [F::new(0x01020300), F::zero()]);
    assert_eq!(chain.to_field_elements::<0>(), []);
}

#[test]
fn one_digit_does_not_tell_tweaks_apart() {
    // The numbers of these tweaks differ by a multiple of p.
    let a = PoseidonTweak::TreeTweak { level: 0, pos_in_level: 0 };
    let b = PoseidonTweak::TreeTweak { level: 1, pos_in_level: 2097152003 };
    assert_eq!(a.to_field_elements::<1>(), b.to_field_elements::<1>());
    assert_ne!(a.to_field_elements::<2>(), b.to_field_elements::<2>());
}

#[test]
fn digits_are_the_same_on_packed_elements() {
    let value: u128 = (7 << 93) + 12345;
    let scalar: [F; 5] = to_digits(value);
    let packed: [PackedF; 5] = to_digits(value);
    let mut rest = value;
    for i in 0..5 {
        assert_eq!(scalar[i].as_canonical_u32() as u128, rest % F::ORDER_U64 as u128);
        rest /= F::ORDER_U64 as u128;
        for l in 0..PackedF::width() {
            assert_eq!(packed[i].extract(l), scalar[i]);
        }
    }
    assert_eq!(rest, 0);
}
