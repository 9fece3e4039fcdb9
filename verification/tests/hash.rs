use p3_field::PrimeField32;
use p3_koala_bear::{
    default_koalabear_poseidon2_16, default_koalabear_poseidon2_24, KoalaBear,
};
use p3_symmetric::Permutation as P3Permutation;
use poseidon_tweak::array::FieldArray;
use poseidon_tweak::compress::poseidon_compress;
use poseidon_tweak::field::{Algebra, F};
use poseidon_tweak::packed::PackedF;
use poseidon_tweak::permutation::{poseidon2_16, poseidon2_24, Permutation, Poseidon2};
use poseidon_tweak::random::elements_from_canonical;
use poseidon_tweak::simd_utils::{pack_array, unpack_to_array};
use poseidon_tweak::sponge::{poseidon_safe_domain_separator, poseidon_sponge};
use poseidon_tweak::tweak_hash::PoseidonTweakHash;
use rand::Rng;

type PoseidonTweak44 = PoseidonTweakHash<4, 4, 3, 9, 128>;
type PoseidonTweak37 = PoseidonTweakHash<3, 7, 3, 9, 128>;
type PoseidonTweakW1L5 = PoseidonTweakHash<5, 7, 2, 9, 163>;

fn to_p3<const N: usize>(x: [F; N]) -> [KoalaBear; N] {
    x.map(|e| KoalaBear::new(e.as_canonical_u32()))
}

fn from_p3<const N: usize>(x: [KoalaBear; N]) -> [F; N] {
    x.map(|e| F::new(e.as_canonical_u32()))
}

/// The image of a state under the permutation of width 24, computed with `p3_koala_bear` alone.
fn p3_image_24(x: [F; 24]) -> [F; 24] {
    let mut state = to_p3(x);
    default_koalabear_poseidon2_24().permute_mut(&mut state);
    from_p3(state)
}

/// The sponge, written out with the permutation of `p3_koala_bear`.
fn p3_sponge(capacity: &[F], input: &[F], out_len: usize) -> Vec<F> {
    let rate = 24 - capacity.len();
    let mut state = [F::zero(); 24];
    state[rate..].copy_from_slice(capacity);
    for chunk in input.chunks(rate) {
        for (s, x) in state.iter_mut().zip(chunk) {
            *s = s.add(*x);
        }
        state = p3_image_24(state);
    }
    let mut out = vec![];
    while out.len() < out_len {
        out.extend_from_slice(&state[..rate]);
        state = p3_image_24(state);
    }
    out.truncate(out_len);
    out
}

fn elements<const N: usize>(x: [u32; N]) -> [F; N] {
    x.map(F::new)
}

#[test]
fn test_apply_44() {
    let mut rng = rand::rng();

    // make sure parameters make sense
    assert!(PoseidonTweak44::internal_consistency_check());

    // test that nothing is panicking
    let parameter = PoseidonTweak44::rand_parameter(&mut rng);
    let message_one = PoseidonTweak44::rand_domain(&mut rng);
    let message_two = PoseidonTweak44::rand_domain(&mut rng);
    let tweak_tree = PoseidonTweak44::tree_tweak(0, 3);
    let _ = PoseidonTweak44::apply(&parameter, &tweak_tree, &[message_one, message_two]);

    // test that nothing is panicking
    let parameter = PoseidonTweak44::rand_parameter(&mut rng);
    let message_one = PoseidonTweak44::rand_domain(&mut rng);
    let tweak_chain = PoseidonTweak44::chain_tweak(2, 3, 4);
    let _ = PoseidonTweak44::apply(&parameter, &tweak_chain, &[message_one]);

    // test that nothing is panicking
    let parameter = PoseidonTweak44::rand_parameter(&mut rng);
    let chains = [PoseidonTweak44::rand_domain(&mut rng); 128];
    let tweak_tree = PoseidonTweak44::tree_tweak(0, 3);
    let _ = PoseidonTweak44::apply(&parameter, &tweak_tree, &chains);
}

#[test]
fn test_apply_37() {
    let mut rng = rand::rng();

    // make sure parameters make sense
    assert!(PoseidonTweak37::internal_consistency_check());

    // test that nothing is panicking
    let parameter = PoseidonTweak37::rand_parameter(&mut rng);
    let message_one = PoseidonTweak37::rand_domain(&mut rng);
    let message_two = PoseidonTweak37::rand_domain(&mut rng);
    let tweak_tree = PoseidonTweak37::tree_tweak(0, 3);
    let _ = PoseidonTweak37::apply(&parameter, &tweak_tree, &[message_one, message_two]);

    // test that nothing is panicking
    let parameter = PoseidonTweak37::rand_parameter(&mut rng);
    let message_one = PoseidonTweak37::rand_domain(&mut rng);
    let tweak_chain = PoseidonTweak37::chain_tweak(2, 3, 4);
    let _ = PoseidonTweak37::apply(&parameter, &tweak_chain, &[message_one]);
}

#[test]
fn test_rand_parameter_not_all_same() {
    const K: usize = 10;
    let mut rng = rand::rng();
    let mut all_same_count = 0;

    for _ in 0..K {
        let parameter = PoseidonTweak44::rand_parameter(&mut rng);

        let first = parameter.0[0];
        if parameter.0.iter().all(|&x| x == first) {
            all_same_count += 1;
        }
    }

    assert!(
        all_same_count < K,
        "rand_parameter generated identical elements in all {K} trials"
    );
}

#[test]
fn test_rand_domain_not_all_same() {
    const K: usize = 10;
    let mut rng = rand::rng();
    let mut all_same_count = 0;

    for _ in 0..K {
        let domain = PoseidonTweak44::rand_domain(&mut rng);

        let first = domain.0[0];
        if domain.0.iter().all(|&x| x == first) {
            all_same_count += 1;
        }
    }

    assert!(
        all_same_count < K,
        "rand_domain generated identical elements in all {} trials",
        K
    );
}

#[test]
fn proptest_apply_properties() {
    let mut rng = rand::rng();
    for _ in 0..256 {
        let parameter = PoseidonTweak44::rand_parameter(&mut rng);
        let message = PoseidonTweak44::rand_domain(&mut rng);
        let epoch: u32 = rng.random();
        let chain_index: u8 = rng.random();
        let pos_in_chain: u8 = rng.random();

        let tweak = PoseidonTweak44::chain_tweak(epoch, chain_index, pos_in_chain);
        let result1 = PoseidonTweak44::apply(&parameter, &tweak, &[message]);
        let result2 = PoseidonTweak44::apply(&parameter, &tweak, &[message]);
        assert_eq!(result1, result2);
        assert_eq!(result1.0.len(), 4);

        let other_tweak =
            PoseidonTweak44::chain_tweak(epoch.wrapping_add(1), chain_index, pos_in_chain);
        let other_result = PoseidonTweak44::apply(&parameter, &other_tweak, &[message]);
        assert_ne!(result1, other_result);
    }
}

#[test]
fn permutations_are_the_default_ones() {
    let start: [F; 16] = std::array::from_fn(|i| F::from_u64(1000003 * i as u64 + 17));
    let mut expected = to_p3(start);
    default_koalabear_poseidon2_16().permute_mut(&mut expected);
    let mut state = start;
    poseidon2_16().permute_mut(&mut state);
    assert_eq!(state, from_p3(expected));
    assert_ne!(state, start);

    let start: [F; 24] = std::array::from_fn(|i| F::from_u64(99991 * i as u64 + 5));
    let mut state = start;
    poseidon2_24().permute_mut(&mut state);
    assert_eq!(state, p3_image_24(start));
    assert_ne!(state, start);
}

#[test]
fn packed_permutations_work_lane_by_lane() {
    let width = PackedF::width();
    let rows: Vec<FieldArray<16>> = (0..width)
        .map(|l| FieldArray(std::array::from_fn(|i| F::from_u64((100 * l + i) as u64))))
        .collect();
    let mut packed = pack_array(&rows);
    poseidon2_16().permute_mut(&mut packed);
    for (row, image) in rows.iter().zip(unpack_to_array(packed)) {
        let mut state = row.0;
        poseidon2_16().permute_mut(&mut state);
        assert_eq!(state, image.0);
        assert_ne!(row.0, image.0);
    }

    let rows: Vec<FieldArray<24>> = (0..width)
        .map(|l| FieldArray(std::array::from_fn(|i| F::from_u64((100 * l + i) as u64))))
        .collect();
    let mut packed = pack_array(&rows);
    poseidon2_24().permute_mut(&mut packed);
    for (row, image) in rows.iter().zip(unpack_to_array(packed)) {
        assert_eq!(p3_image_24(row.0), image.0);
    }
}

#[test]
fn compression_permutes_and_adds_the_input_back() {
    let mut padded = [F::zero(); 24];
    padded[..3].copy_from_slice(&elements([1, 2, 3]));
    let image = p3_image_24(padded);
    let r: [F; 3] =
        poseidon_compress::<F, Poseidon2<24>, 24, 3>(&poseidon2_24(), &elements([1, 2, 3]));
    assert_eq!(r, [image[0].add(F::new(1)), image[1].add(F::new(2)), image[2].add(F::new(3))]);
    let none: [F; 0] = poseidon_compress::<F, Poseidon2<24>, 24, 0>(&poseidon2_24(), &[]);
    assert_eq!(none, []);
}

#[test]
fn compression_ignores_trailing_zeros() {
    let a: [F; 2] =
        poseidon_compress::<F, Poseidon2<24>, 24, 2>(&poseidon2_24(), &elements([5, 6]));
    let b: [F; 2] =
        poseidon_compress::<F, Poseidon2<24>, 24, 2>(&poseidon2_24(), &elements([5, 6, 0, 0]));
    let c: [F; 2] =
        poseidon_compress::<F, Poseidon2<24>, 24, 2>(&poseidon2_24(), &elements([5, 6, 0, 1]));
    assert_eq!(a, b);
    assert_ne!(a, c);
}

#[test]
fn packed_compression_works_lane_by_lane() {
    let width = PackedF::width();
    let rows: Vec<FieldArray<7>> = (0..width)
        .map(|l| FieldArray(std::array::from_fn(|i| F::from_u64((31 * l + i + 1) as u64))))
        .collect();
    let packed: [PackedF; 4] =
        poseidon_compress::<PackedF, Poseidon2<16>, 16, 4>(&poseidon2_16(), &pack_array(&rows));
    for (row, out) in rows.iter().zip(unpack_to_array(packed)) {
        let scalar: [F; 4] =
            poseidon_compress::<F, Poseidon2<16>, 16, 4>(&poseidon2_16(), &row.0);
        assert_eq!(scalar, out.0);
    }
}

#[test]
fn sponge_absorbs_blocks_and_squeezes_at_the_rate() {
    let capacity = elements([7; 20]);
    let input = elements([1, 2, 3, 4, 5, 6]);
    let r: [F; 11] =
        poseidon_sponge::<F, Poseidon2<24>, 24, 11>(&poseidon2_24(), &capacity, &input);
    assert_eq!(r.to_vec(), p3_sponge(&capacity, &input, 11));
    let full: [F; 30] = poseidon_sponge::<F, Poseidon2<24>, 24, 30>(&poseidon2_24(), &[], &input);
    assert_eq!(full.to_vec(), p3_sponge(&[], &input, 30));
}

#[test]
fn sponge_of_nothing_squeezes_the_initial_state() {
    let perm = poseidon2_24();
    let r: [F; 2] = poseidon_sponge::<F, Poseidon2<24>, 24, 2>(&perm, &elements([7]), &[]);
    assert_eq!(r, elements([0, 0]));
    let none: [F; 0] =
        poseidon_sponge::<F, Poseidon2<24>, 24, 0>(&perm, &elements([7]), &elements([1]));
    assert_eq!(none, []);
}

#[test]
fn shorter_outputs_are_prefixes() {
    let capacity = elements([11, 12, 13]);
    let input = elements([1, 2, 3, 4, 5]);
    let long: [F; 50] =
        poseidon_sponge::<F, Poseidon2<24>, 24, 50>(&poseidon2_24(), &capacity, &input);
    let short: [F; 30] =
        poseidon_sponge::<F, Poseidon2<24>, 24, 30>(&poseidon2_24(), &capacity, &input);
    assert_eq!(&long[..30], &short[..]);
}

#[test]
fn sponge_ignores_zeros_in_the_last_block() {
    let perm = poseidon2_24();
    let capacity = elements([1; 9]);
    let a: [F; 4] =
        poseidon_sponge::<F, Poseidon2<24>, 24, 4>(&perm, &capacity, &elements([8; 16]));
    let mut longer = [F::zero(); 30];
    longer[..16].copy_from_slice(&elements([8; 16]));
    let b: [F; 4] = poseidon_sponge::<F, Poseidon2<24>, 24, 4>(&perm, &capacity, &longer);
    assert_eq!(a, b);
    let other = elements([2; 9]);
    let c: [F; 4] = poseidon_sponge::<F, Poseidon2<24>, 24, 4>(&perm, &other, &longer);
    assert_ne!(a, c);
}

#[test]
fn domain_separator_compresses_the_digits_of_its_words() {
    // With the words [0, 0, 0, w] the number is w, below p.
    let mut digits = [F::zero(); 24];
    digits[0] = F::new(41);
    let image = p3_image_24(digits);
    let r: [F; 2] = poseidon_safe_domain_separator::<F, Poseidon2<24>, 24, 2>(
        &poseidon2_24(),
        &[0, 0, 0, 41],
    );
    assert_eq!(r, [image[0].add(F::new(41)), image[1]]);
    // 2^96 in base p.
    let mut number: u128 = 1 << 96;
    let mut digits = [F::zero(); 24];
    for d in digits.iter_mut() {
        *d = F::from_u64((number % F::ORDER_U64 as u128) as u64);
        number /= F::ORDER_U64 as u128;
    }
    let r: [F; 9] = poseidon_safe_domain_separator::<F, Poseidon2<24>, 24, 9>(
        &poseidon2_24(),
        &[1, 0, 0, 0],
    );
    let image = p3_image_24(digits);
    for i in 0..9 {
        assert_eq!(r[i], image[i].add(digits[i]));
    }
}

#[test]
fn domain_separators_differ_with_every_word() {
    let mut seen: Vec<[F; 9]> = vec![];
    for words in [[4, 3, 128, 4], [3, 4, 128, 4], [4, 3, 4, 128], [4, 3, 128, 5], [5, 3, 128, 4]] {
        let r: [F; 9] =
            poseidon_safe_domain_separator::<F, Poseidon2<24>, 24, 9>(&poseidon2_24(), &words);
        assert!(!seen.contains(&r));
        seen.push(r);
    }
}

#[test]
fn single_block_is_compressed_with_the_narrow_permutation() {
    let parameter = FieldArray(elements([1, 2, 3, 4]));
    let block = FieldArray(elements([10, 20, 30, 40]));
    let tweak = PoseidonTweak44::chain_tweak(1, 2, 3);
    let mut input = [F::zero(); 16];
    input[..4].copy_from_slice(&parameter.0);
    input[4..7].copy_from_slice(&tweak.to_field_elements::<3>());
    input[7..11].copy_from_slice(&block.0);
    let mut state = to_p3(input);
    default_koalabear_poseidon2_16().permute_mut(&mut state);
    let image = from_p3(state);
    let hash = PoseidonTweak44::apply(&parameter, &tweak, &[block]);
    for i in 0..4 {
        assert_eq!(hash.0[i], image[i].add(input[i]));
    }
}

#[test]
fn two_blocks_are_compressed_with_the_wide_permutation() {
    let parameter = FieldArray(elements([1, 2, 3]));
    let left = FieldArray(elements([1, 1, 1, 1, 1, 1, 1]));
    let right = FieldArray(elements([2, 2, 2, 2, 2, 2, 2]));
    let tweak = PoseidonTweak37::tree_tweak(5, 77);
    let mut input = [F::zero(); 24];
    input[..3].copy_from_slice(&parameter.0);
    input[3..6].copy_from_slice(&tweak.to_field_elements::<3>());
    input[6..13].copy_from_slice(&left.0);
    input[13..20].copy_from_slice(&right.0);
    let image = p3_image_24(input);
    let hash = PoseidonTweak37::apply(&parameter, &tweak, &[left, right]);
    for i in 0..7 {
        assert_eq!(hash.0[i], image[i].add(input[i]));
    }
    assert_ne!(hash, PoseidonTweak37::apply(&parameter, &tweak, &[right, left]));
}

#[test]
fn many_blocks_go_through_the_sponge() {
    let parameter = FieldArray(elements([1, 2, 3, 4, 5]));
    let message: Vec<FieldArray<7>> = (0..163)
        .map(|b| FieldArray(std::array::from_fn(|i| F::from_u64((1000 * b + i) as u64))))
        .collect();
    let tweak = PoseidonTweakW1L5::tree_tweak(0, 9);
    let mut input: Vec<F> = parameter.0.to_vec();
    input.extend_from_slice(&tweak.to_field_elements::<2>());
    for block in &message {
        input.extend_from_slice(&block.0);
    }
    let capacity: [F; 9] = poseidon_safe_domain_separator::<F, Poseidon2<24>, 24, 9>(
        &poseidon2_24(),
        &[5, 2, 163, 7],
    );
    let expected = p3_sponge(&capacity, &input, 7);
    let hash = PoseidonTweakW1L5::apply(&parameter, &tweak, &message);
    assert_eq!(hash.0.to_vec(), expected);
}

#[test]
fn three_blocks_are_the_first_that_use_the_sponge() {
    type Small = PoseidonTweakHash<1, 2, 2, 20, 3>;
    let parameter = FieldArray(elements([9]));
    let block = FieldArray(elements([1, 2]));
    let tweak = Small::tree_tweak(1, 1);
    let code = tweak.to_field_elements::<2>();
    let input: Vec<F> = [parameter.0.to_vec(), code.to_vec(), block.0.repeat(3)].concat();
    let capacity: [F; 20] =
        poseidon_safe_domain_separator::<F, Poseidon2<24>, 24, 20>(&poseidon2_24(), &[1, 2, 3, 2]);
    let expected: [F; 2] =
        poseidon_sponge::<F, Poseidon2<24>, 24, 2>(&poseidon2_24(), &capacity, &input);
    assert_eq!(Small::apply(&parameter, &tweak, &[block; 3]).0, expected);
}

#[test]
fn empty_message_gives_ones() {
    let parameter = FieldArray(elements([1, 2, 3, 4]));
    let hash = PoseidonTweak44::apply(&parameter, &PoseidonTweak44::tree_tweak(0, 0), &[]);
    assert_eq!(hash.0, [F::one(); 4]);
}

#[test]
fn packed_digests_work_lane_by_lane() {
    type Small = PoseidonTweakHash<1, 2, 1, 9, 3>;
    let narrow = poseidon2_16();
    let wide = poseidon2_24();
    for blocks in 0..5 {
        let rows: Vec<FieldArray<12>> = (0..PackedF::width())
            .map(|l| FieldArray(std::array::from_fn(|i| F::from_u64((50 * l + i + 1) as u64))))
            .collect();
        let len = 2 + 2 * blocks;
        let packed: [PackedF; 2] = Small::digest_input::<PackedF, Poseidon2<16>, Poseidon2<24>>(
            &narrow,
            &wide,
            &pack_array(&rows)[..len],
            blocks,
        );
        for (row, out) in rows.iter().zip(unpack_to_array(packed)) {
            let scalar: [F; 2] = Small::digest_input::<F, Poseidon2<16>, Poseidon2<24>>(
                &narrow,
                &wide,
                &row.0[..len],
                blocks,
            );
            assert_eq!(scalar, out.0);
            assert_eq!(blocks == 0, scalar == [F::one(); 2]);
        }
    }
}

#[test]
fn packed_sponge_works_lane_by_lane() {
    let rows: Vec<FieldArray<40>> = (0..PackedF::width())
        .map(|l| FieldArray(std::array::from_fn(|i| F::from_u64((9 * l + i * i) as u64))))
        .collect();
    let words = [1, 2, 3, 4];
    let perm = poseidon2_24();
    let capacity: [PackedF; 9] =
        poseidon_safe_domain_separator::<PackedF, Poseidon2<24>, 24, 9>(&perm, &words);
    let packed: [PackedF; 20] = poseidon_sponge::<PackedF, Poseidon2<24>, 24, 20>(
        &perm,
        &capacity,
        &pack_array(&rows),
    );
    let separator: [F; 9] =
        poseidon_safe_domain_separator::<F, Poseidon2<24>, 24, 9>(&perm, &words);
    for (row, out) in rows.iter().zip(unpack_to_array(packed)) {
        assert_eq!(out.0.to_vec(), p3_sponge(&separator, &row.0, 20));
    }
}

#[test]
fn chain_takes_one_hash_per_step() {
    let parameter = FieldArray(elements([4, 3, 2, 1]));
    let start = FieldArray(elements([5, 6, 7, 8]));
    let one = PoseidonTweak44::apply(&parameter, &PoseidonTweak44::chain_tweak(6, 7, 3), &[start]);
    let two = PoseidonTweak44::apply(&parameter, &PoseidonTweak44::chain_tweak(6, 7, 4), &[one]);
    assert_eq!(PoseidonTweak44::chain(&parameter, 6, 7, 2, 0, &start), start);
    assert_eq!(PoseidonTweak44::chain(&parameter, 6, 7, 2, 1, &start), one);
    assert_eq!(PoseidonTweak44::chain(&parameter, 6, 7, 2, 2, &start), two);
}

#[test]
fn chain_can_be_walked_in_two_parts() {
    let parameter = FieldArray(elements([4, 3, 2, 1]));
    let start = FieldArray(elements([5, 6, 7, 8]));
    let whole = PoseidonTweak44::chain(&parameter, 1, 2, 10, 9, &start);
    let middle = PoseidonTweak44::chain(&parameter, 1, 2, 10, 4, &start);
    assert_eq!(PoseidonTweak44::chain(&parameter, 1, 2, 14, 5, &middle), whole);
}

#[test]
fn positions_in_a_chain_wrap_at_one_byte() {
    let parameter = FieldArray(elements([4, 3, 2, 1]));
    let start = FieldArray(elements([5, 6, 7, 8]));
    let expected =
        PoseidonTweak44::apply(&parameter, &PoseidonTweak44::chain_tweak(0, 0, 0), &[start]);
    assert_eq!(PoseidonTweak44::chain(&parameter, 0, 0, 255, 1, &start), expected);
}

#[test]
fn inconsistent_lengths_are_found() {
    assert!(PoseidonTweakW1L5::internal_consistency_check());
    // no rate
    assert!(!PoseidonTweakHash::<4, 4, 3, 24, 128>::internal_consistency_check());
    assert!(PoseidonTweakHash::<4, 4, 3, 23, 128>::internal_consistency_check());
    // one block does not fit
    assert!(!PoseidonTweakHash::<11, 3, 3, 9, 128>::internal_consistency_check());
    assert!(PoseidonTweakHash::<10, 3, 3, 9, 128>::internal_consistency_check());
    // two blocks do not fit
    assert!(!PoseidonTweakHash::<3, 10, 2, 9, 128>::internal_consistency_check());
    assert!(PoseidonTweakHash::<2, 10, 2, 9, 128>::internal_consistency_check());
    // tweaks need two elements
    assert!(!PoseidonTweakHash::<4, 4, 1, 9, 128>::internal_consistency_check());
    assert!(!PoseidonTweakHash::<4, 4, 0, 9, 128>::internal_consistency_check());
    // lengths whose sum is beyond the machine
    assert!(!PoseidonTweakHash::<{ usize::MAX }, 4, 3, 9, 128>::internal_consistency_check());
}

#[test]
fn drawn_representatives_become_elements() {
    let r = elements_from_canonical(&[0, 1, 2130706432]);
    assert_eq!(r, FieldArray([F::zero(), F::one(), F::new(2130706432)]));
}

#[test]
fn draws_are_not_repeated() {
    let mut rng = rand::rng();
    let a = PoseidonTweak44::rand_domain(&mut rng);
    let b = PoseidonTweak44::rand_domain(&mut rng);
    assert_ne!(a, b);
}
