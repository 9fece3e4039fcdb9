use poseidon_tweak::array::FieldArray;
use poseidon_tweak::field::{Algebra, F};
use poseidon_tweak::packed::PackedF;
use poseidon_tweak::simd_utils::{pack_array, pack_column, unpack_array, unpack_to_array};
use rand::Rng;

fn packed_from(f: impl Fn(usize) -> F) -> PackedF {
    let column: Vec<F> = (0..PackedF::width()).map(f).collect();
    pack_column(&column)
}

fn random_element() -> F {
    F::from_u64(rand::rng().random())
}

#[test]
fn test_pack_array_simple() {
    let data: Vec<FieldArray<2>> = (0..PackedF::width())
        .map(|i| FieldArray([F::from_u64(i as u64), F::from_u64((i + 100) as u64)]))
        .collect();

    let packed = pack_array(&data);

    for (lane, expected) in data.iter().enumerate() {
        assert_eq!(packed[0].extract(lane), expected.0[0]);
    }
    for (lane, expected) in data.iter().enumerate() {
        assert_eq!(packed[1].extract(lane), expected.0[1]);
    }
}

#[test]
fn test_unpack_array_simple() {
    let packed: [PackedF; 2] = [
        packed_from(|i| F::from_u64(i as u64)),
        packed_from(|i| F::from_u64((i + 100) as u64)),
    ];

    let mut output = vec![FieldArray([F::zero(); 2]); PackedF::width()];
    unpack_array(&packed, &mut output);

    for (lane, arr) in output.iter().enumerate() {
        assert_eq!(arr.0[0], F::from_u64(lane as u64));
        assert_eq!(arr.0[1], F::from_u64((lane + 100) as u64));
    }
}

#[test]
fn test_unpack_to_array() {
    let packed: [PackedF; 2] = [
        packed_from(|i| F::from_u64(i as u64)),
        packed_from(|i| F::from_u64((i + 100) as u64)),
    ];

    let output = unpack_to_array(packed);

    assert_eq!(output.len(), PackedF::width());
    for (lane, arr) in output.iter().enumerate() {
        assert_eq!(arr.0[0], F::from_u64(lane as u64));
        assert_eq!(arr.0[1], F::from_u64((lane + 100) as u64));
    }
}

#[test]
fn test_pack_preserves_element_order() {
    let data: Vec<FieldArray<3>> = (0..PackedF::width())
        .map(|i| {
            FieldArray([
                F::from_u64((i * 3) as u64),
                F::from_u64((i * 3 + 1) as u64),
                F::from_u64((i * 3 + 2) as u64),
            ])
        })
        .collect();

    let packed = pack_array(&data);

    for (element_idx, p) in packed.iter().enumerate() {
        for lane in 0..PackedF::width() {
            let expected = F::from_u64((lane * 3 + element_idx) as u64);
            assert_eq!(p.extract(lane), expected);
        }
    }
}

#[test]
fn test_unpack_preserves_element_order() {
    let packed: [PackedF; 3] = [
        packed_from(|i| F::from_u64((i * 3) as u64)),
        packed_from(|i| F::from_u64((i * 3 + 1) as u64)),
        packed_from(|i| F::from_u64((i * 3 + 2) as u64)),
    ];

    let mut output = vec![FieldArray([F::zero(); 3]); PackedF::width()];
    unpack_array(&packed, &mut output);

    for (lane, arr) in output.iter().enumerate() {
        assert_eq!(arr.0[0], F::from_u64((lane * 3) as u64));
        assert_eq!(arr.0[1], F::from_u64((lane * 3 + 1) as u64));
        assert_eq!(arr.0[2], F::from_u64((lane * 3 + 2) as u64));
    }
}

#[test]
fn proptest_pack_unpack_roundtrip() {
    for _ in 0..256 {
        let original: Vec<FieldArray<10>> = (0..PackedF::width())
            .map(|_| FieldArray(std::array::from_fn(|_| random_element())))
            .collect();

        let packed = pack_array(&original);
        let mut unpacked = vec![FieldArray([F::zero(); 10]); PackedF::width()];
        unpack_array(&packed, &mut unpacked);

        assert_eq!(original, unpacked);
    }
}

#[test]
fn proptest_unpack_to_array_matches_unpack_array() {
    for _ in 0..256 {
        let packed: [PackedF; 8] = std::array::from_fn(|_| packed_from(|_| random_element()));

        let mut output1 = vec![FieldArray([F::zero(); 8]); PackedF::width()];
        unpack_array(&packed, &mut output1);
        let output2 = unpack_to_array(packed);

        assert_eq!(output1, output2);
    }
}

#[test]
fn packing_what_was_unpacked_gives_it_back() {
    let packed: [PackedF; 3] =
        std::array::from_fn(|i| packed_from(|l| F::from_u64((1000 * i + 7 * l) as u64)));
    let again = pack_array(&unpack_to_array(packed));
    for i in 0..3 {
        for l in 0..PackedF::width() {
            assert_eq!(again[i].extract(l), packed[i].extract(l));
            assert_eq!(again[i].extract(l).as_canonical_u32(), (1000 * i + 7 * l) as u32);
        }
    }
}

#[test]
fn packing_reads_only_the_lanes() {
    let width = PackedF::width();
    let data: Vec<FieldArray<1>> =
        (0..width + 3).map(|i| FieldArray([F::from_u64(i as u64 + 5)])).collect();
    let packed = pack_array(&data);
    for l in 0..width {
        assert_eq!(packed[0].extract(l), F::from_u64(l as u64 + 5));
    }
}

#[test]
fn unpacking_keeps_what_is_behind_the_last_lane() {
    let width = PackedF::width();
    let packed = [packed_from(|_| F::one())];
    let mut output = vec![FieldArray([F::from_u64(9)]); width + 2];
    unpack_array(&packed, &mut output);
    for (j, arr) in output.iter().enumerate() {
        let expected: u64 = if j < width { 1 } else { 9 };
        assert_eq!(arr.0[0], F::from_u64(expected));
    }
}

#[test]
fn empty_arrays_are_packed_from_nothing() {
    let data: Vec<FieldArray<0>> = vec![];
    let packed = pack_array(&data);
    assert_eq!(packed.len(), 0);
    let mut output: Vec<FieldArray<0>> = vec![];
    unpack_array(&packed, &mut output);
    assert_eq!(output.len(), 0);
    assert_eq!(unpack_to_array(packed).len(), PackedF::width());
}

#[test]
fn packed_sums_are_lanewise() {
    let a = packed_from(|l| F::from_u64(F::ORDER_U64 - 1 - l as u64));
    let b = packed_from(|l| F::from_u64(3 + 2 * l as u64));
    let sum = a.add(b);
    for l in 0..PackedF::width() {
        assert_eq!(sum.extract(l).as_canonical_u32(), 2 + l as u32);
    }
}

#[test]
fn packed_constants_fill_every_lane() {
    let zero = PackedF::zero();
    let five = PackedF::from_u64(F::ORDER_U64 + 5);
    for l in 0..PackedF::width() {
        assert_eq!(zero.extract(l), F::zero());
        assert_eq!(five.extract(l), F::new(5));
    }
}

#[test]
fn field_elements_are_classes_modulo_the_order() {
    assert_eq!(F::ORDER_U64, 2130706433);
    assert_eq!(F::new(2130706433), F::zero());
    assert_eq!(F::new(u32::MAX).as_canonical_u32(), 33554429);
    assert_eq!(F::from_u64(u64::MAX).as_canonical_u32() as u64, u64::MAX % 2130706433);
    assert_eq!(F::from_u64(2130706432).add(F::one()), F::zero());
    assert_eq!(F::from_u64(2130706432).add(F::from_u64(2130706432)).as_canonical_u32(), 2130706431);
}
