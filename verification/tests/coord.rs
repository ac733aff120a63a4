use voxel_core::coord::{chunk_axis, chunk_of, coordinate_key, is_within, key_coordinate};

#[test]
fn positions_fall_into_chunks_by_floor_division() {
    assert_eq!(chunk_axis(0), 0);
    assert_eq!(chunk_axis(31), 0);
    assert_eq!(chunk_axis(32), 1);
    assert_eq!(chunk_axis(-1), -1);
    assert_eq!(chunk_axis(-32), -1);
    assert_eq!(chunk_axis(-33), -2);
    assert_eq!(chunk_axis(i32::MAX), 67_108_863);
    assert_eq!(chunk_axis(i32::MIN), -67_108_864);
    assert_eq!(chunk_of([255, -255, 64]), [7, -8, 2]);
}

#[test]
fn nearness_is_strict() {
    assert!(is_within([0, 0, 0], [0, 0, 0], 1));
    assert!(!is_within([0, 0, 0], [1, 0, 0], 1));
    assert!(!is_within([0, 0, 0], [3, 4, 0], 5));
    assert!(is_within([0, 0, 0], [4, 2, 2], 5));
    assert!(is_within([0, 0, 0], [3, 4, 0], 6));
    assert!(!is_within([0, 0, 0], [0, 0, 0], 0));
}

#[test]
fn a_negative_radius_counts_as_its_square() {
    assert!(is_within([0, 0, 0], [1, 1, 1], -2));
    assert!(!is_within([0, 0, 0], [2, 0, 0], -2));
}

#[test]
fn nearness_does_not_overflow() {
    let low = [i32::MIN, i32::MIN, i32::MIN];
    let high = [i32::MAX, i32::MAX, i32::MAX];
    assert!(!is_within(low, high, i32::MAX));
    assert!(!is_within(low, high, i32::MIN));
    assert!(is_within(high, high, i32::MIN));
    assert!(!is_within([i32::MIN, 0, 0], [i32::MAX, 0, 0], i32::MAX));
    assert!(is_within([0, 0, 0], [i32::MAX, 0, 0], i32::MIN));
}

#[test]
fn keys_are_base_two_to_the_thirty_two_digits() {
    assert_eq!(coordinate_key([i32::MIN, i32::MIN, i32::MIN]), 0);
    assert_eq!(coordinate_key([i32::MIN, i32::MIN, i32::MIN + 1]), 1);
    assert_eq!(coordinate_key([i32::MIN, i32::MIN + 1, i32::MIN]), 1 << 32);
    assert_eq!(coordinate_key([i32::MIN + 1, i32::MIN, i32::MIN]), 1 << 64);
    assert_eq!(coordinate_key([0, 0, 0]), (1u128 << 95) + (1u128 << 63) + (1u128 << 31));
    assert_eq!(coordinate_key([i32::MAX, i32::MAX, i32::MAX]), (1u128 << 96) - 1);
}

#[test]
fn keys_decode_to_their_coordinates() {
    for c in [[0, 0, 0], [1, -2, 3], [i32::MIN, 0, i32::MAX], [-16, 15, -8]] {
        assert_eq!(key_coordinate(coordinate_key(c)), Some(c));
    }
}

#[test]
fn numbers_beyond_the_keys_decode_to_nothing() {
    assert_eq!(key_coordinate(1u128 << 96), None);
    assert_eq!(key_coordinate(u128::MAX), None);
    assert_eq!(key_coordinate((1u128 << 96) - 1), Some([i32::MAX, i32::MAX, i32::MAX]));
}

#[test]
fn different_coordinates_have_different_keys() {
    let mut keys = Vec::new();
    for x in -2..3 {
        for y in -2..3 {
            for z in -2..3 {
                keys.push(coordinate_key([x, y, z]));
            }
        }
    }
    let n = keys.len();
    keys.sort();
    keys.dedup();
    assert_eq!(keys.len(), n);
}
