//! Integer coordinates: chunk of a position, squared distance, and the
//! key under which a chunk coordinate is filed in a table.

use vstd::prelude::*;

verus! {

/// A coordinate as mathematical integers.
pub open spec fn triple(location: [i32; 3]) -> (int, int, int) {
    (location[0] as int, location[1] as int, location[2] as int)
}

/// The chunk that holds a position along one axis: the position divided
/// by 32, rounded down.
pub open spec fn chunk_index(position: int) -> int {
    position / 32
}

/// The coordinate of the chunk that holds `position`.
pub open spec fn chunk_holding(position: (int, int, int)) -> (int, int, int) {
    (chunk_index(position.0), chunk_index(position.1), chunk_index(position.2))
}

/// Finds the chunk that holds a position along one axis.
pub fn chunk_axis(position: i32) -> (index: i32)
    ensures
        index == chunk_index(position as int),
        -0x400_0000 <= index < 0x400_0000,
{
    let index: i32 = position >> 5;
    assert(index == position / 32 && -0x400_0000 <= index < 0x400_0000) by (bit_vector)
        requires
            index == position >> 5,
    ;
    index
}

/// Finds the coordinate of the chunk that holds `position`.
pub fn chunk_of(position: [i32; 3]) -> (chunk: [i32; 3])
    ensures
        triple(chunk) == chunk_holding(triple(position)),
{
    [chunk_axis(position[0]), chunk_axis(position[1]), chunk_axis(position[2])]
}

/// The squared Euclidean distance between two coordinates.
pub open spec fn distance_squared(a: (int, int, int), b: (int, int, int)) -> int {
    (a.0 - b.0) * (a.0 - b.0) + (a.1 - b.1) * (a.1 - b.1) + (a.2 - b.2) * (a.2 - b.2)
}

/// Whether `b` lies closer to `a` than `radius`: the squared distance is
/// strictly below the squared radius.
pub open spec fn within(a: (int, int, int), b: (int, int, int), radius: int) -> bool {
    distance_squared(a, b) < radius * radius
}

/// The square of the difference of two coordinates along one axis.
fn squared_gap(a: i32, b: i32) -> (r: i128)
    ensures
        r == (a - b) * (a - b),
        0 <= r <= 0xFFFF_FFFF * 0xFFFF_FFFF,
{
    let gap: i128 = a as i128 - b as i128;
    assert(0 <= gap * gap <= 0xFFFF_FFFF * 0xFFFF_FFFF) by (nonlinear_arith)
        requires
            -0xFFFF_FFFF <= gap <= 0xFFFF_FFFF,
    ;
    gap * gap
}

/// Tells whether `b` lies closer to `a` than `radius`, without rounding
/// and without overflow.
pub fn is_within(a: [i32; 3], b: [i32; 3], radius: i32) -> (r: bool)
    ensures
        r == within(triple(a), triple(b), radius as int),
{
    let sum: i128 = squared_gap(a[0], b[0]) + squared_gap(a[1], b[1]) + squared_gap(a[2], b[2]);
    let reach: i128 = radius as i128;
    assert(0 <= reach * reach <= 0x8000_0000 * 0x8000_0000) by (nonlinear_arith)
        requires
            -0x8000_0000 <= reach <= 0x8000_0000,
    ;
    sum < reach * reach
}

/// The key of a chunk coordinate: the three axes, each moved into
/// `0..2^32`, as the digits of a number in base 2^32.
pub open spec fn key_of(c: (int, int, int)) -> int {
    ((c.0 + 0x8000_0000) * 0x1_0000_0000 + (c.1 + 0x8000_0000)) * 0x1_0000_0000 + (c.2
        + 0x8000_0000)
}

/// Whether each axis of `c` fits 32 bits.
pub open spec fn in_bounds(c: (int, int, int)) -> bool {
    &&& i32::MIN <= c.0 <= i32::MAX
    &&& i32::MIN <= c.1 <= i32::MAX
    &&& i32::MIN <= c.2 <= i32::MAX
}

/// Computes the key of a chunk coordinate.
pub fn coordinate_key(location: [i32; 3]) -> (key: u128)
    ensures
        key == key_of(triple(location)),
        key < 0x1_0000_0000_0000_0000_0000_0000,
{
    let x: u128 = (location[0] as i64 + 0x8000_0000) as u128;
    let y: u128 = (location[1] as i64 + 0x8000_0000) as u128;
    let z: u128 = (location[2] as i64 + 0x8000_0000) as u128;
    (x * 0x1_0000_0000 + y) * 0x1_0000_0000 + z
}

/// Recovers the chunk coordinate from its key; a number that is the key
/// of no coordinate gives `None`.
pub fn key_coordinate(key: u128) -> (location: Option<[i32; 3]>)
    ensures
        location matches Some(c) ==> key_of(triple(c)) == key,
        location is None ==> forall|c: (int, int, int)| in_bounds(c) ==> key_of(c) != key,
{
    if key >= 0x1_0000_0000_0000_0000_0000_0000 {
        return None;
    }
    let z: i64 = (key % 0x1_0000_0000) as i64 - 0x8000_0000;
    let rest: u128 = key / 0x1_0000_0000;
    let y: i64 = (rest % 0x1_0000_0000) as i64 - 0x8000_0000;
    let x: i64 = (rest / 0x1_0000_0000) as i64 - 0x8000_0000;
    Some([x as i32, y as i32, z as i32])
}

/// Different coordinates have different keys.
pub proof fn lemma_key_injective(a: (int, int, int), b: (int, int, int))
    requires
        in_bounds(a),
        in_bounds(b),
        key_of(a) == key_of(b),
    ensures
        a == b,
{
}

} // verus!
