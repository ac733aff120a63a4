//! Chunks: cubes of block identifiers stamped with a version nonce.

use vstd::prelude::*;

verus! {

/// Edge length of a chunk, in cells.
pub const CHUNK_EDGE: usize = 32;

/// Number of cells in a chunk.
pub const CHUNK_CELLS: usize = 32768;

/// Identifier of the empty block.
pub const AIR: i16 = 0;

/// Hands out version stamps: each one larger than every stamp it handed out
/// before, so no stamp is ever issued twice.
#[derive(Debug)]
pub struct NonceSource {
    next: u32,
}

impl NonceSource {
    /// The stamp that the next request receives.
    pub closed spec fn upcoming(&self) -> nat {
        self.next as nat
    }

    /// Whether `nonce` is among the stamps handed out so far.
    pub open spec fn issued(&self, nonce: u32) -> bool {
        (nonce as nat) < self.upcoming()
    }

    /// Whether the stamps have run out.
    pub open spec fn exhausted(&self) -> bool {
        self.upcoming() >= u32::MAX
    }

    /// A source that has handed out nothing yet.
    pub fn new() -> (source: NonceSource)
        ensures
            source.upcoming() == 0,
    {
        NonceSource { next: 0 }
    }

    /// Tells whether `nonce` was handed out by this source.
    pub fn has_issued(&self, nonce: u32) -> (r: bool)
        ensures
            r == self.issued(nonce),
    {
        nonce < self.next
    }

    /// Tells whether the stamps have run out.
    pub fn is_exhausted(&self) -> (r: bool)
        ensures
            r == self.exhausted(),
    {
        self.next == u32::MAX
    }
}

/// Takes the next stamp from `source`.
pub fn fresh_nonce(source: &mut NonceSource) -> (nonce: u32)
    requires
        !old(source).exhausted(),
    ensures
        nonce == old(source).upcoming(),
        final(source).upcoming() == old(source).upcoming() + 1,
        !old(source).issued(nonce),
        final(source).issued(nonce),
{
    let nonce = source.next;
    source.next = nonce + 1;
    nonce
}

/// Wraps a coordinate into the range of a chunk edge.
pub open spec fn wrap(c: int) -> int {
    c % 32
}

/// Wraps a coordinate into `0..32` by keeping its low five bits.
pub fn wrap_coord(c: i32) -> (r: usize)
    ensures
        r == wrap(c as int),
        r < 32,
{
    let low: i32 = c & 31;
    assert(0 <= low < 32 && low == c % 32) by (bit_vector)
        requires
            low == c & 31,
    ;
    low as usize
}

/// A cube of 32 by 32 by 32 block identifiers with the stamp of its
/// current contents.
#[derive(Debug)]
pub struct Chunk {
    nonce: u32,
    contents: Box<[[[i16; 32]; 32]; 32]>,
}

impl Chunk {
    /// The stamp of the chunk's current contents.
    pub closed spec fn spec_nonce(&self) -> u32 {
        self.nonce
    }

    /// The stamp of the chunk's current contents.
    #[verifier::when_used_as_spec(spec_nonce)]
    pub fn nonce(&self) -> (nonce: u32)
        ensures
            nonce == self.spec_nonce(),
    {
        self.nonce
    }

    /// The identifier in the cell `(x, y, z)`, each coordinate in `0..32`.
    pub closed spec fn cell(&self, x: int, y: int, z: int) -> i16 {
        self.contents[z][y][x]
    }

    /// The identifier at any coordinate: each axis wraps modulo 32.
    pub open spec fn block_at(&self, x: int, y: int, z: int) -> i16 {
        self.cell(wrap(x), wrap(y), wrap(z))
    }

    /// Whether every cell is empty.
    pub open spec fn all_air(&self) -> bool {
        forall|x: int, y: int, z: int|
            0 <= x < 32 && 0 <= y < 32 && 0 <= z < 32 ==> #[trigger] self.cell(x, y, z) == AIR
    }

    /// Whether `other` holds the same identifiers everywhere but in the
    /// cell `(x, y, z)`.
    pub open spec fn same_cells_but(&self, other: &Chunk, x: int, y: int, z: int) -> bool {
        forall|a: int, b: int, c: int|
            0 <= a < 32 && 0 <= b < 32 && 0 <= c < 32 && (a, b, c) != (x, y, z)
                ==> #[trigger] self.cell(a, b, c) == other.cell(a, b, c)
    }

    /// Whether `self` is `before` with `block` written at `(x, y, z)`,
    /// each axis wrapped modulo 32, and nothing else changed but the stamp.
    pub open spec fn is_placement(&self, before: &Chunk, x: int, y: int, z: int, block: i16) -> bool {
        &&& self.block_at(x, y, z) == block
        &&& self.same_cells_but(before, wrap(x), wrap(y), wrap(z))
    }

    /// An empty chunk with a fresh stamp.
    pub fn new(source: &mut NonceSource) -> (chunk: Chunk)
        requires
            !old(source).exhausted(),
        ensures
            chunk.all_air(),
            chunk.nonce() == old(source).upcoming(),
            final(source).upcoming() == old(source).upcoming() + 1,
    {
        let nonce = fresh_nonce(source);
        Chunk { nonce, contents: Box::new([[[AIR; 32]; 32]; 32]) }
    }

    /// Reads the identifier at `location`, wrapping each axis modulo 32.
    pub fn get(&self, location: [i32; 3]) -> (block: i16)
        ensures
            block == self.block_at(location[0] as int, location[1] as int, location[2] as int),
    {
        let x = wrap_coord(location[0]);
        let y = wrap_coord(location[1]);
        let z = wrap_coord(location[2]);
        self.contents[z][y][x]
    }

    /// Reads the cell `(x, y, z)` of the chunk.
    pub fn cell_at(&self, x: usize, y: usize, z: usize) -> (block: i16)
        requires
            x < 32,
            y < 32,
            z < 32,
        ensures
            block == self.cell(x as int, y as int, z as int),
    {
        self.contents[z][y][x]
    }

    /// Overwrites the cell `(x, y, z)` and leaves the stamp as it is; the
    /// caller stamps the chunk once its contents are complete.
    pub(crate) fn put_cell(&mut self, x: usize, y: usize, z: usize, block: i16)
        requires
            x < 32,
            y < 32,
            z < 32,
        ensures
            final(self).cell(x as int, y as int, z as int) == block,
            final(self).same_cells_but(old(self), x as int, y as int, z as int),
            final(self).nonce() == old(self).nonce(),
    {
        self.contents[z][y][x] = block;
    }

    /// Writes `block` at `location`, wrapping each axis modulo 32, and
    /// stamps the chunk with a fresh nonce.
    pub fn place(&mut self, location: [i32; 3], block: i16, source: &mut NonceSource)
        requires
            !old(source).exhausted(),
            old(source).issued(old(self).nonce()),
        ensures
            final(self).is_placement(
                old(self),
                location[0] as int,
                location[1] as int,
                location[2] as int,
                block,
            ),
            final(self).nonce() == old(source).upcoming(),
            final(self).nonce() > old(self).nonce(),
            final(source).upcoming() == old(source).upcoming() + 1,
            final(source).issued(final(self).nonce()),
    {
        let x = wrap_coord(location[0]);
        let y = wrap_coord(location[1]);
        let z = wrap_coord(location[2]);
        self.contents[z][y][x] = block;
        self.nonce = fresh_nonce(source);
    }
}

impl std::ops::Index<[i32; 3]> for Chunk {
    type Output = i16;

    fn index(&self, index: [i32; 3]) -> (block: &i16)
        ensures
            *block == self.block_at(index[0] as int, index[1] as int, index[2] as int),
    {
        let x = wrap_coord(index[0]);
        let y = wrap_coord(index[1]);
        let z = wrap_coord(index[2]);
        &self.contents[z][y][x]
    }
}

impl vstd::std_specs::core::IndexSpecImpl<[i32; 3]> for Chunk {
    open spec fn index_req(&self, index: &[i32; 3]) -> bool {
        true
    }
}

/// Moving a coordinate by whole chunks along any axis reads the same cell.
pub proof fn lemma_wraparound(chunk: &Chunk, x: int, y: int, z: int, kx: int, ky: int, kz: int)
    ensures
        chunk.block_at(x + 32 * kx, y + 32 * ky, z + 32 * kz) == chunk.block_at(x, y, z),
        0 <= wrap(x) < 32,
        wrap(x + 32 * kx) == wrap(x),
{
    assert((x + 32 * kx) % 32 == x % 32) by (nonlinear_arith);
    assert((y + 32 * ky) % 32 == y % 32) by (nonlinear_arith);
    assert((z + 32 * kz) % 32 == z % 32) by (nonlinear_arith);
}

/// Of two stamps taken from one source the later is the larger, whatever
/// was taken in between: no stamp is handed out twice.
pub proof fn lemma_stamps_never_repeat(
    first: u32,
    after_first: NonceSource,
    before_second: NonceSource,
    second: u32,
)
    requires
        after_first.issued(first),
        after_first.upcoming() <= before_second.upcoming(),
        second == before_second.upcoming(),
    ensures
        first < second,
{
}

/// After a block is placed the chunk reads that block at the location,
/// and at every location that wraps to the same cell.
pub proof fn lemma_placed_block_reads_back(
    before: &Chunk,
    after: &Chunk,
    x: int,
    y: int,
    z: int,
    block: i16,
    kx: int,
    ky: int,
    kz: int,
)
    requires
        after.is_placement(before, x, y, z, block),
    ensures
        after.block_at(x, y, z) == block,
        after.block_at(x + 32 * kx, y + 32 * ky, z + 32 * kz) == block,
{
    lemma_wraparound(after, x, y, z, kx, ky, kz);
}

} // verus!
