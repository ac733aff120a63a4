//! Meshing: which quads of a chunk are visible, in which order they are
//! emitted, and how they are triangulated.

use crate::chunk::{Chunk, NonceSource, AIR};
use crate::coord::{coordinate_key, in_bounds, key_of, lemma_key_injective, triple};
use crate::pack::{Pack, MAX_BLOCK_QUADS};
use crate::types::{side_order, sides, Direction, Side};
use std::collections::HashMap;
use std::sync::Arc;
use vstd::prelude::*;

verus! {

/// A quad of a block, emitted for the cell `(x, y, z)` of its chunk. Its
/// vertices lie at the quad's own coordinates moved by the cell and by 32
/// times the chunk's coordinate.
#[derive(Copy, Clone, Debug)]
pub struct PlacedQuad<Q> {
    pub x: u8,
    pub y: u8,
    pub z: u8,
    pub quad: Q,
}

impl<Q> PlacedQuad<Q> {
    /// By how much the quad's vertices are moved when its chunk stands at
    /// `position`: 32 times the chunk coordinate plus the cell, per axis.
    pub open spec fn spec_offset(&self, position: (int, int, int)) -> (int, int, int) {
        (32 * position.0 + self.x, 32 * position.1 + self.y, 32 * position.2 + self.z)
    }

    /// Computes by how much the quad's vertices are moved when its chunk
    /// stands at `position`.
    pub fn offset(&self, position: [i32; 3]) -> (r: [i64; 3])
        ensures
            (r[0] as int, r[1] as int, r[2] as int) == self.spec_offset(triple(position)),
    {
        [
            32 * (position[0] as i64) + self.x as i64,
            32 * (position[1] as i64) + self.y as i64,
            32 * (position[2] as i64) + self.z as i64,
        ]
    }
}

/// The geometry of one version of a chunk.
#[derive(Debug)]
pub struct Mesh<Q> {
    /// The stamp of the chunk when the mesh was built.
    pub nonce: u32,
    /// The coordinate of the chunk.
    pub position: [i32; 3],
    /// The visible quads; each stands for four vertices.
    pub quads: Vec<PlacedQuad<Q>>,
    /// Six vertex numbers for each quad: two triangles.
    pub indices: Vec<u32>,
}

/// Whether `pack` defines the empty block and every block of `chunk`.
pub open spec fn covers<Q>(pack: &Pack<Q>, chunk: &Chunk) -> bool {
    &&& pack.defines(AIR)
    &&& forall|x: int, y: int, z: int|
        0 <= x < 32 && 0 <= y < 32 && 0 <= z < 32 ==> pack.defines(#[trigger] chunk.cell(x, y, z))
}

/// Whether `(x, y, z)` is a cell of a chunk.
pub open spec fn is_cell(x: int, y: int, z: int) -> bool {
    0 <= x < 32 && 0 <= y < 32 && 0 <= z < 32
}

/// The block next to the cell `(x, y, z)` in `direction`. Beyond the
/// chunk's faces lies nothing: the neighbour there counts as empty.
pub open spec fn neighbor(chunk: &Chunk, x: int, y: int, z: int, direction: Direction) -> i16 {
    let step = direction.step();
    if is_cell(x + step.0, y + step.1, z + step.2) {
        chunk.cell(x + step.0, y + step.1, z + step.2)
    } else {
        AIR
    }
}

/// Whether the neighbour hides the face that the cell `(x, y, z)` turns
/// towards `direction`: the neighbour's own face on the opposite side
/// culls.
pub open spec fn hidden<Q>(
    chunk: &Chunk,
    pack: &Pack<Q>,
    x: int,
    y: int,
    z: int,
    direction: Direction,
) -> bool {
    pack.definition(neighbor(chunk, x, y, z, direction)).culls.at(direction.spec_opposite())
}

/// The quads `quads`, each placed at the cell `(x, y, z)`.
pub open spec fn placed<Q>(quads: Seq<Q>, x: int, y: int, z: int) -> Seq<PlacedQuad<Q>> {
    Seq::new(quads.len(), |i: int| PlacedQuad { x: x as u8, y: y as u8, z: z as u8, quad: quads[i] })
}

/// The quads that the cell `(x, y, z)` emits for `side`: those of its
/// block for that side, unless a neighbour hides them. The quads of no
/// side are always emitted.
pub open spec fn side_quads<Q>(
    chunk: &Chunk,
    pack: &Pack<Q>,
    x: int,
    y: int,
    z: int,
    side: Side,
) -> Seq<PlacedQuad<Q>> {
    if side matches Some(direction) && hidden(chunk, pack, x, y, z, direction) {
        Seq::empty()
    } else {
        placed(pack.definition(chunk.cell(x, y, z)).mesh.at(side)@, x, y, z)
    }
}

/// The quads that the cell `(x, y, z)` emits for the first `count` sides,
/// in the order of the sides.
pub open spec fn cell_quads_upto<Q>(
    chunk: &Chunk,
    pack: &Pack<Q>,
    x: int,
    y: int,
    z: int,
    count: nat,
) -> Seq<PlacedQuad<Q>>
    decreases count,
{
    if count == 0 {
        Seq::empty()
    } else {
        cell_quads_upto(chunk, pack, x, y, z, (count - 1) as nat) + side_quads(
            chunk,
            pack,
            x,
            y,
            z,
            side_order()[count - 1],
        )
    }
}

/// All quads that the cell `(x, y, z)` emits.
pub open spec fn cell_quads<Q>(chunk: &Chunk, pack: &Pack<Q>, x: int, y: int, z: int) -> Seq<
    PlacedQuad<Q>,
> {
    cell_quads_upto(chunk, pack, x, y, z, 7)
}

/// The quads of the first `count` cells of the chunk, where the cells are
/// walked layer by layer from the bottom, row by row within a layer, and
/// along x within a row.
pub open spec fn quads_before<Q>(chunk: &Chunk, pack: &Pack<Q>, count: nat) -> Seq<PlacedQuad<Q>>
    decreases count,
{
    if count == 0 {
        Seq::empty()
    } else {
        let cell = (count - 1) as int;
        quads_before(chunk, pack, (count - 1) as nat) + cell_quads(
            chunk,
            pack,
            cell % 32,
            (cell / 32) % 32,
            cell / 1024,
        )
    }
}

/// All quads of the chunk, in emission order.
pub open spec fn chunk_quads<Q>(chunk: &Chunk, pack: &Pack<Q>) -> Seq<PlacedQuad<Q>> {
    quads_before(chunk, pack, 32768)
}

/// The corner of a quad that the triangle list visits at step `step` of
/// six: the corners 0, 1, 2, then 3, 0, 2.
pub open spec fn corner(step: int) -> int {
    if step == 4 {
        0
    } else if step == 5 {
        2
    } else {
        step
    }
}

/// The triangle list of `count` quads: quad number `q` owns the vertices
/// `4q` to `4q + 3` and contributes six entries.
pub open spec fn quad_indices(count: nat) -> Seq<u32> {
    Seq::new(6 * count, |t: int| (4 * (t / 6) + corner(t % 6)) as u32)
}

/// Whether the vertex numbers of `count` quads fit 32 bits.
pub open spec fn fits_indices(count: nat) -> bool {
    4 * count <= u32::MAX
}

/// Appends the triangle list entries of one more quad.
fn push_quad_indices(indices: &mut Vec<u32>, count: usize)
    requires
        old(indices)@ == quad_indices(count as nat),
        fits_indices((count + 1) as nat),
    ensures
        final(indices)@ == quad_indices((count + 1) as nat),
{
    let base: u32 = (4 * count) as u32;
    indices.push(base);
    indices.push(base + 1);
    indices.push(base + 2);
    indices.push(base + 3);
    indices.push(base);
    indices.push(base + 2);
    assert(indices@ =~= quad_indices((count + 1) as nat));
}

/// Emits `source`, placed at the cell `(x, y, z)`, with its triangles.
fn emit_quads<Q: Copy>(
    quads: &mut Vec<PlacedQuad<Q>>,
    indices: &mut Vec<u32>,
    source: &Vec<Q>,
    x: u8,
    y: u8,
    z: u8,
)
    requires
        old(indices)@ == quad_indices(old(quads)@.len()),
        fits_indices(old(quads)@.len() + source@.len()),
    ensures
        final(quads)@ == old(quads)@ + placed(source@, x as int, y as int, z as int),
        final(indices)@ == quad_indices(final(quads)@.len()),
{
    let ghost start = quads@;
    let mut n: usize = 0;
    while n < source.len()
        invariant
            n <= source.len(),
            quads@ == start + placed(source@, x as int, y as int, z as int).take(n as int),
            indices@ == quad_indices(quads@.len()),
            fits_indices(start.len() + source@.len()),
        decreases source.len() - n,
    {
        let count = quads.len();
        push_quad_indices(indices, count);
        quads.push(PlacedQuad { x, y, z, quad: source[n] });
        n += 1;
    }
    assert(placed(source@, x as int, y as int, z as int).take(n as int) =~= placed(
        source@,
        x as int,
        y as int,
        z as int,
    ));
}

/// Reads the block next to the cell `(x, y, z)` in `direction`.
fn neighbor_of(chunk: &Chunk, x: usize, y: usize, z: usize, direction: Direction) -> (block: i16)
    requires
        is_cell(x as int, y as int, z as int),
    ensures
        block == neighbor(chunk, x as int, y as int, z as int, direction),
{
    let step = direction.unit_vector();
    let nx: i32 = x as i32 + step[0];
    let ny: i32 = y as i32 + step[1];
    let nz: i32 = z as i32 + step[2];
    if 0 <= nx && nx < 32 && 0 <= ny && ny < 32 && 0 <= nz && nz < 32 {
        chunk.cell_at(nx as usize, ny as usize, nz as usize)
    } else {
        AIR
    }
}

/// The quads of a shorter walk are among those of a longer one.
proof fn lemma_quads_before_grow<Q>(chunk: &Chunk, pack: &Pack<Q>, shorter: nat, longer: nat)
    requires
        shorter <= longer,
    ensures
        quads_before(chunk, pack, shorter).len() <= quads_before(chunk, pack, longer).len(),
    decreases longer,
{
    if shorter < longer {
        lemma_quads_before_grow(chunk, pack, shorter, (longer - 1) as nat);
    }
}

/// The quads of a cell's first sides are among all its quads.
proof fn lemma_cell_quads_grow<Q>(
    chunk: &Chunk,
    pack: &Pack<Q>,
    x: int,
    y: int,
    z: int,
    shorter: nat,
    longer: nat,
)
    requires
        shorter <= longer,
    ensures
        cell_quads_upto(chunk, pack, x, y, z, shorter).len() <= cell_quads_upto(
            chunk,
            pack,
            x,
            y,
            z,
            longer,
        ).len(),
    decreases longer,
{
    if shorter < longer {
        lemma_cell_quads_grow(chunk, pack, x, y, z, shorter, (longer - 1) as nat);
    }
}

/// Emits the quads of the cell `(x, y, z)`, side by side.
fn emit_cell<Q: Copy>(
    quads: &mut Vec<PlacedQuad<Q>>,
    indices: &mut Vec<u32>,
    chunk: &Chunk,
    pack: &Pack<Q>,
    x: usize,
    y: usize,
    z: usize,
)
    requires
        is_cell(x as int, y as int, z as int),
        covers(pack, chunk),
        old(indices)@ == quad_indices(old(quads)@.len()),
        fits_indices(
            old(quads)@.len() + cell_quads(chunk, pack, x as int, y as int, z as int).len(),
        ),
    ensures
        final(quads)@ == old(quads)@ + cell_quads(chunk, pack, x as int, y as int, z as int),
        final(indices)@ == quad_indices(final(quads)@.len()),
{
    let ghost start = quads@;
    let block = pack.block(chunk.cell_at(x, y, z));
    let order = sides();
    let mut s: usize = 0;
    while s < 7
        invariant
            s <= 7,
            is_cell(x as int, y as int, z as int),
            covers(pack, chunk),
            order@ == side_order(),
            *block == pack.definition(chunk.cell(x as int, y as int, z as int)),
            quads@ == start + cell_quads_upto(chunk, pack, x as int, y as int, z as int, s as nat),
            indices@ == quad_indices(quads@.len()),
            fits_indices(start.len() + cell_quads(chunk, pack, x as int, y as int, z as int).len()),
        decreases 7 - s,
    {
        let side = order[s];
        let visible = match side {
            Some(direction) => {
                let beside = pack.block(neighbor_of(chunk, x, y, z, direction));
                !*beside.culls.get(direction.opposite())
            },
            None => true,
        };
        proof {
            lemma_cell_quads_grow(chunk, pack, x as int, y as int, z as int, (s + 1) as nat, 7);
        }
        if visible {
            emit_quads(quads, indices, block.mesh.get(side), x as u8, y as u8, z as u8);
        }
        s += 1;
    }
}

/// Builds the quads and the triangle list of a chunk.
pub fn build_geometry<Q: Copy>(chunk: &Chunk, pack: &Pack<Q>) -> (r: (Vec<PlacedQuad<Q>>, Vec<u32>))
    requires
        covers(pack, chunk),
        fits_indices(chunk_quads(chunk, pack).len()),
    ensures
        r.0@ == chunk_quads(chunk, pack),
        r.1@ == quad_indices(r.0@.len()),
{
    let mut quads: Vec<PlacedQuad<Q>> = Vec::new();
    let mut indices: Vec<u32> = Vec::new();
    assert(indices@ =~= quad_indices(0));
    let mut k: usize = 0;
    while k < 32
        invariant
            k <= 32,
            covers(pack, chunk),
            fits_indices(chunk_quads(chunk, pack).len()),
            quads@ == quads_before(chunk, pack, (k * 1024) as nat),
            indices@ == quad_indices(quads@.len()),
        decreases 32 - k,
    {
        let mut j: usize = 0;
        while j < 32
            invariant
                j <= 32,
                k < 32,
                covers(pack, chunk),
                fits_indices(chunk_quads(chunk, pack).len()),
                quads@ == quads_before(chunk, pack, (k * 1024 + j * 32) as nat),
                indices@ == quad_indices(quads@.len()),
            decreases 32 - j,
        {
            let mut i: usize = 0;
            while i < 32
                invariant
                    i <= 32,
                    j < 32,
                    k < 32,
                    covers(pack, chunk),
                    fits_indices(chunk_quads(chunk, pack).len()),
                    quads@ == quads_before(chunk, pack, (k * 1024 + j * 32 + i) as nat),
                    indices@ == quad_indices(quads@.len()),
                decreases 32 - i,
            {
                proof {
                    let cell = (k * 1024 + j * 32 + i) as int;
                    assert(cell % 32 == i && (cell / 32) % 32 == j && cell / 1024 == k);
                    lemma_quads_before_grow(chunk, pack, (cell + 1) as nat, 32768);
                }
                emit_cell(&mut quads, &mut indices, chunk, pack, i, j, k);
                i += 1;
            }
            j += 1;
        }
        k += 1;
    }
    (quads, indices)
}

/// Whether `mesh` is the geometry of `chunk` at `position` under `pack`.
pub open spec fn is_mesh_of<Q>(
    mesh: &Mesh<Q>,
    chunk: &Chunk,
    position: (int, int, int),
    pack: &Pack<Q>,
) -> bool {
    &&& mesh.nonce == chunk.nonce()
    &&& triple(mesh.position) == position
    &&& mesh.quads@ == chunk_quads(chunk, pack)
    &&& mesh.indices@ == quad_indices(mesh.quads@.len())
}

/// What a request for the mesh of `chunk` at `position` does to a cache
/// and hands out. Where the cache holds a mesh of `position` with the
/// chunk's stamp, that mesh is handed out and the cache stays as it is.
/// Otherwise the mesh handed out is built from the chunk, and takes the
/// place of any earlier mesh of `position` in the cache.
pub open spec fn served<Q>(
    before: Map<(int, int, int), Mesh<Q>>,
    after: Map<(int, int, int), Mesh<Q>>,
    handed: &Mesh<Q>,
    chunk: &Chunk,
    position: (int, int, int),
    pack: &Pack<Q>,
) -> bool {
    if before.contains_key(position) && before[position].nonce == chunk.nonce() {
        after == before && *handed == before[position]
    } else {
        is_mesh_of(handed, chunk, position, pack) && after == before.insert(position, *handed)
    }
}

/// Builds meshes and keeps the last one built for each chunk coordinate.
pub struct Mesher<Q> {
    cached_meshes: HashMap<u128, Arc<Mesh<Q>>>,
}

impl<Q> View for Mesher<Q> {
    type V = Map<(int, int, int), Mesh<Q>>;

    /// The cached mesh of each chunk coordinate that has one.
    closed spec fn view(&self) -> Map<(int, int, int), Mesh<Q>> {
        Map::new(
            |c: (int, int, int)| in_bounds(c) && self.cached_meshes@.contains_key(key_of(c) as u128),
            |c: (int, int, int)| *self.cached_meshes@[key_of(c) as u128],
        )
    }
}

impl<Q: Copy> Mesher<Q> {
    /// A mesher with an empty cache.
    pub fn new() -> (mesher: Mesher<Q>)
        ensures
            mesher@ == Map::<(int, int, int), Mesh<Q>>::empty(),
    {
        let mesher = Mesher { cached_meshes: HashMap::new() };
        assert(mesher@ =~= Map::<(int, int, int), Mesh<Q>>::empty());
        mesher
    }

    /// Returns the mesh of `chunk`, which stands at `position`. A cached
    /// mesh with the chunk's stamp is handed out as it is; otherwise the
    /// mesh is built, takes the place of any earlier mesh of `position`
    /// in the cache, and is handed out.
    pub fn build_mesh(&mut self, chunk: &Chunk, position: [i32; 3], pack: &Pack<Q>) -> (handle: Arc<
        Mesh<Q>,
    >)
        requires
            covers(pack, chunk),
            fits_indices(chunk_quads(chunk, pack).len()),
        ensures
            served(old(self)@, final(self)@, &*handle, chunk, triple(position), pack),
    {
        let key = coordinate_key(position);
        match self.cached_meshes.get(&key) {
            Some(entry) => {
                if entry.nonce == chunk.nonce() {
                    return entry.clone();
                }
            },
            None => {},
        }
        let (quads, indices) = build_geometry(chunk, pack);
        let mesh = Arc::new(Mesh { nonce: chunk.nonce(), position, quads, indices });
        self.cached_meshes.insert(key, mesh.clone());
        proof {
            assert forall|c: (int, int, int)| in_bounds(c) && c != triple(position) implies key_of(
                c,
            ) != key_of(triple(position)) by {
                if key_of(c) == key_of(triple(position)) {
                    lemma_key_injective(c, triple(position));
                }
            }
            assert(self@ =~= old(self)@.insert(triple(position), *mesh));
        }
        mesh
    }
}

/// A second request for the mesh of an unchanged chunk is answered from
/// the cache: it hands out the mesh of the first request and leaves the
/// cache as the first request left it.
pub proof fn lemma_second_request_is_served_from_cache<Q>(
    before: Map<(int, int, int), Mesh<Q>>,
    between: Map<(int, int, int), Mesh<Q>>,
    after: Map<(int, int, int), Mesh<Q>>,
    first: &Mesh<Q>,
    second: &Mesh<Q>,
    chunk: &Chunk,
    position: (int, int, int),
    pack: &Pack<Q>,
)
    requires
        served(before, between, first, chunk, position, pack),
        served(between, after, second, chunk, position, pack),
    ensures
        *second == *first,
        after == between,
        first.nonce == chunk.nonce(),
{
}

/// A request after the chunk's stamp has changed is not answered from
/// the cache: the mesh handed out is built from the chunk as it is now,
/// carries its new stamp, and replaces the cached mesh of the position,
/// while the meshes of all other positions stay.
pub proof fn lemma_request_after_change_rebuilds<Q>(
    before: Map<(int, int, int), Mesh<Q>>,
    after: Map<(int, int, int), Mesh<Q>>,
    handed: &Mesh<Q>,
    changed: &Chunk,
    position: (int, int, int),
    pack: &Pack<Q>,
)
    requires
        before.contains_key(position),
        before[position].nonce != changed.nonce(),
        served(before, after, handed, changed, position, pack),
    ensures
        is_mesh_of(handed, changed, position, pack),
        handed.nonce == changed.nonce(),
        after[position] == *handed,
        forall|other: (int, int, int)|
            other != position ==> after.contains_key(other) == before.contains_key(other) && (
            before.contains_key(other) ==> #[trigger] after[other] == before[other]),
{
}

/// A chunk that takes a fresh stamp is never served a mesh built before:
/// every such mesh carries a stamp that was issued earlier.
pub proof fn lemma_fresh_stamp_outdates_cache<Q>(
    cache: Map<(int, int, int), Mesh<Q>>,
    position: (int, int, int),
    source: NonceSource,
    stamp: u32,
)
    requires
        cache.contains_key(position),
        source.issued(cache[position].nonce),
        stamp == source.upcoming(),
    ensures
        cache[position].nonce != stamp,
{
}

/// A chunk whose cells emit nothing has no quads.
proof fn lemma_no_quads_upto<Q>(chunk: &Chunk, pack: &Pack<Q>, count: nat)
    requires
        count <= 32768,
        forall|x: int, y: int, z: int|
            is_cell(x, y, z) ==> (#[trigger] cell_quads(chunk, pack, x, y, z)).len() == 0,
    ensures
        quads_before(chunk, pack, count).len() == 0,
    decreases count,
{
    if count > 0 {
        lemma_no_quads_upto(chunk, pack, (count - 1) as nat);
        let cell = (count - 1) as int;
        assert(is_cell(cell % 32, (cell / 32) % 32, cell / 1024));
    }
}

/// An empty chunk has an empty mesh, no quad and no triangle, where the
/// empty block has no quads of its own.
pub proof fn lemma_empty_chunk_has_empty_mesh<Q>(chunk: &Chunk, pack: &Pack<Q>)
    requires
        chunk.all_air(),
        forall|side: Side| (#[trigger] pack.definition(AIR).mesh.at(side))@.len() == 0,
    ensures
        chunk_quads(chunk, pack).len() == 0,
        quad_indices(chunk_quads(chunk, pack).len()).len() == 0,
{
    assert forall|x: int, y: int, z: int| is_cell(x, y, z) implies (#[trigger] cell_quads(
        chunk,
        pack,
        x,
        y,
        z,
    )).len() == 0 by {
        assert(chunk.cell(x, y, z) == AIR);
        lemma_cell_quads_unfold(chunk, pack, x, y, z);
        assert forall|side: Side| (#[trigger] side_quads(chunk, pack, x, y, z, side)).len()
            == 0 by {
            assert(pack.definition(AIR).mesh.at(side)@.len() == 0);
        }
    }
    lemma_no_quads_upto(chunk, pack, 32768);
}

/// The quads of a cell are those of its seven sides, one after the other
/// in the order west, east, south, north, down, up, none.
pub proof fn lemma_cell_quads_unfold<Q>(chunk: &Chunk, pack: &Pack<Q>, x: int, y: int, z: int)
    ensures
        cell_quads(chunk, pack, x, y, z) == side_quads(
            chunk,
            pack,
            x,
            y,
            z,
            Some(Direction::West),
        ) + side_quads(chunk, pack, x, y, z, Some(Direction::East)) + side_quads(
            chunk,
            pack,
            x,
            y,
            z,
            Some(Direction::South),
        ) + side_quads(chunk, pack, x, y, z, Some(Direction::North)) + side_quads(
            chunk,
            pack,
            x,
            y,
            z,
            Some(Direction::Down),
        ) + side_quads(chunk, pack, x, y, z, Some(Direction::Up)) + side_quads(
            chunk,
            pack,
            x,
            y,
            z,
            None,
        ),
{
    reveal_with_fuel(cell_quads_upto, 8);
    assert(cell_quads_upto(chunk, pack, x, y, z, 0) + side_quads(
        chunk,
        pack,
        x,
        y,
        z,
        Some(Direction::West),
    ) =~= side_quads(chunk, pack, x, y, z, Some(Direction::West)));
}

/// In a chunk filled with one block that culls on every side, a cell
/// emits no face towards a neighbour inside the chunk, and emits its
/// block's whole face towards a side where the chunk ends, where the
/// empty block beyond culls nothing.
pub proof fn lemma_filled_chunk_shows_only_its_hull<Q>(
    chunk: &Chunk,
    pack: &Pack<Q>,
    block: i16,
    x: int,
    y: int,
    z: int,
    direction: Direction,
)
    requires
        is_cell(x, y, z),
        forall|a: int, b: int, c: int| is_cell(a, b, c) ==> #[trigger] chunk.cell(a, b, c) == block,
        forall|d: Direction| #[trigger] pack.definition(block).culls.at(d),
        forall|d: Direction| !#[trigger] pack.definition(AIR).culls.at(d),
    ensures
        side_quads(chunk, pack, x, y, z, Some(direction)) == if is_cell(
            x + direction.step().0,
            y + direction.step().1,
            z + direction.step().2,
        ) {
            Seq::<PlacedQuad<Q>>::empty()
        } else {
            placed(pack.definition(block).mesh.at(Some(direction))@, x, y, z)
        },
        side_quads(chunk, pack, x, y, z, None) == placed(
            pack.definition(block).mesh.at(None)@,
            x,
            y,
            z,
        ),
{
    let step = direction.step();
    if is_cell(x + step.0, y + step.1, z + step.2) {
        assert(chunk.cell(x + step.0, y + step.1, z + step.2) == block);
        assert(pack.definition(block).culls.at(direction.spec_opposite()));
    } else {
        assert(!pack.definition(AIR).culls.at(direction.spec_opposite()));
    }
    assert(chunk.cell(x, y, z) == block);
}

/// Tells whether `pack` defines the empty block and every block of
/// `chunk`.
pub fn is_covered<Q>(pack: &Pack<Q>, chunk: &Chunk) -> (r: bool)
    ensures
        r == covers(pack, chunk),
{
    if !pack.is_defined(AIR) {
        return false;
    }
    let mut k: usize = 0;
    while k < 32
        invariant
            k <= 32,
            pack.defines(AIR),
            forall|x: int, y: int, z: int|
                0 <= x < 32 && 0 <= y < 32 && 0 <= z < k ==> pack.defines(
                    #[trigger] chunk.cell(x, y, z),
                ),
        decreases 32 - k,
    {
        let mut j: usize = 0;
        while j < 32
            invariant
                j <= 32,
                k < 32,
                pack.defines(AIR),
                forall|x: int, y: int, z: int|
                    0 <= x < 32 && 0 <= y < 32 && 0 <= z < k ==> pack.defines(
                        #[trigger] chunk.cell(x, y, z),
                    ),
                forall|x: int, y: int|
                    0 <= x < 32 && 0 <= y < j ==> pack.defines(
                        #[trigger] chunk.cell(x, y, k as int),
                    ),
            decreases 32 - j,
        {
            let mut i: usize = 0;
            while i < 32
                invariant
                    i <= 32,
                    j < 32,
                    k < 32,
                    pack.defines(AIR),
                    forall|x: int, y: int, z: int|
                        0 <= x < 32 && 0 <= y < 32 && 0 <= z < k ==> pack.defines(
                            #[trigger] chunk.cell(x, y, z),
                        ),
                    forall|x: int, y: int|
                        0 <= x < 32 && 0 <= y < j ==> pack.defines(
                            #[trigger] chunk.cell(x, y, k as int),
                        ),
                    forall|x: int|
                        0 <= x < i ==> pack.defines(#[trigger] chunk.cell(x, j as int, k as int)),
                decreases 32 - i,
            {
                if !pack.is_defined(chunk.cell_at(i, j, k)) {
                    return false;
                }
                i += 1;
            }
            j += 1;
        }
        k += 1;
    }
    true
}

/// A walk over cells that each emit at most `MAX_BLOCK_QUADS` quads emits
/// at most that many times the number of cells.
proof fn lemma_quads_before_bound<Q>(chunk: &Chunk, pack: &Pack<Q>, count: nat)
    requires
        count <= 32768,
        forall|x: int, y: int, z: int|
            is_cell(x, y, z) ==> (#[trigger] cell_quads(chunk, pack, x, y, z)).len()
                <= MAX_BLOCK_QUADS,
    ensures
        quads_before(chunk, pack, count).len() <= MAX_BLOCK_QUADS * count,
    decreases count,
{
    if count > 0 {
        lemma_quads_before_bound(chunk, pack, (count - 1) as nat);
        let cell = (count - 1) as int;
        assert(is_cell(cell % 32, (cell / 32) % 32, cell / 1024));
    }
}

/// Under a catalogue without heavy blocks the quads of every chunk that
/// it covers can be numbered in 32 bits.
pub proof fn lemma_light_pack_fits<Q>(chunk: &Chunk, pack: &Pack<Q>)
    requires
        covers(pack, chunk),
        pack.light(),
    ensures
        fits_indices(chunk_quads(chunk, pack).len()),
{
    assert forall|x: int, y: int, z: int| is_cell(x, y, z) implies (#[trigger] cell_quads(
        chunk,
        pack,
        x,
        y,
        z,
    )).len() <= MAX_BLOCK_QUADS by {
        let id = chunk.cell(x, y, z);
        assert(pack.defines(id));
        let block = pack.entries()[id as int].1;
        assert(block.quad_count() <= MAX_BLOCK_QUADS);
        lemma_cell_quads_unfold(chunk, pack, x, y, z);
        assert forall|side: Side| (#[trigger] side_quads(chunk, pack, x, y, z, side)).len()
            <= block.mesh.at(side)@.len() by {}
        assert(side_quads(chunk, pack, x, y, z, Some(Direction::West)).len()
            <= block.mesh.west@.len());
        assert(side_quads(chunk, pack, x, y, z, Some(Direction::East)).len()
            <= block.mesh.east@.len());
        assert(side_quads(chunk, pack, x, y, z, Some(Direction::South)).len()
            <= block.mesh.south@.len());
        assert(side_quads(chunk, pack, x, y, z, Some(Direction::North)).len()
            <= block.mesh.north@.len());
        assert(side_quads(chunk, pack, x, y, z, Some(Direction::Down)).len()
            <= block.mesh.down@.len());
        assert(side_quads(chunk, pack, x, y, z, Some(Direction::Up)).len()
            <= block.mesh.up@.len());
        assert(side_quads(chunk, pack, x, y, z, None).len() <= block.mesh.none@.len());
    }
    lemma_quads_before_bound(chunk, pack, 32768);
}

} // verus!
