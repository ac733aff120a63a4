//! The table of loaded chunks and the query for the meshes near a point.

use crate::chunk::{Chunk, NonceSource};
use crate::coord::{
    chunk_holding, chunk_of, coordinate_key, distance_squared, in_bounds, is_within,
    key_coordinate, key_of, lemma_key_injective, triple, within,
};
use crate::mesher::{chunk_quads, covers, fits_indices, is_mesh_of, Mesh, Mesher};
use crate::pack::Pack;
use std::collections::HashMap;
use std::sync::Arc;
use vstd::prelude::*;
use vstd::std_specs::iter::IteratorSpec;

verus! {

broadcast use vstd::std_specs::hash::group_hash_axioms;

/// The loaded chunks, each under its chunk coordinate.
pub struct World {
    loaded_chunks: HashMap<u128, Chunk>,
}

impl View for World {
    type V = Map<(int, int, int), Chunk>;

    /// The loaded chunk of each chunk coordinate that has one.
    closed spec fn view(&self) -> Map<(int, int, int), Chunk> {
        Map::new(
            |c: (int, int, int)| in_bounds(c) && self.loaded_chunks@.contains_key(key_of(c) as u128),
            |c: (int, int, int)| self.loaded_chunks@[key_of(c) as u128],
        )
    }
}

/// What a request for the mesh of `chunk` at `position` leaves in the
/// cache: the mesh that was there, where it carries the chunk's stamp,
/// and a mesh built from the chunk otherwise.
pub open spec fn meshed<Q>(
    before: Map<(int, int, int), Mesh<Q>>,
    after: Map<(int, int, int), Mesh<Q>>,
    position: (int, int, int),
    chunk: &Chunk,
    pack: &Pack<Q>,
) -> bool {
    &&& after.contains_key(position)
    &&& after[position].nonce == chunk.nonce()
    &&& if before.contains_key(position) && before[position].nonce == chunk.nonce() {
        after[position] == before[position]
    } else {
        is_mesh_of(&after[position], chunk, position, pack)
    }
}

/// Whether the two caches agree on `position`.
pub open spec fn untouched<Q>(
    before: Map<(int, int, int), Mesh<Q>>,
    after: Map<(int, int, int), Mesh<Q>>,
    position: (int, int, int),
) -> bool {
    &&& after.contains_key(position) == before.contains_key(position)
    &&& before.contains_key(position) ==> after[position] == before[position]
}

impl Default for World {
    /// A world with no chunk loaded.
    fn default() -> (world: World)
        ensures
            world@ == Map::<(int, int, int), Chunk>::empty(),
    {
        World::generate(0)
    }
}

impl World {
    /// A world with no chunk loaded. The seed is kept for the day the
    /// world itself has something to draw; today it decides nothing.
    pub fn generate(seed: u64) -> (world: World)
        ensures
            world@ == Map::<(int, int, int), Chunk>::empty(),
    {
        let world = World { loaded_chunks: HashMap::new() };
        assert(world@ =~= Map::<(int, int, int), Chunk>::empty());
        world
    }

    /// Whether the chunk at `position` is loaded and lies closer than
    /// `radius` chunks to the chunk `center`.
    pub open spec fn near(&self, center: (int, int, int), radius: int, position: (int, int, int)) -> bool {
        self@.contains_key(position) && within(center, position, radius)
    }

    /// Loads `chunk` at `location` and hands back the chunk that it
    /// replaces, if there was one.
    pub fn insert(&mut self, location: [i32; 3], chunk: Chunk) -> (replaced: Option<Chunk>)
        ensures
            final(self)@ == old(self)@.insert(triple(location), chunk),
            replaced == if old(self)@.contains_key(triple(location)) {
                Some(old(self)@[triple(location)])
            } else {
                None
            },
    {
        let key = coordinate_key(location);
        let replaced = self.loaded_chunks.insert(key, chunk);
        proof {
            lemma_other_keys(triple(location));
            assert(self@ =~= old(self)@.insert(triple(location), chunk));
        }
        replaced
    }

    /// Evicts the chunk at `location` and hands it back, if one is loaded.
    pub fn remove(&mut self, location: [i32; 3]) -> (evicted: Option<Chunk>)
        ensures
            final(self)@ == old(self)@.remove(triple(location)),
            evicted == if old(self)@.contains_key(triple(location)) {
                Some(old(self)@[triple(location)])
            } else {
                None
            },
    {
        let key = coordinate_key(location);
        let evicted = self.loaded_chunks.remove(&key);
        proof {
            lemma_other_keys(triple(location));
            assert(self@ =~= old(self)@.remove(triple(location)));
        }
        evicted
    }

    /// Reads the block at the world position `position`, if the chunk that
    /// holds it is loaded.
    pub fn block_at(&self, position: [i32; 3]) -> (block: Option<i16>)
        ensures
            block == if self@.contains_key(chunk_holding(triple(position))) {
                Some(
                    self@[chunk_holding(triple(position))].block_at(
                        position[0] as int,
                        position[1] as int,
                        position[2] as int,
                    ),
                )
            } else {
                None
            },
    {
        match self.get(chunk_of(position)) {
            Some(chunk) => Some(chunk.get(position)),
            None => None,
        }
    }

    /// Places `block` at the world position `position` in the chunk that
    /// holds it, and says whether that chunk is loaded. A world without
    /// that chunk stays as it is and takes no stamp.
    pub fn place(&mut self, position: [i32; 3], block: i16, source: &mut NonceSource) -> (done: bool)
        requires
            !old(source).exhausted(),
            old(self)@.contains_key(chunk_holding(triple(position))) ==> old(source).issued(
                old(self)@[chunk_holding(triple(position))].nonce(),
            ),
        ensures
            done == old(self)@.contains_key(chunk_holding(triple(position))),
            !done ==> final(self)@ == old(self)@ && *final(source) == *old(source),
            done ==> {
                let home = chunk_holding(triple(position));
                &&& final(self)@.dom() == old(self)@.dom()
                &&& forall|c: (int, int, int)|
                    c != home && old(self)@.contains_key(c) ==> #[trigger] final(self)@[c] == old(
                        self,
                    )@[c]
                &&& final(self)@[home].is_placement(
                    &old(self)@[home],
                    position[0] as int,
                    position[1] as int,
                    position[2] as int,
                    block,
                )
                &&& final(self)@[home].nonce() == old(source).upcoming()
                &&& final(self)@[home].nonce() > old(self)@[home].nonce()
                &&& final(source).upcoming() == old(source).upcoming() + 1
            },
    {
        let home = chunk_of(position);
        match self.remove(home) {
            Some(mut chunk) => {
                chunk.place(position, block, source);
                let ghost placed = chunk;
                let _ = self.insert(home, chunk);
                proof {
                    assert(self@.dom() =~= old(self)@.dom());
                    assert(self@[triple(home)] == placed);
                }
                true
            },
            None => {
                proof {
                    assert(self@ =~= old(self)@);
                }
                false
            },
        }
    }

    /// The chunk loaded at `location`, if there is one.
    pub fn get(&self, location: [i32; 3]) -> (chunk: Option<&Chunk>)
        ensures
            chunk == if self@.contains_key(triple(location)) {
                Some(&self@[triple(location)])
            } else {
                None
            },
    {
        let key = coordinate_key(location);
        self.loaded_chunks.get(&key)
    }
}

/// Whether one of the first `count` keys is the key of `position`.
spec fn visited(keys: Seq<u128>, count: int, position: (int, int, int)) -> bool {
    exists|i: int| 0 <= i < count && #[trigger] keys[i] == key_of(position)
}

impl World {
    /// The keys of the loaded chunks, each once, in the order in which the
    /// table yields them.
    fn loaded_keys(&self) -> (keys: Vec<u128>)
        ensures
            keys@.no_duplicates(),
            keys@.to_set() == self.loaded_chunks@.dom(),
    {
        let mut keys: Vec<u128> = Vec::new();
        for key in iter: self.loaded_chunks.keys()
            invariant
                keys@ == iter.seq().unref().take(iter.index() as int),
                iter.seq() == self.loaded_chunks.keys().remaining(),
        {
            keys.push(*key);
        }
        proof {
            assert(keys@ =~= self.loaded_chunks.keys().remaining().unref());
        }
        keys
    }

    /// Requests from `mesher` the mesh of every loaded chunk that lies
    /// closer than `distance` chunks to the chunk holding `location`, and
    /// returns each with its chunk coordinate. A chunk at exactly
    /// `distance` is left out. The table yields the chunks in no
    /// particular order, so neither does the result.
    #[verifier::rlimit(40)]
    pub fn build_meshes<Q: Copy>(
        &self,
        mesher: &mut Mesher<Q>,
        location: [i32; 3],
        pack: &Pack<Q>,
        distance: i32,
    ) -> (meshes: Vec<([i32; 3], Arc<Mesh<Q>>)>)
        requires
            forall|c: (int, int, int)| #[trigger]
                self.near(chunk_holding(triple(location)), distance as int, c) ==> covers(
                    pack,
                    &self@[c],
                ) && fits_indices(chunk_quads(&self@[c], pack).len()),
        ensures
            forall|c: (int, int, int)| #[trigger]
                self.near(chunk_holding(triple(location)), distance as int, c) ==> meshed(
                    old(mesher)@,
                    final(mesher)@,
                    c,
                    &self@[c],
                    pack,
                ),
            forall|c: (int, int, int)|
                !self.near(chunk_holding(triple(location)), distance as int, c) ==> #[trigger] untouched(
                    old(mesher)@,
                    final(mesher)@,
                    c,
                ),
            forall|i: int|
                0 <= i < meshes@.len() ==> self.near(
                    chunk_holding(triple(location)),
                    distance as int,
                    triple(#[trigger] meshes@[i].0),
                ) && *meshes@[i].1 == final(mesher)@[triple(meshes@[i].0)],
            forall|c: (int, int, int)| #[trigger]
                self.near(chunk_holding(triple(location)), distance as int, c) ==> exists|i: int|
                    0 <= i < meshes@.len() && triple(#[trigger] meshes@[i].0) == c,
            forall|i: int, j: int|
                0 <= i < j < meshes@.len() ==> triple(#[trigger] meshes@[i].0) != triple(
                    #[trigger] meshes@[j].0,
                ),
    {
        let center = chunk_of(location);
        let keys = self.loaded_keys();
        let mut meshes: Vec<([i32; 3], Arc<Mesh<Q>>)> = Vec::new();
        let ghost before = mesher@;
        let ghost hub = chunk_holding(triple(location));
        let ghost reach = distance as int;
        let mut n: usize = 0;
        while n < keys.len()
            invariant
                n <= keys.len(),
                keys@.no_duplicates(),
                keys@.to_set() == self.loaded_chunks@.dom(),
                triple(center) == hub,
                reach == distance as int,
                forall|c: (int, int, int)| #[trigger]
                    self.near(hub, reach, c) ==> covers(pack, &self@[c]) && fits_indices(
                        chunk_quads(&self@[c], pack).len(),
                    ),
                forall|c: (int, int, int)|
                    self.near(hub, reach, c) && visited(keys@, n as int, c) ==> #[trigger] meshed(
                        before,
                        mesher@,
                        c,
                        &self@[c],
                        pack,
                    ),
                forall|c: (int, int, int)|
                    !(self.near(hub, reach, c) && visited(keys@, n as int, c)) ==> #[trigger] untouched(
                        before,
                        mesher@,
                        c,
                    ),
                forall|i: int|
                    0 <= i < meshes@.len() ==> self.near(hub, reach, triple(#[trigger] meshes@[i].0))
                        && visited(keys@, n as int, triple(meshes@[i].0)) && *meshes@[i].1
                        == mesher@[triple(meshes@[i].0)],
                forall|c: (int, int, int)|
                    self.near(hub, reach, c) && #[trigger] visited(keys@, n as int, c)
                        ==> exists|i: int|
                        0 <= i < meshes@.len() && triple(#[trigger] meshes@[i].0) == c,
                forall|i: int, j: int|
                    0 <= i < j < meshes@.len() ==> triple(#[trigger] meshes@[i].0) != triple(
                        #[trigger] meshes@[j].0,
                    ),
            decreases keys.len() - n,
        {
            let key = keys[n];
            let ghost earlier = mesher@;
            let ghost listed = meshes@;
            let ghost mut spot: (int, int, int) = (0, 0, 0);
            let ghost mut filed = false;
            proof {
                assert(keys@.to_set().contains(key));
                assert(self.loaded_chunks@.contains_key(key));
            }
            match key_coordinate(key) {
                Some(position) => {
                    proof {
                        spot = triple(position);
                        filed = true;
                        lemma_other_keys(spot);
                        assert(self@.contains_key(spot));
                        assert(!visited(keys@, n as int, spot));
                        assert(untouched(before, earlier, spot));
                    }
                    if is_within(center, position, distance) {
                        match self.loaded_chunks.get(&key) {
                            Some(chunk) => {
                                assert(self.near(hub, reach, spot));
                                let handle = mesher.build_mesh(chunk, position, pack);
                                meshes.push((position, handle));
                                proof {
                                    assert(meshed(before, mesher@, spot, &self@[spot], pack));
                                    assert(meshes@[listed.len() as int].0 == position);
                                }
                            },
                            None => {},
                        }
                    }
                },
                None => {},
            }
            proof {
                assert forall|c: (int, int, int)| in_bounds(c) implies visited(keys@, n + 1, c) == (
                visited(keys@, n as int, c) || (filed && c == spot)) by {
                    if visited(keys@, n + 1, c) && !visited(keys@, n as int, c) {
                        assert(keys@[n as int] == key_of(c));
                    }
                    if visited(keys@, n as int, c) {
                        let i = choose|i: int| 0 <= i < n && #[trigger] keys@[i] == key_of(c);
                        assert(0 <= i < n + 1 && keys@[i] == key_of(c));
                    }
                    if filed && c == spot {
                        assert(keys@[n as int] == key_of(c));
                    }
                }
                assert forall|c: (int, int, int)| !(filed && c == spot) implies untouched(
                    earlier,
                    mesher@,
                    c,
                ) by {}
                assert forall|c: (int, int, int)|
                    self.near(hub, reach, c) && visited(keys@, n + 1, c) implies #[trigger] meshed(
                    before,
                    mesher@,
                    c,
                    &self@[c],
                    pack,
                ) by {
                    if !(filed && c == spot) {
                        assert(visited(keys@, n as int, c));
                        assert(meshed(before, earlier, c, &self@[c], pack));
                        assert(untouched(earlier, mesher@, c));
                    }
                }
                assert forall|c: (int, int, int)|
                    !(self.near(hub, reach, c) && visited(keys@, n + 1, c)) implies #[trigger] untouched(
                    before,
                    mesher@,
                    c,
                ) by {
                    if self@.contains_key(c) {
                        assert(in_bounds(c));
                    }
                    if filed && c == spot {
                        assert(visited(keys@, n + 1, c));
                        assert(mesher@ == earlier);
                    } else {
                        assert(untouched(earlier, mesher@, c));
                        if self.near(hub, reach, c) {
                            assert(!visited(keys@, n as int, c));
                        }
                        assert(untouched(before, earlier, c));
                    }
                }
                assert forall|c: (int, int, int)|
                    self.near(hub, reach, c) && #[trigger] visited(keys@, n + 1, c) implies exists|
                    i: int,
                |
                    0 <= i < meshes@.len() && triple(#[trigger] meshes@[i].0) == c by {
                    if filed && c == spot {
                        assert(triple(meshes@[listed.len() as int].0) == c);
                    } else {
                        assert(visited(keys@, n as int, c));
                        let i = choose|i: int|
                            0 <= i < listed.len() && triple(#[trigger] listed[i].0) == c;
                        assert(meshes@[i] == listed[i]);
                    }
                }
                assert forall|i: int| 0 <= i < listed.len() implies *meshes@[i].1 == mesher@[triple(
                    #[trigger] meshes@[i].0,
                )] && visited(keys@, n + 1, triple(meshes@[i].0)) by {
                    let c = triple(listed[i].0);
                    assert(meshes@[i] == listed[i]);
                    assert(visited(keys@, n as int, c));
                    assert(untouched(earlier, mesher@, c));
                }
            }
            n += 1;
        }
        proof {
            assert forall|c: (int, int, int)| self.near(hub, reach, c) implies visited(
                keys@,
                n as int,
                c,
            ) by {
                let key = key_of(c) as u128;
                assert(keys@.to_set().contains(key));
                let i = choose|i: int| 0 <= i < keys@.len() && keys@[i] == key;
                assert(keys@[i] == key_of(c));
            }
        }
        meshes
    }
}

/// The key of `position` belongs to no other coordinate.
proof fn lemma_other_keys(position: (int, int, int))
    requires
        in_bounds(position),
    ensures
        forall|c: (int, int, int)|
            in_bounds(c) && c != position ==> #[trigger] key_of(c) != key_of(position),
{
    assert forall|c: (int, int, int)| in_bounds(c) && c != position implies #[trigger] key_of(c)
        != key_of(position) by {
        if key_of(c) == key_of(position) {
            lemma_key_injective(c, position);
        }
    }
}

/// The bound of the query is strict: a chunk whose squared distance
/// equals the squared radius is not near, one whose squared distance is
/// one less is near.
pub proof fn lemma_radius_is_exclusive(
    world: &World,
    center: (int, int, int),
    radius: int,
    position: (int, int, int),
)
    requires
        world@.contains_key(position),
    ensures
        distance_squared(center, position) == radius * radius ==> !world.near(
            center,
            radius,
            position,
        ),
        distance_squared(center, position) == radius * radius - 1 ==> world.near(
            center,
            radius,
            position,
        ),
        world.near(center, radius, position) <==> distance_squared(center, position) < radius
            * radius,
{
}

} // verus!
