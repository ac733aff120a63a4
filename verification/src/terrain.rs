//! Seeded terrain: the words of a chunk's random stream, the layered rule
//! that turns a height and a word into a block, and chunk generation.

use crate::chunk::{Chunk, NonceSource, AIR};
use crate::coord::triple;
use crate::pack::Pack;
use rand_xoshiro::rand_core::{RngCore, SeedableRng};
use rand_xoshiro::Xoshiro256PlusPlus;
use vstd::prelude::*;
use vstd::string::StringExecFns;

verus! {

/// The xoshiro256++ generator of `rand_xoshiro`. Its state is hidden from
/// proofs; what it will yield is named by `pending_word`.
#[verifier::external_type_specification]
#[verifier::external_body]
pub struct ExXoshiro256PlusPlus(Xoshiro256PlusPlus);

/// The 32-bit word that a generator made by `seed_from_u64(seed)` yields
/// at its draw number `index`, counting from zero. The generator is
/// seeded by nothing but `seed`, so the word is the same in every run.
pub uninterp spec fn seeded_word(seed: u64, index: nat) -> u32;

/// The 32-bit word that `generator` yields `ahead` draws from now: the
/// stream that the generator holds.
pub uninterp spec fn pending_word(generator: Xoshiro256PlusPlus, ahead: nat) -> u32;

/// Calls `Xoshiro256PlusPlus::seed_from_u64`. Believed, not proved: the
/// generator that comes back depends on `seed` alone, so the words it
/// holds are the words named for that seed.
#[verifier::external_body]
fn seeded_generator(seed: u64) -> (generator: Xoshiro256PlusPlus)
    ensures
        forall|ahead: nat| pending_word(generator, ahead) == seeded_word(seed, ahead),
{
    Xoshiro256PlusPlus::seed_from_u64(seed)
}

/// Calls `RngCore::next_u32` on the generator. Believed, not proved: the
/// call returns the word that was next in line and leaves a generator
/// that holds the later words, each one place nearer.
#[verifier::external_body]
fn next_word(generator: &mut Xoshiro256PlusPlus) -> (word: u32)
    ensures
        word == pending_word(*old(generator), 0),
        forall|ahead: nat|
            pending_word(*final(generator), ahead) == pending_word(*old(generator), ahead + 1),
{
    generator.next_u32()
}

/// The seed of a chunk's stream: `2x + 3y + 5z` of its coordinate, taken
/// modulo 2^64.
pub open spec fn chunk_seed(x: int, y: int, z: int) -> u64 {
    ((2 * x + 3 * y + 5 * z) % 0x1_0000_0000_0000_0000) as u64
}

/// Computes the seed of the chunk at `location`.
pub fn seed_of(location: [i32; 3]) -> (seed: u64)
    ensures
        seed == chunk_seed(location[0] as int, location[1] as int, location[2] as int),
{
    let x: i64 = location[0] as i64;
    let y: i64 = location[1] as i64;
    let z: i64 = location[2] as i64;
    let sum: i64 = 2 * x + 3 * y + 5 * z;
    let seed: u64 = #[verifier::truncate] (sum as u64);
    assert(seed == if sum >= 0 {
        sum as int
    } else {
        sum + 0x1_0000_0000_0000_0000
    }) by (bit_vector)
        requires
            seed == #[verifier::truncate] (sum as u64),
    ;
    seed
}

/// Lowest world height that generation fills.
pub const FLOOR_Z: i64 = -128;

/// First world height above the generated range.
pub const CEILING_Z: i64 = 31;

/// Whether generation fills the layer at world height `z`.
pub open spec fn in_generated_range(z: int) -> bool {
    FLOOR_Z <= z < CEILING_Z
}

/// The bands of a column, from the bottom up.
#[derive(Copy, Clone, Debug, PartialEq, Eq, Structural)]
pub enum Band {
    /// The lowest layer of the world.
    Floor,
    /// The layer right above the floor.
    Slab,
    /// From above the slab up to nine below the surface.
    Deep,
    /// From nine below the surface up to four below it.
    Subsoil,
    /// The four layers right under the surface.
    Sediment,
    /// The surface layer itself.
    Surface,
    /// Everything else: above the surface, or between the slab and a
    /// surface that lies below it.
    Sky,
}

/// The band of world height `z` in a column whose surface is at `height`.
pub open spec fn band_at(z: int, height: int) -> Band {
    if z == FLOOR_Z {
        Band::Floor
    } else if z == FLOOR_Z + 1 {
        Band::Slab
    } else if FLOOR_Z + 2 <= z < height - 9 {
        Band::Deep
    } else if height - 9 <= z < height - 4 {
        Band::Subsoil
    } else if height - 4 <= z < height {
        Band::Sediment
    } else if z == height {
        Band::Surface
    } else {
        Band::Sky
    }
}

/// Finds the band of world height `z` in a column whose surface is at
/// `height`.
pub fn band_of(z: i64, height: i32) -> (band: Band)
    ensures
        band == band_at(z as int, height as int),
{
    let h: i64 = height as i64;
    if z == FLOOR_Z {
        Band::Floor
    } else if z == FLOOR_Z + 1 {
        Band::Slab
    } else if FLOOR_Z + 2 <= z && z < h - 9 {
        Band::Deep
    } else if h - 9 <= z && z < h - 4 {
        Band::Subsoil
    } else if h - 4 <= z && z < h {
        Band::Sediment
    } else if z == h {
        Band::Surface
    } else {
        Band::Sky
    }
}

/// The entry of a weighted table that `word` selects once its lowest
/// `shift` bits are dropped: an identifier that stands `k` times in the
/// table is picked `k` times as often as one that stands once.
pub open spec fn table_pick(table: Seq<i16>, word: u32, shift: u32) -> i16 {
    table[((word as int) / vstd::arithmetic::power2::pow2(shift as nat) as int) % (table.len() as int)]
}

/// Picks from a weighted table of any length.
pub fn pick(table: &Vec<i16>, word: u32, shift: u32) -> (block: i16)
    requires
        table.len() > 0,
        shift < 32,
    ensures
        block == table_pick(table@, word, shift),
        table@.contains(block),
{
    let dropped: u32 = word >> shift;
    proof {
        vstd::bits::lemma_u32_shr_is_div(word, shift);
    }
    let index: usize = (dropped as usize) % table.len();
    table[index]
}

/// The rule of a column: what each band is made of. The tables are
/// weighted by repetition and may have any length but zero.
#[derive(Clone, Debug)]
pub struct Strata {
    /// The block of the floor.
    pub floor: i16,
    /// The table of the slab.
    pub slab: Vec<i16>,
    /// The table of the deep band.
    pub deep: Vec<i16>,
    /// The table of the subsoil.
    pub subsoil: Vec<i16>,
    /// The block of the sediment.
    pub sediment: i16,
    /// The table of the surface layer.
    pub surface: Vec<i16>,
    /// The block of the sky.
    pub sky: i16,
}

/// A column's rule as values: the tables as sequences.
pub struct StrataView {
    pub floor: i16,
    pub slab: Seq<i16>,
    pub deep: Seq<i16>,
    pub subsoil: Seq<i16>,
    pub sediment: i16,
    pub surface: Seq<i16>,
    pub sky: i16,
}

impl View for Strata {
    type V = StrataView;

    open spec fn view(&self) -> StrataView {
        StrataView {
            floor: self.floor,
            slab: self.slab@,
            deep: self.deep@,
            subsoil: self.subsoil@,
            sediment: self.sediment,
            surface: self.surface@,
            sky: self.sky,
        }
    }
}

/// Bits of the word that the slab's pick leaves out.
pub const SLAB_SHIFT: u32 = 0;

/// Bits of the word that the deep band's pick leaves out.
pub const DEEP_SHIFT: u32 = 2;

/// Bits of the word that the subsoil's pick leaves out.
pub const SUBSOIL_SHIFT: u32 = 3;

/// Bits of the word that the surface's pick leaves out.
pub const SURFACE_SHIFT: u32 = 5;

impl StrataView {
    /// Whether every table has at least one entry.
    pub open spec fn usable(self) -> bool {
        &&& self.slab.len() > 0
        &&& self.deep.len() > 0
        &&& self.subsoil.len() > 0
        &&& self.surface.len() > 0
    }

    /// The block of a cell in `band`, given the cell's random word.
    pub open spec fn block_in(self, band: Band, word: u32) -> i16 {
        match band {
            Band::Floor => self.floor,
            Band::Slab => table_pick(self.slab, word, SLAB_SHIFT),
            Band::Deep => table_pick(self.deep, word, DEEP_SHIFT),
            Band::Subsoil => table_pick(self.subsoil, word, SUBSOIL_SHIFT),
            Band::Sediment => self.sediment,
            Band::Surface => table_pick(self.surface, word, SURFACE_SHIFT),
            Band::Sky => self.sky,
        }
    }

    /// The block at world height `z` of a column whose surface is at
    /// `height`, given the cell's random word.
    pub open spec fn block_for(self, z: int, height: int, word: u32) -> i16 {
        self.block_in(band_at(z, height), word)
    }
}

impl Strata {
    /// Tells whether every table has at least one entry.
    pub fn is_usable(&self) -> (r: bool)
        ensures
            r == self@.usable(),
    {
        self.slab.len() > 0 && self.deep.len() > 0 && self.subsoil.len() > 0
            && self.surface.len() > 0
    }

    /// Decides the block at world height `z` of a column whose surface is
    /// at `height`, from the cell's random word.
    pub fn terrain_block(&self, z: i64, height: i32, word: u32) -> (block: i16)
        requires
            self@.usable(),
        ensures
            block == self@.block_for(z as int, height as int, word),
    {
        match band_of(z, height) {
            Band::Floor => self.floor,
            Band::Slab => pick(&self.slab, word, SLAB_SHIFT),
            Band::Deep => pick(&self.deep, word, DEEP_SHIFT),
            Band::Subsoil => pick(&self.subsoil, word, SUBSOIL_SHIFT),
            Band::Sediment => self.sediment,
            Band::Surface => pick(&self.surface, word, SURFACE_SHIFT),
            Band::Sky => self.sky,
        }
    }
}

/// The surface height of each column of a chunk, indexed by the column's
/// local `y`, then by its local `x`.
pub type HeightField = [[i32; 32]; 32];

/// The block that generation puts into the cell `(x, y, z)` of the chunk
/// at `location`. Layers outside the generated range stay empty and draw
/// no word; inside it each cell draws one word, layer by layer, row by
/// row, so that the cell's draw number is its position in that order.
pub open spec fn generated_block(
    location: (int, int, int),
    strata: StrataView,
    heights: &HeightField,
    x: int,
    y: int,
    z: int,
) -> i16 {
    let world_z = 32 * location.2 + z;
    if in_generated_range(world_z) {
        strata.block_for(
            world_z,
            heights[y][x] as int,
            seeded_word(chunk_seed(location.0, location.1, location.2), ((z * 32 + y) * 32 + x) as nat),
        )
    } else {
        AIR
    }
}

/// Whether `chunk` holds in every cell what generation puts there.
pub open spec fn is_generated(
    chunk: &Chunk,
    location: (int, int, int),
    strata: StrataView,
    heights: &HeightField,
) -> bool {
    forall|x: int, y: int, z: int|
        0 <= x < 32 && 0 <= y < 32 && 0 <= z < 32 ==> #[trigger] chunk.cell(x, y, z)
            == generated_block(location, strata, heights, x, y, z)
}

/// Fills a new chunk at `location` by the rule `strata` over the surface
/// `heights`, with the words of the chunk's own stream.
pub fn generate_with(
    location: [i32; 3],
    strata: &Strata,
    heights: &HeightField,
    source: &mut NonceSource,
) -> (chunk: Chunk)
    requires
        strata@.usable(),
        !old(source).exhausted(),
    ensures
        is_generated(&chunk, triple(location), strata@, heights),
        chunk.nonce() == old(source).upcoming(),
        final(source).upcoming() == old(source).upcoming() + 1,
{
    let mut chunk = Chunk::new(source);
    let seed = seed_of(location);
    let mut generator = seeded_generator(seed);
    let base: i64 = 32 * (location[2] as i64);
    let ghost spot = triple(location);
    let ghost stamp = chunk.nonce();
    let mut k: usize = 0;
    while k < 32
        invariant
            k <= 32,
            strata@.usable(),
            base == 32 * spot.2,
            spot == triple(location),
            seed == chunk_seed(spot.0, spot.1, spot.2),
            chunk.nonce() == stamp,
            k < 32 && in_generated_range(base + k) ==> forall|ahead: nat|
                pending_word(generator, ahead) == seeded_word(seed, (k * 1024 + ahead) as nat),
            forall|x: int, y: int, z: int|
                0 <= x < 32 && 0 <= y < 32 && 0 <= z < k ==> #[trigger] chunk.cell(x, y, z)
                    == generated_block(spot, strata@, heights, x, y, z),
            forall|x: int, y: int, z: int|
                0 <= x < 32 && 0 <= y < 32 && k <= z < 32 ==> #[trigger] chunk.cell(x, y, z)
                    == AIR,
        decreases 32 - k,
    {
        let z: i64 = base + k as i64;
        if FLOOR_Z <= z && z < CEILING_Z {
            let mut j: usize = 0;
            while j < 32
                invariant
                    j <= 32,
                    k < 32,
                    z == base + k,
                    in_generated_range(z as int),
                    strata@.usable(),
                    base == 32 * spot.2,
                    seed == chunk_seed(spot.0, spot.1, spot.2),
                    chunk.nonce() == stamp,
                    forall|ahead: nat|
                        pending_word(generator, ahead) == seeded_word(
                            seed,
                            (k * 1024 + j * 32 + ahead) as nat,
                        ),
                    forall|x: int, y: int, z: int|
                        0 <= x < 32 && 0 <= y < 32 && 0 <= z < k ==> #[trigger] chunk.cell(
                            x,
                            y,
                            z,
                        ) == generated_block(spot, strata@, heights, x, y, z),
                    forall|x: int, y: int|
                        0 <= x < 32 && 0 <= y < j ==> #[trigger] chunk.cell(x, y, k as int)
                            == generated_block(spot, strata@, heights, x, y, k as int),
                    forall|x: int, y: int, z: int|
                        0 <= x < 32 && 0 <= y < 32 && k < z < 32 ==> #[trigger] chunk.cell(
                            x,
                            y,
                            z,
                        ) == AIR,
                decreases 32 - j,
            {
                let mut i: usize = 0;
                while i < 32
                    invariant
                        i <= 32,
                        j < 32,
                        k < 32,
                        z == base + k,
                        in_generated_range(z as int),
                        strata@.usable(),
                        base == 32 * spot.2,
                        seed == chunk_seed(spot.0, spot.1, spot.2),
                        chunk.nonce() == stamp,
                        forall|ahead: nat|
                            pending_word(generator, ahead) == seeded_word(
                                seed,
                                (k * 1024 + j * 32 + i + ahead) as nat,
                            ),
                        forall|x: int, y: int, z: int|
                            0 <= x < 32 && 0 <= y < 32 && 0 <= z < k ==> #[trigger] chunk.cell(
                                x,
                                y,
                                z,
                            ) == generated_block(spot, strata@, heights, x, y, z),
                        forall|x: int, y: int|
                            0 <= x < 32 && 0 <= y < j ==> #[trigger] chunk.cell(x, y, k as int)
                                == generated_block(spot, strata@, heights, x, y, k as int),
                        forall|x: int|
                            0 <= x < i ==> #[trigger] chunk.cell(x, j as int, k as int)
                                == generated_block(spot, strata@, heights, x, j as int, k as int),
                        forall|x: int, y: int, z: int|
                            0 <= x < 32 && 0 <= y < 32 && k < z < 32 ==> #[trigger] chunk.cell(
                                x,
                                y,
                                z,
                            ) == AIR,
                    decreases 32 - i,
                {
                    let word = next_word(&mut generator);
                    let block = strata.terrain_block(z, heights[j][i], word);
                    let ghost before = chunk;
                    chunk.put_cell(i, j, k, block);
                    proof {
                        assert(word == seeded_word(seed, (k * 1024 + j * 32 + i) as nat));
                        assert((k * 32 + j) * 32 + i == k * 1024 + j * 32 + i);
                        assert forall|x: int, y: int, z: int|
                            0 <= x < 32 && 0 <= y < 32 && 0 <= z < 32 && (x, y, z) != (
                                i as int,
                                j as int,
                                k as int,
                            ) implies #[trigger] chunk.cell(x, y, z) == before.cell(x, y, z) by {}
                    }
                    i += 1;
                }
                j += 1;
            }
        }
        k += 1;
    }
    chunk
}

/// The blocks that the standard rule is made of.
#[derive(Copy, Clone, Debug, PartialEq, Eq, Structural)]
pub enum Material {
    Air,
    Bedrock,
    Cobblestone,
    Dirt,
    Grass,
    Stone,
}

impl Material {
    /// The name under which the catalogue lists the material.
    pub open spec fn spec_name(self) -> Seq<char> {
        match self {
            Material::Air => "air"@,
            Material::Bedrock => "bedrock.toml"@,
            Material::Cobblestone => "cobblestone.toml"@,
            Material::Dirt => "dirt.toml"@,
            Material::Grass => "grass.toml"@,
            Material::Stone => "stone.toml"@,
        }
    }

    /// The name under which the catalogue lists the material.
    pub fn name(self) -> (name: &'static str)
        ensures
            name@ == self.spec_name(),
    {
        match self {
            Material::Air => "air",
            Material::Bedrock => "bedrock.toml",
            Material::Cobblestone => "cobblestone.toml",
            Material::Dirt => "dirt.toml",
            Material::Grass => "grass.toml",
            Material::Stone => "stone.toml",
        }
    }
}

/// Why a catalogue cannot serve generation.
#[derive(Copy, Clone, Debug, PartialEq, Eq, Structural)]
pub enum TerrainError {
    /// The catalogue has no block of the material's name.
    MissingBlock(Material),
    /// The block stands too far back in the catalogue for an identifier.
    IdentifierTooLarge(Material),
}

impl TerrainError {
    /// The material that the error is about.
    pub fn material(&self) -> (material: Material)
        ensures
            material == match *self {
                TerrainError::MissingBlock(m) => m,
                TerrainError::IdentifierTooLarge(m) => m,
            },
    {
        match *self {
            TerrainError::MissingBlock(m) => m,
            TerrainError::IdentifierTooLarge(m) => m,
        }
    }

    /// A message that names the block at fault.
    pub fn message(&self) -> (text: String)
        ensures
            text@ == match *self {
                TerrainError::MissingBlock(m) => "missing block: "@ + m.spec_name(),
                TerrainError::IdentifierTooLarge(m) => "block identifier too large: "@
                    + m.spec_name(),
            },
    {
        match *self {
            TerrainError::MissingBlock(m) => String::from_str("missing block: ").concat(m.name()),
            TerrainError::IdentifierTooLarge(m) => String::from_str(
                "block identifier too large: ",
            ).concat(m.name()),
        }
    }
}

/// The identifier of `material` in `pack`, or why it has none.
pub open spec fn resolved<Q>(pack: &Pack<Q>, material: Material) -> Result<i16, TerrainError> {
    match pack.position(material.spec_name()) {
        None => Err(TerrainError::MissingBlock(material)),
        Some(index) => if index <= i16::MAX {
            Ok(index as i16)
        } else {
            Err(TerrainError::IdentifierTooLarge(material))
        },
    }
}

/// Looks up the identifier of `material` in `pack`.
pub fn resolve<Q>(pack: &Pack<Q>, material: Material) -> (r: Result<i16, TerrainError>)
    ensures
        r == resolved(pack, material),
        r matches Ok(id) ==> pack.defines(id) && pack.entries()[id as int].0@
            == material.spec_name(),
{
    match pack.find(material.name()) {
        None => Err(TerrainError::MissingBlock(material)),
        Some(index) => if index <= 32767 {
            Ok(index as i16)
        } else {
            Err(TerrainError::IdentifierTooLarge(material))
        },
    }
}

/// The identifiers of the materials in one catalogue.
#[derive(Copy, Clone, Debug, PartialEq, Eq, Structural)]
pub struct Palette {
    pub air: i16,
    pub bedrock: i16,
    pub cobblestone: i16,
    pub dirt: i16,
    pub grass: i16,
    pub stone: i16,
}

/// The palette of `pack`, or the error of the first material, in the
/// order air, bedrock, cobblestone, dirt, grass, stone, that has no
/// identifier.
pub open spec fn resolved_palette<Q>(pack: &Pack<Q>) -> Result<Palette, TerrainError> {
    match resolved(pack, Material::Air) {
        Err(e) => Err(e),
        Ok(air) => match resolved(pack, Material::Bedrock) {
            Err(e) => Err(e),
            Ok(bedrock) => match resolved(pack, Material::Cobblestone) {
                Err(e) => Err(e),
                Ok(cobblestone) => match resolved(pack, Material::Dirt) {
                    Err(e) => Err(e),
                    Ok(dirt) => match resolved(pack, Material::Grass) {
                        Err(e) => Err(e),
                        Ok(grass) => match resolved(pack, Material::Stone) {
                            Err(e) => Err(e),
                            Ok(stone) => Ok(
                                Palette { air, bedrock, cobblestone, dirt, grass, stone },
                            ),
                        },
                    },
                },
            },
        },
    }
}

impl Palette {
    /// Looks up every material of the standard rule in `pack`, once.
    pub fn resolve<Q>(pack: &Pack<Q>) -> (r: Result<Palette, TerrainError>)
        ensures
            r == resolved_palette(pack),
    {
        let air = match resolve(pack, Material::Air) {
            Ok(id) => id,
            Err(e) => { return Err(e); },
        };
        let bedrock = match resolve(pack, Material::Bedrock) {
            Ok(id) => id,
            Err(e) => { return Err(e); },
        };
        let cobblestone = match resolve(pack, Material::Cobblestone) {
            Ok(id) => id,
            Err(e) => { return Err(e); },
        };
        let dirt = match resolve(pack, Material::Dirt) {
            Ok(id) => id,
            Err(e) => { return Err(e); },
        };
        let grass = match resolve(pack, Material::Grass) {
            Ok(id) => id,
            Err(e) => { return Err(e); },
        };
        let stone = match resolve(pack, Material::Stone) {
            Ok(id) => id,
            Err(e) => { return Err(e); },
        };
        Ok(Palette { air, bedrock, cobblestone, dirt, grass, stone })
    }
}

/// The standard rule over a palette: bedrock at the floor; a slab of
/// stone, cobblestone and twice bedrock; stone and cobblestone below the
/// subsoil; a subsoil of twice dirt, stone and cobblestone; dirt under
/// the surface; a surface of twenty-seven parts grass, two of dirt, one
/// of air and one of cobblestone, mixed as listed; air above.
pub open spec fn standard_rule(p: Palette) -> StrataView {
    StrataView {
        floor: p.bedrock,
        slab: seq![p.stone, p.cobblestone, p.bedrock, p.bedrock],
        deep: seq![p.stone, p.cobblestone],
        subsoil: seq![p.dirt, p.dirt, p.stone, p.cobblestone],
        sediment: p.dirt,
        surface: seq![
            p.grass, p.grass, p.grass, p.grass, p.grass, p.grass, p.grass, p.grass,
            p.grass, p.grass, p.grass, p.grass, p.grass, p.grass, p.grass, p.grass,
            p.grass, p.grass, p.grass, p.grass, p.grass, p.grass, p.grass, p.grass,
            p.grass, p.dirt, p.grass, p.dirt, p.grass, p.air, p.grass, p.cobblestone,
        ],
        sky: p.air,
    }
}

impl Strata {
    /// Builds the standard rule over `palette`.
    pub fn standard(palette: &Palette) -> (strata: Strata)
        ensures
            strata@ == standard_rule(*palette),
            strata@.usable(),
    {
        let p = *palette;
        let strata = Strata {
            floor: p.bedrock,
            slab: vec![p.stone, p.cobblestone, p.bedrock, p.bedrock],
            deep: vec![p.stone, p.cobblestone],
            subsoil: vec![p.dirt, p.dirt, p.stone, p.cobblestone],
            sediment: p.dirt,
            surface: vec![
                p.grass, p.grass, p.grass, p.grass, p.grass, p.grass, p.grass, p.grass,
                p.grass, p.grass, p.grass, p.grass, p.grass, p.grass, p.grass, p.grass,
                p.grass, p.grass, p.grass, p.grass, p.grass, p.grass, p.grass, p.grass,
                p.grass, p.dirt, p.grass, p.dirt, p.grass, p.air, p.grass, p.cobblestone,
            ],
            sky: p.air,
        };
        assert(strata@.slab =~= standard_rule(p).slab);
        assert(strata@.deep =~= standard_rule(p).deep);
        assert(strata@.subsoil =~= standard_rule(p).subsoil);
        assert(strata@.surface =~= standard_rule(p).surface);
        strata
    }
}

impl Chunk {
    /// Generates the chunk at `location` by the standard rule over the
    /// surface `heights`, with the blocks that `pack` lists. Fails, and
    /// takes no stamp, where `pack` lacks one of the materials.
    pub fn generate<Q>(
        location: [i32; 3],
        pack: &Pack<Q>,
        heights: &HeightField,
        source: &mut NonceSource,
    ) -> (r: Result<Chunk, TerrainError>)
        requires
            !old(source).exhausted(),
        ensures
            match resolved_palette(pack) {
                Err(e) => r == Err::<Chunk, TerrainError>(e) && *final(source) == *old(source),
                Ok(palette) => r matches Ok(chunk) && is_generated(
                    &chunk,
                    triple(location),
                    standard_rule(palette),
                    heights,
                ) && chunk.nonce() == old(source).upcoming() && final(source).upcoming() == old(
                    source,
                ).upcoming() + 1,
            },
    {
        match Palette::resolve(pack) {
            Err(e) => Err(e),
            Ok(palette) => {
                let strata = Strata::standard(&palette);
                Ok(generate_with(location, &strata, heights, source))
            },
        }
    }
}

/// Generation is a function of the chunk coordinate, the rule and the
/// heights: two chunks generated from the same three hold the same block
/// in every cell, whenever and in whatever order they were generated.
pub proof fn lemma_generation_deterministic(
    first: &Chunk,
    second: &Chunk,
    location: (int, int, int),
    strata: StrataView,
    heights: &HeightField,
)
    requires
        is_generated(first, location, strata, heights),
        is_generated(second, location, strata, heights),
    ensures
        forall|x: int, y: int, z: int|
            0 <= x < 32 && 0 <= y < 32 && 0 <= z < 32 ==> #[trigger] first.cell(x, y, z)
                == second.cell(x, y, z),
        forall|x: int, y: int, z: int| #[trigger] first.block_at(x, y, z) == second.block_at(x, y, z),
{
    assert forall|x: int, y: int, z: int| #[trigger]
        first.block_at(x, y, z) == second.block_at(x, y, z) by {
        assert(first.cell(x % 32, y % 32, z % 32) == second.cell(x % 32, y % 32, z % 32));
    }
}

} // verus!
