//! Voxel world core: enum-keyed maps, chunks of block identifiers, seeded
//! terrain, a caching mesher and the table of loaded chunks.

pub mod chunk;
pub mod coord;
pub mod input;
pub mod mesher;
pub mod pack;
pub mod terrain;
pub mod types;
pub mod world;

pub use chunk::{fresh_nonce, Chunk, NonceSource};
pub use mesher::{Mesh, Mesher, PlacedQuad};
pub use pack::{Block, Pack};
pub use terrain::{HeightField, Strata, TerrainError};
pub use types::{DirMap, Direction, Side, SideMap};
pub use world::World;
