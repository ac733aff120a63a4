use rand_xoshiro::rand_core::{RngCore, SeedableRng};
use rand_xoshiro::Xoshiro256PlusPlus;
use voxel_core::chunk::{Chunk, NonceSource};
use voxel_core::pack::{Block, Pack};
use voxel_core::terrain::{
    band_of, generate_with, pick, resolve, seed_of, Band, HeightField, Material, Palette, Strata,
    TerrainError, CEILING_Z, FLOOR_Z,
};

const NAMES: [&str; 6] =
    ["air", "bedrock.toml", "cobblestone.toml", "dirt.toml", "grass.toml", "stone.toml"];

fn pack_of(names: &[&str]) -> Pack<u8> {
    Pack::new(names.iter().map(|n| (n.to_string(), Block::default())).collect()).unwrap()
}

fn standard_pack() -> Pack<u8> {
    pack_of(&NAMES)
}

fn palette() -> Palette {
    Palette { air: 0, bedrock: 1, cobblestone: 2, dirt: 3, grass: 4, stone: 5 }
}

fn flat(height: i32) -> HeightField {
    [[height; 32]; 32]
}

fn cells(chunk: &Chunk) -> Vec<i16> {
    let mut out = Vec::with_capacity(32768);
    for z in 0..32 {
        for y in 0..32 {
            for x in 0..32 {
                out.push(chunk.cell_at(x, y, z));
            }
        }
    }
    out
}

#[test]
fn the_seed_is_the_weighted_sum_of_the_coordinate() {
    assert_eq!(seed_of([0, 0, 0]), 0);
    assert_eq!(seed_of([1, 1, 1]), 10);
    assert_eq!(seed_of([1, 0, 0]), 2);
    assert_eq!(seed_of([0, 1, 0]), 3);
    assert_eq!(seed_of([0, 0, 1]), 5);
    assert_eq!(seed_of([7, -2, 3]), 23);
}

#[test]
fn a_negative_sum_wraps_to_the_top_of_the_range() {
    assert_eq!(seed_of([-1, 0, 0]), u64::MAX - 1);
    assert_eq!(seed_of([0, 0, -4]), u64::MAX - 19);
    assert_eq!(seed_of([i32::MIN, i32::MIN, i32::MIN]), (-(10i64 << 31)) as u64);
    assert_eq!(seed_of([i32::MAX, i32::MAX, i32::MAX]), 10 * (i32::MAX as u64));
}

#[test]
fn bands_follow_the_surface() {
    let h = 10;
    assert_eq!(band_of(-128, h), Band::Floor);
    assert_eq!(band_of(-127, h), Band::Slab);
    assert_eq!(band_of(-126, h), Band::Deep);
    assert_eq!(band_of(0, h), Band::Deep);
    assert_eq!(band_of(1, h), Band::Subsoil);
    assert_eq!(band_of(5, h), Band::Subsoil);
    assert_eq!(band_of(6, h), Band::Sediment);
    assert_eq!(band_of(9, h), Band::Sediment);
    assert_eq!(band_of(10, h), Band::Surface);
    assert_eq!(band_of(11, h), Band::Sky);
    assert_eq!(band_of(30, h), Band::Sky);
}

#[test]
fn floor_and_slab_ignore_the_surface() {
    for h in [i32::MIN, -200, -128, -127, 0, 30, i32::MAX] {
        assert_eq!(band_of(-128, h), Band::Floor);
        assert_eq!(band_of(-127, h), Band::Slab);
    }
}

#[test]
fn a_surface_below_the_slab_leaves_sky() {
    assert_eq!(band_of(-126, -130), Band::Sky);
    assert_eq!(band_of(0, -130), Band::Sky);
    assert_eq!(band_of(-126, -126), Band::Surface);
    assert_eq!(band_of(-126, -125), Band::Sediment);
    assert_eq!(band_of(-126, -121), Band::Subsoil);
    assert_eq!(band_of(-126, -116), Band::Deep);
}

#[test]
fn extreme_surfaces_do_not_overflow() {
    assert_eq!(band_of(0, i32::MAX), Band::Deep);
    assert_eq!(band_of(0, i32::MIN), Band::Sky);
    assert_eq!(band_of(30, i32::MIN), Band::Sky);
}

#[test]
fn the_range_is_from_the_floor_to_below_the_ceiling() {
    assert_eq!(FLOOR_Z, -128);
    assert_eq!(CEILING_Z, 31);
}

#[test]
fn pick_indexes_by_the_shifted_word() {
    let table = vec![10, 20, 30];
    assert_eq!(pick(&table, 0, 0), 10);
    assert_eq!(pick(&table, 7, 0), 20);
    assert_eq!(pick(&table, 8, 0), 30);
    assert_eq!(pick(&table, 13, 2), 10);
    assert_eq!(pick(&table, 16, 2), 20);
    assert_eq!(pick(&table, u32::MAX, 0), 10);
    assert_eq!(pick(&table, u32::MAX, 31), 20);
    assert_eq!(pick(&table, 1 << 5, 5), 20);
    assert_eq!(pick(&table, (1 << 5) - 1, 5), 10);
}

#[test]
fn pick_takes_tables_of_any_length() {
    for len in 1..70usize {
        let table: Vec<i16> = (0..len as i16).collect();
        for word in [0u32, 1, 5, 31, 32, 1000, 123_456_789, u32::MAX] {
            assert_eq!(pick(&table, word, 0), (word as usize % len) as i16);
            assert_eq!(pick(&table, word, 5), ((word >> 5) as usize % len) as i16);
        }
    }
}

#[test]
fn repetition_weights_a_table() {
    let table = vec![1, 1, 1, 2];
    let mut ones = 0;
    for word in 0..400u32 {
        if pick(&table, word, 0) == 1 {
            ones += 1;
        }
    }
    assert_eq!(ones, 300);
}

#[test]
fn the_standard_rule_lists_its_tables() {
    let s = Strata::standard(&palette());
    assert_eq!(s.floor, 1);
    assert_eq!(s.slab, vec![5, 2, 1, 1]);
    assert_eq!(s.deep, vec![5, 2]);
    assert_eq!(s.subsoil, vec![3, 3, 5, 2]);
    assert_eq!(s.sediment, 3);
    assert_eq!(s.sky, 0);
    assert_eq!(s.surface.len(), 32);
    assert_eq!(&s.surface[..25], &[4; 25]);
    assert_eq!(&s.surface[25..], &[3, 4, 3, 4, 0, 4, 2]);
    assert!(s.is_usable());
}

#[test]
fn a_rule_with_an_empty_table_is_not_usable() {
    let mut s = Strata::standard(&palette());
    s.deep.clear();
    assert!(!s.is_usable());
    let mut s = Strata::standard(&palette());
    s.surface.clear();
    assert!(!s.is_usable());
}

#[test]
fn each_band_takes_its_block() {
    let s = Strata::standard(&palette());
    assert_eq!(s.terrain_block(-128, 10, 99), 1);
    // slab: word % 4 into [stone, cobblestone, bedrock, bedrock]
    assert_eq!(s.terrain_block(-127, 10, 0), 5);
    assert_eq!(s.terrain_block(-127, 10, 1), 2);
    assert_eq!(s.terrain_block(-127, 10, 2), 1);
    assert_eq!(s.terrain_block(-127, 10, 3), 1);
    // deep: (word / 4) % 2 into [stone, cobblestone]
    assert_eq!(s.terrain_block(-50, 10, 3), 5);
    assert_eq!(s.terrain_block(-50, 10, 4), 2);
    assert_eq!(s.terrain_block(-50, 10, 8), 5);
    // subsoil: (word / 8) % 4 into [dirt, dirt, stone, cobblestone]
    assert_eq!(s.terrain_block(3, 10, 7), 3);
    assert_eq!(s.terrain_block(3, 10, 8), 3);
    assert_eq!(s.terrain_block(3, 10, 16), 5);
    assert_eq!(s.terrain_block(3, 10, 24), 2);
    // sediment
    assert_eq!(s.terrain_block(8, 10, 12345), 3);
    // surface: (word / 32) % 32 into the surface table
    assert_eq!(s.terrain_block(10, 10, 0), 4);
    assert_eq!(s.terrain_block(10, 10, 25 * 32), 3);
    assert_eq!(s.terrain_block(10, 10, 29 * 32), 0);
    assert_eq!(s.terrain_block(10, 10, 31 * 32 + 31), 2);
    assert_eq!(s.terrain_block(10, 10, 32 * 32), 4);
    // sky
    assert_eq!(s.terrain_block(11, 10, 777), 0);
}

#[test]
fn materials_resolve_to_their_positions() {
    let pack = standard_pack();
    assert_eq!(resolve(&pack, Material::Air), Ok(0));
    assert_eq!(resolve(&pack, Material::Bedrock), Ok(1));
    assert_eq!(resolve(&pack, Material::Cobblestone), Ok(2));
    assert_eq!(resolve(&pack, Material::Dirt), Ok(3));
    assert_eq!(resolve(&pack, Material::Grass), Ok(4));
    assert_eq!(resolve(&pack, Material::Stone), Ok(5));
    assert_eq!(Palette::resolve(&pack), Ok(palette()));
}

#[test]
fn other_blocks_shift_the_palette() {
    let pack = pack_of(&[
        "air",
        "bedrock.toml",
        "cactus.toml",
        "cobblestone.toml",
        "dirt.toml",
        "grass.toml",
        "gravel.toml",
        "obsidian.toml",
        "pumpkin.toml",
        "sand.toml",
        "stone.toml",
    ]);
    assert_eq!(
        Palette::resolve(&pack),
        Ok(Palette { air: 0, bedrock: 1, cobblestone: 3, dirt: 4, grass: 5, stone: 10 })
    );
}

#[test]
fn a_missing_material_is_named() {
    let all = [
        Material::Air,
        Material::Bedrock,
        Material::Cobblestone,
        Material::Dirt,
        Material::Grass,
        Material::Stone,
    ];
    for (i, material) in all.into_iter().enumerate() {
        let names: Vec<&str> = NAMES.iter().copied().filter(|n| *n != NAMES[i]).collect();
        let pack = pack_of(&names);
        assert_eq!(resolve(&pack, material), Err(TerrainError::MissingBlock(material)));
        assert_eq!(Palette::resolve(&pack), Err(TerrainError::MissingBlock(material)));
        let mut source = NonceSource::new();
        let r = Chunk::generate([0, 0, -1], &pack, &flat(0), &mut source);
        assert_eq!(r.err(), Some(TerrainError::MissingBlock(material)));
        assert!(!source.has_issued(0));
    }
}

#[test]
fn the_first_missing_material_is_reported() {
    let pack = pack_of(&["air", "cobblestone.toml", "grass.toml"]);
    assert_eq!(Palette::resolve(&pack), Err(TerrainError::MissingBlock(Material::Bedrock)));
    let pack = pack_of(&[]);
    assert_eq!(Palette::resolve(&pack), Err(TerrainError::MissingBlock(Material::Air)));
}

#[test]
fn a_block_too_far_back_has_no_identifier() {
    let mut names: Vec<String> =
        ["air", "bedrock.toml", "cobblestone.toml", "dirt.toml", "grass.toml"]
            .iter()
            .map(|s| s.to_string())
            .collect();
    for i in 0..32763 {
        names.push(format!("h{:05}", i));
    }
    names.push("stone.toml".to_string());
    let refs: Vec<&str> = names.iter().map(|s| s.as_str()).collect();
    let pack = pack_of(&refs);
    assert_eq!(pack.find("stone.toml"), Some(32768));
    assert_eq!(resolve(&pack, Material::Stone), Err(TerrainError::IdentifierTooLarge(Material::Stone)));
    assert_eq!(Palette::resolve(&pack), Err(TerrainError::IdentifierTooLarge(Material::Stone)));
    assert_eq!(resolve(&pack, Material::Grass), Ok(4));
}

#[test]
fn the_last_identifier_still_resolves() {
    let mut names: Vec<String> =
        ["air", "bedrock.toml", "cobblestone.toml", "dirt.toml", "grass.toml"]
            .iter()
            .map(|s| s.to_string())
            .collect();
    for i in 0..32762 {
        names.push(format!("h{:05}", i));
    }
    names.push("stone.toml".to_string());
    let refs: Vec<&str> = names.iter().map(|s| s.as_str()).collect();
    let pack = pack_of(&refs);
    assert_eq!(resolve(&pack, Material::Stone), Ok(32767));
}

#[test]
fn errors_describe_themselves() {
    let e = TerrainError::MissingBlock(Material::Grass);
    assert_eq!(e.message(), "missing block: grass.toml");
    assert_eq!(e.material(), Material::Grass);
    let e = TerrainError::IdentifierTooLarge(Material::Air);
    assert_eq!(e.message(), "block identifier too large: air");
    assert_eq!(e.material(), Material::Air);
}

#[test]
fn materials_have_their_catalogue_names() {
    assert_eq!(Material::Air.name(), "air");
    assert_eq!(Material::Bedrock.name(), "bedrock.toml");
    assert_eq!(Material::Cobblestone.name(), "cobblestone.toml");
    assert_eq!(Material::Dirt.name(), "dirt.toml");
    assert_eq!(Material::Grass.name(), "grass.toml");
    assert_eq!(Material::Stone.name(), "stone.toml");
}

#[test]
fn generation_is_deterministic() {
    let pack = standard_pack();
    let mut heights = flat(0);
    for y in 0..32 {
        for x in 0..32 {
            heights[y][x] = ((x * 7 + y * 13) % 40) as i32 - 20;
        }
    }
    let mut source = NonceSource::new();
    let a = Chunk::generate([3, -2, -1], &pack, &heights, &mut source).unwrap();
    let b = Chunk::generate([3, -2, -1], &pack, &heights, &mut source).unwrap();
    assert_eq!(cells(&a), cells(&b));
    assert_ne!(a.nonce(), b.nonce());
    let mut other = NonceSource::new();
    for _ in 0..5 {
        Chunk::new(&mut other);
    }
    let c = Chunk::generate([3, -2, -1], &pack, &heights, &mut other).unwrap();
    assert_eq!(cells(&a), cells(&c));
}

#[test]
fn generation_does_not_depend_on_what_was_generated_before() {
    let pack = standard_pack();
    let mut source = NonceSource::new();
    let alone = Chunk::generate([0, 0, -1], &pack, &flat(-10), &mut source).unwrap();
    let _ = Chunk::generate([5, 5, -2], &pack, &flat(3), &mut source).unwrap();
    let _ = Chunk::generate([0, 0, 0], &pack, &flat(3), &mut source).unwrap();
    let again = Chunk::generate([0, 0, -1], &pack, &flat(-10), &mut source).unwrap();
    assert_eq!(cells(&alone), cells(&again));
}

#[test]
fn generated_chunks_take_fresh_stamps() {
    let pack = standard_pack();
    let mut source = NonceSource::new();
    let a = Chunk::generate([0, 0, 0], &pack, &flat(0), &mut source).unwrap();
    let b = Chunk::generate([0, 0, 1], &pack, &flat(0), &mut source).unwrap();
    assert_eq!(a.nonce(), 0);
    assert_eq!(b.nonce(), 1);
    assert!(source.has_issued(1));
    assert!(!source.has_issued(2));
}

#[test]
fn chunks_outside_the_range_stay_empty() {
    let pack = standard_pack();
    let mut source = NonceSource::new();
    for cz in [-6, -5, 1, 2, 100, i32::MAX, i32::MIN] {
        let chunk = Chunk::generate([0, 0, cz], &pack, &flat(0), &mut source).unwrap();
        assert!(cells(&chunk).iter().all(|b| *b == 0));
    }
}

#[test]
fn the_top_layer_below_the_ceiling_is_skipped() {
    let pack = standard_pack();
    let mut source = NonceSource::new();
    let chunk = Chunk::generate([0, 0, 0], &pack, &flat(1000), &mut source).unwrap();
    for y in 0..32 {
        for x in 0..32 {
            assert_eq!(chunk.cell_at(x, y, 31), 0);
            let deep = chunk.cell_at(x, y, 30);
            assert!(deep == 5 || deep == 2);
        }
    }
}

#[test]
fn the_floor_is_bedrock() {
    let pack = standard_pack();
    let mut source = NonceSource::new();
    let chunk = Chunk::generate([0, 0, -4], &pack, &flat(0), &mut source).unwrap();
    for y in 0..32 {
        for x in 0..32 {
            assert_eq!(chunk.cell_at(x, y, 0), 1);
        }
    }
}

#[test]
fn generation_draws_one_word_per_cell_in_order() {
    let pack = standard_pack();
    let location = [2, 3, -4];
    let mut source = NonceSource::new();
    let chunk = Chunk::generate(location, &pack, &flat(-100), &mut source).unwrap();
    let rule = Strata::standard(&palette());
    let mut rng = Xoshiro256PlusPlus::seed_from_u64(seed_of(location));
    assert_eq!(seed_of(location), u64::MAX - 6);
    for z in 0..32usize {
        for y in 0..32usize {
            for x in 0..32usize {
                let word = rng.next_u32();
                let world_z = -128 + z as i64;
                assert_eq!(chunk.cell_at(x, y, z), rule.terrain_block(world_z, -100, word));
            }
        }
    }
}

#[test]
fn the_slab_follows_the_stream_of_the_seed() {
    let pack = standard_pack();
    let location = [0, 0, -4];
    let mut source = NonceSource::new();
    let chunk = Chunk::generate(location, &pack, &flat(0), &mut source).unwrap();
    let mut rng = Xoshiro256PlusPlus::seed_from_u64((-20i64) as u64);
    for _ in 0..1024 {
        rng.next_u32();
    }
    let table = [5i16, 2, 1, 1];
    let mut kinds = std::collections::BTreeSet::new();
    for y in 0..32usize {
        for x in 0..32usize {
            let word = rng.next_u32();
            let expected = table[(word % 4) as usize];
            assert_eq!(chunk.cell_at(x, y, 1), expected);
            kinds.insert(expected);
        }
    }
    assert_eq!(kinds.len(), 3);
}

#[test]
fn different_chunks_draw_different_streams() {
    let pack = standard_pack();
    let mut source = NonceSource::new();
    let a = Chunk::generate([0, 0, -1], &pack, &flat(100), &mut source).unwrap();
    let b = Chunk::generate([1, 0, -1], &pack, &flat(100), &mut source).unwrap();
    assert_ne!(cells(&a), cells(&b));
}

#[test]
fn chunks_with_the_same_seed_draw_the_same_stream() {
    // 2 * 5 + 3 * 0 == 2 * 2 + 3 * 2
    let pack = standard_pack();
    let mut source = NonceSource::new();
    let a = Chunk::generate([5, 0, -1], &pack, &flat(100), &mut source).unwrap();
    let b = Chunk::generate([2, 2, -1], &pack, &flat(100), &mut source).unwrap();
    assert_eq!(cells(&a), cells(&b));
}

#[test]
fn columns_follow_their_own_heights() {
    let pack = standard_pack();
    let mut heights = flat(-40);
    heights[4][9] = -50;
    let mut source = NonceSource::new();
    let chunk = Chunk::generate([0, 0, -2], &pack, &heights, &mut source).unwrap();
    // world z = -64 + z; surface at -40 is z = 24, at -50 is z = 14
    assert_eq!(chunk.cell_at(0, 0, 25), 0);
    assert_eq!(chunk.cell_at(0, 0, 23), 3);
    assert_eq!(chunk.cell_at(0, 0, 20), 3);
    assert_eq!(chunk.cell_at(9, 4, 15), 0);
    assert_eq!(chunk.cell_at(9, 4, 13), 3);
    assert_eq!(chunk.cell_at(9, 4, 10), 3);
    assert_eq!(chunk.cell_at(9, 4, 24), 0);
    let below = chunk.cell_at(9, 4, 0);
    assert!(below == 5 || below == 2);
}

#[test]
fn a_custom_rule_fills_the_chunk() {
    let rule = Strata {
        floor: 9,
        slab: vec![8],
        deep: vec![7],
        subsoil: vec![6],
        sediment: 5,
        surface: vec![4],
        sky: 3,
    };
    let mut source = NonceSource::new();
    let chunk = generate_with([0, 0, -4], &rule, &flat(-110), &mut source);
    // world z = -128 + z; surface at z = 18
    let column: Vec<i16> = (0..32).map(|z| chunk.cell_at(0, 0, z)).collect();
    let mut expected = vec![9, 8];
    expected.extend(vec![7; 7]);
    expected.extend(vec![6; 5]);
    expected.extend(vec![5; 4]);
    expected.push(4);
    expected.extend(vec![3; 13]);
    assert_eq!(column, expected);
}

#[test]
fn the_surface_table_reaches_every_entry() {
    let rule = Strata {
        floor: 0,
        slab: vec![0],
        deep: vec![0],
        subsoil: vec![0],
        sediment: 0,
        surface: (100..137).collect(),
        sky: 0,
    };
    let mut source = NonceSource::new();
    let chunk = generate_with([0, 0, -1], &rule, &flat(-32), &mut source);
    let mut seen = std::collections::BTreeSet::new();
    for y in 0..32 {
        for x in 0..32 {
            seen.insert(chunk.cell_at(x, y, 0));
        }
    }
    assert_eq!(seen.len(), 37);
    assert_eq!(seen.iter().next(), Some(&100));
    assert_eq!(seen.iter().last(), Some(&136));
}
