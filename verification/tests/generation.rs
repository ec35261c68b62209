use gemgame::chunkplan::{ChunkPlan, TileCategory};
use gemgame::coords::{ChunkCoords, OffsetCoords};
use gemgame::generation::{chunk_rng_seed, DefaultGenerator};
use gemgame::id::{decode_id, encode_id, generate_random, generate_with_timestamp, id_from_timestamp_and_random};
use gemgame::world::Id;
use gemgame::world::Tile;

const GRASS: [Tile; 6] = [Tile::Grass, Tile::FlowerBlue, Tile::FlowersYellowOrange, Tile::FlowerPatch, Tile::Stones, Tile::Shrub];
const DIRT: [Tile; 5] = [Tile::Dirt, Tile::Rock, Tile::RockEmerald, Tile::RockRuby, Tile::RockDiamond];

#[test]
fn generated_tiles_fit_the_plan() {
    let generator = DefaultGenerator::new(0);
    assert_eq!(generator.name(), "default");
    let mut plan = ChunkPlan::new();
    for x in 0..4 {
        for y in 0..4 {
            plan.set_category_at(x, y, TileCategory::Dirt);
        }
    }
    for x in 8..12 {
        for y in 8..12 {
            plan.set_category_at(x, y, TileCategory::Water);
        }
    }
    // A lone water tile juts out and becomes grass.
    plan.set_category_at(14, 2, TileCategory::Water);
    let chunk = generator.generate_from_plan(ChunkCoords { x: 3, y: -2 }, plan);
    for x in 0..16u8 {
        for y in 0..16u8 {
            let tile = chunk.tile_at_offset(OffsetCoords { x, y });
            if x < 4 && y < 4 {
                assert!(DIRT.contains(&tile));
            } else if (8..12).contains(&x) && (8..12).contains(&y) {
                assert_eq!(tile, Tile::Water);
            } else {
                assert!(GRASS.contains(&tile));
            }
        }
    }
}

#[test]
fn generation_is_repeatable() {
    let generator = DefaultGenerator::new(0);
    let a = generator.generate_from_plan(ChunkCoords { x: 1, y: 2 }, ChunkPlan::new());
    let b = generator.generate_from_plan(ChunkCoords { x: 1, y: 2 }, ChunkPlan::new());
    for x in 0..16u8 {
        for y in 0..16u8 {
            assert_eq!(a.tile_at_offset(OffsetCoords { x, y }), b.tile_at_offset(OffsetCoords { x, y }));
        }
    }
}

#[test]
fn ids_from_timestamps() {
    let id = id_from_timestamp_and_random(5, 42);
    assert_eq!(id.value, (5u128 << 80) + 42);
    let id = id_from_timestamp_and_random(u128::MAX, 9_999_999_999);
    assert_eq!(id.value % (1u128 << 80), 9_999_999_999);
    assert_eq!(id.value >> 80, (1u128 << 48) - 1);
    let t = generate_with_timestamp(1_600_000_000_000);
    assert_eq!(t.value >> 80, 1_600_000_000_000);
    assert_ne!(generate_random(), generate_random());
}

#[test]
fn timestamped_ids_take_the_whole_random_range() {
    let id = id_from_timestamp_and_random(3, (1u128 << 80) - 1);
    assert_eq!(id.value >> 80, 3);
    assert_eq!(id.value % (1u128 << 80), (1u128 << 80) - 1);
}

#[test]
fn id_text_round_trip() {
    let id = Id::new(0x0123_4567_89ab_cdef_0011_2233_4455_6677);
    let text = encode_id(id);
    assert_eq!(text, "0123456789abcdef0011223344556677");
    assert_eq!(decode_id(&text), Some(id));
    assert_eq!(encode_id(Id::new(0)), "00000000000000000000000000000000");
    assert_eq!(encode_id(Id::new(u128::MAX)), "ffffffffffffffffffffffffffffffff");
    assert_eq!(decode_id(&encode_id(Id::new(u128::MAX))), Some(Id::new(u128::MAX)));
}

#[test]
fn id_text_decoding() {
    assert_eq!(decode_id("FF"), Some(Id::new(255)));
    assert_eq!(decode_id("1a"), Some(Id::new(26)));
    assert_eq!(decode_id(""), None);
    assert_eq!(decode_id("12g4"), None);
    assert_eq!(decode_id("000000000000000000000000000000001"), None);
}

/// A ring of water around one grass tile: the ring is connected, and the grass tile in it has
/// four water neighbours.
fn ring_plan() -> ChunkPlan {
    let mut plan = ChunkPlan::new();
    for (x, y) in [(2, 3), (3, 3), (4, 3), (2, 4), (4, 4), (2, 5), (3, 5), (4, 5)] {
        plan.set_category_at(x, y, TileCategory::Water);
    }
    plan
}

#[test]
fn water_fills_tiles_with_three_water_neighbours() {
    let mut plan = ring_plan();
    plan.set_category_at(9, 9, TileCategory::Dirt);
    plan.fill_water();
    assert_eq!(plan.get_category_at(3, 4), TileCategory::Water);
    assert_eq!(plan.get_category_at(1, 4), TileCategory::Grass);
    assert_eq!(plan.get_category_at(3, 6), TileCategory::Grass);
    assert_eq!(plan.get_category_at(9, 9), TileCategory::Dirt);
}

#[test]
fn water_fills_only_inside_the_chunk() {
    let mut plan = ChunkPlan::new();
    for (x, y) in [(-2, 0), (-1, 1), (-1, -1)] {
        plan.set_category_at(x, y, TileCategory::Water);
    }
    plan.set_category_at(0, 0, TileCategory::Water);
    plan.fill_water();
    assert_eq!(plan.get_category_at(-1, 0), TileCategory::Grass);
}

#[test]
fn generated_chunk_fills_water() {
    let generator = DefaultGenerator::new(0);
    let chunk = generator.generate_from_plan(ChunkCoords { x: 0, y: 0 }, ring_plan());
    assert_eq!(chunk.tile_at_offset(OffsetCoords { x: 3, y: 4 }), Tile::Water);
    assert_eq!(chunk.tile_at_offset(OffsetCoords { x: 2, y: 3 }), Tile::Water);
    assert!(GRASS.contains(&chunk.tile_at_offset(OffsetCoords { x: 3, y: 7 })));
}

#[test]
fn chunk_seed_mixes_both_coordinates() {
    assert_eq!(chunk_rng_seed(ChunkCoords { x: 3, y: 5 }), 6);
    assert_eq!(chunk_rng_seed(ChunkCoords { x: 0, y: -2 }), (-2i32) as u64);
    assert_eq!(chunk_rng_seed(ChunkCoords { x: 7, y: 7 }), 0);
}
