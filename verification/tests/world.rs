use gemgame::chunk::Chunk;
use gemgame::coords::{ChunkCoords, Direction, OffsetCoords, TileCoords};
use gemgame::world::{BoolItem, Gem, GemCollection, Id, Inventory, QuantitativeItem, Tile};

#[test]
fn chunk_coords_of_tiles() {
    assert_eq!(TileCoords { x: 0, y: 0 }.as_chunk_coords(), ChunkCoords { x: 0, y: 0 });
    assert_eq!(TileCoords { x: 15, y: 15 }.as_chunk_coords(), ChunkCoords { x: 0, y: 0 });
    assert_eq!(TileCoords { x: 16, y: -1 }.as_chunk_coords(), ChunkCoords { x: 1, y: -1 });
    assert_eq!(TileCoords { x: -16, y: -17 }.as_chunk_coords(), ChunkCoords { x: -1, y: -2 });
    assert_eq!(TileCoords { x: i32::MIN, y: i32::MAX }.as_chunk_coords(), ChunkCoords { x: -134217728, y: 134217727 });
}

#[test]
fn offsets_of_tiles() {
    assert_eq!(TileCoords { x: 17, y: 3 }.as_chunk_offset_coords(), OffsetCoords { x: 1, y: 3 });
    assert_eq!(TileCoords { x: -1, y: -16 }.as_chunk_offset_coords(), OffsetCoords { x: 15, y: 0 });
    assert_eq!(TileCoords { x: -17, y: -33 }.as_chunk_offset_coords(), OffsetCoords { x: 15, y: 15 });
}

#[test]
fn directions_move_one_tile() {
    let p = TileCoords { x: 3, y: 3 };
    assert_eq!(Direction::Up.apply(p), TileCoords { x: 3, y: 4 });
    assert_eq!(Direction::Down.apply(p), TileCoords { x: 3, y: 2 });
    assert_eq!(Direction::Left.apply(p), TileCoords { x: 2, y: 3 });
    assert_eq!(Direction::Right.apply(p), TileCoords { x: 4, y: 3 });
}

#[test]
fn tile_properties() {
    assert!(Tile::Rock.is_smashable());
    assert!(Tile::RockDiamond.is_smashable());
    assert!(!Tile::RockSmashed.is_smashable());
    assert!(Tile::Water.is_blocking());
    assert!(!Tile::Rock.is_blocking());
    let y = Tile::RockRuby.get_gem_yield().unwrap();
    assert_eq!(y.gem, Gem::Ruby);
    assert!(y.minimum_quantity <= y.maximum_quantity);
    assert!(Tile::Rock.get_gem_yield().is_none());
}

#[test]
fn gem_collection_round_trip() {
    let mut c = GemCollection::new();
    c.increase_quantity(Gem::Diamond, 7);
    assert_eq!(c.get_quantity(Gem::Diamond), 7);
    assert_eq!(c.get_quantity(Gem::Emerald), 0);
    c.decrease_quantity(Gem::Diamond, 7);
    assert_eq!(c, GemCollection::new());
}

#[test]
fn inventory_items() {
    let mut i = Inventory::new();
    assert!(!i.has(BoolItem::RunningShoes));
    i.give(BoolItem::RunningShoes);
    assert!(i.has(BoolItem::RunningShoes));
    i.give_quantity(QuantitativeItem::Bomb, 4);
    i.take_quantity(QuantitativeItem::Bomb, 1);
    assert_eq!(i.has_how_many(QuantitativeItem::Bomb), 3);
    assert_eq!(BoolItem::RunningShoes.get_price(), (Gem::Emerald, 10));
    assert_eq!(QuantitativeItem::Bomb.get_price(), (Gem::Ruby, 1));
}

#[test]
fn chunk_tiles_and_bombs() {
    let mut chunk = Chunk::new();
    assert_eq!(chunk.tile_at_offset(OffsetCoords { x: 3, y: 9 }), Tile::Grass);
    chunk.set_tile_at_offset(OffsetCoords { x: 3, y: 9 }, Tile::Shrub);
    assert_eq!(chunk.tile_at_offset(OffsetCoords { x: 3, y: 9 }), Tile::Shrub);
    assert_eq!(chunk.tile_at_offset(OffsetCoords { x: 9, y: 3 }), Tile::Grass);
    let a = Id::new(1);
    let b = Id::new(2);
    chunk.set_bomb_at(TileCoords { x: 1, y: 1 }, a);
    chunk.set_bomb_at(TileCoords { x: 2, y: 1 }, b);
    chunk.set_bomb_at(TileCoords { x: 3, y: 1 }, a);
    chunk.set_bomb_at(TileCoords { x: 2, y: 1 }, a);
    assert_eq!(
        chunk.get_undetonated_bomb_positions(),
        vec![TileCoords { x: 1, y: 1 }, TileCoords { x: 2, y: 1 }, TileCoords { x: 3, y: 1 }]
    );
    let taken = chunk.take_bombs_placed_by(a);
    assert_eq!(taken, vec![TileCoords { x: 1, y: 1 }, TileCoords { x: 2, y: 1 }, TileCoords { x: 3, y: 1 }]);
    assert!(chunk.get_undetonated_bomb_positions().is_empty());
    let copy = chunk.duplicate();
    assert_eq!(copy.tile_at_offset(OffsetCoords { x: 3, y: 9 }), Tile::Shrub);
}
