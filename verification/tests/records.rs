use gemgame::chunk::Chunk;
use gemgame::coords::{Direction, TileCoords, CHUNK_TILE_COUNT};
use gemgame::records::{
    decode_variant_or, entity_from_record, new_player_entity, record_of_entity, Appearance, PlayerRecord, VariantCode,
};
use gemgame::world::{ClothingColour, FacialExpression, HairColour, HairStyle, Id, Tile};

fn appearance() -> Appearance {
    Appearance {
        hair_style: HairStyle::Fringe,
        clothing_colour: ClothingColour::Blue,
        skin_colour: gemgame::world::SkinColour::Pale,
        hair_colour: HairColour::Green,
    }
}

fn fallback() -> Appearance {
    Appearance {
        hair_style: HairStyle::Quiff,
        clothing_colour: ClothingColour::Grey,
        skin_colour: gemgame::world::SkinColour::Black,
        hair_colour: HairColour::Black,
    }
}

#[test]
fn variant_codes_follow_declaration_order() {
    assert_eq!(HairStyle::Mohawk.encode_variant(), 1);
    assert_eq!(ClothingColour::Blue.encode_variant(), 4);
    assert_eq!(gemgame::world::SkinColour::White.encode_variant(), 3);
    assert_eq!(HairColour::Blue.encode_variant(), 6);
    assert_eq!(HairColour::decode_variant(2), Some(HairColour::Blonde));
    assert_eq!(HairStyle::decode_variant(3), None);
    assert_eq!(HairStyle::decode_variant(-1), None);
    assert_eq!(HairColour::count(), 7);
}

#[test]
fn undecodable_variant_gives_fallback() {
    assert_eq!(decode_variant_or(9, HairStyle::Mohawk), HairStyle::Mohawk);
    assert_eq!(decode_variant_or(0, HairStyle::Mohawk), HairStyle::Quiff);
}

#[test]
fn new_player_stands_at_origin_with_nothing() {
    let e = new_player_entity(appearance());
    assert_eq!(e.pos, TileCoords { x: 0, y: 0 });
    assert_eq!(e.direction, Direction::Down);
    assert_eq!(e.facial_expression, FacialExpression::Neutral);
    assert_eq!(e.hair_style, HairStyle::Fringe);
    assert_eq!(e.hair_colour, HairColour::Green);
    assert!(!e.has_running_shoes);
    assert_eq!(e.gem_collection.emerald + e.gem_collection.ruby + e.gem_collection.diamond, 0);
    assert_eq!(e.item_inventory.bombs, 0);
}

#[test]
fn record_stores_quantities_with_their_bits() {
    let mut e = new_player_entity(appearance());
    e.pos = TileCoords { x: -5, y: 12 };
    e.gem_collection.emerald = 4_000_000_000;
    e.gem_collection.ruby = 7;
    let r = record_of_entity(&e);
    assert_eq!(r.tile_x, -5);
    assert_eq!(r.tile_y, 12);
    assert_eq!(r.hair_style, 2);
    assert_eq!(r.clothing_colour, 4);
    assert_eq!(r.skin_colour, 2);
    assert_eq!(r.hair_colour, 5);
    assert_eq!(r.emerald_quantity, -294_967_296);
    assert_eq!(r.ruby_quantity, 7);
}

#[test]
fn record_round_trip_keeps_player() {
    let mut e = new_player_entity(appearance());
    e.pos = TileCoords { x: 3, y: -9 };
    e.has_running_shoes = true;
    e.gem_collection.emerald = u32::MAX;
    e.gem_collection.diamond = 12;
    e.direction = Direction::Left;
    e.item_inventory.bombs = 3;
    let back = entity_from_record(record_of_entity(&e), fallback());
    assert_eq!(back.pos, e.pos);
    assert_eq!(back.hair_style, e.hair_style);
    assert_eq!(back.clothing_colour, e.clothing_colour);
    assert_eq!(back.skin_colour, e.skin_colour);
    assert_eq!(back.hair_colour, e.hair_colour);
    assert!(back.has_running_shoes);
    assert_eq!(back.gem_collection, e.gem_collection);
    assert_eq!(back.direction, Direction::Down);
    assert_eq!(back.item_inventory.bombs, 0);
}

#[test]
fn record_with_unknown_looks_uses_fallback() {
    let r = PlayerRecord {
        tile_x: 1,
        tile_y: 2,
        hair_style: 40,
        clothing_colour: 1,
        skin_colour: -3,
        hair_colour: 6,
        has_running_shoes: false,
        emerald_quantity: -1,
        ruby_quantity: 0,
        diamond_quantity: 5,
    };
    let e = entity_from_record(r, fallback());
    assert_eq!(e.hair_style, HairStyle::Quiff);
    assert_eq!(e.clothing_colour, ClothingColour::White);
    assert_eq!(e.skin_colour, gemgame::world::SkinColour::Black);
    assert_eq!(e.hair_colour, HairColour::Blue);
    assert_eq!(e.gem_collection.emerald, u32::MAX);
    assert_eq!(e.gem_collection.diamond, 5);
}

#[test]
fn chunk_lists_its_tiles_and_bombs() {
    let mut c = Chunk::new();
    assert_eq!(c.tile_list().len(), CHUNK_TILE_COUNT);
    assert!(c.tile_list().iter().all(|t| *t == Tile::Grass));
    c.set_bomb_at(TileCoords { x: 2, y: 3 }, Id::new(9));
    assert_eq!(c.bomb_list().clone(), vec![(TileCoords { x: 2, y: 3 }, Id::new(9))]);
}

#[test]
fn random_looks_are_variants() {
    for _ in 0..20 {
        let a = gemgame::records::random_appearance();
        assert!(HairColour::decode_variant(a.hair_colour.encode_variant()).is_some());
        let h: HairStyle = gemgame::records::random_variant();
        assert!(h.encode_variant() < HairStyle::count());
    }
}
