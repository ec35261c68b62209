use gemgame::chunk::Chunk;
use gemgame::client_map::ClientMap;
use gemgame::coords::{ChunkCoords, Direction, OffsetCoords, TileCoords};
use gemgame::messages::ToServer;
use gemgame::my_entity::MyEntity;
use gemgame::world::{
    BoolItem, ClothingColour, Entity, FacialExpression, Gem, GemCollection, HairColour, HairStyle, Id, Inventory,
    QuantitativeItem, SkinColour, Tile,
};

fn entity_at(pos: TileCoords) -> Entity {
    Entity {
        pos,
        direction: Direction::Down,
        facial_expression: FacialExpression::Neutral,
        hair_style: HairStyle::Quiff,
        clothing_colour: ClothingColour::Grey,
        skin_colour: SkinColour::Black,
        hair_colour: HairColour::Black,
        has_running_shoes: false,
        gem_collection: GemCollection::new(),
        item_inventory: Inventory::new(),
        bombs_placed_count: 0,
    }
}

fn map_with_origin_chunk() -> ClientMap {
    let mut map = ClientMap::new();
    let mut chunk = Chunk::new();
    chunk.set_tile_at_offset(OffsetCoords { x: 2, y: 1 }, Tile::RockDiamond);
    chunk.set_tile_at_offset(OffsetCoords { x: 1, y: 2 }, Tile::Water);
    map.add_chunk(ChunkCoords { x: 0, y: 0 }, chunk);
    map
}

#[test]
fn client_map_position_free() {
    let mut map = map_with_origin_chunk();
    assert!(map.is_position_free(TileCoords { x: 1, y: 1 }));
    assert!(!map.is_position_free(TileCoords { x: 1, y: 2 }));
    assert!(!map.is_position_free(TileCoords { x: -1, y: 1 }));
    map.add_entity(Id::new(8), entity_at(TileCoords { x: 3, y: 3 }));
    assert!(map.is_blocking_entity_at(TileCoords { x: 3, y: 3 }));
    assert!(!map.is_position_free(TileCoords { x: 3, y: 3 }));
    map.remove_entity(Id::new(8));
    assert!(map.is_position_free(TileCoords { x: 3, y: 3 }));
    assert!(map.is_tile_loaded(TileCoords { x: 15, y: 0 }));
    assert!(!map.is_tile_loaded(TileCoords { x: 16, y: 0 }));
}

#[test]
fn remote_entity_smashes_rock() {
    let mut map = map_with_origin_chunk();
    let other = Id::new(4);
    map.add_entity(other, entity_at(TileCoords { x: 1, y: 1 }));
    let smashed = map.move_remote_entity(other, TileCoords { x: 2, y: 1 }, Direction::Right);
    assert!(smashed);
    assert_eq!(map.loaded_tile_at(TileCoords { x: 2, y: 1 }), Some(Tile::RockSmashed));
    let e = map.entity_by_id(other).unwrap();
    assert_eq!(e.pos, TileCoords { x: 2, y: 1 });
    assert_eq!(e.direction, Direction::Right);
    assert!(!map.move_remote_entity(other, TileCoords { x: 3, y: 1 }, Direction::Right));
}

#[test]
fn my_entity_moves_and_reconciles() {
    let mut map = map_with_origin_chunk();
    let mut me = MyEntity::new(entity_at(TileCoords { x: 1, y: 1 }), Id::new(1));
    let msg = me.move_towards_checked(Direction::Right, &mut map);
    assert_eq!(msg, Some(ToServer::MoveMyEntity { request_number: 0, direction: Direction::Right }));
    me.movement_request_sent();
    assert_eq!(me.get_pos(), TileCoords { x: 2, y: 1 });
    assert_eq!(map.loaded_tile_at(TileCoords { x: 2, y: 1 }), Some(Tile::RockSmashed));
    let msg = me.move_towards_checked(Direction::Down, &mut map);
    assert_eq!(msg, Some(ToServer::MoveMyEntity { request_number: 1, direction: Direction::Down }));
    me.movement_request_sent();
    // The server confirms the first move and corrects the second.
    assert!(!me.received_movement_reconciliation(0, TileCoords { x: 2, y: 1 }));
    assert!(me.received_movement_reconciliation(1, TileCoords { x: 2, y: 1 }));
    assert_eq!(me.get_pos(), TileCoords { x: 2, y: 1 });
    // An unknown request number changes nothing.
    assert!(!me.received_movement_reconciliation(9, TileCoords { x: 7, y: 7 }));
    assert_eq!(me.get_pos(), TileCoords { x: 2, y: 1 });
}

#[test]
fn my_entity_blocked_move() {
    let mut map = map_with_origin_chunk();
    let mut me = MyEntity::new(entity_at(TileCoords { x: 1, y: 1 }), Id::new(1));
    assert_eq!(me.move_towards_checked(Direction::Up, &mut map), None);
    assert_eq!(me.get_pos(), TileCoords { x: 1, y: 1 });
    assert_eq!(me.move_towards_checked(Direction::Left, &mut map), Some(ToServer::MoveMyEntity { request_number: 0, direction: Direction::Left }));
    assert_eq!(me.move_towards_checked(Direction::Left, &mut map), None);
}

#[test]
fn my_entity_purchases() {
    let mut me = MyEntity::new(entity_at(TileCoords { x: 0, y: 0 }), Id::new(1));
    assert_eq!(me.purchase_bool_item(BoolItem::RunningShoes), None);
    me.obtained_gems(Gem::Emerald, 12);
    assert_eq!(me.purchase_bool_item(BoolItem::RunningShoes), Some(ToServer::PurchaseSingleItem(BoolItem::RunningShoes)));
    me.complete_bool_item_purchase(BoolItem::RunningShoes);
    assert!(me.get_inventory().has(BoolItem::RunningShoes));
    assert_eq!(me.get_gem_collection().get_quantity(Gem::Emerald), 2);
    me.obtained_gems(Gem::Emerald, 10);
    assert_eq!(me.purchase_bool_item(BoolItem::RunningShoes), None);
    me.obtained_gems(Gem::Ruby, 2);
    assert_eq!(me.purchase_quantitative_item(QuantitativeItem::Bomb, 3), None);
    assert_eq!(
        me.purchase_quantitative_item(QuantitativeItem::Bomb, 2),
        Some(ToServer::PurchaseItemQuantity { item: QuantitativeItem::Bomb, quantity: 2 })
    );
    me.complete_quantitative_item_purchase(QuantitativeItem::Bomb, 2);
    assert_eq!(me.get_inventory().has_how_many(QuantitativeItem::Bomb), 2);
    assert_eq!(me.get_gem_collection().get_quantity(Gem::Ruby), 0);
}

#[test]
fn my_entity_bombs() {
    let mut map = map_with_origin_chunk();
    let mut e = entity_at(TileCoords { x: 5, y: 5 });
    e.item_inventory.give_quantity(QuantitativeItem::Bomb, 1);
    let mut me = MyEntity::new(e, Id::new(3));
    assert_eq!(me.place_bomb(&mut map), Some(ToServer::PlaceBomb));
    me.bomb_placement_sent();
    assert_eq!(me.how_many_bombs_placed(), 1);
    assert_eq!(me.get_inventory().has_how_many(QuantitativeItem::Bomb), 0);
    assert_eq!(me.place_bomb(&mut map), None);
    let detonated = me.detonate_bombs(&mut map);
    assert_eq!(detonated, vec![TileCoords { x: 5, y: 5 }]);
    me.bombs_detonated(detonated.len() as i32);
    assert_eq!(me.how_many_bombs_placed(), 0);
    assert!(me.detonate_bombs(&mut map).is_empty());
    assert_eq!(me.get_contained_entity().pos, TileCoords { x: 5, y: 5 });
    assert_eq!(me.id(), Id::new(3));
}
