use gemgame::chunk::Chunk;
use gemgame::coords::{ChunkCoords, Direction, OffsetCoords, TileCoords, CHUNK_WIDTH};
use gemgame::generation::Generator;
use gemgame::handling::{message_acceptable, Session, MAX_LOADED_CHUNKS_PER_CLIENT};
use gemgame::id::generate_with_timestamp;
use gemgame::messages::{FromServer, Modification, ToServer};
use gemgame::server_map::ServerMap;
use gemgame::world::{
    BoolItem, ClothingColour, Entity, FacialExpression, Gem, GemCollection, HairColour, HairStyle, Id, Inventory,
    QuantitativeItem, SkinColour, Tile,
};

/// Produces all-grass chunks.
struct FlatGenerator;

impl Generator for FlatGenerator {
    fn new(_seed: u32) -> Self {
        FlatGenerator
    }

    fn generate(&self, _chunk_coords: ChunkCoords) -> Chunk {
        Chunk::new()
    }

    fn name(&self) -> &'static str {
        "flat"
    }
}

struct TestHandler {
    session: Session,
    map: ServerMap,
    broadcasts: Vec<Modification>,
    to_save: Vec<(ChunkCoords, Chunk)>,
}

fn make_test_handler() -> TestHandler {
    TestHandler { session: Session::new(), map: ServerMap::new(0), broadcasts: Vec::new(), to_save: Vec::new() }
}

fn test_entity(pos: TileCoords) -> Entity {
    Entity {
        pos,
        direction: Direction::Down,
        facial_expression: FacialExpression::Neutral,
        hair_style: HairStyle::Quiff,
        clothing_colour: ClothingColour::Grey,
        skin_colour: SkinColour::Black,
        hair_colour: HairColour::Black,
        has_running_shoes: false,
        gem_collection: GemCollection::new(),
        item_inventory: Inventory::new(),
        bombs_placed_count: 0,
    }
}

impl TestHandler {
    fn add_test_entity(&mut self, pos: TileCoords) -> Id {
        let entity_id = generate_with_timestamp(1_600_000_000_000);
        self.map.add_entity(entity_id, test_entity(pos));
        entity_id
    }

    fn add_empty_chunk(&mut self, coords: ChunkCoords) {
        self.add_chunk(coords, Chunk::new());
    }

    fn add_chunk(&mut self, coords: ChunkCoords, chunk: Chunk) {
        self.map.add_chunk(coords, chunk);
        self.map.chunk_in_use(coords);
        self.session.remote_loaded_chunk_coords.push(coords);
    }

    fn handle_message(&mut self, msg: ToServer, player_id: Id) -> Vec<FromServer> {
        self.session.handle_message(
            &mut self.map,
            &FlatGenerator,
            msg,
            player_id,
            &mut self.broadcasts,
            &mut self.to_save,
        )
    }
}

/// Ensure that no response is provided when an unexpected (i.e. sent after connection establishment) 'hello' message is
/// recevied.
#[test]
fn handling_handle_unexpected_hello_msg() {
    let mut handler = make_test_handler();
    let id = gemgame::id::generate_random();
    let msg = ToServer::Hello { client_id_option: None };
    assert!(handler.handle_message(msg, id).is_empty());
}

#[test]
fn tests_handle_unexpected_hello_msg() {
    let mut handler = make_test_handler();
    let id = gemgame::id::generate_random();
    let msg = ToServer::Hello { client_id_option: None };
    assert!(handler.handle_message(msg, id).is_empty());
    assert!(handler.broadcasts.is_empty());
}

/// Ensure that a 'move my entity' message causes the entity's position on the game map to be appropriately updated, a
/// response message is created, and that a message is announced to inform other connections of the change.
#[test]
fn tests_handle_move_my_entity() {
    let mut handler = make_test_handler();
    handler.add_empty_chunk(ChunkCoords { x: 0, y: 0 });
    let player_id = handler.add_test_entity(TileCoords { x: 5, y: 5 });

    let msg = ToServer::MoveMyEntity { request_number: 0, direction: Direction::Right };
    let responses = handler.handle_message(msg, player_id);

    assert_eq!(responses.len(), 1);
    assert!(matches!(
        responses[0],
        FromServer::YourEntityMoved { request_number: 0, new_position: TileCoords { x: 6, y: 5 } }
    ));
    assert_eq!(handler.map.entity_by_id(player_id).unwrap().pos, TileCoords { x: 6, y: 5 });
    assert_eq!(handler.broadcasts.len(), 1);
    assert!(matches!(
        handler.broadcasts[0],
        Modification::EntityMoved {
            entity_id,
            old_position: TileCoords { x: 5, y: 5 },
            new_position: TileCoords { x: 6, y: 5 },
            direction: _
        } if entity_id == player_id
    ));
}

#[test]
fn handling_handle_move_my_entity() {
    let mut handler = make_test_handler();
    handler.add_empty_chunk(ChunkCoords { x: 0, y: 0 });
    let player_id = handler.add_test_entity(TileCoords { x: 5, y: 5 });
    let msg = ToServer::MoveMyEntity { request_number: 0, direction: Direction::Right };
    let responses = handler.handle_message(msg, player_id);
    assert_eq!(responses.len(), 1);
    assert!(matches!(
        responses[0],
        FromServer::YourEntityMoved { request_number: 0, new_position: TileCoords { x: 6, y: 5 } }
    ));
    assert_eq!(handler.map.entity_by_id(player_id).unwrap().pos, TileCoords { x: 6, y: 5 });
}

/// Ensure that a 'move my entity' message that would fail due to a blocking tile or entity being in the way does not
/// modify the player entity's position and announces nothing, and that the client is told its unchanged position.
#[test]
fn tests_handle_move_my_entity_blocking() {
    let mut handler = make_test_handler();
    let mut chunk = Chunk::new();
    chunk.set_tile_at_offset(OffsetCoords { x: 0, y: 1 }, Tile::Rock);
    handler.add_chunk(ChunkCoords { x: 0, y: 0 }, chunk);

    let player_starting_coords = TileCoords { x: 0, y: 0 };
    let player_id = handler.add_test_entity(player_starting_coords);

    let msg = ToServer::MoveMyEntity { request_number: 0, direction: Direction::Down };
    let responses = handler.handle_message(msg, player_id);

    assert_eq!(responses.len(), 1);
    assert!(matches!(
        responses[0],
        FromServer::YourEntityMoved { request_number: 0, new_position } if new_position == player_starting_coords
    ));
    assert_eq!(handler.map.entity_by_id(player_id).unwrap().pos, player_starting_coords);
    assert!(handler.broadcasts.is_empty());
}

#[test]
fn handling_handle_move_my_entity_blocking() {
    let mut handler = make_test_handler();
    let mut chunk = Chunk::new();
    chunk.set_tile_at_offset(OffsetCoords { x: 0, y: 1 }, Tile::Water);
    handler.add_chunk(ChunkCoords { x: 0, y: 0 }, chunk);
    let player_id = handler.add_test_entity(TileCoords { x: 0, y: 0 });
    let msg = ToServer::MoveMyEntity { request_number: 3, direction: Direction::Up };
    let responses = handler.handle_message(msg, player_id);
    assert_eq!(responses.len(), 1);
    assert!(matches!(
        responses[0],
        FromServer::YourEntityMoved { request_number: 3, new_position: TileCoords { x: 0, y: 0 } }
    ));
    assert!(handler.broadcasts.is_empty());
}

/// Ensure an entity moved message is produced for the client when another entity moves within one of its loaded
/// chunks.
#[test]
fn handle_entity_moved_within_loaded_chunk() {
    let mut handler = make_test_handler();
    handler.add_empty_chunk(ChunkCoords { x: 0, y: 0 });
    let entity_id = handler.add_test_entity(TileCoords { x: 5, y: 5 });
    let modification = Modification::EntityMoved {
        entity_id,
        old_position: TileCoords { x: 5, y: 5 },
        new_position: TileCoords { x: 6, y: 5 },
        direction: Direction::Right,
    };
    assert!(matches!(
        handler.session.handle_map_change(&handler.map, modification).unwrap(),
        FromServer::MoveEntity(id, TileCoords { x: 6, y: 5 }, _) if id == entity_id
    ));
}

#[test]
fn handle_entity_moved_change_within_loaded_chunk() {
    let mut handler = make_test_handler();
    handler.add_empty_chunk(ChunkCoords { x: 0, y: 0 });
    let entity_id = handler.add_test_entity(TileCoords { x: 5, y: 5 });
    let modification = Modification::EntityMoved {
        entity_id,
        old_position: TileCoords { x: 5, y: 5 },
        new_position: TileCoords { x: 5, y: 6 },
        direction: Direction::Up,
    };
    assert!(matches!(
        handler.session.handle_map_change(&handler.map, modification).unwrap(),
        FromServer::MoveEntity(id, TileCoords { x: 5, y: 6 }, Direction::Up) if id == entity_id
    ));
}

/// Ensure a provide entity message is produced when an entity moves into one of the client's loaded chunks.
#[test]
fn handle_entity_moved_into_loaded_chunk() {
    let mut handler = make_test_handler();
    handler.add_empty_chunk(ChunkCoords { x: 0, y: 0 });
    let entity_id = handler.add_test_entity(TileCoords { x: CHUNK_WIDTH, y: 5 });
    let modification = Modification::EntityMoved {
        entity_id,
        old_position: TileCoords { x: CHUNK_WIDTH, y: 5 },
        new_position: TileCoords { x: CHUNK_WIDTH - 1, y: 5 },
        direction: Direction::Left,
    };
    assert!(matches!(
        handler.session.handle_map_change(&handler.map, modification).unwrap(),
        FromServer::ProvideEntity(id, _) if id == entity_id
    ));
}

#[test]
fn handle_entity_moved_change_into_loaded_chunk() {
    let mut handler = make_test_handler();
    handler.add_empty_chunk(ChunkCoords { x: 0, y: 0 });
    let entity_id = handler.add_test_entity(TileCoords { x: 3, y: -1 });
    let modification = Modification::EntityMoved {
        entity_id,
        old_position: TileCoords { x: 3, y: -1 },
        new_position: TileCoords { x: 3, y: 0 },
        direction: Direction::Up,
    };
    assert!(matches!(
        handler.session.handle_map_change(&handler.map, modification).unwrap(),
        FromServer::ProvideEntity(id, e) if id == entity_id && e.pos == TileCoords { x: 3, y: -1 }
    ));
}

/// Ensure an unload entity message is produced when an entity moves out of the client's loaded chunks.
#[test]
fn handle_entity_moved_leaving_loaded_chunk() {
    let mut handler = make_test_handler();
    handler.add_empty_chunk(ChunkCoords { x: 0, y: 0 });
    let entity_id = handler.add_test_entity(TileCoords { x: 0, y: 5 });
    let modification = Modification::EntityMoved {
        entity_id,
        old_position: TileCoords { x: 0, y: 5 },
        new_position: TileCoords { x: -1, y: 5 },
        direction: Direction::Left,
    };
    assert!(matches!(
        handler.session.handle_map_change(&handler.map, modification).unwrap(),
        FromServer::ShouldUnloadEntity(id) if id == entity_id
    ));
}

#[test]
fn handle_entity_moved_change_leaving_loaded_chunk() {
    let mut handler = make_test_handler();
    handler.add_empty_chunk(ChunkCoords { x: 0, y: 0 });
    let entity_id = handler.add_test_entity(TileCoords { x: 15, y: 15 });
    let modification = Modification::EntityMoved {
        entity_id,
        old_position: TileCoords { x: 15, y: 15 },
        new_position: TileCoords { x: 15, y: 16 },
        direction: Direction::Up,
    };
    assert!(matches!(
        handler.session.handle_map_change(&handler.map, modification).unwrap(),
        FromServer::ShouldUnloadEntity(id) if id == entity_id
    ));
}

/// Ensure that no message is produced when an entity moves entirely outside of the client's loaded chunks.
#[test]
fn handle_entity_moved_outside_loaded_chunk() {
    let mut handler = make_test_handler();
    let entity_id = handler.add_test_entity(TileCoords { x: 12, y: 13 });
    let modification = Modification::EntityMoved {
        entity_id,
        old_position: TileCoords { x: 12, y: 13 },
        new_position: TileCoords { x: 13, y: 13 },
        direction: Direction::Left,
    };
    assert!(handler.session.handle_map_change(&handler.map, modification).is_none());
}

#[test]
fn handle_entity_moved_change_outside_loaded_chunk() {
    let mut handler = make_test_handler();
    let entity_id = handler.add_test_entity(TileCoords { x: 12, y: 13 });
    let modification = Modification::EntityMoved {
        entity_id,
        old_position: TileCoords { x: 12, y: 13 },
        new_position: TileCoords { x: 13, y: 13 },
        direction: Direction::Left,
    };
    assert!(handler.session.handle_map_change(&handler.map, modification).is_none());
}

/// Ensure a provide entity message is produced when a new entity is added within the client's loaded chunks.
#[test]
fn handle_entity_added_within_loaded_chunks() {
    let mut handler = make_test_handler();
    handler.add_empty_chunk(ChunkCoords { x: 0, y: 0 });
    let entity_id = handler.add_test_entity(TileCoords { x: 5, y: 5 });
    let modification = Modification::EntityAdded(entity_id);
    assert!(matches!(
        handler.session.handle_map_change(&handler.map, modification).unwrap(),
        FromServer::ProvideEntity(id, _) if id == entity_id
    ));
}

#[test]
fn handle_entity_added_change_in_my_loaded_chunks() {
    let mut handler = make_test_handler();
    handler.add_empty_chunk(ChunkCoords { x: 0, y: 0 });
    let inside = handler.add_test_entity(TileCoords { x: 1, y: 1 });
    let outside = handler.add_test_entity(TileCoords { x: 100, y: 1 });
    assert!(handler.session.handle_map_change(&handler.map, Modification::EntityAdded(inside)).is_some());
    assert!(handler.session.handle_map_change(&handler.map, Modification::EntityAdded(outside)).is_none());
}

/// Ensure an unload entity message is produced when an entity is removed within the client's loaded chunks.
#[test]
fn handle_entity_removed_within_loaded_chunks() {
    let mut handler = make_test_handler();
    handler.add_empty_chunk(ChunkCoords { x: 0, y: 0 });
    let entity_id = handler.add_test_entity(TileCoords { x: 5, y: 5 });
    let modification = Modification::EntityRemoved(entity_id, ChunkCoords { x: 0, y: 0 });
    assert!(matches!(
        handler.session.handle_map_change(&handler.map, modification).unwrap(),
        FromServer::ShouldUnloadEntity(id) if id == entity_id
    ));
}

#[test]
fn handle_entity_removed_change_in_my_loaded_chunks() {
    let mut handler = make_test_handler();
    handler.add_empty_chunk(ChunkCoords { x: 0, y: 0 });
    let entity_id = handler.add_test_entity(TileCoords { x: 5, y: 5 });
    let elsewhere = Modification::EntityRemoved(entity_id, ChunkCoords { x: 1, y: 0 });
    assert!(handler.session.handle_map_change(&handler.map, elsewhere).is_none());
}

/// Another entity smashing a rock within the client's loaded chunks: the client hears of the movement (and infers the
/// smashed tile itself).
#[test]
fn handle_smashed_rock_within_loaded_chunks() {
    let mut handler = make_test_handler();
    let mut chunk = Chunk::new();
    chunk.set_tile_at_offset(OffsetCoords { x: 6, y: 5 }, Tile::Rock);
    handler.add_chunk(ChunkCoords { x: 0, y: 0 }, chunk);
    let mover = handler.add_test_entity(TileCoords { x: 5, y: 5 });
    let mut other = Session::new();
    other.remote_loaded_chunk_coords.push(ChunkCoords { x: 0, y: 0 });
    let msg = ToServer::MoveMyEntity { request_number: 0, direction: Direction::Right };
    handler.handle_message(msg, mover);
    assert_eq!(handler.map.loaded_tile_at(TileCoords { x: 6, y: 5 }), Some(Tile::RockSmashed));
    assert!(matches!(
        other.handle_map_change(&handler.map, handler.broadcasts[0]).unwrap(),
        FromServer::MoveEntity(id, TileCoords { x: 6, y: 5 }, Direction::Right) if id == mover
    ));
}

#[test]
fn handle_smashed_rock_outside_loaded_chunks() {
    let mut handler = make_test_handler();
    let mut chunk = Chunk::new();
    chunk.set_tile_at_offset(OffsetCoords { x: 6, y: 5 }, Tile::Rock);
    handler.add_chunk(ChunkCoords { x: 0, y: 0 }, chunk);
    let mover = handler.add_test_entity(TileCoords { x: 5, y: 5 });
    let mut other = Session::new();
    other.remote_loaded_chunk_coords.push(ChunkCoords { x: 5, y: 5 });
    handler.handle_message(ToServer::MoveMyEntity { request_number: 0, direction: Direction::Right }, mover);
    assert!(other.handle_map_change(&handler.map, handler.broadcasts[0]).is_none());
}

#[test]
fn smashing_a_gem_rock_collects_gems() {
    let mut handler = make_test_handler();
    let mut chunk = Chunk::new();
    chunk.set_tile_at_offset(OffsetCoords { x: 6, y: 5 }, Tile::RockEmerald);
    handler.add_chunk(ChunkCoords { x: 0, y: 0 }, chunk);
    let player = handler.add_test_entity(TileCoords { x: 5, y: 5 });
    let responses = handler.handle_message(ToServer::MoveMyEntity { request_number: 7, direction: Direction::Right }, player);
    assert_eq!(responses.len(), 2);
    assert!(matches!(responses[0], FromServer::YourEntityMoved { request_number: 7, new_position: TileCoords { x: 6, y: 5 } }));
    match responses[1] {
        FromServer::YouCollectedGems { gem_type, quantity_increase } => {
            assert_eq!(gem_type, Gem::Emerald);
            assert!((1..=3).contains(&quantity_increase));
            assert_eq!(handler.map.entity_by_id(player).unwrap().gem_collection.get_quantity(Gem::Emerald), quantity_increase);
        }
        _ => panic!("expected collected gems"),
    }
    assert_eq!(handler.map.loaded_tile_at(TileCoords { x: 6, y: 5 }), Some(Tile::RockSmashed));
}

#[test]
fn moving_into_a_new_chunk_provides_the_chunks_around_it() {
    let mut handler = make_test_handler();
    handler.add_empty_chunk(ChunkCoords { x: 0, y: 0 });
    handler.add_empty_chunk(ChunkCoords { x: 1, y: 0 });
    let player = handler.add_test_entity(TileCoords { x: 15, y: 5 });
    let responses = handler.handle_message(ToServer::MoveMyEntity { request_number: 1, direction: Direction::Right }, player);
    let provided: Vec<ChunkCoords> = responses
        .iter()
        .filter_map(|m| match m {
            FromServer::ProvideChunk(c, _) => Some(*c),
            _ => None,
        })
        .collect();
    // Chunks (0, 0) and (1, 0) were already loaded; the other seven around (1, 0) are new.
    assert_eq!(provided.len(), 7);
    assert!(!provided.contains(&ChunkCoords { x: 1, y: 0 }));
    assert!(!provided.contains(&ChunkCoords { x: 0, y: 0 }));
    assert!(matches!(responses.last().unwrap(), FromServer::YourEntityMoved { request_number: 1, new_position: TileCoords { x: 16, y: 5 } }));
    for dx in 0..3 {
        for dy in -1..2 {
            assert!(handler.session.has_loaded(ChunkCoords { x: dx, y: dy }));
        }
    }
    assert_eq!(handler.session.remote_loaded_chunk_coords.len(), 9);
    assert_eq!(*handler.session.remote_loaded_chunk_coords.last().unwrap(), ChunkCoords { x: 2, y: 1 });
}

#[test]
fn too_many_loaded_chunks_evicts_the_oldest() {
    let mut handler = make_test_handler();
    let player = handler.add_test_entity(TileCoords { x: 0, y: 0 });
    for x in 0..(MAX_LOADED_CHUNKS_PER_CLIENT as i32) {
        handler.add_empty_chunk(ChunkCoords { x: 100 + x, y: 0 });
    }
    let msgs = handler.session.provide_chunk_with_entities(
        &mut handler.map,
        &FlatGenerator,
        ChunkCoords { x: 0, y: 0 },
        player,
        &mut handler.to_save,
    );
    assert_eq!(msgs.len(), 2);
    assert!(matches!(msgs[0], FromServer::ProvideChunk(ChunkCoords { x: 0, y: 0 }, _)));
    assert!(matches!(msgs[1], FromServer::ShouldUnloadChunk(ChunkCoords { x: 100, y: 0 })));
    assert_eq!(handler.session.remote_loaded_chunk_coords.len(), MAX_LOADED_CHUNKS_PER_CLIENT);
    assert!(!handler.session.has_loaded(ChunkCoords { x: 100, y: 0 }));
    // The evicted chunk had no other user, so it left the map and is to be saved.
    assert!(!handler.map.is_chunk_loaded(ChunkCoords { x: 100, y: 0 }));
    assert_eq!(handler.to_save.len(), 1);
    assert_eq!(handler.to_save[0].0, ChunkCoords { x: 100, y: 0 });
}

#[test]
fn providing_a_loaded_chunk_makes_it_most_recent() {
    let mut handler = make_test_handler();
    let player = handler.add_test_entity(TileCoords { x: 0, y: 0 });
    handler.add_empty_chunk(ChunkCoords { x: 0, y: 0 });
    handler.add_empty_chunk(ChunkCoords { x: 1, y: 0 });
    let msgs = handler.session.provide_chunk_with_entities(
        &mut handler.map,
        &FlatGenerator,
        ChunkCoords { x: 0, y: 0 },
        player,
        &mut handler.to_save,
    );
    assert!(msgs.is_empty());
    assert_eq!(handler.session.remote_loaded_chunk_coords, vec![ChunkCoords { x: 1, y: 0 }, ChunkCoords { x: 0, y: 0 }]);
}

#[test]
fn provided_chunk_comes_with_other_entities_but_not_own() {
    let mut handler = make_test_handler();
    handler.map.add_chunk(ChunkCoords { x: 0, y: 0 }, Chunk::new());
    let player = handler.add_test_entity(TileCoords { x: 1, y: 1 });
    let other = handler.add_test_entity(TileCoords { x: 2, y: 2 });
    let msgs = handler.session.provide_chunk_with_entities(
        &mut handler.map,
        &FlatGenerator,
        ChunkCoords { x: 0, y: 0 },
        player,
        &mut handler.to_save,
    );
    assert_eq!(msgs.len(), 2);
    assert!(matches!(msgs[0], FromServer::ProvideChunk(ChunkCoords { x: 0, y: 0 }, _)));
    assert!(matches!(msgs[1], FromServer::ProvideEntity(id, _) if id == other));
}

#[test]
fn place_bomb_needs_a_bomb() {
    let mut handler = make_test_handler();
    handler.add_empty_chunk(ChunkCoords { x: 0, y: 0 });
    let player = handler.add_test_entity(TileCoords { x: 4, y: 4 });
    assert!(handler.handle_message(ToServer::PlaceBomb, player).is_empty());
    assert!(handler.broadcasts.is_empty());
    let mut entity = *handler.map.entity_by_id(player).unwrap();
    entity.item_inventory.give_quantity(QuantitativeItem::Bomb, 2);
    handler.map.update_entity(player, entity);
    assert!(handler.handle_message(ToServer::PlaceBomb, player).is_empty());
    assert!(matches!(handler.broadcasts[0], Modification::BombPlaced(TileCoords { x: 4, y: 4 }, id) if id == player));
    assert_eq!(handler.map.entity_by_id(player).unwrap().item_inventory.has_how_many(QuantitativeItem::Bomb), 1);
    let chunk = handler.map.loaded_chunk_at(ChunkCoords { x: 0, y: 0 }).unwrap();
    assert_eq!(chunk.get_undetonated_bomb_positions(), vec![TileCoords { x: 4, y: 4 }]);
}

#[test]
fn detonate_bombs_removes_own_bombs_around() {
    let mut handler = make_test_handler();
    handler.add_empty_chunk(ChunkCoords { x: 0, y: 0 });
    handler.add_empty_chunk(ChunkCoords { x: 1, y: 1 });
    let player = handler.add_test_entity(TileCoords { x: 4, y: 4 });
    let other = Id::new(99);
    handler.map.set_bomb_at(TileCoords { x: 1, y: 1 }, player);
    handler.map.set_bomb_at(TileCoords { x: 2, y: 1 }, other);
    handler.map.set_bomb_at(TileCoords { x: 20, y: 20 }, player);
    assert!(handler.handle_message(ToServer::DetonateBombs, player).is_empty());
    assert!(matches!(handler.broadcasts[0], Modification::BombsDetonated(id) if id == player));
    let chunk = handler.map.loaded_chunk_at(ChunkCoords { x: 0, y: 0 }).unwrap();
    assert_eq!(chunk.get_undetonated_bomb_positions(), vec![TileCoords { x: 2, y: 1 }]);
    assert!(handler.map.loaded_chunk_at(ChunkCoords { x: 1, y: 1 }).unwrap().get_undetonated_bomb_positions().is_empty());
}

#[test]
fn purchases_take_gems_and_give_items() {
    let mut handler = make_test_handler();
    handler.add_empty_chunk(ChunkCoords { x: 0, y: 0 });
    let player = handler.add_test_entity(TileCoords { x: 4, y: 4 });
    // Not enough gems: nothing happens.
    handler.handle_message(ToServer::PurchaseSingleItem(BoolItem::RunningShoes), player);
    assert!(!handler.map.entity_by_id(player).unwrap().item_inventory.has(BoolItem::RunningShoes));
    let mut entity = *handler.map.entity_by_id(player).unwrap();
    entity.gem_collection.increase_quantity(Gem::Emerald, 15);
    entity.gem_collection.increase_quantity(Gem::Ruby, 5);
    handler.map.update_entity(player, entity);
    handler.handle_message(ToServer::PurchaseSingleItem(BoolItem::RunningShoes), player);
    let e = *handler.map.entity_by_id(player).unwrap();
    assert!(e.item_inventory.has(BoolItem::RunningShoes));
    assert_eq!(e.gem_collection.get_quantity(Gem::Emerald), 5);
    handler.handle_message(ToServer::PurchaseItemQuantity { item: QuantitativeItem::Bomb, quantity: 3 }, player);
    let e = *handler.map.entity_by_id(player).unwrap();
    assert_eq!(e.item_inventory.has_how_many(QuantitativeItem::Bomb), 3);
    assert_eq!(e.gem_collection.get_quantity(Gem::Ruby), 2);
    // Three more bombs cost three rubies but only two are left.
    handler.handle_message(ToServer::PurchaseItemQuantity { item: QuantitativeItem::Bomb, quantity: 3 }, player);
    assert_eq!(handler.map.entity_by_id(player).unwrap().item_inventory.has_how_many(QuantitativeItem::Bomb), 3);
}

#[test]
fn entering_and_leaving_the_map() {
    let mut handler = make_test_handler();
    let player = Id::new(5);
    let msgs = handler.session.enter_map(
        &mut handler.map,
        &FlatGenerator,
        player,
        test_entity(TileCoords { x: 0, y: 0 }),
        &mut handler.broadcasts,
        &mut handler.to_save,
    );
    let provided = msgs.iter().filter(|m| matches!(m, FromServer::ProvideChunk(_, _))).count();
    assert_eq!(provided, 9);
    assert!(matches!(handler.broadcasts[0], Modification::EntityAdded(id) if id == player));
    assert!(handler.map.is_blocking_entity_at(TileCoords { x: 0, y: 0 }));
    let removed = handler.session.leave_map(&mut handler.map, player, &mut handler.broadcasts, &mut handler.to_save);
    assert_eq!(removed.unwrap().pos, TileCoords { x: 0, y: 0 });
    assert!(matches!(handler.broadcasts[1], Modification::EntityRemoved(id, ChunkCoords { x: 0, y: 0 }) if id == player));
    // No other client used the chunks, so all nine were unloaded for saving.
    assert_eq!(handler.to_save.len(), 9);
    assert!(!handler.map.is_chunk_loaded(ChunkCoords { x: 0, y: 0 }));
}

#[test]
fn bomb_placed_and_detonated_changes_are_passed_on() {
    let mut handler = make_test_handler();
    handler.add_empty_chunk(ChunkCoords { x: 0, y: 0 });
    let placer = handler.add_test_entity(TileCoords { x: 3, y: 3 });
    let placed = Modification::BombPlaced(TileCoords { x: 3, y: 3 }, placer);
    assert!(matches!(
        handler.session.handle_map_change(&handler.map, placed).unwrap(),
        FromServer::BombPlaced { placed_by_entity_id, position: TileCoords { x: 3, y: 3 } } if placed_by_entity_id == placer
    ));
    let elsewhere = Modification::BombPlaced(TileCoords { x: 30, y: 3 }, placer);
    assert!(handler.session.handle_map_change(&handler.map, elsewhere).is_none());
    assert!(matches!(
        handler.session.handle_map_change(&handler.map, Modification::BombsDetonated(placer)).unwrap(),
        FromServer::BombsDetonated { in_and_around_chunk_coords: ChunkCoords { x: 0, y: 0 }, .. }
    ));
    assert!(handler.session.handle_map_change(&handler.map, Modification::BombsDetonated(Id::new(1))).is_none());
    let changed = Modification::TileChanged(TileCoords { x: 2, y: 2 }, Tile::Dirt);
    assert!(matches!(
        handler.session.handle_map_change(&handler.map, changed).unwrap(),
        FromServer::ChangeTile(TileCoords { x: 2, y: 2 }, Tile::Dirt)
    ));
}

#[test]
fn move_request_acceptable_on_the_map() {
    let mut handler = make_test_handler();
    handler.add_empty_chunk(ChunkCoords { x: 0, y: 0 });
    let id = handler.add_test_entity(TileCoords { x: 0, y: 0 });
    let msg = ToServer::MoveMyEntity { request_number: 0, direction: Direction::Up };
    assert!(message_acceptable(&handler.map, id, msg));
}

#[test]
fn move_request_of_unknown_player_not_acceptable() {
    let handler = make_test_handler();
    let msg = ToServer::MoveMyEntity { request_number: 0, direction: Direction::Up };
    assert!(!message_acceptable(&handler.map, Id::new(7), msg));
}

#[test]
fn move_request_past_coordinate_range_not_acceptable() {
    let mut handler = make_test_handler();
    let id = handler.add_test_entity(TileCoords { x: i32::MAX, y: 0 });
    let right = ToServer::MoveMyEntity { request_number: 0, direction: Direction::Right };
    let left = ToServer::MoveMyEntity { request_number: 0, direction: Direction::Left };
    assert!(!message_acceptable(&handler.map, id, right));
    assert!(message_acceptable(&handler.map, id, left));
}

#[test]
fn move_request_onto_gem_rock_with_full_gem_count_not_acceptable() {
    let mut handler = make_test_handler();
    let mut chunk = Chunk::new();
    chunk.set_tile_at_offset(OffsetCoords { x: 0, y: 1 }, Tile::RockEmerald);
    handler.add_chunk(ChunkCoords { x: 0, y: 0 }, chunk);
    let id = handler.add_test_entity(TileCoords { x: 0, y: 0 });
    let mut entity = test_entity(TileCoords { x: 0, y: 0 });
    entity.gem_collection.emerald = u32::MAX - 2;
    handler.map.update_entity(id, entity);
    let up = ToServer::MoveMyEntity { request_number: 0, direction: Direction::Up };
    assert!(!message_acceptable(&handler.map, id, up));
    entity.gem_collection.emerald = u32::MAX - 3;
    handler.map.update_entity(id, entity);
    assert!(message_acceptable(&handler.map, id, up));
}

#[test]
fn purchase_of_overflowing_quantity_not_acceptable() {
    let mut handler = make_test_handler();
    let id = handler.add_test_entity(TileCoords { x: 0, y: 0 });
    let fine = ToServer::PurchaseItemQuantity { item: QuantitativeItem::Bomb, quantity: 5 };
    assert!(message_acceptable(&handler.map, id, fine));
    let mut entity = test_entity(TileCoords { x: 0, y: 0 });
    entity.gem_collection.ruby = 10;
    entity.item_inventory.bombs = u32::MAX - 5;
    handler.map.update_entity(id, entity);
    assert!(message_acceptable(&handler.map, id, fine));
    let too_many = ToServer::PurchaseItemQuantity { item: QuantitativeItem::Bomb, quantity: 6 };
    assert!(!message_acceptable(&handler.map, id, too_many));
    assert!(message_acceptable(&handler.map, id, ToServer::PlaceBomb));
}

#[test]
fn usage_room_of_fresh_map() {
    let mut handler = make_test_handler();
    assert!(handler.map.usage_has_room_for(9));
    handler.add_empty_chunk(ChunkCoords { x: 0, y: 0 });
    assert!(handler.map.usage_has_room_for(9));
    assert!(!handler.map.usage_has_room_for(usize::MAX));
}

#[test]
fn stored_chunk_is_loaded_before_generating() {
    let mut map = ServerMap::new(0);
    let mut stored = Chunk::new();
    stored.set_tile_at_offset(OffsetCoords { x: 5, y: 6 }, Tile::RockDiamond);
    map.store_chunk(ChunkCoords { x: 2, y: 3 }, stored);
    let loaded = gemgame::server_map::get_or_load_or_generate_chunk(&mut map, &FlatGenerator, ChunkCoords { x: 2, y: 3 });
    assert_eq!(loaded.tile_at_offset(OffsetCoords { x: 5, y: 6 }), Tile::RockDiamond);
    assert!(map.is_chunk_loaded(ChunkCoords { x: 2, y: 3 }));
    assert_eq!(map.loaded_tile_at(TileCoords { x: 37, y: 54 }), Some(Tile::RockDiamond));
    let generated = gemgame::server_map::get_or_load_or_generate_chunk(&mut map, &FlatGenerator, ChunkCoords { x: 0, y: 0 });
    assert_eq!(generated.tile_at_offset(OffsetCoords { x: 5, y: 6 }), Tile::Grass);
    assert!(map.stored_chunk_at(ChunkCoords { x: 2, y: 3 }).is_some());
    assert!(map.stored_chunk_at(ChunkCoords { x: 0, y: 0 }).is_none());
}
