use gemgame::chunk::Chunk;
use gemgame::client_game::{answer_first_message, handle_message_from_server, DrawUpdate, WelcomeOutcome};
use gemgame::client_map::ClientMap;
use gemgame::coords::{ChunkCoords, Direction, OffsetCoords, TileCoords};
use gemgame::messages::FromServer;
use gemgame::my_entity::MyEntity;
use gemgame::world::{
    ClothingColour, Entity, FacialExpression, Gem, GemCollection, HairColour, HairStyle, Id, Inventory, SkinColour,
    Tile,
};

fn entity_at(pos: TileCoords) -> Entity {
    Entity {
        pos,
        direction: Direction::Down,
        facial_expression: FacialExpression::Neutral,
        hair_style: HairStyle::Mohawk,
        clothing_colour: ClothingColour::Red,
        skin_colour: SkinColour::Brown,
        hair_colour: HairColour::Blonde,
        has_running_shoes: false,
        gem_collection: GemCollection::new(),
        item_inventory: Inventory::new(),
        bombs_placed_count: 0,
    }
}

fn rocky_chunk() -> Chunk {
    let mut chunk = Chunk::new();
    chunk.set_tile_at_offset(OffsetCoords { x: 4, y: 4 }, Tile::RockRuby);
    chunk
}

#[test]
fn provided_chunk_and_tile_change_are_applied() {
    let mut map = ClientMap::new();
    let mut me = MyEntity::new(entity_at(TileCoords { x: 0, y: 0 }), Id::new(1));
    let updates = handle_message_from_server(&mut map, &mut me, FromServer::ProvideChunk(ChunkCoords { x: 0, y: 0 }, rocky_chunk()));
    assert!(updates.is_empty());
    assert_eq!(map.loaded_tile_at(TileCoords { x: 4, y: 4 }), Some(Tile::RockRuby));
    handle_message_from_server(&mut map, &mut me, FromServer::ChangeTile(TileCoords { x: 4, y: 4 }, Tile::Dirt));
    assert_eq!(map.loaded_tile_at(TileCoords { x: 4, y: 4 }), Some(Tile::Dirt));
    handle_message_from_server(&mut map, &mut me, FromServer::ChangeTile(TileCoords { x: 40, y: 4 }, Tile::Dirt));
    assert_eq!(map.loaded_tile_at(TileCoords { x: 40, y: 4 }), None);
    handle_message_from_server(&mut map, &mut me, FromServer::ShouldUnloadChunk(ChunkCoords { x: 0, y: 0 }));
    assert!(!map.is_tile_loaded(TileCoords { x: 4, y: 4 }));
}

#[test]
fn remote_entity_arrives_moves_smashes_and_leaves() {
    let mut map = ClientMap::new();
    let mut me = MyEntity::new(entity_at(TileCoords { x: 0, y: 0 }), Id::new(1));
    handle_message_from_server(&mut map, &mut me, FromServer::ProvideChunk(ChunkCoords { x: 0, y: 0 }, rocky_chunk()));
    let other = Id::new(2);
    let updates =
        handle_message_from_server(&mut map, &mut me, FromServer::ProvideEntity(other, entity_at(TileCoords { x: 4, y: 3 })));
    assert_eq!(updates, vec![DrawUpdate::RemoteEntityAdded(other, TileCoords { x: 4, y: 3 })]);
    let updates =
        handle_message_from_server(&mut map, &mut me, FromServer::MoveEntity(other, TileCoords { x: 4, y: 4 }, Direction::Up));
    assert_eq!(
        updates,
        vec![
            DrawUpdate::RemoteEntityMoved(other, TileCoords { x: 4, y: 4 }, Some(Tile::RockRuby)),
            DrawUpdate::RockSmashed(TileCoords { x: 4, y: 4 }),
        ]
    );
    assert_eq!(map.loaded_tile_at(TileCoords { x: 4, y: 4 }), Some(Tile::RockSmashed));
    assert_eq!(map.entity_by_id(other).unwrap().pos, TileCoords { x: 4, y: 4 });
    assert_eq!(map.entity_by_id(other).unwrap().direction, Direction::Up);
    let updates = handle_message_from_server(&mut map, &mut me, FromServer::ShouldUnloadEntity(other));
    assert_eq!(updates, vec![DrawUpdate::RemoteEntityRemoved(other)]);
    assert!(map.entity_by_id(other).is_none());
    let updates =
        handle_message_from_server(&mut map, &mut me, FromServer::MoveEntity(other, TileCoords { x: 5, y: 4 }, Direction::Right));
    assert!(updates.is_empty());
}

#[test]
fn movement_answer_corrects_prediction() {
    let mut map = ClientMap::new();
    handle_message_from_server(
        &mut map,
        &mut MyEntity::new(entity_at(TileCoords { x: 0, y: 0 }), Id::new(9)),
        FromServer::ProvideChunk(ChunkCoords { x: 0, y: 0 }, Chunk::new()),
    );
    let mut me = MyEntity::new(entity_at(TileCoords { x: 0, y: 0 }), Id::new(1));
    let request = me.move_towards_checked(Direction::Up, &mut map);
    assert!(request.is_some());
    me.movement_request_sent();
    let updates = handle_message_from_server(
        &mut map,
        &mut me,
        FromServer::YourEntityMoved { request_number: 0, new_position: TileCoords { x: 0, y: 1 } },
    );
    assert!(updates.is_empty());
    assert_eq!(me.get_pos(), TileCoords { x: 0, y: 1 });
    me.move_towards_checked(Direction::Right, &mut map);
    me.movement_request_sent();
    let updates = handle_message_from_server(
        &mut map,
        &mut me,
        FromServer::YourEntityMoved { request_number: 1, new_position: TileCoords { x: 0, y: 1 } },
    );
    assert_eq!(updates, vec![DrawUpdate::MyEntityCorrected(TileCoords { x: 0, y: 1 })]);
    assert_eq!(me.get_pos(), TileCoords { x: 0, y: 1 });
}

#[test]
fn collected_gems_and_bombs_are_recorded() {
    let mut map = ClientMap::new();
    let mut me = MyEntity::new(entity_at(TileCoords { x: 0, y: 0 }), Id::new(1));
    handle_message_from_server(&mut map, &mut me, FromServer::ProvideChunk(ChunkCoords { x: 0, y: 0 }, Chunk::new()));
    handle_message_from_server(&mut map, &mut me, FromServer::YouCollectedGems { gem_type: Gem::Diamond, quantity_increase: 3 });
    assert_eq!(me.get_gem_collection().get_quantity(Gem::Diamond), 3);
    handle_message_from_server(
        &mut map,
        &mut me,
        FromServer::BombPlaced { placed_by_entity_id: Id::new(5), position: TileCoords { x: 2, y: 2 } },
    );
    let chunk = map.loaded_chunk_at(ChunkCoords { x: 0, y: 0 }).unwrap();
    assert_eq!(chunk.get_undetonated_bomb_positions(), vec![TileCoords { x: 2, y: 2 }]);
}

#[test]
fn welcome_of_same_version_enters_game() {
    let entity = entity_at(TileCoords { x: 7, y: -2 });
    let msg = FromServer::Welcome {
        version: "1.2.0".to_string(),
        your_client_id: Id::new(44),
        your_entity_with_id: (Id::new(45), entity),
    };
    match answer_first_message(&"1.2.0".to_string(), msg) {
        WelcomeOutcome::EnterGame { client_id, my_entity } => {
            assert_eq!(client_id, Id::new(44));
            assert_eq!(my_entity.id(), Id::new(45));
            assert_eq!(*my_entity.get_contained_entity(), entity);
        }
        _ => panic!("expected to enter the game"),
    }
}

#[test]
fn welcome_of_other_version_is_refused() {
    let msg = FromServer::Welcome {
        version: "1.3.0".to_string(),
        your_client_id: Id::new(44),
        your_entity_with_id: (Id::new(45), entity_at(TileCoords { x: 0, y: 0 })),
    };
    assert!(matches!(answer_first_message(&"1.2.0".to_string(), msg), WelcomeOutcome::WrongVersion));
}

#[test]
fn other_first_message_is_unexpected() {
    let msg = FromServer::ShouldUnloadEntity(Id::new(3));
    assert!(matches!(answer_first_message(&"1.2.0".to_string(), msg), WelcomeOutcome::Unexpected));
}
