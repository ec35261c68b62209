use vstd::prelude::*;
use crate::client_map::{chunks_after_arrival, ClientMap};
use crate::coords::{chunk_key, TileCoords};
use crate::loaded_chunks::{chunks_with_bomb, chunks_with_tile, loaded_tile_in};
use crate::messages::FromServer;
use crate::my_entity::MyEntity;
use crate::world::{Entity, Id, Tile};

verus! {

/// A change that the drawing of the map has to follow.
#[derive(Clone, Copy, Debug, PartialEq, Eq, Structural)]
pub enum DrawUpdate {
    /// Another entity appeared at a position.
    RemoteEntityAdded(Id, TileCoords),
    /// Another entity disappeared.
    RemoteEntityRemoved(Id),
    /// Another entity moved to a position, onto the given tile (as it was before the entity
    /// arrived; none where the chunk is not loaded).
    RemoteEntityMoved(Id, TileCoords, Option<Tile>),
    /// The rock at a position was smashed.
    RockSmashed(TileCoords),
    /// The server put this client's entity at a position other than the predicted one.
    MyEntityCorrected(TileCoords),
}

/// What the client does with the first message that the server sends on a new connection.
pub enum WelcomeOutcome {
    /// Enter the game: store the client ID and control the given entity.
    EnterGame { client_id: Id, my_entity: MyEntity },
    /// The server runs another version of the game.
    WrongVersion,
    /// The server sent something other than a welcome.
    Unexpected,
}

/// Decides on the first message from the server, for a client of version `client_version`:
/// a welcome from a server of the same version lets the client enter the game controlling the
/// entity it was given (with no movement requested yet); a welcome from another version and
/// any other message do not.
pub fn answer_first_message(client_version: &String, msg: FromServer) -> (o: WelcomeOutcome)
    ensures
        match msg {
            FromServer::Welcome { version, your_client_id, your_entity_with_id } => if version@ == client_version@ {
                &&& o matches WelcomeOutcome::EnterGame { client_id, my_entity }
                &&& client_id == your_client_id
                &&& my_entity.wf()
                &&& my_entity.spec_id() == your_entity_with_id.0
                &&& my_entity.entity() == your_entity_with_id.1
                &&& my_entity.spec_next_request_number() == 0
                &&& my_entity.unverified() == Map::<u32, TileCoords>::empty()
            } else {
                o is WrongVersion
            },
            _ => o is Unexpected,
        },
{
    match msg {
        FromServer::Welcome { version, your_client_id, your_entity_with_id } => {
            if version == *client_version {
                let (entity_id, entity) = your_entity_with_id;
                WelcomeOutcome::EnterGame { client_id: your_client_id, my_entity: MyEntity::new(entity, entity_id) }
            } else {
                WelcomeOutcome::WrongVersion
            }
        },
        _ => WelcomeOutcome::Unexpected,
    }
}

/// Whether the client can handle the message from the server once the game is running: the
/// welcome belongs to the connection's start, and the client has no handling for detonations
/// of other players' bombs.
pub open spec fn handled_in_game(msg: FromServer) -> bool {
    !(msg is Welcome) && !(msg is BombsDetonated)
}

/// Whether handling the message keeps its integers in range and the map well-formed.
pub open spec fn message_from_server_ok(my: MyEntity, msg: FromServer) -> bool {
    match msg {
        FromServer::ProvideChunk(_, chunk) => chunk.wf(),
        FromServer::YouCollectedGems { gem_type, quantity_increase } => my.entity().gem_collection.spec_quantity(
            gem_type,
        ) + quantity_increase <= u32::MAX,
        _ => true,
    }
}

/// The drawing updates caused by another entity moving to `pos`: its move where it is
/// loaded, then the smashing of the rock there, if any.
pub open spec fn remote_move_updates(
    map: &ClientMap,
    id: Id,
    pos: TileCoords,
) -> Seq<DrawUpdate> {
    let moved: Seq<DrawUpdate> = if map.entities().contains_key(id.value) {
        seq![DrawUpdate::RemoteEntityMoved(id, pos, loaded_tile_in(map.chunks(), pos))]
    } else {
        seq![]
    };
    let smashed: Seq<DrawUpdate> = match loaded_tile_in(map.chunks(), pos) {
        Some(t) => if t.spec_is_smashable() {
            seq![DrawUpdate::RockSmashed(pos)]
        } else {
            seq![]
        },
        None => seq![],
    };
    moved + smashed
}

/// Applies a message from the server to the client's map and player entity, and returns the
/// changes that the drawing of the map has to follow:
/// - a provided chunk is loaded and an unloaded one dropped;
/// - a tile change is applied where the tile's chunk is loaded;
/// - the answer to a movement request reconciles the prediction (a correction is drawn);
/// - another entity's move is applied where it is loaded, and smashes the rock it arrives on;
/// - a provided entity is loaded and an unloaded one dropped;
/// - a bomb is placed where its chunk is loaded;
/// - collected gems are added to the player's collection.
pub fn handle_message_from_server(map: &mut ClientMap, my: &mut MyEntity, msg: FromServer) -> (updates: Vec<DrawUpdate>)
    requires
        old(map).wf(),
        old(my).wf(),
        handled_in_game(msg),
        message_from_server_ok(*old(my), msg),
    ensures
        final(map).wf(),
        final(my).wf(),
        match msg {
            FromServer::ProvideChunk(coords, chunk) => {
                &&& final(map).chunks() == old(map).chunks().insert(chunk_key(coords), chunk@)
                &&& final(map).entities() == old(map).entities()
                &&& *final(my) == *old(my)
                &&& updates@ == Seq::<DrawUpdate>::empty()
            },
            FromServer::ShouldUnloadChunk(coords) => {
                &&& final(map).chunks() == old(map).chunks().remove(chunk_key(coords))
                &&& final(map).entities() == old(map).entities()
                &&& *final(my) == *old(my)
                &&& updates@ == Seq::<DrawUpdate>::empty()
            },
            FromServer::ChangeTile(pos, tile) => {
                &&& final(map).chunks() == chunks_with_tile(old(map).chunks(), pos, tile)
                &&& loaded_tile_in(final(map).chunks(), pos) == (if old(map).chunks().contains_key(chunk_key(pos.spec_chunk())) {
                    Some(tile)
                } else {
                    None
                })
                &&& final(map).entities() == old(map).entities()
                &&& *final(my) == *old(my)
                &&& updates@ == Seq::<DrawUpdate>::empty()
            },
            FromServer::YourEntityMoved { request_number, new_position } => {
                let corrected = old(my).unverified().contains_key(request_number)
                    && old(my).unverified()[request_number] != new_position;
                &&& final(map).chunks() == old(map).chunks()
                &&& final(map).entities() == old(map).entities()
                &&& final(my).spec_id() == old(my).spec_id()
                &&& final(my).spec_next_request_number() == old(my).spec_next_request_number()
                &&& final(my).unverified() == old(my).unverified().remove(request_number)
                &&& final(my).entity() == (if corrected {
                    Entity { pos: new_position, ..old(my).entity() }
                } else {
                    old(my).entity()
                })
                &&& updates@ == (if corrected {
                    seq![DrawUpdate::MyEntityCorrected(new_position)]
                } else {
                    Seq::<DrawUpdate>::empty()
                })
            },
            FromServer::MoveEntity(id, pos, direction) => {
                &&& final(map).chunks() == chunks_after_arrival(old(map).chunks(), pos)
                &&& final(map).entities() == (if old(map).entities().contains_key(id.value) {
                    old(map).entities().insert(id.value, Entity { pos, direction, ..old(map).entities()[id.value] })
                } else {
                    old(map).entities()
                })
                &&& *final(my) == *old(my)
                &&& updates@ == remote_move_updates(old(map), id, pos)
            },
            FromServer::ProvideEntity(id, entity) => {
                &&& final(map).chunks() == old(map).chunks()
                &&& final(map).entities() == old(map).entities().insert(id.value, entity)
                &&& *final(my) == *old(my)
                &&& updates@ == seq![DrawUpdate::RemoteEntityAdded(id, entity.pos)]
            },
            FromServer::ShouldUnloadEntity(id) => {
                &&& final(map).chunks() == old(map).chunks()
                &&& final(map).entities() == old(map).entities().remove(id.value)
                &&& *final(my) == *old(my)
                &&& updates@ == seq![DrawUpdate::RemoteEntityRemoved(id)]
            },
            FromServer::BombPlaced { placed_by_entity_id, position } => {
                &&& final(map).chunks() == chunks_with_bomb(old(map).chunks(), position, placed_by_entity_id)
                &&& final(map).entities() == old(map).entities()
                &&& *final(my) == *old(my)
                &&& updates@ == Seq::<DrawUpdate>::empty()
            },
            FromServer::YouCollectedGems { gem_type, quantity_increase } => {
                &&& final(map).chunks() == old(map).chunks()
                &&& final(map).entities() == old(map).entities()
                &&& final(my).spec_id() == old(my).spec_id()
                &&& final(my).spec_next_request_number() == old(my).spec_next_request_number()
                &&& final(my).unverified() == old(my).unverified()
                &&& final(my).entity() == (Entity {
                    gem_collection: old(my).entity().gem_collection.with_quantity(
                        gem_type,
                        (old(my).entity().gem_collection.spec_quantity(gem_type) + quantity_increase) as u32,
                    ),
                    ..old(my).entity()
                })
                &&& updates@ == Seq::<DrawUpdate>::empty()
            },
            _ => true,
        },
{
    let mut updates: Vec<DrawUpdate> = Vec::new();
    match msg {
        FromServer::ProvideChunk(coords, chunk) => {
            map.add_chunk(coords, chunk);
        },
        FromServer::ShouldUnloadChunk(coords) => {
            map.remove_chunk(coords);
        },
        FromServer::ChangeTile(pos, tile) => {
            proof {
                map.lemma_wf_chunks();
                crate::loaded_chunks::law_tile_read_after_write(map.chunks(), pos, pos, tile);
            }
            if map.is_tile_loaded(pos) {
                map.set_loaded_tile_at(pos, tile);
            } else {
                proof {
                    assert(chunks_with_tile(map.chunks(), pos, tile) == map.chunks());
                }
            }
        },
        FromServer::YourEntityMoved { request_number, new_position } => {
            let corrected = my.received_movement_reconciliation(request_number, new_position);
            if corrected {
                updates.push(DrawUpdate::MyEntityCorrected(new_position));
            }
        },
        FromServer::MoveEntity(id, pos, direction) => {
            let ghost map0 = *map;
            let dest_tile = map.loaded_tile_at(pos);
            if map.entity_by_id(id).is_some() {
                updates.push(DrawUpdate::RemoteEntityMoved(id, pos, dest_tile));
            }
            let smashed = map.move_remote_entity(id, pos, direction);
            if smashed {
                updates.push(DrawUpdate::RockSmashed(pos));
            }
            proof {
                assert(updates@ =~= remote_move_updates(&map0, id, pos));
            }
        },
        FromServer::ProvideEntity(id, entity) => {
            updates.push(DrawUpdate::RemoteEntityAdded(id, entity.pos));
            map.add_entity(id, entity);
        },
        FromServer::ShouldUnloadEntity(id) => {
            updates.push(DrawUpdate::RemoteEntityRemoved(id));
            map.remove_entity(id);
        },
        FromServer::BombPlaced { placed_by_entity_id, position } => {
            map.set_bomb_at(position, placed_by_entity_id);
        },
        FromServer::YouCollectedGems { gem_type, quantity_increase } => {
            my.obtained_gems(gem_type, quantity_increase);
        },
        FromServer::Welcome { .. } => {},
        FromServer::BombsDetonated { .. } => {},
    }
    updates
}

} // verus!
