use vstd::prelude::*;
use crate::chunk::Chunk;
use crate::coords::{ChunkCoords, Direction, TileCoords};
use crate::world::{BoolItem, Entity, Gem, Id, QuantitativeItem, Tile};

verus! {

/// Messages that a client sends to the server.
#[derive(Clone, Copy, Debug, PartialEq, Eq, Structural)]
pub enum ToServer {
    /// First message of a connection, optionally carrying the client ID stored by the client.
    Hello { client_id_option: Option<Id> },
    /// Asks to move the client's player entity one tile in a direction.
    MoveMyEntity { request_number: u32, direction: Direction },
    /// Places a bomb at the position of the client's player entity.
    PlaceBomb,
    /// Detonates the bombs that the client's player entity placed in and around its chunk.
    DetonateBombs,
    /// Buys one item of a kind that a player either has or does not have.
    PurchaseSingleItem(BoolItem),
    /// Buys a quantity of an item.
    PurchaseItemQuantity { item: QuantitativeItem, quantity: u32 },
}

/// Messages that the server sends to a client.
#[derive(Debug)]
pub enum FromServer {
    /// Answer to the client's hello: the server version, the client ID and the client's player
    /// entity.
    Welcome { version: String, your_client_id: Id, your_entity_with_id: (Id, Entity) },
    /// A chunk that the client should now hold.
    ProvideChunk(ChunkCoords, Chunk),
    /// A chunk that the client should drop.
    ShouldUnloadChunk(ChunkCoords),
    /// An entity that the client should now show.
    ProvideEntity(Id, Entity),
    /// An entity that the client should drop.
    ShouldUnloadEntity(Id),
    /// Another entity moved to a position, facing a direction.
    MoveEntity(Id, TileCoords, Direction),
    /// Where the client's own entity is after the movement request with the given number.
    YourEntityMoved { request_number: u32, new_position: TileCoords },
    /// A tile changed.
    ChangeTile(TileCoords, Tile),
    /// The client's player collected gems.
    YouCollectedGems { gem_type: Gem, quantity_increase: u32 },
    /// A bomb was placed.
    BombPlaced { placed_by_entity_id: Id, position: TileCoords },
    /// The bombs of an entity in and around a chunk were detonated.
    BombsDetonated { placed_by_entity_id: Id, in_and_around_chunk_coords: ChunkCoords },
}

/// A change made to the game map, which the connection that made it announces to the other
/// connections.
#[derive(Clone, Copy, Debug, PartialEq, Eq, Structural)]
pub enum Modification {
    /// The tile at a position changed.
    TileChanged(TileCoords, Tile),
    /// An entity moved.
    EntityMoved { entity_id: Id, old_position: TileCoords, new_position: TileCoords, direction: Direction },
    /// An entity was added to the map (a player connected).
    EntityAdded(Id),
    /// An entity was removed from the map (a player disconnected); carries the coordinates of
    /// the chunk that it was in.
    EntityRemoved(Id, ChunkCoords),
    /// A bomb was placed at a position by an entity.
    BombPlaced(TileCoords, Id),
    /// An entity detonated its bombs.
    BombsDetonated(Id),
}

} // verus!
