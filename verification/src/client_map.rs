use std::collections::HashMap;
use vstd::prelude::*;
use vstd::std_specs::iter::IteratorSpec;
use crate::chunk::{chunk_view_wf, Chunk};
use crate::coords::{chunk_key, ChunkCoords, Direction, TileCoords};
use crate::loaded_chunks::{
    around_chunk, bombs_taken_around, chunks_with_bomb, chunks_with_tile, chunks_without_bombs_of, loaded_tile_in,
    ChunkView, LoadedChunks,
};
use crate::world::{Entity, Id, Tile};

verus! {

broadcast use vstd::std_specs::hash::group_hash_axioms;

/// The part of the game map that a client knows: the chunks the server provided and the
/// other entities within them.
pub struct ClientMap {
    loaded_chunks: LoadedChunks,
    entities: HashMap<u128, Entity>,
}

/// Whether some entity among `entities` stands at `pos`.
pub open spec fn entity_at(entities: Map<u128, Entity>, pos: TileCoords) -> bool {
    exists|id: u128| #[trigger] entities.contains_key(id) && entities[id].pos == pos
}

/// The chunks after an entity arrives at `pos`: a smashable tile there becomes smashed rock.
pub open spec fn chunks_after_arrival(chunks: Map<i128, ChunkView>, pos: TileCoords) -> Map<i128, ChunkView> {
    match loaded_tile_in(chunks, pos) {
        Some(t) => if t.spec_is_smashable() {
            chunks_with_tile(chunks, pos, Tile::RockSmashed)
        } else {
            chunks
        },
        None => chunks,
    }
}

impl ClientMap {
    /// The loaded chunks by chunk key.
    pub closed spec fn chunks(&self) -> Map<i128, ChunkView> {
        self.loaded_chunks@
    }

    /// The other entities by ID value.
    pub closed spec fn entities(&self) -> Map<u128, Entity> {
        self.entities@
    }

    /// Every loaded chunk is well formed.
    pub closed spec fn wf(&self) -> bool {
        self.loaded_chunks.wf()
    }

    /// In a well-formed map every loaded chunk is well formed.
    pub proof fn lemma_wf_chunks(&self)
        requires
            self.wf(),
        ensures
            forall|k: i128| #[trigger] self.chunks().contains_key(k) ==> chunk_view_wf(self.chunks()[k]),
    {
    }

    /// Whether an entity may move onto `pos`: its chunk is loaded, its tile does not block
    /// movement, and no other entity stands there.
    pub open spec fn spec_position_free(&self, pos: TileCoords) -> bool {
        &&& loaded_tile_in(self.chunks(), pos) matches Some(t) && !t.spec_is_blocking()
        &&& !entity_at(self.entities(), pos)
    }

    /// A map with no chunks and no entities.
    pub fn new() -> (m: ClientMap)
        ensures
            m.wf(),
            m.chunks() == Map::<i128, ChunkView>::empty(),
            m.entities() == Map::<u128, Entity>::empty(),
    {
        ClientMap { loaded_chunks: LoadedChunks::new(), entities: HashMap::new() }
    }

    /// The loaded chunk at `coords`, if any.
    pub fn loaded_chunk_at(&self, coords: ChunkCoords) -> (r: Option<&Chunk>)
        ensures
            match r {
                Some(c) => self.chunks().contains_key(chunk_key(coords)) && c@ == self.chunks()[chunk_key(coords)],
                None => !self.chunks().contains_key(chunk_key(coords)),
            },
    {
        self.loaded_chunks.get(coords)
    }

    /// Loads the chunk that the server provided for `coords`.
    pub fn add_chunk(&mut self, coords: ChunkCoords, chunk: Chunk)
        requires
            old(self).wf(),
            chunk.wf(),
        ensures
            final(self).wf(),
            final(self).chunks() == old(self).chunks().insert(chunk_key(coords), chunk@),
            final(self).entities() == old(self).entities(),
    {
        self.loaded_chunks.insert(coords, chunk);
    }

    /// Unloads the chunk at `coords`, returning it if it was loaded.
    pub fn remove_chunk(&mut self, coords: ChunkCoords) -> (r: Option<Chunk>)
        requires
            old(self).wf(),
        ensures
            final(self).wf(),
            final(self).chunks() == old(self).chunks().remove(chunk_key(coords)),
            final(self).entities() == old(self).entities(),
            match r {
                Some(c) => old(self).chunks().contains_key(chunk_key(coords)) && c@ == old(self).chunks()[chunk_key(coords)],
                None => !old(self).chunks().contains_key(chunk_key(coords)),
            },
    {
        self.loaded_chunks.remove(coords)
    }

    /// Whether the chunk of the tile at `pos` is loaded.
    pub fn is_tile_loaded(&self, pos: TileCoords) -> (r: bool)
        ensures
            r == self.chunks().contains_key(chunk_key(pos.spec_chunk())),
    {
        self.loaded_chunks.contains(pos.as_chunk_coords())
    }

    /// The tile at `pos`, if its chunk is loaded.
    pub fn loaded_tile_at(&self, pos: TileCoords) -> (r: Option<Tile>)
        requires
            self.wf(),
        ensures
            r == loaded_tile_in(self.chunks(), pos),
    {
        self.loaded_chunks.tile_at(pos)
    }

    /// Replaces the tile at `pos` if its chunk is loaded.
    pub fn set_loaded_tile_at(&mut self, pos: TileCoords, tile: Tile)
        requires
            old(self).wf(),
        ensures
            final(self).wf(),
            final(self).chunks() == chunks_with_tile(old(self).chunks(), pos, tile),
            final(self).entities() == old(self).entities(),
    {
        self.loaded_chunks.set_tile_at(pos, tile);
    }

    /// The entity with the given ID, if loaded.
    pub fn entity_by_id(&self, id: Id) -> (r: Option<&Entity>)
        ensures
            match r {
                Some(e) => self.entities().contains_key(id.value) && *e == self.entities()[id.value],
                None => !self.entities().contains_key(id.value),
            },
    {
        self.entities.get(&id.value)
    }

    /// Loads an entity that the server provided (replacing one with the same ID).
    pub fn add_entity(&mut self, id: Id, entity: Entity)
        ensures
            final(self).chunks() == old(self).chunks(),
            final(self).entities() == old(self).entities().insert(id.value, entity),
            final(self).wf() == old(self).wf(),
    {
        self.entities.insert(id.value, entity);
    }

    /// Unloads the entity with the given ID, returning it if it was loaded.
    pub fn remove_entity(&mut self, id: Id) -> (r: Option<Entity>)
        ensures
            final(self).chunks() == old(self).chunks(),
            final(self).entities() == old(self).entities().remove(id.value),
            final(self).wf() == old(self).wf(),
            match r {
                Some(e) => old(self).entities().contains_key(id.value) && e == old(self).entities()[id.value],
                None => !old(self).entities().contains_key(id.value),
            },
    {
        self.entities.remove(&id.value)
    }

    /// Whether some loaded entity stands at `coords`.
    pub fn is_blocking_entity_at(&self, coords: TileCoords) -> (r: bool)
        ensures
            r == entity_at(self.entities(), coords),
    {
        let ghost full: Seq<Entity> = vstd::std_specs::hash::spec_values_iter(&self.entities).remaining().unref();
        for entity in it: self.entities.values()
            invariant
                it.seq().unref() == full,
                full.to_set() == self.entities().values(),
                it.index() <= full.len(),
                forall|j: int| 0 <= j < it.index() ==> (#[trigger] full[j]).pos != coords,
        {
            proof {
                assert(full[it.index() as int] == *entity);
            }
            if entity.pos == coords {
                proof {
                    assert(full.contains(*entity));
                    assert(self.entities().values().contains(*entity));
                    let id = choose|id: u128| #[trigger] self.entities().contains_key(id) && self.entities()[id] == *entity;
                    assert(self.entities().contains_key(id) && self.entities()[id].pos == coords);
                }
                return true;
            }
        }
        proof {
            assert forall|id: u128| #[trigger] self.entities().contains_key(id) implies self.entities()[id].pos != coords by {
                assert(self.entities().values().contains(self.entities()[id]));
                assert(full.to_set().contains(self.entities()[id]));
                let j = choose|j: int| 0 <= j < full.len() && full[j] == self.entities()[id];
                assert(full[j] == self.entities()[id]);
            }
        }
        false
    }

    /// Whether an entity may move onto `pos` (its chunk is loaded, its tile does not block
    /// movement, and no other entity stands there).
    pub fn is_position_free(&self, pos: TileCoords) -> (r: bool)
        requires
            self.wf(),
        ensures
            r == self.spec_position_free(pos),
    {
        match self.loaded_tile_at(pos) {
            Some(tile) => !tile.is_blocking() && !self.is_blocking_entity_at(pos),
            None => false,
        }
    }

    /// Handles the tile changes caused by an entity (this client's or another) arriving at
    /// `pos`: a smashable tile becomes smashed rock. Tells whether a tile was smashed.
    pub fn some_entity_moved_to(&mut self, pos: TileCoords) -> (smashed: bool)
        requires
            old(self).wf(),
        ensures
            final(self).wf(),
            final(self).chunks() == chunks_after_arrival(old(self).chunks(), pos),
            final(self).entities() == old(self).entities(),
            smashed == (loaded_tile_in(old(self).chunks(), pos) matches Some(t) && t.spec_is_smashable()),
    {
        let dest_tile_smashable = match self.loaded_tile_at(pos) {
            Some(t) => t.is_smashable(),
            None => false,
        };
        if dest_tile_smashable {
            self.set_loaded_tile_at(pos, Tile::RockSmashed);
        }
        dest_tile_smashable
    }

    /// Moves another entity to `new_pos`, facing `direction`, if it is loaded, then handles the
    /// tile changes at `new_pos` ([`ClientMap::some_entity_moved_to`]). Tells whether a tile
    /// was smashed.
    pub fn move_remote_entity(&mut self, id: Id, new_pos: TileCoords, direction: Direction) -> (smashed: bool)
        requires
            old(self).wf(),
        ensures
            final(self).wf(),
            final(self).entities() == if old(self).entities().contains_key(id.value) {
                old(self).entities().insert(id.value, Entity { pos: new_pos, direction, ..old(self).entities()[id.value] })
            } else {
                old(self).entities()
            },
            final(self).chunks() == chunks_after_arrival(old(self).chunks(), new_pos),
            smashed == (loaded_tile_in(old(self).chunks(), new_pos) matches Some(t) && t.spec_is_smashable()),
    {
        match self.entities.get(&id.value) {
            Some(entity) => {
                let moved = Entity { pos: new_pos, direction, ..*entity };
                self.entities.insert(id.value, moved);
            },
            None => {},
        }
        self.some_entity_moved_to(new_pos)
    }

    /// Places a bomb belonging to `placer` at `pos` if its chunk is loaded.
    pub fn set_bomb_at(&mut self, pos: TileCoords, placer: Id)
        requires
            old(self).wf(),
        ensures
            final(self).wf(),
            final(self).chunks() == chunks_with_bomb(old(self).chunks(), pos, placer),
            final(self).entities() == old(self).entities(),
    {
        self.loaded_chunks.set_bomb_at(pos, placer);
    }

    /// Removes the bombs of `placer` from the loaded chunks in and around the chunk at
    /// `coords`, returning their positions.
    pub fn take_bombs_placed_by_in_and_around_chunk(&mut self, placer: Id, coords: ChunkCoords) -> (taken: Vec<TileCoords>)
        requires
            old(self).wf(),
            i32::MIN < coords.x < i32::MAX,
            i32::MIN < coords.y < i32::MAX,
        ensures
            final(self).wf(),
            final(self).entities() == old(self).entities(),
            final(self).chunks() == chunks_without_bombs_of(
                old(self).chunks(),
                around_chunk(coords).map_values(|c: ChunkCoords| chunk_key(c)).to_set(),
                placer,
            ),
            taken@ == bombs_taken_around(old(self).chunks(), around_chunk(coords), placer),
    {
        self.loaded_chunks.take_bombs_placed_by_in_and_around_chunk(placer, coords)
    }
}

} // verus!
