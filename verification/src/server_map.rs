use std::collections::{HashMap, HashSet};
use vstd::prelude::*;
use vstd::std_specs::iter::IteratorSpec;
use crate::chunk::{chunk_view_wf, Chunk};
use crate::coords::{chunk_key, chunk_key_of, ChunkCoords, Direction, TileCoords};
use crate::generation::Generator;
use crate::loaded_chunks::{
    around_chunk, bombs_taken_around, chunks_with_bomb, chunks_with_tile, chunks_without_bombs_of, loaded_tile_in,
    ChunkView, LoadedChunks,
};
use crate::world::{Entity, Id, Tile};

verus! {

broadcast use vstd::std_specs::hash::group_hash_axioms;

/// The context in which gameplay takes place on the server: the loaded chunks, how many
/// clients use each of them, the player entities, an index from chunks to the IDs of the
/// entities positioned in them, and the chunks in storage (saved when no client used them any
/// more, or read from the database), from which unloaded chunks are loaded again.
pub struct ServerMap {
    seed: i32,
    loaded_chunks: LoadedChunks,
    stored_chunks: LoadedChunks,
    chunk_usage: HashMap<i128, usize>,
    player_entities: HashMap<u128, Entity>,
    chunk_coords_to_player_ids: HashMap<i128, HashSet<u128>>,
}

/// The result of moving an entity: where it was, where it now is, and the tile it smashed on
/// arrival (if the destination tile was smashable).
pub struct EntityMovement {
    pub old_position: TileCoords,
    pub new_position: TileCoords,
    pub smashed_tile_option: Option<Tile>,
}

/// The set of entity IDs that `index` associates with the chunk key `k` (empty when there is
/// no entry).
pub open spec fn ids_at(index: Map<i128, Set<u128>>, k: i128) -> Set<u128> {
    if index.contains_key(k) {
        index[k]
    } else {
        Set::empty()
    }
}

/// Whether some entity that `index` records in the chunk of `pos` stands at `pos`.
pub open spec fn blocking_entity_in(index: Map<i128, Set<u128>>, entities: Map<u128, Entity>, pos: TileCoords) -> bool {
    exists|id: u128|
        #[trigger] ids_at(index, chunk_key(pos.spec_chunk())).contains(id) && entities.contains_key(id)
            && entities[id].pos == pos
}

impl ServerMap {
    /// The seed that chunk generation uses.
    pub closed spec fn spec_seed(&self) -> i32 {
        self.seed
    }

    /// The loaded chunks by chunk key.
    pub closed spec fn chunks(&self) -> Map<i128, ChunkView> {
        self.loaded_chunks@
    }

    /// The chunks in storage by chunk key.
    pub closed spec fn stored(&self) -> Map<i128, ChunkView> {
        self.stored_chunks@
    }

    /// For each chunk key, how many clients have that chunk loaded.
    pub closed spec fn usage(&self) -> Map<i128, usize> {
        self.chunk_usage@
    }

    /// The player entities by ID value.
    pub closed spec fn entities(&self) -> Map<u128, Entity> {
        self.player_entities@
    }

    /// The index from chunk keys to the IDs of the entities recorded as being in that chunk.
    pub closed spec fn index(&self) -> Map<i128, Set<u128>> {
        Map::new(
            |k: i128| self.chunk_coords_to_player_ids@.contains_key(k),
            |k: i128| self.chunk_coords_to_player_ids@[k]@,
        )
    }

    /// Every loaded chunk and every stored chunk is well formed.
    pub open spec fn wf(&self) -> bool {
        &&& forall|k: i128| #[trigger] self.chunks().contains_key(k) ==> chunk_view_wf(self.chunks()[k])
        &&& self.stored_wf()
    }

    /// Every stored chunk is well formed.
    pub closed spec fn stored_wf(&self) -> bool {
        self.stored_chunks.wf()
    }

    /// In a well-formed map every stored chunk is well formed.
    pub proof fn lemma_stored_wf(&self)
        requires
            self.wf(),
        ensures
            forall|k: i128| #[trigger] self.stored().contains_key(k) ==> chunk_view_wf(self.stored()[k]),
    {
    }

    /// Whether the chunk at `c` is loaded.
    pub open spec fn has_chunk(&self, c: ChunkCoords) -> bool {
        self.chunks().contains_key(chunk_key(c))
    }

    /// The tile at `pos` if its chunk is loaded.
    pub open spec fn spec_loaded_tile(&self, pos: TileCoords) -> Option<Tile> {
        loaded_tile_in(self.chunks(), pos)
    }

    /// Whether some entity recorded in the index for the chunk of `pos` stands at `pos`.
    pub open spec fn spec_blocking_entity_at(&self, pos: TileCoords) -> bool {
        blocking_entity_in(self.index(), self.entities(), pos)
    }

    /// Whether an entity may move onto `pos`: its chunk is loaded, the tile there does not
    /// block movement, and no entity stands there.
    pub open spec fn spec_position_free(&self, pos: TileCoords) -> bool {
        &&& self.spec_loaded_tile(pos) matches Some(t) && !t.spec_is_blocking()
        &&& !self.spec_blocking_entity_at(pos)
    }

    /// An empty map (no chunks loaded, no entities) with the given seed.
    pub fn new(seed: i32) -> (m: ServerMap)
        ensures
            m.wf(),
            m.spec_seed() == seed,
            m.chunks() == Map::<i128, ChunkView>::empty(),
            m.stored() == Map::<i128, ChunkView>::empty(),
            m.usage() == Map::<i128, usize>::empty(),
            m.entities() == Map::<u128, Entity>::empty(),
            m.index() == Map::<i128, Set<u128>>::empty(),
    {
        let m = ServerMap {
            seed,
            loaded_chunks: LoadedChunks::new(),
            stored_chunks: LoadedChunks::new(),
            chunk_usage: HashMap::new(),
            player_entities: HashMap::new(),
            chunk_coords_to_player_ids: HashMap::new(),
        };
        assert(m.chunks() =~= Map::<i128, ChunkView>::empty());
        assert(m.stored() =~= Map::<i128, ChunkView>::empty());
        assert(m.index() =~= Map::<i128, Set<u128>>::empty());
        m
    }

    /// The seed that chunk generation uses.
    pub fn seed(&self) -> (s: i32)
        ensures
            s == self.spec_seed(),
    {
        self.seed
    }

    /// The loaded chunk at `coords`, if any.
    pub fn loaded_chunk_at(&self, coords: ChunkCoords) -> (r: Option<&Chunk>)
        ensures
            match r {
                Some(c) => self.has_chunk(coords) && c@ == self.chunks()[chunk_key(coords)],
                None => !self.has_chunk(coords),
            },
    {
        self.loaded_chunks.get(coords)
    }

    /// Whether the chunk at `coords` is loaded.
    pub fn is_chunk_loaded(&self, coords: ChunkCoords) -> (r: bool)
        ensures
            r == self.has_chunk(coords),
    {
        self.loaded_chunks.contains(coords)
    }

    /// Adds (or replaces) the chunk at `coords`; the chunk starts with an empty entity index
    /// entry.
    pub fn add_chunk(&mut self, coords: ChunkCoords, chunk: Chunk)
        requires
            old(self).wf(),
            chunk.wf(),
        ensures
            final(self).wf(),
            final(self).spec_seed() == old(self).spec_seed(),
            final(self).stored() == old(self).stored(),
            final(self).chunks() == old(self).chunks().insert(chunk_key(coords), chunk@),
            final(self).index() == old(self).index().insert(chunk_key(coords), Set::<u128>::empty()),
            final(self).usage() == old(self).usage(),
            final(self).entities() == old(self).entities(),
    {
        let k = chunk_key_of(coords);
        self.loaded_chunks.insert(coords, chunk);
        self.chunk_coords_to_player_ids.insert(k, HashSet::new());
        assert(self.index() =~= old(self).index().insert(k, Set::<u128>::empty()));
    }

    /// The stored chunk at `coords`, if any.
    pub fn stored_chunk_at(&self, coords: ChunkCoords) -> (r: Option<&Chunk>)
        ensures
            match r {
                Some(c) => self.stored().contains_key(chunk_key(coords)) && c@ == self.stored()[chunk_key(coords)],
                None => !self.stored().contains_key(chunk_key(coords)),
            },
    {
        self.stored_chunks.get(coords)
    }

    /// Puts the chunk at `coords` in storage (replacing any chunk stored for `coords`), so that
    /// it is loaded from there when it is needed again.
    pub fn store_chunk(&mut self, coords: ChunkCoords, chunk: Chunk)
        requires
            old(self).wf(),
            chunk.wf(),
        ensures
            final(self).wf(),
            final(self).spec_seed() == old(self).spec_seed(),
            final(self).stored() == old(self).stored().insert(chunk_key(coords), chunk@),
            final(self).chunks() == old(self).chunks(),
            final(self).index() == old(self).index(),
            final(self).usage() == old(self).usage(),
            final(self).entities() == old(self).entities(),
    {
        self.stored_chunks.insert(coords, chunk);
        assert(self.chunks() =~= old(self).chunks());
    }

    /// Removes and returns the chunk at `coords` (if loaded), along with its entity index entry.
    pub fn remove_chunk(&mut self, coords: ChunkCoords) -> (r: Option<Chunk>)
        requires
            old(self).wf(),
        ensures
            final(self).wf(),
            final(self).spec_seed() == old(self).spec_seed(),
            final(self).stored() == old(self).stored(),
            final(self).chunks() == old(self).chunks().remove(chunk_key(coords)),
            final(self).index() == old(self).index().remove(chunk_key(coords)),
            final(self).usage() == old(self).usage(),
            final(self).entities() == old(self).entities(),
            match r {
                Some(c) => old(self).has_chunk(coords) && c@ == old(self).chunks()[chunk_key(coords)] && c.wf(),
                None => !old(self).has_chunk(coords),
            },
    {
        let k = chunk_key_of(coords);
        self.chunk_coords_to_player_ids.remove(&k);
        let r = self.loaded_chunks.remove(coords);
        assert(self.index() =~= old(self).index().remove(k));
        r
    }

    /// The player entity with the given ID, if any.
    pub fn entity_by_id(&self, id: Id) -> (r: Option<&Entity>)
        ensures
            match r {
                Some(e) => self.entities().contains_key(id.value) && *e == self.entities()[id.value],
                None => !self.entities().contains_key(id.value),
            },
    {
        self.player_entities.get(&id.value)
    }

    /// Replaces the state of an entity that is on the map (its position is left as it was, so
    /// that the chunk index stays accurate); does nothing for an unknown ID.
    pub fn update_entity(&mut self, id: Id, entity: Entity)
        requires
            old(self).wf(),
        ensures
            final(self).wf(),
            final(self).spec_seed() == old(self).spec_seed(),
            final(self).stored() == old(self).stored(),
            final(self).chunks() == old(self).chunks(),
            final(self).index() == old(self).index(),
            final(self).usage() == old(self).usage(),
            final(self).entities() == if old(self).entities().contains_key(id.value) {
                old(self).entities().insert(id.value, Entity { pos: old(self).entities()[id.value].pos, ..entity })
            } else {
                old(self).entities()
            },
    {
        if let Some(current) = self.player_entities.get(&id.value) {
            let updated = Entity { pos: current.pos, ..entity };
            self.player_entities.insert(id.value, updated);
        }
        assert(self.chunks() =~= old(self).chunks());
    }

    /// Puts an entity on the map (replacing any entity with the same ID) and records it in the
    /// index entry of the chunk that its position is in.
    pub fn add_entity(&mut self, id: Id, entity: Entity)
        requires
            old(self).wf(),
        ensures
            final(self).wf(),
            final(self).spec_seed() == old(self).spec_seed(),
            final(self).stored() == old(self).stored(),
            final(self).chunks() == old(self).chunks(),
            final(self).usage() == old(self).usage(),
            final(self).entities() == old(self).entities().insert(id.value, entity),
            final(self).index() == old(self).index().insert(
                chunk_key(entity.pos.spec_chunk()),
                ids_at(old(self).index(), chunk_key(entity.pos.spec_chunk())).insert(id.value),
            ),
    {
        let c = entity.pos.as_chunk_coords();
        let k = chunk_key_of(c);
        self.index_insert(k, id.value);
        self.player_entities.insert(id.value, entity);
    }

    /// Adds `id` to the index entry at chunk key `k`, creating the entry if needed.
    fn index_insert(&mut self, k: i128, id: u128)
        requires
            old(self).wf(),
        ensures
            final(self).wf(),
            final(self).spec_seed() == old(self).spec_seed(),
            final(self).stored() == old(self).stored(),
            final(self).chunks() == old(self).chunks(),
            final(self).usage() == old(self).usage(),
            final(self).entities() == old(self).entities(),
            final(self).index() == old(self).index().insert(k, ids_at(old(self).index(), k).insert(id)),
    {
        let set_option = self.chunk_coords_to_player_ids.remove(&k);
        let mut set = match set_option {
            Some(s) => s,
            None => HashSet::new(),
        };
        set.insert(id);
        self.chunk_coords_to_player_ids.insert(k, set);
        assert(self.index() =~= old(self).index().insert(k, ids_at(old(self).index(), k).insert(id)));
        assert(self.chunks() =~= old(self).chunks());
    }

    /// Removes `id` from the index entry at chunk key `k`, if there is such an entry.
    fn unindex(&mut self, k: i128, id: u128)
        requires
            old(self).wf(),
        ensures
            final(self).wf(),
            final(self).spec_seed() == old(self).spec_seed(),
            final(self).stored() == old(self).stored(),
            final(self).chunks() == old(self).chunks(),
            final(self).usage() == old(self).usage(),
            final(self).entities() == old(self).entities(),
            final(self).index() == if old(self).index().contains_key(k) {
                old(self).index().insert(k, old(self).index()[k].remove(id))
            } else {
                old(self).index()
            },
    {
        let set_option = self.chunk_coords_to_player_ids.remove(&k);
        if let Some(mut set) = set_option {
            set.remove(&id);
            self.chunk_coords_to_player_ids.insert(k, set);
            assert(self.index() =~= old(self).index().insert(k, old(self).index()[k].remove(id)));
        } else {
            assert(self.index() =~= old(self).index());
        }
        assert(self.chunks() =~= old(self).chunks());
    }

    /// Removes and returns the entity with the given ID (if present), also removing it from the
    /// index entry of the chunk that it was positioned in.
    pub fn remove_entity(&mut self, id: Id) -> (r: Option<Entity>)
        requires
            old(self).wf(),
        ensures
            final(self).wf(),
            final(self).spec_seed() == old(self).spec_seed(),
            final(self).stored() == old(self).stored(),
            final(self).chunks() == old(self).chunks(),
            final(self).usage() == old(self).usage(),
            final(self).entities() == old(self).entities().remove(id.value),
            match r {
                Some(e) => {
                    let k = chunk_key(e.pos.spec_chunk());
                    &&& old(self).entities().contains_key(id.value)
                    &&& e == old(self).entities()[id.value]
                    &&& final(self).index() == if old(self).index().contains_key(k) {
                        old(self).index().insert(k, old(self).index()[k].remove(id.value))
                    } else {
                        old(self).index()
                    }
                },
                None => !old(self).entities().contains_key(id.value) && final(self).index() == old(self).index(),
            },
    {
        let opt = self.player_entities.remove(&id.value);
        assert(self.chunks() =~= old(self).chunks());
        if let Some(entity) = opt {
            let c = entity.pos.as_chunk_coords();
            let k = chunk_key_of(c);
            self.unindex(k, id.value);
        }
        opt
    }

    /// Whether every usage count can grow by `n` without overflowing.
    pub fn usage_has_room_for(&self, n: usize) -> (r: bool)
        ensures
            r == crate::handling::usage_has_room(self.usage(), n as int),
    {
        let ghost full: Seq<usize> = vstd::std_specs::hash::spec_values_iter(&self.chunk_usage).remaining().unref();
        for count in it: self.chunk_usage.values()
            invariant
                it.seq().unref() == full,
                full.to_set() == self.usage().values(),
                it.index() <= full.len(),
                forall|j: int| 0 <= j < it.index() ==> (#[trigger] full[j]) + n <= usize::MAX,
        {
            proof {
                assert(full[it.index() as int] == *count);
            }
            if *count > usize::MAX - n {
                proof {
                    assert(full.contains(*count));
                    assert(self.usage().values().contains(*count));
                    let k = choose|k: i128| #[trigger] self.usage().contains_key(k) && self.usage()[k] == *count;
                    assert(usage_of(self.usage(), k) + n > usize::MAX);
                }
                return false;
            }
        }
        proof {
            assert forall|k: i128| #[trigger] usage_of(self.usage(), k) + n <= usize::MAX by {
                if self.usage().contains_key(k) {
                    assert(self.usage().values().contains(self.usage()[k]));
                    assert(full.to_set().contains(self.usage()[k]));
                    let j = choose|j: int| 0 <= j < full.len() && full[j] == self.usage()[k];
                    assert(full[j] == self.usage()[k]);
                }
            }
        }
        true
    }

    /// Whether an entity recorded in the index entry of the chunk of `coords` stands at
    /// `coords`.
    pub fn is_blocking_entity_at(&self, coords: TileCoords) -> (r: bool)
        ensures
            r == self.spec_blocking_entity_at(coords),
    {
        let k = chunk_key_of(coords.as_chunk_coords());
        let set_option = self.chunk_coords_to_player_ids.get(&k);
        match set_option {
            None => {
                assert(!self.index().contains_key(k));
                assert forall|id: u128| !(#[trigger] ids_at(self.index(), k).contains(id)) by {}
                false
            },
            Some(set) => {
                assert(self.index()[k] == set@);
                let ghost full: Seq<u128> = vstd::std_specs::hash::spec_hash_keys_iter(set).remaining().unref();
                for x in it: set.iter()
                    invariant
                        it.seq().unref() == full,
                        full.to_set() == set@,
                        it.index() <= full.len(),
                        set@ == self.index()[k],
                        self.index().contains_key(k),
                        k == chunk_key(coords.spec_chunk()),
                        forall|j: int| 0 <= j < it.index() ==> !(self.entities().contains_key(#[trigger] full[j])
                            && self.entities()[full[j]].pos == coords),
                {
                    let id: u128 = *x;
                    proof {
                        assert(full[it.index() as int] == id);
                    }
                    match self.player_entities.get(&id) {
                        Some(entity) => {
                            if entity.pos == coords {
                                proof {
                                    assert(full.contains(id));
                                    assert(ids_at(self.index(), k).contains(id));
                                }
                                return true;
                            }
                        },
                        None => {},
                    }
                }
                proof {
                    assert forall|id: u128| #[trigger] ids_at(self.index(), k).contains(id)
                        implies !(self.entities().contains_key(id) && self.entities()[id].pos == coords) by {
                        assert(full.to_set().contains(id));
                        let j = choose|j: int| 0 <= j < full.len() && full[j] == id;
                        assert(full[j] == id);
                    }
                }
                false
            },
        }
    }

    /// The tile at `pos`, if its chunk is loaded.
    pub fn loaded_tile_at(&self, pos: TileCoords) -> (r: Option<Tile>)
        requires
            self.wf(),
        ensures
            r == self.spec_loaded_tile(pos),
    {
        self.loaded_chunks.tile_at(pos)
    }

    /// Replaces the tile at `pos` if its chunk is loaded (otherwise does nothing).
    pub fn set_loaded_tile_at(&mut self, pos: TileCoords, tile: Tile)
        requires
            old(self).wf(),
        ensures
            final(self).wf(),
            final(self).spec_seed() == old(self).spec_seed(),
            final(self).stored() == old(self).stored(),
            final(self).index() == old(self).index(),
            final(self).usage() == old(self).usage(),
            final(self).entities() == old(self).entities(),
            final(self).chunks() == chunks_with_tile(old(self).chunks(), pos, tile),
    {
        self.loaded_chunks.set_tile_at(pos, tile);
        assert(self.index() =~= old(self).index());
    }

    /// Whether an entity may move onto `pos` (its chunk is loaded, its tile does not block
    /// movement, and no entity stands there).
    pub fn is_position_free(&self, pos: TileCoords) -> (r: bool)
        requires
            self.wf(),
        ensures
            r == self.spec_position_free(pos),
    {
        match self.loaded_tile_at(pos) {
            Some(tile) => !tile.is_blocking() && !self.is_blocking_entity_at(pos),
            None => false,
        }
    }

    /// Records that one more client has the chunk at `coords` loaded.
    pub fn chunk_in_use(&mut self, coords: ChunkCoords)
        requires
            old(self).wf(),
            !old(self).usage().contains_key(chunk_key(coords)) || old(self).usage()[chunk_key(coords)] < usize::MAX,
        ensures
            final(self).wf(),
            final(self).spec_seed() == old(self).spec_seed(),
            final(self).stored() == old(self).stored(),
            final(self).chunks() == old(self).chunks(),
            final(self).index() == old(self).index(),
            final(self).entities() == old(self).entities(),
            final(self).usage() == old(self).usage().insert(
                chunk_key(coords),
                (usage_of(old(self).usage(), chunk_key(coords)) + 1) as usize,
            ),
    {
        let k = chunk_key_of(coords);
        let current: usize = match self.chunk_usage.get(&k) {
            Some(n) => *n,
            None => 0,
        };
        self.chunk_usage.insert(k, current + 1);
        assert(self.chunks() =~= old(self).chunks());
        assert(self.index() =~= old(self).index());
    }

    /// Records that one client fewer has the chunk at `coords` loaded. When no client has it
    /// loaded any more, the chunk is removed from the map and returned.
    pub fn chunk_not_in_use(&mut self, coords: ChunkCoords) -> (r: Option<Chunk>)
        requires
            old(self).wf(),
            usage_of(old(self).usage(), chunk_key(coords)) > 0,
        ensures
            final(self).wf(),
            final(self).spec_seed() == old(self).spec_seed(),
            final(self).stored() == old(self).stored(),
            final(self).entities() == old(self).entities(),
            final(self).usage() == old(self).usage().insert(
                chunk_key(coords),
                (usage_of(old(self).usage(), chunk_key(coords)) - 1) as usize,
            ),
            usage_of(old(self).usage(), chunk_key(coords)) == 1 ==> {
                &&& final(self).chunks() == old(self).chunks().remove(chunk_key(coords))
                &&& final(self).index() == old(self).index().remove(chunk_key(coords))
                &&& match r {
                    Some(c) => old(self).has_chunk(coords) && c@ == old(self).chunks()[chunk_key(coords)] && c.wf(),
                    None => !old(self).has_chunk(coords),
                }
            },
            usage_of(old(self).usage(), chunk_key(coords)) > 1 ==> {
                &&& final(self).chunks() == old(self).chunks()
                &&& final(self).index() == old(self).index()
                &&& r is None
            },
    {
        let k = chunk_key_of(coords);
        let current: usize = match self.chunk_usage.get(&k) {
            Some(n) => *n,
            None => 0,
        };
        let remaining: usize = current - 1;
        self.chunk_usage.insert(k, remaining);
        assert(self.chunks() =~= old(self).chunks());
        assert(self.index() =~= old(self).index());
        if remaining == 0 {
            self.remove_chunk(coords)
        } else {
            None
        }
    }
}

/// Whether `s` lists, each once and with its state, every entity that `index` records at chunk
/// key `k` and that is present in `entities`, except the one whose ID is `exclude`.
pub open spec fn lists_chunk_entities(
    s: Seq<(Id, Entity)>,
    index: Map<i128, Set<u128>>,
    entities: Map<u128, Entity>,
    k: i128,
    exclude: Option<u128>,
) -> bool {
    &&& forall|a: int| 0 <= a < s.len() ==> {
        let id = #[trigger] s[a].0.value;
        &&& ids_at(index, k).contains(id)
        &&& entities.contains_key(id)
        &&& s[a].1 == entities[id]
        &&& exclude != Some(id)
    }
    &&& forall|id: u128|
        ids_at(index, k).contains(id) && entities.contains_key(id) && exclude != Some(id)
            ==> exists|a: int| 0 <= a < s.len() && (#[trigger] s[a]).0.value == id
    &&& forall|a: int, b: int| 0 <= a < b < s.len() ==> (#[trigger] s[a]).0 != (#[trigger] s[b]).0
}

/// The entity index after entity `id` moves from the chunk with key `from` to the chunk with
/// key `to`: when the chunks differ, the ID leaves the entry of `from` (if there is one) and
/// joins the entry of `to` (which is created if needed).
pub open spec fn index_with_move(index: Map<i128, Set<u128>>, id: u128, from: i128, to: i128) -> Map<i128, Set<u128>> {
    if from == to {
        index
    } else {
        let left = if index.contains_key(from) {
            index.insert(from, index[from].remove(id))
        } else {
            index
        };
        left.insert(to, ids_at(left, to).insert(id))
    }
}

/// The tile smashed by moving onto `pos`: the loaded tile there, if it is smashable.
pub open spec fn smashed_tile_at(m: &ServerMap, pos: TileCoords) -> Option<Tile> {
    match m.spec_loaded_tile(pos) {
        Some(t) => if t.spec_is_smashable() { Some(t) } else { None },
        None => None,
    }
}

/// How many clients the usage map records for chunk key `k` (zero when there is no entry).
pub open spec fn usage_of(usage: Map<i128, usize>, k: i128) -> int {
    if usage.contains_key(k) {
        usage[k] as int
    } else {
        0
    }
}

impl ServerMap {
    /// Moves an entity one tile in the given direction, if the destination is free (its chunk
    /// is loaded, its tile does not block movement and no entity stands there); tiles in
    /// chunks that are not loaded count as blocking. The entity also turns to face the
    /// direction and the chunk index follows it. A smashable destination tile becomes smashed
    /// rock and is reported in the result. `None` (with nothing changed) when the entity is
    /// unknown or the destination is not free.
    pub fn move_entity_towards(&mut self, entity_id: Id, direction: Direction) -> (r: Option<EntityMovement>)
        requires
            old(self).wf(),
            old(self).entities().contains_key(entity_id.value) ==> direction.can_apply(
                old(self).entities()[entity_id.value].pos,
            ),
        ensures
            final(self).wf(),
            final(self).spec_seed() == old(self).spec_seed(),
            final(self).stored() == old(self).stored(),
            final(self).usage() == old(self).usage(),
            ({
                let id = entity_id.value;
                let e = old(self).entities()[id];
                let np = direction.spec_apply(e.pos);
                if old(self).entities().contains_key(id) && old(self).spec_position_free(np) {
                    let smashed = smashed_tile_at(old(self), np);
                    &&& r == Some(EntityMovement { old_position: e.pos, new_position: np, smashed_tile_option: smashed })
                    &&& final(self).entities() == old(self).entities().insert(id, Entity { pos: np, direction, ..e })
                    &&& final(self).index() == index_with_move(
                        old(self).index(),
                        id,
                        chunk_key(e.pos.spec_chunk()),
                        chunk_key(np.spec_chunk()),
                    )
                    &&& final(self).chunks() == if smashed is Some {
                        chunks_with_tile(old(self).chunks(), np, Tile::RockSmashed)
                    } else {
                        old(self).chunks()
                    }
                } else {
                    &&& r is None
                    &&& final(self).entities() == old(self).entities()
                    &&& final(self).index() == old(self).index()
                    &&& final(self).chunks() == old(self).chunks()
                }
            }),
    {
        let entity = match self.player_entities.get(&entity_id.value) {
            Some(e) => *e,
            None => {
                return None;
            },
        };
        let old_position = entity.pos;
        let new_position = direction.apply(old_position);
        if !self.is_position_free(new_position) {
            return None;
        }
        let moved = Entity { pos: new_position, direction, ..entity };
        self.player_entities.insert(entity_id.value, moved);
        assert(self.chunks() =~= old(self).chunks());
        assert(self.index() =~= old(self).index());
        let old_chunk = old_position.as_chunk_coords();
        let new_chunk = new_position.as_chunk_coords();
        let old_k = chunk_key_of(old_chunk);
        let new_k = chunk_key_of(new_chunk);
        if old_k != new_k {
            self.unindex(old_k, entity_id.value);
            self.index_insert(new_k, entity_id.value);
        }
        let smashed_tile_option = match self.loaded_tile_at(new_position) {
            Some(tile) => if tile.is_smashable() { Some(tile) } else { None },
            None => None,
        };
        if smashed_tile_option.is_some() {
            self.set_loaded_tile_at(new_position, Tile::RockSmashed);
        }
        Some(EntityMovement { old_position, new_position, smashed_tile_option })
    }

    /// The entities recorded in the index entry of the chunk at `coords` (with their IDs), each
    /// once, in no particular order.
    pub fn entities_in_chunk(&self, coords: ChunkCoords) -> (r: Vec<(Id, Entity)>)
        ensures
            lists_chunk_entities(r@, self.index(), self.entities(), chunk_key(coords), None),
    {
        self.entities_in_chunk_except(coords, None)
    }

    /// The entities recorded in the index entry of the chunk at `coords` (with their IDs),
    /// leaving out the one whose ID value is `exclude`, each once, in no particular order.
    pub fn entities_in_chunk_except(&self, coords: ChunkCoords, exclude: Option<u128>) -> (r: Vec<(Id, Entity)>)
        ensures
            lists_chunk_entities(r@, self.index(), self.entities(), chunk_key(coords), exclude),
    {
        let mut entities: Vec<(Id, Entity)> = Vec::new();
        let k = chunk_key_of(coords);
        match self.chunk_coords_to_player_ids.get(&k) {
            None => {
                assert(!self.index().contains_key(k));
                entities
            },
            Some(set) => {
                assert(self.index()[k] == set@);
                let ghost full: Seq<u128> = vstd::std_specs::hash::spec_hash_keys_iter(set).remaining().unref();
                for x in it: set.iter()
                    invariant
                        it.seq().unref() == full,
                        full.to_set() == set@,
                        full.no_duplicates(),
                        it.index() <= full.len(),
                        set@ == self.index()[k],
                        self.index().contains_key(k),
                        k == chunk_key(coords),
                        forall|a: int| 0 <= a < entities@.len() ==> {
                            let id = #[trigger] entities@[a].0.value;
                            &&& exists|j: int| 0 <= j < it.index() && full[j] == id
                            &&& self.entities().contains_key(id)
                            &&& entities@[a].1 == self.entities()[id]
                            &&& exclude != Some(id)
                        },
                        forall|j: int| 0 <= j < it.index() && self.entities().contains_key(#[trigger] full[j]) && exclude != Some(full[j])
                            ==> exists|a: int| 0 <= a < entities@.len() && (#[trigger] entities@[a]).0.value == full[j],
                        forall|a: int, b: int| 0 <= a < b < entities@.len() ==> (#[trigger] entities@[a]).0 != (#[trigger] entities@[b]).0,
                {
                    let id: u128 = *x;
                    let ghost i = it.index() as int;
                    proof {
                        assert(full[i] == id);
                        assert forall|a: int| 0 <= a < entities@.len() implies (#[trigger] entities@[a]).0.value != id by {
                            let j = choose|j: int| 0 <= j < i && full[j] == entities@[a].0.value;
                            assert(full[j] != full[i]);
                        }
                    }
                    let wanted = match exclude {
                        Some(x) => x != id,
                        None => true,
                    };
                    let found = if wanted { self.player_entities.get(&id) } else { None };
                    match found {
                        Some(entity) => {
                            let ghost before = entities@;
                            entities.push((Id::new(id), *entity));
                            proof {
                                assert forall|a: int| 0 <= a < entities@.len() implies {
                                    let eid = #[trigger] entities@[a].0.value;
                                    &&& exists|j: int| 0 <= j < i + 1 && full[j] == eid
                                    &&& self.entities().contains_key(eid)
                                    &&& entities@[a].1 == self.entities()[eid]
                                    &&& exclude != Some(eid)
                                } by {
                                    if a < before.len() {
                                        assert(before[a] == entities@[a]);
                                        let j = choose|j: int| 0 <= j < i && full[j] == before[a].0.value;
                                        assert(full[j] == entities@[a].0.value);
                                    } else {
                                        assert(full[i] == entities@[a].0.value);
                                    }
                                }
                                assert forall|j: int| 0 <= j < i + 1 && self.entities().contains_key(#[trigger] full[j]) && exclude != Some(full[j])
                                    implies exists|a: int| 0 <= a < entities@.len() && (#[trigger] entities@[a]).0.value == full[j] by {
                                    if j < i {
                                        let a = choose|a: int| 0 <= a < before.len() && (#[trigger] before[a]).0.value == full[j];
                                        assert(entities@[a] == before[a]);
                                    } else {
                                        assert(entities@[before.len() as int].0.value == full[j]);
                                    }
                                }
                                assert forall|a: int, b: int| 0 <= a < b < entities@.len()
                                    implies (#[trigger] entities@[a]).0 != (#[trigger] entities@[b]).0 by {
                                    if b < before.len() {
                                        assert(before[a] == entities@[a] && before[b] == entities@[b]);
                                    } else {
                                        assert(before[a] == entities@[a]);
                                    }
                                }
                            }
                        },
                        None => {},
                    }
                }
                proof {
                    assert forall|id: u128|
                        ids_at(self.index(), k).contains(id) && self.entities().contains_key(id) && exclude != Some(id)
                        implies exists|a: int| 0 <= a < entities@.len() && (#[trigger] entities@[a]).0.value == id by {
                        assert(full.to_set().contains(id));
                        let j = choose|j: int| 0 <= j < full.len() && full[j] == id;
                        assert(self.entities().contains_key(full[j]));
                    }
                }
                entities
            },
        }
    }

    /// Places a bomb belonging to `placer` at `pos` if the chunk of `pos` is loaded (a bomb
    /// already at `pos` is replaced); does nothing otherwise.
    pub fn set_bomb_at(&mut self, pos: TileCoords, placer: Id)
        requires
            old(self).wf(),
        ensures
            final(self).wf(),
            final(self).spec_seed() == old(self).spec_seed(),
            final(self).stored() == old(self).stored(),
            final(self).index() == old(self).index(),
            final(self).usage() == old(self).usage(),
            final(self).entities() == old(self).entities(),
            final(self).chunks() == chunks_with_bomb(old(self).chunks(), pos, placer),
    {
        self.loaded_chunks.set_bomb_at(pos, placer);
        assert(self.index() =~= old(self).index());
    }

    /// Removes every bomb placed by `placer` from the loaded chunks among the chunk at `coords`
    /// and the eight chunks around it, returning the positions of the removed bombs (chunk by
    /// chunk in the order of [`around_chunk`], each chunk's bombs in placement order).
    pub fn take_bombs_placed_by_in_and_around_chunk(&mut self, placer: Id, coords: ChunkCoords) -> (taken: Vec<TileCoords>)
        requires
            old(self).wf(),
            i32::MIN < coords.x < i32::MAX,
            i32::MIN < coords.y < i32::MAX,
        ensures
            final(self).wf(),
            final(self).spec_seed() == old(self).spec_seed(),
            final(self).stored() == old(self).stored(),
            final(self).index() == old(self).index(),
            final(self).usage() == old(self).usage(),
            final(self).entities() == old(self).entities(),
            final(self).chunks() == chunks_without_bombs_of(
                old(self).chunks(),
                around_chunk(coords).map_values(|c: ChunkCoords| chunk_key(c)).to_set(),
                placer,
            ),
            taken@ == bombs_taken_around(old(self).chunks(), around_chunk(coords), placer),
    {
        let taken = self.loaded_chunks.take_bombs_placed_by_in_and_around_chunk(placer, coords);
        assert(self.index() =~= old(self).index());
        taken
    }
}

/// The chunk at `coords`: a copy of the loaded one if the map has it; otherwise the chunk
/// loaded from storage if one is stored for `coords`, or else the one that `generator`
/// produces; that chunk is also added to the map's loaded chunks.
pub fn get_or_load_or_generate_chunk<G: Generator>(map: &mut ServerMap, generator: &G, coords: ChunkCoords) -> (c: Chunk)
    requires
        old(map).wf(),
    ensures
        final(map).wf(),
        c.wf(),
        final(map).spec_seed() == old(map).spec_seed(),
        final(map).usage() == old(map).usage(),
        final(map).entities() == old(map).entities(),
        final(map).stored() == old(map).stored(),
        old(map).has_chunk(coords) ==> {
            &&& c@ == old(map).chunks()[chunk_key(coords)]
            &&& final(map).chunks() == old(map).chunks()
            &&& final(map).index() == old(map).index()
        },
        !old(map).has_chunk(coords) ==> {
            &&& old(map).stored().contains_key(chunk_key(coords)) ==> c@ == old(map).stored()[chunk_key(coords)]
            &&& !old(map).stored().contains_key(chunk_key(coords)) ==> exists|g: Chunk| call_ensures(G::generate, (generator, coords), g) && c@ == g@
            &&& final(map).chunks() == old(map).chunks().insert(chunk_key(coords), c@)
            &&& final(map).index() == old(map).index().insert(chunk_key(coords), Set::<u128>::empty())
        },
{
    match map.loaded_chunk_at(coords) {
        Some(chunk) => {
            assert(map.chunks().contains_key(chunk_key(coords)));
            chunk.duplicate()
        },
        None => {
            proof {
                map.lemma_stored_wf();
            }
            let new_chunk = match map.stored_chunk_at(coords) {
                Some(stored) => stored.duplicate(),
                None => generator.generate(coords),
            };
            let copy = new_chunk.duplicate();
            map.add_chunk(coords, new_chunk);
            copy
        },
    }
}

/// A newly added entity blocks its own position, so no other entity can move onto it.
pub proof fn law_added_entity_blocks(m0: ServerMap, m1: ServerMap, id: Id, e: Entity)
    requires
        m1.entities() == m0.entities().insert(id.value, e),
        m1.index() == m0.index().insert(
            chunk_key(e.pos.spec_chunk()),
            ids_at(m0.index(), chunk_key(e.pos.spec_chunk())).insert(id.value),
        ),
    ensures
        m1.spec_blocking_entity_at(e.pos),
        !m1.spec_position_free(e.pos),
{
    assert(ids_at(m1.index(), chunk_key(e.pos.spec_chunk())).contains(id.value));
}

/// Removing an entity right after adding it gives back the added entity and leaves the
/// other entities as they were before the addition.
pub proof fn law_remove_after_add(entities: Map<u128, Entity>, id: Id, e: Entity)
    ensures
        entities.insert(id.value, e).contains_key(id.value),
        entities.insert(id.value, e)[id.value] == e,
        entities.insert(id.value, e).remove(id.value) == entities.remove(id.value),
{
    assert(entities.insert(id.value, e).remove(id.value) =~= entities.remove(id.value));
}

} // verus!
