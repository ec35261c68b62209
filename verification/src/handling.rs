use vstd::prelude::*;
use crate::chunk::Chunk;
use crate::coords::{chunk_key, chunk_key_of, ChunkCoords, TileCoords};
use crate::generation::Generator;
use crate::messages::{FromServer, Modification, ToServer};
use crate::chunk::chunk_view_wf;
use crate::loaded_chunks::{around_chunk, chunks_with_bomb, chunks_with_tile, chunks_without_bombs_of, ChunkView};
use crate::server_map::{
    get_or_load_or_generate_chunk, index_with_move, lists_chunk_entities, smashed_tile_at, usage_of, ServerMap,
};
use crate::world::{BoolItem, Entity, Gem, Id, QuantitativeItem, Tile};

verus! {

/// The most chunks that one client may have loaded at a time.
pub const MAX_LOADED_CHUNKS_PER_CLIENT: usize = 12;

/// What the server keeps for one connected client: the coordinates of the chunks that the
/// client has loaded, from least to most recently provided.
pub struct Session {
    pub remote_loaded_chunk_coords: Vec<ChunkCoords>,
}

impl View for Session {
    type V = Seq<ChunkCoords>;

    open spec fn view(&self) -> Seq<ChunkCoords> {
        self.remote_loaded_chunk_coords@
    }
}

/// The message (if any) that tells a client about a change made to the map by another
/// connection, given the chunks that the client has loaded and the map's entities after the
/// change.
pub open spec fn spec_map_change_response(
    loaded: Seq<ChunkCoords>,
    entities: Map<u128, Entity>,
    modification: Modification,
) -> Option<FromServer> {
    match modification {
        Modification::TileChanged(position, tile) => if loaded.contains(position.spec_chunk()) {
            Some(FromServer::ChangeTile(position, tile))
        } else {
            None
        },
        Modification::EntityMoved { entity_id, old_position, new_position, direction } => {
            let was_in_loaded = loaded.contains(old_position.spec_chunk());
            let is_in_loaded = loaded.contains(new_position.spec_chunk());
            if was_in_loaded && is_in_loaded {
                Some(FromServer::MoveEntity(entity_id, new_position, direction))
            } else if was_in_loaded {
                Some(FromServer::ShouldUnloadEntity(entity_id))
            } else if is_in_loaded && entities.contains_key(entity_id.value) {
                Some(FromServer::ProvideEntity(entity_id, entities[entity_id.value]))
            } else {
                None
            }
        },
        Modification::EntityAdded(entity_id) => if entities.contains_key(entity_id.value) && loaded.contains(
            entities[entity_id.value].pos.spec_chunk(),
        ) {
            Some(FromServer::ProvideEntity(entity_id, entities[entity_id.value]))
        } else {
            None
        },
        Modification::EntityRemoved(entity_id, chunk_coords) => if loaded.contains(chunk_coords) {
            Some(FromServer::ShouldUnloadEntity(entity_id))
        } else {
            None
        },
        Modification::BombPlaced(position, placed_by_entity_id) => if loaded.contains(position.spec_chunk()) {
            Some(FromServer::BombPlaced { placed_by_entity_id, position })
        } else {
            None
        },
        Modification::BombsDetonated(placed_by_entity_id) => if entities.contains_key(placed_by_entity_id.value) {
            Some(
                FromServer::BombsDetonated {
                    placed_by_entity_id,
                    in_and_around_chunk_coords: entities[placed_by_entity_id.value].pos.spec_chunk(),
                },
            )
        } else {
            None
        },
    }
}

/// A client hears of a change to a tile or a bomb only when it has the chunk of that position
/// loaded, and then of exactly that change; it hears of an entity being added or removed only
/// when the entity is (or was) in one of its loaded chunks.
pub proof fn law_map_changes_only_for_loaded_chunks(
    loaded: Seq<ChunkCoords>,
    entities: Map<u128, Entity>,
    modification: Modification,
)
    ensures
        match modification {
            Modification::TileChanged(position, tile) => {
                &&& spec_map_change_response(loaded, entities, modification) is Some
                    ==> loaded.contains(position.spec_chunk())
                &&& loaded.contains(position.spec_chunk()) ==> spec_map_change_response(loaded, entities, modification)
                    == Some(FromServer::ChangeTile(position, tile))
            },
            Modification::BombPlaced(position, placer) => {
                &&& spec_map_change_response(loaded, entities, modification) is Some
                    ==> loaded.contains(position.spec_chunk())
                &&& loaded.contains(position.spec_chunk()) ==> spec_map_change_response(loaded, entities, modification)
                    == Some(FromServer::BombPlaced { placed_by_entity_id: placer, position })
            },
            Modification::EntityRemoved(id, chunk) => spec_map_change_response(loaded, entities, modification) is Some
                ==> loaded.contains(chunk),
            Modification::EntityAdded(id) => spec_map_change_response(loaded, entities, modification) is Some ==> {
                &&& entities.contains_key(id.value)
                &&& loaded.contains(entities[id.value].pos.spec_chunk())
            },
            _ => true,
        },
{
}

/// A client with no chunks loaded hears of no change to a tile, whatever the change.
pub proof fn law_client_without_chunks_hears_no_tile_changes(entities: Map<u128, Entity>, position: TileCoords, tile: Tile)
    ensures
        spec_map_change_response(Seq::empty(), entities, Modification::TileChanged(position, tile)) is None,
{
}

impl Session {
    /// A session for a client that has no chunks loaded yet.
    pub fn new() -> (s: Session)
        ensures
            s@ == Seq::<ChunkCoords>::empty(),
    {
        Session { remote_loaded_chunk_coords: Vec::new() }
    }

    /// Whether the client has the chunk at `coords` loaded.
    pub fn has_loaded(&self, coords: ChunkCoords) -> (r: bool)
        ensures
            r == self@.contains(coords),
    {
        let mut i: usize = 0;
        while i < self.remote_loaded_chunk_coords.len()
            invariant
                i <= self@.len(),
                forall|j: int| 0 <= j < i ==> self@[j] != coords,
            decreases self@.len() - i,
        {
            if self.remote_loaded_chunk_coords[i] == coords {
                assert(self@[i as int] == coords);
                return true;
            }
            i = i + 1;
        }
        false
    }

    /// The message (if any) that informs this session's client of a change that another
    /// connection made to the map: changes within the client's loaded chunks are passed on,
    /// an entity entering them is provided and one leaving them is unloaded.
    pub fn handle_map_change(&self, map: &ServerMap, modification: Modification) -> (r: Option<FromServer>)
        ensures
            r == spec_map_change_response(self@, map.entities(), modification),
    {
        match modification {
            Modification::TileChanged(position, tile) => {
                if self.has_loaded(position.as_chunk_coords()) {
                    Some(FromServer::ChangeTile(position, tile))
                } else {
                    None
                }
            },
            Modification::EntityMoved { entity_id, old_position, new_position, direction } => {
                let was_in_loaded = self.has_loaded(old_position.as_chunk_coords());
                let is_in_loaded = self.has_loaded(new_position.as_chunk_coords());
                if was_in_loaded && is_in_loaded {
                    Some(FromServer::MoveEntity(entity_id, new_position, direction))
                } else if was_in_loaded {
                    Some(FromServer::ShouldUnloadEntity(entity_id))
                } else if is_in_loaded {
                    match map.entity_by_id(entity_id) {
                        Some(entity) => Some(FromServer::ProvideEntity(entity_id, *entity)),
                        None => None,
                    }
                } else {
                    None
                }
            },
            Modification::EntityAdded(entity_id) => {
                match map.entity_by_id(entity_id) {
                    Some(entity) => {
                        if self.has_loaded(entity.pos.as_chunk_coords()) {
                            Some(FromServer::ProvideEntity(entity_id, *entity))
                        } else {
                            None
                        }
                    },
                    None => None,
                }
            },
            Modification::EntityRemoved(entity_id, chunk_coords) => {
                if self.has_loaded(chunk_coords) {
                    Some(FromServer::ShouldUnloadEntity(entity_id))
                } else {
                    None
                }
            },
            Modification::BombPlaced(position, placed_by_entity_id) => {
                if self.has_loaded(position.as_chunk_coords()) {
                    Some(FromServer::BombPlaced { placed_by_entity_id, position })
                } else {
                    None
                }
            },
            Modification::BombsDetonated(placed_by_entity_id) => {
                match map.entity_by_id(placed_by_entity_id) {
                    Some(entity) => Some(
                        FromServer::BombsDetonated {
                            placed_by_entity_id,
                            in_and_around_chunk_coords: entity.pos.as_chunk_coords(),
                        },
                    ),
                    None => None,
                }
            },
        }
    }
}

/// Index of the first occurrence of `c` in `s` (meaningful when `s` contains `c`).
pub open spec fn first_index_of(s: Seq<ChunkCoords>, c: ChunkCoords) -> int {
    choose|i: int| 0 <= i < s.len() && s[i] == c && (forall|j: int| 0 <= j < i ==> s[j] != c)
}

/// The loaded chunk coordinates with `c` moved to the end (or added at the end when absent).
pub open spec fn list_bumped(s: Seq<ChunkCoords>, c: ChunkCoords) -> Seq<ChunkCoords> {
    if s.contains(c) {
        s.remove(first_index_of(s, c)).push(c)
    } else {
        s.push(c)
    }
}

/// The chunk that providing `c` makes the client drop: the least recently provided one, when
/// more than the maximum would otherwise be loaded.
pub open spec fn evicted_by_provide(s: Seq<ChunkCoords>, c: ChunkCoords) -> Option<ChunkCoords> {
    let b = list_bumped(s, c);
    if b.len() > MAX_LOADED_CHUNKS_PER_CLIENT {
        Some(b[0])
    } else {
        None
    }
}

/// The loaded chunk coordinates after `c` is provided.
pub open spec fn list_after_provide(s: Seq<ChunkCoords>, c: ChunkCoords) -> Seq<ChunkCoords> {
    let b = list_bumped(s, c);
    if b.len() > MAX_LOADED_CHUNKS_PER_CLIENT {
        b.drop_first()
    } else {
        b
    }
}

/// The usage map with one more user of chunk key `k`.
pub open spec fn usage_inc(u: Map<i128, usize>, k: i128) -> Map<i128, usize> {
    u.insert(k, (usage_of(u, k) + 1) as usize)
}

/// The usage map with one user fewer of chunk key `k`.
pub open spec fn usage_dec(u: Map<i128, usize>, k: i128) -> Map<i128, usize> {
    u.insert(k, (usage_of(u, k) - 1) as usize)
}

/// The usage map once this session's client has been provided with `c` (given its loaded
/// chunks `s` before).
pub open spec fn usage_after_new(u: Map<i128, usize>, s: Seq<ChunkCoords>, c: ChunkCoords) -> Map<i128, usize> {
    if s.contains(c) {
        u
    } else {
        usage_inc(u, chunk_key(c))
    }
}

/// The usage map after providing `c`, including the release of an evicted chunk.
pub open spec fn usage_after_provide(u: Map<i128, usize>, s: Seq<ChunkCoords>, c: ChunkCoords) -> Map<i128, usize> {
    let u1 = usage_after_new(u, s, c);
    match evicted_by_provide(s, c) {
        Some(c0) => usage_dec(u1, chunk_key(c0)),
        None => u1,
    }
}

/// Whether providing `c` releases the last user of the evicted chunk (which is then removed
/// from the map).
pub open spec fn provide_removes_evicted(u: Map<i128, usize>, s: Seq<ChunkCoords>, c: ChunkCoords) -> bool {
    match evicted_by_provide(s, c) {
        Some(c0) => usage_of(usage_after_new(u, s, c), chunk_key(c0)) == 1,
        None => false,
    }
}

/// The keys of the loaded chunks after providing `c`.
pub open spec fn loaded_after_provide(d: Set<i128>, u: Map<i128, usize>, s: Seq<ChunkCoords>, c: ChunkCoords) -> Set<i128> {
    let d1 = if s.contains(c) {
        d
    } else {
        d.insert(chunk_key(c))
    };
    match evicted_by_provide(s, c) {
        Some(c0) => if provide_removes_evicted(u, s, c) {
            d1.remove(chunk_key(c0))
        } else {
            d1
        },
        None => d1,
    }
}

/// The entity index after providing `c`.
pub open spec fn index_after_provide(
    index: Map<i128, Set<u128>>,
    d: Set<i128>,
    u: Map<i128, usize>,
    s: Seq<ChunkCoords>,
    c: ChunkCoords,
) -> Map<i128, Set<u128>> {
    let i1 = index_after_new(index, d, s, c);
    match evicted_by_provide(s, c) {
        Some(c0) => if provide_removes_evicted(u, s, c) {
            i1.remove(chunk_key(c0))
        } else {
            i1
        },
        None => i1,
    }
}

/// The entity index once a chunk that the client did not have is loaded for it.
pub open spec fn index_after_new(index: Map<i128, Set<u128>>, d: Set<i128>, s: Seq<ChunkCoords>, c: ChunkCoords) -> Map<i128, Set<u128>> {
    if !s.contains(c) && !d.contains(chunk_key(c)) {
        index.insert(chunk_key(c), Set::empty())
    } else {
        index
    }
}

/// Whether the chunk list has no repeated coordinates, is within the maximum length, and
/// every chunk in it has at least one user in `u`.
pub open spec fn session_consistent(s: Seq<ChunkCoords>, u: Map<i128, usize>) -> bool {
    &&& s.no_duplicates()
    &&& s.len() <= MAX_LOADED_CHUNKS_PER_CLIENT
    &&& forall|i: int| 0 <= i < s.len() ==> usage_of(u, chunk_key(#[trigger] s[i])) >= 1
}

/// Whether every usage count can grow by `n` without overflowing.
pub open spec fn usage_has_room(u: Map<i128, usize>, n: int) -> bool {
    forall|k: i128| #[trigger] usage_of(u, k) + n <= usize::MAX
}

/// `msgs` provides the entities listed in `s`, in order.
pub open spec fn provides_entities(msgs: Seq<FromServer>, s: Seq<(Id, Entity)>) -> bool {
    &&& msgs.len() == s.len()
    &&& forall|i: int| 0 <= i < s.len() ==> msgs[i] == FromServer::ProvideEntity(s[i].0, s[i].1)
}

/// `msgs` tells the client to unload the entities listed in `s`, in order.
pub open spec fn unloads_entities(msgs: Seq<FromServer>, s: Seq<(Id, Entity)>) -> bool {
    &&& msgs.len() == s.len()
    &&& forall|i: int| 0 <= i < s.len() ==> msgs[i] == FromServer::ShouldUnloadEntity(s[i].0)
}

impl Session {
    /// Position of the first occurrence of `coords` in the loaded chunk list.
    fn position_of(&self, coords: ChunkCoords) -> (r: Option<usize>)
        ensures
            match r {
                Some(i) => self@.contains(coords) && i == first_index_of(self@, coords) && i < self@.len(),
                None => !self@.contains(coords),
            },
    {
        let mut i: usize = 0;
        while i < self.remote_loaded_chunk_coords.len()
            invariant
                i <= self@.len(),
                forall|j: int| 0 <= j < i ==> self@[j] != coords,
            decreases self@.len() - i,
        {
            if self.remote_loaded_chunk_coords[i] == coords {
                proof {
                    let s = self@;
                    assert(s[i as int] == coords);
                    let f = first_index_of(s, coords);
                    assert(0 <= f < s.len() && s[f] == coords && (forall|j: int| 0 <= j < f ==> s[j] != coords));
                    if f < i {
                        assert(s[f] != coords);
                    }
                    if f > i {
                        assert(s[i as int] != coords);
                    }
                }
                return Some(i);
            }
            i = i + 1;
        }
        None
    }

    /// Moves `coords` to the end of the loaded chunk list (adding it when absent); tells
    /// whether it was present.
    fn bump(&mut self, coords: ChunkCoords) -> (found: bool)
        ensures
            found == old(self)@.contains(coords),
            final(self)@ == list_bumped(old(self)@, coords),
    {
        match self.position_of(coords) {
            Some(index) => {
                self.remote_loaded_chunk_coords.remove(index);
                self.remote_loaded_chunk_coords.push(coords);
                true
            },
            None => {
                self.remote_loaded_chunk_coords.push(coords);
                false
            },
        }
    }

    /// Releases this client's use of the chunk at `coords`; when no client uses the chunk any
    /// more it is removed from the map and returned so that it can be saved.
    pub fn chunk_not_needed(&self, map: &mut ServerMap, coords: ChunkCoords) -> (r: Option<Chunk>)
        requires
            old(map).wf(),
            usage_of(old(map).usage(), chunk_key(coords)) > 0,
        ensures
            final(map).wf(),
            final(map).spec_seed() == old(map).spec_seed(),
            final(map).entities() == old(map).entities(),
            final(map).usage() == usage_dec(old(map).usage(), chunk_key(coords)),
            usage_of(old(map).usage(), chunk_key(coords)) == 1 ==> {
                &&& final(map).chunks() == old(map).chunks().remove(chunk_key(coords))
                &&& final(map).index() == old(map).index().remove(chunk_key(coords))
                &&& match r {
                    Some(c) => old(map).has_chunk(coords) && c@ == old(map).chunks()[chunk_key(coords)] && c.wf(),
                    None => !old(map).has_chunk(coords),
                }
            },
            usage_of(old(map).usage(), chunk_key(coords)) > 1 ==> {
                &&& final(map).chunks() == old(map).chunks()
                &&& final(map).index() == old(map).index()
                &&& r is None
            },
    {
        map.chunk_not_in_use(coords)
    }
}

/// Moving `c` to the end of a list without repeats keeps it without repeats, makes `c` the
/// last element, and keeps the same elements plus `c`.
pub proof fn lemma_bumped(s: Seq<ChunkCoords>, c: ChunkCoords)
    requires
        s.no_duplicates(),
    ensures
        list_bumped(s, c).no_duplicates(),
        list_bumped(s, c).len() == if s.contains(c) { s.len() } else { s.len() + 1 },
        list_bumped(s, c).len() >= 1,
        list_bumped(s, c).last() == c,
        forall|x: ChunkCoords| list_bumped(s, c).contains(x) <==> (s.contains(x) || x == c),
{
    let b = list_bumped(s, c);
    if s.contains(c) {
        let i = first_index_of(s, c);
        let w = choose|j: int| 0 <= j < s.len() && s[j] == c;
        assert(0 <= w < s.len() && s[w] == c);
        if !(0 <= i < s.len() && s[i] == c && (forall|j: int| 0 <= j < i ==> s[j] != c)) {
            // the witness itself is the first occurrence, since there are no repeats
            assert forall|j: int| 0 <= j < w implies s[j] != c by {
                if s[j] == c {
                    assert(s[j] == s[w]);
                }
            }
        }
        assert(0 <= i < s.len() && s[i] == c);
        let r = s.remove(i);
        s.remove_ensures(i);
        assert(b == r.push(c));
        assert forall|x: int, y: int| 0 <= x < b.len() && 0 <= y < b.len() && x != y implies b[x] != b[y] by {
            let sx = if x < i { x } else { x + 1 };
            let sy = if y < i { y } else { y + 1 };
            if x < b.len() - 1 && y < b.len() - 1 {
                assert(b[x] == s[sx] && b[y] == s[sy]);
            } else if x < b.len() - 1 {
                assert(b[x] == s[sx]);
                assert(sx != i);
            } else {
                assert(b[y] == s[sy]);
                assert(sy != i);
            }
        }
        assert forall|x: ChunkCoords| b.contains(x) <==> (s.contains(x) || x == c) by {
            if b.contains(x) {
                let j = choose|j: int| 0 <= j < b.len() && b[j] == x;
                if j < b.len() - 1 {
                    let sj = if j < i { j } else { j + 1 };
                    assert(s[sj] == x);
                }
            }
            if s.contains(x) {
                let j = choose|j: int| 0 <= j < s.len() && s[j] == x;
                if j < i {
                    assert(b[j] == x);
                } else if j > i {
                    assert(b[j - 1] == x);
                } else {
                    assert(b[b.len() - 1] == x);
                }
            }
            if x == c {
                assert(b[b.len() - 1] == x);
            }
        }
    } else {
        assert forall|x: int, y: int| 0 <= x < b.len() && 0 <= y < b.len() && x != y implies b[x] != b[y] by {
            if x < s.len() && y < s.len() {
            } else if x < s.len() {
                assert(s.contains(b[x]));
            } else {
                assert(s.contains(b[y]));
            }
        }
        assert forall|x: ChunkCoords| b.contains(x) <==> (s.contains(x) || x == c) by {
            if b.contains(x) {
                let j = choose|j: int| 0 <= j < b.len() && b[j] == x;
                if j < s.len() {
                    assert(s[j] == x);
                }
            }
            if s.contains(x) {
                let j = choose|j: int| 0 <= j < s.len() && s[j] == x;
                assert(b[j] == x);
            }
            if x == c {
                assert(b[s.len() as int] == x);
            }
        }
    }
}

/// Providing a chunk keeps the loaded chunk list without repeats and within the maximum
/// length, makes the provided chunk the most recent one, and drops only the evicted chunk.
pub proof fn law_provide_keeps_list_bounded(s: Seq<ChunkCoords>, c: ChunkCoords)
    requires
        s.no_duplicates(),
        s.len() <= MAX_LOADED_CHUNKS_PER_CLIENT,
    ensures
        list_after_provide(s, c).no_duplicates(),
        list_after_provide(s, c).len() <= MAX_LOADED_CHUNKS_PER_CLIENT,
        list_after_provide(s, c).len() >= 1,
        list_after_provide(s, c).last() == c,
        forall|x: ChunkCoords| #[trigger] list_after_provide(s, c).contains(x) ==> x == c || s.contains(x),
        forall|x: ChunkCoords|
            (s.contains(x) || x == c) && evicted_by_provide(s, c) != Some(x) ==> #[trigger] list_after_provide(s, c).contains(x),
        evicted_by_provide(s, c) matches Some(c0) ==> {
            &&& c0 != c
            &&& s.contains(c0)
            &&& !list_after_provide(s, c).contains(c0)
            &&& !s.contains(c)
        },
{
    lemma_bumped(s, c);
    let b = list_bumped(s, c);
    let l = list_after_provide(s, c);
    if b.len() > MAX_LOADED_CHUNKS_PER_CLIENT {
        assert(l == b.drop_first());
        assert(b.len() == 13);
        assert(!s.contains(c));
        let c0 = b[0];
        assert(c0 != c) by {
            assert(b[b.len() - 1] == c);
        }
        assert(b.contains(c0));
        assert forall|x: int, y: int| 0 <= x < l.len() && 0 <= y < l.len() && x != y implies l[x] != l[y] by {
            assert(l[x] == b[x + 1] && l[y] == b[y + 1]);
        }
        assert(l.last() == b.last());
        assert(!l.contains(c0)) by {
            if l.contains(c0) {
                let j = choose|j: int| 0 <= j < l.len() && l[j] == c0;
                assert(b[j + 1] == b[0]);
            }
        }
        assert forall|x: ChunkCoords| #[trigger] l.contains(x) implies x == c || s.contains(x) by {
            let j = choose|j: int| 0 <= j < l.len() && l[j] == x;
            assert(b[j + 1] == x);
            assert(b.contains(x));
        }
        assert forall|x: ChunkCoords| (s.contains(x) || x == c) && evicted_by_provide(s, c) != Some(x) implies #[trigger] l.contains(x) by {
            assert(b.contains(x));
            let j = choose|j: int| 0 <= j < b.len() && b[j] == x;
            assert(j != 0);
            assert(l[j - 1] == x);
        }
    } else {
        assert(l == b);
    }
}

/// Whether `msgs` is what providing `coords` tells the client (given its loaded chunk list
/// `list` before): for a chunk that the client did not have, the chunk itself (as the map holds
/// it, or as it was generated) followed by the entities in it other than the client's own
/// player entity; then, if the oldest chunk is evicted, the unloading of the entities in that
/// chunk followed by the unloading of the chunk. `index` is the entity index once the chunk is
/// loaded.
pub open spec fn provision_msgs(
    msgs: Seq<FromServer>,
    chunks_before: Map<i128, ChunkView>,
    chunks_after: Map<i128, ChunkView>,
    index: Map<i128, Set<u128>>,
    entities: Map<u128, Entity>,
    list: Seq<ChunkCoords>,
    coords: ChunkCoords,
    player: u128,
) -> bool {
    exists|pe: Seq<(Id, Entity)>, ue: Seq<(Id, Entity)>|
        #[trigger] provision_msgs_listing(msgs, chunks_before, chunks_after, index, entities, list, coords, player, pe, ue)
}

/// [`provision_msgs`] with the provided entities listed in `pe` and the unloaded ones in `ue`.
pub open spec fn provision_msgs_listing(
    msgs: Seq<FromServer>,
    chunks_before: Map<i128, ChunkView>,
    chunks_after: Map<i128, ChunkView>,
    index: Map<i128, Set<u128>>,
    entities: Map<u128, Entity>,
    list: Seq<ChunkCoords>,
    coords: ChunkCoords,
    player: u128,
    pe: Seq<(Id, Entity)>,
    ue: Seq<(Id, Entity)>,
) -> bool {
    let k = chunk_key(coords);
    let found = list.contains(coords);
    let n = if found { 0int } else { 1 + pe.len() as int };
    &&& !found ==> {
        &&& msgs.len() >= n
        &&& msgs[0] matches FromServer::ProvideChunk(c, ch) && c == coords && chunk_view_wf(ch@) && (
        chunks_before.contains_key(k) ==> ch@ == chunks_before[k]) && (!chunks_before.contains_key(k)
            && chunks_after.contains_key(k) ==> ch@ == chunks_after[k])
        &&& lists_chunk_entities(pe, index, entities, k, Some(player))
        &&& provides_entities(msgs.subrange(1, n), pe)
    }
    &&& match evicted_by_provide(list, coords) {
        Some(c0) => {
            &&& msgs.len() == n + ue.len() + 1
            &&& lists_chunk_entities(ue, index, entities, chunk_key(c0), None)
            &&& unloads_entities(msgs.subrange(n, n + ue.len()), ue)
            &&& msgs[msgs.len() - 1] == FromServer::ShouldUnloadChunk(c0)
        },
        None => msgs.len() == n,
    }
}

/// Appends a provide-entity message for each listed entity.
fn push_provide_entities(msgs: &mut Vec<FromServer>, listing: &Vec<(Id, Entity)>)
    ensures
        final(msgs)@.len() == old(msgs)@.len() + listing@.len(),
        final(msgs)@.subrange(0, old(msgs)@.len() as int) == old(msgs)@,
        provides_entities(final(msgs)@.subrange(old(msgs)@.len() as int, final(msgs)@.len() as int), listing@),
{
    let ghost start = msgs@;
    let mut i: usize = 0;
    while i < listing.len()
        invariant
            i <= listing@.len(),
            msgs@.len() == start.len() + i,
            msgs@.subrange(0, start.len() as int) == start,
            forall|j: int| 0 <= j < i ==> msgs@[start.len() + j] == FromServer::ProvideEntity(listing@[j].0, listing@[j].1),
        decreases listing@.len() - i,
    {
        let entry = listing[i];
        msgs.push(FromServer::ProvideEntity(entry.0, entry.1));
        proof {
            assert(msgs@.subrange(0, start.len() as int) =~= start);
        }
        i = i + 1;
    }
    proof {
        let tail = msgs@.subrange(start.len() as int, msgs@.len() as int);
        assert forall|j: int| 0 <= j < listing@.len() implies tail[j] == FromServer::ProvideEntity(listing@[j].0, listing@[j].1) by {
            assert(tail[j] == msgs@[start.len() + j]);
        }
    }
}

/// Appends an unload-entity message for each listed entity.
fn push_unload_entities(msgs: &mut Vec<FromServer>, listing: &Vec<(Id, Entity)>)
    ensures
        final(msgs)@.len() == old(msgs)@.len() + listing@.len(),
        final(msgs)@.subrange(0, old(msgs)@.len() as int) == old(msgs)@,
        unloads_entities(final(msgs)@.subrange(old(msgs)@.len() as int, final(msgs)@.len() as int), listing@),
{
    let ghost start = msgs@;
    let mut i: usize = 0;
    while i < listing.len()
        invariant
            i <= listing@.len(),
            msgs@.len() == start.len() + i,
            msgs@.subrange(0, start.len() as int) == start,
            forall|j: int| 0 <= j < i ==> msgs@[start.len() + j] == FromServer::ShouldUnloadEntity(listing@[j].0),
        decreases listing@.len() - i,
    {
        let entry = listing[i];
        msgs.push(FromServer::ShouldUnloadEntity(entry.0));
        proof {
            assert(msgs@.subrange(0, start.len() as int) =~= start);
        }
        i = i + 1;
    }
    proof {
        let tail = msgs@.subrange(start.len() as int, msgs@.len() as int);
        assert forall|j: int| 0 <= j < listing@.len() implies tail[j] == FromServer::ShouldUnloadEntity(listing@[j].0) by {
            assert(tail[j] == msgs@[start.len() + j]);
        }
    }
}

impl Session {
    /// Provides the chunk at `coords` to this session's client: a chunk that the client already
    /// has becomes its most recently provided one; otherwise the chunk (taken from the map, or
    /// newly generated and added to it) is provided along with the entities in it other than
    /// the client's own player entity, and the map counts one more user of it. If more than
    /// the maximum number of chunks are then loaded, the oldest is unloaded along with its
    /// entities and released (a chunk that no client uses any more is removed from the map and
    /// appended to `to_save`). Returns the messages for the client.
    pub fn provide_chunk_with_entities<G: Generator>(
        &mut self,
        map: &mut ServerMap,
        generator: &G,
        coords: ChunkCoords,
        player_id: Id,
        to_save: &mut Vec<(ChunkCoords, Chunk)>,
    ) -> (msgs: Vec<FromServer>)
        requires
            old(map).wf(),
            session_consistent(old(self)@, old(map).usage()),
            usage_has_room(old(map).usage(), 1),
        ensures
            final(map).wf(),
            final(map).spec_seed() == old(map).spec_seed(),
            final(map).entities() == old(map).entities(),
            final(self)@ == list_after_provide(old(self)@, coords),
            final(map).usage() == usage_after_provide(old(map).usage(), old(self)@, coords),
            final(map).chunks().dom() == loaded_after_provide(
                old(map).chunks().dom(),
                old(map).usage(),
                old(self)@,
                coords,
            ),
            forall|k: i128|
                final(map).chunks().contains_key(k) && old(map).chunks().contains_key(k)
                    ==> #[trigger] final(map).chunks()[k] == old(map).chunks()[k],
            final(map).index() == index_after_provide(
                old(map).index(),
                old(map).chunks().dom(),
                old(map).usage(),
                old(self)@,
                coords,
            ),
            session_consistent(final(self)@, final(map).usage()),
            forall|k: i128| #[trigger] usage_of(final(map).usage(), k) <= usage_of(old(map).usage(), k) + 1,
            provision_msgs(
                msgs@,
                old(map).chunks(),
                final(map).chunks(),
                index_after_new(old(map).index(), old(map).chunks().dom(), old(self)@, coords),
                old(map).entities(),
                old(self)@,
                coords,
                player_id.value,
            ),
            final(to_save)@.subrange(0, old(to_save)@.len() as int) == old(to_save)@,
            old(to_save)@.len() <= final(to_save)@.len() <= old(to_save)@.len() + 1,
            final(to_save)@.len() == old(to_save)@.len() + 1 ==> ({
                let saved = final(to_save)@[old(to_save)@.len() as int];
                &&& evicted_by_provide(old(self)@, coords) == Some(saved.0)
                &&& provide_removes_evicted(old(map).usage(), old(self)@, coords)
                &&& old(map).chunks().contains_key(chunk_key(saved.0))
                &&& saved.1@ == old(map).chunks()[chunk_key(saved.0)]
                &&& saved.1.wf()
            }),
            (provide_removes_evicted(old(map).usage(), old(self)@, coords) && old(map).chunks().contains_key(
                chunk_key(evicted_by_provide(old(self)@, coords)->0),
            )) ==> final(to_save)@.len() == old(to_save)@.len() + 1,
    {
        let ghost list0 = self@;
        let ghost u0 = map.usage();
        let ghost m0_chunks = map.chunks();
        let ghost k = chunk_key(coords);
        proof {
            law_provide_keeps_list_bounded(list0, coords);
            lemma_bumped(list0, coords);
        }
        let found = self.bump(coords);
        let mut msgs: Vec<FromServer> = Vec::new();
        let ghost mut pe: Seq<(Id, Entity)> = Seq::empty();
        if !found {
            let chunk = get_or_load_or_generate_chunk(map, generator, coords);
            let ghost cv = chunk@;
            proof {
                assert(chunk_view_wf(cv));
            }
            msgs.push(FromServer::ProvideChunk(coords, chunk));
            let listing = map.entities_in_chunk_except(coords, Some(player_id.value));
            proof {
                pe = listing@;
            }
            let ghost first = msgs@;
            push_provide_entities(&mut msgs, &listing);
            proof {
                assert(msgs@[0] == first[0]);
                assert(first[0] matches FromServer::ProvideChunk(c, ch) && c == coords && ch@ == cv);
            }
            assert(usage_of(map.usage(), chunk_key(coords)) + 1 <= usize::MAX);
            map.chunk_in_use(coords);
        }
        proof {
            assert(index_after_new(map.index(), m0_chunks.dom(), list0, coords) == map.index()) by {
                // once loaded, the chunk is in the map's domain
                if !found {
                    assert(map.chunks().dom().contains(k));
                }
            }
        }
        let ghost msgs_new = msgs@;
        let ghost mid_index = map.index();
        let ghost mid_usage = map.usage();
        let ghost mid_chunks = map.chunks();
        let ghost n: int = msgs@.len() as int;
        let ghost mut ue: Seq<(Id, Entity)> = Seq::empty();
        proof {
            assert(mid_usage == usage_after_new(u0, list0, coords));
            assert(mid_index == index_after_new(old(map).index(), m0_chunks.dom(), list0, coords));
        }
        if self.remote_loaded_chunk_coords.len() > MAX_LOADED_CHUNKS_PER_CLIENT {
            let c0 = self.remote_loaded_chunk_coords.remove(0);
            proof {
                assert(evicted_by_provide(list0, coords) == Some(c0));
                assert(list0.contains(c0));
                let j = choose|j: int| 0 <= j < list0.len() && list0[j] == c0;
                assert(usage_of(u0, chunk_key(list0[j])) >= 1);
                crate::coords::lemma_chunk_key_injective(c0, coords);
            }
            let listing = map.entities_in_chunk(c0);
            proof {
                ue = listing@;
            }
            push_unload_entities(&mut msgs, &listing);
            let ghost after_unload = msgs@;
            msgs.push(FromServer::ShouldUnloadChunk(c0));
            proof {
                assert(msgs@.subrange(0, n) =~= after_unload.subrange(0, n));
                assert(msgs@.subrange(n, n + ue.len()) =~= after_unload.subrange(n, n + ue.len()));
            }
            let saved = self.chunk_not_needed(map, c0);
            match saved {
                Some(ch) => {
                    to_save.push((c0, ch));
                },
                None => {},
            }
        }
        proof {
            let l = list_after_provide(list0, coords);
            assert(self@ == l);
            // the list stays consistent with the usage counts
            assert forall|i: int| 0 <= i < l.len() implies usage_of(map.usage(), chunk_key(#[trigger] l[i])) >= 1 by {
                let x = l[i];
                assert(l.contains(x));
                if x == coords {
                } else {
                    assert(list0.contains(x));
                    let j = choose|j: int| 0 <= j < list0.len() && list0[j] == x;
                    assert(usage_of(u0, chunk_key(list0[j])) >= 1);
                    if let Some(c0) = evicted_by_provide(list0, coords) {
                        crate::coords::lemma_chunk_key_injective(x, c0);
                        crate::coords::lemma_chunk_key_injective(x, coords);
                    } else {
                        crate::coords::lemma_chunk_key_injective(x, coords);
                    }
                }
            }
            assert(map.chunks().dom() =~= loaded_after_provide(m0_chunks.dom(), u0, list0, coords));
            // the messages
            let found_s = list0.contains(coords);
            let nn = if found_s { 0int } else { 1 + pe.len() as int };
            assert(n == nn);
            assert(msgs@.subrange(0, n) == msgs_new);
            if !found_s {
                assert(msgs@.len() >= nn);
                assert(msgs@.subrange(1, nn) =~= msgs_new.subrange(1, nn));
                assert(msgs@[0] == msgs_new[0]);
                assert(provides_entities(msgs@.subrange(1, nn), pe));
                assert(lists_chunk_entities(pe, mid_index, old(map).entities(), k, Some(player_id.value)));
                assert(msgs@[0] matches FromServer::ProvideChunk(c, ch) && c == coords && chunk_view_wf(ch@));
            }
            match evicted_by_provide(list0, coords) {
                Some(c0) => {
                    assert(msgs@.len() == n + ue.len() + 1);
                    assert(lists_chunk_entities(ue, mid_index, old(map).entities(), chunk_key(c0), None));
                    assert(unloads_entities(msgs@.subrange(n, n + ue.len()), ue));
                    assert(msgs@[msgs@.len() - 1] == FromServer::ShouldUnloadChunk(c0));
                },
                None => {
                    assert(msgs@.len() == n);
                },
            }
            assert(provision_msgs_listing(
                msgs@,
                m0_chunks,
                map.chunks(),
                mid_index,
                old(map).entities(),
                list0,
                coords,
                player_id.value,
                pe,
                ue,
            ));
        }
        msgs
    }
}

/// The loaded chunk list after providing each of `cs` in turn.
pub open spec fn list_after_provides(s: Seq<ChunkCoords>, cs: Seq<ChunkCoords>) -> Seq<ChunkCoords>
    decreases cs.len(),
{
    if cs.len() == 0 {
        s
    } else {
        list_after_provide(list_after_provides(s, cs.drop_last()), cs.last())
    }
}

/// The usage map after providing each of `cs` in turn.
pub open spec fn usage_after_provides(u: Map<i128, usize>, s: Seq<ChunkCoords>, cs: Seq<ChunkCoords>) -> Map<i128, usize>
    decreases cs.len(),
{
    if cs.len() == 0 {
        u
    } else {
        usage_after_provide(usage_after_provides(u, s, cs.drop_last()), list_after_provides(s, cs.drop_last()), cs.last())
    }
}

/// The keys of the loaded chunks after providing each of `cs` in turn.
pub open spec fn loaded_after_provides(d: Set<i128>, u: Map<i128, usize>, s: Seq<ChunkCoords>, cs: Seq<ChunkCoords>) -> Set<i128>
    decreases cs.len(),
{
    if cs.len() == 0 {
        d
    } else {
        let prev = cs.drop_last();
        loaded_after_provide(
            loaded_after_provides(d, u, s, prev),
            usage_after_provides(u, s, prev),
            list_after_provides(s, prev),
            cs.last(),
        )
    }
}

/// Whether `msgs` is what providing each of `cs` in turn tells the client: consecutive parts,
/// one per chunk in order, the part of `cs[j]` running from `bounds[j]` to `bounds[j + 1]`,
/// each being [`provision_msgs`] for that chunk given the state that the earlier provisions
/// left (`index0`, `dom0`, `usage0` and `list0` are the entity index, the loaded chunk keys,
/// the usage counts and the client's chunk list at the start, and `chunk_maps[j]` is the map's
/// loaded chunks before providing `cs[j]`, with `chunk_maps[cs.len()]` the chunks at the end).
pub open spec fn provisions_msgs(
    msgs: Seq<FromServer>,
    bounds: Seq<int>,
    chunk_maps: Seq<Map<i128, ChunkView>>,
    index0: Map<i128, Set<u128>>,
    dom0: Set<i128>,
    usage0: Map<i128, usize>,
    entities: Map<u128, Entity>,
    list0: Seq<ChunkCoords>,
    cs: Seq<ChunkCoords>,
    player: u128,
) -> bool
    decreases cs.len(),
{
    &&& chunk_maps.len() == cs.len() + 1
    &&& bounds.len() == cs.len() + 1
    &&& bounds[0] == 0
    &&& bounds.last() == msgs.len()
    &&& chunk_maps.last().dom() == loaded_after_provides(dom0, usage0, list0, cs)
    &&& cs.len() > 0 ==> {
        let prev = cs.drop_last();
        let before = chunk_maps[cs.len() - 1];
        let after = chunk_maps.last();
        let n = bounds[cs.len() - 1];
        &&& 0 <= n <= msgs.len()
        &&& forall|k: i128| before.contains_key(k) && after.contains_key(k) ==> #[trigger] after[k] == before[k]
        &&& provisions_msgs(
            msgs.take(n),
            bounds.drop_last(),
            chunk_maps.drop_last(),
            index0,
            dom0,
            usage0,
            entities,
            list0,
            prev,
            player,
        )
        &&& provision_msgs(
            msgs.skip(n),
            before,
            after,
            index_after_new(
                index_after_provides(index0, dom0, usage0, list0, prev),
                loaded_after_provides(dom0, usage0, list0, prev),
                list_after_provides(list0, prev),
                cs.last(),
            ),
            entities,
            list_after_provides(list0, prev),
            cs.last(),
            player,
        )
    }
}

/// Whether `msgs` is what providing the chunk at `coords` and the eight around it
/// ([`around_chunk`], in that order) tells the client, starting from loaded chunks `chunks0`
/// and ending with `chunks1` ([`provisions_msgs`]).
pub open spec fn provisions_told(
    msgs: Seq<FromServer>,
    chunks0: Map<i128, ChunkView>,
    chunks1: Map<i128, ChunkView>,
    index0: Map<i128, Set<u128>>,
    usage0: Map<i128, usize>,
    entities: Map<u128, Entity>,
    list0: Seq<ChunkCoords>,
    coords: ChunkCoords,
    player: u128,
) -> bool {
    exists|bounds: Seq<int>, chunk_maps: Seq<Map<i128, ChunkView>>|
        chunk_maps[0] == chunks0 && chunk_maps[9] == chunks1 && #[trigger] provisions_msgs(
            msgs,
            bounds,
            chunk_maps,
            index0,
            chunks0.dom(),
            usage0,
            entities,
            list0,
            around_chunk(coords),
            player,
        )
}

/// The entity index after providing each of `cs` in turn.
pub open spec fn index_after_provides(
    index: Map<i128, Set<u128>>,
    d: Set<i128>,
    u: Map<i128, usize>,
    s: Seq<ChunkCoords>,
    cs: Seq<ChunkCoords>,
) -> Map<i128, Set<u128>>
    decreases cs.len(),
{
    if cs.len() == 0 {
        index
    } else {
        let prev = cs.drop_last();
        index_after_provide(
            index_after_provides(index, d, u, s, prev),
            loaded_after_provides(d, u, s, prev),
            usage_after_provides(u, s, prev),
            list_after_provides(s, prev),
            cs.last(),
        )
    }
}

/// The chunks that providing each of `cs` in turn sends to the client (those it did not have).
pub open spec fn newly_provided(s: Seq<ChunkCoords>, cs: Seq<ChunkCoords>) -> Seq<ChunkCoords>
    decreases cs.len(),
{
    if cs.len() == 0 {
        Seq::empty()
    } else {
        let prev = cs.drop_last();
        let before = list_after_provides(s, prev);
        newly_provided(s, prev) + if before.contains(cs.last()) {
            Seq::empty()
        } else {
            seq![cs.last()]
        }
    }
}

/// The chunks that providing each of `cs` in turn makes the client drop.
pub open spec fn evicted_along(s: Seq<ChunkCoords>, cs: Seq<ChunkCoords>) -> Seq<ChunkCoords>
    decreases cs.len(),
{
    if cs.len() == 0 {
        Seq::empty()
    } else {
        let prev = cs.drop_last();
        evicted_along(s, prev) + match evicted_by_provide(list_after_provides(s, prev), cs.last()) {
            Some(c0) => seq![c0],
            None => Seq::empty(),
        }
    }
}

/// The coordinates of the chunks that `msgs` provides, in order.
pub open spec fn provided_chunk_coords(msgs: Seq<FromServer>) -> Seq<ChunkCoords>
    decreases msgs.len(),
{
    if msgs.len() == 0 {
        Seq::empty()
    } else {
        let prev = provided_chunk_coords(msgs.drop_last());
        match msgs.last() {
            FromServer::ProvideChunk(c, _) => prev.push(c),
            _ => prev,
        }
    }
}

/// The coordinates of the chunks that `msgs` tells the client to unload, in order.
pub open spec fn unloaded_chunk_coords(msgs: Seq<FromServer>) -> Seq<ChunkCoords>
    decreases msgs.len(),
{
    if msgs.len() == 0 {
        Seq::empty()
    } else {
        let prev = unloaded_chunk_coords(msgs.drop_last());
        match msgs.last() {
            FromServer::ShouldUnloadChunk(c) => prev.push(c),
            _ => prev,
        }
    }
}

/// Whether every message is one that provision sends (a chunk or an entity to provide or to
/// unload), every provided chunk is well formed, and no provided entity is `player`.
pub open spec fn provision_kinds(msgs: Seq<FromServer>, player: u128) -> bool {
    forall|i: int| 0 <= i < msgs.len() ==> match #[trigger] msgs[i] {
        FromServer::ProvideChunk(_, ch) => ch.wf(),
        FromServer::ProvideEntity(id, _) => id.value != player,
        FromServer::ShouldUnloadEntity(_) => true,
        FromServer::ShouldUnloadChunk(_) => true,
        _ => false,
    }
}

/// The projections onto provided and unloaded chunks distribute over concatenation.
pub proof fn lemma_projections_concat(a: Seq<FromServer>, b: Seq<FromServer>)
    ensures
        provided_chunk_coords(a + b) == provided_chunk_coords(a) + provided_chunk_coords(b),
        unloaded_chunk_coords(a + b) == unloaded_chunk_coords(a) + unloaded_chunk_coords(b),
    decreases b.len(),
{
    if b.len() == 0 {
        assert(a + b =~= a);
        assert(provided_chunk_coords(a) + provided_chunk_coords(b) =~= provided_chunk_coords(a));
        assert(unloaded_chunk_coords(a) + unloaded_chunk_coords(b) =~= unloaded_chunk_coords(a));
    } else {
        lemma_projections_concat(a, b.drop_last());
        assert((a + b).drop_last() =~= a + b.drop_last());
        assert((a + b).last() == b.last());
        assert(provided_chunk_coords(a) + provided_chunk_coords(b.drop_last()).push(match b.last() {
            FromServer::ProvideChunk(c, _) => c,
            _ => arbitrary(),
        }) =~= (provided_chunk_coords(a) + provided_chunk_coords(b.drop_last())).push(match b.last() {
            FromServer::ProvideChunk(c, _) => c,
            _ => arbitrary(),
        }));
        assert(unloaded_chunk_coords(a) + unloaded_chunk_coords(b.drop_last()).push(match b.last() {
            FromServer::ShouldUnloadChunk(c) => c,
            _ => arbitrary(),
        }) =~= (unloaded_chunk_coords(a) + unloaded_chunk_coords(b.drop_last())).push(match b.last() {
            FromServer::ShouldUnloadChunk(c) => c,
            _ => arbitrary(),
        }));
    }
}

/// Messages that provide no chunk project to no provided chunks; likewise for unloading.
pub proof fn lemma_projections_none(msgs: Seq<FromServer>)
    ensures
        (forall|i: int| 0 <= i < msgs.len() ==> !(#[trigger] msgs[i] is ProvideChunk)) ==> provided_chunk_coords(msgs) == Seq::<ChunkCoords>::empty(),
        (forall|i: int| 0 <= i < msgs.len() ==> !(#[trigger] msgs[i] is ShouldUnloadChunk)) ==> unloaded_chunk_coords(msgs) == Seq::<ChunkCoords>::empty(),
    decreases msgs.len(),
{
    if msgs.len() > 0 {
        lemma_projections_none(msgs.drop_last());
        assert(msgs.last() == msgs[msgs.len() - 1]);
        if forall|i: int| 0 <= i < msgs.len() ==> !(#[trigger] msgs[i] is ProvideChunk) {
            assert forall|i: int| 0 <= i < msgs.drop_last().len() implies !(#[trigger] msgs.drop_last()[i] is ProvideChunk) by {
                assert(msgs.drop_last()[i] == msgs[i]);
            }
        }
        if forall|i: int| 0 <= i < msgs.len() ==> !(#[trigger] msgs[i] is ShouldUnloadChunk) {
            assert forall|i: int| 0 <= i < msgs.drop_last().len() implies !(#[trigger] msgs.drop_last()[i] is ShouldUnloadChunk) by {
                assert(msgs.drop_last()[i] == msgs[i]);
            }
        }
    }
}

/// The messages of one provision provide the chunk exactly when the client did not have it,
/// unload exactly the evicted chunk, and are all of the provision kinds.
pub proof fn lemma_provision_projections(
    msgs: Seq<FromServer>,
    chunks_before: Map<i128, ChunkView>,
    chunks_after: Map<i128, ChunkView>,
    index: Map<i128, Set<u128>>,
    entities: Map<u128, Entity>,
    list: Seq<ChunkCoords>,
    coords: ChunkCoords,
    player: u128,
)
    requires
        provision_msgs(msgs, chunks_before, chunks_after, index, entities, list, coords, player),
    ensures
        provided_chunk_coords(msgs) == if list.contains(coords) {
            Seq::<ChunkCoords>::empty()
        } else {
            seq![coords]
        },
        unloaded_chunk_coords(msgs) == match evicted_by_provide(list, coords) {
            Some(c0) => seq![c0],
            None => Seq::<ChunkCoords>::empty(),
        },
        provision_kinds(msgs, player),
{
    let (pe, ue) = choose|pe: Seq<(Id, Entity)>, ue: Seq<(Id, Entity)>|
        #[trigger] provision_msgs_listing(msgs, chunks_before, chunks_after, index, entities, list, coords, player, pe, ue);
    let found = list.contains(coords);
    let n = if found { 0int } else { 1 + pe.len() as int };
    let head = msgs.subrange(0, n);
    let rest = msgs.subrange(n, msgs.len() as int);
    assert(msgs =~= head + rest);
    lemma_projections_concat(head, rest);
    // the head: the chunk, then the entities
    if !found {
        let first = head.subrange(0, 1);
        let ents = head.subrange(1, n);
        assert(head =~= first + ents);
        lemma_projections_concat(first, ents);
        assert(ents =~= msgs.subrange(1, n));
        assert forall|i: int| 0 <= i < ents.len() implies !(#[trigger] ents[i] is ProvideChunk) && !(ents[i] is ShouldUnloadChunk) by {
            assert(ents[i] == FromServer::ProvideEntity(pe[i].0, pe[i].1));
        }
        lemma_projections_none(ents);
        assert(first.drop_last() =~= Seq::<FromServer>::empty());
        assert(provided_chunk_coords(first.drop_last()) =~= Seq::<ChunkCoords>::empty());
        assert(unloaded_chunk_coords(first.drop_last()) =~= Seq::<ChunkCoords>::empty());
        assert(first.last() == msgs[0]);
        assert(first.len() == 1);
        assert(provided_chunk_coords(first) =~= seq![coords]);
        assert(unloaded_chunk_coords(first) =~= Seq::<ChunkCoords>::empty());
        assert(provided_chunk_coords(head) =~= seq![coords]);
    } else {
        assert(head =~= Seq::<FromServer>::empty());
    }
    // the rest: the unloaded entities, then the chunk
    match evicted_by_provide(list, coords) {
        Some(c0) => {
            let ents = rest.subrange(0, ue.len() as int);
            let last = rest.subrange(ue.len() as int, rest.len() as int);
            assert(rest =~= ents + last);
            lemma_projections_concat(ents, last);
            assert(ents =~= msgs.subrange(n, n + ue.len()));
            assert forall|i: int| 0 <= i < ents.len() implies !(#[trigger] ents[i] is ProvideChunk) && !(ents[i] is ShouldUnloadChunk) by {
                assert(ents[i] == FromServer::ShouldUnloadEntity(ue[i].0));
            }
            lemma_projections_none(ents);
            assert(last.len() == 1);
            assert(last.drop_last() =~= Seq::<FromServer>::empty());
            assert(provided_chunk_coords(last.drop_last()) =~= Seq::<ChunkCoords>::empty());
            assert(unloaded_chunk_coords(last.drop_last()) =~= Seq::<ChunkCoords>::empty());
            assert(last.last() == FromServer::ShouldUnloadChunk(c0));
            assert(provided_chunk_coords(last) =~= Seq::<ChunkCoords>::empty());
            assert(unloaded_chunk_coords(last) =~= seq![c0]);
        },
        None => {
            assert(rest =~= Seq::<FromServer>::empty());
        },
    }
    assert(provided_chunk_coords(head) + provided_chunk_coords(rest) =~= if found {
        Seq::<ChunkCoords>::empty()
    } else {
        seq![coords]
    });
    assert(unloaded_chunk_coords(head) + unloaded_chunk_coords(rest) =~= match evicted_by_provide(list, coords) {
        Some(c0) => seq![c0],
        None => Seq::<ChunkCoords>::empty(),
    });
    assert forall|i: int| 0 <= i < msgs.len() implies match #[trigger] msgs[i] {
        FromServer::ProvideChunk(_, ch) => ch.wf(),
        FromServer::ProvideEntity(id, _) => id.value != player,
        FromServer::ShouldUnloadEntity(_) => true,
        FromServer::ShouldUnloadChunk(_) => true,
        _ => false,
    } by {
        if i < n {
            if i == 0 {
            } else {
                assert(msgs.subrange(1, n)[i - 1] == msgs[i]);
                assert(msgs[i] == FromServer::ProvideEntity(pe[i - 1].0, pe[i - 1].1));
            }
        } else if i < n + ue.len() {
            assert(msgs.subrange(n, n + ue.len())[i - n] == msgs[i]);
        }
    }
}

/// Whether some chunk in `cs` has the key `k`.
pub open spec fn key_among(cs: Seq<ChunkCoords>, k: i128) -> bool {
    exists|j: int| 0 <= j < cs.len() && chunk_key(#[trigger] cs[j]) == k
}

impl Session {
    /// Provides ([`Session::provide_chunk_with_entities`]) the chunk at `coords` and the eight
    /// chunks around it, in the order of [`around_chunk`], and returns all the messages for
    /// the client.
    #[verifier::rlimit(40)]
    pub fn provide_chunks_at_and_surrounding_with_entities<G: Generator>(
        &mut self,
        map: &mut ServerMap,
        generator: &G,
        coords: ChunkCoords,
        player_id: Id,
        to_save: &mut Vec<(ChunkCoords, Chunk)>,
    ) -> (msgs: Vec<FromServer>)
        requires
            old(map).wf(),
            session_consistent(old(self)@, old(map).usage()),
            usage_has_room(old(map).usage(), 9),
            i32::MIN < coords.x < i32::MAX,
            i32::MIN < coords.y < i32::MAX,
        ensures
            final(map).wf(),
            final(map).spec_seed() == old(map).spec_seed(),
            final(map).entities() == old(map).entities(),
            final(self)@ == list_after_provides(old(self)@, around_chunk(coords)),
            final(map).usage() == usage_after_provides(old(map).usage(), old(self)@, around_chunk(coords)),
            final(map).chunks().dom() == loaded_after_provides(
                old(map).chunks().dom(),
                old(map).usage(),
                old(self)@,
                around_chunk(coords),
            ),
            final(map).index() == index_after_provides(
                old(map).index(),
                old(map).chunks().dom(),
                old(map).usage(),
                old(self)@,
                around_chunk(coords),
            ),
            forall|k: i128|
                final(map).chunks().contains_key(k) && old(map).chunks().contains_key(k) && !key_among(
                    evicted_along(old(self)@, around_chunk(coords)),
                    k,
                ) ==> #[trigger] final(map).chunks()[k] == old(map).chunks()[k],
            session_consistent(final(self)@, final(map).usage()),
            forall|k: i128| #[trigger] usage_of(final(map).usage(), k) <= usage_of(old(map).usage(), k) + 9,
            provided_chunk_coords(msgs@) == newly_provided(old(self)@, around_chunk(coords)),
            unloaded_chunk_coords(msgs@) == evicted_along(old(self)@, around_chunk(coords)),
            provision_kinds(msgs@, player_id.value),
            provisions_told(
                msgs@,
                old(map).chunks(),
                final(map).chunks(),
                old(map).index(),
                old(map).usage(),
                old(map).entities(),
                old(self)@,
                coords,
                player_id.value,
            ),
            old(to_save)@.len() <= final(to_save)@.len(),
            final(to_save)@.subrange(0, old(to_save)@.len() as int) == old(to_save)@,
    {
        let ghost cs = around_chunk(coords);
        let ghost s0 = self@;
        let ghost u0 = map.usage();
        let ghost d0 = map.chunks().dom();
        let ghost i0 = map.index();
        let ghost c0 = map.chunks();
        let ghost save0 = to_save@;
        let ghost e0 = map.entities();
        let mut msgs: Vec<FromServer> = Vec::new();
        let mut i: u32 = 0;
        let ghost mut chunk_maps: Seq<Map<i128, ChunkView>> = seq![c0];
        let ghost mut bounds: Seq<int> = seq![0];
        proof {
            assert(cs.take(0) =~= Seq::<ChunkCoords>::empty());
            assert(to_save@.subrange(0, save0.len() as int) =~= save0);
        }
        while i < 9
            invariant
                i <= 9,
                cs == around_chunk(coords),
                i32::MIN < coords.x < i32::MAX,
                i32::MIN < coords.y < i32::MAX,
                map.wf(),
                map.spec_seed() == old(map).spec_seed(),
                map.entities() == old(map).entities(),
                self@ == list_after_provides(s0, cs.take(i as int)),
                map.usage() == usage_after_provides(u0, s0, cs.take(i as int)),
                map.chunks().dom() == loaded_after_provides(d0, u0, s0, cs.take(i as int)),
                map.index() == index_after_provides(i0, d0, u0, s0, cs.take(i as int)),
                forall|k: i128|
                    map.chunks().contains_key(k) && c0.contains_key(k) && !key_among(evicted_along(s0, cs.take(i as int)), k)
                        ==> #[trigger] map.chunks()[k] == c0[k],
                forall|k: i128|
                    c0.contains_key(k) && !map.chunks().contains_key(k) ==> key_among(evicted_along(s0, cs.take(i as int)), k),
                session_consistent(self@, map.usage()),
                forall|k: i128| #[trigger] usage_of(map.usage(), k) <= usage_of(u0, k) + i,
                usage_has_room(u0, 9),
                provided_chunk_coords(msgs@) == newly_provided(s0, cs.take(i as int)),
                unloaded_chunk_coords(msgs@) == evicted_along(s0, cs.take(i as int)),
                provision_kinds(msgs@, player_id.value),
                to_save@.len() >= save0.len(),
                to_save@.subrange(0, save0.len() as int) == save0,
                d0 == c0.dom(),
                e0 == old(map).entities(),
                chunk_maps.len() == i + 1,
                chunk_maps[0] == c0,
                chunk_maps.last() == map.chunks(),
                provisions_msgs(msgs@, bounds, chunk_maps, i0, d0, u0, e0, s0, cs.take(i as int), player_id.value),
            decreases 9 - i,
        {
            let dx: i32 = (i / 3) as i32 - 1;
            let dy: i32 = (i % 3) as i32 - 1;
            let c = ChunkCoords { x: coords.x + dx, y: coords.y + dy };
            let ghost take_i = cs.take(i as int);
            let ghost take_n = cs.take(i + 1);
            proof {
                assert(c == cs[i as int]);
                assert(take_n.drop_last() =~= take_i);
                assert(take_n.last() == c);
                assert forall|k: i128| #[trigger] usage_of(map.usage(), k) + 1 <= usize::MAX by {
                    assert(usage_of(u0, k) + 9 <= usize::MAX);
                }
            }
            let ghost list_b = self@;
            let ghost usage_b = map.usage();
            let ghost chunks_b = map.chunks();
            let ghost save_b = to_save@;
            let ghost msgs_b = msgs@;
            let ghost index_b = map.index();
            let mut step = self.provide_chunk_with_entities(map, generator, c, player_id, to_save);
            let ghost step_v = step@;
            proof {
                lemma_provision_projections(
                    step_v,
                    chunks_b,
                    map.chunks(),
                    index_after_new(index_after_provides(i0, d0, u0, s0, take_i), chunks_b.dom(), list_b, c),
                    old(map).entities(),
                    list_b,
                    c,
                    player_id.value,
                );
            }
            msgs.append(&mut step);
            proof {
                lemma_projections_concat(msgs_b, step_v);
                assert(newly_provided(s0, take_n) =~= newly_provided(s0, take_i) + if list_b.contains(c) {
                    Seq::<ChunkCoords>::empty()
                } else {
                    seq![c]
                });
                assert(evicted_along(s0, take_n) =~= evicted_along(s0, take_i) + match evicted_by_provide(list_b, c) {
                    Some(e) => seq![e],
                    None => Seq::<ChunkCoords>::empty(),
                });
                assert forall|j: int| 0 <= j < msgs@.len() implies match #[trigger] msgs@[j] {
                    FromServer::ProvideChunk(_, ch) => ch.wf(),
                    FromServer::ProvideEntity(id, _) => id.value != player_id.value,
                    FromServer::ShouldUnloadEntity(_) => true,
                    FromServer::ShouldUnloadChunk(_) => true,
                    _ => false,
                } by {
                    if j < msgs_b.len() {
                        assert(msgs@[j] == msgs_b[j]);
                    } else {
                        assert(msgs@[j] == step_v[j - msgs_b.len()]);
                    }
                }
                let ev_i = evicted_along(s0, take_i);
                let ev_n = evicted_along(s0, take_n);
                assert forall|k: i128| key_among(ev_i, k) implies key_among(ev_n, k) by {
                    let j = choose|j: int| 0 <= j < ev_i.len() && chunk_key(#[trigger] ev_i[j]) == k;
                    assert(ev_n[j] == ev_i[j]);
                }
                assert forall|k: i128|
                    map.chunks().contains_key(k) && c0.contains_key(k) && !key_among(ev_n, k)
                    implies #[trigger] map.chunks()[k] == c0[k] by {
                    if !chunks_b.contains_key(k) {
                        assert(key_among(ev_i, k));
                    }
                }
                assert forall|k: i128| c0.contains_key(k) && !map.chunks().contains_key(k) implies key_among(ev_n, k) by {
                    if chunks_b.contains_key(k) {
                        // removed now: it is the evicted chunk's key
                        match evicted_by_provide(list_b, c) {
                            Some(e) => {
                                assert(ev_n[ev_n.len() - 1] == e);
                                assert(chunk_key(e) == k);
                            },
                            None => {},
                        }
                    }
                }
                assert forall|k: i128| #[trigger] usage_of(map.usage(), k) <= usage_of(u0, k) + i + 1 by {
                    assert(usage_of(map.usage(), k) <= usage_of(usage_b, k) + 1);
                }
                assert(to_save@.subrange(0, save_b.len() as int) == save_b);
                assert forall|j: int| 0 <= j < save0.len() implies to_save@[j] == save0[j] by {
                    assert(to_save@.subrange(0, save_b.len() as int)[j] == to_save@[j]);
                    assert(save_b.subrange(0, save0.len() as int)[j] == save_b[j]);
                }
                assert(to_save@.subrange(0, save0.len() as int) =~= save0);
                let maps_b = chunk_maps;
                chunk_maps = maps_b.push(map.chunks());
                let nb = msgs_b.len() as int;
                assert(msgs@.take(nb) =~= msgs_b);
                assert(msgs@.skip(nb) =~= step_v);
                assert(chunk_maps.drop_last() =~= maps_b);
                assert(chunk_maps[take_n.drop_last().len() as int] == chunks_b);
                assert(map.chunks().dom() == loaded_after_provides(d0, u0, s0, take_n));
                assert(index_b == index_after_provides(i0, d0, u0, s0, take_i));
                assert(chunks_b.dom() == loaded_after_provides(d0, u0, s0, take_i));
                assert(list_b == list_after_provides(s0, take_i));
                assert(provision_msgs(
                    step_v,
                    chunks_b,
                    map.chunks(),
                    index_after_new(index_b, chunks_b.dom(), list_b, c),
                    e0,
                    list_b,
                    c,
                    player_id.value,
                ));
                assert(provision_msgs(
                    msgs@.skip(nb),
                    chunk_maps[take_n.drop_last().len() as int],
                    chunk_maps.last(),
                    index_after_new(
                        index_after_provides(i0, d0, u0, s0, take_n.drop_last()),
                        loaded_after_provides(d0, u0, s0, take_n.drop_last()),
                        list_after_provides(s0, take_n.drop_last()),
                        take_n.last(),
                    ),
                    e0,
                    list_after_provides(s0, take_n.drop_last()),
                    take_n.last(),
                    player_id.value,
                ));
                assert forall|k: i128|
                    chunks_b.contains_key(k) && map.chunks().contains_key(k) implies #[trigger] map.chunks()[k] == chunks_b[k] by {
                }
                let bounds_b = bounds;
                bounds = bounds_b.push(msgs@.len() as int);
                assert(bounds.drop_last() =~= bounds_b);
                assert(provisions_msgs(msgs@.take(nb), bounds.drop_last(), chunk_maps.drop_last(), i0, d0, u0, e0, s0, take_n.drop_last(), player_id.value));
                assert(provisions_msgs(msgs@, bounds, chunk_maps, i0, d0, u0, e0, s0, take_n, player_id.value));
            }
            i = i + 1;
        }
        proof {
            assert(cs.take(9) =~= cs);
            assert(provisions_msgs(msgs@, bounds, chunk_maps, i0, c0.dom(), u0, e0, s0, around_chunk(coords), player_id.value));
        }
        msgs
    }
}

/// The effects of providing the chunk at `coords` and those around it, starting from a map
/// with chunks `chunks0`, entity index `index0` and usage `usage0`, a client chunk list
/// `list0` and a list of chunks to save `save0`, and ending with `chunks1`, `index1`,
/// `usage1`, `list1` and `save1`.
pub open spec fn provisions_done(
    list0: Seq<ChunkCoords>,
    list1: Seq<ChunkCoords>,
    chunks0: Map<i128, ChunkView>,
    index0: Map<i128, Set<u128>>,
    usage0: Map<i128, usize>,
    chunks1: Map<i128, ChunkView>,
    index1: Map<i128, Set<u128>>,
    usage1: Map<i128, usize>,
    save0: Seq<(ChunkCoords, Chunk)>,
    save1: Seq<(ChunkCoords, Chunk)>,
    coords: ChunkCoords,
) -> bool {
    let around = around_chunk(coords);
    &&& list1 == list_after_provides(list0, around)
    &&& usage1 == usage_after_provides(usage0, list0, around)
    &&& chunks1.dom() == loaded_after_provides(chunks0.dom(), usage0, list0, around)
    &&& index1 == index_after_provides(index0, chunks0.dom(), usage0, list0, around)
    &&& forall|k: i128|
        chunks1.contains_key(k) && chunks0.contains_key(k) && !key_among(evicted_along(list0, around), k)
            ==> #[trigger] chunks1[k] == chunks0[k]
    &&& save0.len() <= save1.len()
    &&& save1.subrange(0, save0.len() as int) == save0
}

/// The outcome of a request from the client of player `pid` to move its entity: when the
/// destination is free, the entity moves (smashing a smashable tile), the move is announced,
/// the chunks around the destination are provided if the entity changed chunk, the client is
/// told its new position and, when the smashed tile yields gems, how many it collected (a
/// quantity in the yield's range, added to the player's gems). Otherwise the client is told
/// its unchanged position and nothing else happens.
pub open spec fn move_outcome(
    list0: Seq<ChunkCoords>,
    list1: Seq<ChunkCoords>,
    map0: ServerMap,
    map1: ServerMap,
    b0: Seq<Modification>,
    b1: Seq<Modification>,
    save0: Seq<(ChunkCoords, Chunk)>,
    save1: Seq<(ChunkCoords, Chunk)>,
    responses: Seq<FromServer>,
    pid: Id,
    request_number: u32,
    direction: crate::coords::Direction,
) -> bool {
    let id = pid.value;
    let e = map0.entities()[id];
    let np = direction.spec_apply(e.pos);
    if map0.spec_position_free(np) {
        let smashed = smashed_tile_at(&map0, np);
        let crossing = e.pos.spec_chunk() != np.spec_chunk();
        let moved_chunks = if smashed is Some {
            chunks_with_tile(map0.chunks(), np, Tile::RockSmashed)
        } else {
            map0.chunks()
        };
        let moved_index = index_with_move(map0.index(), id, chunk_key(e.pos.spec_chunk()), chunk_key(np.spec_chunk()));
        let moved = Entity { pos: np, direction, ..e };
        let gem_yield = match smashed {
            Some(t) => t.spec_gem_yield(),
            None => None,
        };
        let n = responses.len() as int;
        let tail = if gem_yield is Some { 2int } else { 1int };
        let prefix = responses.subrange(0, n - tail);
        &&& b1 == b0.push(Modification::EntityMoved { entity_id: pid, old_position: e.pos, new_position: np, direction })
        &&& if crossing {
            &&& provisions_done(
                list0,
                list1,
                moved_chunks,
                moved_index,
                map0.usage(),
                map1.chunks(),
                map1.index(),
                map1.usage(),
                save0,
                save1,
                np.spec_chunk(),
            )
            &&& provided_chunk_coords(prefix) == newly_provided(list0, around_chunk(np.spec_chunk()))
            &&& unloaded_chunk_coords(prefix) == evicted_along(list0, around_chunk(np.spec_chunk()))
            &&& provision_kinds(prefix, id)
            &&& provisions_told(
                prefix,
                moved_chunks,
                map1.chunks(),
                moved_index,
                map0.usage(),
                map0.entities().insert(id, moved),
                list0,
                np.spec_chunk(),
                id,
            )
        } else {
            &&& list1 == list0
            &&& map1.usage() == map0.usage()
            &&& map1.chunks() == moved_chunks
            &&& map1.index() == moved_index
            &&& save1 == save0
            &&& prefix.len() == 0
        }
        &&& n >= tail
        &&& responses[n - tail] == FromServer::YourEntityMoved { request_number, new_position: np }
        &&& match gem_yield {
            Some(gy) => responses[n - 1] matches FromServer::YouCollectedGems { gem_type, quantity_increase }
                && gem_type == gy.gem && gy.minimum_quantity <= quantity_increase <= gy.maximum_quantity
                && map1.entities() == map0.entities().insert(
                id,
                Entity {
                    gem_collection: e.gem_collection.with_quantity(
                        gy.gem,
                        (e.gem_collection.spec_quantity(gy.gem) + quantity_increase) as u32,
                    ),
                    ..moved
                },
            ),
            None => map1.entities() == map0.entities().insert(id, moved),
        }
    } else {
        &&& responses == seq![FromServer::YourEntityMoved { request_number, new_position: e.pos }]
        &&& list1 == list0
        &&& map1.chunks() == map0.chunks()
        &&& map1.index() == map0.index()
        &&& map1.usage() == map0.usage()
        &&& map1.entities() == map0.entities()
        &&& b1 == b0
        &&& save1 == save0
    }
}

/// Whether a move request from player `pid` can be handled without an arithmetic overflow:
/// the player is on the map, the destination has coordinates, and collecting the largest gem
/// yield of the destination tile cannot overflow the player's gem count.
pub open spec fn move_request_ok(map: ServerMap, pid: Id, direction: crate::coords::Direction) -> bool {
    let e = map.entities()[pid.value];
    let np = direction.spec_apply(e.pos);
    &&& map.entities().contains_key(pid.value)
    &&& direction.can_apply(e.pos)
    &&& match smashed_tile_at(&map, np) {
        Some(t) => match t.spec_gem_yield() {
            Some(gy) => e.gem_collection.spec_quantity(gy.gem) + gy.maximum_quantity <= u32::MAX,
            None => true,
        },
        None => true,
    }
}

impl Session {
    /// Handles a request from the client of player `pid` to move its entity one tile in
    /// `direction` (see [`move_outcome`]); announcements for the other connections are
    /// appended to `broadcasts`, and chunks that no client uses any more to `to_save`.
    #[verifier::rlimit(40)]
    fn handle_move_my_entity<G: Generator>(
        &mut self,
        map: &mut ServerMap,
        generator: &G,
        pid: Id,
        request_number: u32,
        direction: crate::coords::Direction,
        broadcasts: &mut Vec<Modification>,
        to_save: &mut Vec<(ChunkCoords, Chunk)>,
    ) -> (responses: Vec<FromServer>)
        requires
            old(map).wf(),
            session_consistent(old(self)@, old(map).usage()),
            usage_has_room(old(map).usage(), 9),
            move_request_ok(*old(map), pid, direction),
        ensures
            final(map).wf(),
            final(map).spec_seed() == old(map).spec_seed(),
            session_consistent(final(self)@, final(map).usage()),
            move_outcome(
                old(self)@,
                final(self)@,
                *old(map),
                *final(map),
                old(broadcasts)@,
                final(broadcasts)@,
                old(to_save)@,
                final(to_save)@,
                responses@,
                pid,
                request_number,
                direction,
            ),
    {
        let ghost map0 = *map;
        let movement = map.move_entity_towards(pid, direction);
        if movement.is_none() {
            let pos = map.entity_by_id(pid).unwrap().pos;
            let mut responses: Vec<FromServer> = Vec::new();
            responses.push(FromServer::YourEntityMoved { request_number, new_position: pos });
            proof {
                assert(responses@ =~= seq![FromServer::YourEntityMoved { request_number, new_position: pos }]);
            }
            return responses;
        }
        let mv = movement.unwrap();
        let ghost map_moved = *map;
        let ghost save0 = to_save@;
        let ghost list0 = self@;
        let old_chunk = mv.old_position.as_chunk_coords();
        let new_chunk = mv.new_position.as_chunk_coords();
        let mut responses: Vec<FromServer> = Vec::new();
        if old_chunk != new_chunk {
            proof {
                crate::coords::lemma_tile_chunk_in_range(mv.new_position);
            }
            responses = self.provide_chunks_at_and_surrounding_with_entities(map, generator, new_chunk, pid, to_save);
        } else {
            proof {
                assert(to_save@ == save0);
            }
        }
        let ghost prefix = responses@;
        let ghost map_p = *map;
        let ghost save_p = to_save@;
        proof {
            if old_chunk != new_chunk {
                let e = map0.entities()[pid.value];
                let np = direction.spec_apply(e.pos);
                assert(provisions_done(list0, self@, map_moved.chunks(), map_moved.index(), map0.usage(), map_p.chunks(), map_p.index(), map_p.usage(), save0, save_p, np.spec_chunk()));
            }
        }
        broadcasts.push(
            Modification::EntityMoved {
                entity_id: pid,
                old_position: mv.old_position,
                new_position: mv.new_position,
                direction,
            },
        );
        responses.push(FromServer::YourEntityMoved { request_number, new_position: mv.new_position });
        let ghost with_moved = responses@;
        match mv.smashed_tile_option {
            Some(tile) => {
                match tile.get_gem_yield() {
                    Some(gem_yield) => {
                        let drawn = crate::randomness::random_in_range(
                            gem_yield.minimum_quantity as u128,
                            gem_yield.maximum_quantity as u128 + 1,
                        );
                        let quantity_increase = drawn as u32;
                        let ghost before_gems = *map;
                        let mut entity = *map.entity_by_id(pid).unwrap();
                        entity.gem_collection.increase_quantity(gem_yield.gem, quantity_increase);
                        map.update_entity(pid, entity);
                        responses.push(FromServer::YouCollectedGems { gem_type: gem_yield.gem, quantity_increase });
                        proof {
                            assert(responses@.subrange(0, responses@.len() - 2) =~= prefix);
                            assert(before_gems.entities() == map_moved.entities());
                            assert(map.chunks() == before_gems.chunks());
                        }
                    },
                    None => {
                        proof {
                            assert(responses@.subrange(0, responses@.len() - 1) =~= prefix);
                        }
                    },
                }
            },
            None => {
                proof {
                    assert(responses@.subrange(0, responses@.len() - 1) =~= prefix);
                }
            },
        }
        proof {
            if old_chunk == new_chunk {
                assert(prefix.len() == 0);
            }
            let id = pid.value;
            let e = map0.entities()[id];
            let np = direction.spec_apply(e.pos);
            assert(map0.spec_position_free(np));
            assert(mv.new_position == np);
            assert(mv.old_position == e.pos);
            assert(broadcasts@ == old(broadcasts)@.push(Modification::EntityMoved { entity_id: pid, old_position: e.pos, new_position: np, direction }));
            let smashed = smashed_tile_at(&map0, np);
            assert(mv.smashed_tile_option == smashed);
            let gem_yield = match smashed {
                Some(t) => t.spec_gem_yield(),
                None => None,
            };
            let n = responses@.len() as int;
            let tail = if gem_yield is Some { 2int } else { 1int };
            assert(n >= tail);
            assert(responses@[n - tail] == FromServer::YourEntityMoved { request_number, new_position: np });
            assert(responses@.subrange(0, n - tail) == prefix);
            let crossing = e.pos.spec_chunk() != np.spec_chunk();
            assert(map.chunks() == map_p.chunks());
            assert(map.index() == map_p.index());
            assert(map.usage() == map_p.usage());
            assert(to_save@ == save_p);
            let moved_chunks = if smashed is Some {
                chunks_with_tile(map0.chunks(), np, Tile::RockSmashed)
            } else {
                map0.chunks()
            };
            let moved_index = index_with_move(map0.index(), id, chunk_key(e.pos.spec_chunk()), chunk_key(np.spec_chunk()));
            let moved = Entity { pos: np, direction, ..e };
            assert(map_moved.chunks() == moved_chunks);
            assert(map_moved.index() == moved_index);
            assert(map_moved.entities() == map0.entities().insert(id, moved));
            if crossing {
                assert(provided_chunk_coords(prefix) == newly_provided(list0, around_chunk(np.spec_chunk())));
                assert(provision_kinds(prefix, id));
                assert(provisions_done(list0, self@, moved_chunks, moved_index, map0.usage(), map.chunks(), map.index(), map.usage(), old(to_save)@, to_save@, np.spec_chunk()));
                assert(unloaded_chunk_coords(prefix) == evicted_along(list0, around_chunk(np.spec_chunk())));
                assert(provisions_told(
                    prefix,
                    moved_chunks,
                    map.chunks(),
                    moved_index,
                    map0.usage(),
                    map0.entities().insert(id, moved),
                    list0,
                    np.spec_chunk(),
                    id,
                ));
            } else {
                assert(self@ == list0);
                assert(map.usage() == map0.usage());
                assert(map.index() == map_moved.index());
                assert(map.chunks() == map_moved.chunks());
            }
            match gem_yield {
                Some(gy) => {
                    assert(responses@[n - 1] matches FromServer::YouCollectedGems { gem_type, quantity_increase }
                        && gem_type == gy.gem && gy.minimum_quantity <= quantity_increase <= gy.maximum_quantity);
                    assert(responses@[n - 1] matches FromServer::YouCollectedGems { gem_type, quantity_increase }
                        && map.entities() == map0.entities().insert(
                        id,
                        Entity {
                            gem_collection: e.gem_collection.with_quantity(
                                gy.gem,
                                (e.gem_collection.spec_quantity(gy.gem) + quantity_increase) as u32,
                            ),
                            ..moved
                        },
                    ));
                },
                None => {
                    assert(map.entities() == map0.entities().insert(id, moved));
                },
            }
        }
        responses
    }
}

/// The outcome of a request from player `pid` to place a bomb: when the player is on the map
/// and has a bomb, a bomb is placed at its position, announced, and taken from its inventory;
/// otherwise nothing changes.
pub open spec fn place_bomb_outcome(map0: ServerMap, map1: ServerMap, b0: Seq<Modification>, b1: Seq<Modification>, pid: Id) -> bool {
    let id = pid.value;
    let e = map0.entities()[id];
    &&& map1.usage() == map0.usage()
    &&& map1.index() == map0.index()
    &&& if map0.entities().contains_key(id) && e.item_inventory.spec_how_many(QuantitativeItem::Bomb) >= 1 {
        &&& map1.chunks() == chunks_with_bomb(map0.chunks(), e.pos, pid)
        &&& map1.entities() == map0.entities().insert(
            id,
            Entity {
                item_inventory: e.item_inventory.with_how_many(
                    QuantitativeItem::Bomb,
                    (e.item_inventory.spec_how_many(QuantitativeItem::Bomb) - 1) as u32,
                ),
                ..e
            },
        )
        &&& b1 == b0.push(Modification::BombPlaced(e.pos, pid))
    } else {
        &&& map1.chunks() == map0.chunks()
        &&& map1.entities() == map0.entities()
        &&& b1 == b0
    }
}

/// The chunk around which player `pid` detonates its bombs: the one it stands in, or the
/// chunk at the origin when it is not on the map.
pub open spec fn detonation_centre(map: ServerMap, pid: Id) -> ChunkCoords {
    if map.entities().contains_key(pid.value) {
        map.entities()[pid.value].pos.spec_chunk()
    } else {
        ChunkCoords { x: 0, y: 0 }
    }
}

/// The outcome of a request from player `pid` to detonate its bombs: its bombs are removed
/// from the loaded chunks in and around [`detonation_centre`], and the detonation is
/// announced.
pub open spec fn detonate_outcome(map0: ServerMap, map1: ServerMap, b0: Seq<Modification>, b1: Seq<Modification>, pid: Id) -> bool {
    &&& map1.usage() == map0.usage()
    &&& map1.index() == map0.index()
    &&& map1.entities() == map0.entities()
    &&& map1.chunks() == chunks_without_bombs_of(
        map0.chunks(),
        around_chunk(detonation_centre(map0, pid)).map_values(|c: ChunkCoords| chunk_key(c)).to_set(),
        pid,
    )
    &&& b1 == b0.push(Modification::BombsDetonated(pid))
}

/// The outcome of player `pid` buying `item`: when it is on the map and has enough gems, the
/// price is taken from its gems and it gets the item; otherwise nothing changes.
pub open spec fn purchase_single_outcome(map0: ServerMap, map1: ServerMap, pid: Id, item: BoolItem) -> bool {
    let id = pid.value;
    let e = map0.entities()[id];
    let (gem, cost) = item.spec_price();
    &&& map1.usage() == map0.usage()
    &&& map1.index() == map0.index()
    &&& map1.chunks() == map0.chunks()
    &&& map1.entities() == if map0.entities().contains_key(id) && e.gem_collection.spec_quantity(gem) >= cost {
        map0.entities().insert(
            id,
            Entity {
                gem_collection: e.gem_collection.with_quantity(gem, (e.gem_collection.spec_quantity(gem) - cost) as u32),
                item_inventory: e.item_inventory.with_item(item),
                ..e
            },
        )
    } else {
        map0.entities()
    }
}

/// The outcome of player `pid` buying `quantity` of `item`: when it is on the map and has
/// enough gems for all of them, the total price is taken from its gems and it gets the items;
/// otherwise nothing changes.
pub open spec fn purchase_quantity_outcome(map0: ServerMap, map1: ServerMap, pid: Id, item: QuantitativeItem, quantity: u32) -> bool {
    let id = pid.value;
    let e = map0.entities()[id];
    let (gem, cost) = item.spec_price();
    let total = cost * quantity;
    &&& map1.usage() == map0.usage()
    &&& map1.index() == map0.index()
    &&& map1.chunks() == map0.chunks()
    &&& map1.entities() == if map0.entities().contains_key(id) && e.gem_collection.spec_quantity(gem) >= total {
        map0.entities().insert(
            id,
            Entity {
                gem_collection: e.gem_collection.with_quantity(gem, (e.gem_collection.spec_quantity(gem) - total) as u32),
                item_inventory: e.item_inventory.with_how_many(item, (e.item_inventory.spec_how_many(item) + quantity) as u32),
                ..e
            },
        )
    } else {
        map0.entities()
    }
}

/// Whether buying `quantity` of `item` can be handled without an arithmetic overflow: when the
/// player can afford it, its item count can take the quantity.
pub open spec fn purchase_request_ok(map: ServerMap, pid: Id, item: QuantitativeItem, quantity: u32) -> bool {
    let e = map.entities()[pid.value];
    let (gem, cost) = item.spec_price();
    map.entities().contains_key(pid.value) && e.gem_collection.spec_quantity(gem) >= cost * quantity
        ==> e.item_inventory.spec_how_many(item) + quantity <= u32::MAX
}

impl Session {
    /// Places a bomb for player `pid` (see [`place_bomb_outcome`]).
    fn handle_place_bomb(map: &mut ServerMap, pid: Id, broadcasts: &mut Vec<Modification>)
        requires
            old(map).wf(),
        ensures
            final(map).wf(),
            final(map).spec_seed() == old(map).spec_seed(),
            place_bomb_outcome(*old(map), *final(map), old(broadcasts)@, final(broadcasts)@, pid),
    {
        let (can_place_bomb, pos) = match map.entity_by_id(pid) {
            Some(player) => (player.item_inventory.has_how_many(QuantitativeItem::Bomb) >= 1, player.pos),
            None => (false, TileCoords { x: 0, y: 0 }),
        };
        if can_place_bomb {
            map.set_bomb_at(pos, pid);
            broadcasts.push(Modification::BombPlaced(pos, pid));
            let mut player = *map.entity_by_id(pid).unwrap();
            player.item_inventory.take_quantity(QuantitativeItem::Bomb, 1);
            map.update_entity(pid, player);
        }
    }

    /// Detonates the bombs of player `pid` (see [`detonate_outcome`]).
    fn handle_detonate_bombs(map: &mut ServerMap, pid: Id, broadcasts: &mut Vec<Modification>)
        requires
            old(map).wf(),
        ensures
            final(map).wf(),
            final(map).spec_seed() == old(map).spec_seed(),
            detonate_outcome(*old(map), *final(map), old(broadcasts)@, final(broadcasts)@, pid),
    {
        let coords = match map.entity_by_id(pid) {
            Some(e) => e.pos.as_chunk_coords(),
            None => ChunkCoords { x: 0, y: 0 },
        };
        proof {
            if map.entities().contains_key(pid.value) {
                crate::coords::lemma_tile_chunk_in_range(map.entities()[pid.value].pos);
            }
        }
        map.take_bombs_placed_by_in_and_around_chunk(pid, coords);
        broadcasts.push(Modification::BombsDetonated(pid));
    }

    /// Lets player `pid` buy `item` (see [`purchase_single_outcome`]).
    fn handle_purchase_single_item(map: &mut ServerMap, pid: Id, item: BoolItem)
        requires
            old(map).wf(),
        ensures
            final(map).wf(),
            final(map).spec_seed() == old(map).spec_seed(),
            purchase_single_outcome(*old(map), *final(map), pid, item),
    {
        let (cost_gem, cost_quantity) = item.get_price();
        match map.entity_by_id(pid) {
            Some(current) => {
                let mut entity = *current;
                if entity.gem_collection.get_quantity(cost_gem) >= cost_quantity {
                    entity.gem_collection.decrease_quantity(cost_gem, cost_quantity);
                    entity.item_inventory.give(item);
                    map.update_entity(pid, entity);
                }
            },
            None => {},
        }
    }

    /// Lets player `pid` buy `quantity` of `item` (see [`purchase_quantity_outcome`]).
    fn handle_purchase_item_quantity(map: &mut ServerMap, pid: Id, item: QuantitativeItem, quantity: u32)
        requires
            old(map).wf(),
            purchase_request_ok(*old(map), pid, item, quantity),
        ensures
            final(map).wf(),
            final(map).spec_seed() == old(map).spec_seed(),
            purchase_quantity_outcome(*old(map), *final(map), pid, item, quantity),
    {
        let (cost_gem, single_cost_quantity) = item.get_price();
        match single_cost_quantity.checked_mul(quantity) {
            // The total price is beyond any gem count, so the player cannot afford it.
            None => {},
            Some(total_cost_quantity) => {
                match map.entity_by_id(pid) {
                    Some(current) => {
                        let mut entity = *current;
                        if entity.gem_collection.get_quantity(cost_gem) >= total_cost_quantity {
                            entity.gem_collection.decrease_quantity(cost_gem, total_cost_quantity);
                            entity.item_inventory.give_quantity(item, quantity);
                            map.update_entity(pid, entity);
                        }
                    },
                    None => {},
                }
            },
        }
    }
}

/// Whether two maps hold the same chunks, index, usage counts and entities.
pub open spec fn same_map(map0: ServerMap, map1: ServerMap) -> bool {
    &&& map1.chunks() == map0.chunks()
    &&& map1.index() == map0.index()
    &&& map1.usage() == map0.usage()
    &&& map1.entities() == map0.entities()
}

/// Whether a message from the client of player `pid` can be handled without an arithmetic
/// overflow or a missing player (see [`move_request_ok`] and [`purchase_request_ok`]).
pub open spec fn message_ok(map: ServerMap, pid: Id, msg: ToServer) -> bool {
    match msg {
        ToServer::MoveMyEntity { direction, .. } => move_request_ok(map, pid, direction),
        ToServer::PurchaseItemQuantity { item, quantity } => purchase_request_ok(map, pid, item, quantity),
        _ => true,
    }
}

/// Whether a message from the client of player `pid` can be handled without leaving the range
/// of the integers involved (see [`message_ok`]).
pub fn message_acceptable(map: &ServerMap, pid: Id, msg: ToServer) -> (r: bool)
    requires
        map.wf(),
    ensures
        r == message_ok(*map, pid, msg),
{
    match msg {
        ToServer::MoveMyEntity { direction, .. } => {
            match map.entity_by_id(pid) {
                None => false,
                Some(e) => {
                    let pos = e.pos;
                    let applicable = match direction {
                        crate::coords::Direction::Up => pos.y < i32::MAX,
                        crate::coords::Direction::Down => pos.y > i32::MIN,
                        crate::coords::Direction::Left => pos.x > i32::MIN,
                        crate::coords::Direction::Right => pos.x < i32::MAX,
                    };
                    if !applicable {
                        false
                    } else {
                        let np = direction.apply(pos);
                        match map.loaded_tile_at(np) {
                            Some(t) => {
                                if !t.is_smashable() {
                                    assert(smashed_tile_at(map, np) is None);
                                    true
                                } else {
                                    assert(smashed_tile_at(map, np) == Some(t));
                                    match t.get_gem_yield() {
                                        Some(gy) => {
                                            let q = e.gem_collection.get_quantity(gy.gem);
                                            let fits = q <= u32::MAX - gy.maximum_quantity;
                                            assert(fits == (q + gy.maximum_quantity <= u32::MAX));
                                            fits
                                        },
                                        None => true,
                                    }
                                }
                            },
                            None => {
                                assert(smashed_tile_at(map, np) is None);
                                true
                            },
                        }
                    }
                },
            }
        },
        ToServer::PurchaseItemQuantity { item, quantity } => {
            let (gem, cost) = item.get_price();
            match cost.checked_mul(quantity) {
                None => true,
                Some(total) => {
                    match map.entity_by_id(pid) {
                        Some(e) => {
                            if e.gem_collection.get_quantity(gem) >= total {
                                let held = e.item_inventory.has_how_many(item);
                                let fits = held <= u32::MAX - quantity;
                                assert(fits == (held + quantity <= u32::MAX));
                                fits
                            } else {
                                true
                            }
                        },
                        None => true,
                    }
                },
            }
        },
        _ => true,
    }
}

impl Session {
    /// Handles a message from this session's client, whose player entity has the ID `pid`, and
    /// returns the messages to send back. Changes to the map that other connections must hear
    /// about are appended to `broadcasts`, and chunks that no client uses any more to
    /// `to_save`. A hello after the connection was set up is ignored; the other messages have
    /// the outcomes [`move_outcome`], [`place_bomb_outcome`], [`detonate_outcome`],
    /// [`purchase_single_outcome`] and [`purchase_quantity_outcome`], and only a move request
    /// gets responses.
    pub fn handle_message<G: Generator>(
        &mut self,
        map: &mut ServerMap,
        generator: &G,
        msg: ToServer,
        pid: Id,
        broadcasts: &mut Vec<Modification>,
        to_save: &mut Vec<(ChunkCoords, Chunk)>,
    ) -> (responses: Vec<FromServer>)
        requires
            old(map).wf(),
            session_consistent(old(self)@, old(map).usage()),
            usage_has_room(old(map).usage(), 9),
            message_ok(*old(map), pid, msg),
        ensures
            final(map).wf(),
            final(map).spec_seed() == old(map).spec_seed(),
            session_consistent(final(self)@, final(map).usage()),
            match msg {
                ToServer::MoveMyEntity { request_number, direction } => move_outcome(
                    old(self)@,
                    final(self)@,
                    *old(map),
                    *final(map),
                    old(broadcasts)@,
                    final(broadcasts)@,
                    old(to_save)@,
                    final(to_save)@,
                    responses@,
                    pid,
                    request_number,
                    direction,
                ),
                _ => {
                    &&& responses@.len() == 0
                    &&& final(self)@ == old(self)@
                    &&& final(to_save)@ == old(to_save)@
                    &&& match msg {
                        ToServer::Hello { .. } => same_map(*old(map), *final(map)) && final(broadcasts)@ == old(broadcasts)@,
                        ToServer::PlaceBomb => place_bomb_outcome(*old(map), *final(map), old(broadcasts)@, final(broadcasts)@, pid),
                        ToServer::DetonateBombs => detonate_outcome(*old(map), *final(map), old(broadcasts)@, final(broadcasts)@, pid),
                        ToServer::PurchaseSingleItem(item) => purchase_single_outcome(*old(map), *final(map), pid, item)
                            && final(broadcasts)@ == old(broadcasts)@,
                        ToServer::PurchaseItemQuantity { item, quantity } => purchase_quantity_outcome(*old(map), *final(map), pid, item, quantity)
                            && final(broadcasts)@ == old(broadcasts)@,
                        _ => true,
                    }
                },
            },
    {
        match msg {
            ToServer::Hello { .. } => Vec::new(),
            ToServer::MoveMyEntity { request_number, direction } => {
                self.handle_move_my_entity(map, generator, pid, request_number, direction, broadcasts, to_save)
            },
            ToServer::PlaceBomb => {
                Session::handle_place_bomb(map, pid, broadcasts);
                Vec::new()
            },
            ToServer::DetonateBombs => {
                Session::handle_detonate_bombs(map, pid, broadcasts);
                Vec::new()
            },
            ToServer::PurchaseSingleItem(item) => {
                Session::handle_purchase_single_item(map, pid, item);
                Vec::new()
            },
            ToServer::PurchaseItemQuantity { item, quantity } => {
                Session::handle_purchase_item_quantity(map, pid, item, quantity);
                Vec::new()
            },
        }
    }
}

/// The usage map after this session's client releases each of `cs` in turn.
pub open spec fn usage_after_releases(u: Map<i128, usize>, cs: Seq<ChunkCoords>) -> Map<i128, usize>
    decreases cs.len(),
{
    if cs.len() == 0 {
        u
    } else {
        usage_dec(usage_after_releases(u, cs.drop_last()), chunk_key(cs.last()))
    }
}

/// The keys of the loaded chunks after releasing each of `cs` in turn: a chunk whose last user
/// is released is removed.
pub open spec fn loaded_after_releases(d: Set<i128>, u: Map<i128, usize>, cs: Seq<ChunkCoords>) -> Set<i128>
    decreases cs.len(),
{
    if cs.len() == 0 {
        d
    } else {
        let prev = cs.drop_last();
        let k = chunk_key(cs.last());
        if usage_of(usage_after_releases(u, prev), k) == 1 {
            loaded_after_releases(d, u, prev).remove(k)
        } else {
            loaded_after_releases(d, u, prev)
        }
    }
}

/// The entity index after releasing each of `cs` in turn.
pub open spec fn index_after_releases(index: Map<i128, Set<u128>>, u: Map<i128, usize>, cs: Seq<ChunkCoords>) -> Map<i128, Set<u128>>
    decreases cs.len(),
{
    if cs.len() == 0 {
        index
    } else {
        let prev = cs.drop_last();
        let k = chunk_key(cs.last());
        if usage_of(usage_after_releases(u, prev), k) == 1 {
            index_after_releases(index, u, prev).remove(k)
        } else {
            index_after_releases(index, u, prev)
        }
    }
}

impl Session {
    /// Puts the player entity of this session's client on the map once the client has been
    /// welcomed: the chunks around the entity are provided first (their messages are
    /// returned), then the entity is added to the map and its arrival is announced.
    pub fn enter_map<G: Generator>(
        &mut self,
        map: &mut ServerMap,
        generator: &G,
        pid: Id,
        entity: Entity,
        broadcasts: &mut Vec<Modification>,
        to_save: &mut Vec<(ChunkCoords, Chunk)>,
    ) -> (msgs: Vec<FromServer>)
        requires
            old(map).wf(),
            session_consistent(old(self)@, old(map).usage()),
            usage_has_room(old(map).usage(), 9),
        ensures
            final(map).wf(),
            final(map).spec_seed() == old(map).spec_seed(),
            session_consistent(final(self)@, final(map).usage()),
            final(map).entities() == old(map).entities().insert(pid.value, entity),
            final(map).index() == index_after_provides(
                old(map).index(),
                old(map).chunks().dom(),
                old(map).usage(),
                old(self)@,
                around_chunk(entity.pos.spec_chunk()),
            ).insert(
                chunk_key(entity.pos.spec_chunk()),
                crate::server_map::ids_at(
                    index_after_provides(
                        old(map).index(),
                        old(map).chunks().dom(),
                        old(map).usage(),
                        old(self)@,
                        around_chunk(entity.pos.spec_chunk()),
                    ),
                    chunk_key(entity.pos.spec_chunk()),
                ).insert(pid.value),
            ),
            provisions_done(
                old(self)@,
                final(self)@,
                old(map).chunks(),
                old(map).index(),
                old(map).usage(),
                final(map).chunks(),
                index_after_provides(
                    old(map).index(),
                    old(map).chunks().dom(),
                    old(map).usage(),
                    old(self)@,
                    around_chunk(entity.pos.spec_chunk()),
                ),
                final(map).usage(),
                old(to_save)@,
                final(to_save)@,
                entity.pos.spec_chunk(),
            ),
            provided_chunk_coords(msgs@) == newly_provided(old(self)@, around_chunk(entity.pos.spec_chunk())),
            unloaded_chunk_coords(msgs@) == evicted_along(old(self)@, around_chunk(entity.pos.spec_chunk())),
            provision_kinds(msgs@, pid.value),
            provisions_told(
                msgs@,
                old(map).chunks(),
                final(map).chunks(),
                old(map).index(),
                old(map).usage(),
                old(map).entities(),
                old(self)@,
                entity.pos.spec_chunk(),
                pid.value,
            ),
            final(broadcasts)@ == old(broadcasts)@.push(Modification::EntityAdded(pid)),
    {
        let c = entity.pos.as_chunk_coords();
        proof {
            crate::coords::lemma_tile_chunk_in_range(entity.pos);
        }
        let msgs = self.provide_chunks_at_and_surrounding_with_entities(map, generator, c, pid, to_save);
        let ghost provided = *map;
        map.add_entity(pid, entity);
        broadcasts.push(Modification::EntityAdded(pid));
        msgs
    }
}

impl Session {
    /// Releases every chunk that this session's client has loaded, in order from least to
    /// most recently provided ([`Session::chunk_not_needed`]); chunks that no client uses any
    /// more are removed from the map and appended to `to_save`.
    pub fn release_loaded_chunks(&self, map: &mut ServerMap, to_save: &mut Vec<(ChunkCoords, Chunk)>)
        requires
            old(map).wf(),
            session_consistent(self@, old(map).usage()),
        ensures
            final(map).wf(),
            final(map).spec_seed() == old(map).spec_seed(),
            final(map).entities() == old(map).entities(),
            final(map).usage() == usage_after_releases(old(map).usage(), self@),
            final(map).chunks().dom() == loaded_after_releases(old(map).chunks().dom(), old(map).usage(), self@),
            final(map).index() == index_after_releases(old(map).index(), old(map).usage(), self@),
            forall|k: i128| #[trigger] final(map).chunks().contains_key(k) ==> final(map).chunks()[k] == old(map).chunks()[k],
            old(to_save)@.len() <= final(to_save)@.len(),
            final(to_save)@.subrange(0, old(to_save)@.len() as int) == old(to_save)@,
    {
        let ghost s = self@;
        let ghost u0 = map.usage();
        let ghost d0 = map.chunks().dom();
        let ghost i0 = map.index();
        let ghost c0 = map.chunks();
        let ghost save0 = to_save@;
        let mut i: usize = 0;
        proof {
            assert(s.take(0) =~= Seq::<ChunkCoords>::empty());
            assert(to_save@.subrange(0, save0.len() as int) =~= save0);
        }
        while i < self.remote_loaded_chunk_coords.len()
            invariant
                s == self@,
                i <= s.len(),
                session_consistent(s, u0),
                map.wf(),
                map.spec_seed() == old(map).spec_seed(),
                map.entities() == old(map).entities(),
                map.usage() == usage_after_releases(u0, s.take(i as int)),
                map.chunks().dom() == loaded_after_releases(d0, u0, s.take(i as int)),
                map.index() == index_after_releases(i0, u0, s.take(i as int)),
                forall|k: i128| #[trigger] map.chunks().contains_key(k) ==> map.chunks()[k] == c0[k],
                forall|j: int| i <= j < s.len() ==> usage_of(map.usage(), chunk_key(#[trigger] s[j])) == usage_of(u0, chunk_key(s[j])),
                save0.len() <= to_save@.len(),
                to_save@.subrange(0, save0.len() as int) == save0,
                c0.dom() == d0,
            decreases s.len() - i,
        {
            let coords = self.remote_loaded_chunk_coords[i];
            let ghost take_i = s.take(i as int);
            let ghost take_n = s.take(i + 1);
            let ghost save_b = to_save@;
            let ghost usage_b = map.usage();
            proof {
                assert(take_n.drop_last() =~= take_i);
                assert(take_n.last() == coords);
                assert(usage_of(u0, chunk_key(s[i as int])) >= 1);
            }
            let saved = self.chunk_not_needed(map, coords);
            match saved {
                Some(ch) => {
                    to_save.push((coords, ch));
                },
                None => {},
            }
            proof {
                assert forall|j: int| i + 1 <= j < s.len() implies usage_of(map.usage(), chunk_key(#[trigger] s[j])) == usage_of(u0, chunk_key(s[j])) by {
                    assert(s[j] != s[i as int]);
                    crate::coords::lemma_chunk_key_injective(s[j], s[i as int]);
                    assert(usage_of(usage_b, chunk_key(s[j])) == usage_of(u0, chunk_key(s[j])));
                }
                assert forall|j: int| 0 <= j < save0.len() implies to_save@[j] == save0[j] by {
                    assert(to_save@[j] == save_b[j]);
                    assert(save_b.subrange(0, save0.len() as int)[j] == save_b[j]);
                }
                assert(to_save@.subrange(0, save0.len() as int) =~= save0);
            }
            i = i + 1;
        }
        proof {
            assert(s.take(s.len() as int) =~= s);
        }
    }

    /// Takes the player entity of this session's client off the map once the client has gone:
    /// the client's chunks are released ([`Session::release_loaded_chunks`]), the entity is
    /// removed, and if it was on the map its removal is announced along with the chunk it was
    /// in. Returns the removed entity so that it can be saved.
    pub fn leave_map(
        &self,
        map: &mut ServerMap,
        pid: Id,
        broadcasts: &mut Vec<Modification>,
        to_save: &mut Vec<(ChunkCoords, Chunk)>,
    ) -> (r: Option<Entity>)
        requires
            old(map).wf(),
            session_consistent(self@, old(map).usage()),
        ensures
            final(map).wf(),
            final(map).spec_seed() == old(map).spec_seed(),
            final(map).entities() == old(map).entities().remove(pid.value),
            final(map).usage() == usage_after_releases(old(map).usage(), self@),
            final(map).chunks().dom() == loaded_after_releases(old(map).chunks().dom(), old(map).usage(), self@),
            old(to_save)@.len() <= final(to_save)@.len(),
            final(to_save)@.subrange(0, old(to_save)@.len() as int) == old(to_save)@,
            match r {
                Some(e) => {
                    &&& old(map).entities().contains_key(pid.value)
                    &&& e == old(map).entities()[pid.value]
                    &&& final(broadcasts)@ == old(broadcasts)@.push(Modification::EntityRemoved(pid, e.pos.spec_chunk()))
                },
                None => !old(map).entities().contains_key(pid.value) && final(broadcasts)@ == old(broadcasts)@,
            },
    {
        self.release_loaded_chunks(map, to_save);
        let entity_option = map.remove_entity(pid);
        match entity_option {
            Some(entity) => {
                broadcasts.push(Modification::EntityRemoved(pid, entity.pos.as_chunk_coords()));
            },
            None => {},
        }
        entity_option
    }
}

/// Whether `x` is in `l` with at most `b` elements after it.
pub open spec fn recent_within(l: Seq<ChunkCoords>, x: ChunkCoords, b: int) -> bool {
    exists|idx: int| 0 <= idx < l.len() && l[idx] == x && l.len() - 1 - idx <= b
}

/// Providing a chunk other than `x` moves `x` at most one place further from the most recent
/// end, and does not evict it while at most ten chunks came after it.
pub proof fn lemma_provide_recency(s: Seq<ChunkCoords>, c: ChunkCoords, x: ChunkCoords, b: int)
    requires
        s.no_duplicates(),
        s.len() <= MAX_LOADED_CHUNKS_PER_CLIENT,
        x != c,
        0 <= b <= 10,
        recent_within(s, x, b),
    ensures
        recent_within(list_after_provide(s, c), x, b + 1),
{
    lemma_bumped(s, c);
    let idx = choose|idx: int| 0 <= idx < s.len() && s[idx] == x && s.len() - 1 - idx <= b;
    let bumped = list_bumped(s, c);
    // the position of `x` in the bumped list
    let bidx: int = if s.contains(c) {
        let f = first_index_of(s, c);
        assert(0 <= f < s.len() && s[f] == c) by {
            let w = choose|j: int| 0 <= j < s.len() && s[j] == c;
            assert(s[w] == c);
            if !(0 <= f < s.len() && s[f] == c && (forall|j: int| 0 <= j < f ==> s[j] != c)) {
                assert forall|j: int| 0 <= j < w implies s[j] != c by {
                    if s[j] == c {
                        assert(s[j] == s[w]);
                    }
                }
            }
        }
        s.remove_ensures(f);
        assert(idx != f);
        if idx < f {
            assert(bumped[idx] == s[idx]);
            idx
        } else {
            assert(bumped[idx - 1] == s[idx]);
            idx - 1
        }
    } else {
        assert(bumped[idx] == s[idx]);
        idx
    };
    assert(bumped[bidx] == x);
    assert(bumped.len() - 1 - bidx <= b + 1);
    let l = list_after_provide(s, c);
    if bumped.len() > MAX_LOADED_CHUNKS_PER_CLIENT {
        assert(bidx >= 1);
        assert(l[bidx - 1] == x);
        assert(l.len() - 1 - (bidx - 1) <= b + 1);
    } else {
        assert(l[bidx] == x);
    }
}

/// After providing the first `i` chunks around `c`, the list stays without repeats and within
/// the maximum length, and the `j`-th provided chunk has at most `i - 1 - j` chunks after it.
pub proof fn lemma_provides_recency(s: Seq<ChunkCoords>, c: ChunkCoords, i: int)
    requires
        s.no_duplicates(),
        s.len() <= MAX_LOADED_CHUNKS_PER_CLIENT,
        i32::MIN < c.x < i32::MAX,
        i32::MIN < c.y < i32::MAX,
        0 <= i <= 9,
    ensures
        list_after_provides(s, around_chunk(c).take(i)).no_duplicates(),
        list_after_provides(s, around_chunk(c).take(i)).len() <= MAX_LOADED_CHUNKS_PER_CLIENT,
        forall|j: int| 0 <= j < i ==> recent_within(list_after_provides(s, around_chunk(c).take(i)), #[trigger] around_chunk(c)[j], i - 1 - j),
    decreases i,
{
    let cs = around_chunk(c);
    if i == 0 {
        assert(cs.take(0) =~= Seq::<ChunkCoords>::empty());
    } else {
        lemma_provides_recency(s, c, i - 1);
        crate::loaded_chunks::lemma_around_chunk_distinct(c);
        let l = list_after_provides(s, cs.take(i - 1));
        let ci = cs[i - 1];
        assert(cs.take(i).drop_last() =~= cs.take(i - 1));
        assert(cs.take(i).last() == ci);
        let l2 = list_after_provides(s, cs.take(i));
        assert(l2 == list_after_provide(l, ci));
        law_provide_keeps_list_bounded(l, ci);
        assert forall|j: int| 0 <= j < i implies recent_within(l2, #[trigger] cs[j], i - 1 - j) by {
            if j == i - 1 {
                assert(l2[l2.len() - 1] == ci);
            } else {
                assert(chunk_key(cs[j]) != chunk_key(cs[i - 1]));
                lemma_provide_recency(l, ci, cs[j], i - 2 - j);
            }
        }
    }
}

/// After the chunk at `c` and the eight around it have been provided, the client has all nine
/// loaded, whatever it had loaded before.
pub proof fn law_provided_chunks_all_loaded(s: Seq<ChunkCoords>, c: ChunkCoords)
    requires
        s.no_duplicates(),
        s.len() <= MAX_LOADED_CHUNKS_PER_CLIENT,
        i32::MIN < c.x < i32::MAX,
        i32::MIN < c.y < i32::MAX,
    ensures
        forall|j: int| 0 <= j < 9 ==> #[trigger] list_after_provides(s, around_chunk(c)).contains(around_chunk(c)[j]),
{
    let cs = around_chunk(c);
    lemma_provides_recency(s, c, 9);
    assert(cs.take(9) =~= cs);
    assert forall|j: int| 0 <= j < 9 implies #[trigger] list_after_provides(s, cs).contains(cs[j]) by {
        assert(recent_within(list_after_provides(s, cs.take(9)), cs[j], 8 - j));
        let l = list_after_provides(s, cs);
        let idx = choose|idx: int| 0 <= idx < l.len() && l[idx] == cs[j] && l.len() - 1 - idx <= 8 - j;
        assert(l[idx] == cs[j]);
    }
}

/// Providing a chunk that the client did not have and then releasing it leaves every usage
/// count as it was.
pub proof fn law_usage_round_trip(u: Map<i128, usize>, k: i128, other: i128)
    requires
        usage_of(u, k) < usize::MAX,
    ensures
        usage_of(usage_dec(usage_inc(u, k), k), other) == usage_of(u, other),
{
}

} // verus!
