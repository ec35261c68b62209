use std::collections::HashMap;
use vstd::prelude::*;
use crate::chunk::{bombs_not_placed_by, chunk_view_wf, offset_index, positions_placed_by, with_bomb, Chunk};
use crate::coords::{chunk_key, chunk_key_of, ChunkCoords, TileCoords};
use crate::world::{Id, Tile};

verus! {

broadcast use vstd::std_specs::hash::group_hash_axioms;

/// What a chunk holds: its tiles (row by row from the bottom row) and its undetonated bombs.
pub type ChunkView = (Seq<Tile>, Seq<(TileCoords, Id)>);

/// The tile at `pos` among the given loaded chunks, if its chunk is loaded.
pub open spec fn loaded_tile_in(chunks: Map<i128, ChunkView>, pos: TileCoords) -> Option<Tile> {
    let k = chunk_key(pos.spec_chunk());
    if chunks.contains_key(k) {
        Some(chunks[k].0[offset_index(pos.spec_offset())])
    } else {
        None
    }
}

/// The chunk view with every bomb placed by `placer` removed.
pub open spec fn view_without_bombs_of(v: ChunkView, placer: Id) -> ChunkView {
    (v.0, bombs_not_placed_by(v.1, placer))
}

/// The loaded chunks after the tile at `pos` is replaced by `tile` (unchanged when the chunk of
/// `pos` is not loaded).
pub open spec fn chunks_with_tile(chunks: Map<i128, ChunkView>, pos: TileCoords, tile: Tile) -> Map<i128, ChunkView> {
    let k = chunk_key(pos.spec_chunk());
    if chunks.contains_key(k) {
        let v = chunks[k];
        chunks.insert(k, (v.0.update(offset_index(pos.spec_offset()), tile), v.1))
    } else {
        chunks
    }
}

/// The loaded chunks after `placer` places a bomb at `pos` (unchanged when the chunk of `pos`
/// is not loaded).
pub open spec fn chunks_with_bomb(chunks: Map<i128, ChunkView>, pos: TileCoords, placer: Id) -> Map<i128, ChunkView> {
    let k = chunk_key(pos.spec_chunk());
    if chunks.contains_key(k) {
        let v = chunks[k];
        chunks.insert(k, (v.0, with_bomb(v.1, pos, placer)))
    } else {
        chunks
    }
}

/// The chunk at `c` and the eight chunks around it, column by column (increasing `x`), each
/// column from bottom to top (increasing `y`).
pub open spec fn around_chunk(c: ChunkCoords) -> Seq<ChunkCoords> {
    Seq::new(9, |i: int| ChunkCoords { x: (c.x + i / 3 - 1) as i32, y: (c.y + i % 3 - 1) as i32 })
}

/// The nine chunks around `c` have distinct keys.
pub proof fn lemma_around_chunk_distinct(c: ChunkCoords)
    requires
        i32::MIN < c.x < i32::MAX,
        i32::MIN < c.y < i32::MAX,
    ensures
        forall|a: int, b: int| 0 <= a < b < 9 ==> chunk_key(#[trigger] around_chunk(c)[a]) != chunk_key(#[trigger] around_chunk(c)[b]),
{
    assert forall|a: int, b: int| 0 <= a < b < 9 implies chunk_key(#[trigger] around_chunk(c)[a]) != chunk_key(#[trigger] around_chunk(c)[b]) by {
        crate::coords::lemma_chunk_key_injective(around_chunk(c)[a], around_chunk(c)[b]);
    }
}

/// The loaded chunks after the bombs placed by `placer` are removed from those whose keys are
/// in `keys`.
pub open spec fn chunks_without_bombs_of(chunks: Map<i128, ChunkView>, keys: Set<i128>, placer: Id) -> Map<i128, ChunkView> {
    Map::new(
        |k: i128| chunks.contains_key(k),
        |k: i128| if keys.contains(k) { view_without_bombs_of(chunks[k], placer) } else { chunks[k] },
    )
}

/// Positions of the bombs placed by `placer` in the chunk with key `k` (none when not loaded).
pub open spec fn bombs_taken_in(chunks: Map<i128, ChunkView>, k: i128, placer: Id) -> Seq<TileCoords> {
    if chunks.contains_key(k) {
        positions_placed_by(chunks[k].1, placer)
    } else {
        Seq::empty()
    }
}

/// Positions of the bombs placed by `placer` in the given chunks, chunk by chunk.
pub open spec fn bombs_taken_around(chunks: Map<i128, ChunkView>, cs: Seq<ChunkCoords>, placer: Id) -> Seq<TileCoords>
    decreases cs.len(),
{
    if cs.len() == 0 {
        Seq::empty()
    } else {
        bombs_taken_around(chunks, cs.drop_last(), placer) + bombs_taken_in(chunks, chunk_key(cs.last()), placer)
    }
}

/// Reading a tile after writing it gives the written tile (when its chunk is loaded), and
/// writing a tile leaves every other tile as it was.
pub proof fn law_tile_read_after_write(chunks: Map<i128, ChunkView>, pos: TileCoords, other: TileCoords, tile: Tile)
    requires
        forall|k: i128| #[trigger] chunks.contains_key(k) ==> chunk_view_wf(chunks[k]),
    ensures
        loaded_tile_in(chunks_with_tile(chunks, pos, tile), pos) == if chunks.contains_key(chunk_key(pos.spec_chunk())) {
            Some(tile)
        } else {
            None
        },
        other != pos ==> loaded_tile_in(chunks_with_tile(chunks, pos, tile), other) == loaded_tile_in(chunks, other),
{
    crate::coords::law_tile_at_own_offset(pos);
    crate::coords::law_tile_at_own_offset(other);
    let kp = chunk_key(pos.spec_chunk());
    let ko = chunk_key(other.spec_chunk());
    crate::coords::lemma_chunk_key_injective(pos.spec_chunk(), other.spec_chunk());
    if other != pos && kp == ko && chunks.contains_key(kp) {
        if pos.spec_offset() == other.spec_offset() {
            crate::coords::lemma_chunk_and_offset_determine_tile(pos, other);
        }
        let a = pos.spec_offset();
        let b = other.spec_offset();
        assert(offset_index(a) != offset_index(b)) by {
            if a.x != b.x {
                assert((a.x as int - b.x as int) != (b.y as int - a.y as int) * 16) by (nonlinear_arith)
                    requires a.x != b.x, a.x < 16, b.x < 16;
            } else {
                assert(a.y != b.y);
            }
        }
    }
}

/// The chunks of the map that are loaded in memory, by chunk coordinates.
pub struct LoadedChunks {
    chunks: HashMap<i128, Chunk>,
}

impl View for LoadedChunks {
    type V = Map<i128, ChunkView>;

    /// What each loaded chunk holds, by chunk key.
    closed spec fn view(&self) -> Map<i128, ChunkView> {
        Map::new(|k: i128| self.chunks@.contains_key(k), |k: i128| self.chunks@[k]@)
    }
}

impl LoadedChunks {
    /// Every loaded chunk is well formed.
    pub open spec fn wf(&self) -> bool {
        forall|k: i128| #[trigger] self@.contains_key(k) ==> chunk_view_wf(self@[k])
    }

    /// No chunks.
    pub fn new() -> (c: LoadedChunks)
        ensures
            c.wf(),
            c@ == Map::<i128, ChunkView>::empty(),
    {
        let c = LoadedChunks { chunks: HashMap::new() };
        assert(c@ =~= Map::<i128, ChunkView>::empty());
        c
    }

    /// The loaded chunk at `coords`, if any.
    pub fn get(&self, coords: ChunkCoords) -> (r: Option<&Chunk>)
        ensures
            match r {
                Some(c) => self@.contains_key(chunk_key(coords)) && c@ == self@[chunk_key(coords)],
                None => !self@.contains_key(chunk_key(coords)),
            },
    {
        let k = chunk_key_of(coords);
        self.chunks.get(&k)
    }

    /// Whether the chunk at `coords` is loaded.
    pub fn contains(&self, coords: ChunkCoords) -> (r: bool)
        ensures
            r == self@.contains_key(chunk_key(coords)),
    {
        let k = chunk_key_of(coords);
        self.chunks.contains_key(&k)
    }

    /// Loads (or replaces) the chunk at `coords`.
    pub fn insert(&mut self, coords: ChunkCoords, chunk: Chunk)
        requires
            old(self).wf(),
            chunk.wf(),
        ensures
            final(self).wf(),
            final(self)@ == old(self)@.insert(chunk_key(coords), chunk@),
    {
        let k = chunk_key_of(coords);
        let ghost cv = chunk@;
        self.chunks.insert(k, chunk);
        assert(self@ =~= old(self)@.insert(k, cv));
    }

    /// Unloads and returns the chunk at `coords`, if loaded.
    pub fn remove(&mut self, coords: ChunkCoords) -> (r: Option<Chunk>)
        requires
            old(self).wf(),
        ensures
            final(self).wf(),
            final(self)@ == old(self)@.remove(chunk_key(coords)),
            match r {
                Some(c) => old(self)@.contains_key(chunk_key(coords)) && c@ == old(self)@[chunk_key(coords)] && c.wf(),
                None => !old(self)@.contains_key(chunk_key(coords)),
            },
    {
        let k = chunk_key_of(coords);
        let r = self.chunks.remove(&k);
        assert(self@ =~= old(self)@.remove(k));
        r
    }

    /// The tile at `pos`, if its chunk is loaded.
    pub fn tile_at(&self, pos: TileCoords) -> (r: Option<Tile>)
        requires
            self.wf(),
        ensures
            r == loaded_tile_in(self@, pos),
    {
        let k = chunk_key_of(pos.as_chunk_coords());
        match self.chunks.get(&k) {
            Some(chunk) => {
                assert(self@.contains_key(k));
                Some(chunk.tile_at_offset(pos.as_chunk_offset_coords()))
            },
            None => None,
        }
    }

    /// Replaces the tile at `pos` if its chunk is loaded (otherwise does nothing).
    pub fn set_tile_at(&mut self, pos: TileCoords, tile: Tile)
        requires
            old(self).wf(),
        ensures
            final(self).wf(),
            final(self)@ == chunks_with_tile(old(self)@, pos, tile),
    {
        let k = chunk_key_of(pos.as_chunk_coords());
        let chunk_option = self.chunks.remove(&k);
        match chunk_option {
            Some(mut chunk) => {
                assert(old(self)@.contains_key(k));
                let ghost v = chunk@;
                chunk.set_tile_at_offset(pos.as_chunk_offset_coords(), tile);
                let ghost nv = chunk@;
                self.chunks.insert(k, chunk);
                assert(nv == (v.0.update(offset_index(pos.spec_offset()), tile), v.1));
                assert(self@ =~= old(self)@.insert(k, nv));
            },
            None => {
                assert(self@ =~= old(self)@);
            },
        }
    }

    /// Places a bomb belonging to `placer` at `pos` if the chunk of `pos` is loaded (a bomb
    /// already at `pos` is replaced); does nothing otherwise.
    pub fn set_bomb_at(&mut self, pos: TileCoords, placer: Id)
        requires
            old(self).wf(),
        ensures
            final(self).wf(),
            final(self)@ == chunks_with_bomb(old(self)@, pos, placer),
    {
        let k = chunk_key_of(pos.as_chunk_coords());
        let chunk_option = self.chunks.remove(&k);
        match chunk_option {
            Some(mut chunk) => {
                assert(old(self)@.contains_key(k));
                chunk.set_bomb_at(pos, placer);
                let ghost nv = chunk@;
                self.chunks.insert(k, chunk);
                assert(self@ =~= old(self)@.insert(k, nv));
            },
            None => {
                assert(self@ =~= old(self)@);
            },
        }
    }

    /// Removes the bombs placed by `placer` from the chunk at `c` (if loaded) and returns their
    /// positions in placement order.
    fn take_bombs_in_chunk(&mut self, placer: Id, c: ChunkCoords) -> (taken: Vec<TileCoords>)
        requires
            old(self).wf(),
        ensures
            final(self).wf(),
            final(self)@ == chunks_without_bombs_of(old(self)@, set![chunk_key(c)], placer),
            taken@ == bombs_taken_in(old(self)@, chunk_key(c), placer),
    {
        let k = chunk_key_of(c);
        let chunk_option = self.chunks.remove(&k);
        match chunk_option {
            Some(mut chunk) => {
                assert(old(self)@.contains_key(k));
                let taken = chunk.take_bombs_placed_by(placer);
                let ghost nv = chunk@;
                self.chunks.insert(k, chunk);
                assert(self@ =~= chunks_without_bombs_of(old(self)@, set![k], placer));
                taken
            },
            None => {
                assert(self@ =~= chunks_without_bombs_of(old(self)@, set![k], placer));
                Vec::new()
            },
        }
    }

    /// Removes every bomb placed by `placer` from the loaded chunks among the chunk at `coords`
    /// and the eight chunks around it, returning the positions of the removed bombs (chunk by
    /// chunk in the order of [`around_chunk`], each chunk's bombs in placement order).
    pub fn take_bombs_placed_by_in_and_around_chunk(&mut self, placer: Id, coords: ChunkCoords) -> (taken: Vec<TileCoords>)
        requires
            old(self).wf(),
            i32::MIN < coords.x < i32::MAX,
            i32::MIN < coords.y < i32::MAX,
        ensures
            final(self).wf(),
            final(self)@ == chunks_without_bombs_of(
                old(self)@,
                around_chunk(coords).map_values(|c: ChunkCoords| chunk_key(c)).to_set(),
                placer,
            ),
            taken@ == bombs_taken_around(old(self)@, around_chunk(coords), placer),
    {
        let ghost around = around_chunk(coords);
        let ghost keys = around.map_values(|c: ChunkCoords| chunk_key(c));
        let mut taken: Vec<TileCoords> = Vec::new();
        let mut i: u32 = 0;
        proof {
            lemma_around_chunk_distinct(coords);
            assert(keys.take(0).to_set() =~= Set::<i128>::empty());
            assert(self@ =~= chunks_without_bombs_of(old(self)@, Set::<i128>::empty(), placer));
        }
        while i < 9
            invariant
                i <= 9,
                self.wf(),
                old(self).wf(),
                i32::MIN < coords.x < i32::MAX,
                i32::MIN < coords.y < i32::MAX,
                around == around_chunk(coords),
                keys == around.map_values(|c: ChunkCoords| chunk_key(c)),
                forall|a: int, b: int| 0 <= a < b < 9 ==> chunk_key(#[trigger] around[a]) != chunk_key(#[trigger] around[b]),
                self@ == chunks_without_bombs_of(old(self)@, keys.take(i as int).to_set(), placer),
                taken@ == bombs_taken_around(old(self)@, around.take(i as int), placer),
            decreases 9 - i,
        {
            let dx: i32 = (i / 3) as i32 - 1;
            let dy: i32 = (i % 3) as i32 - 1;
            let c = ChunkCoords { x: coords.x + dx, y: coords.y + dy };
            proof {
                assert(c == around[i as int]);
            }
            let ghost before = self@;
            let ghost k = chunk_key(c);
            let ghost done = keys.take(i as int).to_set();
            proof {
                assert(!done.contains(k)) by {
                    if done.contains(k) {
                        let j = choose|j: int| 0 <= j < i && keys.take(i as int)[j] == k;
                        assert(chunk_key(around[j]) != chunk_key(around[i as int]));
                    }
                }
                assert(before.contains_key(k) == old(self)@.contains_key(k));
                if before.contains_key(k) {
                    assert(before[k] == old(self)@[k]);
                }
            }
            let more = self.take_bombs_in_chunk(placer, c);
            let mut more = more;
            taken.append(&mut more);
            proof {
                assert(keys.take(i + 1).to_set() =~= done.insert(k)) by {
                    let s1 = keys.take(i as int);
                    let s2 = keys.take(i + 1);
                    assert(s2 =~= s1.push(k));
                    assert forall|x: i128| s2.to_set().contains(x) == done.insert(k).contains(x) by {
                        if s2.contains(x) {
                            let j = choose|j: int| 0 <= j < s2.len() && s2[j] == x;
                            if j < i {
                                assert(s1[j] == x);
                            }
                        }
                        if s1.contains(x) {
                            let j = choose|j: int| 0 <= j < s1.len() && s1[j] == x;
                            assert(s2[j] == x);
                        }
                        if x == k {
                            assert(s2[i as int] == k);
                        }
                    }
                }
                assert(self@ =~= chunks_without_bombs_of(old(self)@, done.insert(k), placer));
                assert(around.take(i + 1).drop_last() =~= around.take(i as int));
                assert(around.take(i + 1).last() == c);
            }
            i = i + 1;
        }
        proof {
            assert(keys.take(9) =~= keys);
            assert(around.take(9) =~= around);
        }
        taken
    }
}

} // verus!
