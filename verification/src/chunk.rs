use vstd::prelude::*;
use crate::coords::{OffsetCoords, TileCoords, CHUNK_HEIGHT, CHUNK_TILE_COUNT, CHUNK_WIDTH};
use crate::world::{Id, Tile};

verus! {

/// Index of the tile at the given offset within a chunk's tile sequence.
pub open spec fn offset_index(o: OffsetCoords) -> int {
    o.x as int + (o.y as int) * CHUNK_WIDTH as int
}

/// Whether the offset lies within a chunk.
pub open spec fn offset_in_chunk(o: OffsetCoords) -> bool {
    (o.x as int) < CHUNK_WIDTH && (o.y as int) < CHUNK_HEIGHT
}

/// Whether no two placed bombs share a position.
pub open spec fn bomb_positions_unique(bombs: Seq<(TileCoords, Id)>) -> bool {
    forall|i: int, j: int|
        0 <= i < bombs.len() && 0 <= j < bombs.len() && i != j ==> #[trigger] bombs[i].0 != #[trigger] bombs[j].0
}

/// Whether a bomb is placed at `pos`.
pub open spec fn has_bomb_at(bombs: Seq<(TileCoords, Id)>, pos: TileCoords) -> bool {
    exists|i: int| 0 <= i < bombs.len() && #[trigger] bombs[i].0 == pos
}

/// The bombs after one placed by `placer` is put at `pos`: a bomb already at `pos` is replaced
/// in place, otherwise the new bomb is appended.
pub open spec fn with_bomb(bombs: Seq<(TileCoords, Id)>, pos: TileCoords, placer: Id) -> Seq<(TileCoords, Id)> {
    if has_bomb_at(bombs, pos) {
        bombs.update(choose|i: int| 0 <= i < bombs.len() && #[trigger] bombs[i].0 == pos, (pos, placer))
    } else {
        bombs.push((pos, placer))
    }
}

/// The bombs that were not placed by `placer`, in their original order.
pub open spec fn bombs_not_placed_by(bombs: Seq<(TileCoords, Id)>, placer: Id) -> Seq<(TileCoords, Id)> {
    bombs.filter(|b: (TileCoords, Id)| b.1 != placer)
}

/// The positions of the bombs placed by `placer`, in their original order.
pub open spec fn positions_placed_by(bombs: Seq<(TileCoords, Id)>, placer: Id) -> Seq<TileCoords> {
    bombs.filter(|b: (TileCoords, Id)| b.1 == placer).map_values(|b: (TileCoords, Id)| b.0)
}

/// Well-formedness of a chunk's view: one tile per position and at most one bomb per position.
pub open spec fn chunk_view_wf(v: (Seq<Tile>, Seq<(TileCoords, Id)>)) -> bool {
    &&& v.0.len() == CHUNK_TILE_COUNT
    &&& bomb_positions_unique(v.1)
}

/// A square section of the game map: its tiles, plus the bombs placed in it that have not yet
/// been detonated (each with the ID of the entity that placed it).
#[derive(Debug)]
pub struct Chunk {
    tiles: Vec<Tile>,
    bombs: Vec<(TileCoords, Id)>,
}

impl View for Chunk {
    /// The tiles (row by row from the bottom row) and the undetonated bombs (in placement
    /// order).
    type V = (Seq<Tile>, Seq<(TileCoords, Id)>);

    closed spec fn view(&self) -> (Seq<Tile>, Seq<(TileCoords, Id)>) {
        (self.tiles@, self.bombs@)
    }
}

impl Chunk {
    /// Well-formedness: one tile per position and at most one bomb per position.
    pub open spec fn wf(self) -> bool {
        chunk_view_wf(self@)
    }

    /// The tiles of the chunk, row by row starting from the bottom row.
    pub open spec fn tiles(self) -> Seq<Tile> {
        self@.0
    }

    /// The undetonated bombs in the chunk, in the order they were placed.
    pub open spec fn bombs(self) -> Seq<(TileCoords, Id)> {
        self@.1
    }

    /// The tile at the given offset.
    pub open spec fn spec_tile_at_offset(self, o: OffsetCoords) -> Tile {
        self.tiles()[offset_index(o)]
    }

    /// A chunk made entirely of grass with no bombs.
    pub fn new() -> (c: Chunk)
        ensures
            c.tiles() == Seq::new(CHUNK_TILE_COUNT as nat, |i: int| Tile::Grass),
            c.bombs() == Seq::<(TileCoords, Id)>::empty(),
            c.wf(),
    {
        let mut tiles: Vec<Tile> = Vec::new();
        let mut i: usize = 0;
        while i < CHUNK_TILE_COUNT
            invariant
                i <= CHUNK_TILE_COUNT,
                tiles@ == Seq::new(i as nat, |k: int| Tile::Grass),
            decreases CHUNK_TILE_COUNT - i,
        {
            tiles.push(Tile::Grass);
            i = i + 1;
        }
        Chunk { tiles, bombs: Vec::new() }
    }

    /// A chunk with the given tiles (row by row from the bottom row) and no bombs.
    pub fn from_tiles(tiles: Vec<Tile>) -> (c: Chunk)
        requires
            tiles@.len() == CHUNK_TILE_COUNT,
        ensures
            c.tiles() == tiles@,
            c.bombs() == Seq::<(TileCoords, Id)>::empty(),
            c.wf(),
    {
        Chunk { tiles, bombs: Vec::new() }
    }

    /// The tiles of the chunk, row by row starting from the bottom row.
    pub fn tile_list(&self) -> (r: &Vec<Tile>)
        ensures
            r@ == self.tiles(),
    {
        &self.tiles
    }

    /// The undetonated bombs in the chunk with the IDs of the entities that placed them, in the
    /// order they were placed.
    pub fn bomb_list(&self) -> (r: &Vec<(TileCoords, Id)>)
        ensures
            r@ == self.bombs(),
    {
        &self.bombs
    }

    /// An identical copy of the chunk.
    pub fn duplicate(&self) -> (c: Chunk)
        ensures
            c@ == self@,
    {
        let mut tiles: Vec<Tile> = Vec::new();
        let mut i: usize = 0;
        while i < self.tiles.len()
            invariant
                i <= self.tiles@.len(),
                tiles@ == self.tiles@.take(i as int),
            decreases self.tiles@.len() - i,
        {
            tiles.push(self.tiles[i]);
            i = i + 1;
            assert(tiles@ =~= self.tiles@.take(i as int));
        }
        let mut bombs: Vec<(TileCoords, Id)> = Vec::new();
        let mut j: usize = 0;
        while j < self.bombs.len()
            invariant
                j <= self.bombs@.len(),
                bombs@ == self.bombs@.take(j as int),
            decreases self.bombs@.len() - j,
        {
            bombs.push(self.bombs[j]);
            j = j + 1;
            assert(bombs@ =~= self.bombs@.take(j as int));
        }
        assert(tiles@ =~= self.tiles@);
        assert(bombs@ =~= self.bombs@);
        Chunk { tiles, bombs }
    }

    /// The tile at the given offset.
    pub fn tile_at_offset(&self, o: OffsetCoords) -> (t: Tile)
        requires
            self.wf(),
            offset_in_chunk(o),
        ensures
            t == self.spec_tile_at_offset(o),
    {
        let idx: usize = (o.x as usize) + (o.y as usize) * (CHUNK_WIDTH as usize);
        self.tiles[idx]
    }

    /// Replaces the tile at the given offset.
    pub fn set_tile_at_offset(&mut self, o: OffsetCoords, tile: Tile)
        requires
            old(self).wf(),
            offset_in_chunk(o),
        ensures
            final(self).tiles() == old(self).tiles().update(offset_index(o), tile),
            final(self).bombs() == old(self).bombs(),
            final(self).wf(),
    {
        let idx: usize = (o.x as usize) + (o.y as usize) * (CHUNK_WIDTH as usize);
        self.tiles.set(idx, tile);
    }

    /// Places a bomb belonging to `placer` at `pos` (replacing any bomb already there).
    pub fn set_bomb_at(&mut self, pos: TileCoords, placer: Id)
        requires
            old(self).wf(),
        ensures
            final(self).wf(),
            final(self).tiles() == old(self).tiles(),
            final(self).bombs() == with_bomb(old(self).bombs(), pos, placer),
    {
        let mut i: usize = 0;
        while i < self.bombs.len()
            invariant
                i <= self.bombs@.len(),
                forall|k: int| 0 <= k < i ==> self.bombs@[k].0 != pos,
                self.wf(),
                self@ == old(self)@,
            decreases self.bombs@.len() - i,
        {
            if self.bombs[i].0 == pos {
                let ghost before = self.bombs@;
                proof {
                    let c = choose|k: int| 0 <= k < before.len() && #[trigger] before[k].0 == pos;
                    assert(c == i as int) by {
                        if c != i as int {
                            assert(before[c].0 != before[i as int].0);
                        }
                    }
                }
                self.bombs.set(i, (pos, placer));
                proof {
                    assert(bomb_positions_unique(self.bombs@)) by {
                        assert forall|a: int, b: int|
                            0 <= a < self.bombs@.len() && 0 <= b < self.bombs@.len() && a != b
                            implies #[trigger] self.bombs@[a].0 != #[trigger] self.bombs@[b].0 by {
                            assert(before[a].0 != before[b].0);
                        }
                    }
                }
                return;
            }
            i = i + 1;
        }
        let ghost before = self.bombs@;
        self.bombs.push((pos, placer));
        proof {
            assert(!has_bomb_at(before, pos));
            assert(bomb_positions_unique(self.bombs@)) by {
                assert forall|a: int, b: int|
                    0 <= a < self.bombs@.len() && 0 <= b < self.bombs@.len() && a != b
                    implies #[trigger] self.bombs@[a].0 != #[trigger] self.bombs@[b].0 by {
                    if a < before.len() && b < before.len() {
                        assert(before[a].0 != before[b].0);
                    }
                }
            }
        }
    }

    /// Removes every bomb placed by `placer` and returns their positions in placement order.
    pub fn take_bombs_placed_by(&mut self, placer: Id) -> (taken: Vec<TileCoords>)
        requires
            old(self).wf(),
        ensures
            final(self).wf(),
            final(self).tiles() == old(self).tiles(),
            final(self).bombs() == bombs_not_placed_by(old(self).bombs(), placer),
            taken@ == positions_placed_by(old(self).bombs(), placer),
    {
        let ghost all = self.bombs@;
        let mut kept: Vec<(TileCoords, Id)> = Vec::new();
        let mut taken: Vec<TileCoords> = Vec::new();
        let mut i: usize = 0;
        while i < self.bombs.len()
            invariant
                self.bombs@ == all,
                self.wf(),
                self@ == old(self)@,
                bomb_positions_unique(all),
                i <= all.len(),
                kept@ == bombs_not_placed_by(all.take(i as int), placer),
                taken@ == positions_placed_by(all.take(i as int), placer),
                forall|k: int| 0 <= k < kept@.len() ==> exists|j: int| 0 <= j < i && #[trigger] all[j] == #[trigger] kept@[k],
                bomb_positions_unique(kept@),
            decreases all.len() - i,
        {
            let b = self.bombs[i];
            proof {
                reveal_with_fuel(Seq::<_>::filter, 1);
                assert(all.take(i + 1).drop_last() =~= all.take(i as int));
            }
            if b.1 == placer {
                taken.push(b.0);
            } else {
                let ghost kept_before = kept@;
                kept.push(b);
                proof {
                    assert forall|a: int, c: int|
                        0 <= a < kept@.len() && 0 <= c < kept@.len() && a != c
                        implies #[trigger] kept@[a].0 != #[trigger] kept@[c].0 by {
                        if a < kept_before.len() && c < kept_before.len() {
                        } else if a < kept_before.len() {
                            let j = choose|j: int| 0 <= j < i && #[trigger] all[j] == kept_before[a];
                            assert(all[j].0 != all[i as int].0);
                        } else if c < kept_before.len() {
                            let j = choose|j: int| 0 <= j < i && #[trigger] all[j] == kept_before[c];
                            assert(all[j].0 != all[i as int].0);
                        }
                    }
                    assert forall|k: int| 0 <= k < kept@.len() implies exists|j: int| 0 <= j < i + 1 && #[trigger] all[j] == #[trigger] kept@[k] by {
                        if k < kept_before.len() {
                            let j = choose|j: int| 0 <= j < i && #[trigger] all[j] == kept_before[k];
                            assert(all[j] == kept@[k]);
                        } else {
                            assert(all[i as int] == kept@[k]);
                        }
                    }
                }
            }
            i = i + 1;
        }
        proof {
            assert(all.take(all.len() as int) =~= all);
        }
        self.bombs = kept;
        taken
    }

    /// The positions of all undetonated bombs in the chunk, in placement order.
    pub fn get_undetonated_bomb_positions(&self) -> (positions: Vec<TileCoords>)
        ensures
            positions@ == self.bombs().map_values(|b: (TileCoords, Id)| b.0),
    {
        let mut positions: Vec<TileCoords> = Vec::new();
        let mut i: usize = 0;
        while i < self.bombs.len()
            invariant
                i <= self.bombs@.len(),
                positions@ == self.bombs@.take(i as int).map_values(|b: (TileCoords, Id)| b.0),
            decreases self.bombs@.len() - i,
        {
            positions.push(self.bombs[i].0);
            i = i + 1;
            assert(positions@ =~= self.bombs@.take(i as int).map_values(|b: (TileCoords, Id)| b.0));
        }
        assert(self.bombs@.take(self.bombs@.len() as int) =~= self.bombs@);
        positions
    }
}

/// After a bomb is placed at `pos`, there is exactly one bomb there and it belongs to
/// `placer`; the positions stay distinct.
pub proof fn law_placed_bomb_present(bombs: Seq<(TileCoords, Id)>, pos: TileCoords, placer: Id)
    requires
        bomb_positions_unique(bombs),
    ensures
        with_bomb(bombs, pos, placer).contains((pos, placer)),
        bomb_positions_unique(with_bomb(bombs, pos, placer)),
{
    let r = with_bomb(bombs, pos, placer);
    if has_bomb_at(bombs, pos) {
        let i = choose|i: int| 0 <= i < bombs.len() && #[trigger] bombs[i].0 == pos;
        assert(r[i] == (pos, placer));
        assert forall|a: int, b: int| 0 <= a < r.len() && 0 <= b < r.len() && a != b implies #[trigger] r[a].0 != #[trigger] r[b].0 by {
            assert(bombs[a].0 != bombs[b].0);
        }
    } else {
        assert(r[bombs.len() as int] == (pos, placer));
        assert forall|a: int, b: int| 0 <= a < r.len() && 0 <= b < r.len() && a != b implies #[trigger] r[a].0 != #[trigger] r[b].0 by {
            if a < bombs.len() && b < bombs.len() {
                assert(bombs[a].0 != bombs[b].0);
            }
        }
    }
}

/// Once the bombs placed by `placer` are taken, none of its bombs remain, and every bomb of
/// another entity remains.
pub proof fn law_taken_bombs_gone(bombs: Seq<(TileCoords, Id)>, placer: Id)
    ensures
        forall|i: int| 0 <= i < bombs_not_placed_by(bombs, placer).len() ==> #[trigger] bombs_not_placed_by(bombs, placer)[i].1 != placer,
        forall|i: int| 0 <= i < bombs.len() && bombs[i].1 != placer ==> #[trigger] bombs_not_placed_by(bombs, placer).contains(bombs[i]),
{
    broadcast use vstd::seq_lib::group_filter_ensures;
    assert forall|i: int| 0 <= i < bombs_not_placed_by(bombs, placer).len() implies #[trigger] bombs_not_placed_by(bombs, placer)[i].1 != placer by {
    }
    assert forall|i: int| 0 <= i < bombs.len() && bombs[i].1 != placer implies #[trigger] bombs_not_placed_by(bombs, placer).contains(bombs[i]) by {
    }
}

} // verus!
