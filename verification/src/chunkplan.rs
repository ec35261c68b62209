use std::collections::HashMap;
use vstd::prelude::*;
use vstd::std_specs::iter::IteratorSpec;
use crate::chunk::{offset_index, Chunk};
use crate::coords::{OffsetCoords, CHUNK_HEIGHT, CHUNK_WIDTH};
use crate::generation::{fits_category, DefaultGenerator, TilePicker, TransitionTiles};
use crate::world::Tile;

verus! {

broadcast use vstd::std_specs::hash::group_hash_axioms;

/// The broad kind of ground planned for a tile before actual tiles are chosen.
#[derive(Clone, Copy, Debug, PartialEq, Eq, Structural)]
pub enum TileCategory {
    Grass,
    Dirt,
    Water,
}

impl Default for TileCategory {
    /// Tiles are grass unless planned otherwise.
    fn default() -> (c: TileCategory)
        ensures
            c == TileCategory::Grass,
    {
        TileCategory::Grass
    }
}

/// A position on the plan, as a pair of integers.
pub type PlanPos = (int, int);

/// Key under which the plan stores the category of the tile at offset (`x`, `y`).
pub open spec fn plan_key(x: int, y: int) -> i128 {
    (x * 4294967296 + y) as i128
}

/// Whether `v` is within the range of an `i32`.
pub open spec fn in_i32(v: int) -> bool {
    i32::MIN <= v <= i32::MAX
}

/// Computes [`plan_key`].
fn plan_key_of(x: i32, y: i32) -> (k: i128)
    ensures
        k == plan_key(x as int, y as int),
{
    (x as i128) * 4294967296 + (y as i128)
}

/// Offsets within `i32` range have distinct keys.
proof fn lemma_plan_key_injective(x1: int, y1: int, x2: int, y2: int)
    requires
        in_i32(x1),
        in_i32(y1),
        in_i32(x2),
        in_i32(y2),
        plan_key(x1, y1) == plan_key(x2, y2),
    ensures
        x1 == x2,
        y1 == y2,
{
    assert((x1 - x2) * 4294967296 == y2 - y1);
    if x1 != x2 {
        if x1 > x2 {
            assert((x1 - x2) * 4294967296 >= 4294967296) by (nonlinear_arith)
                requires x1 - x2 >= 1;
        } else {
            assert((x1 - x2) * 4294967296 <= -4294967296) by (nonlinear_arith)
                requires x1 - x2 <= -1;
        }
    }
}

/// How many of the four tiles orthogonally adjacent to (`x`, `y`) are water under `cat`.
pub open spec fn water_neighbours(cat: spec_fn(int, int) -> TileCategory, x: int, y: int) -> int {
    (if cat(x + 1, y) == TileCategory::Water { 1int } else { 0int }) + (if cat(x - 1, y) == TileCategory::Water {
        1int
    } else {
        0int
    }) + (if cat(x, y + 1) == TileCategory::Water { 1int } else { 0int }) + (if cat(x, y - 1) == TileCategory::Water {
        1int
    } else {
        0int
    })
}

/// The category of the tile at (`x`, `y`) once water has filled in: a grass or dirt tile of
/// the chunk with three or four water neighbours under `cat` becomes water; every other tile
/// keeps its category under `cat`.
pub open spec fn filled_category(cat: spec_fn(int, int) -> TileCategory, x: int, y: int) -> TileCategory {
    if 0 <= x < CHUNK_WIDTH && 0 <= y < CHUNK_HEIGHT && cat(x, y) != TileCategory::Water && water_neighbours(cat, x, y)
        >= 3 {
        TileCategory::Water
    } else {
        cat(x, y)
    }
}

/// Water fills in only where three or four neighbours are water: a tile with two neighbours
/// that are not water keeps its category, whatever they are.
pub proof fn law_fill_needs_three_water_neighbours(cat: spec_fn(int, int) -> TileCategory, x: int, y: int)
    ensures
        cat(x + 1, y) != TileCategory::Water && cat(x - 1, y) != TileCategory::Water ==> filled_category(cat, x, y)
            == cat(x, y),
        cat(x + 1, y) != TileCategory::Water && cat(x, y + 1) != TileCategory::Water ==> filled_category(cat, x, y)
            == cat(x, y),
        cat(x + 1, y) != TileCategory::Water && cat(x, y - 1) != TileCategory::Water ==> filled_category(cat, x, y)
            == cat(x, y),
        cat(x - 1, y) != TileCategory::Water && cat(x, y + 1) != TileCategory::Water ==> filled_category(cat, x, y)
            == cat(x, y),
        cat(x - 1, y) != TileCategory::Water && cat(x, y - 1) != TileCategory::Water ==> filled_category(cat, x, y)
            == cat(x, y),
        cat(x, y + 1) != TileCategory::Water && cat(x, y - 1) != TileCategory::Water ==> filled_category(cat, x, y)
            == cat(x, y),
{
}

/// A tile of the chunk with water on three sides becomes water, whatever it was; a tile
/// outside the chunk, and a water tile, keep their category; and the filling never turns a
/// tile into anything but water.
pub proof fn law_fill_turns_surrounded_tiles_into_water(cat: spec_fn(int, int) -> TileCategory, x: int, y: int)
    ensures
        0 <= x < CHUNK_WIDTH && 0 <= y < CHUNK_HEIGHT && cat(x + 1, y) == TileCategory::Water && cat(x - 1, y)
            == TileCategory::Water && cat(x, y + 1) == TileCategory::Water ==> filled_category(cat, x, y)
            == TileCategory::Water,
        0 <= x < CHUNK_WIDTH && 0 <= y < CHUNK_HEIGHT && cat(x + 1, y) == TileCategory::Water && cat(x - 1, y)
            == TileCategory::Water && cat(x, y - 1) == TileCategory::Water ==> filled_category(cat, x, y)
            == TileCategory::Water,
        0 <= x < CHUNK_WIDTH && 0 <= y < CHUNK_HEIGHT && cat(x + 1, y) == TileCategory::Water && cat(x, y + 1)
            == TileCategory::Water && cat(x, y - 1) == TileCategory::Water ==> filled_category(cat, x, y)
            == TileCategory::Water,
        0 <= x < CHUNK_WIDTH && 0 <= y < CHUNK_HEIGHT && cat(x - 1, y) == TileCategory::Water && cat(x, y + 1)
            == TileCategory::Water && cat(x, y - 1) == TileCategory::Water ==> filled_category(cat, x, y)
            == TileCategory::Water,
        !(0 <= x < CHUNK_WIDTH && 0 <= y < CHUNK_HEIGHT) ==> filled_category(cat, x, y) == cat(x, y),
        cat(x, y) == TileCategory::Water ==> filled_category(cat, x, y) == TileCategory::Water,
        filled_category(cat, x, y) == cat(x, y) || filled_category(cat, x, y) == TileCategory::Water,
{
}

/// The tile categories that a plan gives once jutting and unconnected tiles have been
/// reverted to grass and water has then filled in.
pub open spec fn generation_category(plan: ChunkPlan, x: int, y: int) -> TileCategory {
    filled_category(|a: int, b: int| plan.category_after_cleanup(a, b), x, y)
}

/// The tile categories planned for the tiles of a chunk (and for a border of tiles around
/// it), by offset from the chunk's bottom-left corner. Tiles without a planned category are
/// grass.
pub struct ChunkPlan {
    tile_categories: HashMap<i128, (i32, i32, TileCategory)>,
}

/// How many of the four tiles orthogonally adjacent to `q` are in `t`.
pub open spec fn neighbour_count(t: Set<PlanPos>, q: PlanPos) -> int {
    (if t.contains((q.0 + 1, q.1)) { 1int } else { 0int }) + (if t.contains((q.0 - 1, q.1)) { 1int } else { 0int }) + (
    if t.contains((q.0, q.1 + 1)) { 1int } else { 0int }) + (if t.contains((q.0, q.1 - 1)) { 1int } else { 0int })
}

/// Whether every tile of `t` has at least two orthogonal neighbours in `t` (no tile of it
/// juts out or stands unconnected).
pub open spec fn well_connected(t: Set<PlanPos>) -> bool {
    forall|q: PlanPos| #[trigger] t.contains(q) ==> neighbour_count(t, q) >= 2
}

/// The largest well-connected part of `s`: the tiles of `s` that belong to some well-connected
/// subset of `s`.
pub open spec fn connected_core(s: Set<PlanPos>) -> Set<PlanPos> {
    Set::new(|q: PlanPos| exists|t: Set<PlanPos>| #[trigger] t.subset_of(s) && well_connected(t) && t.contains(q))
}

impl ChunkPlan {
    /// The planned entries: for each key, the offset it belongs to and the category there.
    pub closed spec fn entries(&self) -> Map<i128, (i32, i32, TileCategory)> {
        self.tile_categories@
    }

    /// Every entry is stored under the key of its own offset.
    pub open spec fn wf(&self) -> bool {
        forall|k: i128| #[trigger] self.entries().contains_key(k) ==> k == plan_key(
            self.entries()[k].0 as int,
            self.entries()[k].1 as int,
        )
    }

    /// The category planned for the tile at offset (`x`, `y`) (grass when none was planned).
    pub open spec fn category(&self, x: int, y: int) -> TileCategory {
        if in_i32(x) && in_i32(y) && self.entries().contains_key(plan_key(x, y)) {
            self.entries()[plan_key(x, y)].2
        } else {
            TileCategory::Grass
        }
    }

    /// The tiles planned to have category `c`.
    pub open spec fn region(&self, c: TileCategory) -> Set<PlanPos> {
        Set::new(|q: PlanPos| self.category(q.0, q.1) == c)
    }

    /// The category of the tile at offset (`x`, `y`) once the tiles that jut out of their
    /// region or are not connected to it have been reverted to grass: a dirt or water tile
    /// stays only when it belongs to the [`connected_core`] of its region.
    pub open spec fn category_after_cleanup(&self, x: int, y: int) -> TileCategory {
        let c = self.category(x, y);
        if c != TileCategory::Grass && !connected_core(self.region(c)).contains((x, y)) {
            TileCategory::Grass
        } else {
            c
        }
    }

    /// A plan with no categories planned (all grass).
    pub fn new() -> (p: ChunkPlan)
        ensures
            p.wf(),
            forall|x: int, y: int| #[trigger] p.category(x, y) == TileCategory::Grass,
    {
        ChunkPlan { tile_categories: HashMap::new() }
    }

    /// Plans the category of the tile at offset (`offset_x`, `offset_y`).
    pub fn set_category_at(&mut self, offset_x: i32, offset_y: i32, category: TileCategory)
        requires
            old(self).wf(),
        ensures
            final(self).wf(),
            final(self).category(offset_x as int, offset_y as int) == category,
            forall|x: int, y: int|
                (x, y) != (offset_x as int, offset_y as int) ==> #[trigger] final(self).category(x, y) == old(self).category(x, y),
    {
        let k = plan_key_of(offset_x, offset_y);
        self.tile_categories.insert(k, (offset_x, offset_y, category));
        proof {
            assert forall|x: int, y: int|
                (x, y) != (offset_x as int, offset_y as int) implies #[trigger] self.category(x, y) == old(self).category(x, y) by {
                if in_i32(x) && in_i32(y) && plan_key(x, y) == k {
                    lemma_plan_key_injective(x, y, offset_x as int, offset_y as int);
                }
            }
        }
    }

    /// The category planned for the tile at offset (`offset_x`, `offset_y`) (grass when none
    /// was planned).
    pub fn get_category_at(&self, offset_x: i32, offset_y: i32) -> (c: TileCategory)
        ensures
            c == self.category(offset_x as int, offset_y as int),
    {
        let k = plan_key_of(offset_x, offset_y);
        match self.tile_categories.get(&k) {
            Some(entry) => entry.2,
            None => TileCategory::default(),
        }
    }

    /// [`ChunkPlan::get_category_at`] for offsets given as `i64`; offsets beyond the range of
    /// `i32` are never planned, so they are grass.
    fn category_at_wide(&self, x: i64, y: i64) -> (c: TileCategory)
        ensures
            c == self.category(x as int, y as int),
    {
        if x < i32::MIN as i64 || x > i32::MAX as i64 || y < i32::MIN as i64 || y > i32::MAX as i64 {
            TileCategory::Grass
        } else {
            self.get_category_at(x as i32, y as i32)
        }
    }

    /// How many of the tiles orthogonally adjacent to (`x`, `y`) have category `c`.
    fn same_category_neighbours(&self, x: i32, y: i32, c: TileCategory) -> (n: u32)
        ensures
            n == neighbour_count(self.region(c), (x as int, y as int)),
    {
        let x: i64 = x as i64;
        let y: i64 = y as i64;
        let mut n: u32 = 0;
        if self.category_at_wide(x + 1, y) == c {
            n = n + 1;
        }
        if self.category_at_wide(x - 1, y) == c {
            n = n + 1;
        }
        if self.category_at_wide(x, y + 1) == c {
            n = n + 1;
        }
        if self.category_at_wide(x, y - 1) == c {
            n = n + 1;
        }
        proof {
            let r = self.region(c);
            assert(r.contains((x + 1, y as int)) == (self.category(x + 1, y as int) == c));
            assert(r.contains((x - 1, y as int)) == (self.category(x - 1, y as int) == c));
            assert(r.contains((x as int, y + 1)) == (self.category(x as int, y + 1) == c));
            assert(r.contains((x as int, y - 1)) == (self.category(x as int, y - 1) == c));
        }
        n
    }
}

/// Having more tiles around can only add neighbours.
proof fn lemma_neighbour_count_monotone(t: Set<PlanPos>, s: Set<PlanPos>, q: PlanPos)
    requires
        t.subset_of(s),
    ensures
        neighbour_count(t, q) <= neighbour_count(s, q),
{
    if t.contains((q.0 + 1, q.1)) {
        assert(s.contains((q.0 + 1, q.1)));
    }
    if t.contains((q.0 - 1, q.1)) {
        assert(s.contains((q.0 - 1, q.1)));
    }
    if t.contains((q.0, q.1 + 1)) {
        assert(s.contains((q.0, q.1 + 1)));
    }
    if t.contains((q.0, q.1 - 1)) {
        assert(s.contains((q.0, q.1 - 1)));
    }
}

/// A tile with fewer than two neighbours in a set that contains the connected core of `s`
/// is not in that core.
proof fn lemma_removal_safe(s: Set<PlanPos>, cur: Set<PlanPos>, q: PlanPos)
    requires
        connected_core(s).subset_of(cur),
        neighbour_count(cur, q) < 2,
    ensures
        !connected_core(s).contains(q),
{
    if connected_core(s).contains(q) {
        let t = choose|t: Set<PlanPos>| #[trigger] t.subset_of(s) && well_connected(t) && t.contains(q);
        assert(t.subset_of(connected_core(s))) by {
            assert forall|r: PlanPos| t.contains(r) implies connected_core(s).contains(r) by {
                assert(t.subset_of(s) && well_connected(t) && t.contains(r));
            }
        }
        lemma_neighbour_count_monotone(t, cur, q);
        assert(neighbour_count(t, q) >= 2);
    }
}

/// A well-connected subset of `s` lies within the connected core of `s`.
proof fn lemma_within_core(s: Set<PlanPos>, t: Set<PlanPos>)
    requires
        t.subset_of(s),
        well_connected(t),
    ensures
        t.subset_of(connected_core(s)),
{
    assert forall|r: PlanPos| t.contains(r) implies connected_core(s).contains(r) by {
        assert(t.subset_of(s) && well_connected(t) && t.contains(r));
    }
}

impl ChunkPlan {
    /// The keys of the entries that are not grass.
    pub open spec fn non_grass_keys(&self) -> Set<i128> {
        Set::new(|k: i128| self.entries().contains_key(k) && self.entries()[k].2 != TileCategory::Grass)
    }

    /// The tile at (`x`, `y`) has a non-grass category only through the entry under its key.
    proof fn lemma_category_entry(&self, x: int, y: int)
        requires
            self.wf(),
            self.category(x, y) != TileCategory::Grass,
        ensures
            self.entries().contains_key(plan_key(x, y)),
            self.entries()[plan_key(x, y)].0 == x,
            self.entries()[plan_key(x, y)].1 == y,
    {
        let k = plan_key(x, y);
        let e = self.entries()[k];
        lemma_plan_key_injective(x, y, e.0 as int, e.1 as int);
    }

    /// The keys of the non-grass entries with fewer than two orthogonal neighbours of their
    /// own category.
    fn removable_keys(&self) -> (r: Vec<i128>)
        requires
            self.wf(),
        ensures
            forall|i: int| 0 <= i < r@.len() ==> {
                let k = #[trigger] r@[i];
                let e = self.entries()[k];
                &&& self.entries().contains_key(k)
                &&& e.2 != TileCategory::Grass
                &&& neighbour_count(self.region(e.2), (e.0 as int, e.1 as int)) < 2
            },
            r@.len() == 0 ==> forall|k: i128| #[trigger] self.entries().contains_key(k) && self.entries()[k].2 != TileCategory::Grass
                ==> neighbour_count(self.region(self.entries()[k].2), (self.entries()[k].0 as int, self.entries()[k].1 as int)) >= 2,
    {
        let mut r: Vec<i128> = Vec::new();
        let ghost full: Seq<i128> = vstd::std_specs::hash::spec_keys_iter(&self.tile_categories).remaining().unref();
        for key in it: self.tile_categories.keys()
            invariant
                it.seq().unref() == full,
                full.to_set() == self.entries().dom(),
                it.index() <= full.len(),
                self.wf(),
                forall|i: int| 0 <= i < r@.len() ==> {
                    let k = #[trigger] r@[i];
                    let e = self.entries()[k];
                    &&& self.entries().contains_key(k)
                    &&& e.2 != TileCategory::Grass
                    &&& neighbour_count(self.region(e.2), (e.0 as int, e.1 as int)) < 2
                },
                r@.len() == 0 ==> forall|j: int| 0 <= j < it.index() ==> {
                    let k = #[trigger] full[j];
                    self.entries()[k].2 != TileCategory::Grass ==> neighbour_count(
                        self.region(self.entries()[k].2),
                        (self.entries()[k].0 as int, self.entries()[k].1 as int),
                    ) >= 2
                },
        {
            let k: i128 = *key;
            proof {
                assert(full[it.index() as int] == k);
                assert(full.contains(k));
                assert(full.to_set().contains(k));
            }
            let entry = *self.tile_categories.get(&k).unwrap();
            if entry.2 != TileCategory::Grass {
                let n = self.same_category_neighbours(entry.0, entry.1, entry.2);
                if n < 2 {
                    r.push(k);
                }
            }
        }
        proof {
            if r@.len() == 0 {
                assert forall|k: i128| #[trigger] self.entries().contains_key(k) && self.entries()[k].2 != TileCategory::Grass
                    implies neighbour_count(self.region(self.entries()[k].2), (self.entries()[k].0 as int, self.entries()[k].1 as int)) >= 2 by {
                    assert(full.to_set().contains(k));
                    let j = choose|j: int| 0 <= j < full.len() && full[j] == k;
                    assert(full[j] == k);
                }
            }
        }
        r
    }
}

/// Whether `now` differs from `start` only in that some entries whose keys are in `keys`
/// became grass.
pub open spec fn cleared_from(start: ChunkPlan, now: ChunkPlan, keys: Seq<i128>) -> bool {
    &&& now.entries().dom() == start.entries().dom()
    &&& forall|k: i128| #[trigger] now.entries().contains_key(k) ==> {
        &&& now.entries()[k].0 == start.entries()[k].0
        &&& now.entries()[k].1 == start.entries()[k].1
        &&& (now.entries()[k].2 == start.entries()[k].2 || (now.entries()[k].2 == TileCategory::Grass && keys.contains(k)))
    }
}

/// Whether `now` relates to `orig` as the cleanup keeps it while it runs: every tile keeps its
/// original category or became grass, and each region still contains its connected core.
pub open spec fn cleanup_progress(orig: ChunkPlan, now: ChunkPlan) -> bool {
    &&& now.wf()
    &&& now.entries().dom() == orig.entries().dom()
    &&& forall|x: int, y: int|
        #[trigger] now.category(x, y) == orig.category(x, y) || now.category(x, y) == TileCategory::Grass
    &&& forall|c: TileCategory|
        c != TileCategory::Grass ==> #[trigger] connected_core(orig.region(c)).subset_of(now.region(c))
}

impl ChunkPlan {
    /// Turns the entries with the given keys to grass.
    fn clear_entries(&mut self, keys: &Vec<i128>)
        requires
            old(self).wf(),
            forall|j: int| 0 <= j < keys@.len() ==> old(self).entries().contains_key(#[trigger] keys@[j]),
        ensures
            final(self).wf(),
            cleared_from(*old(self), *final(self), keys@),
            forall|j: int| 0 <= j < keys@.len() ==> final(self).entries()[#[trigger] keys@[j]].2 == TileCategory::Grass,
    {
        let mut i: usize = 0;
        while i < keys.len()
            invariant
                i <= keys@.len(),
                self.wf(),
                old(self).wf(),
                forall|j: int| 0 <= j < keys@.len() ==> old(self).entries().contains_key(#[trigger] keys@[j]),
                cleared_from(*old(self), *self, keys@.take(i as int)),
                forall|j: int| 0 <= j < i ==> self.entries()[#[trigger] keys@[j]].2 == TileCategory::Grass,
            decreases keys@.len() - i,
        {
            let k = keys[i];
            let ghost before = *self;
            let entry = *self.tile_categories.get(&k).unwrap();
            self.tile_categories.insert(k, (entry.0, entry.1, TileCategory::Grass));
            proof {
                assert(before.entries().contains_key(k));
                assert(self.entries().dom() =~= before.entries().dom());
                assert(keys@.take(i + 1) =~= keys@.take(i as int).push(k));
                assert forall|k2: i128| #[trigger] self.entries().contains_key(k2) implies {
                    &&& self.entries()[k2].0 == old(self).entries()[k2].0
                    &&& self.entries()[k2].1 == old(self).entries()[k2].1
                    &&& (self.entries()[k2].2 == old(self).entries()[k2].2 || (self.entries()[k2].2 == TileCategory::Grass
                        && keys@.take(i + 1).contains(k2)))
                } by {
                    if k2 == k {
                        assert(keys@.take(i + 1)[i as int] == k);
                    } else {
                        assert(before.entries().contains_key(k2));
                        if before.entries()[k2].2 != old(self).entries()[k2].2 {
                            let j = choose|j: int| 0 <= j < keys@.take(i as int).len() && keys@.take(i as int)[j] == k2;
                            assert(keys@.take(i + 1)[j] == k2);
                        }
                    }
                }
            }
            i = i + 1;
        }
        proof {
            assert(keys@.take(keys@.len() as int) =~= keys@);
        }
    }

    /// After a pass that clears entries, every tile keeps its category from before the pass or
    /// becomes grass.
    proof fn lemma_pass_categories(start: ChunkPlan, now: ChunkPlan, removable: Seq<i128>)
        requires
            start.wf(),
            now.wf(),
            cleared_from(start, now, removable),
        ensures
            forall|x: int, y: int| #[trigger] now.category(x, y) == start.category(x, y) || now.category(x, y) == TileCategory::Grass,
    {
        assert forall|x: int, y: int| #[trigger] now.category(x, y) == start.category(x, y) || now.category(x, y) == TileCategory::Grass by {
            if in_i32(x) && in_i32(y) && now.entries().contains_key(plan_key(x, y)) {
                assert(start.entries().contains_key(plan_key(x, y)));
            }
        }
    }

    /// A pass that clears only removable entries keeps each region's connected core.
    proof fn lemma_pass_cores(orig: ChunkPlan, start: ChunkPlan, now: ChunkPlan, removable: Seq<i128>, c: TileCategory)
        requires
            cleanup_progress(orig, start),
            now.wf(),
            cleared_from(start, now, removable),
            c != TileCategory::Grass,
            forall|i: int| 0 <= i < removable.len() ==> {
                let k = #[trigger] removable[i];
                let e = start.entries()[k];
                &&& start.entries().contains_key(k)
                &&& e.2 != TileCategory::Grass
                &&& neighbour_count(start.region(e.2), (e.0 as int, e.1 as int)) < 2
            },
        ensures
            connected_core(orig.region(c)).subset_of(now.region(c)),
    {
        assert(connected_core(orig.region(c)).subset_of(start.region(c)));
        assert forall|q: PlanPos| connected_core(orig.region(c)).contains(q) implies now.region(c).contains(q) by {
            assert(start.region(c).contains(q));
            start.lemma_category_entry(q.0, q.1);
            let k = plan_key(q.0, q.1);
            if now.entries()[k].2 != start.entries()[k].2 {
                let j = choose|j: int| 0 <= j < removable.len() && removable[j] == k;
                assert(removable[j] == k);
                let e = start.entries()[k];
                assert(e.0 == q.0 && e.1 == q.1 && e.2 == c);
                lemma_removal_safe(orig.region(c), start.region(c), q);
            }
        }
    }

    /// A pass that turns at least one non-grass entry to grass, and no grass entry into
    /// anything else, reduces the number of non-grass entries.
    proof fn lemma_pass_measure(start: ChunkPlan, now: ChunkPlan, removable: Seq<i128>)
        requires
            cleared_from(start, now, removable),
            removable.len() > 0,
            start.entries().contains_key(removable[0]),
            start.entries()[removable[0]].2 != TileCategory::Grass,
            now.entries()[removable[0]].2 == TileCategory::Grass,
        ensures
            now.non_grass_keys().len() < start.non_grass_keys().len(),
    {
        let first = removable[0];
        assert(now.non_grass_keys().subset_of(start.non_grass_keys().remove(first))) by {
            assert forall|k: i128| now.non_grass_keys().contains(k) implies start.non_grass_keys().remove(first).contains(k) by {
                assert(now.entries().contains_key(k));
            }
        }
        assert(start.non_grass_keys().contains(first));
        assert(start.non_grass_keys().subset_of(start.entries().dom()));
        vstd::set_lib::lemma_len_subset(start.non_grass_keys(), start.entries().dom());
        vstd::set_lib::lemma_len_subset(now.non_grass_keys(), start.non_grass_keys().remove(first));
    }

    /// When no entry is removable, every non-grass region is well connected.
    proof fn lemma_fixpoint(p: ChunkPlan)
        requires
            p.wf(),
            forall|k: i128| #[trigger] p.entries().contains_key(k) && p.entries()[k].2 != TileCategory::Grass
                ==> neighbour_count(p.region(p.entries()[k].2), (p.entries()[k].0 as int, p.entries()[k].1 as int)) >= 2,
        ensures
            forall|c: TileCategory| c != TileCategory::Grass ==> well_connected(#[trigger] p.region(c)),
    {
        assert forall|c: TileCategory| c != TileCategory::Grass implies well_connected(#[trigger] p.region(c)) by {
            assert forall|q: PlanPos| #[trigger] p.region(c).contains(q) implies neighbour_count(p.region(c), q) >= 2 by {
                p.lemma_category_entry(q.0, q.1);
                let k = plan_key(q.0, q.1);
                assert(p.entries().contains_key(k) && p.entries()[k].2 != TileCategory::Grass);
            }
        }
    }

    /// While the cleanup runs, each non-grass region only shrinks.
    proof fn lemma_region_shrinks(orig: ChunkPlan, fin: ChunkPlan, c: TileCategory)
        requires
            forall|x: int, y: int|
                #[trigger] fin.category(x, y) == orig.category(x, y) || fin.category(x, y) == TileCategory::Grass,
            c != TileCategory::Grass,
        ensures
            fin.region(c).subset_of(orig.region(c)),
    {
        assert forall|q: PlanPos| fin.region(c).contains(q) implies orig.region(c).contains(q) by {
            assert(fin.category(q.0, q.1) == orig.category(q.0, q.1) || fin.category(q.0, q.1) == TileCategory::Grass);
        }
    }

    /// The category of one tile once the cleanup has reached well-connected regions.
    proof fn lemma_cleanup_at(orig: ChunkPlan, fin: ChunkPlan, x: int, y: int)
        requires
            cleanup_progress(orig, fin),
            forall|c: TileCategory| c != TileCategory::Grass ==> well_connected(#[trigger] fin.region(c)),
        ensures
            fin.category(x, y) == orig.category_after_cleanup(x, y),
    {
        let c = orig.category(x, y);
        assert(fin.category(x, y) == c || fin.category(x, y) == TileCategory::Grass);
        if c != TileCategory::Grass {
            if connected_core(orig.region(c)).contains((x, y)) {
                assert(connected_core(orig.region(c)).subset_of(fin.region(c)));
                assert(fin.region(c).contains((x, y)));
            } else if fin.category(x, y) == c {
                assert(fin.region(c).contains((x, y)));
                ChunkPlan::lemma_region_shrinks(orig, fin, c);
                assert(well_connected(fin.region(c)));
                lemma_within_core(orig.region(c), fin.region(c));
                assert(connected_core(orig.region(c)).contains((x, y)));
            }
        }
    }

    /// Once the cleanup has reached a plan whose regions are well connected, that plan has
    /// exactly the categories of [`ChunkPlan::category_after_cleanup`].
    proof fn lemma_cleanup_result(orig: ChunkPlan, fin: ChunkPlan)
        requires
            cleanup_progress(orig, fin),
            forall|c: TileCategory| c != TileCategory::Grass ==> well_connected(#[trigger] fin.region(c)),
        ensures
            forall|x: int, y: int| #[trigger] fin.category(x, y) == orig.category_after_cleanup(x, y),
    {
        assert forall|x: int, y: int| #[trigger] fin.category(x, y) == orig.category_after_cleanup(x, y) by {
            ChunkPlan::lemma_cleanup_at(orig, fin, x, y);
        }
    }

    /// Turns into water every grass or dirt tile of the chunk that has three or four water
    /// neighbours, all decided on the plan as it was before ([`filled_category`]).
    pub fn fill_water(&mut self)
        requires
            old(self).wf(),
        ensures
            final(self).wf(),
            forall|x: int, y: int|
                #[trigger] final(self).category(x, y) == filled_category(
                    |a: int, b: int| old(self).category(a, b),
                    x,
                    y,
                ),
    {
        let ghost before = *self;
        let ghost cat = |a: int, b: int| before.category(a, b);
        // Decide every tile of the chunk first, column by column.
        let mut fills: Vec<bool> = Vec::new();
        let mut x: i32 = 0;
        while x < CHUNK_WIDTH
            invariant
                0 <= x <= CHUNK_WIDTH,
                *self == before,
                cat == (|a: int, b: int| before.category(a, b)),
                fills@.len() == x * CHUNK_HEIGHT,
                forall|a: int, b: int|
                    0 <= a < x && 0 <= b < CHUNK_HEIGHT ==> #[trigger] fills@[a * CHUNK_HEIGHT + b] == (cat(a, b)
                        != TileCategory::Water && water_neighbours(cat, a, b) >= 3),
            decreases CHUNK_WIDTH - x,
        {
            let mut y: i32 = 0;
            while y < CHUNK_HEIGHT
                invariant
                    0 <= x < CHUNK_WIDTH,
                    0 <= y <= CHUNK_HEIGHT,
                    *self == before,
                    cat == (|a: int, b: int| before.category(a, b)),
                    fills@.len() == x * CHUNK_HEIGHT + y,
                    forall|a: int, b: int|
                        ((0 <= a < x && 0 <= b < CHUNK_HEIGHT) || (a == x && 0 <= b < y)) ==> #[trigger] fills@[a
                            * CHUNK_HEIGHT + b] == (cat(a, b) != TileCategory::Water && water_neighbours(cat, a, b)
                            >= 3),
                decreases CHUNK_HEIGHT - y,
            {
                let wide_x: i64 = x as i64;
                let wide_y: i64 = y as i64;
                let mut n: u32 = 0;
                if self.category_at_wide(wide_x + 1, wide_y) == TileCategory::Water {
                    n = n + 1;
                }
                if self.category_at_wide(wide_x - 1, wide_y) == TileCategory::Water {
                    n = n + 1;
                }
                if self.category_at_wide(wide_x, wide_y + 1) == TileCategory::Water {
                    n = n + 1;
                }
                if self.category_at_wide(wide_x, wide_y - 1) == TileCategory::Water {
                    n = n + 1;
                }
                let fill = self.get_category_at(x, y) != TileCategory::Water && n >= 3;
                proof {
                    assert(n == water_neighbours(cat, x as int, y as int));
                }
                let ghost old_fills = fills@;
                fills.push(fill);
                proof {
                    assert forall|a: int, b: int|
                        ((0 <= a < x && 0 <= b < CHUNK_HEIGHT) || (a == x && 0 <= b < y + 1)) implies #[trigger] fills@[a
                            * CHUNK_HEIGHT + b] == (cat(a, b) != TileCategory::Water && water_neighbours(cat, a, b)
                            >= 3) by {
                        if a == x && b == y {
                            assert(a * CHUNK_HEIGHT + b == old_fills.len());
                        } else {
                            if a < x {
                                assert(a * 16 + b < x * 16) by (nonlinear_arith)
                                    requires a < x, b < 16, 0 <= b;
                            }
                            assert(a * CHUNK_HEIGHT + b < old_fills.len());
                            assert(fills@[a * CHUNK_HEIGHT + b] == old_fills[a * CHUNK_HEIGHT + b]);
                        }
                    }
                }
                y = y + 1;
            }
            proof {
                assert((x + 1) * 16 == x * 16 + 16) by (nonlinear_arith);
            }
            x = x + 1;
        }
        // Then turn the decided tiles into water.
        let mut x: i32 = 0;
        while x < CHUNK_WIDTH
            invariant
                0 <= x <= CHUNK_WIDTH,
                self.wf(),
                cat == (|a: int, b: int| before.category(a, b)),
                fills@.len() == CHUNK_WIDTH * CHUNK_HEIGHT,
                forall|a: int, b: int|
                    0 <= a < CHUNK_WIDTH && 0 <= b < CHUNK_HEIGHT ==> #[trigger] fills@[a * CHUNK_HEIGHT + b] == (cat(
                        a,
                        b,
                    ) != TileCategory::Water && water_neighbours(cat, a, b) >= 3),
                forall|a: int, b: int|
                    #[trigger] self.category(a, b) == (if 0 <= a < x && 0 <= b < CHUNK_HEIGHT {
                        filled_category(cat, a, b)
                    } else {
                        cat(a, b)
                    }),
            decreases CHUNK_WIDTH - x,
        {
            let mut y: i32 = 0;
            while y < CHUNK_HEIGHT
                invariant
                    0 <= x < CHUNK_WIDTH,
                    0 <= y <= CHUNK_HEIGHT,
                    self.wf(),
                    cat == (|a: int, b: int| before.category(a, b)),
                    fills@.len() == CHUNK_WIDTH * CHUNK_HEIGHT,
                    forall|a: int, b: int|
                        0 <= a < CHUNK_WIDTH && 0 <= b < CHUNK_HEIGHT ==> #[trigger] fills@[a * CHUNK_HEIGHT + b]
                            == (cat(a, b) != TileCategory::Water && water_neighbours(cat, a, b) >= 3),
                    forall|a: int, b: int|
                        #[trigger] self.category(a, b) == (if (0 <= a < x && 0 <= b < CHUNK_HEIGHT) || (a == x && 0
                            <= b < y) {
                            filled_category(cat, a, b)
                        } else {
                            cat(a, b)
                        }),
                decreases CHUNK_HEIGHT - y,
            {
                proof {
                    assert(0 <= x * 16 + y < 256) by (nonlinear_arith)
                        requires 0 <= x < 16, 0 <= y < 16;
                }
                let idx: usize = (x as usize) * (CHUNK_HEIGHT as usize) + (y as usize);
                let ghost mid = *self;
                if fills[idx] {
                    self.set_category_at(x, y, TileCategory::Water);
                }
                proof {
                    assert(fills@[x * CHUNK_HEIGHT + y] == fills@[idx as int]);
                    assert forall|a: int, b: int|
                        #[trigger] self.category(a, b) == (if (0 <= a < x && 0 <= b < CHUNK_HEIGHT) || (a == x && 0
                            <= b < y + 1) {
                            filled_category(cat, a, b)
                        } else {
                            cat(a, b)
                        }) by {
                        if a == x && b == y {
                        } else {
                            assert(self.category(a, b) == mid.category(a, b));
                        }
                    }
                }
                y = y + 1;
            }
            x = x + 1;
        }
    }

    /// Reverts to grass every dirt or water tile that juts out of its region or is not
    /// connected to it: repeatedly, each such tile with fewer than two orthogonal neighbours of
    /// its own category becomes grass, until none is left. What remains of each region is its
    /// largest part in which every tile has at least two such neighbours
    /// ([`ChunkPlan::category_after_cleanup`]).
    pub fn remove_juttting_and_unconnected_tiles(&mut self)
        requires
            old(self).wf(),
        ensures
            final(self).wf(),
            forall|x: int, y: int| #[trigger] final(self).category(x, y) == old(self).category_after_cleanup(x, y),
    {
        let ghost orig = *self;
        proof {
            assert(cleanup_progress(orig, *self));
        }
        loop
            invariant
                orig == *old(self),
                cleanup_progress(orig, *self),
            ensures
                cleanup_progress(orig, *self),
                forall|c: TileCategory| c != TileCategory::Grass ==> well_connected(#[trigger] self.region(c)),
            decreases self.non_grass_keys().len(),
        {
            let removable = self.removable_keys();
            if removable.len() == 0 {
                proof {
                    ChunkPlan::lemma_fixpoint(*self);
                }
                break;
            }
            let ghost start = *self;
            self.clear_entries(&removable);
            proof {
                ChunkPlan::lemma_pass_categories(start, *self, removable@);
                assert forall|x: int, y: int|
                    #[trigger] self.category(x, y) == orig.category(x, y) || self.category(x, y) == TileCategory::Grass by {
                    assert(self.category(x, y) == start.category(x, y) || self.category(x, y) == TileCategory::Grass);
                    assert(start.category(x, y) == orig.category(x, y) || start.category(x, y) == TileCategory::Grass);
                }
                assert forall|c: TileCategory| c != TileCategory::Grass implies #[trigger] connected_core(orig.region(c)).subset_of(self.region(c)) by {
                    ChunkPlan::lemma_pass_cores(orig, start, *self, removable@, c);
                }
                assert(removable@[0] == removable@[0]);
                ChunkPlan::lemma_pass_measure(start, *self, removable@);
            }
        }
        proof {
            ChunkPlan::lemma_cleanup_result(orig, *self);
        }
    }
}

impl ChunkPlan {
    /// The transition tile for the tile at (`offset_x`, `offset_y`), if it lies where two
    /// kinds of ground meet; transition tiles are not placed yet, so there is never one.
    fn maybe_transition_tile(
        &self,
        offset_x: i32,
        offset_y: i32,
        dirt_transitions: &TransitionTiles,
        water_transitions: &TransitionTiles,
    ) -> (t: Option<Tile>)
        ensures
            t is None,
    {
        None
    }

    /// A chunk whose every tile is chosen for its planned category: a transition tile where
    /// one applies (there are none yet), otherwise a tile that `generator` picks for the
    /// category with `picker`. Tiles are picked column by column (increasing `x`), each column
    /// from bottom to top, and each offset gets the tile picked for it: the picker's record
    /// grows by the category and tile of each offset in that order.
    pub fn to_chunk(
        &self,
        dirt_transitions: &TransitionTiles,
        water_transitions: &TransitionTiles,
        generator: &DefaultGenerator,
        picker: &mut TilePicker,
    ) -> (c: Chunk)
        requires
            generator.wf(),
        ensures
            c.wf(),
            forall|x: int, y: int|
                0 <= x < CHUNK_WIDTH && 0 <= y < CHUNK_HEIGHT ==> fits_category(
                    #[trigger] c.tiles()[x + y * CHUNK_WIDTH],
                    self.category(x, y),
                ),
            final(picker).picks() == old(picker).picks() + Seq::new(
                (CHUNK_WIDTH * CHUNK_HEIGHT) as nat,
                |i: int| (self.category(i / 16, i % 16), c.tiles()[i / 16 + (i % 16) * 16]),
            ),
    {
        let ghost picks0 = picker.picks();
        let mut chunk = Chunk::new();
        let mut offset_x: i32 = 0;
        while offset_x < CHUNK_WIDTH
            invariant
                0 <= offset_x <= CHUNK_WIDTH,
                chunk.wf(),
                generator.wf(),
                forall|x: int, y: int|
                    0 <= x < offset_x && 0 <= y < CHUNK_HEIGHT ==> fits_category(
                        #[trigger] chunk.tiles()[x + y * CHUNK_WIDTH],
                        self.category(x, y),
                    ),
                picker.picks() == picks0 + Seq::new(
                    (offset_x * CHUNK_HEIGHT) as nat,
                    |i: int| (self.category(i / 16, i % 16), chunk.tiles()[i / 16 + (i % 16) * 16]),
                ),
            decreases CHUNK_WIDTH - offset_x,
        {
            let mut offset_y: i32 = 0;
            while offset_y < CHUNK_HEIGHT
                invariant
                    0 <= offset_x < CHUNK_WIDTH,
                    0 <= offset_y <= CHUNK_HEIGHT,
                    chunk.wf(),
                    generator.wf(),
                    forall|x: int, y: int|
                        ((0 <= x < offset_x && 0 <= y < CHUNK_HEIGHT) || (x == offset_x && 0 <= y < offset_y))
                            ==> fits_category(#[trigger] chunk.tiles()[x + y * CHUNK_WIDTH], self.category(x, y)),
                    picker.picks() == picks0 + Seq::new(
                        (offset_x * CHUNK_HEIGHT + offset_y) as nat,
                        |i: int| (self.category(i / 16, i % 16), chunk.tiles()[i / 16 + (i % 16) * 16]),
                    ),
                decreases CHUNK_HEIGHT - offset_y,
            {
                let category = self.get_category_at(offset_x, offset_y);
                let tile = match self.maybe_transition_tile(offset_x, offset_y, dirt_transitions, water_transitions) {
                    Some(t) => t,
                    None => generator.place_non_transition_tile(picker, category),
                };
                let coords = OffsetCoords { x: offset_x as u8, y: offset_y as u8 };
                let ghost before = chunk.tiles();
                chunk.set_tile_at_offset(coords, tile);
                proof {
                    let idx = offset_x + offset_y * CHUNK_WIDTH;
                    assert(offset_index(coords) == idx);
                    let n = offset_x * CHUNK_HEIGHT + offset_y;
                    let f_old = |i: int| (self.category(i / 16, i % 16), before[i / 16 + (i % 16) * 16]);
                    let f_new = |i: int| (self.category(i / 16, i % 16), chunk.tiles()[i / 16 + (i % 16) * 16]);
                    assert forall|i: int| 0 <= i < n implies #[trigger] f_old(i) == f_new(i) by {
                        let a = i / 16;
                        let b = i % 16;
                        assert(a * 16 + b == i && 0 <= b < 16) by (nonlinear_arith)
                            requires a == i / 16, b == i % 16, 0 <= i;
                        assert(a < offset_x || (a == offset_x && b < offset_y)) by (nonlinear_arith)
                            requires a * 16 + b == i, i < offset_x * 16 + offset_y, 0 <= b < 16, 0 <= offset_y < 16;
                        assert(a + b * 16 != idx) by (nonlinear_arith)
                            requires a < offset_x || (a == offset_x && b < offset_y), 0 <= b < 16, 0 <= offset_y < 16,
                                idx == offset_x + offset_y * 16, 0 <= a, 0 <= offset_x < 16;
                    }
                    assert(n / 16 == offset_x && n % 16 == offset_y) by (nonlinear_arith)
                        requires n == offset_x * 16 + offset_y, 0 <= offset_y < 16;
                    assert(picker.picks() =~= picks0 + Seq::new((n + 1) as nat, f_new));
                    assert forall|x: int, y: int|
                        ((0 <= x < offset_x && 0 <= y < CHUNK_HEIGHT) || (x == offset_x && 0 <= y < offset_y + 1))
                            implies fits_category(#[trigger] chunk.tiles()[x + y * CHUNK_WIDTH], self.category(x, y)) by {
                        if x == offset_x && y == offset_y {
                        } else {
                            assert(x + y * CHUNK_WIDTH != idx) by {
                                if y < offset_y {
                                    assert(y * 16 <= (offset_y - 1) * 16);
                                } else if y > offset_y {
                                    assert(y * 16 >= (offset_y + 1) * 16);
                                }
                            }
                            assert(chunk.tiles()[x + y * CHUNK_WIDTH] == before[x + y * CHUNK_WIDTH]);
                        }
                    }
                }
                offset_y = offset_y + 1;
            }
            proof {
                assert((offset_x + 1) * 16 == offset_x * 16 + 16) by (nonlinear_arith);
            }
            offset_x = offset_x + 1;
        }
        chunk
    }
}

} // verus!
