use rand::distributions::{Distribution, WeightedIndex};
use rand::rngs::StdRng;
use rand::SeedableRng;
use vstd::prelude::*;
use crate::chunk::Chunk;
use crate::chunkplan::{filled_category, generation_category, ChunkPlan, TileCategory};
use crate::coords::ChunkCoords;
use crate::world::Tile;

verus! {

/// Produces the chunks of the map that have never been loaded before.
pub trait Generator {
    /// A generator for the map with the given seed.
    fn new(seed: u32) -> Self
        where Self: Sized;

    /// The chunk at the given chunk coordinates.
    fn generate(&self, chunk_coords: ChunkCoords) -> (c: Chunk)
        ensures
            c.wf(),
    ;

    /// The name of the generator.
    fn name(&self) -> &'static str;
}

/// rand's seedable standard generator.
#[verifier::external_type_specification]
#[verifier::external_body]
pub struct ExStdRng(StdRng);

/// A weighted random choice among options: rand's `WeightedIndex` over `usize` weights, held
/// in a private field (Verus refuses a declaration of the generic type with its bound).
#[verifier::external_body]
pub struct WeightedChoice {
    dist: WeightedIndex<usize>,
}

/// The weights that a weighted choice was built from, one per option.
pub uninterp spec fn choice_weights(choice: WeightedChoice) -> Seq<usize>;

impl WeightedChoice {
    /// The number of options.
    pub open spec fn spec_count(&self) -> nat {
        choice_weights(*self).len()
    }
}

/// The sum of the weights.
pub open spec fn weight_sum(weights: Seq<usize>) -> int
    decreases weights.len(),
{
    if weights.len() == 0 {
        0
    } else {
        weight_sum(weights.drop_last()) + weights.last()
    }
}

/// Builds a weighted choice with `rand::distributions::WeightedIndex::new`. rand's source
/// returns an error only for an empty list or a zero total (both ruled out by `requires`) and
/// overflows on a total beyond `usize` (ruled out too); the distribution holds the given
/// weights, one per option.
#[verifier::external_body]
fn weighted_choice_new(weights: &[usize]) -> (r: WeightedChoice)
    requires
        weights@.len() > 0,
        0 < weight_sum(weights@) <= usize::MAX,
    ensures
        choice_weights(r) == weights@,
{
    WeightedChoice { dist: WeightedIndex::new(weights).unwrap() }
}

/// Draws an option index with `rand::distributions::Distribution::sample` on the weighted
/// index, advancing `rng`. rand's source finds the index by a binary search over the
/// cumulative weights, so it is below the number of options; which index comes out depends on
/// the generator's state.
#[verifier::external_body]
fn weighted_sample(choice: &WeightedChoice, rng: &mut StdRng) -> (r: usize)
    ensures
        r < choice_weights(*choice).len(),
{
    choice.dist.sample(rng)
}

/// A generator seeded by `rand::SeedableRng::seed_from_u64`; nothing is stated of its state.
#[verifier::external_body]
fn std_rng_seed_from_u64(seed: u64) -> StdRng {
    StdRng::seed_from_u64(seed)
}

/// A copy of a generator in the same state (`Clone::clone`); nothing is stated of its state.
#[verifier::external_body]
fn std_rng_clone(rng: &StdRng) -> StdRng {
    rng.clone()
}

/// The tiles that dirt may become.
pub open spec fn dirt_tile_choices() -> Seq<Tile> {
    seq![Tile::Dirt, Tile::Rock, Tile::RockEmerald, Tile::RockRuby, Tile::RockDiamond]
}

/// The relative likelihoods of [`dirt_tile_choices`].
pub open spec fn dirt_tile_weights() -> Seq<usize> {
    seq![600, 15, 10, 5, 1]
}

/// The tiles that grass may become.
pub open spec fn grass_tile_choices() -> Seq<Tile> {
    seq![Tile::Grass, Tile::FlowerBlue, Tile::FlowersYellowOrange, Tile::FlowerPatch, Tile::Stones, Tile::Shrub]
}

/// The relative likelihoods of [`grass_tile_choices`].
pub open spec fn grass_tile_weights() -> Seq<usize> {
    seq![1500, 80, 70, 10, 8, 5]
}

/// Whether `tile` is one that a tile of category `category` may become.
pub open spec fn fits_category(tile: Tile, category: TileCategory) -> bool {
    match category {
        TileCategory::Grass => grass_tile_choices().contains(tile),
        TileCategory::Dirt => dirt_tile_choices().contains(tile),
        TileCategory::Water => tile == Tile::Water,
    }
}

/// The tiles that dirt may become.
fn dirt_choices() -> (v: Vec<Tile>)
    ensures
        v@ == dirt_tile_choices(),
{
    let v = vec![Tile::Dirt, Tile::Rock, Tile::RockEmerald, Tile::RockRuby, Tile::RockDiamond];
    assert(v@ =~= dirt_tile_choices());
    v
}

/// The relative likelihoods of the dirt tiles.
fn dirt_weights() -> (v: Vec<usize>)
    ensures
        v@ == dirt_tile_weights(),
{
    let v: Vec<usize> = vec![600, 15, 10, 5, 1];
    assert(v@ =~= dirt_tile_weights());
    v
}

/// The tiles that grass may become.
fn grass_choices() -> (v: Vec<Tile>)
    ensures
        v@ == grass_tile_choices(),
{
    let v = vec![Tile::Grass, Tile::FlowerBlue, Tile::FlowersYellowOrange, Tile::FlowerPatch, Tile::Stones, Tile::Shrub];
    assert(v@ =~= grass_tile_choices());
    v
}

/// The relative likelihoods of the grass tiles.
fn grass_weights() -> (v: Vec<usize>)
    ensures
        v@ == grass_tile_weights(),
{
    let v: Vec<usize> = vec![1500, 80, 70, 10, 8, 5];
    assert(v@ =~= grass_tile_weights());
    v
}

/// The tiles used where one kind of ground meets grass, by side and corner.
pub struct TransitionTiles {
    pub top: Tile,
    pub bottom: Tile,
    pub left: Tile,
    pub right: Tile,
    pub top_left: Tile,
    pub top_right: Tile,
    pub bottom_left: Tile,
    pub bottom_right: Tile,
    pub corner_top_left: Tile,
    pub corner_top_right: Tile,
    pub corner_bottom_left: Tile,
    pub corner_bottom_right: Tile,
}

/// The transition tiles between dirt and grass.
pub fn dirt_grass_transition_tiles() -> (t: TransitionTiles)
    ensures
        t == (TransitionTiles {
            top: Tile::DirtGrassTop,
            bottom: Tile::DirtGrassBottom,
            left: Tile::DirtGrassLeft,
            right: Tile::DirtGrassRight,
            top_left: Tile::DirtGrassTopLeft,
            top_right: Tile::DirtGrassTopRight,
            bottom_left: Tile::DirtGrassBottomLeft,
            bottom_right: Tile::DirtGrassBottomRight,
            corner_top_left: Tile::DirtGrassCornerTopLeft,
            corner_top_right: Tile::DirtGrassCornerTopRight,
            corner_bottom_left: Tile::DirtGrassCornerBottomLeft,
            corner_bottom_right: Tile::DirtGrassCornerBottomRight,
        }),
{
    TransitionTiles {
        top: Tile::DirtGrassTop,
        bottom: Tile::DirtGrassBottom,
        left: Tile::DirtGrassLeft,
        right: Tile::DirtGrassRight,
        top_left: Tile::DirtGrassTopLeft,
        top_right: Tile::DirtGrassTopRight,
        bottom_left: Tile::DirtGrassBottomLeft,
        bottom_right: Tile::DirtGrassBottomRight,
        corner_top_left: Tile::DirtGrassCornerTopLeft,
        corner_top_right: Tile::DirtGrassCornerTopRight,
        corner_bottom_left: Tile::DirtGrassCornerBottomLeft,
        corner_bottom_right: Tile::DirtGrassCornerBottomRight,
    }
}

/// The transition tiles between water and grass.
pub fn water_grass_transition_tiles() -> (t: TransitionTiles)
    ensures
        t == (TransitionTiles {
            top: Tile::WaterGrassTop,
            bottom: Tile::WaterGrassBottom,
            left: Tile::WaterGrassLeft,
            right: Tile::WaterGrassRight,
            top_left: Tile::WaterGrassTopLeft,
            top_right: Tile::WaterGrassTopRight,
            bottom_left: Tile::WaterGrassBottomLeft,
            bottom_right: Tile::WaterGrassBottomRight,
            corner_top_left: Tile::WaterGrassCornerTopLeft,
            corner_top_right: Tile::WaterGrassCornerTopRight,
            corner_bottom_left: Tile::WaterGrassCornerBottomLeft,
            corner_bottom_right: Tile::WaterGrassCornerBottomRight,
        }),
{
    TransitionTiles {
        top: Tile::WaterGrassTop,
        bottom: Tile::WaterGrassBottom,
        left: Tile::WaterGrassLeft,
        right: Tile::WaterGrassRight,
        top_left: Tile::WaterGrassTopLeft,
        top_right: Tile::WaterGrassTopRight,
        bottom_left: Tile::WaterGrassBottomLeft,
        bottom_right: Tile::WaterGrassBottomRight,
        corner_top_left: Tile::WaterGrassCornerTopLeft,
        corner_top_right: Tile::WaterGrassCornerTopRight,
        corner_bottom_left: Tile::WaterGrassCornerBottomLeft,
        corner_bottom_right: Tile::WaterGrassCornerBottomRight,
    }
}

/// The seed of the random choices made for the chunk at `coords`: the bits of its `x`
/// coordinate exclusive-or those of its `y` coordinate, each widened to 64 bits.
pub fn chunk_rng_seed(coords: ChunkCoords) -> (s: u64)
    ensures
        s == (coords.x as u64) ^ (coords.y as u64),
{
    (coords.x as u64) ^ (coords.y as u64)
}

/// The default way of turning a chunk plan into tiles: dirt and grass become one of their
/// tile choices at random (by weight), water becomes water.
pub struct DefaultGenerator {
    seed: u32,
    dirt_dist: WeightedChoice,
    grass_dist: WeightedChoice,
    dirt_tiles: Vec<Tile>,
    grass_tiles: Vec<Tile>,
}

/// The random generators used while the tiles of one chunk are chosen (one for grass tiles and
/// one for dirt tiles), with the record of the tiles picked so far, each with the category it
/// was picked for, in the order they were picked.
pub struct TilePicker {
    grass_rng: StdRng,
    dirt_rng: StdRng,
    picked: Ghost<Seq<(TileCategory, Tile)>>,
}

impl TilePicker {
    /// The tiles picked so far, each with the category it was picked for, in order.
    pub closed spec fn picks(&self) -> Seq<(TileCategory, Tile)> {
        self.picked@
    }
}

impl DefaultGenerator {
    /// The generator's choices and distributions are consistent.
    pub closed spec fn wf(&self) -> bool {
        &&& self.dirt_tiles@ == dirt_tile_choices()
        &&& self.grass_tiles@ == grass_tile_choices()
        &&& self.dirt_dist.spec_count() == dirt_tile_choices().len()
        &&& self.grass_dist.spec_count() == grass_tile_choices().len()
    }

    /// The seed that the generator was made with.
    pub closed spec fn spec_seed(&self) -> u32 {
        self.seed
    }

    /// A generator for the map with the given seed.
    pub fn new(seed: u32) -> (g: DefaultGenerator)
        ensures
            g.wf(),
            g.spec_seed() == seed,
    {
        let dirt_w = dirt_weights();
        let grass_w = grass_weights();
        proof {
            reveal_with_fuel(weight_sum, 7);
        }
        DefaultGenerator {
            seed,
            dirt_dist: weighted_choice_new(dirt_w.as_slice()),
            grass_dist: weighted_choice_new(grass_w.as_slice()),
            dirt_tiles: dirt_choices(),
            grass_tiles: grass_choices(),
        }
    }

    /// The name of the generator: `default`.
    pub fn name(&self) -> (n: &'static str)
        ensures
            n@ == seq!['d', 'e', 'f', 'a', 'u', 'l', 't'],
    {
        proof {
            reveal_strlit("default");
        }
        "default"
    }

    /// A tile for a position of the given category that is not a transition between kinds of
    /// ground.
    pub fn place_non_transition_tile(&self, picker: &mut TilePicker, category: TileCategory) -> (t: Tile)
        requires
            self.wf(),
        ensures
            fits_category(t, category),
            final(picker).picks() == old(picker).picks().push((category, t)),
    {
        let t = self.pick(picker, category);
        proof {
            picker.picked = Ghost(picker.picked@.push((category, t)));
        }
        t
    }

    /// A tile for the category, drawn from the picker's generator for that category.
    fn pick(&self, picker: &mut TilePicker, category: TileCategory) -> (t: Tile)
        requires
            self.wf(),
        ensures
            fits_category(t, category),
            final(picker).picks() == old(picker).picks(),
    {
        match category {
            TileCategory::Grass => {
                let i = weighted_sample(&self.grass_dist, &mut picker.grass_rng);
                let t = self.grass_tiles[i];
                assert(grass_tile_choices()[i as int] == t);
                t
            },
            TileCategory::Dirt => {
                let i = weighted_sample(&self.dirt_dist, &mut picker.dirt_rng);
                let t = self.dirt_tiles[i];
                assert(dirt_tile_choices()[i as int] == t);
                t
            },
            TileCategory::Water => Tile::Water,
        }
    }

    /// The chunk at `chunk_coords` built from `plan`: jutting and unconnected tiles of the plan
    /// are reverted to grass first, then grass and dirt tiles with three or four water
    /// neighbours become water, then every tile becomes one that fits its category. The random
    /// choices are seeded from the chunk coordinates.
    pub fn generate_from_plan(&self, chunk_coords: ChunkCoords, plan: ChunkPlan) -> (c: Chunk)
        requires
            self.wf(),
            plan.wf(),
        ensures
            c.wf(),
            forall|x: int, y: int|
                0 <= x < crate::coords::CHUNK_WIDTH && 0 <= y < crate::coords::CHUNK_HEIGHT ==> fits_category(
                    #[trigger] c.tiles()[x + y * crate::coords::CHUNK_WIDTH],
                    generation_category(plan, x, y),
                ),
    {
        let ghost original = plan;
        let mut plan = plan;
        plan.remove_juttting_and_unconnected_tiles();
        let ghost cleaned = plan;
        plan.fill_water();
        proof {
            assert((|a: int, b: int| cleaned.category(a, b)) =~= (|a: int, b: int| original.category_after_cleanup(a, b)));
            assert forall|x: int, y: int| #[trigger] plan.category(x, y) == generation_category(original, x, y) by {
                assert(plan.category(x, y) == filled_category(|a: int, b: int| cleaned.category(a, b), x, y));
            }
        }
        let rng_seed = chunk_rng_seed(chunk_coords);
        let rng = std_rng_seed_from_u64(rng_seed);
        let rng_clone = std_rng_clone(&rng);
        let mut picker = TilePicker { grass_rng: rng_clone, dirt_rng: rng, picked: Ghost(Seq::empty()) };
        let dirt_transitions = dirt_grass_transition_tiles();
        let water_transitions = water_grass_transition_tiles();
        plan.to_chunk(&dirt_transitions, &water_transitions, self, &mut picker)
    }
}

} // verus!
