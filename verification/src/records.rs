use vstd::prelude::*;
use crate::coords::{Direction, TileCoords};
use crate::world::{
    ClothingColour, Entity, FacialExpression, GemCollection, HairColour, HairStyle, Inventory, SkinColour,
};

verus! {

/// An enum that is stored as the position of its variant in declaration order.
pub trait VariantCode: Sized {
    /// The number of variants.
    spec fn variant_count() -> int;

    /// The position of the variant in declaration order.
    spec fn spec_code(self) -> int;

    /// The variant at a position (meaningful for positions below the count).
    spec fn spec_variant(code: int) -> Self;

    /// Each variant's position lies below the count, and the variant at that position is the
    /// variant itself.
    proof fn lemma_code_then_variant(v: Self)
        ensures
            0 <= v.spec_code() < Self::variant_count(),
            Self::spec_variant(v.spec_code()) == v,
    ;

    /// The variant at a position below the count has that position.
    proof fn lemma_variant_then_code(code: int)
        requires
            0 <= code < Self::variant_count(),
        ensures
            Self::spec_variant(code).spec_code() == code,
    ;

    /// The number of variants (at least one).
    fn count() -> (n: i16)
        ensures
            n == Self::variant_count(),
            n >= 1,
    ;

    /// The position of the variant.
    fn encode_variant(&self) -> (c: i16)
        ensures
            c == self.spec_code(),
    ;

    /// The variant at a position, if there is one.
    fn decode_variant(code: i16) -> (r: Option<Self>)
        ensures
            r == (if 0 <= code < Self::variant_count() {
                Some(Self::spec_variant(code as int))
            } else {
                None
            }),
    ;
}

impl VariantCode for HairStyle {
    open spec fn variant_count() -> int {
        3
    }

    open spec fn spec_code(self) -> int {
        match self {
            HairStyle::Quiff => 0,
            HairStyle::Mohawk => 1,
            HairStyle::Fringe => 2,
        }
    }

    open spec fn spec_variant(code: int) -> HairStyle {
        if code == 0 {
            HairStyle::Quiff
        } else if code == 1 {
            HairStyle::Mohawk
        } else {
            HairStyle::Fringe
        }
    }

    proof fn lemma_code_then_variant(v: HairStyle) {
    }

    proof fn lemma_variant_then_code(code: int) {
    }

    fn count() -> (n: i16) {
        3
    }

    fn encode_variant(&self) -> (c: i16) {
        match self {
            HairStyle::Quiff => 0,
            HairStyle::Mohawk => 1,
            HairStyle::Fringe => 2,
        }
    }

    fn decode_variant(code: i16) -> (r: Option<HairStyle>) {
        if code == 0 {
            Some(HairStyle::Quiff)
        } else if code == 1 {
            Some(HairStyle::Mohawk)
        } else if code == 2 {
            Some(HairStyle::Fringe)
        } else {
            None
        }
    }
}

impl VariantCode for ClothingColour {
    open spec fn variant_count() -> int {
        5
    }

    open spec fn spec_code(self) -> int {
        match self {
            ClothingColour::Grey => 0,
            ClothingColour::White => 1,
            ClothingColour::Red => 2,
            ClothingColour::Green => 3,
            ClothingColour::Blue => 4,
        }
    }

    open spec fn spec_variant(code: int) -> ClothingColour {
        if code == 0 {
            ClothingColour::Grey
        } else if code == 1 {
            ClothingColour::White
        } else if code == 2 {
            ClothingColour::Red
        } else if code == 3 {
            ClothingColour::Green
        } else {
            ClothingColour::Blue
        }
    }

    proof fn lemma_code_then_variant(v: ClothingColour) {
    }

    proof fn lemma_variant_then_code(code: int) {
    }

    fn count() -> (n: i16) {
        5
    }

    fn encode_variant(&self) -> (c: i16) {
        match self {
            ClothingColour::Grey => 0,
            ClothingColour::White => 1,
            ClothingColour::Red => 2,
            ClothingColour::Green => 3,
            ClothingColour::Blue => 4,
        }
    }

    fn decode_variant(code: i16) -> (r: Option<ClothingColour>) {
        if code == 0 {
            Some(ClothingColour::Grey)
        } else if code == 1 {
            Some(ClothingColour::White)
        } else if code == 2 {
            Some(ClothingColour::Red)
        } else if code == 3 {
            Some(ClothingColour::Green)
        } else if code == 4 {
            Some(ClothingColour::Blue)
        } else {
            None
        }
    }
}

impl VariantCode for SkinColour {
    open spec fn variant_count() -> int {
        4
    }

    open spec fn spec_code(self) -> int {
        match self {
            SkinColour::Black => 0,
            SkinColour::Brown => 1,
            SkinColour::Pale => 2,
            SkinColour::White => 3,
        }
    }

    open spec fn spec_variant(code: int) -> SkinColour {
        if code == 0 {
            SkinColour::Black
        } else if code == 1 {
            SkinColour::Brown
        } else if code == 2 {
            SkinColour::Pale
        } else {
            SkinColour::White
        }
    }

    proof fn lemma_code_then_variant(v: SkinColour) {
    }

    proof fn lemma_variant_then_code(code: int) {
    }

    fn count() -> (n: i16) {
        4
    }

    fn encode_variant(&self) -> (c: i16) {
        match self {
            SkinColour::Black => 0,
            SkinColour::Brown => 1,
            SkinColour::Pale => 2,
            SkinColour::White => 3,
        }
    }

    fn decode_variant(code: i16) -> (r: Option<SkinColour>) {
        if code == 0 {
            Some(SkinColour::Black)
        } else if code == 1 {
            Some(SkinColour::Brown)
        } else if code == 2 {
            Some(SkinColour::Pale)
        } else if code == 3 {
            Some(SkinColour::White)
        } else {
            None
        }
    }
}

impl VariantCode for HairColour {
    open spec fn variant_count() -> int {
        7
    }

    open spec fn spec_code(self) -> int {
        match self {
            HairColour::Black => 0,
            HairColour::Brown => 1,
            HairColour::Blonde => 2,
            HairColour::White => 3,
            HairColour::Red => 4,
            HairColour::Green => 5,
            HairColour::Blue => 6,
        }
    }

    open spec fn spec_variant(code: int) -> HairColour {
        if code == 0 {
            HairColour::Black
        } else if code == 1 {
            HairColour::Brown
        } else if code == 2 {
            HairColour::Blonde
        } else if code == 3 {
            HairColour::White
        } else if code == 4 {
            HairColour::Red
        } else if code == 5 {
            HairColour::Green
        } else {
            HairColour::Blue
        }
    }

    proof fn lemma_code_then_variant(v: HairColour) {
    }

    proof fn lemma_variant_then_code(code: int) {
    }

    fn count() -> (n: i16) {
        7
    }

    fn encode_variant(&self) -> (c: i16) {
        match self {
            HairColour::Black => 0,
            HairColour::Brown => 1,
            HairColour::Blonde => 2,
            HairColour::White => 3,
            HairColour::Red => 4,
            HairColour::Green => 5,
            HairColour::Blue => 6,
        }
    }

    fn decode_variant(code: i16) -> (r: Option<HairColour>) {
        if code == 0 {
            Some(HairColour::Black)
        } else if code == 1 {
            Some(HairColour::Brown)
        } else if code == 2 {
            Some(HairColour::Blonde)
        } else if code == 3 {
            Some(HairColour::White)
        } else if code == 4 {
            Some(HairColour::Red)
        } else if code == 5 {
            Some(HairColour::Green)
        } else if code == 6 {
            Some(HairColour::Blue)
        } else {
            None
        }
    }
}

/// The looks of a player entity that are chosen when the player is created.
#[derive(Clone, Copy, Debug, PartialEq, Eq, Structural)]
pub struct Appearance {
    pub hair_style: HairStyle,
    pub clothing_colour: ClothingColour,
    pub skin_colour: SkinColour,
    pub hair_colour: HairColour,
}

/// The stored form of a player entity: the columns of its row in the player table.
#[derive(Clone, Copy, Debug, PartialEq, Eq, Structural)]
pub struct PlayerRecord {
    pub tile_x: i32,
    pub tile_y: i32,
    pub hair_style: i16,
    pub clothing_colour: i16,
    pub skin_colour: i16,
    pub hair_colour: i16,
    pub has_running_shoes: bool,
    pub emerald_quantity: i32,
    pub ruby_quantity: i32,
    pub diamond_quantity: i32,
}

/// A variant chosen at random, each with the same chance: the variant at a position drawn by
/// `rand` below the number of variants.
pub fn random_variant<T: VariantCode>() -> (v: T)
    ensures
        exists|code: int| 0 <= code < T::variant_count() && v == T::spec_variant(code),
{
    let n = T::count();
    let drawn = crate::randomness::random_in_range(0, n as u128);
    let code = drawn as i16;
    T::decode_variant(code).unwrap()
}

/// An appearance with each look chosen at random ([`random_variant`]).
pub fn random_appearance() -> (a: Appearance)
    ensures
        exists|c: int| 0 <= c < HairStyle::variant_count() && a.hair_style == HairStyle::spec_variant(c),
        exists|c: int| 0 <= c < ClothingColour::variant_count() && a.clothing_colour == ClothingColour::spec_variant(c),
        exists|c: int| 0 <= c < SkinColour::variant_count() && a.skin_colour == SkinColour::spec_variant(c),
        exists|c: int| 0 <= c < HairColour::variant_count() && a.hair_colour == HairColour::spec_variant(c),
{
    Appearance {
        hair_style: random_variant::<HairStyle>(),
        clothing_colour: random_variant::<ClothingColour>(),
        skin_colour: random_variant::<SkinColour>(),
        hair_colour: random_variant::<HairColour>(),
    }
}

/// A new player entity with the given looks: at the origin, facing down, with a neutral
/// expression, and owning nothing.
pub open spec fn spec_new_player_entity(a: Appearance) -> Entity {
    Entity {
        pos: TileCoords { x: 0, y: 0 },
        direction: Direction::Down,
        facial_expression: FacialExpression::Neutral,
        hair_style: a.hair_style,
        clothing_colour: a.clothing_colour,
        skin_colour: a.skin_colour,
        hair_colour: a.hair_colour,
        has_running_shoes: false,
        gem_collection: GemCollection { emerald: 0, ruby: 0, diamond: 0 },
        item_inventory: Inventory { running_shoes: false, bombs: 0 },
        bombs_placed_count: 0,
    }
}

/// The record stored for an entity: its position, the codes of its looks, whether it has
/// running shoes, and its gem quantities as signed integers (the database has no unsigned
/// type; the bits are kept).
pub open spec fn spec_record_of(e: Entity) -> PlayerRecord {
    PlayerRecord {
        tile_x: e.pos.x,
        tile_y: e.pos.y,
        hair_style: e.hair_style.spec_code() as i16,
        clothing_colour: e.clothing_colour.spec_code() as i16,
        skin_colour: e.skin_colour.spec_code() as i16,
        hair_colour: e.hair_colour.spec_code() as i16,
        has_running_shoes: e.has_running_shoes,
        emerald_quantity: e.gem_collection.emerald as i32,
        ruby_quantity: e.gem_collection.ruby as i32,
        diamond_quantity: e.gem_collection.diamond as i32,
    }
}

/// The variant with the given code, or `fallback` where no variant has it.
pub open spec fn decoded_or<T: VariantCode>(code: i16, fallback: T) -> T {
    if 0 <= code < T::variant_count() {
        T::spec_variant(code as int)
    } else {
        fallback
    }
}

/// The entity loaded from a record: facing down with a neutral expression, its looks decoded
/// (a code that names no variant gives the look from `fallback`), its gem quantities read back
/// as unsigned integers, no items in its inventory and no bombs placed.
pub open spec fn spec_entity_from_record(r: PlayerRecord, fallback: Appearance) -> Entity {
    Entity {
        pos: TileCoords { x: r.tile_x, y: r.tile_y },
        direction: Direction::Down,
        facial_expression: FacialExpression::Neutral,
        hair_style: decoded_or(r.hair_style, fallback.hair_style),
        clothing_colour: decoded_or(r.clothing_colour, fallback.clothing_colour),
        skin_colour: decoded_or(r.skin_colour, fallback.skin_colour),
        hair_colour: decoded_or(r.hair_colour, fallback.hair_colour),
        has_running_shoes: r.has_running_shoes,
        gem_collection: GemCollection {
            emerald: r.emerald_quantity as u32,
            ruby: r.ruby_quantity as u32,
            diamond: r.diamond_quantity as u32,
        },
        item_inventory: Inventory { running_shoes: false, bombs: 0 },
        bombs_placed_count: 0,
    }
}

/// A new player entity with the given looks (see [`spec_new_player_entity`]).
pub fn new_player_entity(appearance: Appearance) -> (e: Entity)
    ensures
        e == spec_new_player_entity(appearance),
{
    Entity {
        pos: TileCoords { x: 0, y: 0 },
        direction: Direction::Down,
        facial_expression: FacialExpression::Neutral,
        hair_style: appearance.hair_style,
        clothing_colour: appearance.clothing_colour,
        skin_colour: appearance.skin_colour,
        hair_colour: appearance.hair_colour,
        has_running_shoes: false,
        gem_collection: GemCollection::new(),
        item_inventory: Inventory::new(),
        bombs_placed_count: 0,
    }
}

/// The signed integer with the same bits as `q`.
fn stored_quantity(q: u32) -> (s: i32)
    ensures
        s == q as i32,
{
    #[verifier::truncate]
    (q as i32)
}

/// The unsigned integer with the same bits as `s`.
fn loaded_quantity(s: i32) -> (q: u32)
    ensures
        q == s as u32,
{
    #[verifier::truncate]
    (s as u32)
}

/// The record to store for an entity (see [`spec_record_of`]).
pub fn record_of_entity(e: &Entity) -> (r: PlayerRecord)
    ensures
        r == spec_record_of(*e),
{
    proof {
        HairStyle::lemma_code_then_variant(e.hair_style);
        ClothingColour::lemma_code_then_variant(e.clothing_colour);
        SkinColour::lemma_code_then_variant(e.skin_colour);
        HairColour::lemma_code_then_variant(e.hair_colour);
    }
    PlayerRecord {
        tile_x: e.pos.x,
        tile_y: e.pos.y,
        hair_style: e.hair_style.encode_variant(),
        clothing_colour: e.clothing_colour.encode_variant(),
        skin_colour: e.skin_colour.encode_variant(),
        hair_colour: e.hair_colour.encode_variant(),
        has_running_shoes: e.has_running_shoes,
        emerald_quantity: stored_quantity(e.gem_collection.emerald),
        ruby_quantity: stored_quantity(e.gem_collection.ruby),
        diamond_quantity: stored_quantity(e.gem_collection.diamond),
    }
}

/// The variant with the given code, or `fallback` where no variant has it.
pub fn decode_variant_or<T: VariantCode>(code: i16, fallback: T) -> (v: T)
    ensures
        v == decoded_or(code, fallback),
{
    match T::decode_variant(code) {
        Some(v) => v,
        None => fallback,
    }
}

/// The entity loaded from a record (see [`spec_entity_from_record`]).
pub fn entity_from_record(r: PlayerRecord, fallback: Appearance) -> (e: Entity)
    ensures
        e == spec_entity_from_record(r, fallback),
{
    Entity {
        pos: TileCoords { x: r.tile_x, y: r.tile_y },
        direction: Direction::Down,
        facial_expression: FacialExpression::Neutral,
        hair_style: decode_variant_or(r.hair_style, fallback.hair_style),
        clothing_colour: decode_variant_or(r.clothing_colour, fallback.clothing_colour),
        skin_colour: decode_variant_or(r.skin_colour, fallback.skin_colour),
        hair_colour: decode_variant_or(r.hair_colour, fallback.hair_colour),
        has_running_shoes: r.has_running_shoes,
        gem_collection: GemCollection {
            emerald: loaded_quantity(r.emerald_quantity),
            ruby: loaded_quantity(r.ruby_quantity),
            diamond: loaded_quantity(r.diamond_quantity),
        },
        item_inventory: Inventory::new(),
        bombs_placed_count: 0,
    }
}

/// A stored record holds the entity's own position and running shoes, and a loaded entity
/// takes its position and running shoes from the record, whatever the fallback looks; the
/// stored gem quantities read back as the entity's.
pub proof fn law_record_columns(e: Entity, r: PlayerRecord, fallback: Appearance)
    ensures
        spec_record_of(e).tile_x == e.pos.x,
        spec_record_of(e).tile_y == e.pos.y,
        spec_record_of(e).has_running_shoes == e.has_running_shoes,
        spec_entity_from_record(r, fallback).pos == (TileCoords { x: r.tile_x, y: r.tile_y }),
        spec_entity_from_record(r, fallback).has_running_shoes == r.has_running_shoes,
        r.has_running_shoes ==> spec_entity_from_record(r, fallback).has_running_shoes,
        e.has_running_shoes ==> spec_record_of(e).has_running_shoes,
        r.emerald_quantity >= 0 ==> spec_entity_from_record(r, fallback).gem_collection.emerald == r.emerald_quantity,
{
}

/// Storing an entity and loading it back gives the same position, looks, running shoes and gem
/// quantities, whatever the fallback looks; the entity comes back facing down with a neutral
/// expression, no items and no bombs placed.
pub proof fn law_record_round_trip(e: Entity, fallback: Appearance)
    ensures
        spec_entity_from_record(spec_record_of(e), fallback) == (Entity {
            direction: Direction::Down,
            facial_expression: FacialExpression::Neutral,
            item_inventory: Inventory { running_shoes: false, bombs: 0 },
            bombs_placed_count: 0,
            ..e
        }),
{
    HairStyle::lemma_code_then_variant(e.hair_style);
    ClothingColour::lemma_code_then_variant(e.clothing_colour);
    SkinColour::lemma_code_then_variant(e.skin_colour);
    HairColour::lemma_code_then_variant(e.hair_colour);
    let em = e.gem_collection.emerald;
    let ru = e.gem_collection.ruby;
    let di = e.gem_collection.diamond;
    assert((em as i32) as u32 == em) by (bit_vector);
    assert((ru as i32) as u32 == ru) by (bit_vector);
    assert((di as i32) as u32 == di) by (bit_vector);
}

/// A new player entity stored and loaded back is the same entity.
pub proof fn law_new_player_round_trip(a: Appearance, fallback: Appearance)
    ensures
        spec_entity_from_record(spec_record_of(spec_new_player_entity(a)), fallback) == spec_new_player_entity(a),
{
    law_record_round_trip(spec_new_player_entity(a), fallback);
}

} // verus!
