use vstd::prelude::*;
use crate::coords::{Direction, TileCoords};

verus! {

/// Unique identifier of a client or an entity.
#[derive(Clone, Copy, Debug, PartialEq, Eq, Structural)]
pub struct Id {
    pub value: u128,
}

impl Id {
    /// Wraps a 128-bit value as an identifier.
    pub fn new(value: u128) -> (id: Id)
        ensures
            id.value == value,
    {
        Id { value }
    }
}

/// The kinds of tile that make up the game map.
#[derive(Clone, Copy, Debug, PartialEq, Eq, Structural)]
pub enum Tile {
    Grass,
    FlowerBlue,
    FlowersYellowOrange,
    FlowerPatch,
    Stones,
    Shrub,
    Dirt,
    DirtGrassTop,
    DirtGrassBottom,
    DirtGrassLeft,
    DirtGrassRight,
    DirtGrassTopLeft,
    DirtGrassTopRight,
    DirtGrassBottomLeft,
    DirtGrassBottomRight,
    DirtGrassCornerTopLeft,
    DirtGrassCornerTopRight,
    DirtGrassCornerBottomLeft,
    DirtGrassCornerBottomRight,
    Rock,
    RockEmerald,
    RockRuby,
    RockDiamond,
    RockSmashed,
    Water,
    WaterGrassTop,
    WaterGrassBottom,
    WaterGrassLeft,
    WaterGrassRight,
    WaterGrassTopLeft,
    WaterGrassTopRight,
    WaterGrassBottomLeft,
    WaterGrassBottomRight,
    WaterGrassCornerTopLeft,
    WaterGrassCornerTopRight,
    WaterGrassCornerBottomLeft,
    WaterGrassCornerBottomRight,
}

/// The kinds of gem that players collect.
#[derive(Clone, Copy, Debug, PartialEq, Eq, Structural)]
pub enum Gem {
    Emerald,
    Ruby,
    Diamond,
}

/// The gems that smashing a tile yields: a quantity of one kind of gem between a minimum and
/// a maximum (both inclusive).
#[derive(Clone, Copy, Debug, PartialEq, Eq, Structural)]
pub struct GemYield {
    pub gem: Gem,
    pub minimum_quantity: u32,
    pub maximum_quantity: u32,
}

impl Tile {
    /// Whether an entity moving onto the tile smashes it (the rock tiles).
    pub open spec fn spec_is_smashable(self) -> bool {
        self is Rock || self is RockEmerald || self is RockRuby || self is RockDiamond
    }

    /// Whether entities are unable to move onto the tile (open water).
    pub open spec fn spec_is_blocking(self) -> bool {
        self is Water
    }

    /// The gems obtained by smashing the tile, if any.
    pub open spec fn spec_gem_yield(self) -> Option<GemYield> {
        match self {
            Tile::RockEmerald => Some(GemYield { gem: Gem::Emerald, minimum_quantity: 1, maximum_quantity: 3 }),
            Tile::RockRuby => Some(GemYield { gem: Gem::Ruby, minimum_quantity: 1, maximum_quantity: 2 }),
            Tile::RockDiamond => Some(GemYield { gem: Gem::Diamond, minimum_quantity: 1, maximum_quantity: 1 }),
            _ => None,
        }
    }

    /// Whether an entity moving onto the tile smashes it.
    pub fn is_smashable(&self) -> (r: bool)
        ensures
            r == self.spec_is_smashable(),
    {
        match self {
            Tile::Rock | Tile::RockEmerald | Tile::RockRuby | Tile::RockDiamond => true,
            _ => false,
        }
    }

    /// Whether entities are unable to move onto the tile.
    pub fn is_blocking(&self) -> (r: bool)
        ensures
            r == self.spec_is_blocking(),
    {
        match self {
            Tile::Water => true,
            _ => false,
        }
    }

    /// The gems obtained by smashing the tile, if any.
    pub fn get_gem_yield(&self) -> (r: Option<GemYield>)
        ensures
            r == self.spec_gem_yield(),
            r matches Some(y) ==> 1 <= y.minimum_quantity <= y.maximum_quantity,
    {
        match self {
            Tile::RockEmerald => Some(GemYield { gem: Gem::Emerald, minimum_quantity: 1, maximum_quantity: 3 }),
            Tile::RockRuby => Some(GemYield { gem: Gem::Ruby, minimum_quantity: 1, maximum_quantity: 2 }),
            Tile::RockDiamond => Some(GemYield { gem: Gem::Diamond, minimum_quantity: 1, maximum_quantity: 1 }),
            _ => None,
        }
    }
}

/// Quantities of each kind of gem that a player owns.
#[derive(Clone, Copy, Debug, PartialEq, Eq, Structural)]
pub struct GemCollection {
    pub emerald: u32,
    pub ruby: u32,
    pub diamond: u32,
}

impl GemCollection {
    /// A collection holding no gems.
    pub fn new() -> (c: GemCollection)
        ensures
            c.spec_quantity(Gem::Emerald) == 0,
            c.spec_quantity(Gem::Ruby) == 0,
            c.spec_quantity(Gem::Diamond) == 0,
    {
        GemCollection { emerald: 0, ruby: 0, diamond: 0 }
    }

    /// How many gems of the given kind the collection holds.
    pub open spec fn spec_quantity(self, gem: Gem) -> u32 {
        match gem {
            Gem::Emerald => self.emerald,
            Gem::Ruby => self.ruby,
            Gem::Diamond => self.diamond,
        }
    }

    /// The collection with the quantity of `gem` replaced by `quantity`.
    pub open spec fn with_quantity(self, gem: Gem, quantity: u32) -> GemCollection {
        match gem {
            Gem::Emerald => GemCollection { emerald: quantity, ..self },
            Gem::Ruby => GemCollection { ruby: quantity, ..self },
            Gem::Diamond => GemCollection { diamond: quantity, ..self },
        }
    }

    /// How many gems of the given kind the collection holds.
    pub fn get_quantity(&self, gem: Gem) -> (q: u32)
        ensures
            q == self.spec_quantity(gem),
    {
        match gem {
            Gem::Emerald => self.emerald,
            Gem::Ruby => self.ruby,
            Gem::Diamond => self.diamond,
        }
    }

    /// Adds `amount` gems of the given kind.
    pub fn increase_quantity(&mut self, gem: Gem, amount: u32)
        requires
            old(self).spec_quantity(gem) + amount <= u32::MAX,
        ensures
            *final(self) == old(self).with_quantity(gem, (old(self).spec_quantity(gem) + amount) as u32),
    {
        match gem {
            Gem::Emerald => self.emerald = self.emerald + amount,
            Gem::Ruby => self.ruby = self.ruby + amount,
            Gem::Diamond => self.diamond = self.diamond + amount,
        }
    }

    /// Removes `amount` gems of the given kind.
    pub fn decrease_quantity(&mut self, gem: Gem, amount: u32)
        requires
            old(self).spec_quantity(gem) >= amount,
        ensures
            *final(self) == old(self).with_quantity(gem, (old(self).spec_quantity(gem) - amount) as u32),
    {
        match gem {
            Gem::Emerald => self.emerald = self.emerald - amount,
            Gem::Ruby => self.ruby = self.ruby - amount,
            Gem::Diamond => self.diamond = self.diamond - amount,
        }
    }
}

/// Adding gems and then removing the same number leaves a collection unchanged.
pub proof fn law_gem_increase_then_decrease(c: GemCollection, gem: Gem, amount: u32)
    requires
        c.spec_quantity(gem) + amount <= u32::MAX,
    ensures
        ({
            let up = c.with_quantity(gem, (c.spec_quantity(gem) + amount) as u32);
            up.with_quantity(gem, (up.spec_quantity(gem) - amount) as u32) == c
        }),
{
}

/// Items that a player either owns or does not own.
#[derive(Clone, Copy, Debug, PartialEq, Eq, Structural)]
pub enum BoolItem {
    RunningShoes,
}

/// Items that a player may own any number of.
#[derive(Clone, Copy, Debug, PartialEq, Eq, Structural)]
pub enum QuantitativeItem {
    Bomb,
}

impl BoolItem {
    /// The kind and number of gems needed to buy the item.
    pub open spec fn spec_price(self) -> (Gem, u32) {
        match self {
            BoolItem::RunningShoes => (Gem::Emerald, 10),
        }
    }

    /// The kind and number of gems needed to buy the item.
    pub fn get_price(&self) -> (p: (Gem, u32))
        ensures
            p == self.spec_price(),
    {
        match self {
            BoolItem::RunningShoes => (Gem::Emerald, 10),
        }
    }
}

impl QuantitativeItem {
    /// The kind and number of gems needed to buy one of the item.
    pub open spec fn spec_price(self) -> (Gem, u32) {
        match self {
            QuantitativeItem::Bomb => (Gem::Ruby, 1),
        }
    }

    /// The kind and number of gems needed to buy one of the item.
    pub fn get_price(&self) -> (p: (Gem, u32))
        ensures
            p == self.spec_price(),
    {
        match self {
            QuantitativeItem::Bomb => (Gem::Ruby, 1),
        }
    }
}

/// The items that a player owns.
#[derive(Clone, Copy, Debug, PartialEq, Eq, Structural)]
pub struct Inventory {
    pub running_shoes: bool,
    pub bombs: u32,
}

impl Inventory {
    /// An inventory holding no items.
    pub fn new() -> (i: Inventory)
        ensures
            !i.spec_has(BoolItem::RunningShoes),
            i.spec_how_many(QuantitativeItem::Bomb) == 0,
    {
        Inventory { running_shoes: false, bombs: 0 }
    }

    /// Whether the inventory holds the given item.
    pub open spec fn spec_has(self, item: BoolItem) -> bool {
        match item {
            BoolItem::RunningShoes => self.running_shoes,
        }
    }

    /// How many of the given item the inventory holds.
    pub open spec fn spec_how_many(self, item: QuantitativeItem) -> u32 {
        match item {
            QuantitativeItem::Bomb => self.bombs,
        }
    }

    /// The inventory with the number of `item` replaced by `n`.
    pub open spec fn with_how_many(self, item: QuantitativeItem, n: u32) -> Inventory {
        match item {
            QuantitativeItem::Bomb => Inventory { bombs: n, ..self },
        }
    }

    /// The inventory with `item` present.
    pub open spec fn with_item(self, item: BoolItem) -> Inventory {
        match item {
            BoolItem::RunningShoes => Inventory { running_shoes: true, ..self },
        }
    }

    /// Whether the inventory holds the given item.
    pub fn has(&self, item: BoolItem) -> (r: bool)
        ensures
            r == self.spec_has(item),
    {
        match item {
            BoolItem::RunningShoes => self.running_shoes,
        }
    }

    /// Adds the given item.
    pub fn give(&mut self, item: BoolItem)
        ensures
            *final(self) == old(self).with_item(item),
    {
        match item {
            BoolItem::RunningShoes => self.running_shoes = true,
        }
    }

    /// How many of the given item the inventory holds.
    pub fn has_how_many(&self, item: QuantitativeItem) -> (r: u32)
        ensures
            r == self.spec_how_many(item),
    {
        match item {
            QuantitativeItem::Bomb => self.bombs,
        }
    }

    /// Adds `quantity` of the given item.
    pub fn give_quantity(&mut self, item: QuantitativeItem, quantity: u32)
        requires
            old(self).spec_how_many(item) + quantity <= u32::MAX,
        ensures
            *final(self) == old(self).with_how_many(item, (old(self).spec_how_many(item) + quantity) as u32),
    {
        match item {
            QuantitativeItem::Bomb => self.bombs = self.bombs + quantity,
        }
    }

    /// Removes `quantity` of the given item.
    pub fn take_quantity(&mut self, item: QuantitativeItem, quantity: u32)
        requires
            old(self).spec_how_many(item) >= quantity,
        ensures
            *final(self) == old(self).with_how_many(item, (old(self).spec_how_many(item) - quantity) as u32),
    {
        match item {
            QuantitativeItem::Bomb => self.bombs = self.bombs - quantity,
        }
    }
}

/// Facial expressions of an entity.
#[derive(Clone, Copy, Debug, PartialEq, Eq, Structural)]
pub enum FacialExpression {
    Neutral,
    Shocked,
    Skeptical,
    Angry,
}

/// Hair styles of an entity.
#[derive(Clone, Copy, Debug, PartialEq, Eq, Structural)]
pub enum HairStyle {
    Quiff,
    Mohawk,
    Fringe,
}

/// Clothing colours of an entity.
#[derive(Clone, Copy, Debug, PartialEq, Eq, Structural)]
pub enum ClothingColour {
    Grey,
    White,
    Red,
    Green,
    Blue,
}

/// Skin colours of an entity.
#[derive(Clone, Copy, Debug, PartialEq, Eq, Structural)]
pub enum SkinColour {
    Black,
    Brown,
    Pale,
    White,
}

/// Hair colours of an entity.
#[derive(Clone, Copy, Debug, PartialEq, Eq, Structural)]
pub enum HairColour {
    Black,
    Brown,
    Blonde,
    White,
    Red,
    Green,
    Blue,
}

/// A player-controlled character on the game map.
#[derive(Clone, Copy, Debug, PartialEq, Eq, Structural)]
pub struct Entity {
    pub pos: TileCoords,
    pub direction: Direction,
    pub facial_expression: FacialExpression,
    pub hair_style: HairStyle,
    pub clothing_colour: ClothingColour,
    pub skin_colour: SkinColour,
    pub hair_colour: HairColour,
    pub has_running_shoes: bool,
    pub gem_collection: GemCollection,
    pub item_inventory: Inventory,
    pub bombs_placed_count: i32,
}

} // verus!
