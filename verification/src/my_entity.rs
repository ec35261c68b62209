use std::collections::HashMap;
use vstd::prelude::*;
use crate::client_map::{chunks_after_arrival, ClientMap};
use crate::coords::{chunk_key, ChunkCoords, Direction, TileCoords};
use crate::loaded_chunks::{around_chunk, bombs_taken_around, chunks_with_bomb, chunks_without_bombs_of};
use crate::messages::ToServer;
use crate::world::{BoolItem, Entity, Gem, GemCollection, Id, Inventory, QuantitativeItem};

verus! {

broadcast use vstd::std_specs::hash::group_hash_axioms;

/// The entity controlled by this client, with the movements that it predicted locally and
/// that the server has not confirmed yet.
pub struct MyEntity {
    id: Id,
    contained: Entity,
    next_request_number: u32,
    unverified_movements: HashMap<u32, TileCoords>,
}

impl MyEntity {
    /// The entity's ID.
    pub closed spec fn spec_id(&self) -> Id {
        self.id
    }

    /// The entity's state as this client sees it.
    pub closed spec fn entity(&self) -> Entity {
        self.contained
    }

    /// The number that the next movement request will carry.
    pub closed spec fn spec_next_request_number(&self) -> u32 {
        self.next_request_number
    }

    /// The predicted position after each movement request that the server has not answered.
    pub closed spec fn unverified(&self) -> Map<u32, TileCoords> {
        self.unverified_movements@
    }

    /// Every unanswered request has a number below the next one.
    pub open spec fn wf(&self) -> bool {
        forall|n: u32| #[trigger] self.unverified().contains_key(n) ==> n < self.spec_next_request_number()
    }

    /// The entity `contained` with ID `id`, with no movement requested yet.
    pub fn new(contained: Entity, id: Id) -> (m: MyEntity)
        ensures
            m.wf(),
            m.spec_id() == id,
            m.entity() == contained,
            m.spec_next_request_number() == 0,
            m.unverified() == Map::<u32, TileCoords>::empty(),
    {
        MyEntity { id, contained, next_request_number: 0, unverified_movements: HashMap::new() }
    }

    /// Moves the entity one tile in `direction` locally if the destination is free on the
    /// client's map, handling the tile changes there, and returns the request to send to the
    /// server (the caller then calls [`MyEntity::movement_request_sent`]). `None` when the
    /// destination is not free.
    pub fn move_towards_checked(&mut self, direction: Direction, map: &mut ClientMap) -> (msg: Option<ToServer>)
        requires
            old(map).wf(),
            direction.can_apply(old(self).entity().pos),
        ensures
            final(map).wf(),
            final(self).spec_id() == old(self).spec_id(),
            final(self).spec_next_request_number() == old(self).spec_next_request_number(),
            final(self).unverified() == old(self).unverified(),
            final(map).entities() == old(map).entities(),
            ({
                let np = direction.spec_apply(old(self).entity().pos);
                if old(map).spec_position_free(np) {
                    &&& msg == Some(
                        ToServer::MoveMyEntity { request_number: old(self).spec_next_request_number(), direction },
                    )
                    &&& final(self).entity() == (Entity { pos: np, direction, ..old(self).entity() })
                    &&& final(map).chunks() == chunks_after_arrival(old(map).chunks(), np)
                } else {
                    &&& msg is None
                    &&& final(self).entity() == old(self).entity()
                    &&& final(map).chunks() == old(map).chunks()
                }
            }),
    {
        let new_pos = direction.apply(self.contained.pos);
        if map.is_position_free(new_pos) {
            map.some_entity_moved_to(new_pos);
            self.contained.pos = new_pos;
            self.contained.direction = direction;
            Some(ToServer::MoveMyEntity { request_number: self.next_request_number, direction })
        } else {
            None
        }
    }

    /// Records that the movement request was sent: its predicted position (the current one)
    /// awaits the server's answer, and the next request gets the next number.
    pub fn movement_request_sent(&mut self)
        requires
            old(self).wf(),
            old(self).spec_next_request_number() < u32::MAX,
        ensures
            final(self).wf(),
            final(self).spec_id() == old(self).spec_id(),
            final(self).entity() == old(self).entity(),
            final(self).unverified() == old(self).unverified().insert(
                old(self).spec_next_request_number(),
                old(self).entity().pos,
            ),
            final(self).spec_next_request_number() == old(self).spec_next_request_number() + 1,
    {
        self.unverified_movements.insert(self.next_request_number, self.contained.pos);
        self.next_request_number = self.next_request_number + 1;
        proof {
            assert forall|n: u32| #[trigger] self.unverified().contains_key(n) implies n < self.spec_next_request_number() by {
                if n != old(self).spec_next_request_number() {
                    assert(old(self).unverified().contains_key(n));
                }
            }
        }
    }

    /// Handles the server's answer to movement request `request_number`: when the prediction
    /// for it differs from `position`, the entity is put at `position` (and `true` is returned
    /// so that the drawing can follow); the request no longer awaits an answer either way.
    pub fn received_movement_reconciliation(&mut self, request_number: u32, position: TileCoords) -> (corrected: bool)
        requires
            old(self).wf(),
        ensures
            final(self).wf(),
            final(self).spec_id() == old(self).spec_id(),
            final(self).spec_next_request_number() == old(self).spec_next_request_number(),
            final(self).unverified() == old(self).unverified().remove(request_number),
            corrected == (old(self).unverified().contains_key(request_number) && old(self).unverified()[request_number]
                != position),
            final(self).entity() == if corrected {
                Entity { pos: position, ..old(self).entity() }
            } else {
                old(self).entity()
            },
    {
        let corrected = match self.unverified_movements.get(&request_number) {
            Some(predicted_position) => *predicted_position != position,
            None => false,
        };
        if corrected {
            self.contained.pos = position;
        }
        self.unverified_movements.remove(&request_number);
        proof {
            assert forall|n: u32| #[trigger] self.unverified().contains_key(n) implies n < self.spec_next_request_number() by {
                assert(old(self).unverified().contains_key(n));
            }
        }
        corrected
    }

    /// Adds gems that the server reported as collected.
    pub fn obtained_gems(&mut self, gem_type: Gem, quantity_increase: u32)
        requires
            old(self).entity().gem_collection.spec_quantity(gem_type) + quantity_increase <= u32::MAX,
        ensures
            final(self).spec_id() == old(self).spec_id(),
            final(self).spec_next_request_number() == old(self).spec_next_request_number(),
            final(self).unverified() == old(self).unverified(),
            final(self).entity() == (Entity {
                gem_collection: old(self).entity().gem_collection.with_quantity(
                    gem_type,
                    (old(self).entity().gem_collection.spec_quantity(gem_type) + quantity_increase) as u32,
                ),
                ..old(self).entity()
            }),
    {
        self.contained.gem_collection.increase_quantity(gem_type, quantity_increase);
    }

    /// The request to buy `item`, when the player has enough gems for it and does not have it
    /// yet (the caller sends it, then calls [`MyEntity::complete_bool_item_purchase`]).
    pub fn purchase_bool_item(&self, item: BoolItem) -> (msg: Option<ToServer>)
        ensures
            msg == if self.entity().gem_collection.spec_quantity(item.spec_price().0) >= item.spec_price().1
                && !self.entity().item_inventory.spec_has(item) {
                Some(ToServer::PurchaseSingleItem(item))
            } else {
                None
            },
    {
        let (gem, required_gem_quantity) = item.get_price();
        let will_buy = self.contained.gem_collection.get_quantity(gem) >= required_gem_quantity
            && !self.contained.item_inventory.has(item);
        if will_buy {
            Some(ToServer::PurchaseSingleItem(item))
        } else {
            None
        }
    }

    /// Gives the player the bought `item` and takes its price from the player's gems.
    pub fn complete_bool_item_purchase(&mut self, item: BoolItem)
        requires
            old(self).entity().gem_collection.spec_quantity(item.spec_price().0) >= item.spec_price().1,
        ensures
            final(self).spec_id() == old(self).spec_id(),
            final(self).spec_next_request_number() == old(self).spec_next_request_number(),
            final(self).unverified() == old(self).unverified(),
            final(self).entity() == (Entity {
                item_inventory: old(self).entity().item_inventory.with_item(item),
                gem_collection: old(self).entity().gem_collection.with_quantity(
                    item.spec_price().0,
                    (old(self).entity().gem_collection.spec_quantity(item.spec_price().0) - item.spec_price().1) as u32,
                ),
                ..old(self).entity()
            }),
    {
        let (gem, required_gem_quantity) = item.get_price();
        self.contained.item_inventory.give(item);
        self.contained.gem_collection.decrease_quantity(gem, required_gem_quantity);
    }

    /// The request to buy `quantity` of `item`, when the player has enough gems for all of
    /// them (the caller sends it, then calls
    /// [`MyEntity::complete_quantitative_item_purchase`]).
    pub fn purchase_quantitative_item(&self, item: QuantitativeItem, quantity: u32) -> (msg: Option<ToServer>)
        requires
            item.spec_price().1 * quantity <= u32::MAX,
        ensures
            msg == if self.entity().gem_collection.spec_quantity(item.spec_price().0) >= item.spec_price().1 * quantity {
                Some(ToServer::PurchaseItemQuantity { item, quantity })
            } else {
                None
            },
    {
        let (gem, required_gem_quantity_per_item) = item.get_price();
        let total_required_gem_quantity = required_gem_quantity_per_item * quantity;
        let will_buy = self.contained.gem_collection.get_quantity(gem) >= total_required_gem_quantity;
        if will_buy {
            Some(ToServer::PurchaseItemQuantity { item, quantity })
        } else {
            None
        }
    }

    /// Gives the player `quantity` of the bought `item` and takes their total price from the
    /// player's gems.
    pub fn complete_quantitative_item_purchase(&mut self, item: QuantitativeItem, quantity: u32)
        requires
            item.spec_price().1 * quantity <= u32::MAX,
            old(self).entity().gem_collection.spec_quantity(item.spec_price().0) >= item.spec_price().1 * quantity,
            old(self).entity().item_inventory.spec_how_many(item) + quantity <= u32::MAX,
        ensures
            final(self).spec_id() == old(self).spec_id(),
            final(self).spec_next_request_number() == old(self).spec_next_request_number(),
            final(self).unverified() == old(self).unverified(),
            final(self).entity() == (Entity {
                item_inventory: old(self).entity().item_inventory.with_how_many(
                    item,
                    (old(self).entity().item_inventory.spec_how_many(item) + quantity) as u32,
                ),
                gem_collection: old(self).entity().gem_collection.with_quantity(
                    item.spec_price().0,
                    (old(self).entity().gem_collection.spec_quantity(item.spec_price().0) - item.spec_price().1
                        * quantity) as u32,
                ),
                ..old(self).entity()
            }),
    {
        let (gem, required_gem_quantity_per_item) = item.get_price();
        let total_required_gem_quantity = required_gem_quantity_per_item * quantity;
        self.contained.item_inventory.give_quantity(item, quantity);
        self.contained.gem_collection.decrease_quantity(gem, total_required_gem_quantity);
    }

    /// Places a bomb at the entity's position on the client's map when the player has one,
    /// counting it as placed, and returns the request to send to the server (the caller then
    /// calls [`MyEntity::bomb_placement_sent`]).
    pub fn place_bomb(&mut self, map: &mut ClientMap) -> (msg: Option<ToServer>)
        requires
            old(map).wf(),
            old(self).entity().bombs_placed_count < i32::MAX,
        ensures
            final(map).wf(),
            final(self).spec_id() == old(self).spec_id(),
            final(self).spec_next_request_number() == old(self).spec_next_request_number(),
            final(self).unverified() == old(self).unverified(),
            final(map).entities() == old(map).entities(),
            (if old(self).entity().item_inventory.spec_how_many(QuantitativeItem::Bomb) >= 1 {
                &&& msg == Some(ToServer::PlaceBomb)
                &&& final(self).entity() == (Entity {
                    bombs_placed_count: (old(self).entity().bombs_placed_count + 1) as i32,
                    ..old(self).entity()
                })
                &&& final(map).chunks() == chunks_with_bomb(old(map).chunks(), old(self).entity().pos, old(self).spec_id())
            } else {
                &&& msg is None
                &&& final(self).entity() == old(self).entity()
                &&& final(map).chunks() == old(map).chunks()
            }),
    {
        if self.contained.item_inventory.has_how_many(QuantitativeItem::Bomb) >= 1 {
            self.contained.bombs_placed_count = self.contained.bombs_placed_count + 1;
            map.set_bomb_at(self.contained.pos, self.id);
            Some(ToServer::PlaceBomb)
        } else {
            None
        }
    }

    /// Takes the placed bomb from the player's inventory once the request was sent.
    pub fn bomb_placement_sent(&mut self)
        requires
            old(self).entity().item_inventory.spec_how_many(QuantitativeItem::Bomb) >= 1,
        ensures
            final(self).spec_id() == old(self).spec_id(),
            final(self).spec_next_request_number() == old(self).spec_next_request_number(),
            final(self).unverified() == old(self).unverified(),
            final(self).entity() == (Entity {
                item_inventory: old(self).entity().item_inventory.with_how_many(
                    QuantitativeItem::Bomb,
                    (old(self).entity().item_inventory.spec_how_many(QuantitativeItem::Bomb) - 1) as u32,
                ),
                ..old(self).entity()
            }),
    {
        self.contained.item_inventory.take_quantity(QuantitativeItem::Bomb, 1);
    }

    /// Removes the player's bombs from the loaded chunks in and around the entity's chunk on
    /// the client's map and returns their positions; when there are any, the caller sends the
    /// detonation request and then calls [`MyEntity::bombs_detonated`].
    pub fn detonate_bombs(&mut self, map: &mut ClientMap) -> (positions: Vec<TileCoords>)
        requires
            old(map).wf(),
        ensures
            final(map).wf(),
            *final(self) == *old(self),
            final(map).entities() == old(map).entities(),
            final(map).chunks() == chunks_without_bombs_of(
                old(map).chunks(),
                around_chunk(old(self).entity().pos.spec_chunk()).map_values(|c: ChunkCoords| chunk_key(c)).to_set(),
                old(self).spec_id(),
            ),
            positions@ == bombs_taken_around(old(map).chunks(), around_chunk(old(self).entity().pos.spec_chunk()), old(self).spec_id()),
    {
        proof {
            crate::coords::lemma_tile_chunk_in_range(self.contained.pos);
        }
        map.take_bombs_placed_by_in_and_around_chunk(self.id, self.contained.pos.as_chunk_coords())
    }

    /// Counts `count` detonated bombs as no longer placed.
    pub fn bombs_detonated(&mut self, count: i32)
        requires
            old(self).entity().bombs_placed_count - count >= i32::MIN,
            old(self).entity().bombs_placed_count - count <= i32::MAX,
        ensures
            final(self).spec_id() == old(self).spec_id(),
            final(self).spec_next_request_number() == old(self).spec_next_request_number(),
            final(self).unverified() == old(self).unverified(),
            final(self).entity() == (Entity {
                bombs_placed_count: (old(self).entity().bombs_placed_count - count) as i32,
                ..old(self).entity()
            }),
    {
        self.contained.bombs_placed_count = self.contained.bombs_placed_count - count;
    }

    /// How many of the player's bombs are placed.
    pub fn how_many_bombs_placed(&self) -> (n: i32)
        ensures
            n == self.entity().bombs_placed_count,
    {
        self.contained.bombs_placed_count
    }

    /// The entity's state.
    pub fn get_contained_entity(&self) -> (e: &Entity)
        ensures
            *e == self.entity(),
    {
        &self.contained
    }

    /// The entity's position.
    pub fn get_pos(&self) -> (p: TileCoords)
        ensures
            p == self.entity().pos,
    {
        self.contained.pos
    }

    /// The player's gems.
    pub fn get_gem_collection(&self) -> (g: &GemCollection)
        ensures
            *g == self.entity().gem_collection,
    {
        &self.contained.gem_collection
    }

    /// The player's items.
    pub fn get_inventory(&self) -> (i: &Inventory)
        ensures
            *i == self.entity().item_inventory,
    {
        &self.contained.item_inventory
    }

    /// The entity's ID.
    pub fn id(&self) -> (id: Id)
        ensures
            id == self.spec_id(),
    {
        self.id
    }
}

/// Each movement request gets a number that no unanswered request has.
pub proof fn law_fresh_request_numbers(m: MyEntity)
    requires
        m.wf(),
    ensures
        !m.unverified().contains_key(m.spec_next_request_number()),
{
}

/// A movement request that the server confirms leaves no trace: the confirmation finds the
/// predicted position it expects (so nothing is corrected), and afterwards the unanswered
/// requests are those from before the request.
pub proof fn law_confirmed_request_round_trip(unverified: Map<u32, TileCoords>, request_number: u32, position: TileCoords)
    requires
        !unverified.contains_key(request_number),
    ensures
        unverified.insert(request_number, position).contains_key(request_number),
        unverified.insert(request_number, position)[request_number] == position,
        unverified.insert(request_number, position).remove(request_number) == unverified,
{
    assert(unverified.insert(request_number, position).remove(request_number) =~= unverified);
}

} // verus!
