//! What is shown of the world, told from the world and from what was shown.

use crate::binary32::Binary32;
use crate::client::scene::{CartAction, CartKey, Entity, ItemAction, PlayerAction, Role, Shown};
use crate::world::{PlayerId, WorldView};
use vstd::prelude::*;

verus! {

impl Shown {
    /// The entity found for an id is that of the last entry for it; none is
    /// found exactly where there is no entry for it.
    pub proof fn entities_are_found_by_id(entries: Seq<(Entity, u128)>, id: u128)
        ensures
            ({
                let found = crate::client::scene::latest(entries);
                &&& found.contains_key(id) ==> exists|n: int|
                    {
                        &&& 0 <= n < entries.len()
                        &&& #[trigger] entries[n] == (found[id], id)
                        &&& forall|m: int| n < m < entries.len() ==> (#[trigger] entries[m]).1
                            != id
                    }
                &&& !found.contains_key(id) ==> forall|m: int|
                    0 <= m < entries.len() ==> (#[trigger] entries[m]).1 != id
            }),
        decreases entries.len(),
    {
        if entries.len() > 0 {
            let rest = entries.drop_last();
            let end = entries.len() - 1;
            let found = crate::client::scene::latest(entries);
            if entries.last().1 == id {
                assert(entries[end] == (found[id], id));
            } else {
                Self::entities_are_found_by_id(rest, id);
                if found.contains_key(id) {
                    let n = choose|n: int|
                        {
                            &&& 0 <= n < rest.len()
                            &&& #[trigger] rest[n] == (found[id], id)
                            &&& forall|m: int| n < m < rest.len() ==> (#[trigger] rest[m]).1 != id
                        };
                    assert(entries[n] == (found[id], id));
                    assert forall|m: int| n < m < entries.len() implies (#[trigger] entries[m]).1
                        != id by {
                        if m < end {
                            assert(rest[m].1 != id);
                        }
                    }
                } else {
                    assert forall|m: int| 0 <= m < entries.len() implies (#[trigger] entries[m]).1
                        != id by {
                        if m < end {
                            assert(rest[m].1 != id);
                        }
                    }
                }
            }
        }
    }

    /// The entity found for a cart is that of the last entry for this very
    /// cart; none is found exactly where there is none.
    pub proof fn entities_are_found_by_cart(entries: Seq<(Entity, CartKey)>, key: CartKey)
        ensures
            match crate::client::scene::latest_cart(entries, key) {
                Some(entity) => exists|n: int|
                    {
                        &&& 0 <= n < entries.len()
                        &&& #[trigger] entries[n] == (entity, key)
                        &&& forall|m: int| n < m < entries.len() ==> (#[trigger] entries[m]).1
                            != key
                    },
                None => forall|m: int|
                    0 <= m < entries.len() ==> (#[trigger] entries[m]).1 != key,
            },
        decreases entries.len(),
    {
        if entries.len() > 0 {
            let rest = entries.drop_last();
            let end = entries.len() - 1;
            if entries.last().1 == key {
                assert(entries[end] == (entries.last().0, key));
            } else {
                Self::entities_are_found_by_cart(rest, key);
                match crate::client::scene::latest_cart(rest, key) {
                    Some(entity) => {
                        let n = choose|n: int|
                            {
                                &&& 0 <= n < rest.len()
                                &&& #[trigger] rest[n] == (entity, key)
                                &&& forall|m: int| n < m < rest.len() ==> (#[trigger] rest[m]).1
                                    != key
                            };
                        assert(entries[n] == (entity, key));
                        assert forall|m: int| n < m < entries.len() implies (
                        #[trigger] entries[m]).1 != key by {
                            if m < end {
                                assert(rest[m].1 != key);
                            }
                        }
                    },
                    None => {
                        assert forall|m: int| 0 <= m < entries.len() implies (
                        #[trigger] entries[m]).1 != key by {
                            if m < end {
                                assert(rest[m].1 != key);
                            }
                        }
                    },
                }
            }
        }
    }

    /// The one entity of the own player and that of the second one are those
    /// marked as such; all others go by their entries.
    pub proof fn own_players_are_marked(self, id: PlayerId)
        ensures
            self.player_entity(id, Role::Local) == self.local_player,
            self.player_entity(id, Role::Test) == self.test_player,
            match self.player_entity(id, Role::Other) {
                Some(entity) => exists|n: int|
                    {
                        &&& 0 <= n < self.players@.len()
                        &&& #[trigger] self.players@[n] == (entity, id)
                        &&& forall|m: int|
                            n < m < self.players@.len() ==> (#[trigger] self.players@[m]).1 != id
                    },
                None => forall|m: int|
                    0 <= m < self.players@.len() ==> (#[trigger] self.players@[m]).1 != id,
            },
    {
        Self::entities_are_found_by_id(self.players@, id);
    }

    /// A player appears exactly where it is alive and not shown, as what it is
    /// to the client, where it stands and as it looks.
    pub proof fn the_living_appear(
        self,
        world: WorldView,
        my_id: PlayerId,
        test_id: Option<PlayerId>,
        action: PlayerAction,
    )
        requires
            action is Spawn,
        ensures
            ({
                let id = action->Spawn_id;
                let player = world.players[id];
                let role = action->role;
                self.player_due(world, my_id, test_id, action) <==> {
                    &&& world.players.contains_key(id)
                    &&& player.alive
                    &&& action->Spawn_pose.position == player.position
                    &&& action->Spawn_pose.rotation_y == player.rotation_y
                    &&& role == Role::Local <==> id == my_id
                    &&& role == Role::Test <==> id != my_id && test_id == Some(id)
                    &&& role == Role::Local ==> self.local_player is None
                    &&& role == Role::Test ==> self.test_player is None
                    &&& role == Role::Other ==> forall|m: int|
                        0 <= m < self.players@.len() ==> (#[trigger] self.players@[m]).1 != id
                }
            }),
    {
        let id = action->Spawn_id;
        self.own_players_are_marked(id);
        if let Some(entity) = self.player_entity(id, Role::Other) {
            let n = choose|n: int|
                {
                    &&& 0 <= n < self.players@.len()
                    &&& #[trigger] self.players@[n] == (entity, id)
                    &&& forall|m: int|
                        n < m < self.players@.len() ==> (#[trigger] self.players@[m]).1 != id
                };
            assert(self.players@[n].1 == id);
        }
    }

    /// A shown player is moved exactly where it is somebody else's and alive,
    /// to where it stands and as it looks.
    pub proof fn the_others_move(
        self,
        world: WorldView,
        my_id: PlayerId,
        test_id: Option<PlayerId>,
        action: PlayerAction,
    )
        requires
            action is Move,
        ensures
            ({
                let id = action->Move_id;
                let player = world.players[id];
                self.player_due(world, my_id, test_id, action) <==> {
                    &&& world.players.contains_key(id)
                    &&& player.alive
                    &&& id != my_id
                    &&& test_id != Some(id)
                    &&& action->Move_pose.position == player.position
                    &&& action->Move_pose.rotation_y == player.rotation_y
                    &&& exists|n: int|
                        {
                            &&& 0 <= n < self.players@.len()
                            &&& #[trigger] self.players@[n] == (action->Move_entity, id)
                            &&& forall|m: int|
                                n < m < self.players@.len() ==> (#[trigger] self.players@[m]).1
                                    != id
                        }
                }
            }),
    {
        self.own_players_are_marked(action->Move_id);
        self.the_last_entry_is_the_one(action->Move_id, action->Move_entity);
    }

    /// A player disappears exactly where it is shown and dead, or where it is
    /// somebody else's, shown and gone from the world.
    pub proof fn the_dead_and_the_gone_disappear(
        self,
        world: WorldView,
        my_id: PlayerId,
        test_id: Option<PlayerId>,
        action: PlayerAction,
    )
        requires
            action is Despawn,
        ensures
            ({
                let id = action->Despawn_id;
                let entity = action->Despawn_entity;
                let dead = world.players.contains_key(id) && !world.players[id].alive;
                let gone = !world.players.contains_key(id);
                let listed = exists|n: int|
                    {
                        &&& 0 <= n < self.players@.len()
                        &&& #[trigger] self.players@[n] == (entity, id)
                        &&& forall|m: int|
                            n < m < self.players@.len() ==> (#[trigger] self.players@[m]).1 != id
                    };
                self.player_due(world, my_id, test_id, action) <==> if id == my_id {
                    dead && self.local_player == Some(entity)
                } else if test_id == Some(id) {
                    dead && self.test_player == Some(entity)
                } else {
                    (dead || gone) && listed
                }
            }),
    {
        self.own_players_are_marked(action->Despawn_id);
        self.the_last_entry_is_the_one(action->Despawn_id, action->Despawn_entity);
    }

    proof fn the_last_entry_is_the_one(self, id: PlayerId, entity: Entity)
        ensures
            self.player_entity(id, Role::Other) == Some(entity) <==> exists|n: int|
                {
                    &&& 0 <= n < self.players@.len()
                    &&& #[trigger] self.players@[n] == (entity, id)
                    &&& forall|m: int|
                        n < m < self.players@.len() ==> (#[trigger] self.players@[m]).1 != id
                },
    {
        self.own_players_are_marked(id);
        Self::last_entries_agree(self.players@, id, entity);
    }

    proof fn last_entries_agree(entries: Seq<(Entity, u128)>, id: u128, entity: Entity)
        ensures
            (exists|n: int|
                {
                    &&& 0 <= n < entries.len()
                    &&& #[trigger] entries[n] == (entity, id)
                    &&& forall|m: int| n < m < entries.len() ==> (#[trigger] entries[m]).1 != id
                }) ==> crate::client::scene::latest(entries).contains_key(id)
                && crate::client::scene::latest(entries)[id] == entity,
        decreases entries.len(),
    {
        if exists|n: int|
            {
                &&& 0 <= n < entries.len()
                &&& #[trigger] entries[n] == (entity, id)
                &&& forall|m: int| n < m < entries.len() ==> (#[trigger] entries[m]).1 != id
            } {
            let n = choose|n: int|
                {
                    &&& 0 <= n < entries.len()
                    &&& #[trigger] entries[n] == (entity, id)
                    &&& forall|m: int| n < m < entries.len() ==> (#[trigger] entries[m]).1 != id
                };
            let rest = entries.drop_last();
            if n < entries.len() - 1 {
                assert(entries[entries.len() - 1].1 != id);
                assert(rest[n] == (entity, id));
                assert forall|m: int| n < m < rest.len() implies (#[trigger] rest[m]).1 != id by {
                    assert(entries[m].1 != id);
                }
                Self::last_entries_agree(rest, id, entity);
            }
        }
    }

    /// An item appears exactly where there is one that is not shown; it is
    /// moved where it is shown, and disappears where it is shown and gone. It
    /// is shown where it lies, at height 0.3.
    pub proof fn items_are_shown_where_they_lie(self, world: WorldView, action: ItemAction)
        ensures
            ({
                match action {
                    ItemAction::Spawn { id, position } => self.item_due(world, action) <==> {
                        &&& world.items.contains_key(id)
                        &&& position.x == world.items[id].pos.x
                        &&& position.y == (Binary32 { bits: 0x3e99_999a })
                        &&& position.z == world.items[id].pos.z
                        &&& forall|m: int|
                            0 <= m < self.items@.len() ==> (#[trigger] self.items@[m]).1 != id
                    },
                    ItemAction::Move { id, entity, position } => self.item_due(world, action) <==> {
                        &&& world.items.contains_key(id)
                        &&& position.x == world.items[id].pos.x
                        &&& position.y == (Binary32 { bits: 0x3e99_999a })
                        &&& position.z == world.items[id].pos.z
                        &&& exists|n: int|
                            {
                                &&& 0 <= n < self.items@.len()
                                &&& #[trigger] self.items@[n] == (entity, id)
                                &&& forall|m: int|
                                    n < m < self.items@.len() ==> (#[trigger] self.items@[m]).1
                                        != id
                            }
                    },
                    ItemAction::Despawn { id, entity } => self.item_due(world, action) <==> {
                        &&& !world.items.contains_key(id)
                        &&& exists|n: int|
                            {
                                &&& 0 <= n < self.items@.len()
                                &&& #[trigger] self.items@[n] == (entity, id)
                                &&& forall|m: int|
                                    n < m < self.items@.len() ==> (#[trigger] self.items@[m]).1
                                        != id
                            }
                    },
                }
            }),
    {
        match action {
            ItemAction::Spawn { id, .. } => {
                Self::entities_are_found_by_id(self.items@, id);
                if let Some(entity) = self.item_entity(id) {
                    let n = choose|n: int|
                        {
                            &&& 0 <= n < self.items@.len()
                            &&& #[trigger] self.items@[n] == (entity, id)
                            &&& forall|m: int|
                                n < m < self.items@.len() ==> (#[trigger] self.items@[m]).1 != id
                        };
                    assert(self.items@[n].1 == id);
                }
            },
            ItemAction::Move { id, entity, .. } => {
                Self::entities_are_found_by_id(self.items@, id);
                Self::last_entries_agree(self.items@, id, entity);
            },
            ItemAction::Despawn { id, entity } => {
                Self::entities_are_found_by_id(self.items@, id);
                Self::last_entries_agree(self.items@, id, entity);
            },
        }
    }

    /// A cart appears exactly where a player alive has that many places in its
    /// train and the cart is not shown; it disappears exactly where it is
    /// shown and no player alive has that many.
    pub proof fn carts_are_shown_for_every_place(self, world: WorldView, action: CartAction)
        ensures
            ({
                let owned = |key: CartKey|
                    {
                        &&& world.players.contains_key(key.player)
                        &&& world.players[key.player].alive
                        &&& 0 < key.order
                        &&& key.order < world.players[key.player].train.len()
                    };
                match action {
                    CartAction::Spawn { key } => self.cart_due(world, action) <==> owned(key) && forall|
                        m: int,
                    |
                        0 <= m < self.carts@.len() ==> (#[trigger] self.carts@[m]).1 != key,
                    CartAction::Despawn { key, entity } => self.cart_due(world, action) <==> !owned(key)
                        && exists|n: int|
                        {
                            &&& 0 <= n < self.carts@.len()
                            &&& #[trigger] self.carts@[n] == (entity, key)
                            &&& forall|m: int|
                                n < m < self.carts@.len() ==> (#[trigger] self.carts@[m]).1
                                    != key
                        },
                }
            }),
    {
        let key = action.key();
        Self::entities_are_found_by_cart(self.carts@, key);
        if let Some(entity) = self.cart_entity(key) {
            let n = choose|n: int|
                {
                    &&& 0 <= n < self.carts@.len()
                    &&& #[trigger] self.carts@[n] == (entity, key)
                    &&& forall|m: int|
                        n < m < self.carts@.len() ==> (#[trigger] self.carts@[m]).1 != key
                };
            assert(self.carts@[n].1 == key);
        }
    }
}

impl WorldView {
    /// Once everything is done, exactly `n - 1` carts are shown of a player
    /// alive whose train has `n` places: one for every place behind the head.
    /// None is shown of anybody else.
    pub proof fn as_many_carts_as_places(
        self,
        player: PlayerId,
        entities: spec_fn(usize) -> Option<Entity>,
        spawned: spec_fn(usize) -> Entity,
    )
        requires
            self.players.contains_key(player) ==> self.players[player].train.len() <= usize::MAX,
        ensures
            ({
                let shown = Set::new(
                    |order: usize|
                        self.cart_shown(
                            CartKey { player, order },
                            entities(order),
                            spawned(order),
                        ) is Some,
                );
                let alive = self.players.contains_key(player) && self.players[player].alive;
                let places = self.players[player].train.len();
                &&& shown.finite()
                &&& alive && places > 0 ==> shown.len() == places - 1
                &&& !alive || places == 0 ==> shown.len() == 0
                &&& forall|order: usize| #[trigger]
                    shown.contains(order) <==> alive && 1 <= order < places
            }),
    {
        let shown = Set::new(
            |order: usize|
                self.cart_shown(
                    CartKey { player, order },
                    entities(order),
                    spawned(order),
                ) is Some,
        );
        let alive = self.players.contains_key(player) && self.players[player].alive;
        let places = self.players[player].train.len();
        assert forall|order: usize| #[trigger] shown.contains(order) <==> alive && 1 <= order
            < places by {
            self.the_carts_are_shown(
                CartKey { player, order },
                entities(order),
                spawned(order),
            );
        }
        if alive && places > 0 {
            let range = vstd::set_lib::set_int_range(1, places as int);
            vstd::set_lib::lemma_int_range(1, places as int);
            let named = range.map(|i: int| i as usize);
            vstd::set_lib::lemma_map_size(range, named, |i: int| i as usize);
            assert(named =~= shown) by {
                assert forall|order: usize| #[trigger] shown.contains(order) implies named.contains(
                    order,
                ) by {
                    assert(range.contains(order as int));
                }
            }
        } else {
            assert(shown =~= Set::empty());
        }
    }
}

} // verus!
