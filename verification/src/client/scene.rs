//! Keeping what is shown in step with the client's simulation.

use crate::binary32::Binary32;
use crate::client::predict::Pose;
use crate::client::session::Session;
use crate::sim::ITEM_HEIGHT;
use crate::tables::ids;
use crate::world::{ItemId, PlayerId, Vec3, WorldState, WorldView};
use std::collections::HashMap;
use vstd::prelude::*;

verus! {

broadcast use vstd::std_specs::hash::group_hash_axioms;

/// The bits by which the renderer knows something it shows.
pub type Entity = u64;

/// What a shown player is to the client.
#[derive(Debug, Clone, Copy, PartialEq, Eq, Structural)]
pub enum Role {
    /// The client's own player.
    Local,
    /// The second player of the same client.
    Test,
    /// Somebody else.
    Other,
}

/// What is shown at present.
pub struct Shown {
    pub local_player: Option<Entity>,
    pub test_player: Option<Entity>,
    pub players: Vec<(Entity, PlayerId)>,
    pub items: Vec<(Entity, ItemId)>,
    pub carts: Vec<(Entity, CartKey)>,
}

/// A cart: whose it is, and its place in the train, counted from one.
#[derive(Debug, Clone, Copy, PartialEq, Eq, Structural)]
pub struct CartKey {
    pub player: PlayerId,
    pub order: usize,
}

/// What must be done about a player.
#[derive(Debug, Clone, Copy, PartialEq, Eq, Structural)]
pub enum PlayerAction {
    Spawn { id: PlayerId, role: Role, pose: Pose },
    Move { id: PlayerId, entity: Entity, pose: Pose },
    Despawn { id: PlayerId, entity: Entity },
}

/// What must be done about an item.
#[derive(Debug, Clone, Copy, PartialEq, Eq, Structural)]
pub enum ItemAction {
    Spawn { id: ItemId, position: Vec3 },
    Move { id: ItemId, entity: Entity, position: Vec3 },
    Despawn { id: ItemId, entity: Entity },
}

/// What must be done about a cart.
#[derive(Debug, Clone, Copy, PartialEq, Eq, Structural)]
pub enum CartAction {
    Spawn { key: CartKey },
    Despawn { key: CartKey, entity: Entity },
}

/// All that must be done to what is shown.
pub struct SceneActions {
    pub players: Vec<PlayerAction>,
    pub items: Vec<ItemAction>,
    pub carts: Vec<CartAction>,
}

impl PlayerAction {
    pub open spec fn id(self) -> PlayerId {
        match self {
            PlayerAction::Spawn { id, .. } => id,
            PlayerAction::Move { id, .. } => id,
            PlayerAction::Despawn { id, .. } => id,
        }
    }
}

impl ItemAction {
    pub open spec fn id(self) -> ItemId {
        match self {
            ItemAction::Spawn { id, .. } => id,
            ItemAction::Move { id, .. } => id,
            ItemAction::Despawn { id, .. } => id,
        }
    }
}

impl CartAction {
    pub open spec fn key(self) -> CartKey {
        match self {
            CartAction::Spawn { key } => key,
            CartAction::Despawn { key, .. } => key,
        }
    }
}

impl Role {
    /// What a player is to a client with the given ids.
    pub open spec fn of(id: PlayerId, my_id: PlayerId, test_id: Option<PlayerId>) -> Role {
        if id == my_id {
            Role::Local
        } else if test_id == Some(id) {
            Role::Test
        } else {
            Role::Other
        }
    }

    pub fn find(id: PlayerId, my_id: PlayerId, test_id: Option<PlayerId>) -> (role: Role)
        ensures
            role == Self::of(id, my_id, test_id),
    {
        if id == my_id {
            return Role::Local;
        }
        match test_id {
            Some(test) => if test == id {
                Role::Test
            } else {
                Role::Other
            },
            None => Role::Other,
        }
    }
}

/// The last entity that is shown for each id.
pub open spec fn latest(shown: Seq<(Entity, u128)>) -> Map<u128, Entity>
    decreases shown.len(),
{
    if shown.len() == 0 {
        Map::empty()
    } else {
        latest(shown.drop_last()).insert(shown.last().1, shown.last().0)
    }
}

/// The last entity that is shown for a cart.
pub open spec fn latest_cart(shown: Seq<(Entity, CartKey)>, key: CartKey) -> Option<Entity>
    decreases shown.len(),
{
    if shown.len() == 0 {
        None
    } else if shown.last().1 == key {
        Some(shown.last().0)
    } else {
        latest_cart(shown.drop_last(), key)
    }
}

impl WorldView {
    /// What must be done about a player, given how it is shown: the living are
    /// shown, the dead and the gone are not. The client's own two players are
    /// moved elsewhere, and only those that the world knows are taken away.
    pub open spec fn player_action(
        self,
        id: PlayerId,
        role: Role,
        entity: Option<Entity>,
    ) -> Option<PlayerAction> {
        let player = self.players[id];
        let pose = Pose { position: player.position, rotation_y: player.rotation_y };
        match entity {
            None => if self.players.contains_key(id) && player.alive {
                Some(PlayerAction::Spawn { id, role, pose })
            } else {
                None
            },
            Some(entity) => if self.players.contains_key(id) {
                if !player.alive {
                    Some(PlayerAction::Despawn { id, entity })
                } else if role == Role::Other {
                    Some(PlayerAction::Move { id, entity, pose })
                } else {
                    None
                }
            } else if role == Role::Other {
                Some(PlayerAction::Despawn { id, entity })
            } else {
                None
            },
        }
    }

    /// What must be done about an item: those that there are lie on the
    /// ground where they are, all others are not shown.
    pub open spec fn item_action(self, id: ItemId, entity: Option<Entity>) -> Option<ItemAction> {
        let pos = self.items[id].pos;
        let position = Vec3 { x: pos.x, y: Binary32 { bits: ITEM_HEIGHT }, z: pos.z };
        match entity {
            None => if self.items.contains_key(id) {
                Some(ItemAction::Spawn { id, position })
            } else {
                None
            },
            Some(entity) => if self.items.contains_key(id) {
                Some(ItemAction::Move { id, entity, position })
            } else {
                Some(ItemAction::Despawn { id, entity })
            },
        }
    }

    /// Whether a cart belongs to the train of a player alive. The head of the
    /// train is the player itself and no cart.
    pub open spec fn has_cart(self, key: CartKey) -> bool {
        &&& self.players.contains_key(key.player)
        &&& self.players[key.player].alive
        &&& 1 <= key.order < self.players[key.player].train.len()
    }

    /// What must be done about a cart.
    pub open spec fn cart_action(self, key: CartKey, entity: Option<Entity>) -> Option<
        CartAction,
    > {
        match entity {
            None => if self.has_cart(key) {
                Some(CartAction::Spawn { key })
            } else {
                None
            },
            Some(entity) => if self.has_cart(key) {
                None
            } else {
                Some(CartAction::Despawn { key, entity })
            },
        }
    }
}

impl Shown {
    /// How a player is shown.
    pub open spec fn player_entity(self, id: PlayerId, role: Role) -> Option<Entity> {
        match role {
            Role::Local => self.local_player,
            Role::Test => self.test_player,
            Role::Other => if latest(self.players@).contains_key(id) {
                Some(latest(self.players@)[id])
            } else {
                None
            },
        }
    }

    /// Whether an action is what must be done about its player.
    pub open spec fn player_due(
        self,
        world: WorldView,
        my_id: PlayerId,
        test_id: Option<PlayerId>,
        action: PlayerAction,
    ) -> bool {
        let role = Role::of(action.id(), my_id, test_id);
        world.player_action(action.id(), role, self.player_entity(action.id(), role)) == Some(
            action,
        )
    }

    /// Whether an action is what must be done about its item.
    pub open spec fn item_due(self, world: WorldView, action: ItemAction) -> bool {
        world.item_action(action.id(), self.item_entity(action.id())) == Some(action)
    }

    /// Whether an action is what must be done about its cart.
    pub open spec fn cart_due(self, world: WorldView, action: CartAction) -> bool {
        world.cart_action(action.key(), self.cart_entity(action.key())) == Some(action)
    }

    /// How an item is shown.
    pub open spec fn item_entity(self, id: ItemId) -> Option<Entity> {
        if latest(self.items@).contains_key(id) {
            Some(latest(self.items@)[id])
        } else {
            None
        }
    }

    /// How a cart is shown.
    pub open spec fn cart_entity(self, key: CartKey) -> Option<Entity> {
        latest_cart(self.carts@, key)
    }
}

/// A table of what is shown, by id.
fn by_id(shown: &Vec<(Entity, u128)>) -> (table: HashMap<u128, Entity>)
    ensures
        table@ == latest(shown@),
{
    let mut table: HashMap<u128, Entity> = HashMap::new();
    let mut i: usize = 0;
    assert(shown@.take(0) =~= Seq::empty());
    while i < shown.len()
        invariant
            i <= shown@.len(),
            table@ == latest(shown@.take(i as int)),
        decreases shown@.len() - i,
    {
        proof {
            assert(shown@.take(i + 1).drop_last() =~= shown@.take(i as int));
        }
        table.insert(shown[i].1, shown[i].0);
        i = i + 1;
    }
    assert(shown@.take(i as int) =~= shown@);
    table
}

impl WorldState {
    /// What must be done about a player, given how it is shown.
    pub fn find_player_action(
        &self,
        id: PlayerId,
        role: Role,
        entity: Option<Entity>,
    ) -> (action: Option<PlayerAction>)
        ensures
            action == self@.player_action(id, role, entity),
    {
        match (self.players.get(&id), entity) {
            (Some(player), None) => if player.alive {
                let pose: Pose = Pose {
                    position: player.position,
                    rotation_y: player.rotation_y,
                };
                Some(PlayerAction::Spawn { id, role, pose })
            } else {
                None
            },
            (Some(player), Some(entity)) => if !player.alive {
                Some(PlayerAction::Despawn { id, entity })
            } else {
                match role {
                    Role::Other => {
                        let pose: Pose = Pose {
                            position: player.position,
                            rotation_y: player.rotation_y,
                        };
                        Some(PlayerAction::Move { id, entity, pose })
                    },
                    _ => None,
                }
            },
            (None, Some(entity)) => match role {
                Role::Other => Some(PlayerAction::Despawn { id, entity }),
                _ => None,
            },
            (None, None) => None,
        }
    }

    /// What must be done about an item, given how it is shown.
    pub fn find_item_action(&self, id: ItemId, entity: Option<Entity>) -> (action: Option<
        ItemAction,
    >)
        ensures
            action == self@.item_action(id, entity),
    {
        match (self.items.get(&id), entity) {
            (Some(item), entity) => {
                let position: Vec3 = Vec3 {
                    x: item.pos.x,
                    y: Binary32 { bits: ITEM_HEIGHT },
                    z: item.pos.z,
                };
                match entity {
                    Some(entity) => Some(ItemAction::Move { id, entity, position }),
                    None => Some(ItemAction::Spawn { id, position }),
                }
            },
            (None, Some(entity)) => Some(ItemAction::Despawn { id, entity }),
            (None, None) => None,
        }
    }

    /// What must be done about the players.
    pub fn sync_players(
        &self,
        shown: &Shown,
        my_id: PlayerId,
        test_id: Option<PlayerId>,
    ) -> (actions: Vec<PlayerAction>)
        ensures
            actions@.no_duplicates(),
            forall|a: PlayerAction| #[trigger]
                actions@.contains(a) <==> shown.player_due(self@, my_id, test_id, a),
    {
        let table: HashMap<PlayerId, Entity> = by_id(&shown.players);
        let mut actions: Vec<PlayerAction> = Vec::new();
        let ghost mut done: Set<PlayerId> = Set::empty();
        let keys: Vec<PlayerId> = ids(&self.players);
        let mut i: usize = 0;
        while i < keys.len()
            invariant
                i <= keys@.len(),
                keys@.no_duplicates(),
                table@ == latest(shown.players@),
                forall|j: int| 0 <= j < i ==> done.contains(#[trigger] keys@[j]),
                forall|k: PlayerId| #[trigger]
                    done.contains(k) ==> exists|j: int| 0 <= j < i && keys@[j] == k,
                actions@.no_duplicates(),
                forall|a: PlayerAction| #[trigger]
                    actions@.contains(a) <==> done.contains(a.id()) && shown.player_due(
                        self@,
                        my_id,
                        test_id,
                        a,
                    ),
            decreases keys@.len() - i,
        {
            let id: PlayerId = keys[i];
            assert(!done.contains(id));
            let role: Role = Role::find(id, my_id, test_id);
            let entity: Option<Entity> = match role {
                Role::Local => shown.local_player,
                Role::Test => shown.test_player,
                Role::Other => match table.get(&id) {
                    Some(entity) => Some(*entity),
                    None => None,
                },
            };
            let ghost before = actions@;
            if let Some(action) = self.find_player_action(id, role, entity) {
                assert(action.id() == id);
                actions.push(action);
                proof {
                    crate::tables::push_contains(before, action);
                }
            }
            proof {
                done = done.insert(id);
                assert forall|k: PlayerId| #[trigger] done.contains(k) implies exists|j: int|
                    0 <= j < i + 1 && keys@[j] == k by {
                    if k == id {
                        assert(keys@[i as int] == k);
                    }
                }
            }
            i = i + 1;
        }
        let others: Vec<PlayerId> = ids(&table);
        proof {
            assert forall|k: PlayerId| #[trigger]
                done.contains(k) <==> self.players@.contains_key(k) by {
                if self.players@.contains_key(k) {
                    assert(keys@.contains(k));
                    let j = choose|j: int| 0 <= j < keys@.len() && keys@[j] == k;
                    assert(done.contains(keys@[j]));
                }
                if done.contains(k) {
                    assert(keys@.contains(k));
                }
            }
        }
        let mut n: usize = 0;
        while n < others.len()
            invariant
                n <= others@.len(),
                others@.no_duplicates(),
                table@ == latest(shown.players@),
                forall|k: PlayerId| others@.contains(k) <==> #[trigger] table@.contains_key(k),
                forall|k: PlayerId| #[trigger]
                    done.contains(k) <==> self.players@.contains_key(k) || exists|j: int|
                        0 <= j < n && others@[j] == k,
                actions@.no_duplicates(),
                forall|a: PlayerAction| #[trigger]
                    actions@.contains(a) <==> done.contains(a.id()) && shown.player_due(
                        self@,
                        my_id,
                        test_id,
                        a,
                    ),
            decreases others@.len() - n,
        {
            let id: PlayerId = others[n];
            assert(others@.contains(id));
            let ghost before = actions@;
            if !self.players.contains_key(&id) {
                assert(!done.contains(id));
                let role: Role = Role::find(id, my_id, test_id);
                let entity: Option<Entity> = match role {
                    Role::Local => shown.local_player,
                    Role::Test => shown.test_player,
                    Role::Other => match table.get(&id) {
                        Some(entity) => Some(*entity),
                        None => None,
                    },
                };
                if let Some(action) = self.find_player_action(id, role, entity) {
                    assert(action.id() == id);
                    actions.push(action);
                    proof {
                        crate::tables::push_contains(before, action);
                    }
                }
            }
            proof {
                done = done.insert(id);
                assert forall|k: PlayerId| #[trigger]
                    done.contains(k) <==> self.players@.contains_key(k) || exists|j: int|
                        0 <= j < n + 1 && others@[j] == k by {
                    if k == id {
                        assert(others@[n as int] == k);
                    }
                }
            }
            n = n + 1;
        }
        proof {
            assert forall|a: PlayerAction| #[trigger]
                actions@.contains(a) <==> shown.player_due(self@, my_id, test_id, a) by {
                if shown.player_due(self@, my_id, test_id, a) {
                    let k = a.id();
                    if !self.players@.contains_key(k) {
                        assert(table@.contains_key(k));
                        assert(others@.contains(k));
                    }
                    assert(done.contains(k));
                }
            }
        }
        actions
    }

    /// What must be done about the items.
    pub fn sync_items(&self, shown: &Shown) -> (actions: Vec<ItemAction>)
        ensures
            actions@.no_duplicates(),
            forall|a: ItemAction| #[trigger]
                actions@.contains(a) <==> shown.item_due(self@, a),
    {
        let table: HashMap<ItemId, Entity> = by_id(&shown.items);
        let mut actions: Vec<ItemAction> = Vec::new();
        let ghost mut done: Set<ItemId> = Set::empty();
        let keys: Vec<ItemId> = ids(&self.items);
        let mut i: usize = 0;
        while i < keys.len()
            invariant
                i <= keys@.len(),
                keys@.no_duplicates(),
                table@ == latest(shown.items@),
                forall|j: int| 0 <= j < i ==> done.contains(#[trigger] keys@[j]),
                forall|k: ItemId| #[trigger]
                    done.contains(k) ==> exists|j: int| 0 <= j < i && keys@[j] == k,
                actions@.no_duplicates(),
                forall|a: ItemAction| #[trigger]
                    actions@.contains(a) <==> done.contains(a.id()) && shown.item_due(self@, a),
            decreases keys@.len() - i,
        {
            let id: ItemId = keys[i];
            assert(!done.contains(id));
            let entity: Option<Entity> = match table.get(&id) {
                Some(entity) => Some(*entity),
                None => None,
            };
            let ghost before = actions@;
            if let Some(action) = self.find_item_action(id, entity) {
                assert(action.id() == id);
                actions.push(action);
                proof {
                    crate::tables::push_contains(before, action);
                }
            }
            proof {
                done = done.insert(id);
                assert forall|k: ItemId| #[trigger] done.contains(k) implies exists|j: int|
                    0 <= j < i + 1 && keys@[j] == k by {
                    if k == id {
                        assert(keys@[i as int] == k);
                    }
                }
            }
            i = i + 1;
        }
        let others: Vec<ItemId> = ids(&table);
        proof {
            assert forall|k: ItemId| #[trigger]
                done.contains(k) <==> self.items@.contains_key(k) by {
                if self.items@.contains_key(k) {
                    assert(keys@.contains(k));
                    let j = choose|j: int| 0 <= j < keys@.len() && keys@[j] == k;
                    assert(done.contains(keys@[j]));
                }
                if done.contains(k) {
                    assert(keys@.contains(k));
                }
            }
        }
        let mut n: usize = 0;
        while n < others.len()
            invariant
                n <= others@.len(),
                others@.no_duplicates(),
                table@ == latest(shown.items@),
                forall|k: ItemId| others@.contains(k) <==> #[trigger] table@.contains_key(k),
                forall|k: ItemId| #[trigger]
                    done.contains(k) <==> self.items@.contains_key(k) || exists|j: int|
                        0 <= j < n && others@[j] == k,
                actions@.no_duplicates(),
                forall|a: ItemAction| #[trigger]
                    actions@.contains(a) <==> done.contains(a.id()) && shown.item_due(self@, a),
            decreases others@.len() - n,
        {
            let id: ItemId = others[n];
            assert(others@.contains(id));
            let ghost before = actions@;
            if !self.items.contains_key(&id) {
                assert(!done.contains(id));
                let entity: Option<Entity> = match table.get(&id) {
                    Some(entity) => Some(*entity),
                    None => None,
                };
                if let Some(action) = self.find_item_action(id, entity) {
                    assert(action.id() == id);
                    actions.push(action);
                    proof {
                        crate::tables::push_contains(before, action);
                    }
                }
            }
            proof {
                done = done.insert(id);
                assert forall|k: ItemId| #[trigger]
                    done.contains(k) <==> self.items@.contains_key(k) || exists|j: int|
                        0 <= j < n + 1 && others@[j] == k by {
                    if k == id {
                        assert(others@[n as int] == k);
                    }
                }
            }
            n = n + 1;
        }
        proof {
            assert forall|a: ItemAction| #[trigger]
                actions@.contains(a) <==> shown.item_due(self@, a) by {
                if shown.item_due(self@, a) {
                    let k = a.id();
                    if !self.items@.contains_key(k) {
                        assert(table@.contains_key(k));
                        assert(others@.contains(k));
                    }
                    assert(done.contains(k));
                }
            }
        }
        actions
    }

    /// Whether a cart belongs to the train of a player alive.
    pub fn find_cart(&self, key: CartKey) -> (r: bool)
        ensures
            r == self@.has_cart(key),
    {
        match self.players.get(&key.player) {
            Some(player) => player.alive && 1 <= key.order && key.order < player.train.len(),
            None => false,
        }
    }

    /// The carts that must be shown and are not.
    fn spawn_carts(&self, shown: &Shown) -> (actions: Vec<CartAction>)
        ensures
            actions@.no_duplicates(),
            forall|a: CartAction| #[trigger]
                actions@.contains(a) <==> a is Spawn && shown.cart_due(self@, a),
    {
        let mut actions: Vec<CartAction> = Vec::new();
        let ghost mut done: Set<PlayerId> = Set::empty();
        let keys: Vec<PlayerId> = ids(&self.players);
        let mut i: usize = 0;
        while i < keys.len()
            invariant
                i <= keys@.len(),
                keys@.no_duplicates(),
                forall|k: PlayerId| keys@.contains(k) <==> #[trigger] self.players@.contains_key(k),
                forall|j: int| 0 <= j < i ==> done.contains(#[trigger] keys@[j]),
                forall|j: int| i <= j < keys@.len() ==> !done.contains(#[trigger] keys@[j]),
                actions@.no_duplicates(),
                forall|a: CartAction| #[trigger]
                    actions@.contains(a) <==> a is Spawn && shown.cart_due(self@, a)
                        && done.contains(a.key().player),
            decreases keys@.len() - i,
        {
            let id: PlayerId = keys[i];
            assert(keys@.contains(id));
            let length: usize = match self.players.get(&id) {
                Some(player) => if player.alive {
                    player.train.len()
                } else {
                    0
                },
                None => 0,
            };
            let mut order: usize = 1;
            while order < length
                invariant
                    1 <= order,
                    order <= length || length <= 1,
                    !done.contains(id),
                    self.players@.contains_key(id),
                    length == if self.players@[id].alive {
                        self.players@[id].train@.len()
                    } else {
                        0
                    },
                    actions@.no_duplicates(),
                    forall|a: CartAction| #[trigger]
                        actions@.contains(a) <==> a is Spawn && shown.cart_due(self@, a) && (
                        done.contains(a.key().player) || (a.key().player == id && a.key().order
                            < order)),
                decreases length - order,
            {
                let key: CartKey = CartKey { player: id, order };
                let ghost before = actions@;
                assert(self@.has_cart(key));
                if shown.find_cart_entity(key).is_none() {
                    let action: CartAction = CartAction::Spawn { key };
                    actions.push(action);
                    proof {
                        crate::tables::push_contains(before, action);
                    }
                }
                order = order + 1;
            }
            proof {
                done = done.insert(id);
            }
            i = i + 1;
        }
        proof {
            assert forall|a: CartAction| a is Spawn && #[trigger] shown.cart_due(self@, a) implies
                done.contains(a.key().player) by {
                assert(self.players@.contains_key(a.key().player));
                assert(keys@.contains(a.key().player));
                let j = choose|j: int| 0 <= j < keys@.len() && keys@[j] == a.key().player;
                assert(done.contains(keys@[j]));
            }
        }
        actions
    }

    /// What must be done about the carts.
    pub fn sync_carts(&self, shown: &Shown) -> (actions: Vec<CartAction>)
        ensures
            actions@.no_duplicates(),
            forall|a: CartAction| #[trigger]
                actions@.contains(a) <==> shown.cart_due(self@, a),
    {
        let mut actions: Vec<CartAction> = self.spawn_carts(shown);
        let mut i: usize = 0;
        while i < shown.carts.len()
            invariant
                i <= shown.carts@.len(),
                actions@.no_duplicates(),
                forall|a: CartAction| #[trigger]
                    actions@.contains(a) <==> shown.cart_due(self@, a) && (a is Spawn || exists|
                        j: int,
                    |
                        0 <= j < i && #[trigger] is_last(shown.carts@, j) && shown.carts@[j].1
                            == a.key()),
            decreases shown.carts@.len() - i,
        {
            let key: CartKey = shown.carts[i].1;
            let ghost before = actions@;
            if !shown.repeats(i) {
                proof {
                    latest_cart_is_last(shown.carts@, i as int);
                }
                if !self.find_cart(key) {
                    let entity: Entity = shown.carts[i].0;
                    let action: CartAction = CartAction::Despawn { key, entity };
                    assert(shown.cart_due(self@, action));
                    actions.push(action);
                    proof {
                        crate::tables::push_contains(before, action);
                    }
                }
            }
            i = i + 1;
        }
        proof {
            assert forall|a: CartAction| #[trigger]
                actions@.contains(a) <==> shown.cart_due(self@, a) by {
                if shown.cart_due(self@, a) && a is Despawn {
                    let j = last_cart(shown.carts@, a.key());
                    assert(is_last(shown.carts@, j));
                }
            }
        }
        actions
    }
}

/// Whether no later entry of what is shown is for the same cart.
spec fn is_last(shown: Seq<(Entity, CartKey)>, i: int) -> bool {
    forall|j: int| i < j < shown.len() ==> #[trigger] shown[j].1 != shown[i].1
}

proof fn latest_cart_is_last(shown: Seq<(Entity, CartKey)>, i: int)
    requires
        0 <= i < shown.len(),
        is_last(shown, i),
    ensures
        latest_cart(shown, shown[i].1) == Some(shown[i].0),
    decreases shown.len(),
{
    if i < shown.len() - 1 {
        assert(shown.last() == shown[shown.len() - 1]);
        let rest = shown.drop_last();
        assert forall|j: int| i < j < rest.len() implies #[trigger] rest[j].1 != rest[i].1 by {
            assert(shown[j].1 != shown[i].1);
        }
        latest_cart_is_last(rest, i);
    }
}

proof fn last_cart(shown: Seq<(Entity, CartKey)>, key: CartKey) -> (i: int)
    requires
        latest_cart(shown, key) is Some,
    ensures
        0 <= i < shown.len(),
        is_last(shown, i),
        shown[i].1 == key,
    decreases shown.len(),
{
    if shown.last().1 == key {
        shown.len() - 1
    } else {
        let rest = shown.drop_last();
        let i = last_cart(rest, key);
        assert forall|j: int| i < j < shown.len() implies #[trigger] shown[j].1 != shown[i].1 by {
            if j < shown.len() - 1 {
                assert(rest[j].1 != rest[i].1);
            }
        }
        i
    }
}

impl Shown {
    /// How a cart is shown.
    pub fn find_cart_entity(&self, key: CartKey) -> (entity: Option<Entity>)
        ensures
            entity == self.cart_entity(key),
    {
        let mut entity: Option<Entity> = None;
        let mut i: usize = 0;
        assert(self.carts@.take(0) =~= Seq::empty());
        while i < self.carts.len()
            invariant
                i <= self.carts@.len(),
                entity == latest_cart(self.carts@.take(i as int), key),
            decreases self.carts@.len() - i,
        {
            proof {
                assert(self.carts@.take(i + 1).drop_last() =~= self.carts@.take(i as int));
            }
            if self.carts[i].1 == key {
                entity = Some(self.carts[i].0);
            }
            i = i + 1;
        }
        assert(self.carts@.take(i as int) =~= self.carts@);
        entity
    }

    /// Whether a later entry of what is shown is for the same cart.
    fn repeats(&self, i: usize) -> (r: bool)
        requires
            i < self.carts@.len(),
        ensures
            r == !is_last(self.carts@, i as int),
    {
        let total: usize = self.carts.len();
        let mut j: usize = i + 1;
        while j < total
            invariant
                total == self.carts@.len(),
                i < j <= total,
                forall|n: int| i < n < j ==> #[trigger] self.carts@[n].1 != self.carts@[i as int].1,
            decreases total - j,
        {
            if self.carts[j].1 == self.carts[i].1 {
                return true;
            }
            j = j + 1;
        }
        false
    }
}

impl Session {
    /// What must be done to what is shown so that it agrees with the client's
    /// simulation; nothing before the server has welcomed the client.
    pub fn sync_world_state(&self, test_id: Option<PlayerId>, shown: &Shown) -> (actions:
        SceneActions)
        ensures
            actions.players@.no_duplicates(),
            actions.items@.no_duplicates(),
            actions.carts@.no_duplicates(),
            match (self@.local, self@.client.id) {
                (Some(local), Some(my_id)) => {
                    &&& forall|a: PlayerAction| #[trigger]
                        actions.players@.contains(a) <==> shown.player_due(
                            local.sim.state,
                            my_id,
                            test_id,
                            a,
                        )
                    &&& forall|a: ItemAction| #[trigger]
                        actions.items@.contains(a) <==> shown.item_due(local.sim.state, a)
                    &&& forall|a: CartAction| #[trigger]
                        actions.carts@.contains(a) <==> shown.cart_due(local.sim.state, a)
                },
                _ => {
                    &&& actions.players@.len() == 0
                    &&& actions.items@.len() == 0
                    &&& actions.carts@.len() == 0
                },
            },
    {
        match (&self.local, self.client.id) {
            (Some(local), Some(my_id)) => {
                let world: &WorldState = &local.sim.state;
                SceneActions {
                    players: world.sync_players(shown, my_id, test_id),
                    items: world.sync_items(shown),
                    carts: world.sync_carts(shown),
                }
            },
            _ => SceneActions { players: Vec::new(), items: Vec::new(), carts: Vec::new() },
        }
    }
}

} // verus!
