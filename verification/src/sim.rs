//! The simulation of the world, tick by tick.

use crate::binary32::Binary32;
use crate::rules::{GameConfig, Heading, HOVER_HEIGHT, ITEM_REACH};
use crate::tables::ids;
use crate::uuids::new_v4;
use crate::world::{Item, ItemId, PlayerId, PlayerState, PlayerView, TurnInput, Vec3};
use crate::world::{WorldState, WorldView};
use std::collections::{HashMap, VecDeque};
use vstd::prelude::*;

verus! {

broadcast use vstd::std_specs::hash::group_hash_axioms;

/// The full turn, the bound of a random angle.
pub const FULL_TURN: u32 = 0x40c9_0fdb;

/// The height at which items lie, 0.3.
pub const ITEM_HEIGHT: u32 = 0x3e99_999a;

pub struct GameSim {
    pub cfg: GameConfig,
    pub state: WorldState,
    pub pending_inputs: HashMap<PlayerId, TurnInput>,
}

/// What a simulation is, with its tables as maps.
#[verifier::ext_equal]
pub ghost struct SimView {
    pub cfg: GameConfig,
    pub state: WorldView,
    pub pending_inputs: Map<PlayerId, TurnInput>,
}

impl View for GameSim {
    type V = SimView;

    open spec fn view(&self) -> SimView {
        SimView {
            cfg: self.cfg,
            state: self.state@,
            pending_inputs: self.pending_inputs@,
        }
    }
}

impl SimView {
    /// An empty world.
    pub open spec fn fresh(cfg: GameConfig) -> SimView {
        SimView {
            cfg,
            state: WorldView {
                world_size: cfg.world_size,
                players: Map::empty(),
                items: Map::empty(),
                tick: 0,
            },
            pending_inputs: Map::empty(),
        }
    }

    pub open spec fn lives(self, k: PlayerId) -> bool {
        self.state.players.contains_key(k) && self.state.players[k].alive
    }

    /// What a player has asked for since the last tick.
    pub open spec fn input_of(self, k: PlayerId) -> Option<TurnInput> {
        if self.pending_inputs.contains_key(k) {
            Some(self.pending_inputs[k])
        } else {
            None
        }
    }

    /// The angle at which a player moves this tick.
    pub open spec fn next_rotation(self, k: PlayerId) -> Binary32 {
        self.state.players[k].new_rotation(self.input_of(k), self.cfg)
    }

    /// The simulation with another table of players.
    pub open spec fn with_players(self, players: Map<PlayerId, PlayerView>) -> SimView {
        SimView { state: WorldView { players, ..self.state }, ..self }
    }

    /// The players after those alive have turned and moved, each in the given
    /// direction.
    pub open spec fn moved_players(
        self,
        headings: Map<PlayerId, Heading>,
    ) -> Map<PlayerId, PlayerView> {
        Map::new(
            |k: PlayerId| self.state.players.contains_key(k),
            |k: PlayerId|
                if self.state.players[k].alive {
                    self.state.players[k].advanced(self.input_of(k), headings[k], self.cfg)
                } else {
                    self.state.players[k]
                },
        )
    }

    /// The inputs of those that are not alive stay pending; all others are
    /// used up.
    pub open spec fn inputs_left(self) -> Map<PlayerId, TurnInput> {
        Map::new(
            |k: PlayerId| self.pending_inputs.contains_key(k) && !self.lives(k),
            |k: PlayerId| self.pending_inputs[k],
        )
    }

    /// The simulation after the players have turned and moved.
    pub open spec fn moved(self, headings: Map<PlayerId, Heading>) -> SimView {
        SimView {
            pending_inputs: self.inputs_left(),
            ..self.with_players(self.moved_players(headings))
        }
    }

    /// Whether a player can collect anything.
    pub open spec fn finds_item(self, k: PlayerId) -> bool {
        exists|i: ItemId| #[trigger] self.collectable(k, i)
    }

    pub open spec fn collectable(self, k: PlayerId, i: ItemId) -> bool {
        self.state.items.contains_key(i) && self.state.players[k].can_collect(
            self.state.items[i],
        )
    }

    /// Whether each player alive that finds an item has exactly one, which it
    /// can collect, and nobody else has any. Two players may have the same.
    pub open spec fn meals_fit(self, meals: Map<PlayerId, ItemId>) -> bool {
        &&& forall|k: PlayerId| #[trigger]
            meals.contains_key(k) <==> self.lives(k) && self.finds_item(k)
        &&& forall|k: PlayerId| #[trigger]
            meals.contains_key(k) ==> self.collectable(k, meals[k])
    }

    /// Whether somebody has an item.
    pub open spec fn taken(meals: Map<PlayerId, ItemId>, i: ItemId) -> bool {
        exists|k: PlayerId| #[trigger] meals.contains_key(k) && meals[k] == i
    }

    /// The items that are nobody's.
    pub open spec fn items_left(self, meals: Map<PlayerId, ItemId>) -> Map<ItemId, Item> {
        Map::new(
            |i: ItemId| self.state.items.contains_key(i) && !Self::taken(meals, i),
            |i: ItemId| self.state.items[i],
        )
    }

    /// The players after the trains of those alive have followed, one cart
    /// longer where an item was collected.
    pub open spec fn fed_players(
        self,
        meals: Map<PlayerId, ItemId>,
    ) -> Map<PlayerId, PlayerView> {
        Map::new(
            |k: PlayerId| self.state.players.contains_key(k),
            |k: PlayerId|
                if self.state.players[k].alive {
                    self.state.players[k].followed(meals.contains_key(k))
                } else {
                    self.state.players[k]
                },
        )
    }

    /// The simulation after the items were collected and the trains followed.
    pub open spec fn fed(self, meals: Map<PlayerId, ItemId>) -> SimView {
        SimView {
            state: WorldView {
                players: self.fed_players(meals),
                items: self.items_left(meals),
                ..self.state
            },
            ..self
        }
    }

    /// Whether a player alive has run into the train of another one alive.
    pub open spec fn crashes(self, k: PlayerId) -> bool {
        self.lives(k) && exists|j: PlayerId| #[trigger] self.crashes_into(k, j)
    }

    pub open spec fn crashes_into(self, k: PlayerId, j: PlayerId) -> bool {
        j != k && self.lives(j) && self.state.players[k].hits(self.state.players[j])
    }

    /// The simulation after those that crashed have died.
    pub open spec fn judged(self) -> SimView {
        self.with_players(
            Map::new(
                |k: PlayerId| self.state.players.contains_key(k),
                |k: PlayerId|
                    PlayerView {
                        alive: self.state.players[k].alive && !self.crashes(k),
                        ..self.state.players[k]
                    },
            ),
        )
    }

    pub open spec fn with_player(self, id: PlayerId, player: PlayerView) -> SimView {
        self.with_players(self.state.players.insert(id, player))
    }

    pub open spec fn without_player(self, id: PlayerId) -> SimView {
        SimView {
            pending_inputs: self.pending_inputs.remove(id),
            ..self.with_players(self.state.players.remove(id))
        }
    }

    /// The simulation after a player has asked for a turn.
    pub open spec fn asked(self, id: PlayerId, input: TurnInput) -> SimView {
        SimView { pending_inputs: self.pending_inputs.insert(id, input), ..self }
    }

    pub open spec fn with_item(self, item: Item) -> SimView {
        SimView {
            state: WorldView { items: self.state.items.insert(item.id, item), ..self.state },
            ..self
        }
    }

    /// The simulation with the tick counted.
    pub open spec fn counted(self) -> SimView {
        SimView {
            state: WorldView { tick: (self.state.tick + 1) as u64, ..self.state },
            ..self
        }
    }

    /// The simulation one tick later, apart from the item that may appear.
    pub open spec fn ticked(
        self,
        headings: Map<PlayerId, Heading>,
        meals: Map<PlayerId, ItemId>,
    ) -> SimView {
        self.counted().moved(headings).fed(meals).judged()
    }

    /// Whether the directions are those that `heading` gives for the players
    /// alive, and the meals fit the places these lead to.
    pub open spec fn may_tick<H: Fn(Binary32) -> Heading>(
        self,
        heading: &H,
        headings: Map<PlayerId, Heading>,
        meals: Map<PlayerId, ItemId>,
    ) -> bool {
        &&& forall|k: PlayerId| #[trigger]
            self.lives(k) ==> call_ensures(heading, (self.next_rotation(k),), headings[k])
        &&& self.counted().moved(headings).meals_fit(meals)
    }

    /// Whether a simulation is this one with a fresh item at a drawn place.
    pub open spec fn gains_item<D: Fn(Binary32, Binary32) -> Binary32>(
        self,
        draw: &D,
        after: SimView,
    ) -> bool {
        exists|id: ItemId, x: Binary32, z: Binary32|
            {
                &&& crate::uuids::is_random_uuid(id)
                &&& call_ensures(draw, (self.cfg.world_size.opposite(), self.cfg.world_size), x)
                &&& call_ensures(draw, (self.cfg.world_size.opposite(), self.cfg.world_size), z)
                &&& after == self.with_item(#[trigger] Self::item_at(id, x, z))
            }
    }

    /// An item on the ground.
    pub open spec fn item_at(id: ItemId, x: Binary32, z: Binary32) -> Item {
        Item { pos: Vec3 { x, y: Binary32 { bits: ITEM_HEIGHT }, z }, id }
    }

    /// A player that has just appeared: alive, its train no longer than
    /// itself.
    pub open spec fn newcomer(
        id: PlayerId,
        x: Binary32,
        z: Binary32,
        rotation_y: Binary32,
    ) -> PlayerView {
        let position = Vec3 { x, y: Binary32 { bits: HOVER_HEIGHT }, z };
        PlayerView { id, position, rotation_y, train: seq![position], alive: true }
    }

    /// Whether an item appears on the next tick.
    pub open spec fn item_due(self) -> bool {
        (self.state.tick + 1) % (self.cfg.item_spawn_every_ticks as int) == 0
    }
}

impl GameSim {
    pub fn new(cfg: GameConfig) -> (sim: Self)
        ensures
            sim@ == SimView::fresh(cfg),
            sim@.state.keyed(),
    {
        let sim: GameSim = GameSim {
            state: WorldState {
                world_size: cfg.world_size,
                players: HashMap::new(),
                items: HashMap::new(),
                tick: 0,
            },
            pending_inputs: HashMap::new(),
            cfg,
        };
        assert(sim@.state.players =~= Map::empty());
        sim
    }

    /// Turns and moves the players that are alive, and uses up their inputs.
    ///
    /// `heading` gives the sine and the cosine of an angle.
    pub fn move_players<H: Fn(Binary32) -> Heading>(&mut self, heading: &H) -> (headings: Ghost<
        Map<PlayerId, Heading>,
    >)
        requires
            old(self)@.state.players_keyed(),
            forall|angle: Binary32| #[trigger] call_requires(heading, (angle,)),
        ensures
            final(self)@ == old(self)@.moved(headings@),
            forall|k: PlayerId| #[trigger]
                old(self)@.lives(k) ==> call_ensures(
                    heading,
                    (old(self)@.next_rotation(k),),
                    headings@[k],
                ),
    {
        let ghost pre = self@;
        let ghost mut headings: Map<PlayerId, Heading> = Map::empty();
        let ghost mut done: Set<PlayerId> = Set::empty();
        let keys: Vec<PlayerId> = ids(&self.state.players);
        let mut i: usize = 0;
        while i < keys.len()
            invariant
                i <= keys@.len(),
                keys@.no_duplicates(),
                pre.state.players_keyed(),
                forall|angle: Binary32| #[trigger] call_requires(heading, (angle,)),
                forall|k: PlayerId|
                    keys@.contains(k) <==> #[trigger] pre.state.players.contains_key(k),
                forall|j: int| 0 <= j < i ==> done.contains(#[trigger] keys@[j]),
                forall|j: int| i <= j < keys@.len() ==> !done.contains(#[trigger] keys@[j]),
                self.cfg == pre.cfg,
                self.state.world_size == pre.state.world_size,
                self.state.items@ == pre.state.items,
                self.state.tick == pre.state.tick,
                forall|k: PlayerId| #[trigger]
                    self.state.players@.contains_key(k) <==> pre.state.players.contains_key(k),
                forall|k: PlayerId| #[trigger]
                    pre.state.players.contains_key(k) ==> self.state.players@[k]@ == if done.contains(
                        k,
                    ) && pre.state.players[k].alive {
                        pre.state.players[k].advanced(pre.input_of(k), headings[k], pre.cfg)
                    } else {
                        pre.state.players[k]
                    },
                forall|k: PlayerId| #[trigger]
                    self.pending_inputs@.contains_key(k) <==> pre.pending_inputs.contains_key(k)
                        && !(done.contains(k) && pre.lives(k)),
                forall|k: PlayerId| #[trigger]
                    self.pending_inputs@.contains_key(k) ==> self.pending_inputs@[k]
                        == pre.pending_inputs[k],
                forall|k: PlayerId| #[trigger]
                    done.contains(k) && pre.lives(k) ==> call_ensures(
                        heading,
                        (pre.next_rotation(k),),
                        headings[k],
                    ),
            decreases keys@.len() - i,
        {
            let id: PlayerId = keys[i];
            assert(keys@.contains(id));
            assert(!done.contains(id));
            if let Some(mut player) = self.state.players.remove(&id) {
                if player.alive {
                    let input: Option<TurnInput> = self.pending_inputs.remove(&player.id);
                    assert(input == pre.input_of(id));
                    player.turn(input, &self.cfg);
                    let direction: Heading = heading(player.rotation_y);
                    player.travel(direction, &self.cfg);
                    proof {
                        headings = headings.insert(id, direction);
                    }
                }
                self.state.players.insert(id, player);
            }
            proof {
                done = done.insert(id);
            }
            i = i + 1;
        }
        proof {
            assert forall|k: PlayerId| #[trigger] pre.state.players.contains_key(k) implies done.contains(k) by {
                assert(keys@.contains(k));
                let j = choose|j: int| 0 <= j < keys@.len() && keys@[j] == k;
                assert(done.contains(keys@[j]));
            }
            assert(self@.state.players =~= pre.moved(headings).state.players);
            assert(self@.pending_inputs =~= pre.inputs_left());
        }
        Ghost(headings)
    }

    /// An item that a player at the given place can collect, the first one
    /// met.
    pub fn find_item(&self, player: &PlayerState) -> (found: Option<ItemId>)
        ensures
            match found {
                Some(i) => self.state.items@.contains_key(i) && player@.can_collect(
                    self.state.items@[i],
                ),
                None => forall|i: ItemId| #[trigger]
                    self.state.items@.contains_key(i) ==> !player@.can_collect(
                        self.state.items@[i],
                    ),
            },
    {
        let keys: Vec<ItemId> = ids(&self.state.items);
        let mut n: usize = 0;
        while n < keys.len()
            invariant
                n <= keys@.len(),
                forall|i: ItemId|
                    keys@.contains(i) <==> #[trigger] self.state.items@.contains_key(i),
                forall|j: int|
                    0 <= j < n ==> !player@.can_collect(
                        self.state.items@[#[trigger] keys@[j]],
                    ),
            decreases keys@.len() - n,
        {
            let id: ItemId = keys[n];
            assert(keys@.contains(id));
            if let Some(item) = self.state.items.get(&id) {
                if player.position.is_near(item.pos, Binary32 { bits: ITEM_REACH }) {
                    return Some(id);
                }
            }
            n = n + 1;
        }
        proof {
            assert forall|i: ItemId| #[trigger] self.state.items@.contains_key(i) implies !player@.can_collect(
                self.state.items@[i],
            ) by {
                assert(keys@.contains(i));
                let j = choose|j: int| 0 <= j < keys@.len() && keys@[j] == i;
                assert(!player@.can_collect(self.state.items@[keys@[j]]));
            }
        }
        None
    }

    /// Lets each player alive collect an item if it can, removes what was
    /// collected, and lets the trains follow.
    pub fn feed_players(&mut self) -> (meals: Ghost<Map<PlayerId, ItemId>>)
        ensures
            old(self)@.meals_fit(meals@),
            final(self)@ == old(self)@.fed(meals@),
    {
        let ghost pre = self@;
        let ghost mut meals: Map<PlayerId, ItemId> = Map::empty();
        let ghost mut done: Set<PlayerId> = Set::empty();
        let keys: Vec<PlayerId> = ids(&self.state.players);
        let mut eaten: Vec<ItemId> = Vec::new();
        let mut i: usize = 0;
        while i < keys.len()
            invariant
                i <= keys@.len(),
                keys@.no_duplicates(),
                forall|k: PlayerId|
                    keys@.contains(k) <==> #[trigger] pre.state.players.contains_key(k),
                forall|j: int| 0 <= j < i ==> done.contains(#[trigger] keys@[j]),
                forall|j: int| i <= j < keys@.len() ==> !done.contains(#[trigger] keys@[j]),
                self.cfg == pre.cfg,
                self.state.world_size == pre.state.world_size,
                self.state.items@ == pre.state.items,
                self.state.tick == pre.state.tick,
                self.pending_inputs@ == pre.pending_inputs,
                forall|k: PlayerId| #[trigger]
                    self.state.players@.contains_key(k) <==> pre.state.players.contains_key(k),
                forall|k: PlayerId| #[trigger]
                    pre.state.players.contains_key(k) ==> self.state.players@[k]@ == if done.contains(
                        k,
                    ) && pre.state.players[k].alive {
                        pre.state.players[k].followed(meals.contains_key(k))
                    } else {
                        pre.state.players[k]
                    },
                forall|k: PlayerId| #[trigger]
                    meals.contains_key(k) <==> done.contains(k) && pre.lives(k) && pre.finds_item(
                        k,
                    ),
                forall|k: PlayerId| #[trigger]
                    meals.contains_key(k) ==> pre.collectable(k, meals[k]) && eaten@.contains(
                        meals[k],
                    ),
                forall|n: int|
                    0 <= n < eaten@.len() ==> SimView::taken(meals, #[trigger] eaten@[n]),
            decreases keys@.len() - i,
        {
            let id: PlayerId = keys[i];
            assert(keys@.contains(id));
            assert(!done.contains(id));
            let ghost before_meals = meals;
            let ghost before_eaten = eaten@;
            if let Some(mut player) = self.state.players.remove(&id) {
                assert(player@ == pre.state.players[id]);
                if player.alive {
                    let found: Option<ItemId> = self.find_item(&player);
                    if let Some(item) = found {
                        assert(pre.collectable(id, item));
                        eaten.push(item);
                        proof {
                            meals = meals.insert(id, item);
                            assert(eaten@[before_eaten.len() as int] == item);
                            assert forall|n: int| 0 <= n < eaten@.len() implies SimView::taken(
                                meals,
                                #[trigger] eaten@[n],
                            ) by {
                                if n < before_eaten.len() {
                                    assert(SimView::taken(before_meals, before_eaten[n]));
                                    let k = choose|k: PlayerId| #[trigger]
                                        before_meals.contains_key(k) && before_meals[k]
                                            == before_eaten[n];
                                    assert(meals.contains_key(k));
                                } else {
                                    assert(meals.contains_key(id));
                                }
                            }
                            assert forall|k: PlayerId| #[trigger]
                                meals.contains_key(k) implies pre.collectable(k, meals[k])
                                && eaten@.contains(meals[k]) by {
                                if k != id {
                                    assert(before_meals.contains_key(k));
                                    let n = choose|n: int|
                                        0 <= n < before_eaten.len() && before_eaten[n]
                                            == meals[k];
                                    assert(eaten@[n] == meals[k]);
                                }
                            }
                        }
                    } else {
                        assert forall|n: ItemId| !#[trigger] pre.collectable(id, n) by {
                            if pre.state.items.contains_key(n) {
                                assert(self.state.items@.contains_key(n));
                            }
                        }
                    }
                    player.follow(found.is_some());
                }
                self.state.players.insert(id, player);
            }
            proof {
                done = done.insert(id);
            }
            i = i + 1;
        }
        proof {
            assert forall|k: PlayerId| #[trigger] pre.state.players.contains_key(k) implies done.contains(k) by {
                assert(keys@.contains(k));
                let j = choose|j: int| 0 <= j < keys@.len() && keys@[j] == k;
                assert(done.contains(keys@[j]));
            }
            assert(self@.state.players =~= pre.fed_players(meals));
        }
        let mut n: usize = 0;
        while n < eaten.len()
            invariant
                n <= eaten@.len(),
                self.cfg == pre.cfg,
                self.state.world_size == pre.state.world_size,
                self.state.tick == pre.state.tick,
                self.pending_inputs@ == pre.pending_inputs,
                self@.state.players == pre.fed_players(meals),
                forall|id: ItemId| #[trigger]
                    self.state.items@.contains_key(id) <==> pre.state.items.contains_key(id)
                        && !eaten@.take(n as int).contains(id),
                forall|id: ItemId| #[trigger]
                    self.state.items@.contains_key(id) ==> self.state.items@[id]
                        == pre.state.items[id],
            decreases eaten@.len() - n,
        {
            let ghost before = eaten@.take(n as int);
            let ghost after = eaten@.take(n + 1);
            self.state.items.remove(&eaten[n]);
            proof {
                assert(after =~= before.push(eaten@[n as int]));
                assert forall|id: ItemId| #[trigger] after.contains(id) <==> before.contains(id)
                    || id == eaten@[n as int] by {
                    if before.contains(id) {
                        let j = choose|j: int| 0 <= j < before.len() && before[j] == id;
                        assert(after[j] == id);
                    }
                    assert(after[n as int] == eaten@[n as int]);
                }
            }
            n = n + 1;
        }
        proof {
            assert(eaten@.take(eaten@.len() as int) =~= eaten@);
            assert forall|id: ItemId| #[trigger] eaten@.contains(id) <==> SimView::taken(
                meals,
                id,
            ) by {
                if eaten@.contains(id) {
                    let j = choose|j: int| 0 <= j < eaten@.len() && eaten@[j] == id;
                    assert(SimView::taken(meals, eaten@[j]));
                }
            }
            assert(self@.state.items =~= pre.items_left(meals));
        }
        Ghost(meals)
    }

    /// Whether a player has run into the train of another one alive.
    fn has_crashed(&self, id: PlayerId, player: &PlayerState) -> (r: bool)
        requires
            self.state.players@.contains_key(id),
            self.state.players@[id] == *player,
            player.alive,
        ensures
            r == self@.crashes(id),
    {
        let keys: Vec<PlayerId> = ids(&self.state.players);
        let mut n: usize = 0;
        while n < keys.len()
            invariant
                n <= keys@.len(),
                self.state.players@.contains_key(id),
                self.state.players@[id] == *player,
                player.alive,
                forall|k: PlayerId|
                    keys@.contains(k) <==> #[trigger] self.state.players@.contains_key(k),
                forall|j: int| 0 <= j < n ==> !self@.crashes_into(id, #[trigger] keys@[j]),
            decreases keys@.len() - n,
        {
            let other_id: PlayerId = keys[n];
            assert(keys@.contains(other_id));
            if other_id != id {
                if let Some(other) = self.state.players.get(&other_id) {
                    if other.alive && player.has_hit(other) {
                        assert(self@.crashes_into(id, other_id));
                        return true;
                    }
                }
            }
            n = n + 1;
        }
        proof {
            assert forall|k: PlayerId| !#[trigger] self@.crashes_into(id, k) by {
                if self@.lives(k) {
                    assert(self.state.players@.contains_key(k));
                    assert(keys@.contains(k));
                    let j = choose|j: int| 0 <= j < keys@.len() && keys@[j] == k;
                    assert(!self@.crashes_into(id, keys@[j]));
                }
            }
        }
        false
    }

    /// Kills the players that have run into the train of another one alive.
    ///
    /// Whether a player has crashed is settled for all of them before the
    /// first one dies, so two that ran into each other both die.
    pub fn judge_players(&mut self)
        ensures
            final(self)@ == old(self)@.judged(),
    {
        let ghost pre = self@;
        let keys: Vec<PlayerId> = ids(&self.state.players);
        let mut doomed: Vec<PlayerId> = Vec::new();
        let mut i: usize = 0;
        while i < keys.len()
            invariant
                i <= keys@.len(),
                self@ == pre,
                forall|k: PlayerId|
                    keys@.contains(k) <==> #[trigger] pre.state.players.contains_key(k),
                forall|k: PlayerId| #[trigger]
                    doomed@.contains(k) <==> keys@.take(i as int).contains(k) && pre.crashes(k),
            decreases keys@.len() - i,
        {
            let id: PlayerId = keys[i];
            let ghost before = keys@.take(i as int);
            let ghost after = keys@.take(i + 1);
            let ghost before_doomed = doomed@;
            assert(keys@.contains(id));
            proof {
                assert(after =~= before.push(id));
                assert forall|k: PlayerId| #[trigger] after.contains(k) <==> before.contains(k) || k
                    == id by {
                    if before.contains(k) {
                        let j = choose|j: int| 0 <= j < before.len() && before[j] == k;
                        assert(after[j] == k);
                    }
                    assert(after[i as int] == id);
                }
            }
            if let Some(player) = self.state.players.get(&id) {
                if player.alive && self.has_crashed(id, player) {
                    doomed.push(id);
                    proof {
                        assert forall|k: PlayerId| #[trigger]
                            doomed@.contains(k) <==> before_doomed.contains(k) || k == id by {
                            if before_doomed.contains(k) {
                                let j = choose|j: int|
                                    0 <= j < before_doomed.len() && before_doomed[j] == k;
                                assert(doomed@[j] == k);
                            }
                            assert(doomed@[before_doomed.len() as int] == id);
                        }
                    }
                }
            }
            i = i + 1;
        }
        assert(keys@.take(keys@.len() as int) =~= keys@);
        let mut n: usize = 0;
        while n < doomed.len()
            invariant
                n <= doomed@.len(),
                self.cfg == pre.cfg,
                self.state.world_size == pre.state.world_size,
                self.state.items@ == pre.state.items,
                self.state.tick == pre.state.tick,
                self.pending_inputs@ == pre.pending_inputs,
                forall|k: PlayerId| #[trigger] doomed@.contains(k) <==> pre.crashes(k),
                forall|k: PlayerId| #[trigger]
                    self.state.players@.contains_key(k) <==> pre.state.players.contains_key(k),
                forall|k: PlayerId| #[trigger]
                    pre.state.players.contains_key(k) ==> self.state.players@[k]@ == (PlayerView {
                        alive: pre.state.players[k].alive && !doomed@.take(n as int).contains(k),
                        ..pre.state.players[k]
                    }),
            decreases doomed@.len() - n,
        {
            let id: PlayerId = doomed[n];
            let ghost before = doomed@.take(n as int);
            let ghost after = doomed@.take(n + 1);
            assert(doomed@.contains(id));
            proof {
                assert(after =~= before.push(id));
                assert forall|k: PlayerId| #[trigger] after.contains(k) <==> before.contains(k) || k
                    == id by {
                    if before.contains(k) {
                        let j = choose|j: int| 0 <= j < before.len() && before[j] == k;
                        assert(after[j] == k);
                    }
                    assert(after[n as int] == id);
                }
            }
            if let Some(mut player) = self.state.players.remove(&id) {
                player.alive = false;
                self.state.players.insert(id, player);
            }
            n = n + 1;
        }
        proof {
            assert(doomed@.take(doomed@.len() as int) =~= doomed@);
            assert(self@.state.players =~= pre.judged().state.players);
        }
    }

    /// Puts a player into the world at a given place and angle.
    pub fn place_player(
        &mut self,
        id: PlayerId,
        x: Binary32,
        z: Binary32,
        rotation_y: Binary32,
    )
        ensures
            final(self)@ == old(self)@.with_player(id, SimView::newcomer(id, x, z, rotation_y)),
            old(self)@.state.players_keyed() ==> final(self)@.state.players_keyed(),
            old(self)@.state.items_keyed() ==> final(self)@.state.items_keyed(),
    {
        let position: Vec3 = Vec3 { x, y: Binary32 { bits: HOVER_HEIGHT }, z };
        let mut train: VecDeque<Vec3> = VecDeque::new();
        train.push_back(position);
        assert(train@ =~= seq![position]);
        let player: PlayerState = PlayerState { id, position, rotation_y, train, alive: true };
        self.state.players.insert(id, player);
        proof {
            assert(player@ == SimView::newcomer(id, x, z, rotation_y));
            assert(self@.state.players =~= old(self)@.state.players.insert(id, player@));
        }
    }

    /// Puts a new player into the world at a random place and angle.
    ///
    /// `draw` gives a random number of the range from its first argument up to
    /// and without its second.
    pub fn add_player<D: Fn(Binary32, Binary32) -> Binary32>(&mut self, draw: &D) -> (id: PlayerId)
        requires
            call_requires(draw, (old(self).cfg.world_size.opposite(), old(self).cfg.world_size)),
            call_requires(draw, (Binary32 { bits: 0 }, Binary32 { bits: FULL_TURN })),
        ensures
            crate::uuids::is_random_uuid(id),
            exists|x: Binary32, z: Binary32, rotation_y: Binary32|
                {
                    let ws = old(self)@.cfg.world_size;
                    &&& call_ensures(draw, (ws.opposite(), ws), x)
                    &&& call_ensures(draw, (ws.opposite(), ws), z)
                    &&& call_ensures(
                        draw,
                        (Binary32 { bits: 0 }, Binary32 { bits: FULL_TURN }),
                        rotation_y,
                    )
                    &&& final(self)@ == old(self)@.with_player(
                        id,
                        #[trigger] SimView::newcomer(id, x, z, rotation_y),
                    )
                },
            old(self)@.state.players_keyed() ==> final(self)@.state.players_keyed(),
            old(self)@.state.items_keyed() ==> final(self)@.state.items_keyed(),
    {
        let id: PlayerId = new_v4();
        let ws: Binary32 = self.cfg.world_size;
        let x: Binary32 = draw(ws.negated(), ws);
        let z: Binary32 = draw(ws.negated(), ws);
        let rotation_y: Binary32 = draw(Binary32 { bits: 0 }, Binary32 { bits: FULL_TURN });
        self.place_player(id, x, z, rotation_y);
        id
    }

    pub fn remove_player(&mut self, id: &PlayerId)
        ensures
            final(self)@ == old(self)@.without_player(*id),
            old(self)@.state.players_keyed() ==> final(self)@.state.players_keyed(),
            old(self)@.state.items_keyed() ==> final(self)@.state.items_keyed(),
    {
        self.state.players.remove(id);
        self.pending_inputs.remove(id);
        assert(self@.state.players =~= old(self)@.state.players.remove(*id));
    }

    pub fn submit_input(&mut self, id: PlayerId, input: TurnInput)
        ensures
            final(self)@ == old(self)@.asked(id, input),
    {
        self.pending_inputs.insert(id, input);
    }

    /// A place brought back into the world.
    pub fn wrap(&self, pos: Vec3) -> (r: Vec3)
        ensures
            r == pos.wrapped(self.cfg.world_size),
    {
        pos.wrap(self.cfg.world_size)
    }

    /// Puts an item on the ground at a given place.
    pub fn place_item(&mut self, id: ItemId, x: Binary32, z: Binary32)
        ensures
            final(self)@ == old(self)@.with_item(SimView::item_at(id, x, z)),
            old(self)@.state.players_keyed() ==> final(self)@.state.players_keyed(),
            old(self)@.state.items_keyed() ==> final(self)@.state.items_keyed(),
    {
        let pos: Vec3 = Vec3 { x, y: Binary32 { bits: ITEM_HEIGHT }, z };
        self.state.items.insert(id, Item { pos, id });
        proof {
            old(self)@.appearing_keeps_keys(id, x, z, Binary32 { bits: 0 });
        }
    }

    /// Puts a new item on the ground at a random place.
    pub fn spawn_item<D: Fn(Binary32, Binary32) -> Binary32>(&mut self, draw: &D)
        requires
            call_requires(draw, (old(self).cfg.world_size.opposite(), old(self).cfg.world_size)),
        ensures
            old(self)@.gains_item(draw, final(self)@),
            old(self)@.state.players_keyed() ==> final(self)@.state.players_keyed(),
            old(self)@.state.items_keyed() ==> final(self)@.state.items_keyed(),
    {
        let ws: Binary32 = self.cfg.world_size;
        let x: Binary32 = draw(ws.negated(), ws);
        let z: Binary32 = draw(ws.negated(), ws);
        let id: ItemId = new_v4();
        self.place_item(id, x, z);
    }

    /// Advances the world by one tick.
    ///
    /// `heading` gives the sine and the cosine of an angle, `draw` a random
    /// number of the range from its first argument up to and without its
    /// second.
    pub fn step<H: Fn(Binary32) -> Heading, D: Fn(Binary32, Binary32) -> Binary32>(
        &mut self,
        heading: &H,
        draw: &D,
    )
        requires
            old(self)@.state.players_keyed(),
            old(self).state.tick < u64::MAX,
            old(self).cfg.item_spawn_every_ticks != 0,
            forall|angle: Binary32| #[trigger] call_requires(heading, (angle,)),
            old(self)@.item_due() ==> call_requires(
                draw,
                (old(self).cfg.world_size.opposite(), old(self).cfg.world_size),
            ),
        ensures
            exists|headings: Map<PlayerId, Heading>, meals: Map<PlayerId, ItemId>|
                {
                    &&& #[trigger] old(self)@.may_tick(heading, headings, meals)
                    &&& if old(self)@.item_due() {
                        old(self)@.ticked(headings, meals).gains_item(draw, final(self)@)
                    } else {
                        final(self)@ == old(self)@.ticked(headings, meals)
                    }
                },
            final(self)@.state.players_keyed(),
            old(self)@.state.items_keyed() ==> final(self)@.state.items_keyed(),
    {
        let ghost pre = self@;
        self.state.tick = self.state.tick + 1;
        proof {
            assert(self@ == pre.counted());
            assert forall|k: PlayerId| pre.counted().lives(k) == #[trigger] pre.lives(k) by {}
            assert forall|k: PlayerId| #[trigger]
                pre.counted().next_rotation(k) == pre.next_rotation(k) by {}
        }
        let headings: Ghost<Map<PlayerId, Heading>> = self.move_players(heading);
        let meals: Ghost<Map<PlayerId, ItemId>> = self.feed_players();
        self.judge_players();
        assert(pre.may_tick(heading, headings@, meals@));
        proof {
            pre.ticking_keeps_keys(headings@, meals@);
        }
        if self.state.tick % self.cfg.item_spawn_every_ticks == 0 {
            self.spawn_item(draw);
        }
    }
}

} // verus!
