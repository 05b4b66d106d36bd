//! What a tick does, told from the world before it to the world after it.

use crate::binary32::Binary32;
use crate::history::SimEvent;
use crate::rules::{GameConfig, Heading};
use crate::sim::SimView;
use crate::world::{ItemId, PlayerId, TurnInput, Vec3};
use vstd::prelude::*;

verus! {

impl SimView {
    /// A player alive turns by what it asked for last, looks there, and goes in
    /// that direction at its speed for a tenth of a second; a coordinate past
    /// one edge of the world comes out at the other.
    pub proof fn the_living_turn_and_move<H: Fn(Binary32) -> Heading>(
        self,
        heading: &H,
        headings: Map<PlayerId, Heading>,
        meals: Map<PlayerId, ItemId>,
        k: PlayerId,
    )
        requires
            self.may_tick(heading, headings, meals),
            self.state.players.contains_key(k),
            self.state.players[k].alive,
        ensures
            ({
                let before = self.state.players[k];
                let after = self.ticked(headings, meals).state.players[k];
                let tenth = Binary32 { bits: 0x3dcc_cccd };
                let angle = self.cfg.turn_speed.product(tenth);
                let ws = self.cfg.world_size;
                let x = before.position.x.sum(
                    headings[k].sin.product(self.cfg.player_speed).product(tenth),
                );
                let z = before.position.z.sum(
                    headings[k].cos.product(self.cfg.player_speed).product(tenth),
                );
                &&& self.ticked(headings, meals).state.players.contains_key(k)
                &&& after.id == before.id
                &&& !self.pending_inputs.contains_key(k) ==> after.rotation_y == before.rotation_y
                &&& self.pending_inputs.contains_key(k) ==> match self.pending_inputs[k] {
                    TurnInput::Left => after.rotation_y == before.rotation_y.sum(angle),
                    TurnInput::Right => after.rotation_y == before.rotation_y.difference(angle),
                    TurnInput::Straight => after.rotation_y == before.rotation_y,
                }
                &&& call_ensures(heading, (after.rotation_y,), headings[k])
                &&& after.position.y == (Binary32 { bits: 0x3f00_0000 })
                &&& x.below(ws.opposite()) ==> after.position.x == ws
                &&& !x.below(ws.opposite()) && ws.below(x) ==> after.position.x == ws.opposite()
                &&& !x.below(ws.opposite()) && !ws.below(x) ==> after.position.x == x
                &&& z.below(ws.opposite()) ==> after.position.z == ws
                &&& !z.below(ws.opposite()) && ws.below(z) ==> after.position.z == ws.opposite()
                &&& !z.below(ws.opposite()) && !ws.below(z) ==> after.position.z == z
            }),
    {
        assert(self.lives(k));
        let counted = self.counted();
        assert(counted.lives(k));
        assert(counted.next_rotation(k) == self.next_rotation(k));
        let moved = counted.moved(headings);
        assert(moved.lives(k));
    }

    /// The train of a player alive moves up behind it: the player is its head,
    /// and every other place is the one that stood before it. It gets one
    /// place longer exactly where the player came within 0.7 of an item.
    pub proof fn the_train_moves_up<H: Fn(Binary32) -> Heading>(
        self,
        heading: &H,
        headings: Map<PlayerId, Heading>,
        meals: Map<PlayerId, ItemId>,
        k: PlayerId,
    )
        requires
            self.may_tick(heading, headings, meals),
            self.state.players.contains_key(k),
            self.state.players[k].alive,
        ensures
            ({
                let before = self.state.players[k].train;
                let after = self.ticked(headings, meals).state.players[k];
                let reach = Binary32 { bits: 0x3f33_3333 };
                let found = exists|i: ItemId| #[trigger]
                    self.state.items.contains_key(i) && {
                        let dx = after.position.x.difference(self.state.items[i].pos.x);
                        let dz = after.position.z.difference(self.state.items[i].pos.z);
                        dx.product(dx).sum(dz.product(dz)).at_most(reach.product(reach))
                    };
                &&& found ==> after.train.len() == before.len() + 1
                &&& !found && before.len() > 0 ==> after.train.len() == before.len()
                &&& !found && before.len() == 0 ==> after.train.len() == 1
                &&& after.train[0] == after.position
                &&& forall|i: int|
                    0 < i < after.train.len() ==> #[trigger] after.train[i] == before[i - 1]
            }),
    {
        assert(self.lives(k));
        let moved = self.counted().moved(headings);
        let fed = moved.fed(meals);
        let after = self.ticked(headings, meals).state.players[k];
        let reach = Binary32 { bits: 0x3f33_3333 };
        assert(moved.lives(k));
        assert(moved.state.players[k].position == after.position);
        assert forall|i: ItemId| #[trigger] self.state.items.contains_key(i) implies ({
            let dx = after.position.x.difference(self.state.items[i].pos.x);
            let dz = after.position.z.difference(self.state.items[i].pos.z);
            dx.product(dx).sum(dz.product(dz)).at_most(reach.product(reach))
        }) == moved.collectable(k, i) by {}
        assert(meals.contains_key(k) <==> moved.finds_item(k));
        if moved.finds_item(k) {
            let i = choose|i: ItemId| #[trigger] moved.collectable(k, i);
            assert(self.state.items.contains_key(i));
        }
    }

    /// A player alive dies in a tick exactly where it came within 0.5 of a
    /// place of the train of somebody else who was alive, all of them taken
    /// where they are after moving.
    pub proof fn running_into_a_train_kills(
        self,
        headings: Map<PlayerId, Heading>,
        meals: Map<PlayerId, ItemId>,
        k: PlayerId,
    )
        requires
            self.state.players.contains_key(k),
            self.state.players[k].alive,
        ensures
            ({
                let after = self.ticked(headings, meals).state.players;
                let reach = Binary32 { bits: 0x3f00_0000 };
                !after[k].alive <==> exists|j: PlayerId, i: int|
                    {
                        &&& j != k
                        &&& self.state.players.contains_key(j)
                        &&& self.state.players[j].alive
                        &&& 0 <= i < after[j].train.len()
                        &&& {
                            let dx = after[k].position.x.difference(
                                (#[trigger] after[j].train[i]).x,
                            );
                            let dz = after[k].position.z.difference(after[j].train[i].z);
                            dx.product(dx).sum(dz.product(dz)).at_most(reach.product(reach))
                        }
                    }
            }),
    {
        let after = self.ticked(headings, meals).state.players;
        let reach = Binary32 { bits: 0x3f00_0000 };
        let fed = self.counted().moved(headings).fed(meals);
        assert(fed.lives(k));
        assert forall|j: PlayerId| #[trigger] self.state.players.contains_key(j) implies {
            &&& fed.state.players.contains_key(j)
            &&& fed.state.players[j].alive == self.state.players[j].alive
            &&& after[j].train == fed.state.players[j].train
            &&& after[j].position == fed.state.players[j].position
        } by {}
        if !after[k].alive {
            let j = choose|j: PlayerId| #[trigger] fed.crashes_into(k, j);
            assert(self.state.players.contains_key(j));
            let i = choose|i: int|
                0 <= i < fed.state.players[j].train.len() && fed.state.players[k].position.near(
                    #[trigger] fed.state.players[j].train[i],
                    Binary32 { bits: crate::rules::CRASH_REACH },
                );
            let dx = after[k].position.x.difference(after[j].train[i].x);
            let dz = after[k].position.z.difference(after[j].train[i].z);
            assert(dx.product(dx).sum(dz.product(dz)).at_most(reach.product(reach)));
        }
        assert forall|j: PlayerId, i: int|
            {
                &&& j != k
                &&& self.state.players.contains_key(j)
                &&& self.state.players[j].alive
                &&& 0 <= i < after[j].train.len()
                &&& {
                    let dx = after[k].position.x.difference((#[trigger] after[j].train[i]).x);
                    let dz = after[k].position.z.difference(after[j].train[i].z);
                    dx.product(dx).sum(dz.product(dz)).at_most(reach.product(reach))
                }
            } implies !after[k].alive by {
            assert(fed.state.players[k].position.near(
                fed.state.players[j].train[i],
                Binary32 { bits: crate::rules::CRASH_REACH },
            ));
            assert(fed.crashes_into(k, j));
        }
    }

    /// A tick neither adds nor removes a player, leaves the dead and the
    /// inputs of those not alive as they are, uses up the inputs of the
    /// living, and counts one.
    pub proof fn a_tick_leaves_the_rest(
        self,
        headings: Map<PlayerId, Heading>,
        meals: Map<PlayerId, ItemId>,
        k: PlayerId,
    )
        requires
            self.state.tick < u64::MAX,
        ensures
            ({
                let after = self.ticked(headings, meals);
                let alive = self.state.players.contains_key(k) && self.state.players[k].alive;
                &&& after.state.tick == self.state.tick + 1
                &&& after.state.world_size == self.state.world_size
                &&& after.cfg == self.cfg
                &&& after.state.players.contains_key(k) == self.state.players.contains_key(k)
                &&& self.state.players.contains_key(k) && !self.state.players[k].alive
                    ==> after.state.players[k] == self.state.players[k]
                &&& after.pending_inputs.contains_key(k) <==> self.pending_inputs.contains_key(k)
                    && !alive
                &&& after.pending_inputs.contains_key(k) ==> after.pending_inputs[k]
                    == self.pending_inputs[k]
            }),
    {
    }

    /// Items only go in a tick, and only where somebody alive came within 0.7
    /// of them; whoever came within reach of any takes one of those.
    pub proof fn items_go_to_those_in_reach<H: Fn(Binary32) -> Heading>(
        self,
        heading: &H,
        headings: Map<PlayerId, Heading>,
        meals: Map<PlayerId, ItemId>,
    )
        requires
            self.may_tick(heading, headings, meals),
        ensures
            ({
                let after = self.ticked(headings, meals).state;
                let reach = Binary32 { bits: 0x3f33_3333 };
                let near = |k: PlayerId, i: ItemId|
                    {
                        let dx = after.players[k].position.x.difference(
                            self.state.items[i].pos.x,
                        );
                        let dz = after.players[k].position.z.difference(
                            self.state.items[i].pos.z,
                        );
                        dx.product(dx).sum(dz.product(dz)).at_most(reach.product(reach))
                    };
                &&& forall|i: ItemId| #[trigger]
                    after.items.contains_key(i) ==> self.state.items.contains_key(i)
                        && after.items[i] == self.state.items[i]
                &&& forall|i: ItemId| #[trigger]
                    self.state.items.contains_key(i) && !after.items.contains_key(i) ==> exists|
                        k: PlayerId,
                    |
                        {
                            &&& #[trigger] self.state.players.contains_key(k)
                            &&& self.state.players[k].alive
                            &&& near(k, i)
                        }
                &&& forall|k: PlayerId, i: ItemId|
                    {
                        &&& #[trigger] self.state.players.contains_key(k)
                        &&& self.state.players[k].alive
                        &&& #[trigger] self.state.items.contains_key(i)
                        &&& near(k, i)
                    } ==> exists|j: ItemId|
                        {
                            &&& #[trigger] self.state.items.contains_key(j)
                            &&& near(k, j)
                            &&& !after.items.contains_key(j)
                        }
            }),
    {
        let after = self.ticked(headings, meals).state;
        let reach = Binary32 { bits: 0x3f33_3333 };
        let near = |k: PlayerId, i: ItemId|
            {
                let dx = after.players[k].position.x.difference(self.state.items[i].pos.x);
                let dz = after.players[k].position.z.difference(self.state.items[i].pos.z);
                dx.product(dx).sum(dz.product(dz)).at_most(reach.product(reach))
            };
        let moved = self.counted().moved(headings);
        assert forall|k: PlayerId| #[trigger] self.state.players.contains_key(k) implies {
            &&& moved.state.players.contains_key(k)
            &&& moved.state.players[k].alive == self.state.players[k].alive
            &&& moved.state.players[k].position == after.players[k].position
        } by {}
        assert forall|k: PlayerId, i: ItemId|
            {
                &&& #[trigger] self.state.players.contains_key(k)
                &&& #[trigger] self.state.items.contains_key(i)
            } implies near(k, i) == moved.collectable(k, i) by {}
        assert forall|i: ItemId| #[trigger]
            self.state.items.contains_key(i) && !after.items.contains_key(i) implies exists|
            k: PlayerId,
        |
            {
                &&& #[trigger] self.state.players.contains_key(k)
                &&& self.state.players[k].alive
                &&& near(k, i)
            } by {
            assert(SimView::taken(meals, i));
            let k = choose|k: PlayerId| #[trigger] meals.contains_key(k) && meals[k] == i;
            assert(meals.contains_key(k));
            assert(moved.lives(k) && moved.collectable(k, i));
            assert(self.state.players.contains_key(k));
        }
        assert forall|k: PlayerId, i: ItemId|
            {
                &&& #[trigger] self.state.players.contains_key(k)
                &&& self.state.players[k].alive
                &&& #[trigger] self.state.items.contains_key(i)
                &&& near(k, i)
            } implies exists|j: ItemId|
            {
                &&& #[trigger] self.state.items.contains_key(j)
                &&& near(k, j)
                &&& !after.items.contains_key(j)
            } by {
            assert(moved.collectable(k, i));
            assert(moved.lives(k) && moved.finds_item(k));
            assert(meals.contains_key(k));
            let j = meals[k];
            assert(moved.collectable(k, j));
            assert(self.state.items.contains_key(j));
            assert(SimView::taken(meals, j));
        }
    }

    /// An item appears on a tick exactly when the number of the tick is a
    /// multiple of the period.
    pub proof fn items_come_on_multiples(self, n: int)
        requires
            self.cfg.item_spawn_every_ticks > 0,
        ensures
            ({
                let every = self.cfg.item_spawn_every_ticks as int;
                let next = self.state.tick + 1;
                &&& next == n * every ==> self.item_due()
                &&& n * every < next < (n + 1) * every ==> !self.item_due()
                &&& self.item_due() ==> exists|m: int| next == #[trigger] (m * every)
            }),
    {
        let every = self.cfg.item_spawn_every_ticks as int;
        let next = self.state.tick + 1;
        vstd::arithmetic::div_mod::lemma_fundamental_div_mod(next, every);
        vstd::arithmetic::mul::lemma_mul_is_commutative(every, next / every);
        if next == n * every {
            vstd::arithmetic::div_mod::lemma_mod_multiples_basic(n, every);
        }
        if n * every < next < (n + 1) * every && self.item_due() {
            let m = next / every;
            assert(m * every == next);
            assert(false) by (nonlinear_arith)
                requires
                    n * every < m * every < (n + 1) * every,
                    every > 0,
            ;
        }
        if self.item_due() {
            assert(next == (next / every) * every);
        }
    }

    /// How many of several events are ticks.
    pub open spec fn ticks_in(events: Seq<SimEvent>) -> nat
        decreases events.len(),
    {
        if events.len() == 0 {
            0
        } else {
            Self::ticks_in(events.drop_last()) + if events.last() is Tick {
                1nat
            } else {
                0nat
            }
        }
    }

    /// On how many of several events an item appeared.
    pub open spec fn items_in(events: Seq<SimEvent>) -> nat
        decreases events.len(),
    {
        if events.len() == 0 {
            0
        } else {
            Self::items_in(events.drop_last()) + match events.last() {
                SimEvent::Tick { item: Some(_), .. } => 1nat,
                _ => 0nat,
            }
        }
    }

    /// Items keep their period: whatever happens, as many appear as there are
    /// multiples of the period among the ticks that pass; so over `n` periods
    /// exactly `n` items appear.
    pub proof fn items_keep_their_period(self, events: Seq<SimEvent>, n: nat)
        requires
            self.cfg.item_spawn_every_ticks > 0,
            self.can_meet_all(events),
        ensures
            ({
                let every = self.cfg.item_spawn_every_ticks as int;
                let last = self.after(events).state.tick as int;
                &&& self.after(events).cfg == self.cfg
                &&& last == self.state.tick + Self::ticks_in(events)
                &&& Self::items_in(events) == last / every - self.state.tick as int / every
                &&& Self::ticks_in(events) == n * every ==> Self::items_in(events) == n
            }),
        decreases events.len(),
    {
        let every = self.cfg.item_spawn_every_ticks as int;
        let first = self.state.tick as int;
        if events.len() > 0 {
            let before = self.after(events.drop_last());
            self.items_keep_their_period(events.drop_last(), n);
            let t = before.state.tick as int;
            let q = t / every;
            let r = t % every;
            vstd::arithmetic::div_mod::lemma_fundamental_div_mod(t, every);
            vstd::arithmetic::div_mod::lemma_mod_bound(t, every);
            vstd::arithmetic::mul::lemma_mul_is_commutative(every, q);
            if r + 1 == every {
                assert(t + 1 == (q + 1) * every) by (nonlinear_arith)
                    requires
                        t == q * every + r,
                        r + 1 == every,
                ;
                vstd::arithmetic::div_mod::lemma_fundamental_div_mod_converse(
                    t + 1,
                    every,
                    q + 1,
                    0,
                );
            } else {
                vstd::arithmetic::div_mod::lemma_fundamental_div_mod_converse(
                    t + 1,
                    every,
                    q,
                    r + 1,
                );
            }
        }
        if Self::ticks_in(events) == n * every {
            let q = first / every;
            let r = first % every;
            vstd::arithmetic::div_mod::lemma_fundamental_div_mod(first, every);
            vstd::arithmetic::div_mod::lemma_mod_bound(first, every);
            assert(first + n * every == (q + n) * every + r) by (nonlinear_arith)
                requires
                    first == every * q + r,
            ;
            vstd::arithmetic::div_mod::lemma_fundamental_div_mod_converse(
                first + n * every,
                every,
                q + n,
                r,
            );
        }
    }

    /// An item that appears lies at height 0.3 at a place that was drawn
    /// between the edges, and changes nothing else.
    pub proof fn an_item_appears<D: Fn(Binary32, Binary32) -> Binary32>(
        self,
        draw: &D,
        after: SimView,
    )
        requires
            self.gains_item(draw, after),
        ensures
            exists|id: ItemId|
                {
                    let ws = self.cfg.world_size;
                    let item = after.state.items[id];
                    &&& #[trigger] after.state.items.contains_key(id)
                    &&& crate::uuids::is_random_uuid(id)
                    &&& item.id == id
                    &&& item.pos.y == (Binary32 { bits: 0x3e99_999a })
                    &&& call_ensures(draw, (ws.opposite(), ws), item.pos.x)
                    &&& call_ensures(draw, (ws.opposite(), ws), item.pos.z)
                    &&& forall|i: ItemId| #[trigger]
                        after.state.items.contains_key(i) <==> i == id
                            || self.state.items.contains_key(i)
                    &&& forall|i: ItemId| #[trigger]
                        after.state.items.contains_key(i) && i != id ==> after.state.items[i]
                            == self.state.items[i]
                },
            after.state.players == self.state.players,
            after.state.tick == self.state.tick,
            after.state.world_size == self.state.world_size,
            after.cfg == self.cfg,
            after.pending_inputs == self.pending_inputs,
    {
        let ws = self.cfg.world_size;
        let (id, x, z) = choose|id: ItemId, x: Binary32, z: Binary32|
            {
                &&& crate::uuids::is_random_uuid(id)
                &&& call_ensures(draw, (ws.opposite(), ws), x)
                &&& call_ensures(draw, (ws.opposite(), ws), z)
                &&& after == self.with_item(#[trigger] Self::item_at(id, x, z))
            };
        assert(after.state.items.contains_key(id));
    }

    /// A player that joins hovers alive at the place that was drawn, is all of
    /// its train, and nobody else is changed.
    pub proof fn a_player_joins(
        self,
        id: PlayerId,
        x: Binary32,
        z: Binary32,
        rotation_y: Binary32,
        other: PlayerId,
    )
        ensures
            ({
                let after = self.with_player(id, Self::newcomer(id, x, z, rotation_y));
                let player = after.state.players[id];
                &&& after.state.players.contains_key(id)
                &&& player.id == id
                &&& player.alive
                &&& player.rotation_y == rotation_y
                &&& player.position.x == x
                &&& player.position.y == (Binary32 { bits: 0x3f00_0000 })
                &&& player.position.z == z
                &&& player.train.len() == 1
                &&& player.train[0] == player.position
                &&& other != id ==> {
                    &&& after.state.players.contains_key(other)
                        == self.state.players.contains_key(other)
                    &&& after.state.players[other] == self.state.players[other]
                }
                &&& after.state.items == self.state.items
                &&& after.state.tick == self.state.tick
                &&& after.state.world_size == self.state.world_size
                &&& after.cfg == self.cfg
                &&& after.pending_inputs == self.pending_inputs
            }),
    {
    }

    /// A player that leaves takes its input along, and nothing else changes.
    pub proof fn a_player_leaves(self, id: PlayerId, other: PlayerId)
        ensures
            ({
                let after = self.without_player(id);
                &&& !after.state.players.contains_key(id)
                &&& !after.pending_inputs.contains_key(id)
                &&& other != id ==> {
                    &&& after.state.players.contains_key(other)
                        == self.state.players.contains_key(other)
                    &&& self.state.players.contains_key(other) ==> after.state.players[other]
                        == self.state.players[other]
                    &&& after.pending_inputs.contains_key(other)
                        == self.pending_inputs.contains_key(other)
                    &&& self.pending_inputs.contains_key(other) ==> after.pending_inputs[other]
                        == self.pending_inputs[other]
                }
                &&& after.state.items == self.state.items
                &&& after.state.tick == self.state.tick
                &&& after.state.world_size == self.state.world_size
                &&& after.cfg == self.cfg
            }),
    {
    }

    /// An input is kept for its player until the tick; nothing else changes.
    pub proof fn an_input_is_kept(self, id: PlayerId, input: TurnInput, other: PlayerId)
        ensures
            ({
                let after = self.asked(id, input);
                &&& after.pending_inputs.contains_key(id)
                &&& after.pending_inputs[id] == input
                &&& other != id ==> {
                    &&& after.pending_inputs.contains_key(other)
                        == self.pending_inputs.contains_key(other)
                    &&& after.pending_inputs[other] == self.pending_inputs[other]
                }
                &&& after.state == self.state
                &&& after.cfg == self.cfg
            }),
    {
    }

    /// A new world is empty and as large as configured.
    pub proof fn a_world_begins(cfg: GameConfig, id: u128)
        ensures
            !Self::fresh(cfg).state.players.contains_key(id),
            !Self::fresh(cfg).state.items.contains_key(id),
            !Self::fresh(cfg).pending_inputs.contains_key(id),
            Self::fresh(cfg).state.tick == 0,
            Self::fresh(cfg).state.world_size == cfg.world_size,
            Self::fresh(cfg).cfg == cfg,
    {
    }
}

impl Vec3 {
    /// Past one edge a coordinate comes out at the other, between them it stays
    /// what it is, and the height stays in any case.
    pub proof fn edges_lead_to_each_other(self, world_size: Binary32)
        ensures
            ({
                let after = self.wrapped(world_size);
                let low = world_size.opposite();
                &&& after.y == self.y
                &&& self.x.below(low) ==> after.x == world_size
                &&& !self.x.below(low) && world_size.below(self.x) ==> after.x == low
                &&& !self.x.below(low) && !world_size.below(self.x) ==> after.x == self.x
                &&& self.z.below(low) ==> after.z == world_size
                &&& !self.z.below(low) && world_size.below(self.z) ==> after.z == low
                &&& !self.z.below(low) && !world_size.below(self.z) ==> after.z == self.z
            }),
    {
    }

    /// Whether two places are near does not depend on their heights, nor on
    /// which of them is asked.
    pub proof fn nearness_is_mutual(self, other: Vec3, reach: Binary32, y: Binary32)
        requires
            self.x.finite(),
            self.z.finite(),
            other.x.finite(),
            other.z.finite(),
        ensures
            self.near(other, reach) == other.near(self, reach),
            self.near(Vec3 { y, ..other }, reach) == self.near(other, reach),
            (Vec3 { y, ..self }).near(other, reach) == self.near(other, reach),
    {
        Binary32::opposite_twice(self.x);
        Binary32::opposite_twice(self.z);
        Binary32::opposite_twice(other.x);
        Binary32::opposite_twice(other.z);
        let dx = self.x.difference(other.x);
        let dz = self.z.difference(other.z);
        assert(dx.magnitude() == other.x.difference(self.x).magnitude());
        assert(dz.magnitude() == other.z.difference(self.z).magnitude());
    }
}

} // verus!
