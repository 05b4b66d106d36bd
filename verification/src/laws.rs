//! What holds of the simulation as a whole.

use crate::binary32::Binary32;
use crate::rules::Heading;
use crate::sim::SimView;
use crate::world::{ItemId, PlayerId, PlayerView, TurnInput};
use vstd::prelude::*;

verus! {

impl SimView {
    /// Every player alive has a train, if only itself.
    pub open spec fn trained(self) -> bool {
        forall|k: PlayerId| #[trigger] self.lives(k) ==> self.state.players[k].train.len() > 0
    }

    /// A tick leaves every player and every item under its own id.
    pub proof fn ticking_keeps_keys(
        self,
        headings: Map<PlayerId, Heading>,
        meals: Map<PlayerId, ItemId>,
    )
        ensures
            self.state.players_keyed() ==> self.ticked(headings, meals).state.players_keyed(),
            self.state.items_keyed() ==> self.ticked(headings, meals).state.items_keyed(),
    {
        let after = self.ticked(headings, meals);
        if self.state.players_keyed() {
            assert forall|k: PlayerId| #[trigger] after.state.players.contains_key(k) implies
                after.state.players[k].id == k by {
                assert(self.state.players.contains_key(k));
            }
        }
        if self.state.items_keyed() {
            assert forall|i: ItemId| #[trigger] after.state.items.contains_key(i) implies
                after.state.items[i].id == i by {
                assert(self.state.items.contains_key(i));
            }
        }
    }

    /// Nobody joins or leaves in a tick, and the size of the world and the
    /// configuration stay; the tick is counted.
    pub proof fn ticking_keeps_the_frame(
        self,
        headings: Map<PlayerId, Heading>,
        meals: Map<PlayerId, ItemId>,
    )
        requires
            self.state.tick < u64::MAX,
        ensures
            self.ticked(headings, meals).state.players.dom() == self.state.players.dom(),
            self.ticked(headings, meals).state.world_size == self.state.world_size,
            self.ticked(headings, meals).cfg == self.cfg,
            self.ticked(headings, meals).state.tick == self.state.tick + 1,
    {
        assert(self.ticked(headings, meals).state.players.dom() =~= self.state.players.dom());
    }

    /// Collecting makes the train grow: a player alive that comes near an item
    /// has one more cart after the tick, any other keeps as many as it had.
    pub proof fn collecting_grows_the_train(
        self,
        headings: Map<PlayerId, Heading>,
        meals: Map<PlayerId, ItemId>,
        k: PlayerId,
    )
        requires
            self.lives(k),
            self.trained(),
            self.counted().moved(headings).meals_fit(meals),
        ensures
            ({
                let before = self.state.players[k].train.len();
                let after = self.ticked(headings, meals).state.players[k].train.len();
                &&& self.counted().moved(headings).finds_item(k) ==> after == before + 1
                &&& !self.counted().moved(headings).finds_item(k) ==> after == before
            }),
    {
        let moved = self.counted().moved(headings);
        assert(moved.lives(k));
        assert(meals.contains_key(k) <==> moved.finds_item(k));
        assert(moved.state.players[k].train == self.state.players[k].train);
    }

    /// The train leads: after a tick a player alive at its start stands at the
    /// head of its own train, and behind it stand the places of before.
    pub proof fn the_train_follows_its_head(
        self,
        headings: Map<PlayerId, Heading>,
        meals: Map<PlayerId, ItemId>,
        k: PlayerId,
    )
        requires
            self.lives(k),
            self.trained(),
        ensures
            ({
                let before = self.state.players[k];
                let after = self.ticked(headings, meals).state.players[k];
                &&& after.train.len() > 0
                &&& after.train[0] == after.position
                &&& forall|i: int|
                    0 < i < after.train.len() ==> after.train[i] == before.train[i - 1]
            }),
    {
    }

    /// Every player alive keeps a train.
    pub proof fn ticking_keeps_trains(
        self,
        headings: Map<PlayerId, Heading>,
        meals: Map<PlayerId, ItemId>,
    )
        requires
            self.trained(),
        ensures
            self.ticked(headings, meals).trained(),
    {
        let after = self.ticked(headings, meals);
        assert forall|k: PlayerId| #[trigger] after.lives(k) implies
            after.state.players[k].train.len() > 0 by {
            assert(self.lives(k));
            self.the_train_follows_its_head(headings, meals, k);
        }
    }

    /// Collision is death: a player alive before the tick is alive after it
    /// unless it stands near a place of the train of another one that was
    /// alive.
    pub proof fn collision_is_death(
        self,
        headings: Map<PlayerId, Heading>,
        meals: Map<PlayerId, ItemId>,
        k: PlayerId,
    )
        requires
            self.lives(k),
        ensures
            ({
                let after = self.ticked(headings, meals);
                after.lives(k) <==> forall|j: PlayerId|
                    j != k && #[trigger] self.lives(j) ==> !after.state.players[k].hits(
                        after.state.players[j],
                    )
            }),
    {
        let fed = self.counted().moved(headings).fed(meals);
        let after = self.ticked(headings, meals);
        assert(fed.lives(k));
        assert forall|j: PlayerId| self.lives(j) == #[trigger] fed.lives(j) by {}
        assert forall|j: PlayerId| #[trigger] fed.lives(j) implies after.state.players[k].hits(
            after.state.players[j],
        ) == fed.state.players[k].hits(fed.state.players[j]) by {
            assert(after.state.players[k].position == fed.state.players[k].position);
            assert(after.state.players[j].train == fed.state.players[j].train);
        }
        if after.lives(k) {
            assert forall|j: PlayerId| j != k && #[trigger] self.lives(j) implies
                !after.state.players[k].hits(after.state.players[j]) by {
                assert(fed.lives(j));
                assert(!fed.crashes_into(k, j));
            }
        } else {
            let j = choose|j: PlayerId| #[trigger] fed.crashes_into(k, j);
            assert(fed.crashes_into(k, j));
            assert(self.lives(j));
            assert(fed.lives(j));
        }
    }

    /// The dead stay as they are: they neither move nor come back to life.
    pub proof fn the_dead_stay(
        self,
        headings: Map<PlayerId, Heading>,
        meals: Map<PlayerId, ItemId>,
        k: PlayerId,
    )
        requires
            self.state.players.contains_key(k),
            !self.state.players[k].alive,
        ensures
            self.ticked(headings, meals).state.players[k] == self.state.players[k],
    {
    }

    /// A tick uses up the inputs of the players alive and leaves all others.
    pub proof fn ticking_uses_inputs(
        self,
        headings: Map<PlayerId, Heading>,
        meals: Map<PlayerId, ItemId>,
        k: PlayerId,
    )
        ensures
            self.lives(k) ==> self.ticked(headings, meals).input_of(k) is None,
            !self.lives(k) ==> self.ticked(headings, meals).input_of(k) == self.input_of(k),
    {
    }

    /// Of several inputs of a player between two ticks the last one counts.
    pub proof fn the_last_input_counts(self, k: PlayerId, first: TurnInput, last: TurnInput)
        ensures
            self.asked(k, first).asked(k, last) == self.asked(k, last),
            self.asked(k, last).input_of(k) == Some(last),
    {
        assert(self.asked(k, first).asked(k, last) =~= self.asked(k, last));
    }

    /// The input of one player turns nobody else.
    pub proof fn inputs_are_ones_own(self, k: PlayerId, input: TurnInput, other: PlayerId)
        requires
            other != k,
        ensures
            self.asked(k, input).input_of(other) == self.input_of(other),
            self.asked(k, input).next_rotation(other) == self.next_rotation(other),
    {
    }

    /// Where a player alive comes near an item, one that it could collect is
    /// gone after the tick.
    pub proof fn what_is_collected_is_gone(
        self,
        headings: Map<PlayerId, Heading>,
        meals: Map<PlayerId, ItemId>,
        k: PlayerId,
    )
        requires
            self.counted().moved(headings).meals_fit(meals),
            self.lives(k),
            self.counted().moved(headings).finds_item(k),
        ensures
            exists|i: ItemId| #[trigger]
                self.counted().moved(headings).collectable(k, i) && !self.ticked(
                    headings,
                    meals,
                ).state.items.contains_key(i),
    {
        let moved = self.counted().moved(headings);
        assert(moved.lives(k));
        assert(meals.contains_key(k));
        assert(moved.collectable(k, meals[k]));
        assert(SimView::taken(meals, meals[k]));
    }

    /// Items only disappear in a tick, and only where a player alive came near
    /// enough to collect them.
    pub proof fn items_disappear_only_by_collecting(
        self,
        headings: Map<PlayerId, Heading>,
        meals: Map<PlayerId, ItemId>,
        i: ItemId,
    )
        requires
            self.counted().moved(headings).meals_fit(meals),
        ensures
            ({
                let moved = self.counted().moved(headings);
                let after = self.ticked(headings, meals).state.items;
                &&& after.contains_key(i) ==> self.state.items.contains_key(i) && after[i]
                    == self.state.items[i]
                &&& self.state.items.contains_key(i) && !after.contains_key(i) ==> exists|
                    k: PlayerId,
                |
                    #[trigger] moved.lives(k) && moved.collectable(k, i)
            }),
    {
        let moved = self.counted().moved(headings);
        let after = self.ticked(headings, meals).state.items;
        if self.state.items.contains_key(i) && !after.contains_key(i) {
            let k = choose|k: PlayerId| #[trigger] meals.contains_key(k) && meals[k] == i;
            assert(meals.contains_key(k));
            assert(moved.lives(k) && moved.collectable(k, i));
        }
    }

    /// An item that nobody alive is near enough to collect is still there
    /// after the tick.
    pub proof fn items_out_of_reach_stay(
        self,
        headings: Map<PlayerId, Heading>,
        meals: Map<PlayerId, ItemId>,
        i: ItemId,
    )
        requires
            self.counted().moved(headings).meals_fit(meals),
            self.state.items.contains_key(i),
            forall|k: PlayerId| #[trigger]
                self.counted().moved(headings).lives(k) ==> !self.counted().moved(
                    headings,
                ).collectable(k, i),
        ensures
            self.ticked(headings, meals).state.items.contains_key(i),
    {
        self.items_disappear_only_by_collecting(headings, meals, i);
    }

    /// Removing a player that has just been added, before it asked for
    /// anything, restores the simulation.
    pub proof fn removing_undoes_adding(self, k: PlayerId, player: PlayerView)
        requires
            !self.state.players.contains_key(k),
            !self.pending_inputs.contains_key(k),
        ensures
            self.with_player(k, player).without_player(k) == self,
    {
        let back = self.with_player(k, player).without_player(k);
        assert(back.state.players =~= self.state.players);
        assert(back.pending_inputs =~= self.pending_inputs);
    }

    /// The players that are added, and the items, keep the tables in order.
    pub proof fn appearing_keeps_keys(
        self,
        k: PlayerId,
        x: Binary32,
        z: Binary32,
        rotation_y: Binary32,
    )
        ensures
            self.state.players_keyed() ==> {
                &&& self.with_player(
                    k,
                    Self::newcomer(k, x, z, rotation_y),
                ).state.players_keyed()
                &&& self.with_item(Self::item_at(k, x, z)).state.players_keyed()
                &&& self.without_player(k).state.players_keyed()
            },
            self.state.items_keyed() ==> {
                &&& self.with_player(k, Self::newcomer(k, x, z, rotation_y)).state.items_keyed()
                &&& self.with_item(Self::item_at(k, x, z)).state.items_keyed()
                &&& self.without_player(k).state.items_keyed()
            },
    {
    }

    /// A newcomer has a train, so every player alive keeps one.
    pub proof fn appearing_keeps_trains(
        self,
        k: PlayerId,
        x: Binary32,
        z: Binary32,
        rotation_y: Binary32,
    )
        requires
            self.trained(),
        ensures
            self.with_player(k, Self::newcomer(k, x, z, rotation_y)).trained(),
            self.with_item(Self::item_at(k, x, z)).trained(),
            self.without_player(k).trained(),
    {
        let joined = self.with_player(k, Self::newcomer(k, x, z, rotation_y));
        assert forall|j: PlayerId| #[trigger] joined.lives(j) implies
            joined.state.players[j].train.len() > 0 by {
            if j != k {
                assert(self.lives(j));
            }
        }
        let left = self.without_player(k);
        assert forall|j: PlayerId| #[trigger] left.lives(j) implies
            left.state.players[j].train.len() > 0 by {
            assert(self.lives(j));
        }
        let strewn = self.with_item(Self::item_at(k, x, z));
        assert forall|j: PlayerId| #[trigger] strewn.lives(j) implies
            strewn.state.players[j].train.len() > 0 by {
            assert(self.lives(j));
        }
    }

    /// Whether random numbers come from the range asked for, its upper bound
    /// left out.
    pub open spec fn in_range<D: Fn(Binary32, Binary32) -> Binary32>(draw: &D) -> bool {
        forall|low: Binary32, high: Binary32, r: Binary32| #[trigger]
            call_ensures(draw, (low, high), r) ==> low.at_most(r) && r.below(high)
    }

    /// New players and new items stand inside the world, and players look
    /// anywhere within the full turn.
    pub proof fn newcomers_stand_inside<D: Fn(Binary32, Binary32) -> Binary32>(
        self,
        draw: &D,
        id: PlayerId,
        x: Binary32,
        z: Binary32,
        rotation_y: Binary32,
    )
        requires
            Self::in_range(draw),
            call_ensures(draw, (self.cfg.world_size.opposite(), self.cfg.world_size), x),
            call_ensures(draw, (self.cfg.world_size.opposite(), self.cfg.world_size), z),
            call_ensures(
                draw,
                (Binary32 { bits: 0 }, Binary32 { bits: crate::sim::FULL_TURN }),
                rotation_y,
            ),
        ensures
            ({
                let ws = self.cfg.world_size;
                let player = Self::newcomer(id, x, z, rotation_y);
                let item = Self::item_at(id, x, z);
                &&& ws.opposite().at_most(player.position.x) && player.position.x.below(ws)
                &&& ws.opposite().at_most(player.position.z) && player.position.z.below(ws)
                &&& ws.opposite().at_most(item.pos.x) && item.pos.x.below(ws)
                &&& ws.opposite().at_most(item.pos.z) && item.pos.z.below(ws)
                &&& (Binary32 { bits: 0 }).at_most(player.rotation_y)
                &&& player.rotation_y.below(Binary32 { bits: crate::sim::FULL_TURN })
            }),
    {
    }

    /// Nobody leaves the world: after a tick the coordinates of a player that
    /// moved lie between the edges, wherever they are numbers at all.
    pub proof fn players_stay_in_the_world(
        self,
        headings: Map<PlayerId, Heading>,
        meals: Map<PlayerId, ItemId>,
        k: PlayerId,
    )
        requires
            self.lives(k),
            (Binary32 { bits: 0 }).at_most(self.cfg.world_size),
        ensures
            ({
                let ws = self.cfg.world_size;
                let at = self.ticked(headings, meals).state.players[k].position;
                &&& !at.x.nan() ==> ws.opposite().at_most(at.x) && at.x.at_most(ws)
                &&& !at.z.nan() ==> ws.opposite().at_most(at.z) && at.z.at_most(ws)
            }),
    {
        let player = self.state.players[k];
        let place = player.position.moved(
            headings[k],
            self.cfg.player_speed,
            Binary32 { bits: crate::rules::TICK_SECONDS },
        );
        Binary32::wrapping_stays_inside(place.x, self.cfg.world_size);
        Binary32::wrapping_stays_inside(place.z, self.cfg.world_size);
    }
}

impl Binary32 {
    /// A wrapped coordinate lies between the edges of the world, if it is a
    /// number at all.
    pub proof fn wrapping_stays_inside(v: Binary32, world_size: Binary32)
        requires
            (Binary32 { bits: 0 }).at_most(world_size),
        ensures
            v.wrapped(world_size).nan() == v.nan(),
            !v.nan() ==> world_size.opposite().at_most(v.wrapped(world_size)) && v.wrapped(
                world_size,
            ).at_most(world_size),
    {
        Binary32::units_of_zero();
        Binary32::opposite_twice(world_size);
    }

    /// A coordinate between the edges stays where it is.
    pub proof fn wrapping_keeps_what_is_inside(v: Binary32, world_size: Binary32)
        requires
            world_size.opposite().at_most(v),
            v.at_most(world_size),
        ensures
            v.wrapped(world_size) == v,
    {
    }

    /// Wrapping twice does no more than wrapping once.
    pub proof fn wrapping_twice(v: Binary32, world_size: Binary32)
        requires
            (Binary32 { bits: 0 }).at_most(world_size),
        ensures
            v.wrapped(world_size).wrapped(world_size) == v.wrapped(world_size),
    {
        Self::wrapping_stays_inside(v, world_size);
        if !v.nan() {
            Self::wrapping_keeps_what_is_inside(v.wrapped(world_size), world_size);
        }
    }
}

} // verus!
