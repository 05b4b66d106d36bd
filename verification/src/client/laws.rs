//! What holds of the client as a whole.

use crate::binary32::Binary32;
use crate::client::color::{CartColor, BRIGHTENING, BYTE_MAX, DIMMEST};
use crate::client::reconcile::{CORRECTION, HALF_TURN};
use crate::client::scene::{CartAction, CartKey, Entity, ItemAction, PlayerAction, Role};
use crate::client::session::{LocalView, SessionView};
use crate::client::timer::{Timer, TimerMode};
use crate::rules::{GameConfig, Heading};
use crate::sim::FULL_TURN;
use crate::world::{ItemId, PlayerId, PlayerView, ServerToClient, TurnInput, WorldView};
use vstd::arithmetic::power2::*;
use vstd::prelude::*;

verus! {

impl Binary32 {
    proof fn correction_is_less_than_a_quarter()
        ensures
            0 < (Binary32 { bits: CORRECTION }).value(),
            4 * (Binary32 { bits: CORRECTION }).value() < pow2(149),
    {
        let m = (Binary32 { bits: CORRECTION }).magnitude();
        assert(Self::significand(m) == 0xcc_cccd);
        assert(Self::scale(m) == 123);
        lemma_pow2_pos(123);
        lemma_pow2_adds(123, 26);
        lemma2_to64();
        assert(4 * (0xcc_cccd * pow2(123)) < pow2(123) * 0x400_0000) by (nonlinear_arith)
            requires
                pow2(123) > 0,
        ;
        assert(0 < 0xcc_cccd * pow2(123)) by (nonlinear_arith)
            requires
                pow2(123) > 0,
        ;
    }

    /// Correcting moves a coordinate toward the server's and never past it,
    /// wherever their distance is a number.
    pub proof fn nudging_approaches(self, target: Binary32)
        requires
            self.finite(),
            target.finite(),
            target.difference(self).finite(),
        ensures
            self.at_most(target) ==> self.at_most(self.nudged(target)) && self.nudged(
                target,
            ).at_most(target),
            target.at_most(self) ==> target.at_most(self.nudged(target)) && self.nudged(
                target,
            ).at_most(self),
    {
        let e = target.value() - self.value();
        let d = target.difference(self);
        let c = Binary32 { bits: CORRECTION };
        let p = d.product(c);
        let one = pow2(149) as int;
        Self::opposite_twice(self);
        Self::sum_at_most_doubles(target, self.opposite());
        Self::product_at_most_doubles(d, c);
        Self::correction_is_less_than_a_quarter();
        lemma_pow2_pos(149);
        let dv = d.value();
        let cv = c.value();
        let pv = p.value();
        if e >= 0 {
            assert(0 <= dv * cv && 2 * (dv * cv) <= dv * one && 2 * (dv * cv) <= e * one)
                by (nonlinear_arith)
                requires
                    0 <= dv <= 2 * e,
                    0 < cv,
                    4 * cv < one,
            ;
            assert(0 <= pv <= e && pv <= dv) by (nonlinear_arith)
                requires
                    0 <= pv * one <= e * one,
                    pv * one <= dv * one,
                    one > 0,
            ;
        } else {
            assert(dv * cv <= 0 && 2 * (dv * cv) >= dv * one && 2 * (dv * cv) >= e * one)
                by (nonlinear_arith)
                requires
                    2 * e <= dv <= 0,
                    0 < cv,
                    4 * cv < one,
            ;
            assert(e <= pv <= 0 && dv <= pv) by (nonlinear_arith)
                requires
                    e * one <= pv * one <= 0,
                    dv * one <= pv * one,
                    one > 0,
            ;
        }
        assert(p.finite()) by {
            if p.magnitude() > d.magnitude() {
                Self::units_increase(d.magnitude(), p.magnitude());
            }
        }
        if e >= 0 {
            Self::sum_stays_between(self, p, self, target);
        }
        if e <= 0 {
            Self::sum_stays_between(self, p, target, self);
        }
    }
}

/// One, as a magnitude.
spec fn one() -> nat {
    0x3f80_0000
}

proof fn units_of_one()
    ensures
        Binary32::units(one()) == pow2(149),
{
    assert(Binary32::significand(one()) == 0x80_0000);
    assert(Binary32::scale(one()) == 126);
    lemma_pow2_adds(23, 126);
    lemma2_to64();
}

proof fn channel_constants()
    ensures
        Binary32::units(BYTE_MAX as nat) == 255 * pow2(149),
        Binary32::units(BRIGHTENING as nat) + Binary32::units(DIMMEST as nat) == pow2(149),
{
    assert(Binary32::significand(BYTE_MAX as nat) == 0xff_0000);
    assert(Binary32::scale(BYTE_MAX as nat) == 133);
    assert(Binary32::significand(BRIGHTENING as nat) == 0xb3_3333);
    assert(Binary32::scale(BRIGHTENING as nat) == 125);
    assert(Binary32::significand(DIMMEST as nat) == 0x99_999a);
    assert(Binary32::scale(DIMMEST as nat) == 124);
    lemma_pow2_adds(16, 133);
    lemma_pow2_adds(1, 124);
    lemma_pow2_adds(24, 125);
    lemma2_to64();
}

impl CartColor {
    /// The channels of every color lie between 0.3 and 1.
    pub proof fn carts_are_bright(byte: u8)
        ensures
            (Binary32 { bits: DIMMEST }).at_most(Self::channel(byte)),
            Self::channel(byte).at_most(Binary32 { bits: 0x3f80_0000 }),
    {
        let full = Binary32 { bits: BYTE_MAX };
        let more = Binary32 { bits: BRIGHTENING };
        let least = Binary32 { bits: DIMMEST };
        let zero = Binary32 { bits: 0 };
        let most = Binary32 { bits: 0x3f80_0000 };
        let n = Binary32::of_int(byte as int);
        let q = n.quotient(full);
        let p = q.product(more);
        let one_units = pow2(149);
        units_of_one();
        channel_constants();
        lemma_pow2_pos(149);
        Binary32::units_of_zero();
        assert(0 <= byte * one_units <= 255 * one_units) by (nonlinear_arith)
            requires
                0 <= byte <= 255,
        ;
        // The byte as a number is at most 255.
        Binary32::nearest_of_units(BYTE_MAX as nat);
        Binary32::nearest_is_monotone(
            ((byte as nat) * one_units) as nat,
            (255 * one_units) as nat,
            1,
        );
        assert(n.at_most(full)) by {
            if n.magnitude() < full.magnitude() {
                Binary32::units_increase(n.magnitude(), full.magnitude());
            }
        }
        // Its share of 255 is at most one.
        Binary32::quotient_is_monotone(n, full, full);
        let u = Binary32::units(full.magnitude());
        Binary32::units_increase(0, full.magnitude());
        Binary32::nearest_scales(one_units, 1, u);
        assert(one_units * u == u * one_units) by (nonlinear_arith);
        assert(1 * u == u);
        Binary32::nearest_of_units(one());
        assert(full.quotient(full) == most);
        assert(q.finite()) by {
            if most.magnitude() < q.magnitude() {
                Binary32::units_increase(most.magnitude(), q.magnitude());
            }
        }
        // Seven tenths of that are at most 0.7.
        Binary32::product_is_monotone(q, most, more);
        let v = Binary32::units(more.magnitude());
        Binary32::nearest_scales(v, 1, one_units);
        assert(one_units * v == v * one_units) by (nonlinear_arith);
        assert(1 * one_units == one_units);
        Binary32::nearest_of_units(more.magnitude());
        assert(most.product(more) == more);
        Binary32::product_at_most_doubles(q, more);
        assert(0 <= q.value() * more.value()) by (nonlinear_arith)
            requires
                0 <= q.value(),
                0 <= more.value(),
        ;
        assert(0 <= p.value()) by (nonlinear_arith)
            requires
                0 <= p.value() * one_units,
                one_units > 0,
        ;
        assert(p.finite()) by {
            if more.magnitude() < p.magnitude() {
                Binary32::units_increase(more.magnitude(), p.magnitude());
            }
        }
        Binary32::sum_stays_between(p, least, least, most);
    }
}

proof fn turn_constants()
    ensures
        Binary32::units(FULL_TURN as nat) == 2 * Binary32::units(HALF_TURN as nat),
        Binary32::units(0x7f80_0000) - Binary32::units(0x7f7f_ffff) > 2 * Binary32::units(
            HALF_TURN as nat,
        ),
{
    assert(Binary32::significand(HALF_TURN as nat) == 0xc9_0fdb);
    assert(Binary32::scale(HALF_TURN as nat) == 127);
    assert(Binary32::significand(FULL_TURN as nat) == 0xc9_0fdb);
    assert(Binary32::scale(FULL_TURN as nat) == 128);
    lemma_pow2_unfold(128);
    assert(Binary32::significand(0x7f7f_ffff) == 0xff_ffff);
    assert(Binary32::scale(0x7f7f_ffff) == 253);
    assert(Binary32::significand(0x7f80_0000) == 0x80_0000);
    assert(Binary32::scale(0x7f80_0000) == 254);
    lemma_pow2_unfold(254);
    lemma_pow2_pos(127);
    lemma_pow2_adds(127, 126);
    lemma_pow2_adds(25, 101);
    lemma_pow2_pos(101);
    lemma2_to64();
    assert(pow2(126) >= 0x200_0000);
    assert(2 * (0xc9_0fdb * pow2(127)) < pow2(127) * pow2(126)) by (nonlinear_arith)
        requires
            pow2(126) >= 0x200_0000,
            pow2(127) > 0,
    ;
}

impl Binary32 {
    pub(crate) proof fn half_a_turn_more_is_finite(self)
        requires
            self.finite(),
        ensures
            self.sum(Binary32 { bits: HALF_TURN }).finite(),
    {
        let half = Binary32 { bits: HALF_TURN };
        let exact = self.value() + half.value();
        let size = if exact < 0 { (-exact) as nat } else { exact as nat };
        let top = Self::units(0x7f7f_ffff) + Self::units(HALF_TURN as nat);
        turn_constants();
        assert(size <= top) by {
            if self.magnitude() < 0x7f7f_ffff {
                Self::units_increase(self.magnitude(), 0x7f7f_ffff);
            }
        }
        Self::nearest_is_monotone(size, top, 1);
        Self::nearest_is_closest(top, 1, 0x7f7f_ffff);
        assert(Self::units(0x7f7f_ffff) * 1 == Self::units(0x7f7f_ffff));
        assert(Self::units(0x7f80_0000) * 1 == Self::units(0x7f80_0000));
        assert(Self::nearest(top, 1) <= 0x7f7f_ffff);
    }

    /// A difference of angles, with full turns taken off or added, is at most
    /// half a turn either way.
    pub proof fn turns_are_short(self)
        requires
            self.finite(),
        ensures
            (Binary32 { bits: HALF_TURN }).opposite().at_most(self.turn_difference()),
            self.turn_difference().at_most(Binary32 { bits: HALF_TURN }),
    {
        let zero = Binary32 { bits: 0 };
        let half = Binary32 { bits: HALF_TURN };
        let full = Binary32 { bits: FULL_TURN };
        let moved = self.sum(half);
        let rest = moved.modulo(full);
        turn_constants();
        self.half_a_turn_more_is_finite();
        Self::opposite_twice(half);
        Self::units_of_zero();
        Self::units_increase(0, full.magnitude());
        let r = Self::units(moved.magnitude()) % Self::units(full.magnitude());
        vstd::arithmetic::div_mod::lemma_mod_bound(
            Self::units(moved.magnitude()) as int,
            Self::units(full.magnitude()) as int,
        );
        Self::nearest_is_monotone(r, Self::units(full.magnitude()), 1);
        Self::nearest_of_units(full.magnitude());
        let m = Self::nearest(r, 1);
        if m < full.magnitude() {
            Self::units_increase(m, full.magnitude());
        }
        let positive = if rest.below(zero) {
            Self::sum_stays_between(rest, full, zero, full);
            rest.sum(full)
        } else {
            rest
        };
        assert(zero.at_most(positive) && positive.at_most(full));
        assert(positive.finite()) by {
            if full.magnitude() < positive.magnitude() {
                Self::units_increase(full.magnitude(), positive.magnitude());
            }
            if positive.negative() && positive.magnitude() > 0 {
                Self::units_increase(0, positive.magnitude());
            }
        }
        Self::sum_stays_between(positive, half.opposite(), half.opposite(), half);
    }

    /// A number moved into a range lies in it, if it is a number at all.
    pub proof fn held_in_range(self, low: Binary32, high: Binary32)
        requires
            low.at_most(high),
        ensures
            self.within(low, high).nan() == self.nan(),
            !self.nan() ==> low.at_most(self.within(low, high)) && self.within(low, high).at_most(
                high,
            ),
    {
    }
}

impl PlayerView {
    /// The client shows its player between the edges of the world, wherever
    /// its coordinates are numbers at all, at the head of a train of the
    /// length it had; a train that there was none of gets its head.
    pub proof fn prediction_stays_in_the_world(
        self,
        turn: TurnInput,
        heading: Heading,
        dt: Binary32,
        cfg: GameConfig,
    )
        requires
            cfg.low_edge().at_most(cfg.high_edge()),
        ensures
            ({
                let after = self.predicted(turn, heading, dt, cfg);
                let x = after.position.x;
                let z = after.position.z;
                &&& !x.nan() ==> cfg.low_edge().at_most(x) && x.at_most(cfg.high_edge())
                &&& !z.nan() ==> cfg.low_edge().at_most(z) && z.at_most(cfg.high_edge())
                &&& after.train.len() == if self.train.len() == 0 {
                    1
                } else {
                    self.train.len()
                }
                &&& after.train[0] == after.position
            }),
    {
        let place = self.position.moved(heading, cfg.player_speed, dt);
        place.x.held_in_range(cfg.low_edge(), cfg.high_edge());
        place.z.held_in_range(cfg.low_edge(), cfg.high_edge());
    }

    /// After a correction the player is alive if the server says so, and its
    /// train is as long as the server's.
    pub proof fn the_server_decides(self, server: PlayerView)
        ensures
            self.corrected(server).alive == server.alive,
            self.corrected(server).train.len() == server.train.len(),
            self.corrected(server).id == self.id,
    {
    }
}

impl LocalView {
    /// A world that is no newer than the last one changes nothing; so taking
    /// the same world twice does no more than taking it once.
    pub proof fn old_worlds_change_nothing(self, id: PlayerId, world: WorldView)
        ensures
            world.tick <= self.last_server_tick ==> self.reconciled(id, world) == self,
            self.reconciled(id, world).reconciled(id, world) == self.reconciled(id, world),
    {
    }

    /// The tick of the server never goes back.
    pub proof fn ticks_never_go_back(self, id: PlayerId, world: WorldView)
        ensures
            self.last_server_tick <= self.reconciled(id, world).last_server_tick,
    {
    }

    /// After a newer world all other players and all items are as the server
    /// says, and nobody else is there.
    pub proof fn the_rest_is_the_servers(self, id: PlayerId, world: WorldView, other: PlayerId)
        requires
            self.last_server_tick < world.tick,
        ensures
            ({
                let after = self.reconciled(id, world).sim.state;
                &&& after.items == world.items
                &&& after.players.dom() == world.players.dom()
                &&& other != id && world.players.contains_key(other) ==> after.players[other]
                    == world.players[other]
            }),
    {
        let after = self.reconciled(id, world).sim.state;
        assert(after.players.dom() =~= world.players.dom());
    }

    /// A player that comes back to life is taken from the server as it is.
    pub proof fn respawning_takes_the_servers_word(self, id: PlayerId, world: WorldView)
        requires
            self.last_server_tick < world.tick,
            self.sim.state.players.contains_key(id),
            !self.sim.state.players[id].alive,
            world.players.contains_key(id),
            world.players[id].alive,
        ensures
            self.reconciled(id, world).sim.state.players[id] == world.players[id],
    {
    }

    /// Worlds in which everything stands under its own id are kept so.
    pub proof fn reconciling_keeps_keys(self, id: PlayerId, world: WorldView)
        requires
            self.sim.state.keyed(),
            world.keyed(),
        ensures
            self.reconciled(id, world).sim.state.keyed(),
            LocalView::started(id, world.world_size).sim.state.keyed(),
    {
    }
}

impl SessionView {
    /// Only the last welcome counts.
    pub proof fn the_last_welcome_counts(
        self,
        first: PlayerId,
        first_size: Binary32,
        last: PlayerId,
        last_size: Binary32,
    )
        ensures
            self.welcomed(first, first_size).welcomed(last, last_size) == self.welcomed(
                last,
                last_size,
            ),
    {
    }

    /// It does not matter in how many batches messages are taken.
    pub proof fn batches_do_not_matter(
        self,
        first: Seq<ServerToClient>,
        later: Seq<ServerToClient>,
    )
        ensures
            self.received_all(first + later) == self.received_all(first).received_all(
                later,
            ),
        decreases later.len(),
    {
        if later.len() == 0 {
            assert(first + later =~= first);
        } else {
            assert((first + later).drop_last() =~= first + later.drop_last());
            self.batches_do_not_matter(first, later.drop_last());
        }
    }

    /// A world that came before a welcome is forgotten.
    pub proof fn a_welcome_starts_over(self, world: WorldView, id: PlayerId, size: Binary32)
        ensures
            self.informed(world).welcomed(id, size) == self.welcomed(id, size),
            self.welcomed(id, size).reconciled() == self.welcomed(id, size),
    {
    }
}

impl Timer {
    /// The timer after several frames.
    pub open spec fn after(self, deltas: Seq<u64>) -> Timer
        decreases deltas.len(),
    {
        if deltas.len() == 0 {
            self
        } else {
            self.after(deltas.drop_last()).ticked(deltas.last())
        }
    }

    /// In how many of several frames the timer finished.
    pub open spec fn firings(self, deltas: Seq<u64>) -> nat
        decreases deltas.len(),
    {
        if deltas.len() == 0 {
            0
        } else {
            self.firings(deltas.drop_last()) + if self.after(deltas).times_finished > 0 {
                1nat
            } else {
                0nat
            }
        }
    }

    /// The time that several frames take.
    pub open spec fn total(deltas: Seq<u64>) -> nat
        decreases deltas.len(),
    {
        if deltas.len() == 0 {
            0
        } else {
            Self::total(deltas.drop_last()) + deltas.last() as nat
        }
    }

    proof fn firings_and_rest(self, deltas: Seq<u64>)
        requires
            self.mode == TimerMode::Repeating,
            0 < self.duration,
            self.elapsed < self.duration,
        ensures
            ({
                let after = self.after(deltas);
                &&& after.mode == self.mode
                &&& after.duration == self.duration
                &&& after.elapsed < self.duration
                &&& self.firings(deltas) * self.duration + after.elapsed <= self.elapsed
                    + Self::total(deltas)
            }),
        decreases deltas.len(),
    {
        if deltas.len() > 0 {
            let before = self.after(deltas.drop_last());
            let n = self.firings(deltas.drop_last());
            let d = self.duration as int;
            self.firings_and_rest(deltas.drop_last());
            let sum = before.elapsed + deltas.last();
            vstd::arithmetic::div_mod::lemma_fundamental_div_mod(sum, d);
            vstd::arithmetic::div_mod::lemma_mod_bound(sum, d);
            assert((n + 1) * d == n * d + d) by (nonlinear_arith);
            if sum >= d {
                assert(sum % d + d <= sum) by (nonlinear_arith)
                    requires
                        sum == d * (sum / d) + sum % d,
                        0 <= sum % d < d,
                        sum >= d,
                        d > 0,
                ;
            }
            let after = self.after(deltas);
            assert(after == before.ticked(deltas.last()));
            assert(after.elapsed == if sum < d { sum } else { sum % d });
            assert(self.firings(deltas) * self.duration <= n * d + if sum < d { 0 } else { d });
        } else {
            assert(0 * self.duration == 0);
        }
    }

    /// A repeating timer keeps its rate: however the frames fall, it finishes
    /// in no more of them than its duration fits into the time that passed.
    pub proof fn the_rate_is_kept(duration: u64, deltas: Seq<u64>)
        requires
            0 < duration,
        ensures
            Self::fresh(duration, TimerMode::Repeating).firings(deltas) * duration <= Self::total(
                deltas,
            ),
    {
        Self::fresh(duration, TimerMode::Repeating).firings_and_rest(deltas);
    }
}

impl WorldView {
    /// How a player is shown once what must be done is done; a player that was
    /// not shown is then shown as `spawned`.
    pub open spec fn player_shown(
        self,
        id: PlayerId,
        role: Role,
        entity: Option<Entity>,
        spawned: Entity,
    ) -> Option<Entity> {
        match self.player_action(id, role, entity) {
            Some(PlayerAction::Spawn { .. }) => Some(spawned),
            Some(PlayerAction::Despawn { .. }) => None,
            _ => entity,
        }
    }

    /// How an item is shown once what must be done is done.
    pub open spec fn item_shown(self, id: ItemId, entity: Option<Entity>, spawned: Entity) -> Option<
        Entity,
    > {
        match self.item_action(id, entity) {
            Some(ItemAction::Spawn { .. }) => Some(spawned),
            Some(ItemAction::Despawn { .. }) => None,
            _ => entity,
        }
    }

    /// How a cart is shown once what must be done is done.
    pub open spec fn cart_shown(self, key: CartKey, entity: Option<Entity>, spawned: Entity) -> Option<
        Entity,
    > {
        match self.cart_action(key, entity) {
            Some(CartAction::Spawn { .. }) => Some(spawned),
            Some(CartAction::Despawn { .. }) => None,
            None => entity,
        }
    }

    /// Exactly the players alive are shown, and doing what must be done leaves
    /// nobody to appear or to go. The client's own players are left out where
    /// the world does not know them: those are not taken away.
    pub proof fn the_living_are_shown(
        self,
        id: PlayerId,
        role: Role,
        entity: Option<Entity>,
        spawned: Entity,
    )
        requires
            role == Role::Other || self.players.contains_key(id),
        ensures
            self.player_shown(id, role, entity, spawned) is Some <==> self.players.contains_key(id)
                && self.players[id].alive,
            match self.player_action(id, role, self.player_shown(id, role, entity, spawned)) {
                Some(PlayerAction::Spawn { .. }) => false,
                Some(PlayerAction::Despawn { .. }) => false,
                _ => true,
            },
    {
    }

    /// Exactly the items that there are, are shown, and doing what must be
    /// done leaves none to appear or to go.
    pub proof fn the_items_are_shown(self, id: ItemId, entity: Option<Entity>, spawned: Entity)
        ensures
            self.item_shown(id, entity, spawned) is Some <==> self.items.contains_key(id),
            match self.item_action(id, self.item_shown(id, entity, spawned)) {
                Some(ItemAction::Spawn { .. }) => false,
                Some(ItemAction::Despawn { .. }) => false,
                _ => true,
            },
    {
    }

    /// Every cart that appears can hang on something: its place in the train is
    /// not that of the player.
    pub proof fn carts_have_something_before_them(self, key: CartKey, entity: Option<Entity>)
        requires
            self.cart_action(key, entity) is Some,
            self.cart_action(key, entity)->0 is Spawn,
        ensures
            key.order >= 1,
    {
    }

    /// Exactly the carts of the players alive are shown, and doing what must
    /// be done leaves nothing to do.
    pub proof fn the_carts_are_shown(self, key: CartKey, entity: Option<Entity>, spawned: Entity)
        ensures
            self.cart_shown(key, entity, spawned) is Some <==> self.has_cart(key),
            self.cart_action(key, self.cart_shown(key, entity, spawned)) is None,
    {
    }
}

} // verus!
