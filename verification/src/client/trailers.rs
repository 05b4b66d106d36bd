//! What hangs on what, and how it swings, told from what is drawn.

use crate::binary32::Binary32;
use crate::client::carts::{Cart, Drawn, Placed};
use crate::client::scene::CartKey;
use crate::client::session::SessionView;
use crate::client::smoothing::CameraMove;
use crate::world::{PlayerId, Vec3};
use vstd::prelude::*;

verus! {

impl<R> Placed<R> {
    /// The place found for a player is that of the last entry for this very
    /// player; none is found exactly where there is no entry for it.
    pub proof fn places_are_ones_own(players: Seq<(PlayerId, Placed<R>)>, id: PlayerId)
        ensures
            match crate::client::carts::last_place(players, id) {
                Some(place) => exists|n: int|
                    {
                        &&& 0 <= n < players.len()
                        &&& #[trigger] players[n] == (id, place)
                        &&& forall|m: int| n < m < players.len() ==> (#[trigger] players[m]).0
                            != id
                    },
                None => forall|m: int|
                    0 <= m < players.len() ==> (#[trigger] players[m]).0 != id,
            },
        decreases players.len(),
    {
        if players.len() > 0 {
            let rest = players.drop_last();
            let end = players.len() - 1;
            if players.last().0 == id {
                assert(players[end] == (id, players.last().1));
            } else {
                Self::places_are_ones_own(rest, id);
                match crate::client::carts::last_place(rest, id) {
                    Some(place) => {
                        let n = choose|n: int|
                            {
                                &&& 0 <= n < rest.len()
                                &&& #[trigger] rest[n] == (id, place)
                                &&& forall|m: int| n < m < rest.len() ==> (#[trigger] rest[m]).0
                                    != id
                            };
                        assert(players[n] == (id, place));
                        assert forall|m: int| n < m < players.len() implies (
                        #[trigger] players[m]).0 != id by {
                            if m < end {
                                assert(rest[m].0 != id);
                            }
                        }
                    },
                    None => {
                        assert forall|m: int| 0 <= m < players.len() implies (
                        #[trigger] players[m]).0 != id by {
                            if m < end {
                                assert(rest[m].0 != id);
                            }
                        }
                    },
                }
            }
        }
    }

    /// Whoever else is drawn, before or after, the place of a player stays the
    /// same.
    pub proof fn others_do_not_matter(
        players: Seq<(PlayerId, Placed<R>)>,
        id: PlayerId,
        other: PlayerId,
        place: Placed<R>,
    )
        requires
            other != id,
        ensures
            crate::client::carts::last_place(players.push((other, place)), id) == crate::client::carts::last_place(players, id),
            crate::client::carts::last_place(players.push((id, place)), id) == Some(place),
    {
        assert(players.push((other, place)).drop_last() =~= players);
    }
}

impl<R> Cart<R> {
    /// The entry found for a cart is the last one for this very cart; none is
    /// found exactly where there is none.
    pub proof fn carts_are_found_by_their_keys(carts: Seq<Cart<R>>, key: CartKey)
        ensures
            match crate::client::carts::last_cart(carts, key) {
                Some(n) => {
                    &&& 0 <= n < carts.len()
                    &&& carts[n].key == key
                    &&& forall|m: int| n < m < carts.len() ==> (#[trigger] carts[m]).key != key
                },
                None => forall|m: int|
                    0 <= m < carts.len() ==> (#[trigger] carts[m]).key != key,
            },
        decreases carts.len(),
    {
        if carts.len() > 0 && carts.last().key != key {
            let rest = carts.drop_last();
            Self::carts_are_found_by_their_keys(rest, key);
            let from = match crate::client::carts::last_cart(rest, key) {
                Some(n) => n,
                None => -1,
            };
            assert forall|m: int| from < m < carts.len() implies (#[trigger] carts[m]).key
                != key by {
                if m < carts.len() - 1 {
                    assert(rest[m].key != key);
                }
            }
        }
    }
}

impl SessionView {
    /// Carts are moved exactly for the players alive, where the second session
    /// speaks for its own player and the first for all others, once the client
    /// was welcomed.
    pub proof fn only_the_living_pull(self, test: SessionView, id: PlayerId)
        ensures
            ({
                let speaks = if test.client.id == Some(id) {
                    test.local
                } else {
                    self.local
                };
                self.moves_carts(test, id) <==> {
                    &&& self.client.id is Some
                    &&& self.local is Some
                    &&& speaks is Some
                    &&& speaks->0.sim.state.players.contains_key(id)
                    &&& speaks->0.sim.state.players[id].alive
                }
            }),
    {
    }
}

impl<R: Copy> Drawn<R> {
    /// The first cart of a train hangs 0.9 behind the middle of its own player
    /// as drawn last. It lies 1.5 from that hitch in the direction in which it
    /// lay before, at height 0.4, and looks at the hitch; where it lay no
    /// farther than 0.001 from it, it goes straight behind and looks ahead.
    pub proof fn the_first_cart_hangs_on_its_player<
        F: Fn(R) -> Vec3,
        L: Fn(Vec3) -> Binary32,
        A: Fn(Vec3) -> R,
    >(
        self,
        targets: Seq<Option<Placed<R>>>,
        i: int,
        forward: &F,
        length: &L,
        arc: &A,
        main: SessionView,
        test: SessionView,
    )
        requires
            0 <= i < self.carts@.len(),
            self.carts@[i].key.order == 1,
            self.moves(main, test, self.carts@[i].key),
            self.fits(targets, i, forward, length, arc),
        ensures
            exists|n: int, j: int, ahead: Vec3, distance: Binary32|
                {
                    let id = self.carts@[i].key.player;
                    &&& 0 <= n < self.players@.len()
                    &&& self.players@[n].0 == id
                    &&& forall|m: int| n < m < self.players@.len() ==> (
                    #[trigger] self.players@[m]).0 != id
                    &&& 0 <= j < self.carts@.len()
                    &&& self.carts@[j].key == self.carts@[i].key
                    &&& forall|m: int| j < m < self.carts@.len() ==> (
                    #[trigger] self.carts@[m]).key != self.carts@[i].key
                    &&& targets[j] == targets[i]
                    &&& #[trigger] Self::hangs(
                        self.players@[n].1,
                        Binary32 { bits: 0x3f66_6666 },
                        self.carts@[j].placed.position,
                        forward,
                        length,
                        arc,
                        ahead,
                        distance,
                        targets[i],
                    )
                },
    {
        let key = self.carts@[i].key;
        Placed::places_are_ones_own(self.players@, key.player);
        Cart::carts_are_found_by_their_keys(self.carts@, key);
        let place = crate::client::carts::last_place(self.players@, key.player)->0;
        let n = choose|n: int|
            {
                &&& 0 <= n < self.players@.len()
                &&& #[trigger] self.players@[n] == (key.player, place)
                &&& forall|m: int| n < m < self.players@.len() ==> (#[trigger] self.players@[m]).0
                    != key.player
            };
        let j = crate::client::carts::last_cart(self.carts@, key)->0;
        Self::what_pulling_means(
            place,
            Binary32 { bits: 0x3f66_6666 },
            self.carts@[j].placed.position,
            forward,
            length,
            arc,
            targets[i]->0,
        );
        let (ahead, distance) = choose|ahead: Vec3, distance: Binary32|
            #[trigger] Self::hangs(
                place,
                Binary32 { bits: 0x3f66_6666 },
                self.carts@[j].placed.position,
                forward,
                length,
                arc,
                ahead,
                distance,
                Some(targets[i]->0),
            );
        assert(self.players@[n] == (key.player, place));
        assert(self.carts@[j].key == key);
        assert(Self::hangs(
            self.players@[n].1,
            Binary32 { bits: 0x3f66_6666 },
            self.carts@[j].placed.position,
            forward,
            length,
            arc,
            ahead,
            distance,
            targets[i],
        ));
    }

    /// Whether a target is where a cart hangs behind a leader, coordinate by
    /// coordinate.
    pub open spec fn hangs<F: Fn(R) -> Vec3, L: Fn(Vec3) -> Binary32, A: Fn(Vec3) -> R>(
        leader: Placed<R>,
        back: Binary32,
        cart: Vec3,
        forward: &F,
        length: &L,
        arc: &A,
        ahead: Vec3,
        distance: Binary32,
        target: Option<Placed<R>>,
    ) -> bool {
        let span = (Binary32 { bits: 0x3f4c_cccd }).sum(Binary32 { bits: 0x3f33_3333 });
        let hx = leader.position.x.difference(ahead.x.product(back));
        let hy = leader.position.y.difference(ahead.y.product(back));
        let hz = leader.position.z.difference(ahead.z.product(back));
        let way = Vec3 {
            x: hx.difference(cart.x),
            y: hy.difference(cart.y),
            z: hz.difference(cart.z),
        };
        &&& call_ensures(forward, (leader.rotation,), ahead)
        &&& call_ensures(length, (way,), distance)
        &&& target is Some
        &&& target->0.position.y == (Binary32 { bits: 0x3ecc_cccd })
        &&& if (Binary32 { bits: 0x3a83_126f }).below(distance) {
            let direction = Vec3 {
                x: way.x.quotient(distance),
                y: way.y.quotient(distance),
                z: way.z.quotient(distance),
            };
            &&& target->0.position.x == hx.difference(direction.x.product(span))
            &&& target->0.position.z == hz.difference(direction.z.product(span))
            &&& call_ensures(arc, (direction,), target->0.rotation)
        } else {
            &&& target->0.position.x == hx.difference(ahead.x.product(span))
            &&& target->0.position.z == hz.difference(ahead.z.product(span))
            &&& target->0.rotation == leader.rotation
        }
    }

    proof fn what_pulling_means<F: Fn(R) -> Vec3, L: Fn(Vec3) -> Binary32, A: Fn(Vec3) -> R>(
        leader: Placed<R>,
        back: Binary32,
        cart: Vec3,
        forward: &F,
        length: &L,
        arc: &A,
        target: Placed<R>,
    )
        requires
            leader.pulls(back, cart, forward, length, arc, target),
        ensures
            exists|ahead: Vec3, distance: Binary32| #[trigger]
                Self::hangs(
                    leader,
                    back,
                    cart,
                    forward,
                    length,
                    arc,
                    ahead,
                    distance,
                    Some(target),
                ),
    {
        let (ahead, distance) = choose|ahead: Vec3, distance: Binary32| #[trigger]
            leader.measures(back, cart, forward, length, ahead, distance) && leader.pulls_to(
                back,
                cart,
                ahead,
                distance,
                arc,
                target,
            );
        assert(Self::hangs(
            leader,
            back,
            cart,
            forward,
            length,
            arc,
            ahead,
            distance,
            Some(target),
        ));
    }

    /// Every other cart hangs 0.7 behind the middle of the cart before it in
    /// the same train, where that one is to be; where there is none, it stays
    /// as it is.
    pub proof fn later_carts_hang_on_the_one_before<
        F: Fn(R) -> Vec3,
        L: Fn(Vec3) -> Binary32,
        A: Fn(Vec3) -> R,
    >(
        self,
        targets: Seq<Option<Placed<R>>>,
        i: int,
        q: int,
        forward: &F,
        length: &L,
        arc: &A,
    )
        requires
            0 <= i < self.carts@.len(),
            self.carts@[i].key.order > 1,
            forall|m: int|
                i < m < self.carts@.len() ==> (#[trigger] self.carts@[m]).key
                    != self.carts@[i].key,
            self.fits(targets, i, forward, length, arc),
        ensures
            ({
                let key = self.carts@[i].key;
                let before = CartKey { player: key.player, order: (key.order - 1) as usize };
                &&& 0 <= q < self.carts@.len() && self.carts@[q].key == before && (forall|m: int|
                    q < m < self.carts@.len() ==> (#[trigger] self.carts@[m]).key != before)
                    ==> exists|ahead: Vec3, distance: Binary32| #[trigger]
                    Self::hangs(
                        targets[q]->0,
                        Binary32 { bits: 0x3f33_3333 },
                        self.carts@[i].placed.position,
                        forward,
                        length,
                        arc,
                        ahead,
                        distance,
                        targets[i],
                    )
                &&& (forall|m: int|
                    0 <= m < self.carts@.len() ==> (#[trigger] self.carts@[m]).key != before)
                    ==> targets[i] == Some(self.carts@[i].placed)
            }),
    {
        let key = self.carts@[i].key;
        let before = CartKey { player: key.player, order: (key.order - 1) as usize };
        Cart::carts_are_found_by_their_keys(self.carts@, key);
        Cart::carts_are_found_by_their_keys(self.carts@, before);
        let last = crate::client::carts::last_cart(self.carts@, key)->0;
        assert(last == i) by {
            assert(self.carts@[i].key == key);
        }
        if 0 <= q < self.carts@.len() && self.carts@[q].key == before && (forall|m: int|
            q < m < self.carts@.len() ==> (#[trigger] self.carts@[m]).key != before) {
            let found = crate::client::carts::last_cart(self.carts@, before)->0;
            assert(found == q);
            Self::what_pulling_means(
                targets[q]->0,
                Binary32 { bits: 0x3f33_3333 },
                self.carts@[i].placed.position,
                forward,
                length,
                arc,
                targets[i]->0,
            );
            assert(Some(targets[i]->0) == targets[i]);
        }
    }

    /// All entries for the same cart get the target of the last one.
    pub proof fn entries_share_a_target<
        F: Fn(R) -> Vec3,
        L: Fn(Vec3) -> Binary32,
        A: Fn(Vec3) -> R,
    >(
        self,
        targets: Seq<Option<Placed<R>>>,
        i: int,
        j: int,
        forward: &F,
        length: &L,
        arc: &A,
    )
        requires
            0 <= i < self.carts@.len(),
            0 <= j < self.carts@.len(),
            self.carts@[j].key == self.carts@[i].key,
            forall|m: int|
                j < m < self.carts@.len() ==> (#[trigger] self.carts@[m]).key
                    != self.carts@[i].key,
            self.fits(targets, i, forward, length, arc),
        ensures
            targets[i] is Some,
            targets[j] == targets[i],
    {
        Cart::carts_are_found_by_their_keys(self.carts@, self.carts@[i].key);
    }

    /// A cart is moved exactly where its own player is drawn and the sessions
    /// say that it is alive.
    pub proof fn only_drawn_players_pull(self, main: SessionView, test: SessionView, key: CartKey)
        ensures
            self.moves(main, test, key) <==> main.moves_carts(test, key.player) && exists|n: int|
                0 <= n < self.players@.len() && (#[trigger] self.players@[n]).0 == key.player,
    {
        Placed::places_are_ones_own(self.players@, key.player);
        if let Some(place) = crate::client::carts::last_place(self.players@, key.player) {
            let n = choose|n: int|
                {
                    &&& 0 <= n < self.players@.len()
                    &&& #[trigger] self.players@[n] == (key.player, place)
                    &&& forall|m: int|
                        n < m < self.players@.len() ==> (#[trigger] self.players@[m]).0
                            != key.player
                };
            assert(self.players@[n].0 == key.player);
        }
    }

    /// Each cart with a target covers the same share of its own way there,
    /// coordinate by coordinate, and turns toward the rotation of its own
    /// target; a cart without one stays.
    pub proof fn carts_swing_to_their_own_targets<S: Fn(R, R, Binary32) -> R>(
        self,
        targets: Seq<Option<Placed<R>>>,
        left: Binary32,
        turn_left: Binary32,
        slerp: &S,
        after: Seq<Placed<R>>,
        i: int,
    )
        requires
            self.swings(targets, left, turn_left, slerp, after),
            0 <= i < self.carts@.len(),
        ensures
            ({
                let one = Binary32 { bits: 0x3f80_0000 };
                let share = one.difference(left);
                let keep = one.difference(share);
                let cart = self.carts@[i].placed;
                &&& after.len() == self.carts@.len()
                &&& targets[i] is None ==> after[i] == cart
                &&& targets[i] matches Some(target) ==> {
                    &&& after[i].position.x == cart.position.x.product(keep).sum(
                        target.position.x.product(share),
                    )
                    &&& after[i].position.y == cart.position.y.product(keep).sum(
                        target.position.y.product(share),
                    )
                    &&& after[i].position.z == cart.position.z.product(keep).sum(
                        target.position.z.product(share),
                    )
                    &&& call_ensures(
                        slerp,
                        (cart.rotation, target.rotation, one.difference(turn_left)),
                        after[i].rotation,
                    )
                }
            }),
    {
    }
}

impl CameraMove {
    /// The camera covers a share of its way to the place behind the player,
    /// and looks at the place eight units ahead of it.
    pub proof fn the_camera_keeps_behind(
        camera: Vec3,
        player: Vec3,
        offset: Vec3,
        ahead: Vec3,
        left: Binary32,
    )
        ensures
            ({
                let one = Binary32 { bits: 0x3f80_0000 };
                let share = one.difference(left);
                let keep = one.difference(share);
                let eight = Binary32 { bits: 0x4100_0000 };
                let moved = Self::following(
                    camera,
                    player,
                    offset,
                    ahead,
                    Binary32::covered(left),
                );
                &&& moved.share == share
                &&& moved.position.x == camera.x.product(keep).sum(
                    player.x.sum(offset.x).product(share),
                )
                &&& moved.position.y == camera.y.product(keep).sum(
                    player.y.sum(offset.y).product(share),
                )
                &&& moved.position.z == camera.z.product(keep).sum(
                    player.z.sum(offset.z).product(share),
                )
                &&& moved.look_at.x == player.x.sum(ahead.x.product(eight))
                &&& moved.look_at.y == player.y.sum(ahead.y.product(eight))
                &&& moved.look_at.z == player.z.sum(ahead.z.product(eight))
            }),
    {
    }
}

impl Binary32 {
    /// The part of a way that is left decays with the rate and with time: the
    /// exponent is the opposite of both, and the same for the two exchanged.
    pub proof fn ways_decay(rate: Binary32, dt: Binary32)
        ensures
            Self::decay(rate, dt) == dt.opposite().product(rate),
            Self::decay(rate, dt.opposite()) == dt.product(rate),
    {
        Self::opposite_twice(dt);
    }
}

} // verus!
