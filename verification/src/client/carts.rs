//! Letting the carts swing behind their players like trailers.

use crate::binary32::Binary32;
use crate::client::scene::CartKey;
use crate::client::session::{LocalSim, Session, SessionView};
use crate::world::{PlayerId, PlayerView, Vec3};
use vstd::prelude::*;

verus! {

broadcast use vstd::std_specs::hash::group_hash_axioms;

/// The distance from the middle of a player to its back, 0.9.
pub const PLAYER_BACK: u32 = 0x3f66_6666;

/// The distance from the middle of a cart to its back, 0.7.
pub const CART_BACK: u32 = 0x3f33_3333;

/// The distance from the middle of a cart to its front, 0.7.
pub const CART_FRONT: u32 = 0x3f33_3333;

/// The gap between a cart and what it hangs on, 0.8.
pub const GAP: u32 = 0x3f4c_cccd;

/// How far a cart must be from its hitch for its direction to count, 0.001.
pub const SWINGING: u32 = 0x3a83_126f;

/// The height of the carts, 0.4.
pub const CART_HEIGHT: u32 = 0x3ecc_cccd;

/// Where something is drawn and how it is turned.
#[derive(Debug, Clone, Copy)]
pub struct Placed<R> {
    pub position: Vec3,
    pub rotation: R,
}

/// A cart as it is drawn.
#[derive(Debug, Clone, Copy)]
pub struct Cart<R> {
    pub key: CartKey,
    pub placed: Placed<R>,
}

/// What is drawn of the trains; of two entries for the same player or the same
/// cart the later one counts.
pub struct Drawn<R> {
    pub players: Vec<(PlayerId, Placed<R>)>,
    pub carts: Vec<Cart<R>>,
}

/// Where a player is drawn.
pub open spec fn last_place<R>(players: Seq<(PlayerId, Placed<R>)>, id: PlayerId) -> Option<
    Placed<R>,
>
    decreases players.len(),
{
    if players.len() == 0 {
        None
    } else if players.last().0 == id {
        Some(players.last().1)
    } else {
        last_place(players.drop_last(), id)
    }
}

/// The index of the last entry for a cart.
pub open spec fn last_cart<R>(carts: Seq<Cart<R>>, key: CartKey) -> Option<int>
    decreases carts.len(),
{
    if carts.len() == 0 {
        None
    } else if carts.last().key == key {
        Some(carts.len() - 1)
    } else {
        last_cart(carts.drop_last(), key)
    }
}

proof fn last_cart_is_last<R>(carts: Seq<Cart<R>>, key: CartKey)
    ensures
        last_cart(carts, key) matches Some(j) ==> 0 <= j < carts.len() && carts[j].key == key,
        forall|i: int| 0 <= i < carts.len() && #[trigger] carts[i].key == key ==> (last_cart(
            carts,
            key,
        ) matches Some(j) && i <= j),
    decreases carts.len(),
{
    if carts.len() > 0 && carts.last().key != key {
        let rest = carts.drop_last();
        last_cart_is_last(rest, key);
        assert forall|i: int| 0 <= i < carts.len() && #[trigger] carts[i].key == key implies (
        last_cart(carts, key) matches Some(j) && i <= j) by {
            assert(rest[i].key == key);
        }
    }
}

impl Vec3 {
    /// The difference of two places, coordinate by coordinate.
    pub open spec fn less(self, other: Vec3) -> Vec3 {
        Vec3 {
            x: self.x.difference(other.x),
            y: self.y.difference(other.y),
            z: self.z.difference(other.z),
        }
    }

    pub fn minus(self, other: Vec3) -> (r: Vec3)
        ensures
            r == self.less(other),
    {
        Vec3 {
            x: self.x.minus(other.x),
            y: self.y.minus(other.y),
            z: self.z.minus(other.z),
        }
    }

    /// A direction made longer or shorter.
    pub open spec fn scaled(self, factor: Binary32) -> Vec3 {
        Vec3 {
            x: self.x.product(factor),
            y: self.y.product(factor),
            z: self.z.product(factor),
        }
    }

    pub fn times(self, factor: Binary32) -> (r: Vec3)
        ensures
            r == self.scaled(factor),
    {
        Vec3 { x: self.x.times(factor), y: self.y.times(factor), z: self.z.times(factor) }
    }

    /// A direction divided by a number.
    pub open spec fn divided(self, divisor: Binary32) -> Vec3 {
        Vec3 {
            x: self.x.quotient(divisor),
            y: self.y.quotient(divisor),
            z: self.z.quotient(divisor),
        }
    }

    pub fn over(self, divisor: Binary32) -> (r: Vec3)
        ensures
            r == self.divided(divisor),
    {
        Vec3 { x: self.x.over(divisor), y: self.y.over(divisor), z: self.z.over(divisor) }
    }

    /// The middle of a cart that hangs on a hitch, which lies from it in the
    /// given direction.
    pub open spec fn behind(self, direction: Vec3) -> Vec3 {
        let length = (Binary32 { bits: GAP }).sum(Binary32 { bits: CART_FRONT });
        Vec3 {
            y: Binary32 { bits: CART_HEIGHT },
            ..self.less(direction.scaled(length))
        }
    }

    pub fn place_behind(self, direction: Vec3) -> (r: Vec3)
        ensures
            r == self.behind(direction),
    {
        let length: Binary32 = (Binary32 { bits: GAP }).plus(Binary32 { bits: CART_FRONT });
        let middle: Vec3 = self.minus(direction.times(length));
        Vec3 { x: middle.x, y: Binary32 { bits: CART_HEIGHT }, z: middle.z }
    }
}

impl<R> Placed<R> {
    /// Whether a target is one for a cart that hangs on the back of this, where
    /// `ahead` is the direction in which this looks and `distance` the
    /// distance of the cart from the hitch.
    ///
    /// The cart keeps the direction in which it lies from the hitch and looks
    /// there; a cart right at the hitch is placed straight behind.
    pub open spec fn pulls_to<A: Fn(Vec3) -> R>(
        self,
        back: Binary32,
        cart: Vec3,
        ahead: Vec3,
        distance: Binary32,
        arc: &A,
        target: Placed<R>,
    ) -> bool {
        let hitch = self.position.less(ahead.scaled(back));
        let direction = hitch.less(cart).divided(distance);
        if (Binary32 { bits: SWINGING }).below(distance) {
            target.position == hitch.behind(direction) && call_ensures(
                arc,
                (direction,),
                target.rotation,
            )
        } else {
            target.position == hitch.behind(ahead) && target.rotation == self.rotation
        }
    }

    /// Whether `ahead` and `distance` are what `forward` gives for the
    /// rotation of this and `length` for the way from the cart to the hitch.
    pub open spec fn measures<F: Fn(R) -> Vec3, L: Fn(Vec3) -> Binary32>(
        self,
        back: Binary32,
        cart: Vec3,
        forward: &F,
        length: &L,
        ahead: Vec3,
        distance: Binary32,
    ) -> bool {
        &&& call_ensures(forward, (self.rotation,), ahead)
        &&& call_ensures(
            length,
            (self.position.less(ahead.scaled(back)).less(cart),),
            distance,
        )
    }

    /// Whether a target is one for a cart that hangs on the back of this.
    pub open spec fn pulls<F: Fn(R) -> Vec3, L: Fn(Vec3) -> Binary32, A: Fn(Vec3) -> R>(
        self,
        back: Binary32,
        cart: Vec3,
        forward: &F,
        length: &L,
        arc: &A,
        target: Placed<R>,
    ) -> bool {
        exists|ahead: Vec3, distance: Binary32| #[trigger]
            self.measures(back, cart, forward, length, ahead, distance) && self.pulls_to(
                back,
                cart,
                ahead,
                distance,
                arc,
                target,
            )
    }
}

impl<R: Copy> Placed<R> {
    /// Where a cart that hangs on the back of this should be.
    pub fn pull<F: Fn(R) -> Vec3, L: Fn(Vec3) -> Binary32, A: Fn(Vec3) -> R>(
        self,
        back: Binary32,
        cart: Vec3,
        forward: &F,
        length: &L,
        arc: &A,
    ) -> (target: Placed<R>)
        requires
            forall|rotation: R| #[trigger] call_requires(forward, (rotation,)),
            forall|way: Vec3| #[trigger] call_requires(length, (way,)),
            forall|direction: Vec3| #[trigger] call_requires(arc, (direction,)),
        ensures
            self.pulls(back, cart, forward, length, arc, target),
    {
        let ahead: Vec3 = forward(self.rotation);
        let hitch: Vec3 = self.position.minus(ahead.times(back));
        let way: Vec3 = hitch.minus(cart);
        let distance: Binary32 = length(way);
        assert(self.measures(back, cart, forward, length, ahead, distance));
        if (Binary32 { bits: SWINGING }).lt(distance) {
            let direction: Vec3 = way.over(distance);
            Placed { position: hitch.place_behind(direction), rotation: arc(direction) }
        } else {
            Placed { position: hitch.place_behind(ahead), rotation: self.rotation }
        }
    }
}

impl SessionView {
    /// What is known of a player that is drawn: from the second session if it
    /// is that one's own, from this one otherwise.
    pub open spec fn known_player(self, test: SessionView, id: PlayerId) -> Option<PlayerView> {
        let local = if test.client.id == Some(id) {
            test.local
        } else {
            self.local
        };
        match local {
            Some(local) => if local.sim.state.players.contains_key(id) {
                Some(local.sim.state.players[id])
            } else {
                None
            },
            None => None,
        }
    }

    /// Whether the carts of a player are to be moved at all.
    pub open spec fn moves_carts(self, test: SessionView, id: PlayerId) -> bool {
        &&& self.local is Some
        &&& self.client.id is Some
        &&& self.known_player(test, id) matches Some(player)
        &&& player.alive
    }
}

impl Session {
    /// Whether the carts of a player are to be moved at all.
    pub fn must_move_carts(&self, test: &Session, id: PlayerId) -> (r: bool)
        ensures
            r == self@.moves_carts(test@, id),
    {
        if self.local.is_none() || self.client.id.is_none() {
            return false;
        }
        let own: bool = match test.client.id {
            Some(test_id) => test_id == id,
            None => false,
        };
        let local: &Option<LocalSim> = if own {
            &test.local
        } else {
            &self.local
        };
        match local {
            Some(local) => match local.sim.state.players.get(&id) {
                Some(player) => player.alive,
                None => false,
            },
            None => false,
        }
    }
}

impl<R: Copy> Drawn<R> {
    /// Whether a cart is to be moved: its player is drawn and alive.
    pub open spec fn moves(self, main: SessionView, test: SessionView, key: CartKey) -> bool {
        last_place(self.players@, key.player) is Some && main.moves_carts(test, key.player)
    }

    /// Whether the targets of the carts fit for the cart at index `i`.
    ///
    /// Of several entries for a cart only the last one counts. The first cart
    /// of a train hangs on its player, every other on the target of the cart
    /// before it; where there is no cart before it, it stays where it is.
    pub open spec fn fits<F: Fn(R) -> Vec3, L: Fn(Vec3) -> Binary32, A: Fn(Vec3) -> R>(
        self,
        targets: Seq<Option<Placed<R>>>,
        i: int,
        forward: &F,
        length: &L,
        arc: &A,
    ) -> bool {
        let key = self.carts@[i].key;
        let last = last_cart(self.carts@, key)->0;
        let cart = self.carts@[last].placed;
        let before = CartKey { player: key.player, order: (key.order - 1) as usize };
        &&& targets[i] is Some
        &&& targets[last] == targets[i]
        &&& if key.order == 1 {
            last_place(self.players@, key.player)->0.pulls(
                Binary32 { bits: PLAYER_BACK },
                cart.position,
                forward,
                length,
                arc,
                targets[i]->0,
            )
        } else {
            match last_cart(self.carts@, before) {
                Some(q) => targets[q] is Some && targets[q]->0.pulls(
                    Binary32 { bits: CART_BACK },
                    cart.position,
                    forward,
                    length,
                    arc,
                    targets[i]->0,
                ),
                None => targets[i] == Some(cart),
            }
        }
    }

    /// Where a player is drawn.
    pub fn find_place(&self, id: PlayerId) -> (place: Option<Placed<R>>)
        ensures
            place == last_place(self.players@, id),
    {
        let mut i: usize = self.players.len();
        assert(self.players@.take(i as int) =~= self.players@);
        while i > 0
            invariant
                i <= self.players@.len(),
                last_place(self.players@, id) == last_place(self.players@.take(i as int), id),
            decreases i,
        {
            i = i - 1;
            proof {
                assert(self.players@.take(i + 1).drop_last() =~= self.players@.take(i as int));
            }
            if self.players[i].0 == id {
                return Some(self.players[i].1);
            }
        }
        None
    }

    /// The index of the last entry for a cart.
    pub fn find_cart(&self, key: CartKey) -> (index: Option<usize>)
        ensures
            match index {
                Some(i) => last_cart(self.carts@, key) == Some(i as int),
                None => last_cart(self.carts@, key) is None,
            },
    {
        let mut i: usize = self.carts.len();
        assert(self.carts@.take(i as int) =~= self.carts@);
        while i > 0
            invariant
                i <= self.carts@.len(),
                last_cart(self.carts@, key) == last_cart(self.carts@.take(i as int), key),
            decreases i,
        {
            i = i - 1;
            proof {
                assert(self.carts@.take(i + 1).drop_last() =~= self.carts@.take(i as int));
            }
            if self.carts[i].key == key {
                return Some(i);
            }
        }
        None
    }

    /// The indices of the carts, sorted by their place in the train.
    fn by_order(&self) -> (indices: Vec<usize>)
        ensures
            indices@.len() == self.carts@.len(),
            indices@.no_duplicates(),
            forall|s: int|
                0 <= s < indices@.len() ==> #[trigger] indices@[s] < self.carts@.len(),
            forall|i: usize| i < self.carts@.len() ==> #[trigger] indices@.contains(i),
            forall|s: int, t: int|
                0 <= s <= t < indices@.len() ==> self.carts@[#[trigger] indices@[s] as int].key.order
                    <= self.carts@[#[trigger] indices@[t] as int].key.order,
    {
        let mut indices: Vec<usize> = Vec::new();
        let mut i: usize = 0;
        while i < self.carts.len()
            invariant
                i <= self.carts@.len(),
                indices@.len() == i,
                indices@.no_duplicates(),
                forall|s: int| 0 <= s < indices@.len() ==> #[trigger] indices@[s] < i,
                forall|k: usize| k < i ==> #[trigger] indices@.contains(k),
                forall|s: int, t: int|
                    0 <= s <= t < indices@.len()
                        ==> self.carts@[#[trigger] indices@[s] as int].key.order
                        <= self.carts@[#[trigger] indices@[t] as int].key.order,
            decreases self.carts@.len() - i,
        {
            let order: usize = self.carts[i].key.order;
            let mut p: usize = i;
            while p > 0 && self.carts[indices[p - 1]].key.order > order
                invariant
                    p <= i,
                    i < self.carts@.len(),
                    indices@.len() == i,
                    forall|s: int| 0 <= s < indices@.len() ==> #[trigger] indices@[s] < i,
                    forall|s: int, t: int|
                        0 <= s <= t < indices@.len()
                            ==> self.carts@[#[trigger] indices@[s] as int].key.order
                            <= self.carts@[#[trigger] indices@[t] as int].key.order,
                    forall|s: int|
                        p <= s < indices@.len()
                            ==> self.carts@[#[trigger] indices@[s] as int].key.order > order,
                decreases p,
            {
                p = p - 1;
            }
            let ghost before = indices@;
            indices.insert(p, i);
            proof {
                assert forall|s: int| 0 <= s < indices@.len() implies #[trigger] indices@[s] == if s
                    < p {
                    before[s]
                } else if s == p {
                    i
                } else {
                    before[s - 1]
                } by {}
                assert forall|k: usize| k < i + 1 implies #[trigger] indices@.contains(k) by {
                    if k < i {
                        assert(before.contains(k));
                        let s = choose|s: int| 0 <= s < before.len() && before[s] == k;
                        if s < p {
                            assert(indices@[s] == k);
                        } else {
                            assert(indices@[s + 1] == k);
                        }
                    } else {
                        assert(indices@[p as int] == k);
                    }
                }
            }
            i = i + 1;
        }
        indices
    }

    /// Where a cart should be, given the targets of the carts before it.
    fn target<F: Fn(R) -> Vec3, L: Fn(Vec3) -> Binary32, A: Fn(Vec3) -> R>(
        &self,
        targets: &Vec<Option<Placed<R>>>,
        i: usize,
        forward: &F,
        length: &L,
        arc: &A,
    ) -> (target: Placed<R>)
        requires
            forall|rotation: R| #[trigger] call_requires(forward, (rotation,)),
            forall|way: Vec3| #[trigger] call_requires(length, (way,)),
            forall|direction: Vec3| #[trigger] call_requires(arc, (direction,)),
            i < self.carts@.len(),
            self.carts@[i as int].key.order >= 1,
            targets@.len() == self.carts@.len(),
            targets@[i as int] is None,
            last_place(self.players@, self.carts@[i as int].key.player) is Some,
            last_cart(self.carts@, self.carts@[i as int].key) == Some(i as int),
            ({
                let key = self.carts@[i as int].key;
                let before = CartKey { player: key.player, order: (key.order - 1) as usize };
                key.order > 1 ==> (last_cart(self.carts@, before) matches Some(q) ==> targets@[q]
                    is Some)
            }),
        ensures
            self.fits(targets@.update(i as int, Some(target)), i as int, forward, length, arc),
    {
        let key: CartKey = self.carts[i].key;
        let cart: Placed<R> = self.carts[i].placed;
        if key.order == 1 {
            if let Some(player) = self.find_place(key.player) {
                return player.pull(
                    Binary32 { bits: PLAYER_BACK },
                    cart.position,
                    forward,
                    length,
                    arc,
                );
            }
            return cart;
        }
        let before: CartKey = CartKey { player: key.player, order: key.order - 1 };
        proof {
            last_cart_is_last(self.carts@, before);
        }
        match self.find_cart(before) {
            Some(q) => match targets[q] {
                Some(leader) => leader.pull(
                    Binary32 { bits: CART_BACK },
                    cart.position,
                    forward,
                    length,
                    arc,
                ),
                None => cart,
            },
            None => cart,
        }
    }

    /// Where the carts should be: for each cart, in the order given, its
    /// target, if its player is drawn and alive.
    ///
    /// `forward` gives the direction in which something looks that is turned
    /// by a rotation, `length` the length of a way, and `arc` the rotation of
    /// something that looks in a direction.
    pub fn update_train_carts<F: Fn(R) -> Vec3, L: Fn(Vec3) -> Binary32, A: Fn(Vec3) -> R>(
        &self,
        main: &Session,
        test: &Session,
        forward: &F,
        length: &L,
        arc: &A,
    ) -> (targets: Vec<Option<Placed<R>>>)
        requires
            forall|rotation: R| #[trigger] call_requires(forward, (rotation,)),
            forall|way: Vec3| #[trigger] call_requires(length, (way,)),
            forall|direction: Vec3| #[trigger] call_requires(arc, (direction,)),
            forall|i: int|
                0 <= i < self.carts@.len() && self.moves(
                    main@,
                    test@,
                    (#[trigger] self.carts@[i]).key,
                ) ==> self.carts@[i].key.order >= 1,
        ensures
            targets@.len() == self.carts@.len(),
            forall|i: int|
                0 <= i < targets@.len() ==> if self.moves(main@, test@, self.carts@[i].key) {
                    self.fits(targets@, i, forward, length, arc)
                } else {
                    #[trigger] targets@[i] is None
                },
    {
        let total: usize = self.carts.len();
        let indices: Vec<usize> = self.by_order();
        let mut found: Vec<Option<Placed<R>>> = Vec::new();
        let mut n: usize = 0;
        while n < total
            invariant
                n <= total,
                found@.len() == n,
                forall|i: int| 0 <= i < n ==> #[trigger] found@[i] is None,
            decreases total - n,
        {
            found.push(None);
            n = n + 1;
        }
        let mut t: usize = 0;
        while t < total
            invariant
                forall|rotation: R| #[trigger] call_requires(forward, (rotation,)),
                forall|way: Vec3| #[trigger] call_requires(length, (way,)),
                forall|direction: Vec3| #[trigger] call_requires(arc, (direction,)),
                forall|i: int|
                    0 <= i < self.carts@.len() && self.moves(
                        main@,
                        test@,
                        (#[trigger] self.carts@[i]).key,
                    ) ==> self.carts@[i].key.order >= 1,
                t <= total,
                total == self.carts@.len(),
                found@.len() == total,
                indices@.len() == total,
                indices@.no_duplicates(),
                forall|s: int| 0 <= s < indices@.len() ==> #[trigger] indices@[s] < total,
                forall|i: usize| i < total ==> #[trigger] indices@.contains(i),
                forall|r: int, s: int|
                    0 <= r <= s < indices@.len()
                        ==> self.carts@[#[trigger] indices@[r] as int].key.order
                        <= self.carts@[#[trigger] indices@[s] as int].key.order,
                forall|i: int|
                    0 <= i < total && #[trigger] found@[i] is Some ==> {
                        &&& self.moves(main@, test@, self.carts@[i].key)
                        &&& last_cart(self.carts@, self.carts@[i].key) == Some(i)
                        &&& self.fits(found@, i, forward, length, arc)
                        &&& exists|s: int| 0 <= s < t && #[trigger] indices@[s] == i
                    },
                forall|s: int|
                    0 <= s < t && self.moves(
                        main@,
                        test@,
                        self.carts@[(#[trigger] indices@[s]) as int].key,
                    ) && last_cart(self.carts@, self.carts@[indices@[s] as int].key) == Some(
                        indices@[s] as int,
                    ) ==> found@[indices@[s] as int] is Some,
            decreases total - t,
        {
            let i: usize = indices[t];
            let key: CartKey = self.carts[i].key;
            let ghost before = found@;
            proof {
                if found@[i as int] is Some {
                    let s = choose|s: int| 0 <= s < t && #[trigger] indices@[s] == i;
                    assert(indices@[s] == indices@[t as int]);
                }
                if key.order >= 1 && self.moves(main@, test@, key) {
                    let leader = CartKey { player: key.player, order: (key.order - 1) as usize };
                    last_cart_is_last(self.carts@, leader);
                    if let Some(q) = last_cart(self.carts@, leader) {
                        assert(self.moves(main@, test@, self.carts@[q].key));
                        assert(indices@.contains(q as usize));
                        let s = choose|s: int| 0 <= s < indices@.len() && indices@[s] == q as usize;
                        assert(s < t) by {
                            if s >= t {
                                assert(self.carts@[indices@[t as int] as int].key.order
                                    <= self.carts@[indices@[s] as int].key.order);
                            }
                        }
                        assert(found@[indices@[s] as int] is Some);
                    }
                }
            }
            let last: bool = match self.find_cart(key) {
                Some(index) => index == i,
                None => false,
            };
            if last && self.find_place(key.player).is_some() && main.must_move_carts(
                test,
                key.player,
            ) {
                let target: Placed<R> = self.target(&found, i, forward, length, arc);
                found.set(i, Some(target));
                proof {
                    assert(indices@[t as int] == i);
                    assert forall|j: int| 0 <= j < total && #[trigger] found@[j] is Some implies {
                        &&& self.moves(main@, test@, self.carts@[j].key)
                        &&& last_cart(self.carts@, self.carts@[j].key) == Some(j)
                        &&& self.fits(found@, j, forward, length, arc)
                        &&& exists|s: int| 0 <= s < t + 1 && #[trigger] indices@[s] == j
                    } by {
                        if j != i {
                            assert(before[j] is Some);
                            assert(self.fits(before, j, forward, length, arc));
                            let kj = self.carts@[j].key;
                            last_cart_is_last(
                                self.carts@,
                                CartKey { player: kj.player, order: (kj.order - 1) as usize },
                            );
                        }
                    }
                }
            }
            proof {
                assert forall|j: int| 0 <= j < total && #[trigger] found@[j] is Some implies exists|
                    s: int,
                | 0 <= s < t + 1 && #[trigger] indices@[s] == j by {
                    if j != i {
                        assert(before[j] is Some);
                    } else {
                        assert(indices@[t as int] == i);
                    }
                }
                assert forall|s: int|
                    0 <= s < t + 1 && self.moves(
                        main@,
                        test@,
                        self.carts@[(#[trigger] indices@[s]) as int].key,
                    ) && last_cart(self.carts@, self.carts@[indices@[s] as int].key) == Some(
                        indices@[s] as int,
                    ) implies found@[indices@[s] as int] is Some by {
                    if s < t {
                        assert(before[indices@[s] as int] is Some);
                    }
                }
            }
            t = t + 1;
        }
        let mut targets: Vec<Option<Placed<R>>> = Vec::new();
        let mut m: usize = 0;
        while m < total
            invariant
                m <= total,
                total == self.carts@.len(),
                found@.len() == total,
                targets@.len() == m,
                forall|i: int|
                    0 <= i < m ==> #[trigger] targets@[i] == found@[last_cart(
                        self.carts@,
                        self.carts@[i].key,
                    )->0],
            decreases total - m,
        {
            proof {
                last_cart_is_last(self.carts@, self.carts@[m as int].key);
            }
            let target: Option<Placed<R>> = match self.find_cart(self.carts[m].key) {
                Some(last) => found[last],
                None => None,
            };
            targets.push(target);
            m = m + 1;
        }
        proof {
            assert forall|i: int| 0 <= i < targets@.len() implies if self.moves(
                main@,
                test@,
                self.carts@[i].key,
            ) {
                self.fits(targets@, i, forward, length, arc)
            } else {
                #[trigger] targets@[i] is None
            } by {
                let key = self.carts@[i].key;
                last_cart_is_last(self.carts@, key);
                let last = last_cart(self.carts@, key)->0;
                assert(targets@[last] == found@[last]);
                if self.moves(main@, test@, key) {
                    assert(indices@.contains(last as usize));
                    let s = choose|s: int| 0 <= s < indices@.len() && indices@[s] == last as usize;
                    assert(found@[indices@[s] as int] is Some);
                    assert(self.fits(found@, last, forward, length, arc));
                    let leader = CartKey { player: key.player, order: (key.order - 1) as usize };
                    last_cart_is_last(self.carts@, leader);
                    if let Some(q) = last_cart(self.carts@, leader) {
                        assert(targets@[q] == found@[q]);
                    }
                }
            }
        }
        targets
    }
}

} // verus!
