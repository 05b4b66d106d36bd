//! Moving what is drawn smoothly: carts to their targets, the camera behind
//! its player.

use crate::binary32::Binary32;
use crate::client::carts::{Drawn, Placed};
use crate::client::session::Session;
use crate::world::Vec3;
use vstd::prelude::*;

verus! {

/// One.
pub const ONE: u32 = 0x3f80_0000;

/// How fast carts move to their targets, 12 times a second.
pub const CART_RATE: u32 = 0x4140_0000;

/// How fast carts turn to their targets, 10 times a second.
pub const CART_TURN_RATE: u32 = 0x4120_0000;

/// How fast the camera follows, 15 times a second.
pub const CAMERA_RATE: u32 = 0x4170_0000;

/// How far ahead of the player the camera looks, 8.
pub const LOOK_AHEAD: u32 = 0x4100_0000;

/// Where the camera goes and looks, and how much of the way to there it turns.
#[derive(Debug, Clone, Copy, PartialEq, Eq, Structural)]
pub struct CameraMove {
    pub position: Vec3,
    pub look_at: Vec3,
    pub share: Binary32,
}

impl Binary32 {
    /// The exponent of the part of a way that is left after `dt` seconds.
    pub open spec fn decay(rate: Binary32, dt: Binary32) -> Binary32 {
        dt.opposite().product(rate)
    }

    /// The share of a way that is covered where `left` of it is left.
    pub open spec fn covered(left: Binary32) -> Binary32 {
        (Binary32 { bits: ONE }).difference(left)
    }

    /// The share of a way that is covered in `dt` seconds. `exp` is the
    /// exponential function.
    pub fn smooth<E: Fn(Binary32) -> Binary32>(rate: Binary32, dt: Binary32, exp: &E) -> (share:
        Binary32)
        requires
            call_requires(exp, (Self::decay(rate, dt),)),
        ensures
            exists|left: Binary32|
                call_ensures(exp, (Self::decay(rate, dt),), left) && share
                    == #[trigger] Self::covered(left),
    {
        let left: Binary32 = exp(dt.negated().times(rate));
        let share: Binary32 = (Binary32 { bits: ONE }).minus(left);
        assert(share == Self::covered(left));
        share
    }
}

impl Vec3 {
    /// The sum of two places, coordinate by coordinate.
    pub open spec fn more(self, other: Vec3) -> Vec3 {
        Vec3 {
            x: self.x.sum(other.x),
            y: self.y.sum(other.y),
            z: self.z.sum(other.z),
        }
    }

    pub fn plus(self, other: Vec3) -> (r: Vec3)
        ensures
            r == self.more(other),
    {
        Vec3 { x: self.x.plus(other.x), y: self.y.plus(other.y), z: self.z.plus(other.z) }
    }

    /// The place that lies a given share of the way to another.
    pub open spec fn toward(self, target: Vec3, share: Binary32) -> Vec3 {
        self.scaled((Binary32 { bits: ONE }).difference(share)).more(target.scaled(share))
    }

    pub fn lerp(self, target: Vec3, share: Binary32) -> (r: Vec3)
        ensures
            r == self.toward(target, share),
    {
        self.times((Binary32 { bits: ONE }).minus(share)).plus(target.times(share))
    }
}

impl<R> Placed<R> {
    /// Whether this becomes `after` on the way to a target, where the two
    /// shares of the way are covered.
    pub open spec fn swings_to<S: Fn(R, R, Binary32) -> R>(
        self,
        target: Placed<R>,
        share: Binary32,
        turn_share: Binary32,
        slerp: &S,
        after: Placed<R>,
    ) -> bool {
        &&& after.position == self.position.toward(target.position, share)
        &&& call_ensures(slerp, (self.rotation, target.rotation, turn_share), after.rotation)
    }
}

impl<R: Copy> Drawn<R> {
    /// Whether the carts become `after` on the way to their targets, where the
    /// given parts of the way are left; a cart without a target stays.
    pub open spec fn swings<S: Fn(R, R, Binary32) -> R>(
        self,
        targets: Seq<Option<Placed<R>>>,
        left: Binary32,
        turn_left: Binary32,
        slerp: &S,
        after: Seq<Placed<R>>,
    ) -> bool {
        &&& after.len() == self.carts@.len()
        &&& forall|i: int|
            0 <= i < after.len() ==> match targets[i] {
                Some(target) => self.carts@[i].placed.swings_to(
                    target,
                    Binary32::covered(left),
                    Binary32::covered(turn_left),
                    slerp,
                    #[trigger] after[i],
                ),
                None => after[i] == self.carts@[i].placed,
            }
    }

    /// Moves the carts toward their targets for `dt` seconds. `exp` is the
    /// exponential function, and `slerp` turns a rotation a share of the way
    /// to another.
    pub fn swing<E: Fn(Binary32) -> Binary32, S: Fn(R, R, Binary32) -> R>(
        &self,
        targets: &Vec<Option<Placed<R>>>,
        dt: Binary32,
        exp: &E,
        slerp: &S,
    ) -> (after: Vec<Placed<R>>)
        requires
            targets@.len() == self.carts@.len(),
            forall|x: Binary32| #[trigger] call_requires(exp, (x,)),
            forall|from: R, to: R, share: Binary32| #[trigger]
                call_requires(slerp, (from, to, share)),
        ensures
            exists|left: Binary32, turn_left: Binary32|
                {
                    &&& call_ensures(
                        exp,
                        (Binary32::decay(Binary32 { bits: CART_RATE }, dt),),
                        left,
                    )
                    &&& call_ensures(
                        exp,
                        (Binary32::decay(Binary32 { bits: CART_TURN_RATE }, dt),),
                        turn_left,
                    )
                    &&& #[trigger] self.swings(targets@, left, turn_left, slerp, after@)
                },
    {
        let left: Binary32 = exp(dt.negated().times(Binary32 { bits: CART_RATE }));
        let turn_left: Binary32 = exp(dt.negated().times(Binary32 { bits: CART_TURN_RATE }));
        let share: Binary32 = (Binary32 { bits: ONE }).minus(left);
        let turn_share: Binary32 = (Binary32 { bits: ONE }).minus(turn_left);
        let mut after: Vec<Placed<R>> = Vec::new();
        let mut i: usize = 0;
        while i < self.carts.len()
            invariant
                i <= self.carts@.len(),
                targets@.len() == self.carts@.len(),
                forall|from: R, to: R, share: Binary32| #[trigger]
                    call_requires(slerp, (from, to, share)),
                after@.len() == i,
                forall|j: int|
                    0 <= j < i ==> match targets@[j] {
                        Some(target) => self.carts@[j].placed.swings_to(
                            target,
                            share,
                            turn_share,
                            slerp,
                            #[trigger] after@[j],
                        ),
                        None => after@[j] == self.carts@[j].placed,
                    },
            decreases self.carts@.len() - i,
        {
            let placed: Placed<R> = self.carts[i].placed;
            let moved: Placed<R> = match targets[i] {
                Some(target) => Placed {
                    position: placed.position.lerp(target.position, share),
                    rotation: slerp(placed.rotation, target.rotation, turn_share),
                },
                None => placed,
            };
            after.push(moved);
            i = i + 1;
        }
        assert(self.swings(targets@, left, turn_left, slerp, after@));
        after
    }
}

impl CameraMove {
    /// How the camera follows a player, where `offset` is its place relative
    /// to the player and `ahead` the direction in which the player looks.
    pub open spec fn following(
        camera: Vec3,
        player: Vec3,
        offset: Vec3,
        ahead: Vec3,
        share: Binary32,
    ) -> CameraMove {
        CameraMove {
            position: camera.toward(player.more(offset), share),
            look_at: player.more(ahead.scaled(Binary32 { bits: LOOK_AHEAD })),
            share,
        }
    }
}

impl Session {
    /// Moves the camera behind the client's own player for `dt` seconds, once
    /// the server has welcomed the client. `exp` is the exponential function.
    pub fn update_follow_cam<E: Fn(Binary32) -> Binary32>(
        &self,
        dt: Binary32,
        camera: Vec3,
        player: Vec3,
        offset: Vec3,
        ahead: Vec3,
        exp: &E,
    ) -> (moved: Option<CameraMove>)
        requires
            forall|x: Binary32| #[trigger] call_requires(exp, (x,)),
        ensures
            self@.client.id is None ==> moved is None,
            self@.client.id is Some ==> exists|left: Binary32|
                {
                    &&& call_ensures(
                        exp,
                        (Binary32::decay(Binary32 { bits: CAMERA_RATE }, dt),),
                        left,
                    )
                    &&& moved == Some(
                        CameraMove::following(
                            camera,
                            player,
                            offset,
                            ahead,
                            #[trigger] Binary32::covered(left),
                        ),
                    )
                },
    {
        if self.client.id.is_none() {
            return None;
        }
        let share: Binary32 = Binary32::smooth(Binary32 { bits: CAMERA_RATE }, dt, exp);
        Some(
            CameraMove {
                position: camera.lerp(player.plus(offset), share),
                look_at: player.plus(ahead.times(Binary32 { bits: LOOK_AHEAD })),
                share,
            },
        )
    }
}

} // verus!
