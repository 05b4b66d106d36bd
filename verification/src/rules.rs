//! The rules of motion, of eating and of crashing, one player at a time.

use crate::binary32::Binary32;
use crate::world::{Item, PlayerState, PlayerView, TurnInput, Vec3};
use vstd::prelude::*;

verus! {

/// The length of a tick in seconds, 0.1.
pub const TICK_SECONDS: u32 = 0x3dcc_cccd;

/// The height at which players hover, 0.5.
pub const HOVER_HEIGHT: u32 = 0x3f00_0000;

/// How near a player must come to an item to collect it, 0.7.
pub const ITEM_REACH: u32 = 0x3f33_3333;

/// How near a player must come to a train to crash into it, 0.5.
pub const CRASH_REACH: u32 = 0x3f00_0000;

#[derive(Debug, Clone)]
pub struct GameConfig {
    pub world_size: Binary32,
    pub player_speed: Binary32,
    pub turn_speed: Binary32,
    pub initial_length: usize,
    pub item_spawn_every_ticks: u64,
}

impl GameConfig {
    /// The configuration of a world of a given size, all else as by default:
    /// speed 6, turning 2.5 radians a second, three carts, an item every
    /// twenty ticks.
    pub open spec fn sized(world_size: Binary32) -> GameConfig {
        GameConfig {
            world_size,
            player_speed: Binary32 { bits: 0x40c0_0000 },
            turn_speed: Binary32 { bits: 0x4020_0000 },
            initial_length: 3,
            item_spawn_every_ticks: 20,
        }
    }

    pub fn with_world_size(world_size: Binary32) -> (cfg: GameConfig)
        ensures
            cfg == Self::sized(world_size),
    {
        GameConfig {
            world_size,
            player_speed: Binary32 { bits: 0x40c0_0000 },
            turn_speed: Binary32 { bits: 0x4020_0000 },
            initial_length: 3,
            item_spawn_every_ticks: 20,
        }
    }
}

impl Default for GameConfig {
    /// A world that reaches 64 to each side.
    fn default() -> (cfg: GameConfig)
        ensures
            cfg == GameConfig::sized(Binary32 { bits: 0x4280_0000 }),
    {
        GameConfig::with_world_size(Binary32 { bits: 0x4280_0000 })
    }
}

/// The direction of an angle: its sine and its cosine.
#[derive(Debug, Clone, Copy, PartialEq, Eq, Structural)]
pub struct Heading {
    pub sin: Binary32,
    pub cos: Binary32,
}

impl Binary32 {
    /// A coordinate brought back into the world: past one edge it reappears
    /// at the other.
    pub open spec fn wrapped(self, world_size: Binary32) -> Binary32 {
        let low = if self.below(world_size.opposite()) {
            world_size
        } else {
            self
        };
        if world_size.below(low) {
            world_size.opposite()
        } else {
            low
        }
    }

    pub fn wrap(self, world_size: Binary32) -> (r: Binary32)
        ensures
            r == self.wrapped(world_size),
    {
        let low: Binary32 = if self.lt(world_size.negated()) {
            world_size
        } else {
            self
        };
        if world_size.lt(low) {
            world_size.negated()
        } else {
            low
        }
    }

    /// An angle after the turn of one tick.
    pub open spec fn turned(self, input: Option<TurnInput>, angle: Binary32) -> Binary32 {
        match input {
            Some(TurnInput::Left) => self.sum(angle),
            Some(TurnInput::Right) => self.difference(angle),
            _ => self,
        }
    }

    pub fn turn(self, input: Option<TurnInput>, angle: Binary32) -> (r: Binary32)
        ensures
            r == self.turned(input, angle),
    {
        match input {
            Some(TurnInput::Left) => self.plus(angle),
            Some(TurnInput::Right) => self.minus(angle),
            _ => self,
        }
    }

    /// The square of a number.
    pub open spec fn squared(self) -> Binary32 {
        self.product(self)
    }
}

impl Vec3 {
    /// The square of the distance between two places, height left aside.
    pub open spec fn distance_squared(self, other: Vec3) -> Binary32 {
        self.x.difference(other.x).squared().sum(self.z.difference(other.z).squared())
    }

    /// Whether two places lie within a given distance, height left aside.
    pub open spec fn near(self, other: Vec3, reach: Binary32) -> bool {
        self.distance_squared(other).at_most(reach.squared())
    }

    pub fn is_near(self, other: Vec3, reach: Binary32) -> (r: bool)
        ensures
            r == self.near(other, reach),
    {
        let dx: Binary32 = self.x.minus(other.x);
        let dz: Binary32 = self.z.minus(other.z);
        let dist_sq: Binary32 = dx.times(dx).plus(dz.times(dz));
        dist_sq.le(reach.times(reach))
    }

    /// The place reached in a given time, before any edge is looked at.
    pub open spec fn moved(
        self,
        heading: Heading,
        speed: Binary32,
        seconds: Binary32,
    ) -> Vec3 {
        Vec3 {
            x: self.x.sum(heading.sin.product(speed).product(seconds)),
            y: Binary32 { bits: HOVER_HEIGHT },
            z: self.z.sum(heading.cos.product(speed).product(seconds)),
        }
    }

    pub fn forward(self, heading: Heading, speed: Binary32, seconds: Binary32) -> (r: Vec3)
        ensures
            r == self.moved(heading, speed, seconds),
    {
        Vec3 {
            x: self.x.plus(heading.sin.times(speed).times(seconds)),
            y: Binary32 { bits: HOVER_HEIGHT },
            z: self.z.plus(heading.cos.times(speed).times(seconds)),
        }
    }

    /// A place with both its horizontal coordinates brought back into the
    /// world.
    pub open spec fn wrapped(self, world_size: Binary32) -> Vec3 {
        Vec3 { x: self.x.wrapped(world_size), y: self.y, z: self.z.wrapped(world_size) }
    }

    pub fn wrap(self, world_size: Binary32) -> (r: Vec3)
        ensures
            r == self.wrapped(world_size),
    {
        Vec3 { x: self.x.wrap(world_size), y: self.y, z: self.z.wrap(world_size) }
    }
}

impl PlayerView {
    /// The angle after the turn of one tick.
    pub open spec fn new_rotation(self, input: Option<TurnInput>, cfg: GameConfig) -> Binary32 {
        self.rotation_y.turned(input, cfg.turn_speed.product(Binary32 { bits: TICK_SECONDS }))
    }

    /// The player after turning and moving for one tick.
    pub open spec fn advanced(
        self,
        input: Option<TurnInput>,
        heading: Heading,
        cfg: GameConfig,
    ) -> PlayerView {
        PlayerView {
            rotation_y: self.new_rotation(input, cfg),
            position: self.position.moved(
                heading,
                cfg.player_speed,
                Binary32 { bits: TICK_SECONDS },
            ).wrapped(cfg.world_size),
            ..self
        }
    }

    /// The player after the train has followed: the head moves to the current
    /// place, and the last cart comes along unless an item was collected.
    pub open spec fn followed(self, grew: bool) -> PlayerView {
        let longer = seq![self.position] + self.train;
        PlayerView {
            train: if !grew && longer.len() > 1 {
                longer.drop_last()
            } else {
                longer
            },
            ..self
        }
    }

    /// Whether the player is near enough to collect an item.
    pub open spec fn can_collect(self, item: Item) -> bool {
        self.position.near(item.pos, Binary32 { bits: ITEM_REACH })
    }

    /// Whether the player has run into another's train.
    pub open spec fn hits(self, other: PlayerView) -> bool {
        exists|i: int|
            0 <= i < other.train.len() && self.position.near(
                #[trigger] other.train[i],
                Binary32 { bits: CRASH_REACH },
            )
    }
}

impl PlayerState {
    /// Turns the player for one tick.
    pub fn turn(&mut self, input: Option<TurnInput>, cfg: &GameConfig)
        ensures
            final(self)@ == (PlayerView {
                rotation_y: old(self)@.new_rotation(input, *cfg),
                ..old(self)@
            }),
    {
        let angle: Binary32 = cfg.turn_speed.times(Binary32 { bits: TICK_SECONDS });
        self.rotation_y = self.rotation_y.turn(input, angle);
    }

    /// Moves the player for one tick, in the direction of its angle.
    pub fn travel(&mut self, heading: Heading, cfg: &GameConfig)
        ensures
            final(self)@ == (PlayerView {
                position: old(self)@.position.moved(
                    heading,
                    cfg.player_speed,
                    Binary32 { bits: TICK_SECONDS },
                ).wrapped(cfg.world_size),
                ..old(self)@
            }),
    {
        let seconds: Binary32 = Binary32 { bits: TICK_SECONDS };
        self.position = self.position.forward(heading, cfg.player_speed, seconds).wrap(
            cfg.world_size,
        );
    }

    /// Lets the train follow its head.
    pub fn follow(&mut self, grew: bool)
        ensures
            final(self)@ == old(self)@.followed(grew),
    {
        self.train.push_front(self.position);
        if !grew && self.train.len() > 1 {
            self.train.pop_back();
            assert(self.train@ == (seq![old(self).position] + old(self).train@).drop_last());
        }
    }

    /// Whether the player has run into another's train.
    pub fn has_hit(&self, other: &PlayerState) -> (r: bool)
        ensures
            r == self@.hits(other@),
    {
        let mut i: usize = 0;
        while i < other.train.len()
            invariant
                i <= other.train@.len(),
                forall|j: int|
                    0 <= j < i ==> !self.position.near(
                        #[trigger] other.train@[j],
                        Binary32 { bits: CRASH_REACH },
                    ),
            decreases other.train@.len() - i,
        {
            if self.position.is_near(other.train[i], Binary32 { bits: CRASH_REACH }) {
                assert(self.position.near(
                    other@.train[i as int],
                    Binary32 { bits: CRASH_REACH },
                ));
                return true;
            }
            i = i + 1;
        }
        false
    }
}

} // verus!
