//! The ground: its grid of lines and its walls.

use crate::binary32::Binary32;
use crate::client::session::ClientInfo;
use crate::world::Vec3;
use vstd::prelude::*;

verus! {

/// The height of the walls, 3.
pub const WALL_HEIGHT: u32 = 0x4040_0000;

/// The thickness of the walls, 0.5.
pub const WALL_THICKNESS: u32 = 0x3f00_0000;

/// Two.
pub const TWO: u32 = 0x4000_0000;

/// The thickness of the major lines, 0.05.
pub const MAJOR_THICKNESS: u32 = 0x3d4c_cccd;

/// The thickness of all other lines, 0.02.
pub const THIN_THICKNESS: u32 = 0x3ca3_d70a;

/// Every how many lines there is a major one.
pub const MAJOR_EVERY: i32 = 4;

/// The axis along which a line runs.
#[derive(Debug, Clone, Copy, PartialEq, Eq, Structural)]
pub enum Axis {
    X,
    Z,
}

/// A color, with channels from zero to one.
#[derive(Debug, Clone, Copy, PartialEq, Eq, Structural, Hash)]
pub struct LineColor {
    pub r: Binary32,
    pub g: Binary32,
    pub b: Binary32,
}

/// A line of the grid: along one axis, at a place on the other.
#[derive(Debug, Clone, Copy, PartialEq, Eq, Structural)]
pub struct GridLine {
    pub along: Axis,
    pub place: Binary32,
    pub thickness: Binary32,
    pub color: LineColor,
}

/// A wall: how large it is, and where its middle stands.
#[derive(Debug, Clone, Copy, PartialEq, Eq, Structural)]
pub struct Wall {
    pub size: Vec3,
    pub middle: Vec3,
}

/// The lines, which are all equally long, and the walls.
pub struct Grid {
    pub length: Binary32,
    pub lines: Vec<GridLine>,
    pub walls: Vec<Wall>,
}

/// Whether the ground has been laid.
#[derive(Debug, Clone, Copy, PartialEq, Eq, Structural)]
pub struct GridSpawned {
    pub spawned: bool,
}

impl LineColor {
    /// The color of the line at a whole number, along a given axis.
    ///
    /// The lines through the middle are green along X and red along Z; of the
    /// others the major ones are blue and all else is dark.
    pub open spec fn at(along: Axis, i: int) -> LineColor {
        if i == 0 {
            match along {
                // 0.3, 0.85, 0.3
                Axis::X => LineColor {
                    r: Binary32 { bits: 0x3e99_999a },
                    g: Binary32 { bits: 0x3f59_999a },
                    b: Binary32 { bits: 0x3e99_999a },
                },
                // 0.85, 0.3, 0.3
                Axis::Z => LineColor {
                    r: Binary32 { bits: 0x3f59_999a },
                    g: Binary32 { bits: 0x3e99_999a },
                    b: Binary32 { bits: 0x3e99_999a },
                },
            }
        } else if i % (MAJOR_EVERY as int) == 0 {
            // 0.22, 0.36, 0.5
            LineColor {
                r: Binary32 { bits: 0x3e61_47ae },
                g: Binary32 { bits: 0x3eb8_51ec },
                b: Binary32 { bits: 0x3f00_0000 },
            }
        } else {
            // 0.12, 0.16, 0.2
            LineColor {
                r: Binary32 { bits: 0x3df5_c28f },
                g: Binary32 { bits: 0x3e23_d70a },
                b: Binary32 { bits: 0x3e4c_cccd },
            }
        }
    }

    fn pick(along: Axis, i: i32) -> (color: LineColor)
        ensures
            color == Self::at(along, i as int),
    {
        if i == 0 {
            match along {
                Axis::X => LineColor {
                    r: Binary32 { bits: 0x3e99_999a },
                    g: Binary32 { bits: 0x3f59_999a },
                    b: Binary32 { bits: 0x3e99_999a },
                },
                Axis::Z => LineColor {
                    r: Binary32 { bits: 0x3f59_999a },
                    g: Binary32 { bits: 0x3e99_999a },
                    b: Binary32 { bits: 0x3e99_999a },
                },
            }
        } else if i % MAJOR_EVERY == 0 {
            LineColor {
                r: Binary32 { bits: 0x3e61_47ae },
                g: Binary32 { bits: 0x3eb8_51ec },
                b: Binary32 { bits: 0x3f00_0000 },
            }
        } else {
            LineColor {
                r: Binary32 { bits: 0x3df5_c28f },
                g: Binary32 { bits: 0x3e23_d70a },
                b: Binary32 { bits: 0x3e4c_cccd },
            }
        }
    }
}

impl GridLine {
    /// The line at a whole number, along a given axis; every fourth one is
    /// thicker.
    pub open spec fn at(along: Axis, i: int) -> GridLine {
        GridLine {
            along,
            place: Binary32::of_int(i),
            thickness: if i % (MAJOR_EVERY as int) == 0 {
                Binary32 { bits: MAJOR_THICKNESS }
            } else {
                Binary32 { bits: THIN_THICKNESS }
            },
            color: LineColor::at(along, i),
        }
    }

    pub fn new(along: Axis, i: i32) -> (line: GridLine)
        ensures
            line == Self::at(along, i as int),
    {
        GridLine {
            along,
            place: Binary32::from_i32(i),
            thickness: if i % MAJOR_EVERY == 0 {
                Binary32 { bits: MAJOR_THICKNESS }
            } else {
                Binary32 { bits: THIN_THICKNESS }
            },
            color: LineColor::pick(along, i),
        }
    }
}

impl Wall {
    /// The walls of a world: to the north, the south, the east and the west.
    pub open spec fn around(world_size: Binary32) -> Seq<Wall> {
        let zero = Binary32 { bits: 0 };
        let height = Binary32 { bits: WALL_HEIGHT };
        let thickness = Binary32 { bits: WALL_THICKNESS };
        let y = height.quotient(Binary32 { bits: TWO });
        let side = world_size.product(Binary32 { bits: TWO });
        let across = Vec3 { x: side, y: height, z: thickness };
        let along = Vec3 { x: thickness, y: height, z: side };
        seq![
            Wall { size: across, middle: Vec3 { x: zero, y, z: world_size } },
            Wall { size: across, middle: Vec3 { x: zero, y, z: world_size.opposite() } },
            Wall { size: along, middle: Vec3 { x: world_size, y, z: zero } },
            Wall { size: along, middle: Vec3 { x: world_size.opposite(), y, z: zero } },
        ]
    }

    pub fn build(world_size: Binary32) -> (walls: Vec<Wall>)
        ensures
            walls@ == Self::around(world_size),
    {
        let zero: Binary32 = Binary32 { bits: 0 };
        let height: Binary32 = Binary32 { bits: WALL_HEIGHT };
        let thickness: Binary32 = Binary32 { bits: WALL_THICKNESS };
        let y: Binary32 = height.over(Binary32 { bits: TWO });
        let side: Binary32 = world_size.times(Binary32 { bits: TWO });
        let across: Vec3 = Vec3 { x: side, y: height, z: thickness };
        let along: Vec3 = Vec3 { x: thickness, y: height, z: side };
        let mut walls: Vec<Wall> = Vec::new();
        walls.push(Wall { size: across, middle: Vec3 { x: zero, y, z: world_size } });
        walls.push(Wall { size: across, middle: Vec3 { x: zero, y, z: world_size.negated() } });
        walls.push(Wall { size: along, middle: Vec3 { x: world_size, y, z: zero } });
        walls.push(Wall { size: along, middle: Vec3 { x: world_size.negated(), y, z: zero } });
        assert(walls@ =~= Self::around(world_size));
        walls
    }
}

impl Grid {
    /// Whether the lines of a world can be numbered with 32 bits.
    pub open spec fn countable(world_size: Binary32) -> bool {
        let half = world_size.truncated();
        i32::MIN <= half * 2 && half * 2 + 2 <= i32::MAX
    }

    /// The lines of a world that has `half` of them on each side of the
    /// middle: for each whole number one along either axis.
    pub open spec fn all_lines(half: int) -> Seq<GridLine> {
        if half < 0 {
            Seq::empty()
        } else {
            Seq::new(
                (2 * (2 * half + 1)) as nat,
                |n: int|
                    if n % 2 == 0 {
                        GridLine::at(Axis::X, n / 2 - half)
                    } else {
                        GridLine::at(Axis::Z, n / 2 - half)
                    },
            )
        }
    }

    /// Lays out the ground of a world.
    pub fn spawn_wire_grid(world_size: Binary32) -> (grid: Grid)
        requires
            Self::countable(world_size),
        ensures
            grid.length == Binary32::of_int(world_size.truncated() * 2 + 2),
            grid.lines@ == Self::all_lines(world_size.truncated() as int),
            grid.walls@ == Wall::around(world_size),
    {
        let half: i32 = world_size.to_i32();
        let length: Binary32 = Binary32::from_i32(half * 2 + 2);
        let mut lines: Vec<GridLine> = Vec::new();
        if half >= 0 {
            let mut i: i32 = -half;
            while i <= half
                invariant
                    0 <= half,
                    half * 2 + 2 <= i32::MAX,
                    -half <= i <= half + 1,
                    lines@.len() == 2 * (i + half),
                    forall|n: int|
                        0 <= n < lines@.len() ==> #[trigger] lines@[n] == Self::all_lines(
                            half as int,
                        )[n],
                decreases half + 1 - i,
            {
                let ghost before = lines@;
                lines.push(GridLine::new(Axis::X, i));
                lines.push(GridLine::new(Axis::Z, i));
                proof {
                    let at = 2 * (i + half);
                    assert(at / 2 - half == i && (at + 1) / 2 - half == i);
                    assert forall|n: int| 0 <= n < lines@.len() implies #[trigger] lines@[n]
                        == Self::all_lines(half as int)[n] by {
                        if n < at {
                            assert(lines@[n] == before[n]);
                        }
                    }
                }
                i = i + 1;
            }
        }
        assert(lines@ =~= Self::all_lines(half as int));
        Grid { length, lines, walls: Wall::build(world_size) }
    }
}

impl GridSpawned {
    /// Whether there is nothing to lay out: it has been done, or the server
    /// has not told yet how large the world is.
    pub open spec fn waits(self, world_size: Binary32) -> bool {
        self.spawned || world_size.same(Binary32 { bits: 0 })
    }

    /// Lays out the ground once the server has told how large the world is.
    pub fn spawn_grid_once(&mut self, client: &ClientInfo) -> (grid: Option<Grid>)
        requires
            old(self).waits(client.world_size) || Grid::countable(client.world_size),
        ensures
            ({
                let waits = old(self).waits(client.world_size);
                &&& waits ==> grid is None && *final(self) == *old(self)
                &&& !waits ==> {
                    &&& final(self).spawned
                    &&& grid matches Some(grid)
                    &&& grid.length == Binary32::of_int(client.world_size.truncated() * 2 + 2)
                    &&& grid.lines@ == Grid::all_lines(client.world_size.truncated() as int)
                    &&& grid.walls@ == Wall::around(client.world_size)
                }
            }),
    {
        if self.spawned {
            return None;
        }
        if client.world_size.equals(Binary32 { bits: 0 }) {
            return None;
        }
        self.spawned = true;
        Some(Grid::spawn_wire_grid(client.world_size))
    }
}

} // verus!
