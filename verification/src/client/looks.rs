//! How carts and the ground look, told from what they are made of.

use crate::binary32::Binary32;
use crate::client::color::CartColor;
use crate::client::grid::{Axis, Grid, GridSpawned, Wall};
use crate::client::scene::CartKey;
use crate::world::PlayerId;
use std::collections::hash_map::DefaultHasher;
use vstd::arithmetic::div_mod::*;
use vstd::arithmetic::power::*;
use vstd::prelude::*;
use vstd::std_specs::hash::*;

verus! {

impl CartColor {
    /// Only the three lowest bytes of a hash count: red is the lowest, green
    /// what red would be a byte further up, and blue two.
    pub proof fn each_byte_has_its_channel(hash: u64)
        ensures
            Self::of_hash(hash).r == Self::of_hash(hash % 256).r,
            Self::of_hash(hash).g == Self::of_hash(hash / 256).r,
            Self::of_hash(hash).b == Self::of_hash(hash / 65536).r,
    {
        assert(hash & 0xff == (hash % 256) & 0xff) by (bit_vector);
        assert((hash >> 8u64) & 0xff == (hash / 256) & 0xff) by (bit_vector);
        assert((hash >> 16u64) & 0xff == (hash / 65536) & 0xff) by (bit_vector);
    }

    /// A byte brightens its channel in proportion, from 0.3 on by up to 0.7.
    pub proof fn bytes_brighten(byte: u8)
        ensures
            Self::of_hash(byte as u64).r == Binary32::of_int(byte as int).quotient(
                Binary32 { bits: 0x437f_0000 },
            ).product(Binary32 { bits: 0x3f33_3333 }).sum(Binary32 { bits: 0x3e99_999a }),
    {
        let hash = byte as u64;
        assert(hash & 0xff == hash) by (bit_vector)
            requires
                hash < 256,
        ;
    }
}

impl CartKey {
    /// The number that bytes make up, the highest first.
    pub open spec fn composed(bytes: Seq<u8>) -> nat
        decreases bytes.len(),
    {
        if bytes.len() == 0 {
            0
        } else {
            Self::composed(bytes.drop_last()) * 256 + bytes.last() as nat
        }
    }

    proof fn composing_digits(n: nat, size: nat, k: nat)
        requires
            k <= size,
            n < pow(256, size),
        ensures
            Self::composed(
                Seq::new(
                    size,
                    |i: int| crate::client::color::byte_of(n, (size - 1 - i) as nat),
                ).take(k as int),
            ) == n / pow(256, (size - k) as nat) as nat,
        decreases k,
    {
        let digits = Seq::new(
            size,
            |i: int| crate::client::color::byte_of(n, (size - 1 - i) as nat),
        );
        lemma_pow_positive(256, (size - k) as nat);
        if k == 0 {
            assert(digits.take(0) =~= Seq::empty());
            lemma_basic_div(n as int, pow(256, size));
        } else {
            let e = (size - k) as nat;
            let p = pow(256, e);
            Self::composing_digits(n, size, (k - 1) as nat);
            assert(digits.take(k as int).drop_last() =~= digits.take(k - 1));
            lemma_pow_positive(256, e);
            lemma_pow1(256);
            lemma_pow_adds(256, e, 1);
            lemma_div_denominator(n as int, p, 256);
            let x = n as int / p;
            lemma_fundamental_div_mod(x, 256);
        }
    }

    proof fn squaring(value: int, e: nat)
        requires
            pow(256, e) == value,
        ensures
            pow(256, 2 * e) == value * value,
    {
        lemma_pow_adds(256, e, e);
    }

    /// The bytes of an id are its own: they make it up again.
    pub proof fn bytes_make_up_what_they_are_of(id: PlayerId)
        ensures
            crate::client::color::id_bytes(id).len() == 16,
            Self::composed(crate::client::color::id_bytes(id)) == id,
    {
        let bytes = crate::client::color::id_bytes(id);
        lemma_pow1(256);
        Self::squaring(256, 1);
        Self::squaring(0x1_0000, 2);
        Self::squaring(0x1_0000_0000, 4);
        Self::squaring(0x1_0000_0000_0000_0000, 8);
        Self::composing_digits(id as nat, 16, 16);
        lemma_pow0(256);
        lemma_div_basics(id as int);
        assert(bytes.take(16) =~= bytes);
        assert(bytes =~= Seq::new(
            16,
            |i: int| crate::client::color::byte_of(id as nat, (16 - 1 - i) as nat),
        ));
    }

    /// The color of a cart comes from two things that were hashed and nothing
    /// else: the bytes of its owner's id, and as many bytes as an order has.
    pub proof fn the_color_is_the_carts_own(self, color: CartColor)
        requires
            self.has_color(color),
        ensures
            exists|written: Seq<Seq<u8>>|
                {
                    &&& color == CartColor::of_hash(#[trigger] DefaultHasher::spec_finish(written))
                    &&& written.len() == 2
                    &&& Self::composed(written[0]) == self.player
                    &&& written[1].len() == usize::BITS as nat / 8
                    &&& (forall|i: int|
                        0 <= i < written[1].len() ==> #[trigger] written[1][i] == (self.order
                            as nat / pow(256, i as nat) as nat % 256) as u8) || (forall|i: int|
                        0 <= i < written[1].len() ==> #[trigger] written[1].reverse()[i] == (self.order as nat / pow(256, i as nat) as nat % 256) as u8)
                },
    {
        let bytes = choose|bytes: Seq<u8>| #[trigger]
            crate::client::color::native_bytes(self.order, bytes) && color == CartColor::of_hash(
                DefaultHasher::spec_finish(
                    seq![crate::client::color::id_bytes(self.player), bytes],
                ),
            );
        Self::bytes_make_up_what_they_are_of(self.player);
        let written = seq![crate::client::color::id_bytes(self.player), bytes];
        assert(color == CartColor::of_hash(DefaultHasher::spec_finish(written)));
    }
}

impl Grid {
    /// A world of `half` units to each side has a line along either axis at
    /// every whole number from `-half` to `half`, in this order, and no others.
    /// Those at multiples of four are 0.05 thick and blue, the others 0.02 and
    /// dark; the one in the middle is green along X and red along Z.
    pub proof fn a_line_at_every_whole_number(half: int, i: int)
        requires
            0 <= half,
            -half <= i <= half,
        ensures
            ({
                let lines = Self::all_lines(half);
                let x = lines[2 * (i + half)];
                let z = lines[2 * (i + half) + 1];
                &&& lines.len() == 4 * half + 2
                &&& x.along == Axis::X
                &&& z.along == Axis::Z
                &&& x.place == Binary32::of_int(i)
                &&& z.place == Binary32::of_int(i)
                &&& x.thickness.bits == z.thickness.bits
                &&& x.thickness.bits == if i % 4 == 0 {
                    0x3d4c_cccdu32
                } else {
                    0x3ca3_d70au32
                }
                &&& i == 0 ==> {
                    &&& x.color.r.bits == 0x3e99_999a
                    &&& x.color.g.bits == 0x3f59_999a
                    &&& x.color.b.bits == 0x3e99_999a
                    &&& z.color.r.bits == 0x3f59_999a
                    &&& z.color.g.bits == 0x3e99_999a
                    &&& z.color.b.bits == 0x3e99_999a
                }
                &&& i != 0 ==> {
                    &&& x.color == z.color
                    &&& i % 4 == 0 ==> {
                        &&& x.color.r.bits == 0x3e61_47ae
                        &&& x.color.g.bits == 0x3eb8_51ec
                        &&& x.color.b.bits == 0x3f00_0000
                    }
                    &&& i % 4 != 0 ==> {
                        &&& x.color.r.bits == 0x3df5_c28f
                        &&& x.color.g.bits == 0x3e23_d70a
                        &&& x.color.b.bits == 0x3e4c_cccd
                    }
                }
            }),
    {
    }

    /// A world with less than no size has no lines.
    pub proof fn no_lines_inside_out(half: int)
        requires
            half < 0,
        ensures
            Self::all_lines(half).len() == 0,
    {
    }

    /// The lines can be numbered exactly where twice the size, and two more,
    /// fits in 32 bits.
    pub proof fn when_lines_can_be_numbered(world_size: Binary32)
        ensures
            Self::countable(world_size) <==> -0x4000_0000 <= world_size.truncated()
                <= 0x3fff_fffe,
    {
    }
}

impl Wall {
    /// The walls stand on the four edges, three high and half a unit thick,
    /// and each is as long as the world is wide.
    pub proof fn walls_stand_on_the_edges(world_size: Binary32)
        ensures
            ({
                let walls = Self::around(world_size);
                let zero = Binary32 { bits: 0 };
                let three = Binary32 { bits: 0x4040_0000 };
                let two = Binary32 { bits: 0x4000_0000 };
                let half = Binary32 { bits: 0x3f00_0000 };
                &&& walls.len() == 4
                &&& walls[0].middle.z == world_size
                &&& walls[1].middle.z == world_size.opposite()
                &&& walls[2].middle.x == world_size
                &&& walls[3].middle.x == world_size.opposite()
                &&& walls[0].middle.x == zero && walls[1].middle.x == zero
                &&& walls[2].middle.z == zero && walls[3].middle.z == zero
                &&& walls[0].size == walls[1].size
                &&& walls[2].size == walls[3].size
                &&& walls[0].size.x == world_size.product(two)
                &&& walls[0].size.z == half
                &&& walls[2].size.x == half
                &&& walls[2].size.z == world_size.product(two)
                &&& forall|n: int|
                    0 <= n < 4 ==> (#[trigger] walls[n]).size.y == three && walls[n].middle.y
                        == three.quotient(two)
            }),
    {
    }
}

impl GridSpawned {
    /// The ground waits exactly for the size of the world, and is laid once.
    pub proof fn what_the_ground_waits_for(self, world_size: Binary32)
        ensures
            self.waits(world_size) <==> self.spawned || (!world_size.nan() && world_size.value()
                == 0),
    {
        Binary32::units_of_zero();
    }
}

} // verus!
