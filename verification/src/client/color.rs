//! The colors of the carts.

use crate::binary32::Binary32;
use crate::client::scene::CartKey;
use crate::world::PlayerId;
use std::collections::hash_map::DefaultHasher;
use std::hash::{Hash, Hasher};
use vstd::arithmetic::power::*;
use vstd::prelude::*;
use vstd::std_specs::hash::*;

verus! {

/// The largest value of a byte, 255.
pub const BYTE_MAX: u32 = 0x437f_0000;

/// How much a byte can brighten a channel, 0.7.
pub const BRIGHTENING: u32 = 0x3f33_3333;

/// The least brightness of a channel, 0.3.
pub const DIMMEST: u32 = 0x3e99_999a;

/// A color, with channels from zero to one.
#[derive(Debug, Clone, Copy, PartialEq, Eq, Structural)]
pub struct CartColor {
    pub r: Binary32,
    pub g: Binary32,
    pub b: Binary32,
}

/// One byte of a number, the lowest at index zero.
pub open spec fn byte_of(n: nat, index: nat) -> u8 {
    (n / pow(256, index) as nat % 256) as u8
}

/// The bytes of an id, the highest first.
pub open spec fn id_bytes(id: PlayerId) -> Seq<u8> {
    Seq::new(16, |i: int| byte_of(id as nat, (15 - i) as nat))
}

/// Whether these are the bytes of a number in the order of some machine: from
/// the lowest to the highest, or the other way round.
pub open spec fn native_bytes(n: usize, bytes: Seq<u8>) -> bool {
    let size = usize::BITS as nat / 8;
    ||| bytes == Seq::new(size, |i: int| byte_of(n as nat, i as nat))
    ||| bytes == Seq::new(size, |i: int| byte_of(n as nat, (size - 1 - i) as nat))
}

/// Feeds an id to a hasher with the `Hash` of `uuid::Uuid`.
///
/// Trusted: it writes to the hasher once, namely the sixteen bytes of the id
/// from the highest to the lowest.
#[verifier::external_body]
fn hash_id(id: PlayerId, hasher: &mut DefaultHasher)
    ensures
        final(hasher)@ == old(hasher)@.push(id_bytes(id)),
{
    uuid::Uuid::from_u128(id).hash(hasher)
}

/// The bytes of a number in memory, by `usize::to_ne_bytes`.
///
/// Trusted: they are the bytes of the number, in the order of the machine.
/// Which of the two orders that is, is left open.
#[verifier::external_body]
fn bytes_in_memory(n: usize) -> (bytes: Vec<u8>)
    ensures
        native_bytes(n, bytes@),
{
    n.to_ne_bytes().to_vec()
}

impl CartColor {
    /// The brightness that a byte stands for.
    pub open spec fn channel(byte: u8) -> Binary32 {
        Binary32::of_int(byte as int).quotient(Binary32 { bits: BYTE_MAX }).product(
            Binary32 { bits: BRIGHTENING },
        ).sum(Binary32 { bits: DIMMEST })
    }

    /// The color that a hash stands for: its three lowest bytes.
    pub open spec fn of_hash(hash: u64) -> CartColor {
        CartColor {
            r: Self::channel((hash & 0xff) as u8),
            g: Self::channel(((hash >> 8u64) & 0xff) as u8),
            b: Self::channel(((hash >> 16u64) & 0xff) as u8),
        }
    }

    fn brightness(byte: u8) -> (r: Binary32)
        ensures
            r == Self::channel(byte),
    {
        Binary32::from_u32(byte as u32).over(Binary32 { bits: BYTE_MAX }).times(
            Binary32 { bits: BRIGHTENING },
        ).plus(Binary32 { bits: DIMMEST })
    }

    pub fn from_hash(hash: u64) -> (color: CartColor)
        ensures
            color == Self::of_hash(hash),
    {
        CartColor {
            r: Self::brightness((hash & 0xff) as u8),
            g: Self::brightness(((hash >> 8u64) & 0xff) as u8),
            b: Self::brightness(((hash >> 16u64) & 0xff) as u8),
        }
    }
}

impl CartKey {
    /// Whether a color is that of a cart, on a machine of either byte order:
    /// the color that the hash of the owner's id and of the order stands for.
    pub open spec fn has_color(self, color: CartColor) -> bool {
        exists|bytes: Seq<u8>| #[trigger]
            native_bytes(self.order, bytes) && color == CartColor::of_hash(
                DefaultHasher::spec_finish(seq![id_bytes(self.player), bytes]),
            )
    }

    /// The color of a cart.
    pub fn cart_color(&self) -> (color: CartColor)
        ensures
            self.has_color(color),
    {
        let mut hasher: DefaultHasher = DefaultHasher::new();
        hash_id(self.player, &mut hasher);
        let bytes: Vec<u8> = bytes_in_memory(self.order);
        hasher.write(bytes.as_slice());
        assert(hasher@ =~= seq![id_bytes(self.player), bytes@]);
        CartColor::from_hash(hasher.finish())
    }
}

} // verus!
