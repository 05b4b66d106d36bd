//! Fresh ids.

use vstd::prelude::*;

verus! {

/// Whether 128 bits form a random UUID: version 4, of the common variant.
pub open spec fn is_random_uuid(id: u128) -> bool {
    &&& (id >> 76u128) & 0xf == 4
    &&& (id >> 62u128) & 0x3 == 2
}

/// Draws an id with `uuid::Uuid::new_v4`.
///
/// Trusted: the bits of the UUID it returns, as `as_u128` gives them, hold the
/// version number 4 and the two variant bits of RFC 9562. The other bits are
/// random, so nothing more is said of them; in particular two draws may
/// collide. The call aborts the thread where the operating system has no
/// random bytes to give.
#[verifier::external_body]
pub(crate) fn new_v4() -> (id: u128)
    ensures
        is_random_uuid(id),
{
    uuid::Uuid::new_v4().as_u128()
}

} // verus!
