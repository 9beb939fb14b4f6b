//! Identifiers under which imported files are stored: random UUIDs, handled
//! as 128-bit numbers.

use vstd::prelude::*;

verus! {

/// Whether `id`, read as the sixteen bytes of a UUID in big-endian order,
/// carries version 4 (random) and the RFC 4122 variant.
pub open spec fn is_random_uuid(id: u128) -> bool {
    &&& ((id >> 76u128) & 0xf) == 4
    &&& ((id >> 62u128) & 0x3) == 2
}

/// Draws a fresh identifier from `uuid::Uuid::new_v4` and hands it out as the
/// 128-bit number that `Uuid::as_u128` gives for it.
///
/// Trusted, not proved: `new_v4` fills sixteen bytes from the operating
/// system's random source, then sets the two highest bits of byte 8 to `10`
/// and the high half of byte 6 to `4`; `as_u128` reads the bytes in
/// big-endian order. Nothing else is claimed of the value: that two draws
/// differ is overwhelmingly likely and not certain. The call aborts the
/// process when the operating system can supply no random bytes.
#[verifier::external_body]
pub(crate) fn fresh_id() -> (id: u128)
    ensures
        is_random_uuid(id),
{
    uuid::Uuid::new_v4().as_u128()
}

} // verus!
