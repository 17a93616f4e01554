//! Identifiers of events, maps and routes.
//!
//! An identifier is the 128-bit value of a random UUID. The store hands
//! identifiers out; a request never brings its own.

use vstd::prelude::*;

verus! {

/// The identifier of an event, a map or a route.
pub type Id = u128;

/// The bits of an identifier that hold the UUID version and variant.
pub const VERSION_AND_VARIANT_MASK: u128 = 0x0000_0000_0000_f000_c000_0000_0000_0000;

/// What those bits hold in a random UUID: version 4, RFC variant.
pub const RANDOM_VERSION_AND_VARIANT: u128 = 0x0000_0000_0000_4000_8000_0000_0000_0000;

/// Whether `id` has the shape of a random UUID.
pub open spec fn is_random_uuid(id: Id) -> bool {
    id & VERSION_AND_VARIANT_MASK == RANDOM_VERSION_AND_VARIANT
}

/// A new random identifier.
///
/// Calls `uuid::Uuid::new_v4` and takes the value out with `Uuid::as_u128`.
/// The bits are drawn from the operating system's random source, so all that
/// is claimed is what `new_v4` sets itself: the version and variant bits.
#[verifier::external_body]
pub(crate) fn mint_id() -> (id: Id)
    ensures
        is_random_uuid(id),
{
    uuid::Uuid::new_v4().as_u128()
}

/// Some identifier has the shape of a random UUID.
pub proof fn lemma_random_uuid_exists()
    ensures
        is_random_uuid(RANDOM_VERSION_AND_VARIANT),
{
    assert(0x0000_0000_0000_4000_8000_0000_0000_0000u128
        & 0x0000_0000_0000_f000_c000_0000_0000_0000u128
        == 0x0000_0000_0000_4000_8000_0000_0000_0000u128) by (bit_vector);
}

/// Whether `id` has the shape of a random UUID.
pub fn has_random_uuid_shape(id: Id) -> (ok: bool)
    ensures
        ok == is_random_uuid(id),
{
    id & VERSION_AND_VARIANT_MASK == RANDOM_VERSION_AND_VARIANT
}

} // verus!
