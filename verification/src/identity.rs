//! Identifiers of records.

use vstd::prelude::*;

verus! {

/// `id` has the shape of a randomly drawn identifier: the four bits that give
/// the version hold 4, the two that give the variant hold binary 10.
pub open spec fn is_random_id(id: u128) -> bool {
    id & 0xF000_C000_0000_0000_0000u128 == 0x4000_8000_0000_0000_0000u128
}

/// `uuid::Uuid::new_v4`, read through `Uuid::as_u128`: an identifier drawn at
/// random, with the version and variant bits set as that function sets them.
/// Two calls may give any two such values. The call does not return where
/// the machine has no random numbers to give. Trusted, not proved.
#[verifier::external_body]
pub(crate) fn fresh_id() -> (id: u128)
    ensures
        is_random_id(id),
{
    uuid::Uuid::new_v4().as_u128()
}

} // verus!
