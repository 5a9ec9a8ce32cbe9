//! Identity generation for newly ingested log entries.

use vstd::prelude::*;

verus! {

/// Relies on uuid's `Uuid::new_v4` and `as_u128`: a fresh random identity
/// whose version nibble is 4 and whose variant bits are `10`, as the
/// generator fixes them; such a value is never zero.
#[verifier::external_body]
pub(crate) fn fresh_id() -> (r: u128)
    ensures
        r & 0xf0000000000000000000 == 0x40000000000000000000,
        r & 0xc000000000000000 == 0x8000000000000000,
        r != 0,
{
    uuid::Uuid::new_v4().as_u128()
}

} // verus!
