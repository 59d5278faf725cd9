use vstd::prelude::*;

verus! {

/// A fresh random identifier.
///
/// Trusted: `uuid::Uuid::new_v4` draws a random version-4 UUID, returned as
/// its 128-bit value. Nothing is promised of the value.
#[verifier::external_body]
pub fn new_id() -> (id: u128) {
    uuid::Uuid::new_v4().as_u128()
}

} // verus!
