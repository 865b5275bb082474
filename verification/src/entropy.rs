use vstd::prelude::*;

verus! {

/// Relies on rand::random: one independent draw from the thread-local
/// generator.  Nothing is promised of the value.
#[verifier::external_body]
fn random_u32() -> (r: u32) {
    rand::random()
}

/// A uniform fixed-point fraction in [0, 1): the low sixteen bits of one
/// random draw.
pub fn random_fraction() -> (r: i64)
    ensures
        0 <= r < 65536,
{
    let v = random_u32();
    (v % 65536) as i64
}

} // verus!
