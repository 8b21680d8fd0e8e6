use bevy_turborand::prelude::DelegatedRng;
use bevy_turborand::prelude::RngComponent;
use vstd::prelude::*;

verus! {

/// The random source the dropper draws ranks from.
#[verifier::external_type_specification]
#[verifier::external_body]
pub struct ExRngComponent(RngComponent);

/// Relies on bevy_turborand's `DelegatedRng::i32` (turborand's `TurboRand::i32`):
/// a value drawn from the inclusive range `lo..=hi`, which panics when the
/// range is empty.
#[verifier::external_body]
pub(crate) fn roll_in_range(rng: &mut RngComponent, lo: i32, hi: i32) -> (r: i32)
    requires
        lo <= hi,
    ensures
        lo <= r <= hi,
{
    rng.i32(lo..=hi)
}

} // verus!
