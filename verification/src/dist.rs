use vstd::prelude::*;

verus! {

/// The cos^2(theta) orientation distribution over theta in [0, pi/2].
///
/// The distribution is parameter-free: drawing from it applies the
/// inverse-transform map theta = acos(sqrt(u)) to a single uniform draw
/// u in [0, 1), which maps u = 0 to pi/2 and u -> 1 to theta -> 0. The
/// transform is transcendental, so the caller applies it to its own
/// uniform source and hands the geometry only the scaled sine and cosine
/// of the resulting angle.
pub struct CustomDistribution {
}

impl CustomDistribution {
    pub fn new() -> (d: CustomDistribution) {
        CustomDistribution {  }
    }
}

} // verus!
