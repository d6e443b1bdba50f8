//! Monte Carlo estimation of the effective cross-sectional area that a
//! finite cylinder presents to a beam of parallel rays, when the cylinder
//! is tilted by an angle drawn from a cos^2 orientation distribution.
//!
//! The geometric core works on exact scaled-integer coordinates: a real
//! coordinate v is represented as the integer round(v * SCALE), and every
//! decision (the ray/cylinder hit test, the hit tally) is carried out with
//! exact integer arithmetic, so the verified contracts are exact statements
//! about rational geometry. Callers that work in floating point convert at
//! the boundary.

mod dist;
mod estimate;
mod hit;

pub use dist::CustomDistribution;
pub use estimate::count_hits;
pub use estimate::spec_hit_count;
pub use hit::COORD_LIMIT;
pub use hit::SCALE;
pub use hit::hit_at;
pub use hit::lemma_axis_aligned_disk;
pub use hit::lemma_boundary_miss;
pub use hit::lemma_hit_inside_sampling_rect;
pub use hit::lemma_hit_monotone_in_height;
pub use hit::ray_intersects_rotated_cylinder;
pub use hit::spec_hit;
