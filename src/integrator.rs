use vstd::prelude::*;

verus! {

/// Bounces after which a path ends with the emission of the surface it
/// reached.
pub const MAX_DEPTH: i32 = 50;

/// What the radiance estimator does with a ray at one bounce.
#[derive(Clone, Copy, Debug, PartialEq, Eq, Structural)]
pub enum Bounce {
    /// The ray left the scene: the result is the background radiance.
    Background,
    /// The path ends here: the result is the surface's emission alone.
    Emitted,
    /// Follow the material's specular ray at depth `next_depth`, weighted
    /// by its attenuation.
    Specular { next_depth: i32 },
    /// Sample a direction from the even mixture of the light-directed and
    /// the material's densities, follow it at depth `next_depth`, and add
    /// the weighted result to the emission.
    Diffuse { next_depth: i32 },
}

/// The estimator's decision for a ray at bounce `depth`: whether it hit
/// anything, and if so whether the material scattered it and whether the
/// scatter produced a specular ray.
pub open spec fn bounce_spec(hit: bool, depth: i32, is_scattered: bool, has_specular: bool) -> Bounce {
    if !hit {
        Bounce::Background
    } else if depth >= MAX_DEPTH || !is_scattered {
        Bounce::Emitted
    } else if has_specular {
        Bounce::Specular { next_depth: (depth + 1) as i32 }
    } else {
        Bounce::Diffuse { next_depth: (depth + 1) as i32 }
    }
}

/// A path goes on only from below the depth cutoff, and one bounce
/// deeper: no path is followed past `MAX_DEPTH` bounces.
pub proof fn lemma_paths_end(hit: bool, depth: i32, is_scattered: bool, has_specular: bool)
    ensures
        match bounce_spec(hit, depth, is_scattered, has_specular) {
            Bounce::Specular { next_depth } => next_depth == depth + 1 && next_depth <= MAX_DEPTH,
            Bounce::Diffuse { next_depth } => next_depth == depth + 1 && next_depth <= MAX_DEPTH,
            _ => true,
        },
{
}

pub fn next_bounce(hit: bool, depth: i32, is_scattered: bool, has_specular: bool) -> (b: Bounce)
    ensures
        b == bounce_spec(hit, depth, is_scattered, has_specular),
{
    if !hit {
        Bounce::Background
    } else if depth >= MAX_DEPTH || !is_scattered {
        Bounce::Emitted
    } else if has_specular {
        Bounce::Specular { next_depth: depth + 1 }
    } else {
        Bounce::Diffuse { next_depth: depth + 1 }
    }
}

} // verus!
