//! The radiance along a ray: what the surface it meets emits, plus what
//! comes in along the scattered ray, weakened by the surface; the sky where
//! the ray meets nothing; black once the bounces are spent.
//!
//! Tracing a ray through the scene and adding up colours are the caller's
//! part. This module follows the path from bounce to bounce.

use vstd::prelude::*;

verus! {

/// What tracing a ray through the scene brought back. `C` is the type of
/// colours and `Y` that of rays.
pub enum Met<C, Y> {
    /// The ray hit nothing; `sky` is the background along it.
    Miss { sky: C },
    /// The ray hit a surface that scattered no ray; `emitted` is what the
    /// surface emits.
    Absorbed { emitted: C },
    /// The ray hit a surface that emits `emitted` and scattered `ray`, whose
    /// light it passes on weakened by `attenuation`.
    Scattered { emitted: C, attenuation: C, ray: Y },
}

/// Whether `color` can be the radiance along `ray` with `depth` bounces
/// left, found by tracing `rays` rays. `trace` follows a ray through the
/// scene and `blend` puts an emission, an attenuation and the radiance
/// along the scattered ray together.
///
/// With no bounce left the radiance is `black` and no ray is traced. Else
/// the ray is traced: where it misses, the radiance is the sky; where the
/// surface scatters no ray, it is the emission alone; and else it is the
/// blend of emission, attenuation and the radiance along the scattered ray
/// with one bounce less.
pub open spec fn can_be_radiance<C, Y, T: Fn(&Y) -> Met<C, Y>, B: Fn(C, C, C) -> C>(
    trace: T,
    blend: B,
    black: C,
    ray: Y,
    depth: nat,
    color: C,
    rays: nat,
) -> bool
    decreases depth,
{
    if depth == 0 {
        color == black && rays == 0
    } else {
        exists|met: Met<C, Y>| #[trigger]
            trace.ensures((&ray,), met) && match met {
                Met::Miss { sky } => color == sky && rays == 1,
                Met::Absorbed { emitted } => color == emitted && rays == 1,
                Met::Scattered { emitted, attenuation, ray: next } => exists|incoming: C|
                    rays >= 1 && can_be_radiance(
                        trace,
                        blend,
                        black,
                        next,
                        (depth - 1) as nat,
                        incoming,
                        (rays - 1) as nat,
                    ) && #[trigger] blend.ensures((emitted, attenuation, incoming), color),
            }
    }
}

/// Whether the bounces of a path are spent, so that its radiance is black
/// and the scene need not be asked.
pub fn is_spent(depth: u64) -> (spent: bool)
    ensures
        spent == (depth == 0),
{
    depth == 0
}

/// Estimates the radiance along a ray that may bounce `depth` times.
/// `trace` follows one ray through the scene, `blend` computes emission
/// plus attenuation times incoming radiance, and `black` is the radiance of
/// a path whose bounces are spent.
pub fn ray_color<C, Y, T: Fn(&Y) -> Met<C, Y>, B: Fn(C, C, C) -> C>(
    ray: Y,
    depth: u64,
    black: C,
    trace: &T,
    blend: &B,
) -> (color: C)
    requires
        forall|ray: Y| #[trigger] trace.requires((&ray,)),
        forall|emitted: C, attenuation: C, incoming: C| #[trigger]
            blend.requires((emitted, attenuation, incoming)),
    ensures
        exists|rays: nat| #[trigger]
            can_be_radiance(*trace, *blend, black, ray, depth as nat, color, rays),
        depth == 0 ==> color == black,
    decreases depth,
{
    if is_spent(depth) {
        assert(can_be_radiance(*trace, *blend, black, ray, depth as nat, black, 0));
        return black;
    }
    let met = trace(&ray);
    match met {
        Met::Miss { sky } => {
            assert(can_be_radiance(*trace, *blend, black, ray, depth as nat, sky, 1));
            sky
        },
        Met::Absorbed { emitted } => {
            assert(can_be_radiance(*trace, *blend, black, ray, depth as nat, emitted, 1));
            emitted
        },
        Met::Scattered { emitted, attenuation, ray: next } => {
            let incoming = ray_color(next, depth - 1, black, trace, blend);
            let ghost rest = choose|rays: nat| #[trigger]
                can_be_radiance(*trace, *blend, black, next, (depth - 1) as nat, incoming, rays);
            let color = blend(emitted, attenuation, incoming);
            assert(can_be_radiance(*trace, *blend, black, ray, depth as nat, color, rest + 1));
            color
        },
    }
}

/// A path traces no more rays than it has bounces, whatever its rays meet.
pub proof fn lemma_path_is_bounded<C, Y, T: Fn(&Y) -> Met<C, Y>, B: Fn(C, C, C) -> C>(
    trace: T,
    blend: B,
    black: C,
    ray: Y,
    depth: nat,
    color: C,
    rays: nat,
)
    requires
        can_be_radiance(trace, blend, black, ray, depth, color, rays),
    ensures
        rays <= depth,
        depth > 0 ==> rays >= 1,
    decreases depth,
{
    if depth > 0 {
        let met = choose|met: Met<C, Y>| #[trigger]
            trace.ensures((&ray,), met) && match met {
                Met::Miss { sky } => color == sky && rays == 1,
                Met::Absorbed { emitted } => color == emitted && rays == 1,
                Met::Scattered { emitted, attenuation, ray: next } => exists|incoming: C|
                    rays >= 1 && can_be_radiance(
                        trace,
                        blend,
                        black,
                        next,
                        (depth - 1) as nat,
                        incoming,
                        (rays - 1) as nat,
                    ) && #[trigger] blend.ensures((emitted, attenuation, incoming), color),
            };
        match met {
            Met::Scattered { emitted, attenuation, ray: next } => {
                let incoming = choose|incoming: C|
                    rays >= 1 && can_be_radiance(
                        trace,
                        blend,
                        black,
                        next,
                        (depth - 1) as nat,
                        incoming,
                        (rays - 1) as nat,
                    ) && #[trigger] blend.ensures((emitted, attenuation, incoming), color);
                lemma_path_is_bounded(
                    trace,
                    blend,
                    black,
                    next,
                    (depth - 1) as nat,
                    incoming,
                    (rays - 1) as nat,
                );
            },
            _ => {},
        }
    }
}

} // verus!
