//! The control of one light path. A path is a run of queries against the
//! world: each query ends the path, in the sky or in a surface that absorbs the
//! ray, or scatters the ray and leaves one query fewer to make. The caller
//! makes the queries and multiplies the attenuations; what is decided here is
//! when to ask again and what light an ended path gathers.

use vstd::prelude::*;

verus! {

/// What one query of the world did to the ray.
#[derive(Clone, Copy, Debug, PartialEq, Eq, Structural)]
pub enum Bounce {
    /// The ray hit nothing.
    Miss,
    /// The ray hit a surface and the material absorbed it.
    Absorbed,
    /// The ray hit a surface and the material sent a new ray on.
    Scattered,
}

/// The light at the end of a path, before any attenuation.
#[derive(Clone, Copy, Debug, PartialEq, Eq, Structural)]
pub enum Light {
    /// No light at all.
    Black,
    /// The sky along the last ray of the path.
    Sky,
}

/// What the integrator does next.
#[derive(Clone, Copy, Debug, PartialEq, Eq, Structural)]
pub enum Step {
    /// Query the world with the current ray; `depth` queries may still be made,
    /// this one included.
    Query { depth: usize },
    /// The path is over and gathers this light.
    Finish(Light),
}

/// What a whole path gathers: the light at its end, to be multiplied by the
/// attenuations of the `scatters` scatterings that led there, one for each.
pub struct Gathered {
    pub light: Light,
    pub scatters: nat,
}

/// The first step of a path that may make `depth` queries.
pub open spec fn first_step(depth: usize) -> Step {
    if depth == 0 {
        Step::Finish(Light::Black)
    } else {
        Step::Query { depth }
    }
}

/// The step after a query, made with `depth` queries left, came back as
/// `bounce`: a scattered ray goes on with one query fewer.
pub open spec fn next_step(depth: usize, bounce: Bounce) -> Step {
    match bounce {
        Bounce::Miss => Step::Finish(Light::Sky),
        Bounce::Absorbed => Step::Finish(Light::Black),
        Bounce::Scattered => if depth == 0 {
            first_step(0)
        } else {
            first_step((depth - 1) as usize)
        },
    }
}

/// The radiance estimator, as far as its control goes: what a path of at most
/// `depth` queries gathers when its queries come back as `bounces`, in that
/// order. `None` where the path is still under way after all of `bounces`.
pub open spec fn radiance(depth: nat, bounces: Seq<Bounce>) -> Option<Gathered>
    decreases depth,
{
    if depth == 0 {
        Some(Gathered { light: Light::Black, scatters: 0 })
    } else if bounces.len() == 0 {
        None
    } else {
        match bounces[0] {
            Bounce::Miss => Some(Gathered { light: Light::Sky, scatters: 0 }),
            Bounce::Absorbed => Some(Gathered { light: Light::Black, scatters: 0 }),
            Bounce::Scattered => match radiance((depth - 1) as nat, bounces.skip(1)) {
                Some(rest) => Some(Gathered { light: rest.light, scatters: rest.scatters + 1 }),
                None => None,
            },
        }
    }
}

/// What following the steps from `step` on gathers when the queries come back
/// as `bounces`.
pub open spec fn follow(step: Step, bounces: Seq<Bounce>) -> Option<Gathered>
    decreases bounces.len(),
{
    match step {
        Step::Finish(light) => Some(Gathered { light, scatters: 0 }),
        Step::Query { depth } => if bounces.len() == 0 {
            None
        } else {
            match follow(next_step(depth, bounces[0]), bounces.skip(1)) {
                Some(rest) => Some(
                    Gathered {
                        light: rest.light,
                        scatters: if bounces[0] == Bounce::Scattered {
                            rest.scatters + 1
                        } else {
                            rest.scatters
                        },
                    },
                ),
                None => None,
            }
        },
    }
}

/// Starts a path that may make `depth` queries.
pub fn begin(depth: usize) -> (step: Step)
    ensures
        step == first_step(depth),
{
    if depth == 0 {
        Step::Finish(Light::Black)
    } else {
        Step::Query { depth }
    }
}

/// Goes on after the query that `Step::Query { depth }` asked for came back as
/// `bounce`.
pub fn resume(depth: usize, bounce: Bounce) -> (step: Step)
    ensures
        step == next_step(depth, bounce),
{
    match bounce {
        Bounce::Miss => Step::Finish(Light::Sky),
        Bounce::Absorbed => Step::Finish(Light::Black),
        Bounce::Scattered => if depth == 0 {
            begin(0)
        } else {
            begin(depth - 1)
        },
    }
}

/// Following the steps gathers what the radiance estimator defines.
pub proof fn lemma_steps_gather_radiance(depth: usize, bounces: Seq<Bounce>)
    ensures
        follow(first_step(depth), bounces) == radiance(depth as nat, bounces),
    decreases depth,
{
    reveal_with_fuel(follow, 2);
    if depth > 0 && bounces.len() > 0 {
        if bounces[0] == Bounce::Scattered {
            lemma_steps_gather_radiance((depth - 1) as usize, bounces.skip(1));
        }
    }
}

/// With no query left the path is black, whatever the world holds.
pub proof fn lemma_no_depth_is_black(bounces: Seq<Bounce>)
    ensures
        radiance(0, bounces) == Some(Gathered { light: Light::Black, scatters: 0 }),
{
}

/// A ray that misses everything gathers the sky, unattenuated, at any depth
/// but zero.
pub proof fn lemma_miss_is_sky(depth: nat, bounces: Seq<Bounce>)
    requires
        depth >= 1,
        bounces.len() >= 1,
        bounces[0] == Bounce::Miss,
    ensures
        radiance(depth, bounces) == Some(Gathered { light: Light::Sky, scatters: 0 }),
{
}

/// A scattering adds one attenuation to what the rest of the path gathers
/// with one query fewer: attenuations multiply along the path.
pub proof fn lemma_scatter_attenuates_once(depth: nat, rest: Seq<Bounce>)
    requires
        depth >= 1,
    ensures
        radiance(depth, seq![Bounce::Scattered] + rest) == match radiance(
            (depth - 1) as nat,
            rest,
        ) {
            Some(after) => Some(Gathered { light: after.light, scatters: after.scatters + 1 }),
            None => None,
        },
{
    let all = seq![Bounce::Scattered] + rest;
    assert(all.skip(1) =~= rest);
    assert(all[0] == Bounce::Scattered);
}

/// A path is over after at most `depth` queries, and its light is attenuated
/// once for each scattering before its end: fewer than `depth` times where it
/// ends in the sky.
pub proof fn lemma_path_is_bounded(depth: nat, bounces: Seq<Bounce>)
    requires
        bounces.len() >= depth,
    ensures
        radiance(depth, bounces) is Some,
        radiance(depth, bounces)->0.scatters <= depth,
        radiance(depth, bounces)->0.light == Light::Sky ==> radiance(depth, bounces)->0.scatters
            < depth,
    decreases depth,
{
    if depth > 0 && bounces[0] == Bounce::Scattered {
        lemma_path_is_bounded((depth - 1) as nat, bounces.skip(1));
    }
}

} // verus!
