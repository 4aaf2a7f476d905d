//! The simulation step: every agent's next heading is computed from the
//! states before the step, and only then are the agents moved.

use crate::agent::{all_wf, flock_is_wf, Agent, SpecAgent};
use crate::arith::{clamp, div_trunc, saturate, trunc_div, LIMIT, ONE};
use crate::boundary::{avoid_boundary, turned};
use crate::config::{Bounds, Config};
use crate::neighbors::{find_neighbors, neighbors};
use crate::speed::{limit_speed, limited};
use crate::steering::{steer, steered};
use crate::vector::{SpecVector, Vector};
use vstd::prelude::*;

verus! {

/// The heading that agent `i` takes in a step, before it is scaled by the
/// elapsed time: steered among its neighbours, turned back from the edges and
/// limited in speed. It depends on the states before the step alone.
pub open spec fn next_heading(agents: Seq<Agent>, i: int, bounds: Bounds, config: Config) -> SpecVector
    recommends
        0 <= i < agents.len(),
{
    let me = agents[i];
    let flock = neighbors(agents, i, config.radius as int);
    let candidate = steered(me, flock, config);
    let back = turned(
        candidate,
        me.position@,
        bounds,
        config.margin as int,
        config.turn_impulse as int,
    );
    limited(back, config.min_speed as int, config.max_speed as int)
}

/// How far the heading `h` carries an agent in the time `elapsed`: `h` times
/// `scale` times `elapsed`, rounded toward zero and saturated.
pub open spec fn displacement(h: SpecVector, scale: int, elapsed: int) -> SpecVector {
    SpecVector {
        x: clamp(trunc_div(h.x * scale * elapsed, ONE * ONE), LIMIT as int),
        y: clamp(trunc_div(h.y * scale * elapsed, ONE * ONE), LIMIT as int),
        z: clamp(trunc_div(h.z * scale * elapsed, ONE * ONE), LIMIT as int),
    }
}

/// The agent `a` after it has taken the heading `h` for the time `elapsed`:
/// its heading is the displacement, and its position has moved by it, as far
/// as the limit of stored coordinates allows.
pub open spec fn moved(a: SpecAgent, h: SpecVector, scale: int, elapsed: int) -> SpecAgent {
    let d = displacement(h, scale, elapsed);
    SpecAgent { position: a.position.plus(d).clamped(LIMIT as int), heading: d }
}

/// Agent `i` after a step.
pub open spec fn next_agent(
    agents: Seq<Agent>,
    i: int,
    bounds: Bounds,
    elapsed: int,
    config: Config,
) -> SpecAgent
    recommends
        0 <= i < agents.len(),
{
    moved(agents[i]@, next_heading(agents, i, bounds, config), config.spatial_scale as int, elapsed)
}

/// Computes the heading that agent `i` takes in a step.
pub fn compute_heading(agents: &Vec<Agent>, i: usize, bounds: &Bounds, config: &Config) -> (h:
    Vector)
    requires
        i < agents.len(),
        all_wf(agents@),
        config.wf(),
    ensures
        h@ == next_heading(agents@, i as int, *bounds, *config),
        config.min_speed * config.min_speed <= h@.norm_sq() <= config.max_speed * config.max_speed,
        h.wf(),
{
    let me: Agent = agents[i];
    let flock: Vec<Agent> = find_neighbors(agents, i, config.radius);
    let candidate: Vector = steer(&me, &flock, config);
    let back: Vector = avoid_boundary(candidate, me.position, bounds, config);
    limit_speed(back, config)
}

/// One coordinate of a displacement.
pub fn displace(h: i64, scale: i64, elapsed: i64) -> (d: i64)
    requires
        -LIMIT <= h <= LIMIT,
        0 <= scale <= LIMIT,
        0 <= elapsed <= LIMIT,
    ensures
        d == clamp(trunc_div(h * scale * elapsed, ONE * ONE), LIMIT as int),
{
    proof {
        assert(-0x1_0000_0000_0000_0000_0000 <= h * scale <= 0x1_0000_0000_0000_0000_0000)
            by (nonlinear_arith)
            requires
                -0x100_0000_0000 <= h <= 0x100_0000_0000,
                0 <= scale <= 0x100_0000_0000,
        ;
        assert(-0x100_0000_0000_0000_0000_0000_0000_0000 <= h * scale * elapsed
            <= 0x100_0000_0000_0000_0000_0000_0000_0000) by (nonlinear_arith)
            requires
                -0x1_0000_0000_0000_0000_0000 <= h * scale <= 0x1_0000_0000_0000_0000_0000,
                0 <= elapsed <= 0x100_0000_0000,
        ;
    }
    let product: i128 = (h as i128) * (scale as i128) * (elapsed as i128);
    let unit: i128 = (ONE as i128) * (ONE as i128);
    saturate(div_trunc(product, unit), LIMIT)
}

/// Moves the agent `a` by the heading `h` for the time `elapsed`.
pub fn commit(a: &Agent, h: Vector, config: &Config, elapsed: i64) -> (r: Agent)
    requires
        a.wf(),
        h.wf(),
        config.wf(),
        0 <= elapsed <= LIMIT,
    ensures
        r@ == moved(a@, h@, config.spatial_scale as int, elapsed as int),
        r.wf(),
{
    let d: Vector = Vector {
        x: displace(h.x, config.spatial_scale, elapsed),
        y: displace(h.y, config.spatial_scale, elapsed),
        z: displace(h.z, config.spatial_scale, elapsed),
    };
    let position: Vector = Vector {
        x: saturate(a.position.x as i128 + d.x as i128, LIMIT),
        y: saturate(a.position.y as i128 + d.y as i128, LIMIT),
        z: saturate(a.position.z as i128 + d.z as i128, LIMIT),
    };
    Agent { position, heading: d }
}

/// Computes the heading that every agent takes in a step, from the states
/// before the step.
pub fn compute_headings(agents: &Vec<Agent>, bounds: &Bounds, config: &Config) -> (headings: Vec<
    Vector,
>)
    requires
        all_wf(agents@),
        config.wf(),
    ensures
        headings.len() == agents.len(),
        forall|i: int|
            0 <= i < agents.len() ==> {
                &&& (#[trigger] headings[i])@ == next_heading(agents@, i, *bounds, *config)
                &&& headings[i].wf()
                &&& config.min_speed * config.min_speed <= headings[i]@.norm_sq()
                    <= config.max_speed * config.max_speed
            },
{
    let mut headings: Vec<Vector> = Vec::new();
    let mut i: usize = 0;
    while i < agents.len()
        invariant
            i <= agents.len(),
            all_wf(agents@),
            config.wf(),
            headings.len() == i,
            forall|k: int|
                0 <= k < i ==> {
                    &&& (#[trigger] headings[k])@ == next_heading(agents@, k, *bounds, *config)
                    &&& headings[k].wf()
                    &&& config.min_speed * config.min_speed <= headings[k]@.norm_sq()
                        <= config.max_speed * config.max_speed
                },
        decreases agents.len() - i,
    {
        let h: Vector = compute_heading(agents, i, bounds, config);
        headings.push(h);
        i = i + 1;
    }
    headings
}

/// Advances the flock by one step of the time `elapsed`, in fixed-point units
/// of time.
///
/// The result has one agent for each agent of the flock, in the same order.
/// Each is what `next_agent` says of it: every heading is computed from the
/// flock as it was before the step.
pub fn step(bounds: &Bounds, elapsed: i64, agents: &Vec<Agent>, config: &Config) -> (next: Vec<
    Agent,
>)
    requires
        0 <= elapsed <= LIMIT,
        all_wf(agents@),
        config.wf(),
    ensures
        next.len() == agents.len(),
        forall|i: int|
            0 <= i < agents.len() ==> (#[trigger] next[i])@ == next_agent(
                agents@,
                i,
                *bounds,
                elapsed as int,
                *config,
            ),
        all_wf(next@),
{
    let headings: Vec<Vector> = compute_headings(agents, bounds, config);
    let mut next: Vec<Agent> = Vec::new();
    let mut i: usize = 0;
    while i < agents.len()
        invariant
            i <= agents.len(),
            0 <= elapsed <= LIMIT,
            all_wf(agents@),
            config.wf(),
            headings.len() == agents.len(),
            forall|k: int|
                0 <= k < agents.len() ==> {
                    &&& (#[trigger] headings[k])@ == next_heading(agents@, k, *bounds, *config)
                    &&& headings[k].wf()
                },
            next.len() == i,
            forall|k: int|
                0 <= k < i ==> (#[trigger] next[k])@ == next_agent(
                    agents@,
                    k,
                    *bounds,
                    elapsed as int,
                    *config,
                ),
            all_wf(next@),
        decreases agents.len() - i,
    {
        let a: Agent = agents[i];
        let h: Vector = headings[i];
        let moved_agent: Agent = commit(&a, h, config, elapsed);
        next.push(moved_agent);
        i = i + 1;
    }
    next
}

/// Advances the flock by one step where the time is neither negative nor
/// beyond the limit, the flock is well formed and so is the configuration;
/// gives nothing where not.
pub fn try_step(bounds: &Bounds, elapsed: i64, agents: &Vec<Agent>, config: &Config) -> (r: Option<
    Vec<Agent>,
>)
    ensures
        r.is_some() <==> 0 <= elapsed <= LIMIT && all_wf(agents@) && config.wf(),
        r.is_some() ==> {
            let next = r.unwrap();
            &&& next.len() == agents.len()
            &&& forall|i: int|
                0 <= i < agents.len() ==> (#[trigger] next[i])@ == next_agent(
                    agents@,
                    i,
                    *bounds,
                    elapsed as int,
                    *config,
                )
            &&& all_wf(next@)
        },
{
    if 0 <= elapsed && elapsed <= LIMIT && config.is_wf() && flock_is_wf(agents) {
        Some(step(bounds, elapsed, agents, config))
    } else {
        None
    }
}

} // verus!
