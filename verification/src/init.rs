//! The initial flock: agents scattered over the visible area, each with a
//! random heading.

use crate::agent::{all_wf, Agent};
use crate::arith::{LIMIT, ONE};
use crate::config::Bounds;
use crate::vector::Vector;
use rand::rngs::ThreadRng;
use rand::Rng;
use vstd::prelude::*;

verus! {

/// rand's `ThreadRng`, the generator that a thread keeps for itself. Nothing
/// is known of what is inside it.
#[verifier::external_type_specification]
#[verifier::external_body]
pub struct ExThreadRng(rand::rngs::ThreadRng);

/// `Rng::gen_range` of rand, on the half-open range of `i64` from `low` to
/// `high`. The generator panics on an empty range, so the range must hold a
/// number; what it returns lies in the range, and nothing more is claimed of
/// it.
#[verifier::external_body]
fn sample(rng: &mut ThreadRng, low: i64, high: i64) -> (v: i64)
    requires
        low < high,
    ensures
        low <= v < high,
{
    rng.gen_range(low..high)
}

impl Bounds {
    /// The world is at least two units and at most twice the limit of stored
    /// coordinates wide and high, so that a flock can be scattered over it.
    pub open spec fn habitable(&self) -> bool {
        &&& 2 <= self.width <= 2 * LIMIT
        &&& 2 <= self.height <= 2 * LIMIT
    }

    /// Whether a flock can be scattered over the world.
    pub fn is_habitable(&self) -> (b: bool)
        ensures
            b == self.habitable(),
    {
        2 <= self.width && self.width <= 2 * LIMIT && 2 <= self.height && self.height <= 2 * LIMIT
    }
}

/// The agent `a` is one that a flock can start with: in the plane, within the
/// visible area, with a heading in the plane of less than one unit along each
/// axis.
pub open spec fn initial(a: Agent, bounds: Bounds) -> bool {
    &&& -(bounds.width / 2) <= a.position.x < bounds.width / 2
    &&& -(bounds.height / 2) <= a.position.y < bounds.height / 2
    &&& a.position.z == 0
    &&& -ONE <= a.heading.x < ONE
    &&& -ONE <= a.heading.y < ONE
    &&& a.heading.z == 0
}

/// The agent in the plane at `(x, y)` with the heading `(hx, hy)`.
pub fn place(x: i64, y: i64, hx: i64, hy: i64) -> (a: Agent)
    ensures
        a == (Agent {
            position: Vector { x, y, z: 0 },
            heading: Vector { x: hx, y: hy, z: 0 },
        }),
{
    Agent { position: Vector { x, y, z: 0 }, heading: Vector { x: hx, y: hy, z: 0 } }
}

/// Scatters `agent_count` agents over the visible area, each with a heading
/// drawn from the square of side two units about zero. The headings are
/// neither scaled nor limited.
pub fn init(bounds: &Bounds, agent_count: usize, rng: &mut ThreadRng) -> (agents: Vec<Agent>)
    requires
        bounds.habitable(),
    ensures
        agents.len() == agent_count,
        forall|i: int| 0 <= i < agents.len() ==> initial(#[trigger] agents[i], *bounds),
        all_wf(agents@),
{
    let half_width: i64 = bounds.width / 2;
    let half_height: i64 = bounds.height / 2;
    let mut agents: Vec<Agent> = Vec::new();
    let mut i: usize = 0;
    while i < agent_count
        invariant
            i <= agent_count,
            bounds.habitable(),
            half_width == bounds.width / 2,
            half_height == bounds.height / 2,
            agents.len() == i,
            forall|k: int| 0 <= k < agents.len() ==> initial(#[trigger] agents[k], *bounds),
            all_wf(agents@),
        decreases agent_count - i,
    {
        let x: i64 = sample(rng, -half_width, half_width);
        let y: i64 = sample(rng, -half_height, half_height);
        let hx: i64 = sample(rng, -ONE, ONE);
        let hy: i64 = sample(rng, -ONE, ONE);
        agents.push(place(x, y, hx, hy));
        i = i + 1;
    }
    agents
}

} // verus!
