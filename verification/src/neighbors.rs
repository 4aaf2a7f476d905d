//! The neighbour query: which other agents are within a radius of an agent.

use crate::agent::{all_wf, Agent};
use crate::vector::{lemma_square_bound, SpecVector, Vector};
use vstd::prelude::*;

verus! {

/// The point `q` is closer to `p` than `r`.
pub open spec fn near(p: SpecVector, q: SpecVector, r: int) -> bool {
    r > 0 && p.dist_sq(q) < r * r
}

/// The test that an agent is closer to `p` than `r`.
pub open spec fn near_to(p: SpecVector, r: int) -> spec_fn(Agent) -> bool {
    |o: Agent| near(p, o.position@, r)
}

/// The neighbours of agent `i`: the other agents, in their order, that are
/// closer to it than `radius`.
pub open spec fn neighbors(agents: Seq<Agent>, i: int, radius: int) -> Seq<Agent>
    recommends
        0 <= i < agents.len(),
{
    agents.remove(i).filter(near_to(agents[i].position@, radius))
}

/// The first `j` agents without agent `i`.
pub open spec fn others(agents: Seq<Agent>, i: int, j: int) -> Seq<Agent>
    recommends
        0 <= i < agents.len(),
        0 <= j <= agents.len(),
{
    if j <= i {
        agents.subrange(0, j)
    } else {
        agents.subrange(0, i) + agents.subrange(i + 1, j)
    }
}

/// Whether `q` is closer to `p` than `r`.
pub fn is_near(p: &Vector, q: &Vector, r: i64) -> (b: bool)
    requires
        p.wf(),
        q.wf(),
    ensures
        b == near(p@, q@, r as int),
{
    if r <= 0 {
        return false;
    }
    proof {
        lemma_square_bound(r as int, 0x8000_0000_0000_0000);
    }
    let rr: u128 = (r as i128 * r as i128) as u128;
    p.dist_sq(q) < rr
}

/// Finds the neighbours of agent `i` by looking at every other agent.
pub fn find_neighbors(agents: &Vec<Agent>, i: usize, radius: i64) -> (flock: Vec<Agent>)
    requires
        i < agents.len(),
        all_wf(agents@),
    ensures
        flock@ == neighbors(agents@, i as int, radius as int),
        all_wf(flock@),
{
    let me: Vector = agents[i].position;
    let ghost pred = near_to(me@, radius as int);
    let mut flock: Vec<Agent> = Vec::new();
    let mut j: usize = 0;
    proof {
        reveal(Seq::filter);
        assert(others(agents@, i as int, 0) =~= Seq::<Agent>::empty());
    }
    while j < agents.len()
        invariant
            j <= agents.len(),
            i < agents.len(),
            all_wf(agents@),
            me == agents@[i as int].position,
            pred == near_to(me@, radius as int),
            flock@ == others(agents@, i as int, j as int).filter(pred),
            all_wf(flock@),
        decreases agents.len() - j,
    {
        let ghost before = others(agents@, i as int, j as int);
        let ghost after = others(agents@, i as int, j + 1);
        if j != i {
            let other: Agent = agents[j];
            proof {
                reveal(Seq::filter);
                assert(after.drop_last() =~= before);
                assert(after.last() == other);
            }
            if is_near(&me, &other.position, radius) {
                flock.push(other);
            }
        } else {
            proof {
                assert(after =~= before);
            }
        }
        j = j + 1;
    }
    proof {
        assert(others(agents@, i as int, agents.len() as int) =~= agents@.remove(i as int));
    }
    flock
}

} // verus!
