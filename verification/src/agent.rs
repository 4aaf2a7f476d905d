//! One agent of the flock.

use crate::vector::{SpecVector, Vector};
use vstd::prelude::*;

verus! {

/// What an agent stands for: a position and a heading of mathematical
/// integers.
pub struct SpecAgent {
    pub position: SpecVector,
    pub heading: SpecVector,
}

/// An agent: where it is, and where it is going how fast.
#[derive(Clone, Copy, Debug, PartialEq, Eq, Structural)]
pub struct Agent {
    pub position: Vector,
    /// The direction of travel; its length is the speed.
    pub heading: Vector,
}

impl View for Agent {
    type V = SpecAgent;

    open spec fn view(&self) -> SpecAgent {
        SpecAgent { position: self.position@, heading: self.heading@ }
    }
}

impl Agent {
    /// Position and heading are both within the limit of stored vectors.
    pub open spec fn wf(&self) -> bool {
        self.position.wf() && self.heading.wf()
    }

    pub fn new(position: Vector, heading: Vector) -> (a: Agent)
        ensures
            a == (Agent { position, heading }),
    {
        Agent { position, heading }
    }

    /// Whether position and heading are within the limit.
    pub fn is_wf(&self) -> (b: bool)
        ensures
            b == self.wf(),
    {
        self.position.is_wf() && self.heading.is_wf()
    }
}

/// Every agent of the flock is well formed.
pub open spec fn all_wf(agents: Seq<Agent>) -> bool {
    forall|i: int| 0 <= i < agents.len() ==> (#[trigger] agents[i]).wf()
}

/// Whether every agent of the flock is well formed.
pub fn flock_is_wf(agents: &Vec<Agent>) -> (b: bool)
    ensures
        b == all_wf(agents@),
{
    let mut i: usize = 0;
    while i < agents.len()
        invariant
            i <= agents.len(),
            forall|k: int| 0 <= k < i ==> (#[trigger] agents@[k]).wf(),
        decreases agents.len() - i,
    {
        if !agents[i].is_wf() {
            return false;
        }
        i = i + 1;
    }
    true
}

} // verus!
