//! The steering rules: separation, alignment and cohesion, blended into a
//! candidate heading.

use crate::agent::{all_wf, Agent};
use crate::arith::{div_trunc, trunc_div, LIMIT, ONE};
use crate::config::{Config, FACTOR_LIMIT};
use crate::neighbors::{is_near, near};
use crate::vector::{SpecVector, Vector, Wide};
use vstd::prelude::*;

verus! {

/// What the rules need to know of a flock: how many agents it has, the sums
/// of their positions and headings, and the sum of the vectors that point
/// from each close one to the agent that is steered.
pub struct SpecTally {
    pub count: int,
    pub positions: SpecVector,
    pub headings: SpecVector,
    pub pushes: SpecVector,
}

impl SpecTally {
    pub open spec fn zero() -> SpecTally {
        SpecTally {
            count: 0,
            positions: SpecVector::zero(),
            headings: SpecVector::zero(),
            pushes: SpecVector::zero(),
        }
    }

    /// The tally with the agent `o` added, for an agent at `me` that is pushed
    /// away by agents closer than `threshold`.
    pub open spec fn with(self, me: SpecVector, threshold: int, o: Agent) -> SpecTally {
        SpecTally {
            count: self.count + 1,
            positions: self.positions.plus(o.position@),
            headings: self.headings.plus(o.heading@),
            pushes: if near(me, o.position@, threshold) {
                self.pushes.plus(me.minus(o.position@))
            } else {
                self.pushes
            },
        }
    }

    /// The push away from close agents, weighted.
    pub open spec fn separation(self, factor: int) -> SpecVector {
        self.pushes.scaled(factor)
    }

    /// The mean heading of the flock, weighted; zero for an empty flock.
    pub open spec fn alignment(self, factor: int) -> SpecVector {
        if self.count > 0 {
            self.headings.divided(self.count).scaled(factor)
        } else {
            SpecVector::zero()
        }
    }

    /// The vector from `me` to the mean position of the flock, weighted; zero
    /// for an empty flock.
    pub open spec fn cohesion(self, me: SpecVector, factor: int) -> SpecVector {
        if self.count > 0 {
            self.positions.divided(self.count).minus(me).scaled(factor)
        } else {
            SpecVector::zero()
        }
    }
}

/// The step that adds one agent to a tally.
pub open spec fn tally_step(me: SpecVector, threshold: int) -> spec_fn(SpecTally, Agent) -> SpecTally {
    |t: SpecTally, o: Agent| t.with(me, threshold, o)
}

/// The tally of `flock` for an agent at `me`.
pub open spec fn tallied(me: SpecVector, flock: Seq<Agent>, threshold: int) -> SpecTally {
    flock.fold_left(SpecTally::zero(), tally_step(me, threshold))
}

/// The candidate heading of the agent `me` among the neighbours `flock`: its
/// heading plus alignment, cohesion and separation, saturated.
pub open spec fn steered(me: Agent, flock: Seq<Agent>, config: Config) -> SpecVector {
    let t = tallied(me.position@, flock, config.separation_threshold as int);
    me.heading@.plus(t.alignment(config.alignment_factor as int)).plus(
        t.cohesion(me.position@, config.cohesion_factor as int),
    ).plus(t.separation(config.separation_factor as int)).clamped(LIMIT as int)
}

/// The largest magnitude of a coordinate that `scale` takes.
pub const WIDE_LIMIT: i128 = 0x400_0000_0000_0000_0000_0000_0000;

/// The largest magnitude of a coordinate that `scale` gives.
pub const SCALED_LIMIT: i128 = 0x800_0000_0000_0000_0000_0000_0000;

/// A tally, as the machine holds it.
#[derive(Clone, Copy, Debug, PartialEq, Eq, Structural)]
pub struct Tally {
    pub count: usize,
    pub positions: Wide,
    pub headings: Wide,
    pub pushes: Wide,
}

impl View for Tally {
    type V = SpecTally;

    open spec fn view(&self) -> SpecTally {
        SpecTally {
            count: self.count as int,
            positions: self.positions@,
            headings: self.headings@,
            pushes: self.pushes@,
        }
    }
}

impl Tally {
    /// The sums are no larger than sums of so many stored vectors can be.
    pub open spec fn wf(&self) -> bool {
        &&& self.positions@.within(self.count * LIMIT)
        &&& self.headings@.within(self.count * LIMIT)
        &&& self.pushes@.within(self.count * (2 * LIMIT))
    }
}

/// A quotient rounded toward zero is no larger in magnitude than the bound
/// `b`, where the dividend is no larger than `b` times the divisor.
pub proof fn lemma_trunc_div_bound(a: int, d: int, b: int)
    requires
        d > 0,
        b >= 0,
        -(b * d) <= a <= b * d,
    ensures
        -b <= trunc_div(a, d) <= b,
{
    let v = if a >= 0 {
        a
    } else {
        -a
    };
    let q = v / d;
    vstd::arithmetic::div_mod::lemma_fundamental_div_mod(v, d);
    vstd::arithmetic::div_mod::lemma_div_pos_is_pos(v, d);
    assert(q <= b) by (nonlinear_arith)
        requires
            v == d * q + v % d,
            0 <= v % d,
            v <= b * d,
            d > 0,
    ;
}

/// The vector `w` times the fixed-point factor `f`, rounded toward zero.
pub fn scale(w: &Wide, f: i64) -> (r: Wide)
    requires
        w@.within(WIDE_LIMIT as int),
        -FACTOR_LIMIT <= f <= FACTOR_LIMIT,
    ensures
        r@ == w@.scaled(f as int),
        r@.within(SCALED_LIMIT as int),
{
    proof {
        lemma_scale_bound(w.x as int, f as int);
        lemma_scale_bound(w.y as int, f as int);
        lemma_scale_bound(w.z as int, f as int);
    }
    Wide {
        x: div_trunc(w.x * (f as i128), ONE as i128),
        y: div_trunc(w.y * (f as i128), ONE as i128),
        z: div_trunc(w.z * (f as i128), ONE as i128),
    }
}

/// A coordinate within the limit for scaling, times a factor within the limit
/// for factors, has room in the machine, and its quotient by the fixed-point
/// unit is within the limit for scaled coordinates.
pub proof fn lemma_scale_bound(v: int, f: int)
    requires
        -WIDE_LIMIT <= v <= WIDE_LIMIT,
        -FACTOR_LIMIT <= f <= FACTOR_LIMIT,
    ensures
        -0x4000_0000_0000_0000_0000_0000_0000_0000 <= v * f
            <= 0x4000_0000_0000_0000_0000_0000_0000_0000,
        -SCALED_LIMIT <= trunc_div(v * f, ONE as int) <= SCALED_LIMIT,
{
    assert(-0x4000_0000_0000_0000_0000_0000_0000_0000 <= v * f
        <= 0x4000_0000_0000_0000_0000_0000_0000_0000) by (nonlinear_arith)
        requires
            -0x400_0000_0000_0000_0000_0000_0000 <= v <= 0x400_0000_0000_0000_0000_0000_0000,
            -0x10_0000 <= f <= 0x10_0000,
    ;
    lemma_trunc_div_bound(v * f, ONE as int, SCALED_LIMIT as int);
}

impl Tally {
    /// The push away from close agents, weighted by `factor`.
    pub fn separation(&self, factor: i64) -> (r: Wide)
        requires
            self.wf(),
            -FACTOR_LIMIT <= factor <= FACTOR_LIMIT,
        ensures
            r@ == self@.separation(factor as int),
            r@.within(SCALED_LIMIT as int),
    {
        proof {
            assert(self.count * (2 * LIMIT) <= WIDE_LIMIT) by (nonlinear_arith)
                requires
                    self.count <= 0xffff_ffff_ffff_ffff,
                    LIMIT == 0x100_0000_0000,
                    WIDE_LIMIT == 0x400_0000_0000_0000_0000_0000_0000,
            ;
        }
        scale(&self.pushes, factor)
    }

    /// The mean heading of the flock, weighted by `factor`.
    pub fn alignment(&self, factor: i64) -> (r: Wide)
        requires
            self.wf(),
            -FACTOR_LIMIT <= factor <= FACTOR_LIMIT,
        ensures
            r@ == self@.alignment(factor as int),
            r@.within(SCALED_LIMIT as int),
    {
        if self.count > 0 {
            let n: i128 = self.count as i128;
            proof {
                lemma_trunc_div_bound(self.headings.x as int, n as int, LIMIT as int);
                lemma_trunc_div_bound(self.headings.y as int, n as int, LIMIT as int);
                lemma_trunc_div_bound(self.headings.z as int, n as int, LIMIT as int);
            }
            let mean: Wide = self.headings.divided(n);
            scale(&mean, factor)
        } else {
            Wide::zero()
        }
    }

    /// The vector from `me` to the mean position of the flock, weighted by
    /// `factor`.
    pub fn cohesion(&self, me: &Vector, factor: i64) -> (r: Wide)
        requires
            self.wf(),
            me.wf(),
            -FACTOR_LIMIT <= factor <= FACTOR_LIMIT,
        ensures
            r@ == self@.cohesion(me@, factor as int),
            r@.within(SCALED_LIMIT as int),
    {
        if self.count > 0 {
            let n: i128 = self.count as i128;
            proof {
                lemma_trunc_div_bound(self.positions.x as int, n as int, LIMIT as int);
                lemma_trunc_div_bound(self.positions.y as int, n as int, LIMIT as int);
                lemma_trunc_div_bound(self.positions.z as int, n as int, LIMIT as int);
            }
            let mean: Wide = self.positions.divided(n);
            let toward: Wide = Wide {
                x: mean.x - me.x as i128,
                y: mean.y - me.y as i128,
                z: mean.z - me.z as i128,
            };
            scale(&toward, factor)
        } else {
            Wide::zero()
        }
    }
}

/// Tallies the flock for an agent at `me` that is pushed away by agents closer
/// than `threshold`.
pub fn tally(me: &Vector, flock: &Vec<Agent>, threshold: i64) -> (t: Tally)
    requires
        me.wf(),
        all_wf(flock@),
    ensures
        t@ == tallied(me@, flock@, threshold as int),
        t.count == flock.len(),
        t.wf(),
{
    let mut t: Tally = Tally {
        count: 0,
        positions: Wide::zero(),
        headings: Wide::zero(),
        pushes: Wide::zero(),
    };
    let mut k: usize = 0;
    proof {
        assert(flock@.subrange(0, 0) =~= Seq::<Agent>::empty());
    }
    while k < flock.len()
        invariant
            k <= flock.len(),
            me.wf(),
            all_wf(flock@),
            t.count == k,
            t@ == tallied(me@, flock@.subrange(0, k as int), threshold as int),
            t.wf(),
        decreases flock.len() - k,
    {
        let o: Agent = flock[k];
        proof {
            let next = flock@.subrange(0, k + 1);
            assert(next.drop_last() =~= flock@.subrange(0, k as int));
            assert(next.last() == o);
            assert(o.wf());
        }
        let pushes: Wide = if is_near(me, &o.position, threshold) {
            Wide {
                x: t.pushes.x + (me.x - o.position.x) as i128,
                y: t.pushes.y + (me.y - o.position.y) as i128,
                z: t.pushes.z + (me.z - o.position.z) as i128,
            }
        } else {
            t.pushes
        };
        t =
        Tally {
            count: t.count + 1,
            positions: Wide {
                x: t.positions.x + o.position.x as i128,
                y: t.positions.y + o.position.y as i128,
                z: t.positions.z + o.position.z as i128,
            },
            headings: Wide {
                x: t.headings.x + o.heading.x as i128,
                y: t.headings.y + o.heading.y as i128,
                z: t.headings.z + o.heading.z as i128,
            },
            pushes,
        };
        k = k + 1;
    }
    proof {
        assert(flock@.subrange(0, flock.len() as int) =~= flock@);
    }
    t
}

/// Blends the heading of `me` with alignment, cohesion and separation among
/// the neighbours `flock`.
pub fn steer(me: &Agent, flock: &Vec<Agent>, config: &Config) -> (r: Vector)
    requires
        me.wf(),
        all_wf(flock@),
        config.wf(),
    ensures
        r@ == steered(*me, flock@, *config),
        r.wf(),
{
    let t: Tally = tally(&me.position, flock, config.separation_threshold);
    let a: Wide = t.alignment(config.alignment_factor);
    let c: Wide = t.cohesion(&me.position, config.cohesion_factor);
    let s: Wide = t.separation(config.separation_factor);
    let sum: Wide = Wide {
        x: me.heading.x as i128 + a.x + c.x + s.x,
        y: me.heading.y as i128 + a.y + c.y + s.y,
        z: me.heading.z as i128 + a.z + c.z + s.z,
    };
    sum.saturated()
}

} // verus!
