//! What holds of every step, whatever the flock.

use crate::agent::Agent;
use crate::arith::{clamp, trunc_div, LIMIT, ONE};
use crate::boundary::turned;
use crate::config::{Bounds, Config};
use crate::neighbors::{near, near_to, neighbors};
use crate::speed::{
    lemma_coordinates_within, lemma_magnitude, lemma_scaled_squares, lemma_speed_bound,
    lemma_square_le, lemma_trunc_magnitude, limited, magnitude,
};
use crate::steering::{steered, tallied, tally_step, SpecTally};
use crate::step::{displacement, next_agent, next_heading};
use crate::vector::SpecVector;
use vstd::prelude::*;
use vstd::seq_lib::{
    commutative_foldl, lemma_fold_left_permutation, to_multiset_build, to_multiset_contains,
    to_multiset_remove,
};

verus! {

/// The heading that an agent takes in a step is no slower than the smallest
/// and no faster than the largest speed of the configuration. (The heading
/// that the step stores is this one times the scale and the elapsed time.)
pub proof fn lemma_heading_speed(agents: Seq<Agent>, i: int, bounds: Bounds, config: Config)
    requires
        config.wf(),
    ensures
        config.min_speed * config.min_speed <= next_heading(agents, i, bounds, config).norm_sq()
            <= config.max_speed * config.max_speed,
{
    let me = agents[i];
    let candidate = steered(me, neighbors(agents, i, config.radius as int), config);
    let back = turned(
        candidate,
        me.position@,
        bounds,
        config.margin as int,
        config.turn_impulse as int,
    );
    lemma_speed_bound(back, config.min_speed as int, config.max_speed as int);
}

/// The square of the length of `v` after the magnitude of each coordinate has
/// been raised by one.
pub open spec fn raised_norm_sq(v: SpecVector) -> int {
    (magnitude(v.x) + 1) * (magnitude(v.x) + 1) + (magnitude(v.y) + 1) * (magnitude(v.y) + 1) + (
    magnitude(v.z) + 1) * (magnitude(v.z) + 1)
}

/// One coordinate of a displacement is no larger in magnitude than the
/// coordinate of the heading times `k`, over the square of the unit; and
/// where that quotient is within the limit, it is less than one below it.
pub proof fn lemma_displaced_coordinate(h: int, scale: int, elapsed: int, k: int, bound: int)
    requires
        k == scale * elapsed,
        0 <= k,
        -bound <= h <= bound,
    ensures
        magnitude(clamp(trunc_div(h * scale * elapsed, ONE * ONE), LIMIT as int)) * (ONE * ONE)
            <= magnitude(h) * k,
        bound * k <= LIMIT * (ONE * ONE) ==> (magnitude(
            clamp(trunc_div(h * scale * elapsed, ONE * ONE), LIMIT as int),
        ) + 1) * (ONE * ONE) > magnitude(h) * k,
{
    let unit = ONE * ONE;
    let v = h * scale * elapsed;
    let q = trunc_div(v, unit);
    let d = clamp(q, LIMIT as int);
    assert(v == h * k) by (nonlinear_arith)
        requires
            v == h * scale * elapsed,
            k == scale * elapsed,
    ;
    lemma_magnitude(h, k);
    lemma_trunc_magnitude(v, unit);
    assert(magnitude(d) <= magnitude(q));
    assert(magnitude(d) * unit <= magnitude(q) * unit) by (nonlinear_arith)
        requires
            magnitude(d) <= magnitude(q),
            unit > 0,
    ;
    if bound * k <= LIMIT * unit {
        assert(magnitude(h) * k <= bound * k) by (nonlinear_arith)
            requires
                magnitude(h) <= bound,
                0 <= k,
        ;
        assert(magnitude(q) <= LIMIT) by (nonlinear_arith)
            requires
                magnitude(q) * unit <= LIMIT * unit,
                unit > 0,
        ;
        assert(d == q);
    }
}

/// The heading that a step stores is no faster than the largest speed times
/// the scale times the elapsed time. Where that product is within the limit
/// of stored coordinates, the stored heading is also no slower than the
/// smallest speed times the scale times the elapsed time, but for the
/// rounding: it is so once the magnitude of each coordinate is raised by one.
pub proof fn lemma_stored_heading_speed(
    agents: Seq<Agent>,
    i: int,
    bounds: Bounds,
    elapsed: int,
    config: Config,
)
    requires
        config.wf(),
        0 <= elapsed,
    ensures
        ({
            let k = config.spatial_scale * elapsed;
            let unit = ONE * ONE;
            let stored = next_agent(agents, i, bounds, elapsed, config).heading;
            &&& stored.norm_sq() * (unit * unit) <= (config.max_speed * config.max_speed) * (k * k)
            &&& config.max_speed * k <= LIMIT * unit ==> raised_norm_sq(stored) * (unit * unit)
                >= (config.min_speed * config.min_speed) * (k * k)
        }),
{
    let scale = config.spatial_scale as int;
    let k = scale * elapsed;
    let unit = ONE * ONE;
    let max = config.max_speed as int;
    let min = config.min_speed as int;
    let h = next_heading(agents, i, bounds, config);
    let stored = next_agent(agents, i, bounds, elapsed, config).heading;
    assert(stored == displacement(h, scale, elapsed));
    assert(0 <= k) by (nonlinear_arith)
        requires
            k == scale * elapsed,
            0 <= scale,
            0 <= elapsed,
    ;
    lemma_heading_speed(agents, i, bounds, config);
    lemma_coordinates_within(h, max);
    lemma_displaced_coordinate(h.x, scale, elapsed, k, max);
    lemma_displaced_coordinate(h.y, scale, elapsed, k, max);
    lemma_displaced_coordinate(h.z, scale, elapsed, k, max);
    let a1 = magnitude(h.x);
    let a2 = magnitude(h.y);
    let a3 = magnitude(h.z);
    let o1 = magnitude(stored.x);
    let o2 = magnitude(stored.y);
    let o3 = magnitude(stored.z);
    lemma_magnitude(h.x, k);
    lemma_magnitude(h.y, k);
    lemma_magnitude(h.z, k);
    lemma_magnitude(stored.x, 0);
    lemma_magnitude(stored.y, 0);
    lemma_magnitude(stored.z, 0);
    assert(0 <= a1 * k && 0 <= a2 * k && 0 <= a3 * k) by (nonlinear_arith)
        requires
            0 <= a1 && 0 <= a2 && 0 <= a3 && 0 <= k,
    ;
    assert(0 <= o1 * unit && 0 <= o2 * unit && 0 <= o3 * unit) by (nonlinear_arith)
        requires
            0 <= o1 && 0 <= o2 && 0 <= o3 && 0 < unit,
    ;
    lemma_scaled_squares(a1, a2, a3, k);
    lemma_scaled_squares(o1, o2, o3, unit);
    lemma_square_le(o1 * unit, a1 * k);
    lemma_square_le(o2 * unit, a2 * k);
    lemma_square_le(o3 * unit, a3 * k);
    let kk = k * k;
    assert(h.norm_sq() * kk <= (max * max) * kk) by (nonlinear_arith)
        requires
            h.norm_sq() <= max * max,
            kk == k * k,
    ;
    assert((min * min) * kk <= h.norm_sq() * kk) by (nonlinear_arith)
        requires
            min * min <= h.norm_sq(),
            kk == k * k,
    ;
    if max * k <= LIMIT * unit {
        lemma_scaled_squares(o1 + 1, o2 + 1, o3 + 1, unit);
        lemma_square_le(a1 * k, (o1 + 1) * unit);
        lemma_square_le(a2 * k, (o2 + 1) * unit);
        lemma_square_le(a3 * k, (o3 + 1) * unit);
    }
}

/// An agent with no neighbours is not steered: its candidate heading is its
/// heading.
pub proof fn lemma_alone_not_steered(me: Agent, config: Config)
    requires
        me.wf(),
    ensures
        steered(me, Seq::<Agent>::empty(), config) == me.heading@,
{
    let t = tallied(me.position@, Seq::<Agent>::empty(), config.separation_threshold as int);
    assert(t == SpecTally::zero());
    assert(0 * (config.separation_factor as int) == 0);
    assert(trunc_div(0, ONE as int) == 0);
    assert(t.separation(config.separation_factor as int) == SpecVector::zero());
}

/// Where no other agent is closer to agent `i` than the radius, the agent has
/// no neighbours.
pub proof fn lemma_far_from_all(agents: Seq<Agent>, i: int, radius: int)
    requires
        0 <= i < agents.len(),
        forall|j: int|
            0 <= j < agents.len() && j != i ==> !near(
                agents[i].position@,
                (#[trigger] agents[j]).position@,
                radius,
            ),
    ensures
        neighbors(agents, i, radius) == Seq::<Agent>::empty(),
{
    let rest = agents.remove(i);
    let pred = near_to(agents[i].position@, radius);
    let found = rest.filter(pred);
    if found.len() > 0 {
        let o = found[0];
        rest.lemma_filter_pred(pred, 0);
        assert(found.contains(o));
        rest.lemma_filter_contains_rev(pred, o);
        let k = choose|k: int| 0 <= k < rest.len() && rest[k] == o;
        let j = if k < i {
            k
        } else {
            k + 1
        };
        assert(rest[k] == agents[j]);
        assert(false);
    }
    assert(found =~= Seq::<Agent>::empty());
}

/// No-neighbour stability: where no other agent is closer to agent `i` than
/// the radius, the heading that it takes is its heading before the step,
/// turned back from the edges and limited in speed, and nothing else.
pub proof fn lemma_no_neighbor_stability(agents: Seq<Agent>, i: int, bounds: Bounds, config: Config)
    requires
        0 <= i < agents.len(),
        agents[i].wf(),
        forall|j: int|
            0 <= j < agents.len() && j != i ==> !near(
                agents[i].position@,
                (#[trigger] agents[j]).position@,
                config.radius as int,
            ),
    ensures
        next_heading(agents, i, bounds, config) == limited(
            turned(
                agents[i].heading@,
                agents[i].position@,
                bounds,
                config.margin as int,
                config.turn_impulse as int,
            ),
            config.min_speed as int,
            config.max_speed as int,
        ),
{
    lemma_far_from_all(agents, i, config.radius as int);
    lemma_alone_not_steered(agents[i], config);
}

/// A step of no time moves no agent.
pub proof fn lemma_zero_time_keeps_position(agents: Seq<Agent>, i: int, bounds: Bounds, config: Config)
    requires
        0 <= i < agents.len(),
        agents[i].wf(),
    ensures
        next_agent(agents, i, bounds, 0, config).position == agents[i].position@,
        next_agent(agents, i, bounds, 0, config).heading == SpecVector::zero(),
{
    let h = next_heading(agents, i, bounds, config);
    let scale = config.spatial_scale as int;
    assert(h.x * scale * 0 == 0 && h.y * scale * 0 == 0 && h.z * scale * 0 == 0)
        by (nonlinear_arith);
    assert(trunc_div(0, ONE * ONE) == 0);
    assert(displacement(h, scale, 0) == SpecVector::zero());
}

/// The step that adds an agent to a tally where the agent passes a test, and
/// leaves the tally as it is where not.
pub open spec fn guarded(
    pred: spec_fn(Agent) -> bool,
    f: spec_fn(SpecTally, Agent) -> SpecTally,
) -> spec_fn(SpecTally, Agent) -> SpecTally {
    |t: SpecTally, o: Agent|
        if pred(o) {
            f(t, o)
        } else {
            t
        }
}

/// To tally the agents of a flock that pass a test is to tally the flock
/// with the guarded step.
pub proof fn lemma_tally_filtered(
    s: Seq<Agent>,
    pred: spec_fn(Agent) -> bool,
    f: spec_fn(SpecTally, Agent) -> SpecTally,
    z: SpecTally,
)
    ensures
        s.filter(pred).fold_left(z, f) == s.fold_left(z, guarded(pred, f)),
    decreases s.len(),
{
    reveal(Seq::filter);
    if s.len() > 0 {
        lemma_tally_filtered(s.drop_last(), pred, f, z);
        if pred(s.last()) {
            let kept = s.filter(pred);
            assert(kept.drop_last() =~= s.drop_last().filter(pred));
            assert(kept.last() == s.last());
        }
    }
}

/// The tally of the neighbours among a flock depends on which agents the
/// flock holds, each how often, and not on their order.
pub proof fn lemma_tally_unordered(
    me: SpecVector,
    radius: int,
    threshold: int,
    s1: Seq<Agent>,
    s2: Seq<Agent>,
)
    requires
        s1.to_multiset() == s2.to_multiset(),
    ensures
        tallied(me, s1.filter(near_to(me, radius)), threshold) == tallied(
            me,
            s2.filter(near_to(me, radius)),
            threshold,
        ),
{
    let pred = near_to(me, radius);
    let f = tally_step(me, threshold);
    let g = guarded(pred, f);
    let z = SpecTally::zero();
    lemma_tally_filtered(s1, pred, f, z);
    lemma_tally_filtered(s2, pred, f, z);
    assert(commutative_foldl(g)) by {
        assert forall|x: Agent, y: Agent, v: SpecTally| #[trigger] g(g(v, x), y) == g(g(v, y), x) by {
            let vx = v.with(me, threshold, x);
            let vy = v.with(me, threshold, y);
            assert(vx.with(me, threshold, y) == vy.with(me, threshold, x));
        }
    }
    lemma_fold_left_permutation(s1, s2, g, z);
}

/// Order independence: what a step makes of an agent depends on the agent and
/// on which agents the flock holds, each how often, and not on the order in
/// which the flock holds them.
pub proof fn lemma_order_independence(
    a: Seq<Agent>,
    i: int,
    b: Seq<Agent>,
    k: int,
    bounds: Bounds,
    elapsed: int,
    config: Config,
)
    requires
        0 <= i < a.len(),
        0 <= k < b.len(),
        a[i] == b[k],
        a.to_multiset() == b.to_multiset(),
    ensures
        next_heading(a, i, bounds, config) == next_heading(b, k, bounds, config),
        next_agent(a, i, bounds, elapsed, config) == next_agent(b, k, bounds, elapsed, config),
{
    to_multiset_remove(a, i);
    to_multiset_remove(b, k);
    lemma_tally_unordered(
        a[i].position@,
        config.radius as int,
        config.separation_threshold as int,
        a.remove(i),
        b.remove(k),
    );
}

/// `perm` lists the indices below its length, each once.
pub open spec fn is_permutation(perm: Seq<int>) -> bool {
    &&& forall|k: int| 0 <= k < perm.len() ==> 0 <= #[trigger] perm[k] < perm.len()
    &&& forall|k: int, l: int|
        0 <= k < l < perm.len() ==> #[trigger] perm[k] != #[trigger] perm[l]
}

/// The flock `a` in the order that `perm` gives: agent `perm[k]` at place `k`.
pub open spec fn permuted(a: Seq<Agent>, perm: Seq<int>) -> Seq<Agent> {
    Seq::new(perm.len(), |k: int| a[perm[k]])
}

/// A flock in another order holds the same agents, each as often.
pub proof fn lemma_permuted_holds_same(a: Seq<Agent>, perm: Seq<int>)
    requires
        perm.len() == a.len(),
        is_permutation(perm),
    ensures
        permuted(a, perm).to_multiset() == a.to_multiset(),
    decreases a.len(),
{
    broadcast use vstd::multiset::group_multiset_axioms;

    let b = permuted(a, perm);
    if a.len() == 0 {
        assert(b =~= a);
    } else {
        let n = a.len() as int;
        let j = perm[n - 1];
        let rest = a.remove(j);
        let shifted = Seq::new(
            (n - 1) as nat,
            |k: int|
                if perm[k] > j {
                    perm[k] - 1
                } else {
                    perm[k]
                },
        );
        assert forall|k: int| 0 <= k < shifted.len() implies 0 <= #[trigger] shifted[k]
            < shifted.len() by {
            assert(perm[k] != perm[n - 1]);
        }
        assert forall|k: int, l: int| 0 <= k < l < shifted.len() implies #[trigger] shifted[k]
            != #[trigger] shifted[l] by {
            assert(perm[k] != perm[l]);
            assert(perm[k] != perm[n - 1]);
            assert(perm[l] != perm[n - 1]);
        }
        assert(permuted(rest, shifted) =~= b.drop_last()) by {
            assert forall|k: int| 0 <= k < n - 1 implies permuted(rest, shifted)[k] == b[k] by {
                assert(perm[k] != perm[n - 1]);
            }
        }
        lemma_permuted_holds_same(rest, shifted);
        to_multiset_remove(a, j);
        assert(b =~= b.drop_last().push(a[j]));
        to_multiset_build(b.drop_last(), a[j]);
        to_multiset_contains(a, a[j]);
        assert(a.contains(a[j]));
        assert(a.to_multiset().remove(a[j]).insert(a[j]) =~= a.to_multiset());
    }
}

/// Order independence, said of a flock and the same flock in another order:
/// the agent at place `k` of the reordered flock fares in a step as it does
/// in the flock itself.
pub proof fn lemma_permutation_independence(
    a: Seq<Agent>,
    perm: Seq<int>,
    k: int,
    bounds: Bounds,
    elapsed: int,
    config: Config,
)
    requires
        perm.len() == a.len(),
        is_permutation(perm),
        0 <= k < a.len(),
    ensures
        next_agent(permuted(a, perm), k, bounds, elapsed, config) == next_agent(
            a,
            perm[k],
            bounds,
            elapsed,
            config,
        ),
{
    lemma_permuted_holds_same(a, perm);
    lemma_order_independence(permuted(a, perm), k, a, perm[k], bounds, elapsed, config);
}

} // verus!
