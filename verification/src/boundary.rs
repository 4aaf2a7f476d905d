//! Soft containment: near an edge of the world a heading is nudged back
//! toward the centre.

use crate::arith::{clamp, saturate, LIMIT};
use crate::config::{Bounds, Config};
use crate::vector::{SpecVector, Vector};
use vstd::prelude::*;

verus! {

/// What is added to one coordinate of the heading of an agent at coordinate
/// `p`, in a world that extends over `[-extent / 2, extent / 2]` along that
/// axis: `impulse` within `margin` of the lower edge, less `impulse` within
/// `margin` of the upper edge.
pub open spec fn turn(p: int, extent: int, margin: int, impulse: int) -> int {
    let up: int = if 2 * p < 2 * margin - extent {
        impulse
    } else {
        0
    };
    let down: int = if 2 * p > extent - 2 * margin {
        impulse
    } else {
        0
    };
    up - down
}

/// The heading `h` of an agent at `pos` after the turn on both axes of the
/// plane, saturated.
pub open spec fn turned(
    h: SpecVector,
    pos: SpecVector,
    bounds: Bounds,
    margin: int,
    impulse: int,
) -> SpecVector {
    SpecVector {
        x: clamp(h.x + turn(pos.x, bounds.width as int, margin, impulse), LIMIT as int),
        y: clamp(h.y + turn(pos.y, bounds.height as int, margin, impulse), LIMIT as int),
        z: h.z,
    }
}

/// The turn along one axis.
pub fn axis_turn(p: i64, extent: i64, margin: i64, impulse: i64) -> (t: i64)
    requires
        -LIMIT <= impulse <= LIMIT,
    ensures
        t == turn(p as int, extent as int, margin as int, impulse as int),
{
    let twice: i128 = 2 * (p as i128);
    let reach: i128 = 2 * (margin as i128);
    let wide: i128 = extent as i128;
    let up: i64 = if twice < reach - wide {
        impulse
    } else {
        0
    };
    let down: i64 = if twice > wide - reach {
        impulse
    } else {
        0
    };
    up - down
}

/// Turns the heading of an agent at `position` back from the edges of the
/// world.
pub fn avoid_boundary(heading: Vector, position: Vector, bounds: &Bounds, config: &Config) -> (r:
    Vector)
    requires
        heading.wf(),
        config.wf(),
    ensures
        r@ == turned(
            heading@,
            position@,
            *bounds,
            config.margin as int,
            config.turn_impulse as int,
        ),
        r.wf(),
{
    let tx: i64 = axis_turn(position.x, bounds.width, config.margin, config.turn_impulse);
    let ty: i64 = axis_turn(position.y, bounds.height, config.margin, config.turn_impulse);
    Vector {
        x: saturate(heading.x as i128 + tx as i128, LIMIT),
        y: saturate(heading.y as i128 + ty as i128, LIMIT),
        z: heading.z,
    }
}

} // verus!
