//! Vectors: the stored kind with bounded `i64` coordinates, the wide kind that
//! holds sums of them, and the mathematical kind that contracts speak of.

use crate::arith::{clamp, div_trunc, saturate, trunc_div, LIMIT, ONE};
use vstd::prelude::*;

verus! {

/// A vector of three mathematical integers: what a stored or a wide vector
/// stands for.
pub struct SpecVector {
    pub x: int,
    pub y: int,
    pub z: int,
}

impl SpecVector {
    pub open spec fn zero() -> SpecVector {
        SpecVector { x: 0, y: 0, z: 0 }
    }

    pub open spec fn plus(self, o: SpecVector) -> SpecVector {
        SpecVector { x: self.x + o.x, y: self.y + o.y, z: self.z + o.z }
    }

    pub open spec fn minus(self, o: SpecVector) -> SpecVector {
        SpecVector { x: self.x - o.x, y: self.y - o.y, z: self.z - o.z }
    }

    /// The square of the vector's length.
    pub open spec fn norm_sq(self) -> int {
        self.x * self.x + self.y * self.y + self.z * self.z
    }

    /// The square of the distance between two points.
    pub open spec fn dist_sq(self, o: SpecVector) -> int {
        self.minus(o).norm_sq()
    }

    /// Each coordinate divided by `n`, rounded toward zero.
    pub open spec fn divided(self, n: int) -> SpecVector {
        SpecVector { x: trunc_div(self.x, n), y: trunc_div(self.y, n), z: trunc_div(self.z, n) }
    }

    /// The vector times the fixed-point factor `f`, rounded toward zero.
    pub open spec fn scaled(self, f: int) -> SpecVector {
        SpecVector {
            x: trunc_div(self.x * f, ONE as int),
            y: trunc_div(self.y * f, ONE as int),
            z: trunc_div(self.z * f, ONE as int),
        }
    }

    /// Each coordinate brought into `[-lim, lim]`.
    pub open spec fn clamped(self, lim: int) -> SpecVector {
        SpecVector { x: clamp(self.x, lim), y: clamp(self.y, lim), z: clamp(self.z, lim) }
    }

    /// Every coordinate lies in `[-lim, lim]`.
    pub open spec fn within(self, lim: int) -> bool {
        &&& -lim <= self.x <= lim
        &&& -lim <= self.y <= lim
        &&& -lim <= self.z <= lim
    }
}

/// A stored vector, in fixed-point units.
#[derive(Clone, Copy, Debug, PartialEq, Eq, Structural)]
pub struct Vector {
    pub x: i64,
    pub y: i64,
    pub z: i64,
}

impl View for Vector {
    type V = SpecVector;

    open spec fn view(&self) -> SpecVector {
        SpecVector { x: self.x as int, y: self.y as int, z: self.z as int }
    }
}

/// A vector with room for the sum of any number of stored vectors.
#[derive(Clone, Copy, Debug, PartialEq, Eq, Structural)]
pub struct Wide {
    pub x: i128,
    pub y: i128,
    pub z: i128,
}

impl View for Wide {
    type V = SpecVector;

    open spec fn view(&self) -> SpecVector {
        SpecVector { x: self.x as int, y: self.y as int, z: self.z as int }
    }
}

impl Vector {
    /// No coordinate exceeds `LIMIT` in magnitude.
    pub open spec fn wf(&self) -> bool {
        self@.within(LIMIT as int)
    }

    pub fn new(x: i64, y: i64, z: i64) -> (v: Vector)
        ensures
            v == (Vector { x, y, z }),
    {
        Vector { x, y, z }
    }

    pub fn zero() -> (v: Vector)
        ensures
            v@ == SpecVector::zero(),
            v.wf(),
    {
        Vector { x: 0, y: 0, z: 0 }
    }

    /// Whether every coordinate lies within the limit.
    pub fn is_wf(&self) -> (b: bool)
        ensures
            b == self.wf(),
    {
        -LIMIT <= self.x && self.x <= LIMIT && -LIMIT <= self.y && self.y <= LIMIT && -LIMIT
            <= self.z && self.z <= LIMIT
    }

    /// The square of the vector's length.
    pub fn norm_sq(&self) -> (s: u128)
        ensures
            s == self@.norm_sq(),
    {
        let x: i128 = self.x as i128;
        let y: i128 = self.y as i128;
        let z: i128 = self.z as i128;
        proof {
            lemma_square_bound(x as int, 0x8000_0000_0000_0000);
            lemma_square_bound(y as int, 0x8000_0000_0000_0000);
            lemma_square_bound(z as int, 0x8000_0000_0000_0000);
        }
        let xx: u128 = (x * x) as u128;
        let yy: u128 = (y * y) as u128;
        let zz: u128 = (z * z) as u128;
        xx + yy + zz
    }

    /// The square of the distance to `o`.
    pub fn dist_sq(&self, o: &Vector) -> (s: u128)
        requires
            self.wf(),
            o.wf(),
        ensures
            s == self@.dist_sq(o@),
    {
        let d: Vector = Vector { x: self.x - o.x, y: self.y - o.y, z: self.z - o.z };
        d.norm_sq()
    }

    /// The vector as a wide one.
    pub fn widen(&self) -> (w: Wide)
        ensures
            w@ == self@,
    {
        Wide { x: self.x as i128, y: self.y as i128, z: self.z as i128 }
    }
}

impl Wide {
    pub fn zero() -> (w: Wide)
        ensures
            w@ == SpecVector::zero(),
    {
        Wide { x: 0, y: 0, z: 0 }
    }

    /// The vector with each coordinate saturated to the limit of stored ones.
    pub fn saturated(&self) -> (v: Vector)
        ensures
            v@ == self@.clamped(LIMIT as int),
            v.wf(),
    {
        Vector { x: saturate(self.x, LIMIT), y: saturate(self.y, LIMIT), z: saturate(self.z, LIMIT) }
    }

    /// Each coordinate divided by `n`, rounded toward zero.
    pub fn divided(&self, n: i128) -> (w: Wide)
        requires
            n > 0,
            self.x > i128::MIN,
            self.y > i128::MIN,
            self.z > i128::MIN,
        ensures
            w@ == self@.divided(n as int),
    {
        Wide { x: div_trunc(self.x, n), y: div_trunc(self.y, n), z: div_trunc(self.z, n) }
    }
}

/// A number of magnitude at most `b` has a square of at most `b * b`.
pub proof fn lemma_square_bound(v: int, b: int)
    requires
        -b <= v <= b,
    ensures
        0 <= v * v <= b * b,
{
    assert(0 <= v * v <= b * b) by (nonlinear_arith)
        requires
            -b <= v <= b,
    ;
}

} // verus!
