//! Integer arithmetic and the small linear-algebra types of the simulation.
//!
//! Lengths are whole numbers of a unit that the caller chooses, durations are
//! whole clock ticks, and rates are units per second. Every operation is total:
//! a result that leaves the range of a coordinate is held at the nearest bound.

use vstd::prelude::*;

verus! {

/// Number of clock ticks in one second of simulated time.
pub const TICKS_PER_SECOND: u64 = 1_000_000;

/// The value closest to `x` that a coordinate can hold.
pub open spec fn saturated(x: int) -> int {
    if x < i64::MIN as int {
        i64::MIN as int
    } else if x > i64::MAX as int {
        i64::MAX as int
    } else {
        x
    }
}

/// Quotient of `a` by a positive `b`, rounded toward zero.
pub open spec fn quotient(a: int, b: int) -> int {
    if a >= 0 {
        a / b
    } else {
        -((-a) / b)
    }
}

/// Distance covered during `dt` ticks at `rate` units per second.
pub open spec fn travelled(rate: int, dt: int) -> int {
    saturated(quotient(rate * dt, TICKS_PER_SECOND as int))
}

/// Rate, in units per second, that covers `delta` in `dt` ticks; zero over an
/// empty duration.
pub open spec fn rate_of(delta: int, dt: int) -> int {
    if dt == 0 {
        0
    } else {
        saturated(quotient(delta * TICKS_PER_SECOND as int, dt))
    }
}

/// Brings a wide intermediate result back into the range of a coordinate.
pub fn saturate(x: i128) -> (r: i64)
    ensures
        r as int == saturated(x as int),
{
    if x < i64::MIN as i128 {
        i64::MIN
    } else if x > i64::MAX as i128 {
        i64::MAX
    } else {
        x as i64
    }
}

/// Divides rounding toward zero.
pub fn divide(a: i128, b: u64) -> (q: i128)
    requires
        b > 0,
        a > i128::MIN,
    ensures
        q as int == quotient(a as int, b as int),
        a >= 0 ==> 0 <= q <= a,
        a <= 0 ==> a <= q <= 0,
{
    if a >= 0 {
        let m: u128 = a as u128;
        let q: u128 = m / (b as u128);
        assert(q <= m) by (nonlinear_arith)
            requires
                q == m / (b as u128),
                b > 0,
        ;
        q as i128
    } else {
        let m: u128 = (-a) as u128;
        let q: u128 = m / (b as u128);
        assert(q <= m) by (nonlinear_arith)
            requires
                q == m / (b as u128),
                b > 0,
        ;
        -(q as i128)
    }
}

/// Product of a coordinate and a duration; it always fits the wide type.
pub fn scale(value: i64, factor: u64) -> (p: i128)
    ensures
        p as int == value as int * factor as int,
        p > i128::MIN,
{
    proof {
        assert(-0x8000_0000_0000_0000 * 0xffff_ffff_ffff_ffff <= value as int * factor as int
            <= 0x7fff_ffff_ffff_ffff * 0xffff_ffff_ffff_ffff) by (nonlinear_arith)
            requires
                -0x8000_0000_0000_0000 <= value as int <= 0x7fff_ffff_ffff_ffff,
                0 <= factor as int <= 0xffff_ffff_ffff_ffff,
        ;
    }
    (value as i128) * (factor as i128)
}

/// Distance covered during `dt` ticks at `rate` units per second.
pub fn distance_travelled(rate: i64, dt: u64) -> (d: i64)
    ensures
        d as int == travelled(rate as int, dt as int),
{
    saturate(divide(scale(rate, dt), TICKS_PER_SECOND))
}

/// Rate that covers `delta` in `dt` ticks; zero when `dt` is zero.
pub fn rate_over(delta: i64, dt: u64) -> (r: i64)
    ensures
        r as int == rate_of(delta as int, dt as int),
{
    if dt == 0 {
        0
    } else {
        saturate(divide(scale(delta, TICKS_PER_SECOND), dt))
    }
}

/// Sum of two coordinates.
pub fn add_saturating(a: i64, b: i64) -> (r: i64)
    ensures
        r as int == saturated(a as int + b as int),
{
    saturate(a as i128 + b as i128)
}

/// Difference of two coordinates.
pub fn sub_saturating(a: i64, b: i64) -> (r: i64)
    ensures
        r as int == saturated(a as int - b as int),
{
    saturate(a as i128 - b as i128)
}

/// One of the three coordinate axes.
#[derive(Copy, Clone, Debug, PartialEq, Eq, Structural)]
pub enum Axis {
    X,
    Y,
    Z,
}

/// A displacement, a point, a velocity or a force in three dimensions.
#[derive(Copy, Clone, Debug, PartialEq, Eq, Structural)]
pub struct Vector {
    pub x: i64,
    pub y: i64,
    pub z: i64,
}

impl Vector {
    /// Coordinate of `self` along `axis`.
    pub open spec fn along(self, axis: Axis) -> i64 {
        match axis {
            Axis::X => self.x,
            Axis::Y => self.y,
            Axis::Z => self.z,
        }
    }

    /// `self` with its coordinate along `axis` replaced by `value`.
    pub open spec fn with(self, axis: Axis, value: i64) -> Vector {
        match axis {
            Axis::X => Vector { x: value, ..self },
            Axis::Y => Vector { y: value, ..self },
            Axis::Z => Vector { z: value, ..self },
        }
    }

    /// Componentwise sum.
    pub open spec fn sum(self, other: Vector) -> Vector {
        Vector {
            x: saturated(self.x + other.x) as i64,
            y: saturated(self.y + other.y) as i64,
            z: saturated(self.z + other.z) as i64,
        }
    }

    /// Componentwise difference.
    pub open spec fn difference(self, other: Vector) -> Vector {
        Vector {
            x: saturated(self.x - other.x) as i64,
            y: saturated(self.y - other.y) as i64,
            z: saturated(self.z - other.z) as i64,
        }
    }

    /// Displacement covered in `dt` ticks at the rate `self`.
    pub open spec fn over(self, dt: u64) -> Vector {
        Vector {
            x: travelled(self.x as int, dt as int) as i64,
            y: travelled(self.y as int, dt as int) as i64,
            z: travelled(self.z as int, dt as int) as i64,
        }
    }

    /// Rate that covers the displacement `self` in `dt` ticks.
    pub open spec fn per(self, dt: u64) -> Vector {
        Vector {
            x: rate_of(self.x as int, dt as int) as i64,
            y: rate_of(self.y as int, dt as int) as i64,
            z: rate_of(self.z as int, dt as int) as i64,
        }
    }

    /// `self` multiplied by a whole number.
    pub open spec fn times(self, factor: u64) -> Vector {
        Vector {
            x: saturated(self.x * factor) as i64,
            y: saturated(self.y * factor) as i64,
            z: saturated(self.z * factor) as i64,
        }
    }

    /// `self` divided by a whole number, each coordinate rounded toward zero;
    /// the zero vector when the divisor is zero.
    pub open spec fn divided(self, divisor: u64) -> Vector {
        if divisor == 0 {
            Vector { x: 0, y: 0, z: 0 }
        } else {
            Vector {
                x: quotient(self.x as int, divisor as int) as i64,
                y: quotient(self.y as int, divisor as int) as i64,
                z: quotient(self.z as int, divisor as int) as i64,
            }
        }
    }

    /// The vector with the three given coordinates.
    pub fn new(x: i64, y: i64, z: i64) -> (v: Vector)
        ensures
            v == (Vector { x, y, z }),
    {
        Vector { x, y, z }
    }

    /// The zero vector.
    pub fn zeros() -> (v: Vector)
        ensures
            v == (Vector { x: 0, y: 0, z: 0 }),
    {
        Vector { x: 0, y: 0, z: 0 }
    }

    /// Coordinate along `axis`.
    pub fn get(&self, axis: Axis) -> (c: i64)
        ensures
            c == self.along(axis),
    {
        match axis {
            Axis::X => self.x,
            Axis::Y => self.y,
            Axis::Z => self.z,
        }
    }

    /// Replaces the coordinate along `axis`.
    pub fn set(&mut self, axis: Axis, value: i64)
        ensures
            *final(self) == old(self).with(axis, value),
    {
        match axis {
            Axis::X => {
                self.x = value;
            },
            Axis::Y => {
                self.y = value;
            },
            Axis::Z => {
                self.z = value;
            },
        }
    }

    /// Componentwise sum.
    pub fn plus(&self, other: &Vector) -> (v: Vector)
        ensures
            v == self.sum(*other),
    {
        Vector { x: add_saturating(self.x, other.x), y: add_saturating(self.y, other.y), z: add_saturating(self.z, other.z) }
    }

    /// Componentwise difference.
    pub fn minus(&self, other: &Vector) -> (v: Vector)
        ensures
            v == self.difference(*other),
    {
        Vector {
            x: sub_saturating(self.x, other.x),
            y: sub_saturating(self.y, other.y),
            z: sub_saturating(self.z, other.z),
        }
    }

    /// Displacement covered in `dt` ticks at the rate `self`.
    pub fn integrate(&self, dt: u64) -> (v: Vector)
        ensures
            v == self.over(dt),
    {
        Vector {
            x: distance_travelled(self.x, dt),
            y: distance_travelled(self.y, dt),
            z: distance_travelled(self.z, dt),
        }
    }

    /// Rate that covers the displacement `self` in `dt` ticks.
    pub fn differentiate(&self, dt: u64) -> (v: Vector)
        ensures
            v == self.per(dt),
    {
        Vector { x: rate_over(self.x, dt), y: rate_over(self.y, dt), z: rate_over(self.z, dt) }
    }

    /// `self` multiplied by a whole number.
    pub fn scaled(&self, factor: u64) -> (v: Vector)
        ensures
            v == self.times(factor),
    {
        Vector {
            x: saturate(scale(self.x, factor)),
            y: saturate(scale(self.y, factor)),
            z: saturate(scale(self.z, factor)),
        }
    }

    /// `self` divided by a whole number; the zero vector when it is zero.
    pub fn shrunk(&self, divisor: u64) -> (v: Vector)
        ensures
            v == self.divided(divisor),
    {
        if divisor == 0 {
            Vector { x: 0, y: 0, z: 0 }
        } else {
            Vector {
                x: saturate(divide(self.x as i128, divisor)),
                y: saturate(divide(self.y as i128, divisor)),
                z: saturate(divide(self.z as i128, divisor)),
            }
        }
    }
}

/// A pose: where a frame sits and how it is turned. The turn is kept as a
/// rotation vector, and poses compose coordinate by coordinate.
#[derive(Copy, Clone, Debug, PartialEq, Eq, Structural)]
pub struct Isometry {
    pub rotation: Vector,
    pub translation: Vector,
}

impl Isometry {
    /// The pose that moves nothing.
    pub open spec fn identity_pose() -> Isometry {
        Isometry {
            rotation: Vector { x: 0, y: 0, z: 0 },
            translation: Vector { x: 0, y: 0, z: 0 },
        }
    }

    /// The pose that moves nothing.
    pub fn identity() -> (pose: Isometry)
        ensures
            pose == Isometry::identity_pose(),
    {
        Isometry { rotation: Vector::zeros(), translation: Vector::zeros() }
    }

    /// A pose from its two parts.
    pub fn new(translation: Vector, rotation: Vector) -> (pose: Isometry)
        ensures
            pose == (Isometry { rotation, translation }),
    {
        Isometry { rotation, translation }
    }

    /// The unturned pose at `translation`.
    pub fn translation(x: i64, y: i64, z: i64) -> (pose: Isometry)
        ensures
            pose == (Isometry {
                rotation: Vector { x: 0, y: 0, z: 0 },
                translation: Vector { x, y, z },
            }),
    {
        Isometry { rotation: Vector::zeros(), translation: Vector { x, y, z } }
    }
}

} // verus!
