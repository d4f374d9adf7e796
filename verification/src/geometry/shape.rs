//! Shapes and their axis-aligned bounds.
//!
//! Collision geometry is resolved on axis-aligned bounds: exact for cuboids
//! and half-spaces, and on the side of caution for balls.

use crate::math::{saturate, saturated, Axis, Vector};
use vstd::prelude::*;

verus! {

/// An axis-aligned box, given by its two extreme corners.
#[derive(Copy, Clone, Debug, PartialEq, Eq, Structural)]
pub struct Aabb {
    pub mins: Vector,
    pub maxs: Vector,
}

/// How two boxes lie to each other: the axis along which they are farthest
/// apart, the side on which the second lies, and their distance along that
/// axis (negative when they overlap on every axis).
#[derive(Copy, Clone, Debug, PartialEq, Eq, Structural)]
pub struct Separation {
    pub axis: Axis,
    pub positive: bool,
    pub distance: i64,
}

/// The larger of two numbers.
pub open spec fn larger(a: int, b: int) -> int {
    if a >= b {
        a
    } else {
        b
    }
}

impl Aabb {
    /// The box moved by `by`.
    pub open spec fn moved(self, by: Vector) -> Aabb {
        Aabb { mins: self.mins.sum(by), maxs: self.maxs.sum(by) }
    }

    /// Distance from `self` to `other` when `other` lies on the positive side
    /// along `axis`.
    pub open spec fn gap_above(self, other: Aabb, axis: Axis) -> int {
        other.mins.along(axis) - self.maxs.along(axis)
    }

    /// Distance between the two boxes along `axis`; negative when their
    /// extents along it overlap.
    pub open spec fn gap_along(self, other: Aabb, axis: Axis) -> int {
        larger(self.gap_above(other, axis), other.gap_above(self, axis))
    }

    /// Distance between the two boxes: the largest of their distances along
    /// the three axes.
    pub open spec fn gap(self, other: Aabb) -> int {
        larger(
            self.gap_along(other, Axis::X),
            larger(self.gap_along(other, Axis::Y), self.gap_along(other, Axis::Z)),
        )
    }

    /// The first axis, in the order X, Y, Z, along which the boxes are
    /// farthest apart.
    pub open spec fn widest_axis(self, other: Aabb) -> Axis {
        if self.gap_along(other, Axis::X) == self.gap(other) {
            Axis::X
        } else if self.gap_along(other, Axis::Y) == self.gap(other) {
            Axis::Y
        } else {
            Axis::Z
        }
    }

    /// How `other` lies to `self`.
    pub open spec fn separation(self, other: Aabb) -> Separation {
        let axis = self.widest_axis(other);
        Separation {
            axis,
            positive: self.gap_above(other, axis) >= other.gap_above(self, axis),
            distance: saturated(self.gap(other)) as i64,
        }
    }

    /// Whether the boxes are no farther apart than `margin`.
    pub open spec fn within(self, other: Aabb, margin: u64) -> bool {
        self.gap(other) <= margin
    }

    /// The box moved by `by`.
    pub fn translated(&self, by: &Vector) -> (moved: Aabb)
        ensures
            moved == self.moved(*by),
    {
        Aabb { mins: self.mins.plus(by), maxs: self.maxs.plus(by) }
    }

    /// Distance between the two boxes along `axis`, and whether `other` lies
    /// on the positive side.
    fn distance_along(&self, other: &Aabb, axis: Axis) -> (r: (i128, bool))
        ensures
            r.0 as int == self.gap_along(*other, axis),
            r.1 == (self.gap_above(*other, axis) >= other.gap_above(*self, axis)),
    {
        let above: i128 = other.mins.get(axis) as i128 - self.maxs.get(axis) as i128;
        let below: i128 = self.mins.get(axis) as i128 - other.maxs.get(axis) as i128;
        if above >= below {
            (above, true)
        } else {
            (below, false)
        }
    }

    /// How `other` lies to `self`.
    pub fn separation_from(&self, other: &Aabb) -> (s: Separation)
        ensures
            s == self.separation(*other),
    {
        let (dx, px) = self.distance_along(other, Axis::X);
        let (dy, py) = self.distance_along(other, Axis::Y);
        let (dz, pz) = self.distance_along(other, Axis::Z);
        if dx >= dy && dx >= dz {
            Separation { axis: Axis::X, positive: px, distance: saturate(dx) }
        } else if dy >= dz {
            Separation { axis: Axis::Y, positive: py, distance: saturate(dy) }
        } else {
            Separation { axis: Axis::Z, positive: pz, distance: saturate(dz) }
        }
    }

    /// Whether the boxes are no farther apart than `margin`.
    pub fn is_within(&self, other: &Aabb, margin: u64) -> (near: bool)
        ensures
            near == self.within(*other, margin),
    {
        let (dx, _px) = self.distance_along(other, Axis::X);
        let (dy, _py) = self.distance_along(other, Axis::Y);
        let (dz, _pz) = self.distance_along(other, Axis::Z);
        dx <= margin as i128 && dy <= margin as i128 && dz <= margin as i128
    }
}

/// What a collider is made of.
#[derive(Copy, Clone, Debug, PartialEq, Eq, Structural)]
pub enum Shape {
    /// A ball around the collider's position.
    Ball { radius: i64 },
    /// A box around the collider's position, with the given half-extents.
    Cuboid { half_extents: Vector },
    /// Everything at or below the collider's position along the Y axis.
    HalfSpace,
    /// A block of voxels around the collider's position, with the given
    /// half-extents. It collides as the block that it fills, and it can be
    /// fractured.
    Voxels { half_extents: Vector },
}

/// The opposite of a coordinate.
pub open spec fn negated(x: i64) -> i64 {
    saturated(-(x as int)) as i64
}

/// The opposite of a coordinate.
pub fn negate(x: i64) -> (r: i64)
    ensures
        r == negated(x),
{
    saturate(-(x as i128))
}

impl Shape {
    /// Bounds of the shape around the origin.
    pub open spec fn bounds(self) -> Aabb {
        match self {
            Shape::Ball { radius } => Aabb {
                mins: Vector { x: negated(radius), y: negated(radius), z: negated(radius) },
                maxs: Vector { x: radius, y: radius, z: radius },
            },
            Shape::Cuboid { half_extents } => Aabb {
                mins: Vector {
                    x: negated(half_extents.x),
                    y: negated(half_extents.y),
                    z: negated(half_extents.z),
                },
                maxs: half_extents,
            },
            Shape::HalfSpace => Aabb {
                mins: Vector { x: i64::MIN, y: i64::MIN, z: i64::MIN },
                maxs: Vector { x: i64::MAX, y: 0, z: i64::MAX },
            },
            Shape::Voxels { half_extents } => Aabb {
                mins: Vector {
                    x: negated(half_extents.x),
                    y: negated(half_extents.y),
                    z: negated(half_extents.z),
                },
                maxs: half_extents,
            },
        }
    }

    /// Whether the shape is a block of voxels.
    pub open spec fn voxels(self) -> bool {
        self is Voxels
    }

    /// Half of the smallest extent of the shape: how far a body may travel in
    /// one substep before it can pass through something.
    pub open spec fn thickness(self) -> i64 {
        match self {
            Shape::Ball { radius } => radius,
            Shape::Cuboid { half_extents } => if half_extents.x <= half_extents.y && half_extents.x
                <= half_extents.z {
                half_extents.x
            } else if half_extents.y <= half_extents.z {
                half_extents.y
            } else {
                half_extents.z
            },
            Shape::HalfSpace => i64::MAX,
            Shape::Voxels { half_extents } => if half_extents.x <= half_extents.y && half_extents.x
                <= half_extents.z {
                half_extents.x
            } else if half_extents.y <= half_extents.z {
                half_extents.y
            } else {
                half_extents.z
            },
        }
    }

    /// Bounds of the shape around the origin.
    pub fn local_aabb(&self) -> (aabb: Aabb)
        ensures
            aabb == self.bounds(),
    {
        match self {
            Shape::Ball { radius } => {
                let low: i64 = negate(*radius);
                Aabb {
                    mins: Vector { x: low, y: low, z: low },
                    maxs: Vector { x: *radius, y: *radius, z: *radius },
                }
            },
            Shape::Cuboid { half_extents } => Aabb {
                mins: Vector {
                    x: negate(half_extents.x),
                    y: negate(half_extents.y),
                    z: negate(half_extents.z),
                },
                maxs: *half_extents,
            },
            Shape::HalfSpace => Aabb {
                mins: Vector { x: i64::MIN, y: i64::MIN, z: i64::MIN },
                maxs: Vector { x: i64::MAX, y: 0, z: i64::MAX },
            },
            Shape::Voxels { half_extents } => Aabb {
                mins: Vector {
                    x: negate(half_extents.x),
                    y: negate(half_extents.y),
                    z: negate(half_extents.z),
                },
                maxs: *half_extents,
            },
        }
    }

    /// Whether the shape is a block of voxels.
    pub fn is_voxels(&self) -> (r: bool)
        ensures
            r == self.voxels(),
    {
        match self {
            Shape::Voxels { half_extents: _ } => true,
            _ => false,
        }
    }

    /// Half of the smallest extent of the shape.
    pub fn ccd_thickness(&self) -> (t: i64)
        ensures
            t == self.thickness(),
    {
        match self {
            Shape::Ball { radius } => *radius,
            Shape::Cuboid { half_extents } => {
                if half_extents.x <= half_extents.y && half_extents.x <= half_extents.z {
                    half_extents.x
                } else if half_extents.y <= half_extents.z {
                    half_extents.y
                } else {
                    half_extents.z
                }
            },
            Shape::HalfSpace => i64::MAX,
            Shape::Voxels { half_extents } => {
                if half_extents.x <= half_extents.y && half_extents.x <= half_extents.z {
                    half_extents.x
                } else if half_extents.y <= half_extents.z {
                    half_extents.y
                } else {
                    half_extents.z
                }
            },
        }
    }
}

} // verus!
