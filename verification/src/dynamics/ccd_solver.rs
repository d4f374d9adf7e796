//! Continuous collision detection: keeps fast bodies from passing through
//! what lies in their way.
//!
//! A body is watched when it asks for it and moves, within one step, farther
//! than its thinnest collider is thick. For a watched body the solver finds
//! the time at which its bounds first reach the bounds of another body,
//! both moving in a straight line, and holds the body back to that time.

use crate::dynamics::rigid_body::RigidBody;
use crate::dynamics::rigid_body_set::{RigidBodyHandle, RigidBodySet};
use crate::geometry::collider::{Collider, ColliderSet};
use crate::geometry::shape::Aabb;
use crate::math::{distance_travelled, travelled, Axis, Isometry, Vector, TICKS_PER_SECOND};
use crate::sequences::{lemma_take_all, lemma_take_step};
use vstd::prelude::*;

verus! {

/// A body that is about to run into something, and when.
#[derive(Copy, Clone, Debug, PartialEq, Eq, Structural)]
pub struct Impact {
    pub body: RigidBodyHandle,
    /// Ticks from the start of the substep to the impact.
    pub toi: u64,
}

/// The size of a number.
pub open spec fn magnitude(x: int) -> int {
    if x < 0 {
        -x
    } else {
        x
    }
}

/// Whether the body moves, within `dt` ticks, farther along some axis than
/// its thinnest collider is thick.
pub open spec fn outruns(body: RigidBody, dt: u64) -> bool {
    ||| magnitude(travelled(body.linvel.x as int, dt as int)) > body.ccd_thickness
    ||| magnitude(travelled(body.linvel.y as int, dt as int)) > body.ccd_thickness
    ||| magnitude(travelled(body.linvel.z as int, dt as int)) > body.ccd_thickness
}

/// Whether continuous collision detection watches the body during a step of
/// `dt` ticks: the body asks for it, is dynamic and awake, and is fast.
pub open spec fn watched(body: RigidBody, dt: u64) -> bool {
    body.ccd_enabled && body.dynamic() && !body.sleeping && outruns(body, dt)
}

/// Whether slot `i` holds a body that is watched during a step of `dt` ticks.
pub open spec fn watched_at(bodies: RigidBodySet, dt: u64, i: int) -> bool {
    bodies.live(i) && watched(bodies.at(i), dt)
}

/// What slot `i` holds once the bodies have been marked as watched or not.
pub open spec fn flagged_slot(bodies: RigidBodySet, dt: u64, i: int) -> Option<RigidBody> {
    match bodies.slots@[i] {
        Some(body) => Some(RigidBody { ccd_active: watched(body, dt), ..body }),
        None => None,
    }
}

/// Ticks that a gap takes to close at the given closing speed, in units per
/// second, rounded down; none when there is no gap.
pub open spec fn approach_time(gap: int, speed: int) -> int {
    if gap <= 0 {
        0
    } else {
        gap * TICKS_PER_SECOND as int / speed
    }
}

/// When the extents of the two boxes along `axis` start to overlap, if `w` is
/// the velocity of the second relative to the first: at once if they overlap
/// already, never if the boxes do not approach each other along the axis.
pub open spec fn axis_enter(a: Aabb, b: Aabb, w: int, axis: Axis) -> Option<int> {
    let above = a.gap_above(b, axis);
    let below = b.gap_above(a, axis);
    if above > 0 {
        if w < 0 {
            Some(approach_time(above, -w))
        } else {
            None
        }
    } else if below > 0 {
        if w > 0 {
            Some(approach_time(below, w))
        } else {
            None
        }
    } else {
        Some(0)
    }
}

/// When the extents of the two boxes along `axis` have passed each other, if
/// `w` is the velocity of the second relative to the first; never if nothing
/// moves along the axis.
pub open spec fn axis_exit(a: Aabb, b: Aabb, w: int, axis: Axis) -> Option<int> {
    if w < 0 {
        Some(approach_time(-b.gap_above(a, axis), -w))
    } else if w > 0 {
        Some(approach_time(-a.gap_above(b, axis), w))
    } else {
        None
    }
}

/// Whether the boxes still overlap, or lie before each other, along `axis`
/// at time `t`.
pub open spec fn axis_open_at(a: Aabb, b: Aabb, w: int, axis: Axis, t: int) -> bool {
    axis_exit(a, b, w, axis) is None || axis_exit(a, b, w, axis)->Some_0 >= t
}

/// Velocity of the second body relative to the first along `axis`.
pub open spec fn relative_speed(va: Vector, vb: Vector, axis: Axis) -> int {
    vb.along(axis) - va.along(axis)
}

/// The later of two times.
pub open spec fn later(s: int, t: int) -> int {
    if s >= t {
        s
    } else {
        t
    }
}

/// The time, within `horizon` ticks, at which two boxes that move in a
/// straight line at the velocities `va` and `vb` first meet: the time at
/// which their extents overlap along every axis, if there is one before
/// they have passed each other along some axis.
pub open spec fn impact_time(a: Aabb, b: Aabb, va: Vector, vb: Vector, horizon: u64) -> Option<u64> {
    let wx = relative_speed(va, vb, Axis::X);
    let wy = relative_speed(va, vb, Axis::Y);
    let wz = relative_speed(va, vb, Axis::Z);
    let ex = axis_enter(a, b, wx, Axis::X);
    let ey = axis_enter(a, b, wy, Axis::Y);
    let ez = axis_enter(a, b, wz, Axis::Z);
    if ex is Some && ey is Some && ez is Some {
        let t = later(ex->Some_0, later(ey->Some_0, ez->Some_0));
        if t <= horizon && axis_open_at(a, b, wx, Axis::X, t) && axis_open_at(a, b, wy, Axis::Y, t)
            && axis_open_at(a, b, wz, Axis::Z, t) {
            Some(t as u64)
        } else {
            None
        }
    } else {
        None
    }
}

/// Linear velocity of the body that `handle` names; none if there is no such body.
pub open spec fn velocity_of(bodies: RigidBodySet, handle: RigidBodyHandle) -> Vector {
    if bodies.contains(handle) {
        bodies.body(handle).linvel
    } else {
        Vector { x: 0, y: 0, z: 0 }
    }
}

/// Whether the collider in slot `c1` belongs to a watched body, to the one in
/// slot `only` if a slot is given, and the collider in slot `c2` to another
/// body, neither being a sensor: the pairs among which impacts are looked for.
pub open spec fn candidate(bodies: RigidBodySet, colliders: ColliderSet, only: Option<usize>, c1: int, c2: int) -> bool {
    &&& 0 <= c1 < colliders.slots@.len()
    &&& 0 <= c2 < colliders.slots@.len()
    &&& colliders.slots@[c1] is Some
    &&& colliders.slots@[c2] is Some
    &&& !colliders.slots@[c1]->Some_0.sensor
    &&& !colliders.slots@[c2]->Some_0.sensor
    &&& colliders.slots@[c1]->Some_0.parent != colliders.slots@[c2]->Some_0.parent
    &&& bodies.contains(colliders.slots@[c1]->Some_0.parent)
    &&& bodies.body(colliders.slots@[c1]->Some_0.parent).ccd_active
    &&& only is Some ==> colliders.slots@[c1]->Some_0.parent.0 == only->Some_0
}

/// When the colliders in slots `c1` and `c2` meet within `horizon` ticks.
pub open spec fn pair_impact(bodies: RigidBodySet, colliders: ColliderSet, c1: int, c2: int, horizon: u64) -> Option<
    u64,
> {
    impact_time(
        colliders.slots@[c1]->Some_0.aabb(),
        colliders.slots@[c2]->Some_0.aabb(),
        velocity_of(bodies, colliders.slots@[c1]->Some_0.parent),
        velocity_of(bodies, colliders.slots@[c2]->Some_0.parent),
        horizon,
    )
}

/// Whether the pair `(c1, c2)` is a candidate that meets within `horizon` ticks.
pub open spec fn hits(
    bodies: RigidBodySet,
    colliders: ColliderSet,
    only: Option<usize>,
    c1: int,
    c2: int,
    horizon: u64,
) -> bool {
    candidate(bodies, colliders, only, c1, c2) && pair_impact(bodies, colliders, c1, c2, horizon) is Some
}

/// Whether `found` is the earliest impact among the candidates that precede
/// the pair `(a, b)` in dictionary order: the time of one of them, and none
/// of them meets sooner; nothing if none of them meets at all.
pub open spec fn earliest_before(
    found: Option<u64>,
    bodies: RigidBodySet,
    colliders: ColliderSet,
    only: Option<usize>,
    horizon: u64,
    a: int,
    b: int,
) -> bool {
    &&& forall|c1: int, c2: int|
        (c1 < a || (c1 == a && c2 < b)) && #[trigger] hits(bodies, colliders, only, c1, c2, horizon)
            ==> found is Some && found->Some_0 <= pair_impact(bodies, colliders, c1, c2, horizon)->Some_0
    &&& found is Some ==> exists|c1: int, c2: int|
        (c1 < a || (c1 == a && c2 < b)) && #[trigger] hits(bodies, colliders, only, c1, c2, horizon)
            && pair_impact(bodies, colliders, c1, c2, horizon) == found
}

/// Whether `found` is the earliest impact, within `horizon` ticks, of a
/// watched body, of the one in slot `only` if a slot is given.
pub open spec fn is_earliest_impact(
    found: Option<u64>,
    bodies: RigidBodySet,
    colliders: ColliderSet,
    only: Option<usize>,
    horizon: u64,
) -> bool {
    earliest_before(found, bodies, colliders, only, horizon, colliders.slots@.len() as int, 0)
}

/// What a body is after an impact has held it back: its next position is
/// where its velocity takes it in the time to the impact.
pub open spec fn held_back(body: RigidBody, toi: u64) -> RigidBody {
    RigidBody {
        next_position: Isometry {
            translation: body.position.translation.sum(body.linvel.over(toi)),
            rotation: body.position.rotation.sum(body.angvel.over(toi)),
        },
        ..body
    }
}

/// The slots once the body of `impact`, if it exists, has been held back.
pub open spec fn clamped_by(slots: Seq<Option<RigidBody>>, impact: Impact) -> Seq<Option<RigidBody>> {
    if impact.body.0 < slots.len() && slots[impact.body.0 as int] is Some {
        slots.update(impact.body.0 as int, Some(held_back(slots[impact.body.0 as int]->Some_0, impact.toi)))
    } else {
        slots
    }
}

/// The slots once the bodies of `impacts` have been held back, one impact
/// after the other.
pub open spec fn clamped(slots: Seq<Option<RigidBody>>, impacts: Seq<Impact>) -> Seq<Option<RigidBody>>
    decreases impacts.len(),
{
    if impacts.len() == 0 {
        slots
    } else {
        clamped_by(clamped(slots, impacts.drop_last()), impacts.last())
    }
}

/// The impacts predicted for the watched bodies in the slots before `upto`,
/// in the order of the slots: for each such body that meets something within
/// `dt` ticks, the time at which it first does.
#[verifier::opaque]
pub open spec fn predicted(bodies: RigidBodySet, colliders: ColliderSet, dt: u64, found: Seq<Impact>, upto: int) -> bool {
    &&& forall|k: int|
        0 <= k < found.len() ==> {
            &&& (#[trigger] found[k]).body.0 < upto
            &&& bodies.live(found[k].body.0 as int)
            &&& bodies.at(found[k].body.0 as int).ccd_active
            &&& is_earliest_impact(Some(found[k].toi), bodies, colliders, Some(found[k].body.0), dt)
        }
    &&& forall|j: int, k: int| 0 <= j < k < found.len() ==> found[j].body.0 < found[k].body.0
    &&& forall|i: int|
        0 <= i < upto && bodies.live(i) && bodies.at(i).ccd_active && !is_earliest_impact(
            None,
            bodies,
            colliders,
            Some(i as usize),
            dt,
        ) ==> exists|k: int| 0 <= k < found.len() && (#[trigger] found[k]).body.0 == i
}

/// A count of queries after one more query; it stops at the largest value.
pub open spec fn counted(queries: usize) -> usize {
    if queries < usize::MAX {
        (queries + 1) as usize
    } else {
        queries
    }
}

/// The solver of continuous collision detection.
pub struct CCDSolver {
    /// How many impacts have been looked for since the solver was made.
    pub queries: usize,
}

impl CCDSolver {
    /// A solver that has looked for no impact yet.
    pub fn new() -> (solver: CCDSolver)
        ensures
            solver.queries == 0,
    {
        CCDSolver { queries: 0 }
    }

    /// Marks the bodies that are watched during a step of `dt` ticks, and
    /// tells whether any body is.
    pub fn update_ccd_active_flags(&self, bodies: &mut RigidBodySet, dt: u64) -> (any: bool)
        ensures
            final(bodies).slots@.len() == old(bodies).slots@.len(),
            forall|i: int|
                0 <= i < old(bodies).slots@.len() ==> #[trigger] final(bodies).slots@[i] == flagged_slot(
                    *old(bodies),
                    dt,
                    i,
                ),
            final(bodies).same_sets(*old(bodies)),
            any == exists|i: int| #[trigger] watched_at(*old(bodies), dt, i),
    {
        let n: usize = bodies.slots.len();
        let mut any: bool = false;
        let mut i: usize = 0;
        while i < n
            invariant
                i <= n,
                n == bodies.slots@.len(),
                n == old(bodies).slots@.len(),
                bodies.same_sets(*old(bodies)),
                forall|k: int|
                    0 <= k < i ==> #[trigger] bodies.slots@[k] == flagged_slot(*old(bodies), dt, k),
                forall|k: int| i <= k < n ==> bodies.slots@[k] == old(bodies).slots@[k],
                any == exists|k: int| 0 <= k < i && #[trigger] watched_at(*old(bodies), dt, k),
            decreases n - i,
        {
            let ghost had = any;
            match bodies.slots[i] {
                Some(body) => {
                    let mut flagged = body;
                    flagged.ccd_active = is_watched(&body, dt);
                    if flagged.ccd_active {
                        any = true;
                    }
                    bodies.slots.set(i, Some(flagged));
                },
                None => {},
            }
            proof {
                if watched_at(*old(bodies), dt, i as int) {
                } else if had {
                    let k = choose|k: int| 0 <= k < i && #[trigger] watched_at(*old(bodies), dt, k);
                    assert(0 <= k < i + 1 && watched_at(*old(bodies), dt, k));
                } else {
                    assert forall|k: int| 0 <= k < i + 1 implies !#[trigger] watched_at(
                        *old(bodies),
                        dt,
                        k,
                    ) by {}
                }
            }
            i = i + 1;
        }
        any
    }

    /// The earliest time, within `dt` ticks, at which a watched body meets
    /// another body, if any does.
    pub fn find_first_impact(&mut self, dt: u64, bodies: &RigidBodySet, colliders: &ColliderSet) -> (toi: Option<
        u64,
    >)
        ensures
            is_earliest_impact(toi, *bodies, *colliders, None, dt),
            toi is Some ==> toi->Some_0 <= dt,
            final(self).queries == counted(old(self).queries),
    {
        if self.queries < usize::MAX {
            self.queries = self.queries + 1;
        }
        earliest_impact(bodies, colliders, None, dt)
    }

    /// The impacts that await the watched bodies on their way to their next
    /// positions: for each watched body that meets something within `dt`
    /// ticks, the time at which it first does. The impacts stand in the
    /// order of the bodies' slots.
    pub fn predict_impacts_at_next_positions(&mut self, dt: u64, bodies: &RigidBodySet, colliders: &ColliderSet) -> (impacts:
        Vec<Impact>)
        ensures
            predicted(*bodies, *colliders, dt, impacts@, bodies.slots@.len() as int),
            final(self).queries == counted(old(self).queries),
    {
        reveal(predicted);
        let mut impacts: Vec<Impact> = Vec::new();
        let n: usize = bodies.slots.len();
        let mut i: usize = 0;
        while i < n
            invariant
                i <= n,
                n == bodies.slots@.len(),
                predicted(*bodies, *colliders, dt, impacts@, i as int),
            decreases n - i,
        {
            reveal(predicted);
            let ghost before = impacts@;
            let active: bool = match bodies.slots[i] {
                Some(body) => body.ccd_active,
                None => false,
            };
            if active {
                match earliest_impact(bodies, colliders, Some(i), dt) {
                    Some(toi) => {
                        impacts.push(Impact { body: RigidBodyHandle(i), toi });
                        proof {
                            assert forall|k: int| 0 <= k < before.len() implies impacts@[k] == before[k] by {}
                            assert forall|s: int|
                                0 <= s < i + 1 && bodies.live(s) && bodies.at(s).ccd_active
                                    && !is_earliest_impact(None, *bodies, *colliders, Some(s as usize), dt) implies exists|
                                k: int,
                            |
                                0 <= k < impacts@.len() && (#[trigger] impacts@[k]).body.0 == s by {
                                if s < i {
                                    let k = choose|k: int|
                                        0 <= k < before.len() && (#[trigger] before[k]).body.0 == s;
                                    assert(impacts@[k].body.0 == s);
                                } else {
                                    assert(impacts@[before.len() as int].body.0 == s);
                                }
                            }
                        }
                    },
                    None => {},
                }
            }
            i = i + 1;
        }
        if self.queries < usize::MAX {
            self.queries = self.queries + 1;
        }
        impacts
    }

    /// Holds back the bodies that are about to run into something: each
    /// goes no farther than where it is at the time of its impact.
    pub fn clamp_motions(&self, bodies: &mut RigidBodySet, impacts: &Vec<Impact>)
        ensures
            final(bodies).slots@ == clamped(old(bodies).slots@, impacts@),
            final(bodies).same_sets(*old(bodies)),
    {
        let n: usize = impacts.len();
        let mut k: usize = 0;
        while k < n
            invariant
                k <= n,
                n == impacts@.len(),
                bodies.same_sets(*old(bodies)),
                bodies.slots@ == clamped(old(bodies).slots@, impacts@.take(k as int)),
            decreases n - k,
        {
            proof {
                lemma_take_step(impacts@, k as int);
            }
            let impact = impacts[k];
            if impact.body.0 < bodies.slots.len() {
                match bodies.slots[impact.body.0] {
                    Some(body) => {
                        let mut held = body;
                        held.next_position = Isometry {
                            translation: body.position.translation.plus(&body.linvel.integrate(impact.toi)),
                            rotation: body.position.rotation.plus(&body.angvel.integrate(impact.toi)),
                        };
                        bodies.slots.set(impact.body.0, Some(held));
                    },
                    None => {},
                }
            }
            k = k + 1;
        }
        proof {
            lemma_take_all(impacts@);
        }
    }
}

/// Whether continuous collision detection watches the body during a step of
/// `dt` ticks.
pub fn is_watched(body: &RigidBody, dt: u64) -> (r: bool)
    ensures
        r == watched(*body, dt),
{
    if !body.ccd_enabled || !body.is_dynamic() || body.sleeping {
        return false;
    }
    let limit: i128 = body.ccd_thickness as i128;
    let dx: i128 = distance_travelled(body.linvel.x, dt) as i128;
    let dy: i128 = distance_travelled(body.linvel.y, dt) as i128;
    let dz: i128 = distance_travelled(body.linvel.z, dt) as i128;
    let ax: i128 = if dx < 0 {
        -dx
    } else {
        dx
    };
    let ay: i128 = if dy < 0 {
        -dy
    } else {
        dy
    };
    let az: i128 = if dz < 0 {
        -dz
    } else {
        dz
    };
    ax > limit || ay > limit || az > limit
}

/// Ticks that a gap takes to close at the given closing speed.
fn time_to_close(gap: i128, speed: i128) -> (t: i128)
    requires
        speed > 0,
        gap <= 0x1_0000_0000_0000_0000,
        speed <= 0x1_0000_0000_0000_0000,
    ensures
        t as int == approach_time(gap as int, speed as int),
        0 <= t <= 0x1_0000_0000_0000_0000 * 1_000_000,
{
    if gap <= 0 {
        0
    } else {
        assert(gap as int * TICKS_PER_SECOND as int <= 0x1_0000_0000_0000_0000 * 1_000_000) by (nonlinear_arith)
            requires
                0 < gap <= 0x1_0000_0000_0000_0000,
                TICKS_PER_SECOND == 1_000_000,
        ;
        let scaled: u128 = (gap as u128) * (TICKS_PER_SECOND as u128);
        let q: u128 = scaled / (speed as u128);
        assert(q <= scaled) by (nonlinear_arith)
            requires
                q == scaled / (speed as u128),
                speed > 0,
        ;
        q as i128
    }
}

/// When the extents of the two boxes along `axis` start to overlap, and when
/// they have passed each other.
fn axis_window(a: &Aabb, b: &Aabb, va: &Vector, vb: &Vector, axis: Axis) -> (r: (Option<i128>, Option<i128>))
    ensures
        match r.0 {
            Some(t) => axis_enter(*a, *b, relative_speed(*va, *vb, axis), axis) == Some(t as int),
            None => axis_enter(*a, *b, relative_speed(*va, *vb, axis), axis) is None,
        },
        match r.1 {
            Some(t) => axis_exit(*a, *b, relative_speed(*va, *vb, axis), axis) == Some(t as int),
            None => axis_exit(*a, *b, relative_speed(*va, *vb, axis), axis) is None,
        },
        r.0 is Some ==> 0 <= r.0->Some_0 <= 0x1_0000_0000_0000_0000 * 1_000_000,
{
    let w: i128 = vb.get(axis) as i128 - va.get(axis) as i128;
    let above: i128 = b.mins.get(axis) as i128 - a.maxs.get(axis) as i128;
    let below: i128 = a.mins.get(axis) as i128 - b.maxs.get(axis) as i128;
    let enter: Option<i128> = if above > 0 {
        if w < 0 {
            Some(time_to_close(above, -w))
        } else {
            None
        }
    } else if below > 0 {
        if w > 0 {
            Some(time_to_close(below, w))
        } else {
            None
        }
    } else {
        Some(0)
    };
    let exit: Option<i128> = if w < 0 {
        Some(time_to_close(-below, -w))
    } else if w > 0 {
        Some(time_to_close(-above, w))
    } else {
        None
    };
    (enter, exit)
}

/// The time, within `horizon` ticks, at which the two boxes first meet.
pub fn impact_between(a: &Aabb, b: &Aabb, va: &Vector, vb: &Vector, horizon: u64) -> (toi: Option<u64>)
    ensures
        toi == impact_time(*a, *b, *va, *vb, horizon),
        toi is Some ==> toi->Some_0 <= horizon,
{
    let (ex, xx) = axis_window(a, b, va, vb, Axis::X);
    let (ey, xy) = axis_window(a, b, va, vb, Axis::Y);
    let (ez, xz) = axis_window(a, b, va, vb, Axis::Z);
    match (ex, ey, ez) {
        (Some(tx), Some(ty), Some(tz)) => {
            let tyz: i128 = if ty >= tz {
                ty
            } else {
                tz
            };
            let t: i128 = if tx >= tyz {
                tx
            } else {
                tyz
            };
            let open_x: bool = match xx {
                Some(e) => e >= t,
                None => true,
            };
            let open_y: bool = match xy {
                Some(e) => e >= t,
                None => true,
            };
            let open_z: bool = match xz {
                Some(e) => e >= t,
                None => true,
            };
            if t <= horizon as i128 && open_x && open_y && open_z {
                Some(t as u64)
            } else {
                None
            }
        },
        _ => None,
    }
}

/// Linear velocity of the body that `handle` names.
pub fn body_velocity(bodies: &RigidBodySet, handle: RigidBodyHandle) -> (v: Vector)
    ensures
        v == velocity_of(*bodies, handle),
{
    match bodies.get(handle) {
        Some(body) => body.linvel,
        None => Vector::zeros(),
    }
}

/// Whether the collider in slot `c1` is one from which impacts are looked for.
fn is_source(bodies: &RigidBodySet, colliders: &ColliderSet, only: Option<usize>, c1: usize) -> (r: Option<
    Collider,
>)
    requires
        c1 < colliders.slots@.len(),
    ensures
        match r {
            Some(c) => {
                &&& colliders.slots@[c1 as int] == Some(c)
                &&& !c.sensor
                &&& bodies.contains(c.parent)
                &&& bodies.body(c.parent).ccd_active
                &&& only is Some ==> c.parent.0 == only->Some_0
            },
            None => forall|c2: int| !candidate(*bodies, *colliders, only, c1 as int, c2),
        },
{
    match colliders.slots[c1] {
        Some(c) => {
            if c.sensor {
                return None;
            }
            let fits: bool = match only {
                Some(slot) => c.parent.0 == slot,
                None => true,
            };
            if !fits {
                return None;
            }
            match bodies.get(c.parent) {
                Some(body) => {
                    if body.ccd_active {
                        Some(c)
                    } else {
                        None
                    }
                },
                None => None,
            }
        },
        None => None,
    }
}

/// The earliest time, within `horizon` ticks, at which a watched body, the
/// one in slot `only` if a slot is given, meets another body.
pub fn earliest_impact(bodies: &RigidBodySet, colliders: &ColliderSet, only: Option<usize>, horizon: u64) -> (found:
    Option<u64>)
    ensures
        is_earliest_impact(found, *bodies, *colliders, only, horizon),
        found is Some ==> found->Some_0 <= horizon,
{
    let n: usize = colliders.slots.len();
    let mut best: Option<u64> = None;
    let mut c1: usize = 0;
    while c1 < n
        invariant
            c1 <= n,
            n == colliders.slots@.len(),
            earliest_before(best, *bodies, *colliders, only, horizon, c1 as int, 0),
            best is Some ==> best->Some_0 <= horizon,
        decreases n - c1,
    {
        match is_source(bodies, colliders, only, c1) {
            Some(first) => {
                let v1 = body_velocity(bodies, first.parent);
                let aabb1 = first.compute_aabb();
                let mut c2: usize = 0;
                while c2 < n
                    invariant
                        c1 < n,
                        c2 <= n,
                        n == colliders.slots@.len(),
                        colliders.slots@[c1 as int] == Some(first),
                        !first.sensor,
                        bodies.contains(first.parent),
                        bodies.body(first.parent).ccd_active,
                        only is Some ==> first.parent.0 == only->Some_0,
                        v1 == velocity_of(*bodies, first.parent),
                        aabb1 == first.aabb(),
                        earliest_before(best, *bodies, *colliders, only, horizon, c1 as int, c2 as int),
                        best is Some ==> best->Some_0 <= horizon,
                    decreases n - c2,
                {
                    let ghost had = best;
                    match colliders.slots[c2] {
                        Some(second) => {
                            if !second.sensor && second.parent.0 != first.parent.0 {
                                let v2 = body_velocity(bodies, second.parent);
                                match impact_between(&aabb1, &second.compute_aabb(), &v1, &v2, horizon) {
                                    Some(t) => {
                                        let sooner: bool = match best {
                                            Some(b) => t < b,
                                            None => true,
                                        };
                                        if sooner {
                                            best = Some(t);
                                        }
                                        proof {
                                            assert(hits(*bodies, *colliders, only, c1 as int, c2 as int, horizon));
                                        }
                                    },
                                    None => {},
                                }
                            }
                        },
                        None => {},
                    }
                    proof {
                        lemma_earliest_step(had, best, *bodies, *colliders, only, horizon, c1 as int, c2 as int);
                    }
                    c2 = c2 + 1;
                }
                proof {
                    lemma_earliest_row(best, *bodies, *colliders, only, horizon, c1 as int, n as int);
                }
            },
            None => {
                proof {
                    lemma_earliest_skip(best, *bodies, *colliders, only, horizon, c1 as int);
                }
            },
        }
        c1 = c1 + 1;
    }
    best
}

/// A body that is held back to its time of impact has not passed what it
/// runs into: at the speed at which a gap closes, the time that the gap is
/// given to close covers no more than the gap.
pub proof fn lemma_impact_stops_short(gap: int, speed: int)
    requires
        speed > 0,
    ensures
        0 <= approach_time(gap, speed),
        approach_time(gap, speed) * speed <= (if gap > 0 {
            gap
        } else {
            0
        }) * TICKS_PER_SECOND as int,
{
    let t = TICKS_PER_SECOND as int;
    if gap > 0 {
        let time = gap * t / speed;
        assert(0 <= time && time * speed <= gap * t) by (nonlinear_arith)
            requires
                time == gap * t / speed,
                gap > 0,
                t > 0,
                speed > 0,
        ;
    } else {
        assert(0int * speed == 0) by (nonlinear_arith);
        assert(0int * t == 0) by (nonlinear_arith);
    }
}

/// A body that moves toward an obstacle and is held back to the time of its
/// impact travels no farther than the obstacle is away.
pub proof fn lemma_held_back_stays_before(gap: u64, speed: i64)
    requires
        speed > 0,
        gap <= i64::MAX,
        approach_time(gap as int, speed as int) <= u64::MAX,
    ensures
        0 <= travelled(speed as int, approach_time(gap as int, speed as int)) <= gap,
{
    let t = TICKS_PER_SECOND as int;
    let time = approach_time(gap as int, speed as int);
    lemma_impact_stops_short(gap as int, speed as int);
    assert(0 <= speed * time <= gap * t) by (nonlinear_arith)
        requires
            0 <= time,
            time * speed <= gap * t,
            speed > 0,
            gap >= 0,
            t > 0,
    ;
    assert(0 <= speed * time / t <= gap) by (nonlinear_arith)
        requires
            0 <= speed * time <= gap * t,
            t > 0,
    ;
}

/// Looking at the pair `(a, b)` carries the search one pair further.
#[verifier::rlimit(50)]
pub proof fn lemma_earliest_step(
    had: Option<u64>,
    best: Option<u64>,
    bodies: RigidBodySet,
    colliders: ColliderSet,
    only: Option<usize>,
    horizon: u64,
    a: int,
    b: int,
)
    requires
        earliest_before(had, bodies, colliders, only, horizon, a, b),
        hits(bodies, colliders, only, a, b, horizon) ==> best == (if had is None || pair_impact(
            bodies,
            colliders,
            a,
            b,
            horizon,
        )->Some_0 < had->Some_0 {
            pair_impact(bodies, colliders, a, b, horizon)
        } else {
            had
        }),
        !hits(bodies, colliders, only, a, b, horizon) ==> best == had,
    ensures
        earliest_before(best, bodies, colliders, only, horizon, a, b + 1),
{
    assert forall|c1: int, c2: int|
        (c1 < a || (c1 == a && c2 < b + 1)) && #[trigger] hits(
            bodies,
            colliders,
            only,
            c1,
            c2,
            horizon,
        ) implies best is Some && best->Some_0 <= pair_impact(bodies, colliders, c1, c2, horizon)->Some_0 by {
        if c1 == a && c2 == b {
        } else {
            assert(c1 < a || (c1 == a && c2 < b));
            assert(had is Some && had->Some_0 <= pair_impact(bodies, colliders, c1, c2, horizon)->Some_0);
        }
    }
    if best is Some {
        if hits(bodies, colliders, only, a, b, horizon) && best == pair_impact(bodies, colliders, a, b, horizon) {
            assert((a < a || (a == a && b < b + 1)) && hits(bodies, colliders, only, a, b, horizon)
                && pair_impact(bodies, colliders, a, b, horizon) == best);
        } else {
            assert(best == had);
            let (c1, c2) = choose|c1: int, c2: int|
                (c1 < a || (c1 == a && c2 < b)) && #[trigger] hits(bodies, colliders, only, c1, c2, horizon)
                    && pair_impact(bodies, colliders, c1, c2, horizon) == had;
            assert((c1 < a || (c1 == a && c2 < b + 1)) && hits(bodies, colliders, only, c1, c2, horizon)
                && pair_impact(bodies, colliders, c1, c2, horizon) == best);
        }
    }
}

/// Once a row of pairs is done, the search stands at the start of the next row.
pub proof fn lemma_earliest_row(
    best: Option<u64>,
    bodies: RigidBodySet,
    colliders: ColliderSet,
    only: Option<usize>,
    horizon: u64,
    a: int,
    n: int,
)
    requires
        n == colliders.slots@.len(),
        earliest_before(best, bodies, colliders, only, horizon, a, n),
    ensures
        earliest_before(best, bodies, colliders, only, horizon, a + 1, 0),
{
    if best is Some {
        let (c1, c2) = choose|c1: int, c2: int|
            (c1 < a || (c1 == a && c2 < n)) && #[trigger] hits(bodies, colliders, only, c1, c2, horizon)
                && pair_impact(bodies, colliders, c1, c2, horizon) == best;
        assert(hits(bodies, colliders, only, c1, c2, horizon) && pair_impact(bodies, colliders, c1, c2, horizon)
            == best);
    }
}

/// A collider from which no impact is looked for adds nothing to the search.
pub proof fn lemma_earliest_skip(
    best: Option<u64>,
    bodies: RigidBodySet,
    colliders: ColliderSet,
    only: Option<usize>,
    horizon: u64,
    a: int,
)
    requires
        earliest_before(best, bodies, colliders, only, horizon, a, 0),
        forall|c2: int| !candidate(bodies, colliders, only, a, c2),
    ensures
        earliest_before(best, bodies, colliders, only, horizon, a + 1, 0),
{
    if best is Some {
        let (c1, c2) = choose|c1: int, c2: int|
            (c1 < a || (c1 == a && c2 < 0)) && #[trigger] hits(bodies, colliders, only, c1, c2, horizon)
                && pair_impact(bodies, colliders, c1, c2, horizon) == best;
        assert(hits(bodies, colliders, only, c1, c2, horizon) && pair_impact(bodies, colliders, c1, c2, horizon)
            == best);
    }
}

} // verus!
