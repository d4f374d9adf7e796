//! The island solver: what one island does during one substep.
//!
//! A solver holds its own copy of the bodies and contacts of one island, so
//! that the islands of a world can be solved in any order, or at the same
//! time. Solving integrates the forces into the velocities, takes out of the
//! velocities what would carry two touching bodies into each other, and
//! derives the next positions. Joints tie bodies into islands; the solver
//! does not constrain them further.

use crate::dynamics::rigid_body::RigidBody;
use crate::math::{
    quotient, rate_of, rate_over, saturate, saturated, travelled, Axis, Isometry, Vector, TICKS_PER_SECOND,
};
use crate::sequences::{lemma_take_all, lemma_take_step};
use vstd::prelude::*;

verus! {

/// One side of a contact, as the solver of an island sees it.
#[derive(Copy, Clone, Debug, PartialEq, Eq, Structural)]
pub enum Partner {
    /// The body at this index of the island.
    Member(usize),
    /// A body that the island does not move, with its linear velocity.
    Fixed(Vector),
}

/// A contact between two bodies, one of them at least a member of the island.
#[derive(Copy, Clone, Debug, PartialEq, Eq, Structural)]
pub struct SolverContact {
    pub first: Partner,
    pub second: Partner,
    /// The axis of the contact normal.
    pub axis: Axis,
    /// Whether the second body lies on the positive side of the first.
    pub positive: bool,
    /// Distance between the two along the normal; negative when they overlap.
    pub distance: i64,
    /// Speed along the normal that the solve took out of the pair.
    pub impulse: i64,
}

/// The body once its force has acted on it for `dt` ticks; the force is
/// spent. A massless body is not accelerated.
pub open spec fn accelerated(body: RigidBody, dt: u64) -> RigidBody {
    RigidBody {
        linvel: body.linvel.sum(body.force.divided(body.mass).over(dt)),
        force: Vector { x: 0, y: 0, z: 0 },
        ..body
    }
}

/// The body with the next position that its velocity takes it to in `dt` ticks.
pub open spec fn advanced(body: RigidBody, dt: u64) -> RigidBody {
    RigidBody {
        next_position: Isometry {
            translation: body.position.translation.sum(body.linvel.over(dt)),
            rotation: body.position.rotation.sum(body.angvel.over(dt)),
        },
        ..body
    }
}

/// Speed of one side of a contact along `axis`.
pub open spec fn speed_of(bodies: Seq<RigidBody>, partner: Partner, axis: Axis) -> int {
    match partner {
        Partner::Member(k) => if k < bodies.len() {
            bodies[k as int].linvel.along(axis) as int
        } else {
            0
        },
        Partner::Fixed(v) => v.along(axis) as int,
    }
}

/// Whether one side of a contact is a body that the island moves.
pub open spec fn movable(bodies: Seq<RigidBody>, partner: Partner) -> bool {
    match partner {
        Partner::Member(k) => k < bodies.len(),
        Partner::Fixed(v) => false,
    }
}

/// Speed at which the two sides of `contact` approach each other.
pub open spec fn closing_speed(bodies: Seq<RigidBody>, contact: SolverContact) -> int {
    let v1 = speed_of(bodies, contact.first, contact.axis);
    let v2 = speed_of(bodies, contact.second, contact.axis);
    if contact.positive {
        v1 - v2
    } else {
        v2 - v1
    }
}

/// The largest speed at which the two sides may approach each other without
/// meeting within `dt` ticks: none at all once they touch.
pub open spec fn closing_limit(contact: SolverContact, dt: u64) -> int {
    if contact.distance > 0 {
        rate_of(contact.distance as int, dt as int)
    } else {
        0
    }
}

/// How much faster than allowed the two sides approach each other.
pub open spec fn excess_speed(bodies: Seq<RigidBody>, contact: SolverContact, dt: u64) -> int {
    let over = closing_speed(bodies, contact) - closing_limit(contact, dt);
    if over > 0 {
        over
    } else {
        0
    }
}

/// The part of the excess that the first side gives up: half of it, rounded
/// down, when both sides can move, all of it when the first alone can.
pub open spec fn first_share(bodies: Seq<RigidBody>, contact: SolverContact, dt: u64) -> int {
    let excess = excess_speed(bodies, contact, dt);
    if !movable(bodies, contact.first) {
        0
    } else if movable(bodies, contact.second) {
        excess / 2
    } else {
        excess
    }
}

/// The part of the excess that the second side gives up: what the first
/// leaves.
pub open spec fn second_share(bodies: Seq<RigidBody>, contact: SolverContact, dt: u64) -> int {
    if movable(bodies, contact.second) {
        excess_speed(bodies, contact, dt) - first_share(bodies, contact, dt)
    } else {
        0
    }
}

/// The bodies with the speed along `axis` of one side of a contact changed by
/// `change`.
pub open spec fn nudged(bodies: Seq<RigidBody>, partner: Partner, axis: Axis, change: int) -> Seq<RigidBody> {
    match partner {
        Partner::Member(k) => if k < bodies.len() {
            bodies.update(
                k as int,
                RigidBody {
                    linvel: bodies[k as int].linvel.with(
                        axis,
                        saturated(bodies[k as int].linvel.along(axis) + change) as i64,
                    ),
                    ..bodies[k as int]
                },
            )
        } else {
            bodies
        },
        Partner::Fixed(v) => bodies,
    }
}

/// The bodies once `contact` has taken the excess out of their velocities.
pub open spec fn pushed(bodies: Seq<RigidBody>, contact: SolverContact, dt: u64) -> Seq<RigidBody> {
    let s1 = first_share(bodies, contact, dt);
    let s2 = second_share(bodies, contact, dt);
    if contact.positive {
        nudged(nudged(bodies, contact.first, contact.axis, -s1), contact.second, contact.axis, s2)
    } else {
        nudged(nudged(bodies, contact.first, contact.axis, s1), contact.second, contact.axis, -s2)
    }
}

/// The contact with the excess that it took out recorded as its impulse.
pub open spec fn resolved(bodies: Seq<RigidBody>, contact: SolverContact, dt: u64) -> SolverContact {
    SolverContact { impulse: saturated(excess_speed(bodies, contact, dt)) as i64, ..contact }
}

/// The bodies once the contacts have been applied, in their order.
pub open spec fn constrained(bodies: Seq<RigidBody>, contacts: Seq<SolverContact>, dt: u64) -> Seq<RigidBody>
    decreases contacts.len(),
{
    if contacts.len() == 0 {
        bodies
    } else {
        pushed(constrained(bodies, contacts.drop_last(), dt), contacts.last(), dt)
    }
}

/// The bodies of an island at the end of a solve.
pub open spec fn solved_bodies(bodies: Seq<RigidBody>, contacts: Seq<SolverContact>, dt: u64) -> Seq<RigidBody> {
    let pushed_bodies = constrained(Seq::new(bodies.len(), |k: int| accelerated(bodies[k], dt)), contacts, dt);
    Seq::new(bodies.len(), |k: int| advanced(pushed_bodies[k], dt))
}

/// The contacts of an island at the end of a solve: each holds the impulse
/// that it applied when its turn came.
pub open spec fn solved_contacts(bodies: Seq<RigidBody>, contacts: Seq<SolverContact>, dt: u64) -> Seq<
    SolverContact,
> {
    Seq::new(
        contacts.len(),
        |c: int|
            resolved(
                constrained(Seq::new(bodies.len(), |k: int| accelerated(bodies[k], dt)), contacts.take(c), dt),
                contacts[c],
                dt,
            ),
    )
}

/// Applying contacts never adds or removes a body.
pub proof fn lemma_constrained_len(bodies: Seq<RigidBody>, contacts: Seq<SolverContact>, dt: u64)
    ensures
        constrained(bodies, contacts, dt).len() == bodies.len(),
    decreases contacts.len(),
{
    if contacts.len() > 0 {
        lemma_constrained_len(bodies, contacts.drop_last(), dt);
    }
}

/// What a solve leaves of a body as it was: everything but its velocity, its
/// force and its next position.
pub open spec fn same_identity(a: RigidBody, b: RigidBody) -> bool {
    a == (RigidBody { linvel: a.linvel, force: a.force, next_position: a.next_position, ..b })
}

/// Applying contacts changes nothing of a body but its linear velocity.
pub proof fn lemma_constrained_keeps(bodies: Seq<RigidBody>, contacts: Seq<SolverContact>, dt: u64, k: int)
    requires
        0 <= k < bodies.len(),
    ensures
        constrained(bodies, contacts, dt).len() == bodies.len(),
        constrained(bodies, contacts, dt)[k] == (RigidBody {
            linvel: constrained(bodies, contacts, dt)[k].linvel,
            ..bodies[k]
        }),
    decreases contacts.len(),
{
    lemma_constrained_len(bodies, contacts, dt);
    if contacts.len() > 0 {
        lemma_constrained_keeps(bodies, contacts.drop_last(), dt, k);
        lemma_constrained_len(bodies, contacts.drop_last(), dt);
    }
}

/// A solve leaves every body what it was, but for its velocity, its force and
/// its next position.
pub proof fn lemma_solved_keeps_identity(bodies: Seq<RigidBody>, contacts: Seq<SolverContact>, dt: u64, k: int)
    requires
        0 <= k < bodies.len(),
    ensures
        solved_bodies(bodies, contacts, dt).len() == bodies.len(),
        same_identity(solved_bodies(bodies, contacts, dt)[k], bodies[k]),
{
    let start = Seq::new(bodies.len(), |k: int| accelerated(bodies[k], dt));
    lemma_constrained_keeps(start, contacts, dt, k);
}

/// Whether the two sides of a contact are two bodies, or one body and
/// something else: not one body twice.
pub open spec fn two_sided(contact: SolverContact) -> bool {
    match (contact.first, contact.second) {
        (Partner::Member(j), Partner::Member(k)) => j != k,
        _ => true,
    }
}

/// A contact that has been applied holds: if one of its sides can move, the
/// two approach each other no faster than they may, and no slower than they
/// did if that was slow enough.
pub proof fn lemma_contact_holds(bodies: Seq<RigidBody>, contact: SolverContact, dt: u64)
    requires
        two_sided(contact),
        movable(bodies, contact.first) || movable(bodies, contact.second),
    ensures
        closing_speed(pushed(bodies, contact, dt), contact) == if closing_speed(bodies, contact)
            > closing_limit(contact, dt) {
            closing_limit(contact, dt)
        } else {
            closing_speed(bodies, contact)
        },
{
    let v1 = speed_of(bodies, contact.first, contact.axis);
    let v2 = speed_of(bodies, contact.second, contact.axis);
    let limit = closing_limit(contact, dt);
    let excess = excess_speed(bodies, contact, dt);
    let s1 = first_share(bodies, contact, dt);
    let s2 = second_share(bodies, contact, dt);
    assert(limit >= 0) by {
        if contact.distance > 0 {
            assert(contact.distance * TICKS_PER_SECOND as int >= 0) by (nonlinear_arith)
                requires
                    contact.distance > 0,
            ;
            if dt != 0 {
                assert(contact.distance * TICKS_PER_SECOND as int / dt as int >= 0) by (nonlinear_arith)
                    requires
                        contact.distance * TICKS_PER_SECOND as int >= 0,
                        dt > 0,
                ;
            }
        }
    }
    assert(0 <= s1 <= excess && 0 <= s2 <= excess && s1 + s2 == excess);
    let change1 = if contact.positive {
        -s1
    } else {
        s1
    };
    let change2 = if contact.positive {
        s2
    } else {
        -s2
    };
    let once = nudged(bodies, contact.first, contact.axis, change1);
    let twice = nudged(once, contact.second, contact.axis, change2);
    assert(twice == pushed(bodies, contact, dt));
    assert(speed_of(once, contact.second, contact.axis) == v2);
    assert(movable(once, contact.second) == movable(bodies, contact.second));
    assert(speed_of(once, contact.first, contact.axis) == v1 + change1) by {
        lemma_nudge_changes_speed(bodies, contact.first, contact.axis, change1);
    }
    assert(speed_of(twice, contact.second, contact.axis) == v2 + change2) by {
        lemma_nudge_changes_speed(once, contact.second, contact.axis, change2);
    }
    assert(speed_of(twice, contact.first, contact.axis) == v1 + change1);
}

/// A nudge that keeps the speed in range changes it by just that much.
pub proof fn lemma_nudge_changes_speed(bodies: Seq<RigidBody>, partner: Partner, axis: Axis, change: int)
    requires
        i64::MIN <= speed_of(bodies, partner, axis) + change <= i64::MAX,
        !movable(bodies, partner) ==> change == 0,
    ensures
        speed_of(nudged(bodies, partner, axis, change), partner, axis) == speed_of(bodies, partner, axis)
            + change,
{
}

/// What two sides may approach each other by within a substep does not take
/// them past each other: at the speed that a contact allows, they cover no
/// more than the distance between them.
pub proof fn lemma_limit_covers_no_more_than_the_gap(contact: SolverContact, dt: u64)
    ensures
        0 <= travelled(closing_limit(contact, dt), dt as int) <= if contact.distance > 0 {
            contact.distance as int
        } else {
            0
        },
{
    let d = contact.distance as int;
    let t = TICKS_PER_SECOND as int;
    if d > 0 && dt > 0 {
        let r = d * t / (dt as int);
        assert(0 <= r && r * dt <= d * t) by (nonlinear_arith)
            requires
                r == d * t / (dt as int),
                d > 0,
                t > 0,
                dt > 0,
        ;
        let limit = saturated(quotient(d * t, dt as int));
        assert(d * t >= 0) by (nonlinear_arith)
            requires
                d > 0,
                t > 0,
        ;
        assert(0 <= limit <= r);
        assert(0 <= limit * dt <= d * t) by (nonlinear_arith)
            requires
                0 <= limit <= r,
                r * dt <= d * t,
                dt > 0,
        ;
        assert(0 <= limit * dt / t <= d) by (nonlinear_arith)
            requires
                0 <= limit * dt <= d * t,
                t > 0,
        ;
    } else {
        assert(closing_limit(contact, dt) == 0);
        assert(0int * dt as int == 0);
    }
}

/// The solver of one island: the island's own copy of its bodies and of its
/// contacts, kept from step to step so that its storage is reused.
pub struct IslandSolver {
    /// The bodies of the island, in the order of the active set.
    pub bodies: Vec<RigidBody>,
    /// The contacts of the island, in the order of its list of indices.
    pub contacts: Vec<SolverContact>,
    /// The joints of the island, by their slot in the joint set.
    pub joints: Vec<usize>,
}

impl IslandSolver {
    /// A solver that holds nothing.
    pub fn new() -> (solver: IslandSolver)
        ensures
            solver.bodies@.len() == 0,
            solver.contacts@.len() == 0,
            solver.joints@.len() == 0,
    {
        IslandSolver { bodies: Vec::new(), contacts: Vec::new(), joints: Vec::new() }
    }

    /// Solves the island for a substep of `dt` ticks.
    pub fn solve(&mut self, dt: u64)
        ensures
            final(self).bodies@ == solved_bodies(old(self).bodies@, old(self).contacts@, dt),
            final(self).contacts@ == solved_contacts(old(self).bodies@, old(self).contacts@, dt),
            final(self).joints@ == old(self).joints@,
    {
        let n: usize = self.bodies.len();
        let ghost start = Seq::new(old(self).bodies@.len(), |k: int| accelerated(old(self).bodies@[k], dt));
        let mut i: usize = 0;
        while i < n
            invariant
                i <= n,
                n == self.bodies@.len(),
                n == old(self).bodies@.len(),
                self.contacts@ == old(self).contacts@,
                self.joints@ == old(self).joints@,
                forall|k: int| 0 <= k < i ==> self.bodies@[k] == accelerated(old(self).bodies@[k], dt),
                forall|k: int| i <= k < n ==> self.bodies@[k] == old(self).bodies@[k],
            decreases n - i,
        {
            let mut body = self.bodies[i];
            body.linvel = body.linvel.plus(&body.force.shrunk(body.mass).integrate(dt));
            body.force = Vector::zeros();
            self.bodies.set(i, body);
            i = i + 1;
        }
        assert(self.bodies@ =~= start);
        let m: usize = self.contacts.len();
        let mut c: usize = 0;
        while c < m
            invariant
                c <= m,
                m == self.contacts@.len(),
                m == old(self).contacts@.len(),
                n == self.bodies@.len(),
                self.joints@ == old(self).joints@,
                self.bodies@ == constrained(start, old(self).contacts@.take(c as int), dt),
                forall|k: int|
                    0 <= k < c ==> self.contacts@[k] == resolved(
                        constrained(start, old(self).contacts@.take(k), dt),
                        old(self).contacts@[k],
                        dt,
                    ),
                forall|k: int| c <= k < m ==> self.contacts@[k] == old(self).contacts@[k],
            decreases m - c,
        {
            let contact = self.contacts[c];
            proof {
                lemma_take_step(old(self).contacts@, c as int);
            }
            let impulse: i64 = push_apart(&mut self.bodies, &contact, dt);
            let mut done = contact;
            done.impulse = impulse;
            self.contacts.set(c, done);
            c = c + 1;
        }
        proof {
            lemma_take_all(old(self).contacts@);
        }
        let ghost pushed_bodies = self.bodies@;
        let mut j: usize = 0;
        while j < n
            invariant
                j <= n,
                n == self.bodies@.len(),
                n == pushed_bodies.len(),
                self.contacts@ == solved_contacts(old(self).bodies@, old(self).contacts@, dt),
                self.joints@ == old(self).joints@,
                forall|k: int| 0 <= k < j ==> self.bodies@[k] == advanced(pushed_bodies[k], dt),
                forall|k: int| j <= k < n ==> self.bodies@[k] == pushed_bodies[k],
            decreases n - j,
        {
            let mut body = self.bodies[j];
            body.next_position = Isometry {
                translation: body.position.translation.plus(&body.linvel.integrate(dt)),
                rotation: body.position.rotation.plus(&body.angvel.integrate(dt)),
            };
            self.bodies.set(j, body);
            j = j + 1;
        }
        assert(self.bodies@ =~= solved_bodies(old(self).bodies@, old(self).contacts@, dt));
    }
}

/// Speed of one side of a contact along `axis`, and whether the island
/// moves that side.
pub fn side_speed(bodies: &Vec<RigidBody>, partner: &Partner, axis: Axis) -> (r: (i64, bool))
    ensures
        r.0 as int == speed_of(bodies@, *partner, axis),
        r.1 == movable(bodies@, *partner),
{
    match partner {
        Partner::Member(k) => {
            if *k < bodies.len() {
                (bodies[*k].linvel.get(axis), true)
            } else {
                (0, false)
            }
        },
        Partner::Fixed(v) => (v.get(axis), false),
    }
}

/// Changes the speed along `axis` of one side of a contact by `change`.
pub fn nudge(bodies: &mut Vec<RigidBody>, partner: &Partner, axis: Axis, change: i128)
    requires
        -0x2_0000_0000_0000_0000 <= change <= 0x2_0000_0000_0000_0000,
    ensures
        final(bodies)@ == nudged(old(bodies)@, *partner, axis, change as int),
{
    match partner {
        Partner::Member(k) => {
            if *k < bodies.len() {
                let mut body = bodies[*k];
                let speed: i64 = body.linvel.get(axis);
                body.linvel.set(axis, saturate(speed as i128 + change));
                bodies.set(*k, body);
            }
        },
        Partner::Fixed(_v) => {},
    }
}

/// Takes out of the velocities of the two sides of `contact` what would
/// carry them into each other within `dt` ticks, and returns how much that was.
pub fn push_apart(bodies: &mut Vec<RigidBody>, contact: &SolverContact, dt: u64) -> (impulse: i64)
    ensures
        final(bodies)@ == pushed(old(bodies)@, *contact, dt),
        impulse == resolved(old(bodies)@, *contact, dt).impulse,
{
    let (v1, free1) = side_speed(bodies, &contact.first, contact.axis);
    let (v2, free2) = side_speed(bodies, &contact.second, contact.axis);
    let closing: i128 = if contact.positive {
        v1 as i128 - v2 as i128
    } else {
        v2 as i128 - v1 as i128
    };
    let limit: i64 = if contact.distance > 0 {
        rate_over(contact.distance, dt)
    } else {
        0
    };
    let over: i128 = closing - limit as i128;
    let excess: i128 = if over > 0 {
        over
    } else {
        0
    };
    let share1: i128 = if !free1 {
        0
    } else if free2 {
        excess / 2
    } else {
        excess
    };
    let share2: i128 = if free2 {
        excess - share1
    } else {
        0
    };
    if contact.positive {
        nudge(bodies, &contact.first, contact.axis, -share1);
        nudge(bodies, &contact.second, contact.axis, share2);
    } else {
        nudge(bodies, &contact.first, contact.axis, share1);
        nudge(bodies, &contact.second, contact.axis, -share2);
    }
    saturate(excess)
}

} // verus!
