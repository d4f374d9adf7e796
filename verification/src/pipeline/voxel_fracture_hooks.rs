//! Fracture of voxel colliders under the forces of contact.
//!
//! After a solve, every contact of a voxel collider is looked at. Where the
//! contact pushed hard enough, a region of the collider around the contact
//! is marked to be broken off. Breaking the voxels off is the caller's part;
//! once it is done, the pieces are reported, one event for each collider
//! that broke.

use crate::dynamics::integration_parameters::IntegrationParameters;
use crate::dynamics::rigid_body::{BodyStatus, RigidBody, RigidBodyBuilder};
use crate::dynamics::rigid_body_set::{RigidBodyHandle, RigidBodySet};
use crate::geometry::collider::{Collider, ColliderBuilder, ColliderHandle, ColliderSet};
use crate::geometry::narrow_phase::{ContactPair, NarrowPhase};
use crate::geometry::shape::{negate, negated, Aabb, Shape};
use crate::math::{
    add_saturating, divide, quotient, rate_of, rate_over, saturate,
    saturated, sub_saturating, Axis, Isometry, Vector,
};
use crate::pipeline::event_handler::{FractureEvent, PhysicsEvent};
use crate::sequences::{lemma_take_all, lemma_take_step};
use vstd::prelude::*;

verus! {

/// How easily voxels break.
#[derive(Copy, Clone, PartialEq, Eq, Structural, Debug)]
pub struct VoxelFractureMaterial {
    pub max_momentum: i64,
    pub min_force: i64,
    pub normal_dissipation: i64,
    pub max_fracture_radius: i64,
}

impl VoxelFractureMaterial {
    /// The material that `default` returns.
    pub open spec fn standard() -> VoxelFractureMaterial {
        VoxelFractureMaterial { max_momentum: 10, min_force: 1, normal_dissipation: 1, max_fracture_radius: 1 }
    }
}

impl Default for VoxelFractureMaterial {
    fn default() -> (material: VoxelFractureMaterial)
        ensures
            material == VoxelFractureMaterial::standard(),
    {
        VoxelFractureMaterial { max_momentum: 10, min_force: 1, normal_dissipation: 1, max_fracture_radius: 1 }
    }
}

/// A region of a voxel collider that is to be broken off.
#[derive(Copy, Clone, PartialEq, Eq, Structural, Debug)]
pub struct FractureRequest {
    pub collider: ColliderHandle,
    /// The region, relative to the collider.
    pub region: Aabb,
}

/// A piece that was broken off a collider.
#[derive(Copy, Clone, PartialEq, Eq, Structural, Debug)]
pub struct Fragment {
    pub fractured_collider: ColliderHandle,
    pub fragment: ColliderHandle,
}

/// Hooks that fracture voxel colliders where contacts push hard.
#[derive(Clone, Debug)]
pub struct VoxelFractureHooks {
    pub default_material: VoxelFractureMaterial,
}

impl Default for VoxelFractureHooks {
    fn default() -> (hooks: VoxelFractureHooks)
        ensures
            hooks.default_material == VoxelFractureMaterial::standard(),
    {
        VoxelFractureHooks { default_material: VoxelFractureMaterial::default() }
    }
}

/// `a` divided by `b`, rounded toward zero; zero when `b` is zero.
pub open spec fn safe_ratio(a: int, b: int) -> int {
    if b == 0 {
        0
    } else if b > 0 {
        quotient(a, b)
    } else {
        -quotient(a, -b)
    }
}

/// The force that an impulse amounts to over `dt` ticks.
pub open spec fn contact_force(impulse: i64, dt: u64) -> int {
    rate_of(impulse as int, dt as int)
}

/// How far around a contact the voxels break: the farther, the weaker the
/// contact pushed; not at all if it pushed with less than the least force of
/// the material, or so weakly that the region would reach the largest radius.
pub open spec fn fracture_radius(material: VoxelFractureMaterial, impulse: i64, dt: u64) -> Option<i64> {
    let force = contact_force(impulse, dt);
    let radius = saturated(safe_ratio(material.max_momentum as int, force));
    if force >= material.min_force && radius < material.max_fracture_radius {
        Some(radius as i64)
    } else {
        None
    }
}

/// The region that breaks off a shape with the bounds `bounds` when it is hit
/// on the face that looks along `axis`, to the positive side if `outward` is
/// set: a box around the centre of the face that reaches `radius` to all
/// sides along the face, and `radius` deep into the shape.
pub open spec fn fracture_region(bounds: Aabb, axis: Axis, outward: bool, radius: i64) -> Aabb {
    let face = if outward {
        bounds.maxs.along(axis)
    } else {
        bounds.mins.along(axis)
    };
    let low = negated(radius);
    let side_mins = Vector { x: low, y: low, z: low };
    let side_maxs = Vector { x: radius, y: radius, z: radius };
    if outward {
        Aabb {
            mins: side_mins.with(axis, saturated(face - radius) as i64),
            maxs: side_maxs.with(axis, face),
        }
    } else {
        Aabb {
            mins: side_mins.with(axis, face),
            maxs: side_maxs.with(axis, saturated(face + radius) as i64),
        }
    }
}

/// What is to be broken off the first collider of a contact, if it is made
/// of voxels.
pub open spec fn first_request(entry: ContactPair, colliders: ColliderSet, radius: i64) -> Seq<FractureRequest> {
    let m = entry.manifold->Some_0;
    if colliders.contains(entry.pair.collider1) && colliders.collider(entry.pair.collider1).shape.voxels() {
        seq![
            FractureRequest {
                collider: entry.pair.collider1,
                region: fracture_region(
                    colliders.collider(entry.pair.collider1).shape.bounds(),
                    m.axis,
                    m.positive,
                    radius,
                ),
            },
        ]
    } else {
        Seq::empty()
    }
}

/// What is to be broken off the second collider of a contact, if it is made
/// of voxels.
pub open spec fn second_request(entry: ContactPair, colliders: ColliderSet, radius: i64) -> Seq<FractureRequest> {
    let m = entry.manifold->Some_0;
    if colliders.contains(entry.pair.collider2) && colliders.collider(entry.pair.collider2).shape.voxels() {
        seq![
            FractureRequest {
                collider: entry.pair.collider2,
                region: fracture_region(
                    colliders.collider(entry.pair.collider2).shape.bounds(),
                    m.axis,
                    !m.positive,
                    radius,
                ),
            },
        ]
    } else {
        Seq::empty()
    }
}

/// What one contact breaks off its colliders.
pub open spec fn requests_of(
    material: VoxelFractureMaterial,
    entry: ContactPair,
    colliders: ColliderSet,
    dt: u64,
) -> Seq<FractureRequest> {
    if entry.manifold is Some && fracture_radius(material, entry.manifold->Some_0.impulse, dt) is Some {
        let radius = fracture_radius(material, entry.manifold->Some_0.impulse, dt)->Some_0;
        first_request(entry, colliders, radius) + second_request(entry, colliders, radius)
    } else {
        Seq::empty()
    }
}

/// What the contacts break off, in the order of the pairs.
pub open spec fn requests(
    material: VoxelFractureMaterial,
    entries: Seq<ContactPair>,
    colliders: ColliderSet,
    dt: u64,
) -> Seq<FractureRequest>
    decreases entries.len(),
{
    if entries.len() == 0 {
        Seq::empty()
    } else {
        requests(material, entries.drop_last(), colliders, dt) + requests_of(
            material,
            entries.last(),
            colliders,
            dt,
        )
    }
}

/// `a` divided by `b`, rounded toward zero; zero when `b` is zero.
pub fn ratio(a: i64, b: i64) -> (r: i64)
    ensures
        r as int == saturated(safe_ratio(a as int, b as int)),
{
    if b == 0 {
        0
    } else if b > 0 {
        saturate(divide(a as i128, b as u64))
    } else {
        let positive: u64 = (-(b as i128)) as u64;
        saturate(-divide(a as i128, positive))
    }
}

/// How far around a contact the voxels break, if they do.
pub fn radius_of_fracture(material: &VoxelFractureMaterial, impulse: i64, dt: u64) -> (radius: Option<i64>)
    ensures
        radius == fracture_radius(*material, impulse, dt),
{
    let force: i64 = rate_over(impulse, dt);
    if force < material.min_force {
        return None;
    }
    let radius: i64 = ratio(material.max_momentum, force);
    if radius < material.max_fracture_radius {
        Some(radius)
    } else {
        None
    }
}

/// The region that breaks off a shape when it is hit on one of its faces.
pub fn region_of_fracture(bounds: &Aabb, axis: Axis, outward: bool, radius: i64) -> (region: Aabb)
    ensures
        region == fracture_region(*bounds, axis, outward, radius),
{
    let low: i64 = negate(radius);
    let mut mins = Vector { x: low, y: low, z: low };
    let mut maxs = Vector { x: radius, y: radius, z: radius };
    if outward {
        let face: i64 = bounds.maxs.get(axis);
        mins.set(axis, sub_saturating(face, radius));
        maxs.set(axis, face);
    } else {
        let face: i64 = bounds.mins.get(axis);
        mins.set(axis, face);
        maxs.set(axis, add_saturating(face, radius));
    }
    Aabb { mins, maxs }
}

impl VoxelFractureHooks {
    /// Hooks that break voxels of the given material.
    pub fn new(default_material: VoxelFractureMaterial) -> (hooks: VoxelFractureHooks)
        ensures
            hooks.default_material == default_material,
    {
        VoxelFractureHooks { default_material }
    }

    /// Looks at the contacts that the last solve left and tells which
    /// regions of which voxel colliders break off.
    pub fn post_solve(
        &self,
        narrow_phase: &NarrowPhase,
        colliders: &ColliderSet,
        integration_parameters: &IntegrationParameters,
    ) -> (found: Vec<FractureRequest>)
        ensures
            found@ == requests(self.default_material, narrow_phase.pairs@, *colliders, integration_parameters.dt),
    {
        let mut found: Vec<FractureRequest> = Vec::new();
        let n: usize = narrow_phase.pairs.len();
        let mut i: usize = 0;
        assert(narrow_phase.pairs@.take(0) =~= Seq::<ContactPair>::empty());
        while i < n
            invariant
                i <= n,
                n == narrow_phase.pairs@.len(),
                found@ == requests(
                    self.default_material,
                    narrow_phase.pairs@.take(i as int),
                    *colliders,
                    integration_parameters.dt,
                ),
            decreases n - i,
        {
            proof {
                lemma_take_step(narrow_phase.pairs@, i as int);
            }
            let ghost before = found@;
            let active_pair = narrow_phase.pairs[i];
            match active_pair.manifold {
                Some(manifold) => {
                    // Compute the fracture pattern at this contact.
                    match radius_of_fracture(
                        &self.default_material,
                        manifold.impulse,
                        integration_parameters.dt,
                    ) {
                        Some(fracture_radius) => {
                            // Fracture the voxel model.
                            match colliders.get(active_pair.pair.collider1) {
                                Some(collider) => {
                                    if collider.shape.is_voxels() {
                                        found.push(
                                            FractureRequest {
                                                collider: active_pair.pair.collider1,
                                                region: region_of_fracture(
                                                    &collider.shape.local_aabb(),
                                                    manifold.axis,
                                                    manifold.positive,
                                                    fracture_radius,
                                                ),
                                            },
                                        );
                                    }
                                },
                                None => {},
                            }
                            let ghost middle = found@;
                            assert(middle =~= before + first_request(active_pair, *colliders, fracture_radius));
                            match colliders.get(active_pair.pair.collider2) {
                                Some(collider) => {
                                    if collider.shape.is_voxels() {
                                        found.push(
                                            FractureRequest {
                                                collider: active_pair.pair.collider2,
                                                region: region_of_fracture(
                                                    &collider.shape.local_aabb(),
                                                    manifold.axis,
                                                    !manifold.positive,
                                                    fracture_radius,
                                                ),
                                            },
                                        );
                                    }
                                },
                                None => {},
                            }
                            assert(found@ =~= before + (first_request(active_pair, *colliders, fracture_radius)
                                + second_request(active_pair, *colliders, fracture_radius)));
                        },
                        None => {
                            assert(found@ =~= before + Seq::<FractureRequest>::empty());
                        },
                    }
                },
                None => {
                    assert(found@ =~= before + Seq::<FractureRequest>::empty());
                },
            }
            i = i + 1;
        }
        proof {
            lemma_take_all(narrow_phase.pairs@);
        }
        found
    }
}

/// A block of voxels of the given half-extents.
pub open spec fn voxel_block(half_extents: (i64, i64, i64)) -> Shape {
    Shape::Voxels { half_extents: Vector { x: half_extents.0, y: half_extents.1, z: half_extents.2 } }
}

/// The body that a piece becomes when it breaks off at `place`: a dynamic
/// body at rest there, unturned, that knows how thick the piece is.
pub open spec fn fragment_body(place: Vector, piece: (i64, i64, i64)) -> RigidBody {
    RigidBody {
        position: Isometry { rotation: Vector { x: 0, y: 0, z: 0 }, translation: place },
        next_position: Isometry { rotation: Vector { x: 0, y: 0, z: 0 }, translation: place },
        ccd_thickness: voxel_block(piece).thickness(),
        ..RigidBodyBuilder::initial(BodyStatus::Dynamic)
    }
}

/// The collider of a piece that its body, in slot `parent` at `place`, carries.
pub open spec fn fragment_collider(place: Vector, piece: (i64, i64, i64), parent: usize) -> Collider {
    Collider {
        shape: voxel_block(piece),
        parent: RigidBodyHandle(parent),
        delta: Vector { x: 0, y: 0, z: 0 },
        position: place.sum(Vector { x: 0, y: 0, z: 0 }),
        sensor: false,
    }
}

/// Takes a piece off a voxel collider, once the voxels have been split. The
/// collider that broke keeps the block of half-extents `rest`; the piece, a
/// block of half-extents `piece`, becomes the collider of a new dynamic body
/// at the place of the collider that broke. Nothing happens if that
/// collider does not exist.
pub fn detach_fragment(
    request: &FractureRequest,
    piece: (i64, i64, i64),
    rest: (i64, i64, i64),
    bodies: &mut RigidBodySet,
    colliders: &mut ColliderSet,
) -> (fragment: Option<Fragment>)
    ensures
        final(bodies).same_sets(*old(bodies)),
        !old(colliders).contains(request.collider) ==> {
            &&& fragment is None
            &&& final(bodies).slots@ == old(bodies).slots@
            &&& final(colliders).slots@ == old(colliders).slots@
            &&& final(colliders).modified_colliders@ == old(colliders).modified_colliders@
        },
        old(colliders).contains(request.collider) ==> {
            &&& fragment == Some(
                Fragment {
                    fractured_collider: request.collider,
                    fragment: ColliderHandle(old(colliders).slots@.len() as usize),
                },
            )
            &&& final(bodies).slots@ == old(bodies).slots@.push(
                Some(fragment_body(old(colliders).collider(request.collider).position, piece)),
            )
            &&& final(colliders).slots@ == old(colliders).slots@.update(
                request.collider.0 as int,
                Some(Collider { shape: voxel_block(rest), ..old(colliders).collider(request.collider) }),
            ).push(
                Some(
                    fragment_collider(
                        old(colliders).collider(request.collider).position,
                        piece,
                        old(bodies).slots@.len() as usize,
                    ),
                ),
            )
            &&& final(colliders).modified_colliders@ == old(colliders).modified_colliders@.push(
                ColliderHandle(old(colliders).slots@.len() as usize),
            )
        },
{
    match colliders.get(request.collider) {
        Some(collider) => {
            colliders.set_shape(
                request.collider,
                Shape::Voxels { half_extents: Vector { x: rest.0, y: rest.1, z: rest.2 } },
            );
            // Create a new, dynamic body with the detached part.
            let place = collider.position;
            let body = RigidBodyBuilder::new_dynamic().translation(place.x, place.y, place.z).build();
            let body_handle = bodies.insert(body);
            let fragment_handle = colliders.insert(
                ColliderBuilder::voxels(piece.0, piece.1, piece.2).build(),
                body_handle,
                bodies,
            );
            proof {
                assert(bodies.slots@ =~= old(bodies).slots@.push(Some(fragment_body(place, piece))));
            }
            Some(Fragment { fractured_collider: request.collider, fragment: fragment_handle })
        },
        None => None,
    }
}

/// For each collider that broke, by its slot, the slots of its pieces. The
/// table is parry's hash map.
#[verifier::external_body]
pub struct FragmentTable {
    table: parry3d::utils::hashmap::HashMap<usize, Vec<usize>>,
}

/// What a table holds: for each collider that broke, its pieces, in the order
/// in which they were recorded.
pub uninterp spec fn fragments_held(table: FragmentTable) -> Map<usize, Seq<usize>>;

/// What an empty table holds.
pub open spec fn no_fragments() -> Map<usize, Seq<usize>> {
    Map::empty()
}

/// The pieces recorded for `key`, none if the table has none.
pub open spec fn pieces_of(held: Map<usize, Seq<usize>>, key: usize) -> Seq<usize> {
    if held.dom().contains(key) {
        held[key]
    } else {
        Seq::empty()
    }
}

/// Whether `out` lists what `held` holds: each collider that broke once, with
/// its pieces, in whatever order.
pub open spec fn lists_table(held: Map<usize, Seq<usize>>, out: Seq<(usize, Vec<usize>)>) -> bool {
    &&& forall|i: int|
        0 <= i < out.len() ==> held.dom().contains((#[trigger] out[i]).0) && out[i].1@ == held[out[i].0]
    &&& forall|i: int, j: int| 0 <= i < j < out.len() ==> out[i].0 != out[j].0
    &&& forall|key: usize| #[trigger]
        held.dom().contains(key) ==> exists|i: int| 0 <= i < out.len() && (#[trigger] out[i]).0 == key
}

/// An empty table: `Default::default` of parry's hash map.
#[verifier::external_body]
fn table_new() -> (table: FragmentTable)
    ensures
        fragments_held(table) == no_fragments(),
{
    FragmentTable { table: Default::default() }
}

/// Records a piece of a collider: `entry(..).or_default()` of the hash map,
/// which finds the list of the collider or inserts an empty one, then `push`
/// on that list.
#[verifier::external_body]
fn table_record(table: &mut FragmentTable, fractured: usize, fragment: usize)
    ensures
        fragments_held(*final(table)) == fragments_held(*old(table)).insert(
            fractured,
            pieces_of(fragments_held(*old(table)), fractured).push(fragment),
        ),
{
    table.table.entry(fractured).or_default().push(fragment);
}

/// Takes everything out of the table: `drain` of the hash map, which hands
/// out every entry once, in an order that is not specified, and leaves the
/// map empty.
#[verifier::external_body]
fn table_drain(table: &mut FragmentTable) -> (out: Vec<(usize, Vec<usize>)>)
    ensures
        fragments_held(*final(table)) == no_fragments(),
        lists_table(fragments_held(*old(table)), out@),
{
    table.table.drain().collect()
}

/// The pieces grouped by the collider that they were broken off, each group
/// in the order of the pieces.
pub open spec fn grouped(pieces: Seq<Fragment>) -> Map<usize, Seq<usize>>
    decreases pieces.len(),
{
    if pieces.len() == 0 {
        Map::empty()
    } else {
        grouped(pieces.drop_last()).insert(
            pieces.last().fractured_collider.0,
            pieces_of(grouped(pieces.drop_last()), pieces.last().fractured_collider.0).push(
                pieces.last().fragment.0,
            ),
        )
    }
}

/// The slots of the colliders that `handles` names.
pub open spec fn slots_of(handles: Seq<ColliderHandle>) -> Seq<usize> {
    Seq::new(handles.len(), |k: int| handles[k].0)
}

/// Whether `event` reports that the collider in slot `key` broke into the
/// pieces `pieces`.
pub open spec fn reports_fracture(event: PhysicsEvent, key: usize, pieces: Seq<usize>) -> bool {
    match event {
        PhysicsEvent::Fracture(fracture) => fracture.fractured_collider.0 == key && slots_of(
            fracture.fragments@,
        ) == pieces,
        _ => false,
    }
}

/// The collider that a fracture event is about; none for another event.
pub open spec fn fractured_by(event: PhysicsEvent) -> Option<usize> {
    match event {
        PhysicsEvent::Fracture(fracture) => Some(fracture.fractured_collider.0),
        _ => None,
    }
}

/// Whether `news` reports the fractures of `held`: one event for each
/// collider that broke, with its pieces in the order in which they were
/// broken off. The order of the events is not specified.
pub open spec fn reports_table(held: Map<usize, Seq<usize>>, news: Seq<PhysicsEvent>) -> bool {
    &&& forall|i: int|
        0 <= i < news.len() ==> fractured_by(#[trigger] news[i]) is Some && held.dom().contains(
            fractured_by(news[i])->Some_0,
        ) && reports_fracture(news[i], fractured_by(news[i])->Some_0, held[fractured_by(news[i])->Some_0])
    &&& forall|i: int, j: int| 0 <= i < j < news.len() ==> fractured_by(news[i]) != fractured_by(news[j])
    &&& forall|key: usize| #[trigger]
        held.dom().contains(key) ==> exists|i: int|
            0 <= i < news.len() && fractured_by(#[trigger] news[i]) == Some(key)
}

/// The handles of the colliders in the given slots.
pub fn handles_of(slots: &Vec<usize>) -> (handles: Vec<ColliderHandle>)
    ensures
        slots_of(handles@) == slots@,
{
    let mut handles: Vec<ColliderHandle> = Vec::new();
    let mut i: usize = 0;
    while i < slots.len()
        invariant
            i <= slots@.len(),
            handles@.len() == i,
            forall|k: int| 0 <= k < i ==> handles@[k].0 == slots@[k],
        decreases slots@.len() - i,
    {
        handles.push(ColliderHandle(slots[i]));
        i = i + 1;
    }
    assert(slots_of(handles@) =~= slots@);
    handles
}

/// Reports the pieces that were broken off: one fracture event for each
/// collider that broke, with its pieces in the order in which they were
/// broken off. The events are appended to `events` in no particular order.
pub fn report_fractures(pieces: &Vec<Fragment>, events: &mut Vec<PhysicsEvent>)
    ensures
        final(events)@.len() >= old(events)@.len(),
        final(events)@.subrange(0, old(events)@.len() as int) == old(events)@,
        reports_table(
            grouped(pieces@),
            final(events)@.subrange(old(events)@.len() as int, final(events)@.len() as int),
        ),
{
    let mut fragments = table_new();
    let n: usize = pieces.len();
    let mut i: usize = 0;
    assert(pieces@.take(0) =~= Seq::<Fragment>::empty());
    while i < n
        invariant
            i <= n,
            n == pieces@.len(),
            fragments_held(fragments) == grouped(pieces@.take(i as int)),
        decreases n - i,
    {
        proof {
            lemma_take_step(pieces@, i as int);
        }
        table_record(&mut fragments, pieces[i].fractured_collider.0, pieces[i].fragment.0);
        i = i + 1;
    }
    proof {
        lemma_take_all(pieces@);
    }
    let ghost held = grouped(pieces@);
    let drained = table_drain(&mut fragments);
    let start: usize = events.len();
    let m: usize = drained.len();
    let mut j: usize = 0;
    while j < m
        invariant
            j <= m,
            m == drained@.len(),
            start == old(events)@.len(),
            lists_table(held, drained@),
            events@.len() == start + j,
            events@.subrange(0, start as int) == old(events)@,
            forall|k: int|
                0 <= k < j ==> reports_fracture(#[trigger] events@[start + k], drained@[k].0, drained@[k].1@),
        decreases m - j,
    {
        let ghost before = events@;
        let fragments = handles_of(&drained[j].1);
        let event = FractureEvent { fractured_collider: ColliderHandle(drained[j].0), fragments };
        events.push(PhysicsEvent::Fracture(event));
        proof {
            assert(events@.subrange(0, start as int) =~= before.subrange(0, start as int));
            assert forall|k: int| 0 <= k < j implies reports_fracture(
                #[trigger] events@[start + k],
                drained@[k].0,
                drained@[k].1@,
            ) by {
                assert(events@[start + k] == before[start + k]);
            }
        }
        j = j + 1;
    }
    proof {
        let news = events@.subrange(start as int, events@.len() as int);
        assert forall|k: int| 0 <= k < news.len() implies fractured_by(#[trigger] news[k]) == Some(
            drained@[k].0,
        ) && reports_fracture(news[k], drained@[k].0, held[drained@[k].0]) by {
            assert(news[k] == events@[start + k]);
            assert(reports_fracture(events@[start + k], drained@[k].0, drained@[k].1@));
        }
        assert forall|key: usize| #[trigger] held.dom().contains(key) implies exists|i: int|
            0 <= i < news.len() && fractured_by(#[trigger] news[i]) == Some(key) by {
            let i = choose|i: int| 0 <= i < drained@.len() && (#[trigger] drained@[i]).0 == key;
            assert(fractured_by(news[i]) == Some(key));
        }
    }
}

} // verus!
