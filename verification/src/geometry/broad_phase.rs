//! The broad phase: which pairs of colliders are close enough to be looked at.

use crate::geometry::collider::{ColliderHandle, ColliderSet};
use vstd::prelude::*;

verus! {

/// Two colliders, the one with the smaller handle first.
#[derive(Copy, Clone, Debug, PartialEq, Eq, Structural)]
pub struct ColliderPair {
    pub collider1: ColliderHandle,
    pub collider2: ColliderHandle,
}

/// What changed between two updates of the broad phase.
#[derive(Copy, Clone, Debug, PartialEq, Eq, Structural)]
pub enum BroadPhasePairEvent {
    /// The two colliders have come close.
    AddPair(ColliderPair),
    /// The two colliders are close no longer.
    DeletePair(ColliderPair),
}

impl ColliderPair {
    /// Whether the pair comes before the pair `(a, b)` in dictionary order.
    pub open spec fn precedes(self, a: int, b: int) -> bool {
        self.collider1.0 < a || (self.collider1.0 == a && self.collider2.0 < b)
    }

    /// Whether the pair comes before `other` in dictionary order.
    pub open spec fn before(self, other: ColliderPair) -> bool {
        self.precedes(other.collider1.0 as int, other.collider2.0 as int)
    }

    /// Whether the pair names two slots of a set of `n` slots, the smaller first.
    pub open spec fn in_range(self, n: int) -> bool {
        self.collider1.0 < self.collider2.0 < n
    }
}

impl BroadPhasePairEvent {
    /// The pair that the event is about.
    pub open spec fn pair(self) -> ColliderPair {
        match self {
            BroadPhasePairEvent::AddPair(p) => p,
            BroadPhasePairEvent::DeletePair(p) => p,
        }
    }
}

/// Whether the colliders in slots `a` and `b` both exist, belong to different
/// bodies, and have bounds no farther apart than `margin`.
pub open spec fn near(colliders: ColliderSet, margin: u64, a: int, b: int) -> bool {
    &&& 0 <= a < b < colliders.slots@.len()
    &&& colliders.slots@[a] is Some
    &&& colliders.slots@[b] is Some
    &&& colliders.slots@[a]->Some_0.parent != colliders.slots@[b]->Some_0.parent
    &&& colliders.slots@[a]->Some_0.aabb().within(colliders.slots@[b]->Some_0.aabb(), margin)
}

/// Whether the two colliders of `pair` are near each other.
pub open spec fn pair_near(colliders: ColliderSet, margin: u64, pair: ColliderPair) -> bool {
    near(colliders, margin, pair.collider1.0 as int, pair.collider2.0 as int)
}

/// Whether the pairs stand in dictionary order, none of them twice.
pub open spec fn ascending(pairs: Seq<ColliderPair>) -> bool {
    forall|i: int, j: int| 0 <= i < j < pairs.len() ==> pairs[i].before(pairs[j])
}

/// Whether the events stand in the dictionary order of their pairs.
pub open spec fn events_ascending(events: Seq<BroadPhasePairEvent>) -> bool {
    forall|i: int, j: int| 0 <= i < j < events.len() ==> events[i].pair().before(events[j].pair())
}

/// Whether `event` is owed when the broad phase knew `known` before the
/// update: an added pair is near now and was not known, a deleted pair was
/// known and is near no longer.
pub open spec fn event_due(
    known: Seq<ColliderPair>,
    colliders: ColliderSet,
    margin: u64,
    event: BroadPhasePairEvent,
) -> bool {
    match event {
        BroadPhasePairEvent::AddPair(p) => pair_near(colliders, margin, p) && !known.contains(p),
        BroadPhasePairEvent::DeletePair(p) => p.in_range(colliders.slots@.len() as int)
            && !pair_near(colliders, margin, p) && known.contains(p),
    }
}

/// Whether `pairs` are exactly the pairs of colliders that are near each
/// other, in dictionary order.
pub open spec fn lists_near_pairs(pairs: Seq<ColliderPair>, colliders: ColliderSet, margin: u64) -> bool {
    &&& ascending(pairs)
    &&& forall|p: ColliderPair| #[trigger] pairs.contains(p) <==> pair_near(colliders, margin, p)
}

/// Whether `events` are exactly the events owed, in the dictionary order of
/// their pairs.
pub open spec fn reports_changes(
    events: Seq<BroadPhasePairEvent>,
    known: Seq<ColliderPair>,
    colliders: ColliderSet,
    margin: u64,
) -> bool {
    &&& events_ascending(events)
    &&& forall|e: BroadPhasePairEvent| #[trigger]
        events.contains(e) <==> event_due(known, colliders, margin, e)
}

/// Whether `pair` is one of `pairs`.
pub fn pair_listed(pairs: &Vec<ColliderPair>, pair: ColliderPair) -> (listed: bool)
    ensures
        listed == pairs@.contains(pair),
{
    let mut i: usize = 0;
    while i < pairs.len()
        invariant
            i <= pairs@.len(),
            forall|k: int| 0 <= k < i ==> pairs@[k] != pair,
        decreases pairs@.len() - i,
    {
        if pairs[i].collider1.0 == pair.collider1.0 && pairs[i].collider2.0 == pair.collider2.0 {
            return true;
        }
        i = i + 1;
    }
    false
}

/// Whether the colliders in slots `a` and `b` are near each other.
pub fn are_near(colliders: &ColliderSet, margin: u64, a: usize, b: usize) -> (r: bool)
    ensures
        r == near(*colliders, margin, a as int, b as int),
{
    if a < b && b < colliders.slots.len() {
        match (colliders.slots[a], colliders.slots[b]) {
            (Some(first), Some(second)) => {
                first.parent.0 != second.parent.0 && first.compute_aabb().is_within(
                    &second.compute_aabb(),
                    margin,
                )
            },
            _ => false,
        }
    } else {
        false
    }
}

/// The broad phase. It remembers which pairs were near each other when it
/// was last updated.
pub struct BroadPhase {
    pub pairs: Vec<ColliderPair>,
}

impl BroadPhase {
    /// A broad phase that knows of no pair.
    pub fn new() -> (broad_phase: BroadPhase)
        ensures
            broad_phase.pairs@.len() == 0,
    {
        BroadPhase { pairs: Vec::new() }
    }

    /// Finds the pairs of colliders whose bounds are no farther apart than
    /// `prediction_distance`, and appends to `events` what changed since the
    /// last update.
    pub fn update(&mut self, prediction_distance: u64, colliders: &ColliderSet, events: &mut Vec<BroadPhasePairEvent>)
        ensures
            lists_near_pairs(final(self).pairs@, *colliders, prediction_distance),
            final(events)@.len() >= old(events)@.len(),
            final(events)@.subrange(0, old(events)@.len() as int) == old(events)@,
            reports_changes(
                final(events)@.subrange(old(events)@.len() as int, final(events)@.len() as int),
                old(self).pairs@,
                *colliders,
                prediction_distance,
            ),
    {
        let n: usize = colliders.slots.len();
        let start: usize = events.len();
        let mut fresh: Vec<ColliderPair> = Vec::new();
        let mut a: usize = 0;
        while a < n
            invariant
                a <= n,
                n == colliders.slots@.len(),
                start == old(events)@.len(),
                start <= events@.len(),
                self.pairs@ == old(self).pairs@,
                events@.subrange(0, start as int) == old(events)@,
                scanned(
                    fresh@,
                    events@.subrange(start as int, events@.len() as int),
                    old(self).pairs@,
                    *colliders,
                    prediction_distance,
                    a as int,
                    a + 1,
                ),
            decreases n - a,
        {
            let mut b: usize = a + 1;
            while b < n
                invariant
                    a < n,
                    a < b <= n,
                    n == colliders.slots@.len(),
                    start == old(events)@.len(),
                    start <= events@.len(),
                    self.pairs@ == old(self).pairs@,
                    events@.subrange(0, start as int) == old(events)@,
                    scanned(
                        fresh@,
                        events@.subrange(start as int, events@.len() as int),
                        old(self).pairs@,
                        *colliders,
                        prediction_distance,
                        a as int,
                        b as int,
                    ),
                decreases n - b,
            {
                let pair = ColliderPair { collider1: ColliderHandle(a), collider2: ColliderHandle(b) };
                let was: bool = pair_listed(&self.pairs, pair);
                let close: bool = are_near(colliders, prediction_distance, a, b);
                let ghost fresh_before = fresh@;
                let ghost added_before = events@.subrange(start as int, events@.len() as int);
                if close {
                    fresh.push(pair);
                }
                if close && !was {
                    events.push(BroadPhasePairEvent::AddPair(pair));
                } else if !close && was {
                    events.push(BroadPhasePairEvent::DeletePair(pair));
                }
                proof {
                    let added = events@.subrange(start as int, events@.len() as int);
                    if close != was {
                        assert(added =~= added_before.push(events@.last()));
                    } else {
                        assert(added =~= added_before);
                    }
                    assert(events@.subrange(0, start as int) =~= old(events)@);
                    lemma_scan_step(
                        fresh_before,
                        added_before,
                        old(self).pairs@,
                        *colliders,
                        prediction_distance,
                        a as int,
                        b as int,
                    );
                }
                b = b + 1;
            }
            proof {
                lemma_scan_next_row(
                    fresh@,
                    events@.subrange(start as int, events@.len() as int),
                    old(self).pairs@,
                    *colliders,
                    prediction_distance,
                    a as int,
                );
            }
            a = a + 1;
        }
        proof {
            lemma_scan_done(
                fresh@,
                events@.subrange(start as int, events@.len() as int),
                old(self).pairs@,
                *colliders,
                prediction_distance,
            );
        }
        self.pairs = fresh;
    }
}

/// Whether the scan of the pairs that precede `(a, b)` has listed in `fresh`
/// those that are near, and in `added` the events owed for them.
pub open spec fn scanned(
    fresh: Seq<ColliderPair>,
    added: Seq<BroadPhasePairEvent>,
    known: Seq<ColliderPair>,
    colliders: ColliderSet,
    margin: u64,
    a: int,
    b: int,
) -> bool {
    &&& ascending(fresh)
    &&& events_ascending(added)
    &&& forall|p: ColliderPair| #[trigger]
        fresh.contains(p) <==> (pair_near(colliders, margin, p) && p.precedes(a, b))
    &&& forall|e: BroadPhasePairEvent| #[trigger]
        added.contains(e) <==> (event_due(known, colliders, margin, e) && e.pair().precedes(a, b))
}

/// Looking at the pair `(a, b)` carries the scan one pair further.
pub proof fn lemma_scan_step(
    fresh: Seq<ColliderPair>,
    added: Seq<BroadPhasePairEvent>,
    known: Seq<ColliderPair>,
    colliders: ColliderSet,
    margin: u64,
    a: int,
    b: int,
)
    requires
        0 <= a < b < colliders.slots@.len(),
        a <= usize::MAX,
        b <= usize::MAX,
        scanned(fresh, added, known, colliders, margin, a, b),
    ensures
        ({
            let pair = ColliderPair {
                collider1: ColliderHandle(a as usize),
                collider2: ColliderHandle(b as usize),
            };
            let close = near(colliders, margin, a, b);
            let was = known.contains(pair);
            let fresh2 = if close {
                fresh.push(pair)
            } else {
                fresh
            };
            let added2 = if close && !was {
                added.push(BroadPhasePairEvent::AddPair(pair))
            } else if !close && was {
                added.push(BroadPhasePairEvent::DeletePair(pair))
            } else {
                added
            };
            scanned(fresh2, added2, known, colliders, margin, a, b + 1)
        }),
{
    let pair = ColliderPair { collider1: ColliderHandle(a as usize), collider2: ColliderHandle(b as usize) };
    let close = near(colliders, margin, a, b);
    let was = known.contains(pair);
    let fresh2 = if close {
        fresh.push(pair)
    } else {
        fresh
    };
    let added2 = if close && !was {
        added.push(BroadPhasePairEvent::AddPair(pair))
    } else if !close && was {
        added.push(BroadPhasePairEvent::DeletePair(pair))
    } else {
        added
    };
    assert forall|i: int, j: int| 0 <= i < j < fresh2.len() implies fresh2[i].before(fresh2[j]) by {
        if j == fresh.len() {
            assert(fresh.contains(fresh[i]));
        }
    }
    assert forall|i: int, j: int| 0 <= i < j < added2.len() implies added2[i].pair().before(
        added2[j].pair(),
    ) by {
        if j == added.len() {
            assert(added.contains(added[i]));
        }
    }
    assert forall|p: ColliderPair| #[trigger]
        fresh2.contains(p) <==> (pair_near(colliders, margin, p) && p.precedes(a, b + 1)) by {
        if fresh2.contains(p) {
            let k = choose|k: int| 0 <= k < fresh2.len() && fresh2[k] == p;
            if k < fresh.len() {
                assert(fresh.contains(fresh[k]));
            }
        }
        if pair_near(colliders, margin, p) && p.precedes(a, b + 1) {
            if p.precedes(a, b) {
                assert(fresh.contains(p));
                let k = choose|k: int| 0 <= k < fresh.len() && fresh[k] == p;
                assert(fresh2[k] == p);
            } else {
                assert(p == pair);
                assert(fresh2[fresh.len() as int] == p);
            }
        }
    }
    assert forall|e: BroadPhasePairEvent| #[trigger]
        added2.contains(e) <==> (event_due(known, colliders, margin, e) && e.pair().precedes(
            a,
            b + 1,
        )) by {
        if added2.contains(e) {
            let k = choose|k: int| 0 <= k < added2.len() && added2[k] == e;
            if k < added.len() {
                assert(added.contains(added[k]));
            }
        }
        if event_due(known, colliders, margin, e) && e.pair().precedes(a, b + 1) {
            if e.pair().precedes(a, b) {
                assert(added.contains(e));
                let k = choose|k: int| 0 <= k < added.len() && added[k] == e;
                assert(added2[k] == e);
            } else {
                assert(e.pair() == pair);
                assert(added2[added.len() as int] == e);
            }
        }
    }
}

/// Once a row of pairs is done, the scan stands at the start of the next row.
pub proof fn lemma_scan_next_row(
    fresh: Seq<ColliderPair>,
    added: Seq<BroadPhasePairEvent>,
    known: Seq<ColliderPair>,
    colliders: ColliderSet,
    margin: u64,
    a: int,
)
    requires
        0 <= a < colliders.slots@.len(),
        scanned(fresh, added, known, colliders, margin, a, colliders.slots@.len() as int),
    ensures
        scanned(fresh, added, known, colliders, margin, a + 1, a + 2),
{
    let n = colliders.slots@.len() as int;
    assert forall|p: ColliderPair| #[trigger]
        fresh.contains(p) <==> (pair_near(colliders, margin, p) && p.precedes(a + 1, a + 2)) by {}
    assert forall|e: BroadPhasePairEvent| #[trigger]
        added.contains(e) <==> (event_due(known, colliders, margin, e) && e.pair().precedes(
            a + 1,
            a + 2,
        )) by {}
}

/// Once every row is done, the scan has listed every near pair and every
/// event owed.
pub proof fn lemma_scan_done(
    fresh: Seq<ColliderPair>,
    added: Seq<BroadPhasePairEvent>,
    known: Seq<ColliderPair>,
    colliders: ColliderSet,
    margin: u64,
)
    requires
        exists|a: int|
            a >= colliders.slots@.len() && #[trigger] scanned(
                fresh,
                added,
                known,
                colliders,
                margin,
                a,
                a + 1,
            ),
    ensures
        lists_near_pairs(fresh, colliders, margin),
        reports_changes(added, known, colliders, margin),
{
    let a = choose|a: int|
        a >= colliders.slots@.len() && #[trigger] scanned(
            fresh,
            added,
            known,
            colliders,
            margin,
            a,
            a + 1,
        );
    assert forall|p: ColliderPair| #[trigger]
        fresh.contains(p) <==> pair_near(colliders, margin, p) by {}
    assert forall|e: BroadPhasePairEvent| #[trigger]
        added.contains(e) <==> event_due(known, colliders, margin, e) by {}
}

} // verus!
