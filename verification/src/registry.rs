//! The ripple registry: the set of ripples that are alive, from the frame
//! after their spawn to the frame on which their age reaches the lifetime.
//!
//! Time is counted in whole nanoseconds. The registry is generic in the
//! position type `P`: it stores and hands back origins but never computes
//! with them, so the caller chooses the number type of the plane.

use crate::timer::tick_one_shot;
use vstd::prelude::*;

verus! {

/// How long a ripple lives: fifteen seconds, in nanoseconds.
pub const RIPPLE_LIFETIME_NANOS: u64 = 15_000_000_000;

/// Names one ripple for as long as the registry exists. Handles are given
/// out in spawn order and never reused.
#[derive(Clone, Copy, Debug, PartialEq, Eq, Structural)]
pub struct RippleHandle {
    pub id: u64,
}

/// One active wave source.
#[derive(Debug)]
pub struct Ripple<P> {
    pub handle: RippleHandle,
    /// Where the ripple started, in plane coordinates.
    pub origin: P,
    /// Time since the spawn, in nanoseconds.
    pub age_nanos: u64,
}

/// One frame in the life of a ripple: after `delta` more nanoseconds it is
/// either still active, `delta` older, or expired.
pub open spec fn step<P>(ripple: Ripple<P>, delta: nat) -> Option<Ripple<P>> {
    if ripple.age_nanos + delta < RIPPLE_LIFETIME_NANOS {
        Some(
            Ripple {
                handle: ripple.handle,
                origin: ripple.origin,
                age_nanos: (ripple.age_nanos + delta) as u64,
            },
        )
    } else {
        None
    }
}

/// The ripples that are left of `ripples` after a frame of `delta`
/// nanoseconds, each `delta` older, in their old order.
pub open spec fn advanced<P>(ripples: Seq<Ripple<P>>, delta: nat) -> Seq<Ripple<P>> {
    ripples.filter_map(|ripple: Ripple<P>| step(ripple, delta))
}

/// Origin and age of each ripple, in order.
pub open spec fn snapshot<P>(ripples: Seq<Ripple<P>>) -> Seq<(P, u64)> {
    ripples.map_values(|ripple: Ripple<P>| (ripple.origin, ripple.age_nanos))
}

/// What holds of the ripples of a registry that has given out `spawned`
/// handles: each is younger than the lifetime, and they stand in spawn order,
/// so no two share a handle.
pub open spec fn well_formed<P>(ripples: Seq<Ripple<P>>, spawned: nat) -> bool {
    &&& forall|i: int|
        0 <= i < ripples.len() ==> {
            &&& (#[trigger] ripples[i]).age_nanos < RIPPLE_LIFETIME_NANOS
            &&& ripples[i].handle.id < spawned
        }
    &&& forall|i: int, j: int|
        0 <= i < j < ripples.len() ==> (#[trigger] ripples[i]).handle.id < (
        #[trigger] ripples[j]).handle.id
}

/// `handle` names one of `ripples`.
pub open spec fn is_live<P>(ripples: Seq<Ripple<P>>, handle: RippleHandle) -> bool {
    exists|i: int| 0 <= i < ripples.len() && (#[trigger] ripples[i]).handle == handle
}

/// The ripple that a spawn at `position` starts in a registry that has given
/// out `spawned` handles: of age zero, under the next handle.
pub open spec fn fresh<P>(spawned: nat, position: P) -> Ripple<P> {
    Ripple { handle: RippleHandle { id: spawned as u64 }, origin: position, age_nanos: 0 }
}

/// What can happen to a registry: a ripple is spawned at a position
/// (`Registry::spawn`), or a frame of so many nanoseconds passes
/// (`Registry::advance_all`). Used to speak of all futures of a registry.
pub enum Event<P> {
    Spawn(P),
    Frame(u64),
}

/// The ripples and the count of handles given out after `event`.
pub open spec fn after_event<P>(ripples: Seq<Ripple<P>>, spawned: nat, event: Event<P>) -> (
    Seq<Ripple<P>>,
    nat,
) {
    match event {
        Event::Spawn(position) => (ripples.push(fresh(spawned, position)), spawned + 1),
        Event::Frame(delta) => (advanced(ripples, delta as nat), spawned),
    }
}

/// The ripples and the count of handles given out after `events`, taken in
/// order.
pub open spec fn after_events<P>(
    ripples: Seq<Ripple<P>>,
    spawned: nat,
    events: Seq<Event<P>>,
) -> (Seq<Ripple<P>>, nat)
    decreases events.len(),
{
    if events.len() == 0 {
        (ripples, spawned)
    } else {
        let earlier = after_events(ripples, spawned, events.drop_last());
        after_event(earlier.0, earlier.1, events.last())
    }
}

/// The active ripples, oldest spawn first.
pub struct Registry<P> {
    ripples: Vec<Ripple<P>>,
    spawned: u64,
}

impl<P> View for Registry<P> {
    type V = Seq<Ripple<P>>;

    closed spec fn view(&self) -> Seq<Ripple<P>> {
        self.ripples@
    }
}

impl<P: Copy> Registry<P> {
    /// How many ripples were ever spawned; the next handle.
    pub closed spec fn spawned(&self) -> nat {
        self.spawned as nat
    }

    /// The invariant of the registry.
    pub open spec fn wf(&self) -> bool {
        well_formed(self@, self.spawned())
    }

    /// A registry without ripples.
    pub fn new() -> (registry: Self)
        ensures
            registry.wf(),
            registry@ == Seq::<Ripple<P>>::empty(),
            registry.spawned() == 0,
    {
        Registry { ripples: Vec::new(), spawned: 0 }
    }

    /// Number of active ripples.
    pub fn len(&self) -> (n: usize)
        ensures
            n == self@.len(),
    {
        self.ripples.len()
    }

    /// Whether no ripple is active.
    pub fn is_empty(&self) -> (empty: bool)
        ensures
            empty == (self@.len() == 0),
    {
        self.ripples.len() == 0
    }

    /// How many ripples were ever spawned.
    pub fn spawned_count(&self) -> (n: u64)
        ensures
            n == self.spawned(),
    {
        self.spawned
    }

    /// Starts a ripple of age zero at `position` and returns its handle.
    ///
    /// The handle counter is a `u64`: the caller owes that it has not run
    /// out.
    pub fn spawn(&mut self, position: P) -> (handle: RippleHandle)
        requires
            old(self).wf(),
            old(self).spawned() < u64::MAX,
        ensures
            final(self).wf(),
            handle == fresh(old(self).spawned(), position).handle,
            final(self)@ == old(self)@.push(fresh(old(self).spawned(), position)),
            final(self).spawned() == old(self).spawned() + 1,
    {
        let handle = RippleHandle { id: self.spawned };
        self.ripples.push(Ripple { handle, origin: position, age_nanos: 0 });
        self.spawned = self.spawned + 1;
        handle
    }

    /// Handles a click at `position`. `inside_cell` says whether the click
    /// fell inside the rectangle of an interior cell: if so a ripple starts
    /// there, if not the registry stays as it is.
    pub fn spawn_on_click(&mut self, position: P, inside_cell: bool) -> (spawned: Option<
        RippleHandle,
    >)
        requires
            old(self).wf(),
            inside_cell ==> old(self).spawned() < u64::MAX,
        ensures
            final(self).wf(),
            !inside_cell ==> {
                &&& spawned is None
                &&& final(self)@ == old(self)@
                &&& final(self).spawned() == old(self).spawned()
            },
            inside_cell ==> {
                &&& spawned == Some(fresh(old(self).spawned(), position).handle)
                &&& final(self)@ == old(self)@.push(fresh(old(self).spawned(), position))
                &&& final(self).spawned() == old(self).spawned() + 1
            },
    {
        if inside_cell {
            Some(self.spawn(position))
        } else {
            None
        }
    }

    /// Lets `delta_nanos` pass: every ripple grows older by it, and those
    /// whose age reaches the lifetime leave the registry.
    pub fn advance_all(&mut self, delta_nanos: u64)
        requires
            old(self).wf(),
        ensures
            final(self).wf(),
            final(self)@ == advanced(old(self)@, delta_nanos as nat),
            final(self).spawned() == old(self).spawned(),
    {
        let ghost before = self.ripples@;
        let ghost delta = delta_nanos as nat;
        let mut kept: Vec<Ripple<P>> = Vec::new();
        let mut i: usize = 0;
        while i < self.ripples.len()
            invariant
                i <= self.ripples.len(),
                self.ripples@ == before,
                delta == delta_nanos as nat,
                kept@ == advanced(before.take(i as int), delta),
            decreases self.ripples.len() - i,
        {
            let handle = self.ripples[i].handle;
            let origin = self.ripples[i].origin;
            let tick = tick_one_shot(RIPPLE_LIFETIME_NANOS, self.ripples[i].age_nanos, delta_nanos);
            proof {
                lemma_advanced_push(before.take(i as int), before[i as int], delta);
                assert(before.take(i + 1) =~= before.take(i as int).push(before[i as int]));
            }
            if !tick.just_finished {
                kept.push(Ripple { handle, origin, age_nanos: tick.elapsed_nanos });
            }
            i += 1;
        }
        proof {
            assert(before.take(i as int) =~= before);
            lemma_advanced_well_formed(before, self.spawned as nat, delta);
        }
        self.ripples = kept;
    }

    /// One frame of the simulation: lets `delta_nanos` pass, drops the
    /// ripples that expire, and only then lists those to be evaluated. A
    /// ripple that expires on a frame is not listed on it.
    pub fn begin_frame(&mut self, delta_nanos: u64) -> (active: Vec<(P, u64)>)
        requires
            old(self).wf(),
        ensures
            final(self).wf(),
            final(self)@ == advanced(old(self)@, delta_nanos as nat),
            final(self).spawned() == old(self).spawned(),
            active@ == snapshot(final(self)@),
    {
        self.advance_all(delta_nanos);
        self.iterate_active()
    }

    /// Origin and age of every active ripple, oldest spawn first.
    pub fn iterate_active(&self) -> (active: Vec<(P, u64)>)
        ensures
            active@ == snapshot(self@),
    {
        let mut active: Vec<(P, u64)> = Vec::new();
        let mut i: usize = 0;
        while i < self.ripples.len()
            invariant
                i <= self.ripples.len(),
                active@.len() == i,
                forall|j: int|
                    0 <= j < i ==> active@[j] == (
                        self.ripples@[j].origin,
                        self.ripples@[j].age_nanos,
                    ),
            decreases self.ripples.len() - i,
        {
            active.push((self.ripples[i].origin, self.ripples[i].age_nanos));
            i += 1;
        }
        assert(active@ =~= snapshot(self@));
        active
    }
}

/// Advancing a sequence that ends in `last`: the rest is advanced, and
/// `last` follows it if it is still active.
pub proof fn lemma_advanced_push<P>(ripples: Seq<Ripple<P>>, last: Ripple<P>, delta: nat)
    ensures
        advanced(ripples.push(last), delta) == match step(last, delta) {
            Some(older) => advanced(ripples, delta).push(older),
            None => advanced(ripples, delta),
        },
{
    let all = ripples.push(last);
    assert(all.drop_last() =~= ripples);
    assert(all.last() == last);
    match step(last, delta) {
        Some(older) => {
            assert(advanced(ripples, delta) + seq![older] =~= advanced(ripples, delta).push(older));
        },
        None => {},
    }
}

/// Every ripple that is left after a frame was there before it: the `j`-th
/// survivor is the older self of the ripple at the place returned.
pub proof fn lemma_survivor_source<P>(ripples: Seq<Ripple<P>>, delta: nat, j: int) -> (i: int)
    requires
        0 <= j < advanced(ripples, delta).len(),
    ensures
        0 <= i < ripples.len(),
        step(ripples[i], delta) == Some(advanced(ripples, delta)[j]),
    decreases ripples.len(),
{
    let rest = ripples.drop_last();
    let last = ripples.last();
    assert(ripples =~= rest.push(last));
    lemma_advanced_push(rest, last, delta);
    if step(last, delta) is Some && j == advanced(rest, delta).len() {
        ripples.len() - 1
    } else {
        lemma_survivor_source(rest, delta, j)
    }
}

/// Every ripple that is still active after a frame is left in the registry:
/// the older self of the ripple at `i` stands at the place returned.
pub proof fn lemma_active_survives<P>(ripples: Seq<Ripple<P>>, delta: nat, i: int) -> (j: int)
    requires
        0 <= i < ripples.len(),
        step(ripples[i], delta) is Some,
    ensures
        0 <= j < advanced(ripples, delta).len(),
        step(ripples[i], delta) == Some(advanced(ripples, delta)[j]),
    decreases ripples.len(),
{
    let rest = ripples.drop_last();
    let last = ripples.last();
    assert(ripples =~= rest.push(last));
    lemma_advanced_push(rest, last, delta);
    if i == ripples.len() - 1 {
        advanced(rest, delta).len() as int
    } else {
        lemma_active_survives(rest, delta, i)
    }
}

/// A frame keeps the registry's invariant: the survivors are younger than the
/// lifetime and still stand in spawn order.
pub proof fn lemma_advanced_well_formed<P>(ripples: Seq<Ripple<P>>, spawned: nat, delta: nat)
    requires
        well_formed(ripples, spawned),
    ensures
        well_formed(advanced(ripples, delta), spawned),
    decreases ripples.len(),
{
    if ripples.len() > 0 {
        let rest = ripples.drop_last();
        let last = ripples.last();
        assert(ripples =~= rest.push(last));
        lemma_advanced_push(rest, last, delta);
        lemma_advanced_well_formed(rest, spawned, delta);
        if step(last, delta) is Some {
            let after = advanced(rest, delta);
            assert forall|j: int| 0 <= j < after.len() implies (#[trigger] after[j]).handle.id
                < last.handle.id by {
                let i = lemma_survivor_source(rest, delta, j);
                assert(rest[i] == ripples[i]);
            }
        }
    }
}

/// A ripple whose age reaches the lifetime on a frame is gone after it: its
/// handle names none of the ripples that are left.
pub proof fn lemma_expired_absent<P>(ripples: Seq<Ripple<P>>, spawned: nat, delta: nat, i: int)
    requires
        well_formed(ripples, spawned),
        0 <= i < ripples.len(),
        ripples[i].age_nanos + delta >= RIPPLE_LIFETIME_NANOS,
    ensures
        !is_live(advanced(ripples, delta), ripples[i].handle),
{
    let after = advanced(ripples, delta);
    assert forall|j: int| 0 <= j < after.len() implies (#[trigger] after[j]).handle
        != ripples[i].handle by {
        let k = lemma_survivor_source(ripples, delta, j);
        if k < i {
            assert(ripples[k].handle.id < ripples[i].handle.id);
        } else if i < k {
            assert(ripples[i].handle.id < ripples[k].handle.id);
        }
    }
}

/// A frame brings no ripple back: a handle that names a ripple after the
/// frame named one before it.
pub proof fn lemma_live_was_live<P>(ripples: Seq<Ripple<P>>, delta: nat, handle: RippleHandle)
    requires
        is_live(advanced(ripples, delta), handle),
    ensures
        is_live(ripples, handle),
{
    let after = advanced(ripples, delta);
    let j = choose|j: int| 0 <= j < after.len() && (#[trigger] after[j]).handle == handle;
    let i = lemma_survivor_source(ripples, delta, j);
    assert(ripples[i].handle == handle);
}

/// A spawn keeps the registry's invariant, and its handle is new: it named no
/// ripple before, and none that has expired.
pub proof fn lemma_spawn_fresh<P>(ripples: Seq<Ripple<P>>, spawned: nat, position: P)
    requires
        well_formed(ripples, spawned),
        spawned < u64::MAX,
    ensures
        well_formed(ripples.push(fresh(spawned, position)), spawned + 1),
        !is_live(ripples, fresh(spawned, position).handle),
        is_live(ripples.push(fresh(spawned, position)), fresh(spawned, position).handle),
        forall|handle: RippleHandle|
            is_live(ripples, handle) ==> #[trigger] is_live(
                ripples.push(fresh(spawned, position)),
                handle,
            ),
{
    let after = ripples.push(fresh(spawned, position));
    assert(after[ripples.len() as int].handle == fresh(spawned, position).handle);
    assert forall|handle: RippleHandle| is_live(ripples, handle) implies #[trigger] is_live(
        after,
        handle,
    ) by {
        let i = choose|i: int| 0 <= i < ripples.len() && (#[trigger] ripples[i]).handle == handle;
        assert(after[i].handle == handle);
    }
}

/// Expired is final. A handle that was given out and names no ripple now will
/// name none after anything that can happen to the registry: frames bring no
/// ripple back, and spawns use handles that were never given out.
pub proof fn lemma_expired_is_final<P>(
    ripples: Seq<Ripple<P>>,
    spawned: nat,
    events: Seq<Event<P>>,
    handle: RippleHandle,
)
    requires
        well_formed(ripples, spawned),
        spawned + events.len() <= u64::MAX,
        handle.id < spawned,
        !is_live(ripples, handle),
    ensures
        well_formed(after_events(ripples, spawned, events).0, after_events(ripples, spawned, events).1),
        spawned <= after_events(ripples, spawned, events).1 <= spawned + events.len(),
        !is_live(after_events(ripples, spawned, events).0, handle),
    decreases events.len(),
{
    if events.len() > 0 {
        lemma_expired_is_final(ripples, spawned, events.drop_last(), handle);
        let earlier = after_events(ripples, spawned, events.drop_last());
        match events.last() {
            Event::Spawn(position) => {
                lemma_spawn_fresh(earlier.0, earlier.1, position);
                let after = earlier.0.push(fresh(earlier.1, position));
                if is_live(after, handle) {
                    let i = choose|i: int|
                        0 <= i < after.len() && (#[trigger] after[i]).handle == handle;
                    if i < earlier.0.len() {
                        assert(earlier.0[i].handle == handle);
                    }
                }
            },
            Event::Frame(delta) => {
                lemma_advanced_well_formed(earlier.0, earlier.1, delta as nat);
                if is_live(advanced(earlier.0, delta as nat), handle) {
                    lemma_live_was_live(earlier.0, delta as nat, handle);
                }
            },
        }
    }
}

/// Only the time that has passed in all counts, not how it was cut into
/// frames: a frame of `first` followed by a frame of `second` leaves what one
/// frame of `first + second` leaves.
pub proof fn lemma_advanced_twice<P>(ripples: Seq<Ripple<P>>, first: nat, second: nat)
    ensures
        advanced(advanced(ripples, first), second) == advanced(ripples, first + second),
    decreases ripples.len(),
{
    if ripples.len() > 0 {
        let rest = ripples.drop_last();
        let last = ripples.last();
        assert(ripples =~= rest.push(last));
        lemma_advanced_push(rest, last, first);
        lemma_advanced_push(rest, last, first + second);
        lemma_advanced_twice(rest, first, second);
        match step(last, first) {
            Some(older) => {
                lemma_advanced_push(advanced(rest, first), older, second);
            },
            None => {},
        }
    }
}

/// A registry without ripples stays without ripples over a frame, and has
/// nothing to list.
pub proof fn lemma_empty_stays_empty<P>(delta: nat)
    ensures
        advanced(Seq::<Ripple<P>>::empty(), delta) == Seq::<Ripple<P>>::empty(),
        snapshot(Seq::<Ripple<P>>::empty()) == Seq::<(P, u64)>::empty(),
{
    assert(snapshot(Seq::<Ripple<P>>::empty()) =~= Seq::<(P, u64)>::empty());
}

/// No ripple is seen at or past its lifetime: every age in the snapshot of a
/// well-formed registry is below it.
pub proof fn lemma_snapshot_ages<P>(ripples: Seq<Ripple<P>>, spawned: nat, i: int)
    requires
        well_formed(ripples, spawned),
        0 <= i < ripples.len(),
    ensures
        snapshot(ripples).len() == ripples.len(),
        snapshot(ripples)[i] == (ripples[i].origin, ripples[i].age_nanos),
        snapshot(ripples)[i].1 < RIPPLE_LIFETIME_NANOS,
{
}

} // verus!
