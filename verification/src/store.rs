//! The store as the request handlers see it: one state behind one lock.
//!
//! A [`Store`] is a handle that can be cloned and handed to any number of
//! threads. All handles made from one another share one
//! [`Collections`](crate::collections::Collections) value behind a
//! reader-writer lock. A request that changes the state holds the lock for
//! writing from its first look at the state to its last change, so it is
//! carried out on one state as a whole; a request that lists something holds
//! the lock for reading while it copies what it answers with.
//!
//! What another thread does between two requests is not known to the caller,
//! so the contracts here say of each answer that it is the right answer in
//! some state that keeps the rules of the store. What the right answer is in a
//! given state is said by the operations of `Collections`.

use std::sync::Arc;
use parking_lot::lock_api::RwLock;
use parking_lot::RawRwLock;
use vstd::prelude::*;
use crate::collections::{maps_answer, routes_answer, scores_answer, Collections};
use crate::error::StoreError;
use crate::event::{event_views, Event, EventDraft};
use crate::game_map::{GameMap, MapDraft};
use crate::ids::{is_random_uuid, Id};
use crate::model::StoreView;
use crate::route::{MapRoute, RouteDraft};
use crate::scoreboard::{draws, scoreboard, Scoreboard, ScoreboardError};
use crate::scores::{ScoreEntry, ScoreView};
use crate::snapshot::{shows, Snapshot, SnapshotView};

verus! {

/// `parking_lot::RawRwLock`, the lock without the value it guards. Nothing is
/// known of what is inside.
#[verifier::external_type_specification]
#[verifier::external_body]
pub struct ExRawRwLock(RawRwLock);

/// `lock_api::RwLock`, of which `parking_lot::RwLock` is the case with
/// `parking_lot::RawRwLock`. Nothing is known of what is inside: the value
/// behind a lock is whatever the last writer left there.
#[verifier::external_type_specification]
#[verifier::external_body]
#[verifier::reject_recursive_types(R)]
#[verifier::reject_recursive_types(T)]
pub struct ExRwLock<R, T: ?Sized>(RwLock<R, T>);

/// The lock held for reading: a `parking_lot::RwLockReadGuard`, which gives
/// the lock back when it is dropped. While the value lives no thread changes
/// the state. (The guard's own type is bound by a trait of `lock_api`, so it
/// is kept behind this struct.)
#[verifier::external_body]
struct ReadAccess<'a> {
    guard: parking_lot::RwLockReadGuard<'a, Collections>,
}

/// The lock held for writing: a `parking_lot::RwLockWriteGuard`, which gives
/// the lock back when it is dropped. While the value lives no other thread
/// reads or changes the state. (The guard's own type is bound by a trait of
/// `lock_api`, so it is kept behind this struct.)
#[verifier::external_body]
struct WriteAccess<'a> {
    guard: parking_lot::RwLockWriteGuard<'a, Collections>,
}

/// A new lock around `state`. Calls `RwLock::new`. Nothing is claimed.
#[verifier::external_body]
fn new_lock(state: Collections) -> RwLock<RawRwLock, Collections> {
    RwLock::new(state)
}

/// Waits until no thread holds the lock for writing, and takes it for
/// reading. Calls `RwLock::read`. Nothing is claimed of the state found. The
/// call does not return while the calling thread itself holds the lock for
/// writing; no function of this module asks for the lock while it holds it.
#[verifier::external_body]
fn read_access<'a>(lock: &'a RwLock<RawRwLock, Collections>) -> ReadAccess<'a> {
    ReadAccess { guard: lock.read() }
}

/// Waits until no thread holds the lock, and takes it for writing. Calls
/// `RwLock::write`. Nothing is claimed of the state found. The call does not
/// return while the calling thread itself holds the lock; no function of this
/// module asks for the lock while it holds it.
#[verifier::external_body]
fn write_access<'a>(lock: &'a RwLock<RawRwLock, Collections>) -> WriteAccess<'a> {
    WriteAccess { guard: lock.write() }
}

/// The state behind a lock held for reading. Calls the guard's `deref`.
/// Nothing is claimed of the state: what is known of it is what is known of
/// every `Collections` value.
#[verifier::external_body]
fn state_of<'a, 'b>(access: &'b ReadAccess<'a>) -> &'b Collections {
    &access.guard
}

/// The state behind a lock held for writing, to be changed in place. Calls
/// the guard's `deref_mut`. Nothing is claimed of the state: what is known of
/// it is what is known of every `Collections` value.
#[verifier::external_body]
fn state_of_mut<'a, 'b>(access: &'b mut WriteAccess<'a>) -> &'b mut Collections {
    &mut access.guard
}

/// Whether `outcome` is how a request to create the event ends in the state
/// `s`, under some identifier with the shape of a random UUID.
pub open spec fn answers_event(s: StoreView, name: Seq<char>, outcome: Result<Id, StoreError>)
    -> bool {
    s.wf() && exists|id: Id| is_random_uuid(id) && outcome == #[trigger] s.event_outcome(name, id)
}

/// Whether `outcome` is how a request to create the map ends in the state
/// `s`, under some identifier with the shape of a random UUID.
pub open spec fn answers_map(
    s: StoreView,
    event: Id,
    name: Seq<char>,
    outcome: Result<Id, StoreError>,
) -> bool {
    s.wf() && exists|id: Id|
        is_random_uuid(id) && outcome == #[trigger] s.map_outcome(event, name, id)
}

/// Whether `outcome` is how a request to create the route ends in the state
/// `s`, under some identifier with the shape of a random UUID.
pub open spec fn answers_route(
    s: StoreView,
    map: Id,
    name: Seq<char>,
    outcome: Result<Id, StoreError>,
) -> bool {
    s.wf() && exists|id: Id|
        is_random_uuid(id) && outcome == #[trigger] s.route_outcome(map, name, id)
}

/// Whether `outcome` is how the submission ends in the state `s`.
pub open spec fn answers_score(
    s: StoreView,
    leaf: Id,
    entry: ScoreView,
    outcome: Result<(), StoreError>,
) -> bool {
    s.wf() && outcome == s.score_outcome(leaf, entry)
}

/// Whether `events` are the events of the state `s`.
pub open spec fn answers_events(s: StoreView, events: Seq<Event>) -> bool {
    s.wf() && event_views(events) == s.events
}

/// Whether `found` lists the maps of the event in the state `s`.
pub open spec fn answers_maps(s: StoreView, event: Id, found: Result<Vec<GameMap>, StoreError>)
    -> bool {
    s.wf() && maps_answer(found) == s.listed_maps(event)
}

/// Whether `found` lists the routes of the map in the state `s`.
pub open spec fn answers_routes(s: StoreView, map: Id, found: Result<Vec<MapRoute>, StoreError>)
    -> bool {
    s.wf() && routes_answer(found) == s.listed_routes(map)
}

/// Whether `found` is the score list of the leaf in the state `s`.
pub open spec fn answers_scores(
    s: StoreView,
    leaf: Id,
    found: Result<Vec<ScoreEntry>, StoreError>,
) -> bool {
    s.wf() && scores_answer(found) == s.listed_scores(leaf)
}

/// Whether `snap` is a snapshot of the state `s`.
pub open spec fn answers_snapshot(s: StoreView, snap: SnapshotView) -> bool {
    s.wf() && shows(snap, s)
}

/// A handle on the shared store.
#[derive(Clone)]
pub struct Store {
    shared: Arc<RwLock<RawRwLock, Collections>>,
}

impl Store {
    /// A store that holds nothing.
    pub fn new() -> Store {
        Store::holding(Collections::new())
    }

    /// A store that starts out from `state`.
    pub fn holding(state: Collections) -> Store {
        Store { shared: Arc::new(new_lock(state)) }
    }

    /// Whether the store holds an event.
    pub fn has_events(&self) -> (any: bool)
        ensures
            exists|s: StoreView, events: Seq<Event>| #[trigger]
                answers_events(s, events) && any == (events.len() > 0),
    {
        let events = self.list_events();
        events.len() > 0
    }

    /// Creates an event under a new random identifier, which is returned.
    ///
    /// The request is turned down if an event of that name exists, and in the
    /// event that the identifier drawn already names something.
    pub fn create_event(&self, draft: EventDraft) -> (outcome: Result<Id, StoreError>)
        ensures
            exists|s: StoreView| #[trigger] answers_event(s, draft.name@, outcome),
    {
        let mut access = write_access(&self.shared);
        let state = state_of_mut(&mut access);
        proof {
            use_type_invariant(&*state);
        }
        let ghost before = state@;
        let outcome = state.create_event(draft);
        assert(answers_event(before, draft.name@, outcome));
        outcome
    }

    /// Creates a map under the event `event`, under a new random identifier,
    /// which is returned.
    ///
    /// The request is turned down if there is no such event, if the event has
    /// a map of that name, and in the event that the identifier drawn already
    /// names something.
    pub fn create_map(&self, event: Id, draft: MapDraft) -> (outcome: Result<Id, StoreError>)
        ensures
            exists|s: StoreView| #[trigger] answers_map(s, event, draft.map_name@, outcome),
    {
        let mut access = write_access(&self.shared);
        let state = state_of_mut(&mut access);
        proof {
            use_type_invariant(&*state);
        }
        let ghost before = state@;
        let outcome = state.create_map(event, draft);
        assert(answers_map(before, event, draft.map_name@, outcome));
        outcome
    }

    /// Creates a route under the map `map`, under a new random identifier,
    /// which is returned.
    ///
    /// The request is turned down if there is no such map, if the map has a
    /// route of that name, and in the event that the identifier drawn already
    /// names something.
    pub fn create_route(&self, map: Id, draft: RouteDraft) -> (outcome: Result<Id, StoreError>)
        ensures
            exists|s: StoreView| #[trigger] answers_route(s, map, draft.name@, outcome),
    {
        let mut access = write_access(&self.shared);
        let state = state_of_mut(&mut access);
        proof {
            use_type_invariant(&*state);
        }
        let ghost before = state@;
        let outcome = state.create_route(map, draft);
        assert(answers_route(before, map, draft.name@, outcome));
        outcome
    }

    /// Submits a time to the score list of the map or route `leaf`.
    ///
    /// The request is turned down if no score list is kept under `leaf`, or
    /// if the player already holds a time that is as short or shorter.
    pub fn submit_score(&self, leaf: Id, entry: ScoreEntry) -> (outcome: Result<(), StoreError>)
        ensures
            exists|s: StoreView| #[trigger] answers_score(s, leaf, entry@, outcome),
    {
        let mut access = write_access(&self.shared);
        let state = state_of_mut(&mut access);
        proof {
            use_type_invariant(&*state);
        }
        let ghost before = state@;
        let outcome = state.submit_score(leaf, entry);
        assert(answers_score(before, leaf, entry@, outcome));
        outcome
    }

    /// A copy of the events, oldest first.
    pub fn list_events(&self) -> (events: Vec<Event>)
        ensures
            exists|s: StoreView| #[trigger] answers_events(s, events@),
    {
        let access = read_access(&self.shared);
        let state = state_of(&access);
        proof {
            use_type_invariant(state);
        }
        let events = state.list_events();
        assert(answers_events(state@, events@));
        events
    }

    /// A copy of the maps of the event `event`, oldest first.
    pub fn list_maps(&self, event: Id) -> (found: Result<Vec<GameMap>, StoreError>)
        ensures
            exists|s: StoreView| #[trigger] answers_maps(s, event, found),
    {
        let access = read_access(&self.shared);
        let state = state_of(&access);
        proof {
            use_type_invariant(state);
        }
        let found = state.list_maps(event);
        assert(answers_maps(state@, event, found));
        found
    }

    /// A copy of the routes of the map `map`, oldest first.
    pub fn list_routes(&self, map: Id) -> (found: Result<Vec<MapRoute>, StoreError>)
        ensures
            exists|s: StoreView| #[trigger] answers_routes(s, map, found),
    {
        let access = read_access(&self.shared);
        let state = state_of(&access);
        proof {
            use_type_invariant(state);
        }
        let found = state.list_routes(map);
        assert(answers_routes(state@, map, found));
        found
    }

    /// A copy of the score list of the map or route `leaf`, best time first.
    pub fn list_scores(&self, leaf: Id) -> (found: Result<Vec<ScoreEntry>, StoreError>)
        ensures
            exists|s: StoreView| #[trigger] answers_scores(s, leaf, found),
    {
        let access = read_access(&self.shared);
        let state = state_of(&access);
        proof {
            use_type_invariant(state);
        }
        let found = state.list_scores(leaf);
        assert(answers_scores(state@, leaf, found));
        found
    }

    /// Draws the scoreboard for the time `now`, in seconds since the Unix
    /// epoch.
    pub fn scoreboard(&self, now: i64) -> (outcome: Result<Scoreboard, ScoreboardError>)
        ensures
            exists|s: StoreView| s.wf() && #[trigger] draws(s, now, outcome),
    {
        let access = read_access(&self.shared);
        let state = state_of(&access);
        proof {
            use_type_invariant(state);
        }
        let outcome = scoreboard(state, now);
        assert(state@.wf() && draws(state@, now, outcome));
        outcome
    }

    /// A copy of everything the store holds, taken at one moment.
    pub fn snapshot(&self) -> (snap: Snapshot)
        ensures
            exists|s: StoreView| #[trigger] answers_snapshot(s, snap@),
    {
        let access = read_access(&self.shared);
        let state = state_of(&access);
        proof {
            use_type_invariant(state);
        }
        let snap = state.snapshot();
        assert(answers_snapshot(state@, snap@));
        snap
    }
}

} // verus!
