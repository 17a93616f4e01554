//! Bringing the store back from what was saved.
//!
//! The four parts of the saved state are loaded each by itself. A part that
//! is sound becomes its collection as it is, whatever the other parts hold. A
//! part for which there is no file leaves its collection empty. A part that
//! cannot be read, does not parse, or breaks the rules of its collection is
//! reported with an error of its own and leaves its collection empty; the
//! other parts are loaded all the same.

use vstd::prelude::*;
use crate::collections::Collections;
use crate::error::StoreError;
use crate::event::{event_views, Event, EventView};
use crate::game_map::{GameMap, MapView};
use crate::ids::Id;
use crate::model::StoreView;
use crate::pairs::{lemma_pairs_empty, pairs_map};
use crate::route::{MapRoute, RouteView};
use crate::save_cycle::Failures;
use crate::scores::{ScoreEntry, ScoreView};
use crate::snapshot::{
    events_are_sound, events_sound, lemma_sound_is_wf, maps_are_sound, maps_sound,
    routes_are_sound, routes_sound, saved_maps, saved_routes, saved_scores, scores_are_sound,
    scores_sound, snapshot_sound, store_of, Snapshot, SnapshotView,
};

verus! {

/// The store that a snapshot brings back, or `None` where a part of the
/// snapshot is not sound.
pub open spec fn restored(snapshot: SnapshotView) -> Option<StoreView> {
    if snapshot_sound(snapshot) {
        Some(store_of(snapshot))
    } else {
        None
    }
}

/// Brings the store back from a snapshot, all of it or nothing.
///
/// Each collection comes back as its part says. A snapshot with a part that
/// is not sound is corrupt.
pub fn restore(snapshot: Snapshot) -> (outcome: Result<Collections, StoreError>)
    ensures
        match outcome {
            Ok(state) => restored(snapshot@) == Some(state@) && state.inv(),
            Err(e) => e == StoreError::CorruptSnapshot && restored(snapshot@) is None,
        },
{
    if events_are_sound(&snapshot.events) && maps_are_sound(&snapshot.maps) && routes_are_sound(
        &snapshot.routes,
    ) && scores_are_sound(&snapshot.scores) {
        Ok(Collections::from_sound(snapshot))
    } else {
        Err(StoreError::CorruptSnapshot)
    }
}

/// What became of the attempt to read one part of the saved state.
#[derive(Debug)]
pub enum Saved<T> {
    /// There is no file for the part.
    Absent,
    /// The file is there but could not be read.
    Unreadable,
    /// The file was read, but what it holds is not a part of a snapshot.
    Unparsable,
    /// The part.
    Read(T),
}

/// What loading has to report of each part: nothing, or why the part was not
/// loaded.
#[derive(Clone, Copy, Debug, PartialEq, Eq)]
pub struct LoadReport {
    pub scores: Option<StoreError>,
    pub maps: Option<StoreError>,
    pub events: Option<StoreError>,
    pub routes: Option<StoreError>,
}

/// The store that was loaded, and what there is to report of each part.
pub struct Loaded {
    pub state: Collections,
    pub report: LoadReport,
}

/// Why a part is not loaded, as far as reading it goes.
pub open spec fn read_failure<T>(part: Saved<T>) -> Option<StoreError> {
    match part {
        Saved::Unreadable => Some(StoreError::SnapshotIoFailure),
        Saved::Unparsable => Some(StoreError::CorruptSnapshot),
        _ => None,
    }
}

/// The events that are loaded from the part: those read, if they are sound.
pub open spec fn events_loaded(part: Saved<Vec<Event>>) -> Seq<EventView> {
    match part {
        Saved::Read(list) => if events_sound(event_views(list@)) {
            event_views(list@)
        } else {
            Seq::empty()
        },
        _ => Seq::empty(),
    }
}

/// Why the events are not loaded, if they are not.
pub open spec fn events_failure(part: Saved<Vec<Event>>) -> Option<StoreError> {
    match part {
        Saved::Read(list) => if events_sound(event_views(list@)) {
            None
        } else {
            Some(StoreError::CorruptSnapshot)
        },
        _ => read_failure(part),
    }
}

/// The lists of maps that are loaded from the part: those read, if they are
/// sound.
pub open spec fn maps_loaded(part: Saved<Vec<(Id, Vec<GameMap>)>>) -> Seq<(Id, Seq<MapView>)> {
    match part {
        Saved::Read(lists) => if maps_sound(saved_maps(lists@)) {
            saved_maps(lists@)
        } else {
            Seq::empty()
        },
        _ => Seq::empty(),
    }
}

/// Why the lists of maps are not loaded, if they are not.
pub open spec fn maps_failure(part: Saved<Vec<(Id, Vec<GameMap>)>>) -> Option<StoreError> {
    match part {
        Saved::Read(lists) => if maps_sound(saved_maps(lists@)) {
            None
        } else {
            Some(StoreError::CorruptSnapshot)
        },
        _ => read_failure(part),
    }
}

/// The lists of routes that are loaded from the part: those read, if they
/// are sound.
pub open spec fn routes_loaded(part: Saved<Vec<(Id, Vec<MapRoute>)>>) -> Seq<
    (Id, Seq<RouteView>),
> {
    match part {
        Saved::Read(lists) => if routes_sound(saved_routes(lists@)) {
            saved_routes(lists@)
        } else {
            Seq::empty()
        },
        _ => Seq::empty(),
    }
}

/// Why the lists of routes are not loaded, if they are not.
pub open spec fn routes_failure(part: Saved<Vec<(Id, Vec<MapRoute>)>>) -> Option<StoreError> {
    match part {
        Saved::Read(lists) => if routes_sound(saved_routes(lists@)) {
            None
        } else {
            Some(StoreError::CorruptSnapshot)
        },
        _ => read_failure(part),
    }
}

/// The score lists that are loaded from the part: those read, if they are
/// sound.
pub open spec fn scores_loaded(part: Saved<Vec<(Id, Vec<ScoreEntry>)>>) -> Seq<
    (Id, Seq<ScoreView>),
> {
    match part {
        Saved::Read(lists) => if scores_sound(saved_scores(lists@)) {
            saved_scores(lists@)
        } else {
            Seq::empty()
        },
        _ => Seq::empty(),
    }
}

/// Why the score lists are not loaded, if they are not.
pub open spec fn scores_failure(part: Saved<Vec<(Id, Vec<ScoreEntry>)>>) -> Option<StoreError> {
    match part {
        Saved::Read(lists) => if scores_sound(saved_scores(lists@)) {
            None
        } else {
            Some(StoreError::CorruptSnapshot)
        },
        _ => read_failure(part),
    }
}

/// What is loaded from the four parts, as a snapshot.
pub open spec fn parts_loaded(
    scores: Saved<Vec<(Id, Vec<ScoreEntry>)>>,
    maps: Saved<Vec<(Id, Vec<GameMap>)>>,
    events: Saved<Vec<Event>>,
    routes: Saved<Vec<(Id, Vec<MapRoute>)>>,
) -> SnapshotView {
    SnapshotView {
        events: events_loaded(events),
        maps: maps_loaded(maps),
        routes: routes_loaded(routes),
        scores: scores_loaded(scores),
    }
}

/// What there is to report of the four parts.
pub open spec fn parts_report(
    scores: Saved<Vec<(Id, Vec<ScoreEntry>)>>,
    maps: Saved<Vec<(Id, Vec<GameMap>)>>,
    events: Saved<Vec<Event>>,
    routes: Saved<Vec<(Id, Vec<MapRoute>)>>,
) -> LoadReport {
    LoadReport {
        scores: scores_failure(scores),
        maps: maps_failure(maps),
        events: events_failure(events),
        routes: routes_failure(routes),
    }
}

impl LoadReport {
    /// The parts that were not loaded, which a save spares as long as the
    /// store holds nothing in them, so that their files are not replaced by
    /// empty ones.
    pub fn unloaded(&self) -> (parts: Failures)
        ensures
            parts == (Failures {
                scores: self.scores is Some,
                maps: self.maps is Some,
                events: self.events is Some,
                routes: self.routes is Some,
            }),
    {
        Failures {
            scores: self.scores.is_some(),
            maps: self.maps.is_some(),
            events: self.events.is_some(),
            routes: self.routes.is_some(),
        }
    }

    /// Whether a part was not loaded.
    pub fn any(&self) -> (some: bool)
        ensures
            some == (self.scores is Some || self.maps is Some || self.events is Some
                || self.routes is Some),
    {
        self.scores.is_some() || self.maps.is_some() || self.events.is_some()
            || self.routes.is_some()
    }
}

/// Why a part is not loaded, as far as reading it goes.
fn failure_of<T>(part: &Saved<T>) -> (failure: Option<StoreError>)
    ensures
        failure == read_failure(*part),
{
    match part {
        Saved::Unreadable => Some(StoreError::SnapshotIoFailure),
        Saved::Unparsable => Some(StoreError::CorruptSnapshot),
        _ => None,
    }
}

/// The events to load from the part, and what there is to report of it.
fn settle_events(part: Saved<Vec<Event>>) -> (settled: (Vec<Event>, Option<StoreError>))
    ensures
        event_views(settled.0@) == events_loaded(part),
        events_sound(event_views(settled.0@)),
        settled.1 == events_failure(part),
{
    let failure = failure_of(&part);
    if let Saved::Read(list) = part {
        if events_are_sound(&list) {
            return (list, None);
        }
        let none: Vec<Event> = Vec::new();
        assert(event_views(none@) =~= Seq::empty());
        return (none, Some(StoreError::CorruptSnapshot));
    }
    let none: Vec<Event> = Vec::new();
    assert(event_views(none@) =~= Seq::empty());
    (none, failure)
}

/// The lists of maps to load from the part, and what there is to report of
/// it.
fn settle_maps(part: Saved<Vec<(Id, Vec<GameMap>)>>) -> (settled: (
    Vec<(Id, Vec<GameMap>)>,
    Option<StoreError>,
))
    ensures
        saved_maps(settled.0@) == maps_loaded(part),
        maps_sound(saved_maps(settled.0@)),
        settled.1 == maps_failure(part),
{
    let failure = failure_of(&part);
    proof {
        lemma_pairs_empty::<Seq<MapView>>();
    }
    if let Saved::Read(lists) = part {
        if maps_are_sound(&lists) {
            return (lists, None);
        }
        let none: Vec<(Id, Vec<GameMap>)> = Vec::new();
        assert(saved_maps(none@) =~= Seq::empty());
        return (none, Some(StoreError::CorruptSnapshot));
    }
    let none: Vec<(Id, Vec<GameMap>)> = Vec::new();
    assert(saved_maps(none@) =~= Seq::empty());
    (none, failure)
}

/// The lists of routes to load from the part, and what there is to report of
/// it.
fn settle_routes(part: Saved<Vec<(Id, Vec<MapRoute>)>>) -> (settled: (
    Vec<(Id, Vec<MapRoute>)>,
    Option<StoreError>,
))
    ensures
        saved_routes(settled.0@) == routes_loaded(part),
        routes_sound(saved_routes(settled.0@)),
        settled.1 == routes_failure(part),
{
    let failure = failure_of(&part);
    proof {
        lemma_pairs_empty::<Seq<RouteView>>();
    }
    if let Saved::Read(lists) = part {
        if routes_are_sound(&lists) {
            return (lists, None);
        }
        let none: Vec<(Id, Vec<MapRoute>)> = Vec::new();
        assert(saved_routes(none@) =~= Seq::empty());
        return (none, Some(StoreError::CorruptSnapshot));
    }
    let none: Vec<(Id, Vec<MapRoute>)> = Vec::new();
    assert(saved_routes(none@) =~= Seq::empty());
    (none, failure)
}

/// The score lists to load from the part, and what there is to report of it.
fn settle_scores(part: Saved<Vec<(Id, Vec<ScoreEntry>)>>) -> (settled: (
    Vec<(Id, Vec<ScoreEntry>)>,
    Option<StoreError>,
))
    ensures
        saved_scores(settled.0@) == scores_loaded(part),
        scores_sound(saved_scores(settled.0@)),
        settled.1 == scores_failure(part),
{
    let failure = failure_of(&part);
    proof {
        lemma_pairs_empty::<Seq<ScoreView>>();
    }
    if let Saved::Read(lists) = part {
        if scores_are_sound(&lists) {
            return (lists, None);
        }
        let none: Vec<(Id, Vec<ScoreEntry>)> = Vec::new();
        assert(saved_scores(none@) =~= Seq::empty());
        return (none, Some(StoreError::CorruptSnapshot));
    }
    let none: Vec<(Id, Vec<ScoreEntry>)> = Vec::new();
    assert(saved_scores(none@) =~= Seq::empty());
    (none, failure)
}

/// Loads the store from the four parts of its saved state, as far as they
/// could be read.
///
/// Each collection is loaded from its own part and from nothing else: it is
/// what the part says where the part was read and is sound, and empty
/// otherwise. A part for which there is no file is no failure. A part that
/// could not be read, does not parse or is not sound is reported with its own
/// error, and the other parts are loaded all the same.
pub fn load_state(
    scores: Saved<Vec<(Id, Vec<ScoreEntry>)>>,
    maps: Saved<Vec<(Id, Vec<GameMap>)>>,
    events: Saved<Vec<Event>>,
    routes: Saved<Vec<(Id, Vec<MapRoute>)>>,
) -> (loaded: Loaded)
    ensures
        loaded.state@ == store_of(parts_loaded(scores, maps, events, routes)),
        loaded.report == parts_report(scores, maps, events, routes),
        loaded.state.inv(),
{
    let settled_scores = settle_scores(scores);
    let settled_maps = settle_maps(maps);
    let settled_events = settle_events(events);
    let settled_routes = settle_routes(routes);
    let snapshot = Snapshot {
        events: settled_events.0,
        maps: settled_maps.0,
        routes: settled_routes.0,
        scores: settled_scores.0,
    };
    assert(snapshot@ == parts_loaded(scores, maps, events, routes));
    let state = Collections::from_sound(snapshot);
    Loaded {
        state,
        report: LoadReport {
            scores: settled_scores.1,
            maps: settled_maps.1,
            events: settled_events.1,
            routes: settled_routes.1,
        },
    }
}

/// Whatever a snapshot brings back keeps the rules of the store.
pub proof fn law_restored_keeps_rules(snapshot: SnapshotView)
    ensures
        restored(snapshot) matches Some(s) ==> s.wf(),
{
    if snapshot_sound(snapshot) {
        lemma_sound_is_wf(snapshot);
    }
}

/// Each collection is loaded from its own part alone: what is loaded from a
/// part does not depend on the other parts, a sound part that was read is
/// loaded as it is and reported with no failure, and a part without a file
/// leaves its collection empty and is no failure either.
pub proof fn law_each_part_loads_alone(
    scores: Saved<Vec<(Id, Vec<ScoreEntry>)>>,
    maps: Saved<Vec<(Id, Vec<GameMap>)>>,
    events: Saved<Vec<Event>>,
    routes: Saved<Vec<(Id, Vec<MapRoute>)>>,
)
    ensures
        ({
            let loaded = store_of(parts_loaded(scores, maps, events, routes));
            let report = parts_report(scores, maps, events, routes);
            &&& loaded.wf()
            &&& loaded.events == events_loaded(events)
            &&& loaded.maps == pairs_map(maps_loaded(maps))
            &&& loaded.routes == pairs_map(routes_loaded(routes))
            &&& loaded.scores == pairs_map(scores_loaded(scores))
            &&& (events matches Saved::Read(list) ==> (events_sound(event_views(list@))
                ==> loaded.events == event_views(list@) && report.events is None))
            &&& (maps matches Saved::Read(lists) ==> (maps_sound(saved_maps(lists@))
                ==> loaded.maps == pairs_map(saved_maps(lists@))
                && report.maps is None))
            &&& (routes matches Saved::Read(lists) ==> (routes_sound(saved_routes(lists@))
                ==> loaded.routes == pairs_map(saved_routes(lists@))
                && report.routes is None))
            &&& (scores matches Saved::Read(lists) ==> (scores_sound(saved_scores(lists@))
                ==> loaded.scores == pairs_map(saved_scores(lists@))
                && report.scores is None))
            &&& (events is Absent ==> loaded.events == Seq::<EventView>::empty() && report.events is None)
            &&& (maps is Absent ==> loaded.maps == Map::<Id, Seq<MapView>>::empty()
                && report.maps is None)
            &&& (routes is Absent ==> loaded.routes == Map::<Id, Seq<RouteView>>::empty()
                && report.routes is None)
            &&& (scores is Absent ==> loaded.scores == Map::<Id, Seq<ScoreView>>::empty()
                && report.scores is None)
            &&& (events is Unparsable ==> report.events == Some(StoreError::CorruptSnapshot))
            &&& (maps is Unparsable ==> report.maps == Some(StoreError::CorruptSnapshot))
            &&& (routes is Unparsable ==> report.routes == Some(StoreError::CorruptSnapshot))
            &&& (scores is Unparsable ==> report.scores == Some(StoreError::CorruptSnapshot))
            &&& (events is Unreadable ==> report.events == Some(StoreError::SnapshotIoFailure))
            &&& (maps is Unreadable ==> report.maps == Some(StoreError::SnapshotIoFailure))
            &&& (routes is Unreadable ==> report.routes == Some(StoreError::SnapshotIoFailure))
            &&& (scores is Unreadable ==> report.scores == Some(StoreError::SnapshotIoFailure))
        }),
{
    let parts = parts_loaded(scores, maps, events, routes);
    lemma_pairs_empty::<Seq<MapView>>();
    lemma_pairs_empty::<Seq<RouteView>>();
    lemma_pairs_empty::<Seq<ScoreView>>();
    assert(snapshot_sound(parts));
    lemma_sound_is_wf(parts);
}

} // verus!
