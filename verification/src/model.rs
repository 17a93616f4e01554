//! The store as a mathematical value, and what each operation does to it.
//!
//! The store holds four collections: the events in the order of their
//! creation; lists of maps under the identifiers of events; lists of routes
//! under the identifiers of maps; and score lists under the identifiers of
//! maps and routes. Each collection keeps rules of its own, gathered in
//! [`StoreView::wf`], and each can be saved and loaded by itself: a list may
//! stand under an identifier whose owner the store does not hold, and an
//! owner may have no list yet, which is the same as an empty one. A request
//! is answered by the owner, not by the list: nothing is listed or created
//! under an identifier that names no event or map, and no time is taken for
//! one that names no map or route, whatever stands under it.

use vstd::prelude::*;
use crate::error::StoreError;
use crate::event::EventView;
use crate::game_map::MapView;
use crate::ids::Id;
use crate::route::RouteView;
use crate::scores::{improves, is_leaderboard, lemma_merged, merged, ScoreView};

verus! {

/// What the store holds.
pub ghost struct StoreView {
    /// The events, oldest first.
    pub events: Seq<EventView>,
    /// Lists of maps, oldest first, under the identifiers of events.
    pub maps: Map<Id, Seq<MapView>>,
    /// Lists of routes, oldest first, under the identifiers of maps.
    pub routes: Map<Id, Seq<RouteView>>,
    /// Score lists under the identifiers of maps and routes.
    pub scores: Map<Id, Seq<ScoreView>>,
}

impl StoreView {
    /// The store that holds nothing.
    pub open spec fn empty() -> StoreView {
        StoreView {
            events: Seq::empty(),
            maps: Map::empty(),
            routes: Map::empty(),
            scores: Map::empty(),
        }
    }

    /// Whether an event has the identifier `id`.
    pub open spec fn has_event(self, id: Id) -> bool {
        exists|i: int| 0 <= i < self.events.len() && (#[trigger] self.events[i]).id == id
    }

    /// Whether an event has the name `name`.
    pub open spec fn has_event_named(self, name: Seq<char>) -> bool {
        exists|i: int| 0 <= i < self.events.len() && (#[trigger] self.events[i]).name == name
    }

    /// Whether a map stands at position `i` of the list under `event`.
    pub open spec fn map_at(self, event: Id, i: int) -> bool {
        self.maps.contains_key(event) && 0 <= i < self.maps[event].len()
    }

    /// Whether a map has the identifier `id`.
    pub open spec fn has_map(self, id: Id) -> bool {
        exists|event: Id, i: int| #[trigger] self.map_at(event, i) && self.maps[event][i].id == id
    }

    /// Whether a map of the name `name` stands under `event`.
    pub open spec fn has_map_named(self, event: Id, name: Seq<char>) -> bool {
        exists|i: int| #[trigger] self.map_at(event, i) && self.maps[event][i].map_name == name
    }

    /// Whether a route stands at position `i` of the list under `map`.
    pub open spec fn route_at(self, map: Id, i: int) -> bool {
        self.routes.contains_key(map) && 0 <= i < self.routes[map].len()
    }

    /// Whether a route has the identifier `id`.
    pub open spec fn has_route(self, id: Id) -> bool {
        exists|map: Id, i: int| #[trigger] self.route_at(map, i) && self.routes[map][i].id == id
    }

    /// Whether a route of the name `name` stands under `map`.
    pub open spec fn has_route_named(self, map: Id, name: Seq<char>) -> bool {
        exists|i: int| #[trigger] self.route_at(map, i) && self.routes[map][i].name == name
    }

    /// The maps under `event`: none where no list stands under it.
    pub open spec fn maps_of(self, event: Id) -> Seq<MapView> {
        if self.maps.contains_key(event) {
            self.maps[event]
        } else {
            Seq::empty()
        }
    }

    /// The routes under `map`: none where no list stands under it.
    pub open spec fn routes_of(self, map: Id) -> Seq<RouteView> {
        if self.routes.contains_key(map) {
            self.routes[map]
        } else {
            Seq::empty()
        }
    }

    /// The score list under `leaf`: empty where none stands under it.
    pub open spec fn scores_of(self, leaf: Id) -> Seq<ScoreView> {
        if self.scores.contains_key(leaf) {
            self.scores[leaf]
        } else {
            Seq::empty()
        }
    }

    /// Whether `id` names an event, a map or a route, or has a list standing
    /// under it.
    pub open spec fn in_use(self, id: Id) -> bool {
        ||| self.has_event(id)
        ||| self.has_map(id)
        ||| self.has_route(id)
        ||| self.maps.contains_key(id)
        ||| self.routes.contains_key(id)
        ||| self.scores.contains_key(id)
    }

    /// Whether `id` names something that is scored: a map or a route.
    pub open spec fn has_leaf(self, id: Id) -> bool {
        self.has_map(id) || self.has_route(id)
    }

    /// No two events share an identifier or a name.
    pub open spec fn events_distinct(self) -> bool {
        forall|i: int, j: int|
            0 <= i < j < self.events.len() ==> (#[trigger] self.events[i]).id != (
            #[trigger] self.events[j]).id && self.events[i].name != self.events[j].name
    }

    /// No two maps under one event share a name.
    pub open spec fn map_names_distinct(self) -> bool {
        forall|event: Id, i: int, j: int|
            #[trigger] self.map_at(event, i) && #[trigger] self.map_at(event, j) && i != j
                ==> self.maps[event][i].map_name != self.maps[event][j].map_name
    }

    /// No two maps share an identifier.
    pub open spec fn map_ids_distinct(self) -> bool {
        forall|e1: Id, i1: int, e2: Id, i2: int|
            #[trigger] self.map_at(e1, i1) && #[trigger] self.map_at(e2, i2)
                && self.maps[e1][i1].id == self.maps[e2][i2].id ==> e1 == e2 && i1 == i2
    }

    /// No two routes under one map share a name.
    pub open spec fn route_names_distinct(self) -> bool {
        forall|map: Id, i: int, j: int|
            #[trigger] self.route_at(map, i) && #[trigger] self.route_at(map, j) && i != j
                ==> self.routes[map][i].name != self.routes[map][j].name
    }

    /// No two routes share an identifier.
    pub open spec fn route_ids_distinct(self) -> bool {
        forall|m1: Id, i1: int, m2: Id, i2: int|
            #[trigger] self.route_at(m1, i1) && #[trigger] self.route_at(m2, i2)
                && self.routes[m1][i1].id == self.routes[m2][i2].id ==> m1 == m2 && i1 == i2
    }

    /// Every score list keeps the rule of score lists.
    pub open spec fn lists_in_order(self) -> bool {
        forall|id: Id| #[trigger] self.scores.contains_key(id) ==> is_leaderboard(self.scores[id])
    }

    /// The rules that the store keeps: those of the events, those of the
    /// maps, those of the routes and those of the score lists.
    pub open spec fn wf(self) -> bool {
        &&& self.events_distinct()
        &&& self.map_names_distinct()
        &&& self.map_ids_distinct()
        &&& self.route_names_distinct()
        &&& self.route_ids_distinct()
        &&& self.lists_in_order()
    }

    /// What a request for the maps of the event `event` is answered with.
    pub open spec fn listed_maps(self, event: Id) -> Result<Seq<MapView>, StoreError> {
        if self.has_event(event) {
            Ok(self.maps_of(event))
        } else {
            Err(StoreError::ParentNotFound)
        }
    }

    /// What a request for the routes of the map `map` is answered with.
    pub open spec fn listed_routes(self, map: Id) -> Result<Seq<RouteView>, StoreError> {
        if self.has_map(map) {
            Ok(self.routes_of(map))
        } else {
            Err(StoreError::ParentNotFound)
        }
    }

    /// What a request for the score list of the map or route `leaf` is
    /// answered with.
    pub open spec fn listed_scores(self, leaf: Id) -> Result<Seq<ScoreView>, StoreError> {
        if self.has_leaf(leaf) {
            Ok(self.scores_of(leaf))
        } else {
            Err(StoreError::ParentNotFound)
        }
    }

    /// How a request to create an event ends.
    pub open spec fn event_outcome(self, name: Seq<char>, id: Id) -> Result<Id, StoreError> {
        if self.has_event_named(name) {
            Err(StoreError::AlreadyExists)
        } else if self.in_use(id) {
            Err(StoreError::IdentifierInUse)
        } else {
            Ok(id)
        }
    }

    /// The store with one more event, which owns no map yet.
    pub open spec fn with_event(self, event: EventView) -> StoreView {
        StoreView {
            events: self.events.push(event),
            maps: self.maps.insert(event.id, Seq::empty()),
            routes: self.routes,
            scores: self.scores,
        }
    }

    /// The store after a request to create the event: with the event where
    /// the request is granted, as before where it is turned down.
    pub open spec fn after_event_request(self, event: EventView) -> StoreView {
        if self.event_outcome(event.name, event.id) is Ok {
            self.with_event(event)
        } else {
            self
        }
    }

    /// How a request to create a map under the event `event` ends.
    pub open spec fn map_outcome(self, event: Id, name: Seq<char>, id: Id) -> Result<
        Id,
        StoreError,
    > {
        if !self.has_event(event) {
            Err(StoreError::ParentNotFound)
        } else if self.has_map_named(event, name) {
            Err(StoreError::AlreadyExists)
        } else if self.in_use(id) {
            Err(StoreError::IdentifierInUse)
        } else {
            Ok(id)
        }
    }

    /// The store with one more map under the event `event`. The map owns no
    /// route yet, and its score list is empty.
    pub open spec fn with_map(self, event: Id, map: MapView) -> StoreView {
        StoreView {
            events: self.events,
            maps: self.maps.insert(event, self.maps_of(event).push(map)),
            routes: self.routes.insert(map.id, Seq::empty()),
            scores: self.scores.insert(map.id, Seq::empty()),
        }
    }

    /// The store after a request to create the map under the event `event`:
    /// with the map where the request is granted, as before where it is
    /// turned down.
    pub open spec fn after_map_request(self, event: Id, map: MapView) -> StoreView {
        if self.map_outcome(event, map.map_name, map.id) is Ok {
            self.with_map(event, map)
        } else {
            self
        }
    }

    /// How a request to create a route under the map `map` ends.
    pub open spec fn route_outcome(self, map: Id, name: Seq<char>, id: Id) -> Result<
        Id,
        StoreError,
    > {
        if !self.has_map(map) {
            Err(StoreError::ParentNotFound)
        } else if self.has_route_named(map, name) {
            Err(StoreError::AlreadyExists)
        } else if self.in_use(id) {
            Err(StoreError::IdentifierInUse)
        } else {
            Ok(id)
        }
    }

    /// The store with one more route under the map `map`. The route's score
    /// list is empty.
    pub open spec fn with_route(self, map: Id, route: RouteView) -> StoreView {
        StoreView {
            events: self.events,
            maps: self.maps,
            routes: self.routes.insert(map, self.routes_of(map).push(route)),
            scores: self.scores.insert(route.id, Seq::empty()),
        }
    }

    /// The store after a request to create the route under the map `map`:
    /// with the route where the request is granted, as before where it is
    /// turned down.
    pub open spec fn after_route_request(self, map: Id, route: RouteView) -> StoreView {
        if self.route_outcome(map, route.name, route.id) is Ok {
            self.with_route(map, route)
        } else {
            self
        }
    }

    /// The store with `list` as the score list under `leaf`.
    pub open spec fn with_score_list(self, leaf: Id, list: Seq<ScoreView>) -> StoreView {
        StoreView {
            events: self.events,
            maps: self.maps,
            routes: self.routes,
            scores: self.scores.insert(leaf, list),
        }
    }

    /// How the submission of a time to the map or route `leaf` ends.
    pub open spec fn score_outcome(self, leaf: Id, entry: ScoreView) -> Result<(), StoreError> {
        if !self.has_leaf(leaf) {
            Err(StoreError::ParentNotFound)
        } else if !improves(self.scores_of(leaf), entry) {
            Err(StoreError::NotImproved)
        } else {
            Ok(())
        }
    }

    /// The store after the score list under `leaf` has taken the submission.
    pub open spec fn with_score(self, leaf: Id, entry: ScoreView) -> StoreView {
        self.with_score_list(leaf, merged(self.scores_of(leaf), entry))
    }

    /// The store after the submission of a time to `leaf`: with the time in
    /// the score list where the submission is taken, as before where it is
    /// turned down.
    pub open spec fn after_submission(self, leaf: Id, entry: ScoreView) -> StoreView {
        if self.score_outcome(leaf, entry) is Ok {
            self.with_score(leaf, entry)
        } else {
            self
        }
    }
}

/// The empty store keeps the rules, and nothing is in use in it.
pub proof fn lemma_empty_is_wf()
    ensures
        StoreView::empty().wf(),
        forall|id: Id| !(#[trigger] StoreView::empty().in_use(id)),
{
    let s = StoreView::empty();
    assert forall|id: Id| !s.has_map(id) && !s.has_route(id) && !s.has_event(id) by {
        if s.has_map(id) {
            let (e, i) = choose|e: Id, i: int| #[trigger] s.map_at(e, i) && s.maps[e][i].id == id;
            assert(s.map_at(e, i));
        }
        if s.has_route(id) {
            let (m, i) = choose|m: Id, i: int| #[trigger]
                s.route_at(m, i) && s.routes[m][i].id == id;
            assert(s.route_at(m, i));
        }
    }
}

/// Two stores with the same lists of maps hold the same maps and keep the
/// rules on maps together.
pub proof fn lemma_same_maps(s: StoreView, t: StoreView)
    requires
        t.maps == s.maps,
    ensures
        forall|id: Id| #[trigger] t.has_map(id) <==> s.has_map(id),
        forall|e: Id, i: int| #[trigger] t.map_at(e, i) <==> s.map_at(e, i),
        s.map_names_distinct() ==> t.map_names_distinct(),
        s.map_ids_distinct() ==> t.map_ids_distinct(),
{
    assert forall|e: Id, i: int| #[trigger] t.map_at(e, i) <==> s.map_at(e, i) by {}
    assert forall|id: Id| #[trigger] t.has_map(id) <==> s.has_map(id) by {
        if t.has_map(id) {
            let (e, i) = choose|e: Id, i: int| #[trigger] t.map_at(e, i) && t.maps[e][i].id == id;
            assert(s.map_at(e, i));
        }
        if s.has_map(id) {
            let (e, i) = choose|e: Id, i: int| #[trigger] s.map_at(e, i) && s.maps[e][i].id == id;
            assert(t.map_at(e, i));
        }
    }
    if s.map_names_distinct() {
        assert forall|e: Id, i: int, j: int| #[trigger]
            t.map_at(e, i) && #[trigger] t.map_at(e, j) && i != j implies t.maps[e][i].map_name
            != t.maps[e][j].map_name by {
            assert(s.map_at(e, i) && s.map_at(e, j));
        }
    }
    if s.map_ids_distinct() {
        assert forall|e1: Id, i1: int, e2: Id, i2: int| #[trigger]
            t.map_at(e1, i1) && #[trigger] t.map_at(e2, i2) && t.maps[e1][i1].id
                == t.maps[e2][i2].id implies e1 == e2 && i1 == i2 by {
            assert(s.map_at(e1, i1) && s.map_at(e2, i2));
        }
    }
}

/// Two stores with the same lists of routes hold the same routes and keep
/// the rules on routes together.
pub proof fn lemma_same_routes(s: StoreView, t: StoreView)
    requires
        t.routes == s.routes,
    ensures
        forall|id: Id| #[trigger] t.has_route(id) <==> s.has_route(id),
        forall|m: Id, i: int| #[trigger] t.route_at(m, i) <==> s.route_at(m, i),
        s.route_names_distinct() ==> t.route_names_distinct(),
        s.route_ids_distinct() ==> t.route_ids_distinct(),
{
    assert forall|m: Id, i: int| #[trigger] t.route_at(m, i) <==> s.route_at(m, i) by {}
    assert forall|id: Id| #[trigger] t.has_route(id) <==> s.has_route(id) by {
        if t.has_route(id) {
            let (m, i) = choose|m: Id, i: int| #[trigger]
                t.route_at(m, i) && t.routes[m][i].id == id;
            assert(s.route_at(m, i));
        }
        if s.has_route(id) {
            let (m, i) = choose|m: Id, i: int| #[trigger]
                s.route_at(m, i) && s.routes[m][i].id == id;
            assert(t.route_at(m, i));
        }
    }
    if s.route_names_distinct() {
        assert forall|m: Id, i: int, j: int| #[trigger]
            t.route_at(m, i) && #[trigger] t.route_at(m, j) && i != j implies t.routes[m][i].name
            != t.routes[m][j].name by {
            assert(s.route_at(m, i) && s.route_at(m, j));
        }
    }
    if s.route_ids_distinct() {
        assert forall|m1: Id, i1: int, m2: Id, i2: int| #[trigger]
            t.route_at(m1, i1) && #[trigger] t.route_at(m2, i2) && t.routes[m1][i1].id
                == t.routes[m2][i2].id implies m1 == m2 && i1 == i2 by {
            assert(s.route_at(m1, i1) && s.route_at(m2, i2));
        }
    }
}

/// A list of maps grown by one map, under a store in which the map is new.
proof fn lemma_map_added(s: StoreView, t: StoreView, event: Id, map: MapView)
    requires
        t.maps == s.maps.insert(event, s.maps_of(event).push(map)),
        s.map_names_distinct(),
        s.map_ids_distinct(),
        !s.has_map_named(event, map.map_name),
        !s.has_map(map.id),
    ensures
        forall|id: Id| #[trigger] t.has_map(id) <==> s.has_map(id) || id == map.id,
        t.map_names_distinct(),
        t.map_ids_distinct(),
{
    let n = s.maps_of(event).len() as int;
    assert(t.map_at(event, n) && t.maps[event][n] == map);
    assert forall|e: Id, i: int| #[trigger]
        t.map_at(e, i) <==> s.map_at(e, i) || (e == event && i == n) by {}
    assert forall|e: Id, i: int| #[trigger] s.map_at(e, i) implies t.maps[e][i]
        == s.maps[e][i] by {}
    assert forall|id: Id| #[trigger] t.has_map(id) <==> s.has_map(id) || id == map.id by {
        if t.has_map(id) {
            let (e, i) = choose|e: Id, i: int| #[trigger] t.map_at(e, i) && t.maps[e][i].id == id;
            if s.map_at(e, i) {
                assert(s.maps[e][i].id == id);
            }
        }
        if s.has_map(id) {
            let (e, i) = choose|e: Id, i: int| #[trigger] s.map_at(e, i) && s.maps[e][i].id == id;
            assert(t.map_at(e, i));
        }
    }
    assert forall|e: Id, i: int, j: int| #[trigger]
        t.map_at(e, i) && #[trigger] t.map_at(e, j) && i != j implies t.maps[e][i].map_name
        != t.maps[e][j].map_name by {
        if s.map_at(e, i) && s.map_at(e, j) {
        } else if s.map_at(e, i) {
            assert(s.maps[e][i].map_name != map.map_name);
        } else {
            assert(s.map_at(e, j));
            assert(s.maps[e][j].map_name != map.map_name);
        }
    }
    assert forall|e1: Id, i1: int, e2: Id, i2: int| #[trigger]
        t.map_at(e1, i1) && #[trigger] t.map_at(e2, i2) && t.maps[e1][i1].id
            == t.maps[e2][i2].id implies e1 == e2 && i1 == i2 by {
        if s.map_at(e1, i1) && s.map_at(e2, i2) {
        } else if s.map_at(e1, i1) {
            assert(s.has_map(map.id));
        } else if s.map_at(e2, i2) {
            assert(s.has_map(map.id));
        }
    }
}

/// A list of routes grown by one route, under a store in which the route is
/// new.
proof fn lemma_route_added(s: StoreView, t: StoreView, map: Id, route: RouteView)
    requires
        t.routes == s.routes.insert(map, s.routes_of(map).push(route)),
        s.route_names_distinct(),
        s.route_ids_distinct(),
        !s.has_route_named(map, route.name),
        !s.has_route(route.id),
    ensures
        forall|id: Id| #[trigger] t.has_route(id) <==> s.has_route(id) || id == route.id,
        t.route_names_distinct(),
        t.route_ids_distinct(),
{
    let n = s.routes_of(map).len() as int;
    assert(t.route_at(map, n) && t.routes[map][n] == route);
    assert forall|m: Id, i: int| #[trigger]
        t.route_at(m, i) <==> s.route_at(m, i) || (m == map && i == n) by {}
    assert forall|m: Id, i: int| #[trigger] s.route_at(m, i) implies t.routes[m][i]
        == s.routes[m][i] by {}
    assert forall|id: Id| #[trigger] t.has_route(id) <==> s.has_route(id) || id == route.id by {
        if t.has_route(id) {
            let (m, i) = choose|m: Id, i: int| #[trigger]
                t.route_at(m, i) && t.routes[m][i].id == id;
            if s.route_at(m, i) {
                assert(s.routes[m][i].id == id);
            }
        }
        if s.has_route(id) {
            let (m, i) = choose|m: Id, i: int| #[trigger]
                s.route_at(m, i) && s.routes[m][i].id == id;
            assert(t.route_at(m, i));
        }
    }
    assert forall|m: Id, i: int, j: int| #[trigger]
        t.route_at(m, i) && #[trigger] t.route_at(m, j) && i != j implies t.routes[m][i].name
        != t.routes[m][j].name by {
        if s.route_at(m, i) && s.route_at(m, j) {
        } else if s.route_at(m, i) {
            assert(s.routes[m][i].name != route.name);
        } else {
            assert(s.route_at(m, j));
            assert(s.routes[m][j].name != route.name);
        }
    }
    assert forall|m1: Id, i1: int, m2: Id, i2: int| #[trigger]
        t.route_at(m1, i1) && #[trigger] t.route_at(m2, i2) && t.routes[m1][i1].id
            == t.routes[m2][i2].id implies m1 == m2 && i1 == i2 by {
        if s.route_at(m1, i1) && s.route_at(m2, i2) {
        } else if s.route_at(m1, i1) {
            assert(s.has_route(route.id));
        } else if s.route_at(m2, i2) {
            assert(s.has_route(route.id));
        }
    }
}

/// An empty list put under a key under which nothing stood adds no map.
proof fn lemma_empty_map_list(s: StoreView, t: StoreView, key: Id)
    requires
        t.maps == s.maps.insert(key, Seq::empty()),
        !s.maps.contains_key(key),
    ensures
        forall|id: Id| #[trigger] t.has_map(id) <==> s.has_map(id),
        s.map_names_distinct() ==> t.map_names_distinct(),
        s.map_ids_distinct() ==> t.map_ids_distinct(),
{
    assert forall|e: Id, i: int| #[trigger] t.map_at(e, i) <==> s.map_at(e, i) by {}
    assert forall|e: Id, i: int| #[trigger] s.map_at(e, i) implies t.maps[e][i]
        == s.maps[e][i] by {}
    assert forall|id: Id| #[trigger] t.has_map(id) <==> s.has_map(id) by {
        if t.has_map(id) {
            let (e, i) = choose|e: Id, i: int| #[trigger] t.map_at(e, i) && t.maps[e][i].id == id;
            assert(s.map_at(e, i));
        }
        if s.has_map(id) {
            let (e, i) = choose|e: Id, i: int| #[trigger] s.map_at(e, i) && s.maps[e][i].id == id;
            assert(t.map_at(e, i));
        }
    }
    if s.map_names_distinct() {
        assert forall|e: Id, i: int, j: int| #[trigger]
            t.map_at(e, i) && #[trigger] t.map_at(e, j) && i != j implies t.maps[e][i].map_name
            != t.maps[e][j].map_name by {
            assert(s.map_at(e, i) && s.map_at(e, j));
        }
    }
    if s.map_ids_distinct() {
        assert forall|e1: Id, i1: int, e2: Id, i2: int| #[trigger]
            t.map_at(e1, i1) && #[trigger] t.map_at(e2, i2) && t.maps[e1][i1].id
                == t.maps[e2][i2].id implies e1 == e2 && i1 == i2 by {
            assert(s.map_at(e1, i1) && s.map_at(e2, i2));
        }
    }
}

/// An empty list put under a key under which nothing stood adds no route.
proof fn lemma_empty_route_list(s: StoreView, t: StoreView, key: Id)
    requires
        t.routes == s.routes.insert(key, Seq::empty()),
        !s.routes.contains_key(key),
    ensures
        forall|id: Id| #[trigger] t.has_route(id) <==> s.has_route(id),
        s.route_names_distinct() ==> t.route_names_distinct(),
        s.route_ids_distinct() ==> t.route_ids_distinct(),
{
    assert forall|m: Id, i: int| #[trigger] t.route_at(m, i) <==> s.route_at(m, i) by {}
    assert forall|m: Id, i: int| #[trigger] s.route_at(m, i) implies t.routes[m][i]
        == s.routes[m][i] by {}
    assert forall|id: Id| #[trigger] t.has_route(id) <==> s.has_route(id) by {
        if t.has_route(id) {
            let (m, i) = choose|m: Id, i: int| #[trigger]
                t.route_at(m, i) && t.routes[m][i].id == id;
            assert(s.route_at(m, i));
        }
        if s.has_route(id) {
            let (m, i) = choose|m: Id, i: int| #[trigger]
                s.route_at(m, i) && s.routes[m][i].id == id;
            assert(t.route_at(m, i));
        }
    }
    if s.route_names_distinct() {
        assert forall|m: Id, i: int, j: int| #[trigger]
            t.route_at(m, i) && #[trigger] t.route_at(m, j) && i != j implies t.routes[m][i].name
            != t.routes[m][j].name by {
            assert(s.route_at(m, i) && s.route_at(m, j));
        }
    }
    if s.route_ids_distinct() {
        assert forall|m1: Id, i1: int, m2: Id, i2: int| #[trigger]
            t.route_at(m1, i1) && #[trigger] t.route_at(m2, i2) && t.routes[m1][i1].id
                == t.routes[m2][i2].id implies m1 == m2 && i1 == i2 by {
            assert(s.route_at(m1, i1) && s.route_at(m2, i2));
        }
    }
}

/// Creating an event keeps the rules, and puts one more identifier in use.
pub proof fn lemma_with_event(s: StoreView, event: EventView)
    requires
        s.wf(),
        s.event_outcome(event.name, event.id) is Ok,
    ensures
        s.with_event(event).wf(),
        forall|id: Id| #[trigger]
            s.with_event(event).has_event(id) <==> s.has_event(id) || id == event.id,
        forall|id: Id| #[trigger] s.with_event(event).has_map(id) <==> s.has_map(id),
        forall|id: Id| #[trigger] s.with_event(event).has_route(id) <==> s.has_route(id),
        forall|id: Id| #[trigger]
            s.with_event(event).in_use(id) <==> s.in_use(id) || id == event.id,
{
    let t = s.with_event(event);
    let n = s.events.len() as int;
    assert(t.events[n] == event);
    assert forall|id: Id| #[trigger] t.has_event(id) <==> s.has_event(id) || id == event.id by {
        if t.has_event(id) {
            let i = choose|i: int| 0 <= i < t.events.len() && (#[trigger] t.events[i]).id == id;
            if i < n {
                assert(s.events[i].id == id);
            }
        }
        if s.has_event(id) {
            let i = choose|i: int| 0 <= i < s.events.len() && (#[trigger] s.events[i]).id == id;
            assert(t.events[i].id == id);
        }
    }
    lemma_empty_map_list(s, t, event.id);
    lemma_same_routes(s, t);
    assert(t.events_distinct()) by {
        assert forall|i: int, j: int| 0 <= i < j < t.events.len() implies (
        #[trigger] t.events[i]).id != (#[trigger] t.events[j]).id && t.events[i].name
            != t.events[j].name by {
            if j < n {
                assert(t.events[i] == s.events[i] && t.events[j] == s.events[j]);
            } else {
                assert(t.events[i] == s.events[i]);
                assert(s.events[i].id != event.id);
                assert(s.events[i].name != event.name);
            }
        }
    }
}

/// Creating a map keeps the rules, and puts one more identifier in use.
pub proof fn lemma_with_map(s: StoreView, event: Id, map: MapView)
    requires
        s.wf(),
        s.map_outcome(event, map.map_name, map.id) is Ok,
    ensures
        s.with_map(event, map).wf(),
        forall|id: Id| #[trigger] s.with_map(event, map).has_event(id) <==> s.has_event(id),
        forall|id: Id| #[trigger]
            s.with_map(event, map).has_map(id) <==> s.has_map(id) || id == map.id,
        forall|id: Id| #[trigger] s.with_map(event, map).has_route(id) <==> s.has_route(id),
        forall|id: Id| #[trigger]
            s.with_map(event, map).in_use(id) <==> s.in_use(id) || id == map.id,
{
    let t = s.with_map(event, map);
    lemma_map_added(s, t, event, map);
    lemma_empty_route_list(s, t, map.id);
    assert forall|id: Id| #[trigger] t.has_event(id) <==> s.has_event(id) by {}
    assert(s.has_event(event));
    assert(t.lists_in_order()) by {
        assert forall|id: Id| #[trigger] t.scores.contains_key(id) implies is_leaderboard(
            t.scores[id],
        ) by {
            if id != map.id {
                assert(s.scores.contains_key(id));
            }
        }
    }
}

/// Creating a route keeps the rules, and puts one more identifier in use.
pub proof fn lemma_with_route(s: StoreView, map: Id, route: RouteView)
    requires
        s.wf(),
        s.route_outcome(map, route.name, route.id) is Ok,
    ensures
        s.with_route(map, route).wf(),
        forall|id: Id| #[trigger] s.with_route(map, route).has_event(id) <==> s.has_event(id),
        forall|id: Id| #[trigger] s.with_route(map, route).has_map(id) <==> s.has_map(id),
        forall|id: Id| #[trigger]
            s.with_route(map, route).has_route(id) <==> s.has_route(id) || id == route.id,
        forall|id: Id| #[trigger]
            s.with_route(map, route).in_use(id) <==> s.in_use(id) || id == route.id,
{
    let t = s.with_route(map, route);
    lemma_route_added(s, t, map, route);
    lemma_same_maps(s, t);
    assert forall|id: Id| #[trigger] t.has_event(id) <==> s.has_event(id) by {}
    assert(s.has_map(map));
    assert(t.lists_in_order()) by {
        assert forall|id: Id| #[trigger] t.scores.contains_key(id) implies is_leaderboard(
            t.scores[id],
        ) by {
            if id != route.id {
                assert(s.scores.contains_key(id));
            }
        }
    }
}

/// Putting a score list under an identifier keeps the rules.
pub proof fn lemma_with_score_list(s: StoreView, leaf: Id, list: Seq<ScoreView>)
    requires
        s.wf(),
        is_leaderboard(list),
    ensures
        s.with_score_list(leaf, list).wf(),
        forall|id: Id| #[trigger] s.with_score_list(leaf, list).has_event(id) <==> s.has_event(id),
        forall|id: Id| #[trigger] s.with_score_list(leaf, list).has_map(id) <==> s.has_map(id),
        forall|id: Id| #[trigger] s.with_score_list(leaf, list).has_route(id) <==> s.has_route(id),
        forall|id: Id| #[trigger]
            s.with_score_list(leaf, list).in_use(id) <==> s.in_use(id) || id == leaf,
{
    let t = s.with_score_list(leaf, list);
    lemma_same_maps(s, t);
    lemma_same_routes(s, t);
    assert forall|id: Id| #[trigger] t.has_event(id) <==> s.has_event(id) by {}
    assert(t.lists_in_order()) by {
        assert forall|id: Id| #[trigger] t.scores.contains_key(id) implies is_leaderboard(
            t.scores[id],
        ) by {
            if id != leaf {
                assert(s.scores.contains_key(id));
            }
        }
    }
}

/// Taking a submission keeps the rules, and puts no new identifier in use.
pub proof fn lemma_with_score(s: StoreView, leaf: Id, entry: ScoreView)
    requires
        s.wf(),
        s.has_leaf(leaf),
    ensures
        s.with_score(leaf, entry).wf(),
        is_leaderboard(s.scores_of(leaf)),
        forall|id: Id| #[trigger] s.with_score(leaf, entry).in_use(id) <==> s.in_use(id),
{
    assert(is_leaderboard(s.scores_of(leaf)));
    lemma_merged(s.scores_of(leaf), entry);
    lemma_with_score_list(s, leaf, merged(s.scores_of(leaf), entry));
}

} // verus!
