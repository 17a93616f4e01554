//! The four collections of the store, and the operations on them.
//!
//! A [`Collections`] value is the whole state of the store. The events stand
//! in a list; maps, routes and score lists stand in hash maps, each list
//! under the identifier of what owns it. Every operation takes the state from
//! one that keeps the rules of the store to another: the rules are an
//! invariant of the type.

use std::collections::HashMap;
use vstd::prelude::*;
use vstd::std_specs::hash::group_hash_axioms;
use vstd::std_specs::iter::IteratorSpec;
use crate::error::StoreError;
use crate::event::{copy_events, event_views, Event, EventDraft};
use crate::game_map::{copy_maps, map_views, GameMap, MapDraft, MapView};
use crate::ids::{is_random_uuid, lemma_random_uuid_exists, mint_id, Id, RANDOM_VERSION_AND_VARIANT};
use crate::model::{
    lemma_empty_is_wf, lemma_with_event, lemma_with_map, lemma_with_route, lemma_with_score,
    lemma_with_score_list, StoreView,
};
use crate::pairs::{keys_distinct, lemma_pairs_push, lemma_place, listed, pairs_map};
use crate::route::{copy_routes, route_views, MapRoute, RouteDraft, RouteView};
use crate::scores::{
    copy_entries, entry_views, improves, is_leaderboard, ScoreEntry, ScoreList, ScoreView,
};
use crate::snapshot::{
    lemma_sound_is_wf, saved_maps, saved_routes, saved_scores, shows, snapshot_sound, store_of,
    Snapshot,
};

verus! {

broadcast use group_hash_axioms;

/// What an answer with a list of maps says.
pub open spec fn maps_answer(answer: Result<Vec<GameMap>, StoreError>) -> Result<
    Seq<MapView>,
    StoreError,
> {
    match answer {
        Ok(list) => Ok(map_views(list@)),
        Err(e) => Err(e),
    }
}

/// What an answer with a list of routes says.
pub open spec fn routes_answer(answer: Result<Vec<MapRoute>, StoreError>) -> Result<
    Seq<RouteView>,
    StoreError,
> {
    match answer {
        Ok(list) => Ok(route_views(list@)),
        Err(e) => Err(e),
    }
}

/// What an answer with a score list says.
pub open spec fn scores_answer(answer: Result<Vec<ScoreEntry>, StoreError>) -> Result<
    Seq<ScoreView>,
    StoreError,
> {
    match answer {
        Ok(list) => Ok(entry_views(list@)),
        Err(e) => Err(e),
    }
}

/// What the lists of maps say, each under its identifier.
spec fn map_lists(lists: Map<Id, Vec<GameMap>>) -> Map<Id, Seq<MapView>> {
    lists.map_values(|list: Vec<GameMap>| map_views(list@))
}

/// What the lists of routes say, each under its identifier.
spec fn route_lists(lists: Map<Id, Vec<MapRoute>>) -> Map<Id, Seq<RouteView>> {
    lists.map_values(|list: Vec<MapRoute>| route_views(list@))
}

/// What the score lists say, each under its identifier.
spec fn score_lists(lists: Map<Id, ScoreList>) -> Map<Id, Seq<ScoreView>> {
    lists.map_values(|list: ScoreList| list@)
}

/// The state of the store.
pub struct Collections {
    events: Vec<Event>,
    maps: HashMap<Id, Vec<GameMap>>,
    routes: HashMap<Id, Vec<MapRoute>>,
    scores: HashMap<Id, ScoreList>,
}

impl View for Collections {
    type V = StoreView;

    closed spec fn view(&self) -> StoreView {
        StoreView {
            events: event_views(self.events@),
            maps: map_lists(self.maps@),
            routes: route_lists(self.routes@),
            scores: score_lists(self.scores@),
        }
    }
}

/// Whether one of `events` has the identifier `id`.
fn event_listed(events: &Vec<Event>, id: Id) -> (found: bool)
    ensures
        found <==> exists|i: int| 0 <= i < events.len() && (#[trigger] events[i]).id == id,
{
    let mut i: usize = 0;
    while i < events.len()
        invariant
            i <= events.len(),
            forall|j: int| 0 <= j < i ==> (#[trigger] events[j]).id != id,
        decreases events.len() - i,
    {
        if events[i].id == id {
            return true;
        }
        i += 1;
    }
    false
}

/// Whether one of `events` has the name `name`.
fn event_name_taken(events: &Vec<Event>, name: &String) -> (taken: bool)
    ensures
        taken <==> exists|i: int| 0 <= i < events.len() && (#[trigger] events[i]).name@ == name@,
{
    let mut i: usize = 0;
    while i < events.len()
        invariant
            i <= events.len(),
            forall|j: int| 0 <= j < i ==> (#[trigger] events[j]).name@ != name@,
        decreases events.len() - i,
    {
        if events[i].name == *name {
            return true;
        }
        i += 1;
    }
    false
}

/// Whether one of `maps` has the name `name`.
fn map_name_taken(maps: &Vec<GameMap>, name: &String) -> (taken: bool)
    ensures
        taken <==> exists|i: int| 0 <= i < maps.len() && (#[trigger] maps[i]).map_name@ == name@,
{
    let mut i: usize = 0;
    while i < maps.len()
        invariant
            i <= maps.len(),
            forall|j: int| 0 <= j < i ==> (#[trigger] maps[j]).map_name@ != name@,
        decreases maps.len() - i,
    {
        if maps[i].map_name == *name {
            return true;
        }
        i += 1;
    }
    false
}

/// Whether one of `routes` has the name `name`.
fn route_name_taken(routes: &Vec<MapRoute>, name: &String) -> (taken: bool)
    ensures
        taken <==> exists|i: int| 0 <= i < routes.len() && (#[trigger] routes[i]).name@ == name@,
{
    let mut i: usize = 0;
    while i < routes.len()
        invariant
            i <= routes.len(),
            forall|j: int| 0 <= j < i ==> (#[trigger] routes[j]).name@ != name@,
        decreases routes.len() - i,
    {
        if routes[i].name == *name {
            return true;
        }
        i += 1;
    }
    false
}

/// Whether one of `maps` has the identifier `id`.
fn map_id_listed(maps: &Vec<GameMap>, id: Id) -> (found: bool)
    ensures
        found <==> exists|i: int| 0 <= i < maps.len() && (#[trigger] maps[i]).id == id,
{
    let mut i: usize = 0;
    while i < maps.len()
        invariant
            i <= maps.len(),
            forall|j: int| 0 <= j < i ==> (#[trigger] maps[j]).id != id,
        decreases maps.len() - i,
    {
        if maps[i].id == id {
            return true;
        }
        i += 1;
    }
    false
}

/// Whether one of `routes` has the identifier `id`.
fn route_id_listed(routes: &Vec<MapRoute>, id: Id) -> (found: bool)
    ensures
        found <==> exists|i: int| 0 <= i < routes.len() && (#[trigger] routes[i]).id == id,
{
    let mut i: usize = 0;
    while i < routes.len()
        invariant
            i <= routes.len(),
            forall|j: int| 0 <= j < i ==> (#[trigger] routes[j]).id != id,
        decreases routes.len() - i,
    {
        if routes[i].id == id {
            return true;
        }
        i += 1;
    }
    false
}

/// The keys of a hash map, each once, in the order in which the map is
/// walked.
fn keys_of<V>(lists: &HashMap<Id, V>) -> (keys: Vec<Id>)
    ensures
        keys@.no_duplicates(),
        forall|key: Id| keys@.contains(key) <==> lists@.contains_key(key),
{
    let mut keys: Vec<Id> = Vec::new();
    let ghost all = lists.keys().remaining();
    assert(all.unref().to_set() == lists@.dom());
    assert(all.no_duplicates());
    for key in walk: lists.keys()
        invariant
            walk.seq() == all,
            keys.len() == walk.index(),
            forall|j: int| 0 <= j < keys.len() ==> keys[j] == *all[j],
    {
        keys.push(*key);
    }
    assert(keys@ =~= all.unref());
    assert forall|key: Id| keys@.contains(key) <==> lists@.contains_key(key) by {
        assert(all.unref().to_set().contains(key) <==> lists@.dom().contains(key));
    }
    assert forall|i: int, j: int|
        0 <= i < keys.len() && 0 <= j < keys.len() && i != j implies keys[i] != keys[j] by {
        assert(all[i] != all[j]);
    }
    keys
}

/// The list that is under `key`, or an empty one.
spec fn under<V>(lists: Map<Id, Seq<V>>, key: Id) -> Seq<V> {
    if lists.contains_key(key) {
        lists[key]
    } else {
        Seq::empty()
    }
}

/// Puts `map` behind the maps under `event`.
fn put_map(lists: &mut HashMap<Id, Vec<GameMap>>, event: Id, map: GameMap)
    ensures
        map_lists(final(lists)@) == map_lists(old(lists)@).insert(
            event,
            under(map_lists(old(lists)@), event).push(map@),
        ),
{
    let ghost before = map_lists(lists@);
    let mut list = match lists.remove(&event) {
        Some(list) => list,
        None => Vec::new(),
    };
    assert(map_views(list@) =~= under(before, event));
    list.push(map);
    assert(map_views(list@) =~= under(before, event).push(map@));
    lists.insert(event, list);
    assert(map_lists(lists@) =~= before.insert(event, under(before, event).push(map@)));
}

/// Puts `route` behind the routes under `map`.
fn put_route(lists: &mut HashMap<Id, Vec<MapRoute>>, map: Id, route: MapRoute)
    ensures
        route_lists(final(lists)@) == route_lists(old(lists)@).insert(
            map,
            under(route_lists(old(lists)@), map).push(route@),
        ),
{
    let ghost before = route_lists(lists@);
    let mut list = match lists.remove(&map) {
        Some(list) => list,
        None => Vec::new(),
    };
    assert(route_views(list@) =~= under(before, map));
    list.push(route);
    assert(route_views(list@) =~= under(before, map).push(route@));
    lists.insert(map, list);
    assert(route_lists(lists@) =~= before.insert(map, under(before, map).push(route@)));
}

/// Puts an empty list of maps under `key`.
fn put_empty_maps(lists: &mut HashMap<Id, Vec<GameMap>>, key: Id)
    ensures
        map_lists(final(lists)@) == map_lists(old(lists)@).insert(key, Seq::empty()),
{
    let ghost before = map_lists(lists@);
    let list: Vec<GameMap> = Vec::new();
    assert(map_views(list@) =~= Seq::empty());
    lists.insert(key, list);
    assert(map_lists(lists@) =~= before.insert(key, Seq::empty()));
}

/// Puts an empty list of routes under `key`.
fn put_empty_routes(lists: &mut HashMap<Id, Vec<MapRoute>>, key: Id)
    ensures
        route_lists(final(lists)@) == route_lists(old(lists)@).insert(key, Seq::empty()),
{
    let ghost before = route_lists(lists@);
    let list: Vec<MapRoute> = Vec::new();
    assert(route_views(list@) =~= Seq::empty());
    lists.insert(key, list);
    assert(route_lists(lists@) =~= before.insert(key, Seq::empty()));
}

/// Puts `list` under `leaf`, in the place of what stood there.
fn put_scores(lists: &mut HashMap<Id, ScoreList>, leaf: Id, list: ScoreList)
    ensures
        score_lists(final(lists)@) == score_lists(old(lists)@).insert(leaf, list@),
{
    let ghost before = score_lists(lists@);
    lists.insert(leaf, list);
    assert(score_lists(lists@) =~= before.insert(leaf, list@));
}

/// The hash map that the lists of maps of a snapshot stand for.
fn build_maps(lists: &Vec<(Id, Vec<GameMap>)>) -> (built: HashMap<Id, Vec<GameMap>>)
    requires
        keys_distinct(saved_maps(lists@)),
    ensures
        map_lists(built@) == pairs_map(saved_maps(lists@)),
{
    let ghost saved = saved_maps(lists@);
    let mut built: HashMap<Id, Vec<GameMap>> = HashMap::new();
    let mut i: usize = 0;
    proof {
        assert(saved.take(0) =~= Seq::empty());
        assert(map_lists(built@) =~= pairs_map(saved.take(0)));
    }
    while i < lists.len()
        invariant
            i <= lists.len(),
            saved == saved_maps(lists@),
            keys_distinct(saved),
            map_lists(built@) == pairs_map(saved.take(i as int)),
        decreases lists.len() - i,
    {
        let ghost before = map_lists(built@);
        let copy = copy_maps(&lists[i].1);
        built.insert(lists[i].0, copy);
        proof {
            let front = saved.take(i as int);
            assert(saved[i as int] == (lists[i as int].0, map_views(lists[i as int].1@)));
            assert(saved.take(i + 1) =~= front.push(saved[i as int]));
            assert(keys_distinct(front)) by {
                assert forall|a: int, b: int| 0 <= a < b < front.len() implies (
                #[trigger] front[a]).0 != (#[trigger] front[b]).0 by {
                    assert(saved[a].0 != saved[b].0);
                }
            }
            assert(!listed(front, saved[i as int].0)) by {
                if listed(front, saved[i as int].0) {
                    let a = crate::pairs::place(front, saved[i as int].0);
                    assert(saved[a].0 != saved[i as int].0);
                }
            }
            lemma_pairs_push(front, saved[i as int].0, saved[i as int].1);
            assert(map_lists(built@) =~= before.insert(saved[i as int].0, saved[i as int].1));
        }
        i += 1;
    }
    assert(saved.take(i as int) =~= saved);
    built
}

/// The hash map that the lists of routes of a snapshot stand for.
fn build_routes(lists: &Vec<(Id, Vec<MapRoute>)>) -> (built: HashMap<Id, Vec<MapRoute>>)
    requires
        keys_distinct(saved_routes(lists@)),
    ensures
        route_lists(built@) == pairs_map(saved_routes(lists@)),
{
    let ghost saved = saved_routes(lists@);
    let mut built: HashMap<Id, Vec<MapRoute>> = HashMap::new();
    let mut i: usize = 0;
    proof {
        assert(saved.take(0) =~= Seq::empty());
        assert(route_lists(built@) =~= pairs_map(saved.take(0)));
    }
    while i < lists.len()
        invariant
            i <= lists.len(),
            saved == saved_routes(lists@),
            keys_distinct(saved),
            route_lists(built@) == pairs_map(saved.take(i as int)),
        decreases lists.len() - i,
    {
        let ghost before = route_lists(built@);
        let copy = copy_routes(&lists[i].1);
        built.insert(lists[i].0, copy);
        proof {
            let front = saved.take(i as int);
            assert(saved[i as int] == (lists[i as int].0, route_views(lists[i as int].1@)));
            assert(saved.take(i + 1) =~= front.push(saved[i as int]));
            assert(keys_distinct(front)) by {
                assert forall|a: int, b: int| 0 <= a < b < front.len() implies (
                #[trigger] front[a]).0 != (#[trigger] front[b]).0 by {
                    assert(saved[a].0 != saved[b].0);
                }
            }
            assert(!listed(front, saved[i as int].0)) by {
                if listed(front, saved[i as int].0) {
                    let a = crate::pairs::place(front, saved[i as int].0);
                    assert(saved[a].0 != saved[i as int].0);
                }
            }
            lemma_pairs_push(front, saved[i as int].0, saved[i as int].1);
            assert(route_lists(built@) =~= before.insert(saved[i as int].0, saved[i as int].1));
        }
        i += 1;
    }
    assert(saved.take(i as int) =~= saved);
    built
}

/// The hash map that the score lists of a snapshot stand for.
fn build_scores(lists: &Vec<(Id, Vec<ScoreEntry>)>) -> (built: HashMap<Id, ScoreList>)
    requires
        keys_distinct(saved_scores(lists@)),
        forall|i: int|
            0 <= i < lists.len() ==> is_leaderboard(entry_views((#[trigger] lists[i]).1@)),
    ensures
        score_lists(built@) == pairs_map(saved_scores(lists@)),
{
    let ghost saved = saved_scores(lists@);
    let mut built: HashMap<Id, ScoreList> = HashMap::new();
    let mut i: usize = 0;
    proof {
        assert(saved.take(0) =~= Seq::empty());
        assert(score_lists(built@) =~= pairs_map(saved.take(0)));
    }
    while i < lists.len()
        invariant
            i <= lists.len(),
            saved == saved_scores(lists@),
            keys_distinct(saved),
            forall|j: int|
                0 <= j < lists.len() ==> is_leaderboard(entry_views((#[trigger] lists[j]).1@)),
            score_lists(built@) == pairs_map(saved.take(i as int)),
        decreases lists.len() - i,
    {
        let ghost before = score_lists(built@);
        let list = match ScoreList::from_entries(copy_entries(&lists[i].1)) {
            Some(list) => list,
            None => ScoreList::new(),
        };
        built.insert(lists[i].0, list);
        proof {
            let front = saved.take(i as int);
            assert(saved[i as int] == (lists[i as int].0, entry_views(lists[i as int].1@)));
            assert(saved.take(i + 1) =~= front.push(saved[i as int]));
            assert(keys_distinct(front)) by {
                assert forall|a: int, b: int| 0 <= a < b < front.len() implies (
                #[trigger] front[a]).0 != (#[trigger] front[b]).0 by {
                    assert(saved[a].0 != saved[b].0);
                }
            }
            assert(!listed(front, saved[i as int].0)) by {
                if listed(front, saved[i as int].0) {
                    let a = crate::pairs::place(front, saved[i as int].0);
                    assert(saved[a].0 != saved[i as int].0);
                }
            }
            lemma_pairs_push(front, saved[i as int].0, saved[i as int].1);
            assert(score_lists(built@) =~= before.insert(saved[i as int].0, saved[i as int].1));
        }
        i += 1;
    }
    assert(saved.take(i as int) =~= saved);
    built
}

impl Collections {
    /// The state keeps the rules of the store.
    #[verifier::type_invariant]
    pub open spec fn inv(&self) -> bool {
        self@.wf()
    }

    /// The state that holds nothing.
    pub fn new() -> (state: Collections)
        ensures
            state@ == StoreView::empty(),
            state.inv(),
    {
        let events: Vec<Event> = Vec::new();
        let maps: HashMap<Id, Vec<GameMap>> = HashMap::new();
        let routes: HashMap<Id, Vec<MapRoute>> = HashMap::new();
        let scores: HashMap<Id, ScoreList> = HashMap::new();
        proof {
            lemma_empty_is_wf();
            assert(event_views(events@) =~= Seq::empty());
            assert(map_lists(maps@) =~= Map::empty());
            assert(route_lists(routes@) =~= Map::empty());
            assert(score_lists(scores@) =~= Map::empty());
        }
        Collections { events, maps, routes, scores }
    }

    /// The state that the four parts of a sound snapshot stand for.
    pub(crate) fn from_sound(snapshot: Snapshot) -> (state: Collections)
        requires
            snapshot_sound(snapshot@),
        ensures
            state@ == store_of(snapshot@),
            state.inv(),
    {
        let ghost shown = snapshot@;
        proof {
            lemma_sound_is_wf(shown);
            assert forall|i: int| 0 <= i < snapshot.scores.len() implies is_leaderboard(
                entry_views((#[trigger] snapshot.scores[i]).1@),
            ) by {
                assert(shown.scores[i].1 == entry_views(snapshot.scores[i].1@));
            }
        }
        let maps = build_maps(&snapshot.maps);
        let routes = build_routes(&snapshot.routes);
        let scores = build_scores(&snapshot.scores);
        Collections { events: snapshot.events, maps, routes, scores }
    }

    /// Whether an event has the identifier `id`.
    pub fn holds_event(&self, id: Id) -> (found: bool)
        ensures
            found == self@.has_event(id),
    {
        let found = event_listed(&self.events, id);
        proof {
            let s = self@;
            if found {
                let i = choose|i: int|
                    0 <= i < self.events.len() && (#[trigger] self.events[i]).id == id;
                assert(s.events[i].id == id);
            }
            if s.has_event(id) {
                let i = choose|i: int| 0 <= i < s.events.len() && (#[trigger] s.events[i]).id == id;
                assert(self.events[i].id == id);
            }
        }
        found
    }

    /// Whether a map has the identifier `id`.
    pub fn holds_map(&self, id: Id) -> (found: bool)
        ensures
            found == self@.has_map(id),
    {
        let ghost s = self@;
        let keys = keys_of(&self.maps);
        let mut i: usize = 0;
        while i < keys.len()
            invariant
                i <= keys.len(),
                s == self@,
                forall|key: Id| keys@.contains(key) <==> self.maps@.contains_key(key),
                forall|x: int, a: int|
                    0 <= x < i && #[trigger] s.map_at(keys[x], a) ==> s.maps[keys[x]][a].id != id,
            decreases keys.len() - i,
        {
            assert(keys@.contains(keys[i as int]));
            match self.maps.get(&keys[i]) {
                Some(list) => {
                    assert(s.maps[keys[i as int]] == map_views(list@));
                    if map_id_listed(list, id) {
                        proof {
                            let a = choose|a: int|
                                0 <= a < list.len() && (#[trigger] list[a]).id == id;
                            assert(s.map_at(keys[i as int], a) && s.maps[keys[i as int]][a].id
                                == id);
                        }
                        return true;
                    }
                    assert forall|a: int| #[trigger] s.map_at(keys[i as int], a) implies s.maps[keys[i as int]][a].id
                        != id by {
                        assert(list[a].id != id);
                    }
                },
                None => {},
            }
            i += 1;
        }
        proof {
            if s.has_map(id) {
                let (e, a) = choose|e: Id, a: int| #[trigger]
                    s.map_at(e, a) && s.maps[e][a].id == id;
                assert(keys@.contains(e));
                let x = choose|x: int| 0 <= x < keys.len() && keys[x] == e;
                assert(s.map_at(keys[x], a));
            }
        }
        false
    }

    /// Whether a route has the identifier `id`.
    pub fn holds_route(&self, id: Id) -> (found: bool)
        ensures
            found == self@.has_route(id),
    {
        let ghost s = self@;
        let keys = keys_of(&self.routes);
        let mut i: usize = 0;
        while i < keys.len()
            invariant
                i <= keys.len(),
                s == self@,
                forall|key: Id| keys@.contains(key) <==> self.routes@.contains_key(key),
                forall|x: int, a: int|
                    0 <= x < i && #[trigger] s.route_at(keys[x], a) ==> s.routes[keys[x]][a].id
                        != id,
            decreases keys.len() - i,
        {
            assert(keys@.contains(keys[i as int]));
            match self.routes.get(&keys[i]) {
                Some(list) => {
                    assert(s.routes[keys[i as int]] == route_views(list@));
                    if route_id_listed(list, id) {
                        proof {
                            let a = choose|a: int|
                                0 <= a < list.len() && (#[trigger] list[a]).id == id;
                            assert(s.route_at(keys[i as int], a) && s.routes[keys[i as int]][a].id
                                == id);
                        }
                        return true;
                    }
                    assert forall|a: int| #[trigger] s.route_at(keys[i as int], a) implies s.routes[keys[i as int]][a].id
                        != id by {
                        assert(list[a].id != id);
                    }
                },
                None => {},
            }
            i += 1;
        }
        proof {
            if s.has_route(id) {
                let (m, a) = choose|m: Id, a: int| #[trigger]
                    s.route_at(m, a) && s.routes[m][a].id == id;
                assert(keys@.contains(m));
                let x = choose|x: int| 0 <= x < keys.len() && keys[x] == m;
                assert(s.route_at(keys[x], a));
            }
        }
        false
    }

    /// Whether `id` names a map or a route.
    pub fn holds_leaf(&self, id: Id) -> (found: bool)
        ensures
            found == self@.has_leaf(id),
    {
        self.holds_map(id) || self.holds_route(id)
    }

    /// Whether `id` names an event, a map or a route, or has a list standing
    /// under it.
    pub fn id_in_use(&self, id: Id) -> (used: bool)
        ensures
            used == self@.in_use(id),
    {
        self.maps.contains_key(&id) || self.routes.contains_key(&id) || self.scores.contains_key(
            &id,
        ) || self.holds_event(id) || self.holds_map(id) || self.holds_route(id)
    }

    /// A copy of the events, oldest first.
    pub fn list_events(&self) -> (copy: Vec<Event>)
        ensures
            event_views(copy@) == self@.events,
    {
        copy_events(&self.events)
    }

    /// A copy of the maps of the event `event`, oldest first.
    pub fn list_maps(&self, event: Id) -> (found: Result<Vec<GameMap>, StoreError>)
        ensures
            maps_answer(found) == self@.listed_maps(event),
    {
        if !self.holds_event(event) {
            return Err(StoreError::ParentNotFound);
        }
        match self.maps.get(&event) {
            Some(list) => Ok(copy_maps(list)),
            None => {
                let none: Vec<GameMap> = Vec::new();
                assert(map_views(none@) =~= Seq::empty());
                Ok(none)
            },
        }
    }

    /// A copy of the routes of the map `map`, oldest first.
    pub fn list_routes(&self, map: Id) -> (found: Result<Vec<MapRoute>, StoreError>)
        ensures
            routes_answer(found) == self@.listed_routes(map),
    {
        if !self.holds_map(map) {
            return Err(StoreError::ParentNotFound);
        }
        match self.routes.get(&map) {
            Some(list) => Ok(copy_routes(list)),
            None => {
                let none: Vec<MapRoute> = Vec::new();
                assert(route_views(none@) =~= Seq::empty());
                Ok(none)
            },
        }
    }

    /// A copy of the score list of the map or route `leaf`, best time first.
    pub fn list_scores(&self, leaf: Id) -> (found: Result<Vec<ScoreEntry>, StoreError>)
        ensures
            scores_answer(found) == self@.listed_scores(leaf),
    {
        if !self.holds_leaf(leaf) {
            return Err(StoreError::ParentNotFound);
        }
        match self.scores.get(&leaf) {
            Some(list) => Ok(list.entries()),
            None => {
                let none: Vec<ScoreEntry> = Vec::new();
                assert(entry_views(none@) =~= Seq::empty());
                Ok(none)
            },
        }
    }

    /// A copy of everything the store holds: the events in their order, and
    /// every list once, under its identifier.
    pub fn snapshot(&self) -> (snap: Snapshot)
        ensures
            shows(snap@, self@),
            snapshot_sound(snap@),
    {
        proof {
            use_type_invariant(self);
        }
        let ghost s = self@;
        let events = copy_events(&self.events);
        let map_keys = keys_of(&self.maps);
        let mut maps: Vec<(Id, Vec<GameMap>)> = Vec::new();
        let mut i: usize = 0;
        while i < map_keys.len()
            invariant
                i <= map_keys.len(),
                s == self@,
                forall|key: Id| map_keys@.contains(key) <==> self.maps@.contains_key(key),
                maps.len() == i,
                forall|j: int|
                    0 <= j < i ==> (#[trigger] maps[j]).0 == map_keys[j] && map_views(maps[j].1@)
                        == s.maps[map_keys[j]],
            decreases map_keys.len() - i,
        {
            assert(map_keys@.contains(map_keys[i as int]));
            let copy = match self.maps.get(&map_keys[i]) {
                Some(list) => copy_maps(list),
                None => Vec::new(),
            };
            maps.push((map_keys[i], copy));
            i += 1;
        }
        let route_keys = keys_of(&self.routes);
        let mut routes: Vec<(Id, Vec<MapRoute>)> = Vec::new();
        let mut i: usize = 0;
        while i < route_keys.len()
            invariant
                i <= route_keys.len(),
                s == self@,
                forall|key: Id| route_keys@.contains(key) <==> self.routes@.contains_key(key),
                routes.len() == i,
                forall|j: int|
                    0 <= j < i ==> (#[trigger] routes[j]).0 == route_keys[j] && route_views(
                        routes[j].1@,
                    ) == s.routes[route_keys[j]],
            decreases route_keys.len() - i,
        {
            assert(route_keys@.contains(route_keys[i as int]));
            let copy = match self.routes.get(&route_keys[i]) {
                Some(list) => copy_routes(list),
                None => Vec::new(),
            };
            routes.push((route_keys[i], copy));
            i += 1;
        }
        let score_keys = keys_of(&self.scores);
        let mut scores: Vec<(Id, Vec<ScoreEntry>)> = Vec::new();
        let mut i: usize = 0;
        while i < score_keys.len()
            invariant
                i <= score_keys.len(),
                s == self@,
                forall|key: Id| score_keys@.contains(key) <==> self.scores@.contains_key(key),
                scores.len() == i,
                forall|j: int|
                    0 <= j < i ==> (#[trigger] scores[j]).0 == score_keys[j] && entry_views(
                        scores[j].1@,
                    ) == s.scores[score_keys[j]],
            decreases score_keys.len() - i,
        {
            assert(score_keys@.contains(score_keys[i as int]));
            let copy = match self.scores.get(&score_keys[i]) {
                Some(list) => list.entries(),
                None => Vec::new(),
            };
            scores.push((score_keys[i], copy));
            i += 1;
        }
        let snap = Snapshot { events, maps, routes, scores };
        proof {
            let shown = snap@;
            lemma_walk_shows(shown.maps, map_keys@, s.maps);
            lemma_walk_shows(shown.routes, route_keys@, s.routes);
            lemma_walk_shows(shown.scores, score_keys@, s.scores);
            assert(store_of(shown) == s);
            lemma_sound_is_wf(shown);
        }
        snap
    }

    /// Creates the event that `draft` describes under the identifier `id`.
    ///
    /// This is what [`create_event`](Self::create_event) does once it has
    /// drawn an identifier. The request is turned down if an event of that
    /// name exists, or if `id` is in use. Otherwise the event is added behind
    /// the others, with no maps.
    pub fn create_event_with_id(&mut self, draft: EventDraft, id: Id) -> (outcome: Result<
        Id,
        StoreError,
    >)
        ensures
            final(self).inv(),
            outcome == old(self)@.event_outcome(draft.name@, id),
            final(self)@ == old(self)@.after_event_request(draft.recorded(id)),
    {
        proof {
            use_type_invariant(&*self);
        }
        if self.event_refusal(&draft.name).is_some() {
            return Err(StoreError::AlreadyExists);
        }
        if self.id_in_use(id) {
            return Err(StoreError::IdentifierInUse);
        }
        let ghost before = self@;
        let ghost added = draft.recorded(id);
        let mut state = Collections::new();
        core::mem::swap(self, &mut state);
        let mut events = state.events;
        let mut maps = state.maps;
        let routes = state.routes;
        let scores = state.scores;
        events.push(draft.record(id));
        put_empty_maps(&mut maps, id);
        proof {
            lemma_with_event(before, added);
            assert(event_views(events@) =~= before.events.push(added));
        }
        *self = Collections { events, maps, routes, scores };
        Ok(id)
    }

    /// Why a request to create an event of the name `name` is turned down
    /// whatever identifier is drawn, if it is.
    fn event_refusal(&self, name: &String) -> (refusal: Option<StoreError>)
        ensures
            refusal == (if self@.has_event_named(name@) {
                Some(StoreError::AlreadyExists)
            } else {
                None
            }),
    {
        let taken = event_name_taken(&self.events, name);
        proof {
            let s = self@;
            if taken {
                let i = choose|i: int|
                    0 <= i < self.events.len() && (#[trigger] self.events[i]).name@ == name@;
                assert(s.events[i].name == name@);
            }
            if s.has_event_named(name@) {
                let i = choose|i: int|
                    0 <= i < s.events.len() && (#[trigger] s.events[i]).name == name@;
                assert(self.events[i].name@ == name@);
            }
        }
        if taken {
            Some(StoreError::AlreadyExists)
        } else {
            None
        }
    }

    /// Why a request to create a map of the name `name` under `event` is
    /// turned down whatever identifier is drawn, if it is.
    fn map_refusal(&self, event: Id, name: &String) -> (refusal: Option<StoreError>)
        ensures
            refusal == (if !self@.has_event(event) {
                Some(StoreError::ParentNotFound)
            } else if self@.has_map_named(event, name@) {
                Some(StoreError::AlreadyExists)
            } else {
                None
            }),
    {
        if !self.holds_event(event) {
            return Some(StoreError::ParentNotFound);
        }
        let taken = match self.maps.get(&event) {
            Some(list) => {
                let taken = map_name_taken(list, name);
                proof {
                    let s = self@;
                    assert(s.maps[event] == map_views(list@));
                    if taken {
                        let a = choose|a: int|
                            0 <= a < list.len() && (#[trigger] list[a]).map_name@ == name@;
                        assert(s.map_at(event, a) && s.maps[event][a].map_name == name@);
                    }
                    if s.has_map_named(event, name@) {
                        let a = choose|a: int| #[trigger]
                            s.map_at(event, a) && s.maps[event][a].map_name == name@;
                        assert(list[a].map_name@ == name@);
                    }
                }
                taken
            },
            None => {
                proof {
                    let s = self@;
                    if s.has_map_named(event, name@) {
                        let a = choose|a: int| #[trigger]
                            s.map_at(event, a) && s.maps[event][a].map_name == name@;
                        assert(s.map_at(event, a));
                    }
                }
                false
            },
        };
        if taken {
            Some(StoreError::AlreadyExists)
        } else {
            None
        }
    }

    /// Why a request to create a route of the name `name` under `map` is
    /// turned down whatever identifier is drawn, if it is.
    fn route_refusal(&self, map: Id, name: &String) -> (refusal: Option<StoreError>)
        ensures
            refusal == (if !self@.has_map(map) {
                Some(StoreError::ParentNotFound)
            } else if self@.has_route_named(map, name@) {
                Some(StoreError::AlreadyExists)
            } else {
                None
            }),
    {
        if !self.holds_map(map) {
            return Some(StoreError::ParentNotFound);
        }
        let taken = match self.routes.get(&map) {
            Some(list) => {
                let taken = route_name_taken(list, name);
                proof {
                    let s = self@;
                    assert(s.routes[map] == route_views(list@));
                    if taken {
                        let a = choose|a: int|
                            0 <= a < list.len() && (#[trigger] list[a]).name@ == name@;
                        assert(s.route_at(map, a) && s.routes[map][a].name == name@);
                    }
                    if s.has_route_named(map, name@) {
                        let a = choose|a: int| #[trigger]
                            s.route_at(map, a) && s.routes[map][a].name == name@;
                        assert(list[a].name@ == name@);
                    }
                }
                taken
            },
            None => {
                proof {
                    let s = self@;
                    if s.has_route_named(map, name@) {
                        let a = choose|a: int| #[trigger]
                            s.route_at(map, a) && s.routes[map][a].name == name@;
                        assert(s.route_at(map, a));
                    }
                }
                false
            },
        };
        if taken {
            Some(StoreError::AlreadyExists)
        } else {
            None
        }
    }

    /// Creates the map that `draft` describes under the event `event`, with
    /// the identifier `id`.
    ///
    /// This is what [`create_map`](Self::create_map) does once it has drawn
    /// an identifier. The request is turned down if there is no such event,
    /// if a map of that name stands under the event, or if `id` is in use.
    /// Otherwise the map is added behind the event's other maps, with no
    /// routes and an empty score list.
    pub fn create_map_with_id(&mut self, event: Id, draft: MapDraft, id: Id) -> (outcome: Result<
        Id,
        StoreError,
    >)
        ensures
            final(self).inv(),
            outcome == old(self)@.map_outcome(event, draft.map_name@, id),
            final(self)@ == old(self)@.after_map_request(event, draft.recorded(id)),
    {
        proof {
            use_type_invariant(&*self);
        }
        if let Some(refusal) = self.map_refusal(event, &draft.map_name) {
            return Err(refusal);
        }
        if self.id_in_use(id) {
            return Err(StoreError::IdentifierInUse);
        }
        let ghost before = self@;
        let ghost added = draft.recorded(id);
        let mut state = Collections::new();
        core::mem::swap(self, &mut state);
        let events = state.events;
        let mut maps = state.maps;
        let mut routes = state.routes;
        let mut scores = state.scores;
        put_map(&mut maps, event, draft.record(id));
        put_empty_routes(&mut routes, id);
        put_scores(&mut scores, id, ScoreList::new());
        proof {
            lemma_with_map(before, event, added);
            assert(map_lists(maps@) == before.with_map(event, added).maps);
        }
        *self = Collections { events, maps, routes, scores };
        Ok(id)
    }

    /// Creates the route that `draft` describes under the map `map`, with the
    /// identifier `id`.
    ///
    /// This is what [`create_route`](Self::create_route) does once it has
    /// drawn an identifier. The request is turned down if the store does not
    /// know the map, if a route of that name stands under the map, or if `id`
    /// is in use. Otherwise the route is added behind the map's other routes,
    /// with an empty score list.
    pub fn create_route_with_id(&mut self, map: Id, draft: RouteDraft, id: Id) -> (outcome: Result<
        Id,
        StoreError,
    >)
        ensures
            final(self).inv(),
            outcome == old(self)@.route_outcome(map, draft.name@, id),
            final(self)@ == old(self)@.after_route_request(map, draft.recorded(id)),
    {
        proof {
            use_type_invariant(&*self);
        }
        if let Some(refusal) = self.route_refusal(map, &draft.name) {
            return Err(refusal);
        }
        if self.id_in_use(id) {
            return Err(StoreError::IdentifierInUse);
        }
        let ghost before = self@;
        let ghost added = draft.recorded(id);
        let mut state = Collections::new();
        core::mem::swap(self, &mut state);
        let events = state.events;
        let maps = state.maps;
        let mut routes = state.routes;
        let mut scores = state.scores;
        put_route(&mut routes, map, draft.record(id));
        put_scores(&mut scores, id, ScoreList::new());
        proof {
            lemma_with_route(before, map, added);
            assert(route_lists(routes@) == before.with_route(map, added).routes);
        }
        *self = Collections { events, maps, routes, scores };
        Ok(id)
    }

    /// Submits a time to the score list of the map or route `leaf`.
    ///
    /// The request is turned down if `leaf` names no map and no route, or if
    /// the player already holds a time that is as short or shorter. Otherwise
    /// the list takes the entry.
    pub fn submit_score(&mut self, leaf: Id, entry: ScoreEntry) -> (outcome: Result<
        (),
        StoreError,
    >)
        ensures
            final(self).inv(),
            outcome == old(self)@.score_outcome(leaf, entry@),
            final(self)@ == old(self)@.after_submission(leaf, entry@),
    {
        proof {
            use_type_invariant(&*self);
        }
        if !self.holds_leaf(leaf) {
            return Err(StoreError::ParentNotFound);
        }
        if let Some(list) = self.scores.get(&leaf) {
            if !list.accepts(&entry) {
                return Err(StoreError::NotImproved);
            }
        }
        let ghost before = self@;
        let ghost added = entry@;
        proof {
            lemma_with_score(before, leaf, added);
            assert(improves(before.scores_of(leaf), added));
        }
        let mut state = Collections::new();
        core::mem::swap(self, &mut state);
        let events = state.events;
        let maps = state.maps;
        let routes = state.routes;
        let mut scores = state.scores;
        let mut list = match scores.remove(&leaf) {
            Some(list) => list,
            None => ScoreList::new(),
        };
        assert(list@ == before.scores_of(leaf));
        let taken = list.submit(entry);
        let ghost held = score_lists(scores@);
        put_scores(&mut scores, leaf, list);
        assert(score_lists(scores@) =~= before.scores.insert(leaf, list@));
        *self = Collections { events, maps, routes, scores };
        Ok(())
    }

    /// Puts `list` in the place of the score list of the map or route `leaf`.
    ///
    /// The request is turned down if `leaf` names no map and no route.
    pub fn replace_scores(&mut self, leaf: Id, list: ScoreList) -> (outcome: Result<
        (),
        StoreError,
    >)
        ensures
            final(self).inv(),
            old(self)@.has_leaf(leaf) ==> outcome is Ok && final(self)@ == old(
                self,
            )@.with_score_list(leaf, list@),
            !old(self)@.has_leaf(leaf) ==> outcome == Err::<(), StoreError>(
                StoreError::ParentNotFound,
            ) && final(self)@ == old(self)@,
    {
        proof {
            use_type_invariant(&*self);
            use_type_invariant(&list);
        }
        if !self.holds_leaf(leaf) {
            return Err(StoreError::ParentNotFound);
        }
        let ghost before = self@;
        proof {
            lemma_with_score_list(before, leaf, list@);
        }
        let mut state = Collections::new();
        core::mem::swap(self, &mut state);
        let events = state.events;
        let maps = state.maps;
        let routes = state.routes;
        let mut scores = state.scores;
        put_scores(&mut scores, leaf, list);
        *self = Collections { events, maps, routes, scores };
        Ok(())
    }

    /// Creates the event that `draft` describes, under a new random
    /// identifier, which is returned.
    ///
    /// The identifier is drawn only for a request that is not turned down for
    /// its name. The request then ends as
    /// [`create_event_with_id`](Self::create_event_with_id) ends it for the
    /// identifier drawn: it is turned down in the event that the identifier
    /// is in use.
    pub fn create_event(&mut self, draft: EventDraft) -> (outcome: Result<Id, StoreError>)
        ensures
            final(self).inv(),
            exists|id: Id|
                is_random_uuid(id) && outcome == #[trigger] old(self)@.event_outcome(
                    draft.name@,
                    id,
                ),
            outcome matches Ok(id) ==> final(self)@ == old(self)@.with_event(draft.recorded(id)),
            outcome is Err ==> final(self)@ == old(self)@,
    {
        proof {
            use_type_invariant(&*self);
            lemma_random_uuid_exists();
        }
        if let Some(refusal) = self.event_refusal(&draft.name) {
            assert(Err::<Id, StoreError>(refusal) == self@.event_outcome(
                draft.name@,
                RANDOM_VERSION_AND_VARIANT,
            ));
            return Err(refusal);
        }
        let id = mint_id();
        self.create_event_with_id(draft, id)
    }

    /// Creates the map that `draft` describes under the event `event`, under
    /// a new random identifier, which is returned.
    ///
    /// The identifier is drawn only for a request that is not turned down for
    /// its parent or its name. The request then ends as
    /// [`create_map_with_id`](Self::create_map_with_id) ends it for the
    /// identifier drawn: it is turned down in the event that the identifier
    /// is in use.
    pub fn create_map(&mut self, event: Id, draft: MapDraft) -> (outcome: Result<Id, StoreError>)
        ensures
            final(self).inv(),
            exists|id: Id|
                is_random_uuid(id) && outcome == #[trigger] old(self)@.map_outcome(
                    event,
                    draft.map_name@,
                    id,
                ),
            outcome matches Ok(id) ==> final(self)@ == old(self)@.with_map(
                event,
                draft.recorded(id),
            ),
            outcome is Err ==> final(self)@ == old(self)@,
    {
        proof {
            use_type_invariant(&*self);
            lemma_random_uuid_exists();
        }
        if let Some(refusal) = self.map_refusal(event, &draft.map_name) {
            assert(Err::<Id, StoreError>(refusal) == self@.map_outcome(
                event,
                draft.map_name@,
                RANDOM_VERSION_AND_VARIANT,
            ));
            return Err(refusal);
        }
        let id = mint_id();
        self.create_map_with_id(event, draft, id)
    }

    /// Creates the route that `draft` describes under the map `map`, under a
    /// new random identifier, which is returned.
    ///
    /// The identifier is drawn only for a request that is not turned down for
    /// its parent or its name. The request then ends as
    /// [`create_route_with_id`](Self::create_route_with_id) ends it for the
    /// identifier drawn: it is turned down in the event that the identifier
    /// is in use.
    pub fn create_route(&mut self, map: Id, draft: RouteDraft) -> (outcome: Result<
        Id,
        StoreError,
    >)
        ensures
            final(self).inv(),
            exists|id: Id|
                is_random_uuid(id) && outcome == #[trigger] old(self)@.route_outcome(
                    map,
                    draft.name@,
                    id,
                ),
            outcome matches Ok(id) ==> final(self)@ == old(self)@.with_route(
                map,
                draft.recorded(id),
            ),
            outcome is Err ==> final(self)@ == old(self)@,
    {
        proof {
            use_type_invariant(&*self);
            lemma_random_uuid_exists();
        }
        if let Some(refusal) = self.route_refusal(map, &draft.name) {
            assert(Err::<Id, StoreError>(refusal) == self@.route_outcome(
                map,
                draft.name@,
                RANDOM_VERSION_AND_VARIANT,
            ));
            return Err(refusal);
        }
        let id = mint_id();
        self.create_route_with_id(map, draft, id)
    }
}

/// A list of pairs that holds, for each key of a walk through the keys of a
/// map, the key and what stands under it, has distinct keys and stands for
/// the map.
proof fn lemma_walk_shows<V>(pairs: Seq<(Id, V)>, keys: Seq<Id>, lists: Map<Id, V>)
    requires
        keys.no_duplicates(),
        forall|key: Id| keys.contains(key) <==> lists.contains_key(key),
        pairs.len() == keys.len(),
        forall|j: int|
            0 <= j < pairs.len() ==> (#[trigger] pairs[j]).0 == keys[j] && pairs[j].1
                == lists[keys[j]],
    ensures
        keys_distinct(pairs),
        pairs_map(pairs) == lists,
{
    assert forall|i: int, j: int| 0 <= i < j < pairs.len() implies (#[trigger] pairs[i]).0 != (
    #[trigger] pairs[j]).0 by {
        assert(keys[i] != keys[j]);
    }
    assert forall|key: Id| listed(pairs, key) <==> lists.contains_key(key) by {
        if listed(pairs, key) {
            let i = crate::pairs::place(pairs, key);
            assert(keys[i] == key);
            assert(keys.contains(key));
        }
        if lists.contains_key(key) {
            assert(keys.contains(key));
            let i = choose|i: int| 0 <= i < keys.len() && keys[i] == key;
            assert(pairs[i].0 == key);
        }
    }
    assert forall|key: Id| listed(pairs, key) implies #[trigger] pairs_map(pairs)[key]
        == lists[key] by {
        let i = crate::pairs::place(pairs, key);
        lemma_place(pairs, i);
    }
    assert(pairs_map(pairs) =~= lists);
}

} // verus!
