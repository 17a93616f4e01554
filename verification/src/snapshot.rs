//! Snapshots: copies of the four collections, as they are written to storage.
//!
//! A snapshot has four parts, each saved and loaded by itself: the events;
//! the lists of maps under the identifiers of events; the lists of routes
//! under the identifiers of maps; and the score lists under the identifiers
//! of maps and routes. A part is sound if it keeps the rules of its
//! collection. The order of the pairs in a part says nothing.

use vstd::prelude::*;
use crate::event::{event_views, Event, EventView};
use crate::game_map::{map_views, GameMap, MapView};
use crate::ids::Id;
use crate::model::StoreView;
use crate::pairs::{keys_are_distinct, keys_distinct, lemma_place, listed, pairs_map, place};
use crate::route::{route_views, MapRoute, RouteView};
use crate::save_cycle::Failures;
use crate::scores::{entry_views, is_leaderboard, is_leaderboard_exec, ScoreEntry, ScoreView};

verus! {

/// A copy of the four collections, as written to storage.
#[derive(Debug, PartialEq, Eq)]
pub struct Snapshot {
    /// The events, oldest first.
    pub events: Vec<Event>,
    /// Lists of maps, oldest first, each under the identifier of an event.
    pub maps: Vec<(Id, Vec<GameMap>)>,
    /// Lists of routes, oldest first, each under the identifier of a map.
    pub routes: Vec<(Id, Vec<MapRoute>)>,
    /// Score lists, each under the identifier of a map or route.
    pub scores: Vec<(Id, Vec<ScoreEntry>)>,
}

impl Snapshot {
    /// The parts in which the snapshot holds something.
    pub fn filled(&self) -> (parts: Failures)
        ensures
            parts == (Failures {
                scores: self.scores.len() > 0,
                maps: self.maps.len() > 0,
                events: self.events.len() > 0,
                routes: self.routes.len() > 0,
            }),
    {
        Failures {
            scores: self.scores.len() > 0,
            maps: self.maps.len() > 0,
            events: self.events.len() > 0,
            routes: self.routes.len() > 0,
        }
    }
}

/// What a snapshot says.
pub ghost struct SnapshotView {
    pub events: Seq<EventView>,
    pub maps: Seq<(Id, Seq<MapView>)>,
    pub routes: Seq<(Id, Seq<RouteView>)>,
    pub scores: Seq<(Id, Seq<ScoreView>)>,
}

/// What the saved lists of maps say.
pub open spec fn saved_maps(lists: Seq<(Id, Vec<GameMap>)>) -> Seq<(Id, Seq<MapView>)> {
    lists.map_values(|p: (Id, Vec<GameMap>)| (p.0, map_views(p.1@)))
}

/// What the saved lists of routes say.
pub open spec fn saved_routes(lists: Seq<(Id, Vec<MapRoute>)>) -> Seq<(Id, Seq<RouteView>)> {
    lists.map_values(|p: (Id, Vec<MapRoute>)| (p.0, route_views(p.1@)))
}

/// What the saved score lists say.
pub open spec fn saved_scores(lists: Seq<(Id, Vec<ScoreEntry>)>) -> Seq<(Id, Seq<ScoreView>)> {
    lists.map_values(|p: (Id, Vec<ScoreEntry>)| (p.0, entry_views(p.1@)))
}

impl View for Snapshot {
    type V = SnapshotView;

    open spec fn view(&self) -> SnapshotView {
        SnapshotView {
            events: event_views(self.events@),
            maps: saved_maps(self.maps@),
            routes: saved_routes(self.routes@),
            scores: saved_scores(self.scores@),
        }
    }
}

/// Whether `a` is a position in the list at position `i`.
pub open spec fn at<T>(lists: Seq<(Id, Seq<T>)>, i: int, a: int) -> bool {
    0 <= i < lists.len() && 0 <= a < lists[i].1.len()
}

/// Whether the events keep the rules of events: no two share an identifier or
/// a name.
pub open spec fn events_sound(events: Seq<EventView>) -> bool {
    forall|i: int, j: int|
        0 <= i < j < events.len() ==> (#[trigger] events[i]).id != (#[trigger] events[j]).id
            && events[i].name != events[j].name
}

/// Whether the lists of maps keep the rules of maps: no identifier heads two
/// lists, no two maps of one list share a name, and no two maps share an
/// identifier.
pub open spec fn maps_sound(lists: Seq<(Id, Seq<MapView>)>) -> bool {
    &&& keys_distinct(lists)
    &&& forall|i: int, a: int, b: int|
        #[trigger] at(lists, i, a) && #[trigger] at(lists, i, b) && a != b
            ==> lists[i].1[a].map_name != lists[i].1[b].map_name
    &&& forall|i: int, a: int, j: int, b: int|
        #[trigger] at(lists, i, a) && #[trigger] at(lists, j, b) && lists[i].1[a].id
            == lists[j].1[b].id ==> i == j && a == b
}

/// Whether the lists of routes keep the rules of routes: no identifier heads
/// two lists, no two routes of one list share a name, and no two routes share
/// an identifier.
pub open spec fn routes_sound(lists: Seq<(Id, Seq<RouteView>)>) -> bool {
    &&& keys_distinct(lists)
    &&& forall|i: int, a: int, b: int|
        #[trigger] at(lists, i, a) && #[trigger] at(lists, i, b) && a != b ==> lists[i].1[a].name
            != lists[i].1[b].name
    &&& forall|i: int, a: int, j: int, b: int|
        #[trigger] at(lists, i, a) && #[trigger] at(lists, j, b) && lists[i].1[a].id
            == lists[j].1[b].id ==> i == j && a == b
}

/// Whether the score lists keep the rules of score lists: no identifier heads
/// two lists, and every list is in ascending order with one entry for each
/// player.
pub open spec fn scores_sound(lists: Seq<(Id, Seq<ScoreView>)>) -> bool {
    &&& keys_distinct(lists)
    &&& forall|i: int| 0 <= i < lists.len() ==> is_leaderboard((#[trigger] lists[i]).1)
}

/// Whether all four parts of a snapshot are sound.
pub open spec fn snapshot_sound(snapshot: SnapshotView) -> bool {
    &&& events_sound(snapshot.events)
    &&& maps_sound(snapshot.maps)
    &&& routes_sound(snapshot.routes)
    &&& scores_sound(snapshot.scores)
}

/// The store that a snapshot stands for: each collection is what its part
/// says.
pub open spec fn store_of(snapshot: SnapshotView) -> StoreView {
    StoreView {
        events: snapshot.events,
        maps: pairs_map(snapshot.maps),
        routes: pairs_map(snapshot.routes),
        scores: pairs_map(snapshot.scores),
    }
}

/// Whether the snapshot shows the store: it has the store's events in their
/// order, and every list of the store once, under its identifier.
pub open spec fn shows(snapshot: SnapshotView, s: StoreView) -> bool {
    &&& snapshot.events == s.events
    &&& keys_distinct(snapshot.maps)
    &&& keys_distinct(snapshot.routes)
    &&& keys_distinct(snapshot.scores)
    &&& store_of(snapshot) == s
}

/// Whether one of the lists holds a map of the identifier `id`.
pub open spec fn lists_hold_map(lists: Seq<(Id, Seq<MapView>)>, id: Id) -> bool {
    exists|i: int, a: int| #[trigger] at(lists, i, a) && lists[i].1[a].id == id
}

/// Whether one of the lists holds a route of the identifier `id`.
pub open spec fn lists_hold_route(lists: Seq<(Id, Seq<RouteView>)>, id: Id) -> bool {
    exists|i: int, a: int| #[trigger] at(lists, i, a) && lists[i].1[a].id == id
}

/// What the lists of maps of a store say of the store's maps.
pub proof fn lemma_maps_of_lists(s: StoreView, lists: Seq<(Id, Seq<MapView>)>)
    requires
        keys_distinct(lists),
        s.maps == pairs_map(lists),
    ensures
        forall|id: Id| #[trigger] s.has_map(id) <==> lists_hold_map(lists, id),
        forall|i: int, a: int| #[trigger]
            at(lists, i, a) ==> s.map_at(lists[i].0, a) && s.maps[lists[i].0] == lists[i].1,
        forall|e: Id, a: int| #[trigger]
            s.map_at(e, a) ==> listed(lists, e) && at(lists, place(lists, e), a) && s.maps[e]
                == lists[place(lists, e)].1 && lists[place(lists, e)].0 == e,
        maps_sound(lists) <==> s.map_names_distinct() && s.map_ids_distinct(),
{
    assert forall|i: int, a: int| #[trigger] at(lists, i, a) implies s.map_at(lists[i].0, a)
        && s.maps[lists[i].0] == lists[i].1 by {
        lemma_place(lists, i);
    }
    assert forall|e: Id, a: int| #[trigger] s.map_at(e, a) implies listed(lists, e) && at(
        lists,
        place(lists, e),
        a,
    ) && s.maps[e] == lists[place(lists, e)].1 && lists[place(lists, e)].0 == e by {
        let i = place(lists, e);
        assert(0 <= i < lists.len() && lists[i].0 == e);
        lemma_place(lists, i);
    }
    assert forall|id: Id| #[trigger] s.has_map(id) <==> lists_hold_map(lists, id) by {
        if s.has_map(id) {
            let (e, a) = choose|e: Id, a: int| #[trigger] s.map_at(e, a) && s.maps[e][a].id == id;
            assert(at(lists, place(lists, e), a));
        }
        if lists_hold_map(lists, id) {
            let (i, a) = choose|i: int, a: int| #[trigger]
                at(lists, i, a) && lists[i].1[a].id == id;
            assert(s.map_at(lists[i].0, a));
        }
    }
    if maps_sound(lists) {
        assert forall|e: Id, a: int, b: int| #[trigger]
            s.map_at(e, a) && #[trigger] s.map_at(e, b) && a != b implies s.maps[e][a].map_name
            != s.maps[e][b].map_name by {
            let i = place(lists, e);
            assert(at(lists, i, a) && at(lists, i, b));
        }
        assert forall|e1: Id, a1: int, e2: Id, a2: int| #[trigger]
            s.map_at(e1, a1) && #[trigger] s.map_at(e2, a2) && s.maps[e1][a1].id
                == s.maps[e2][a2].id implies e1 == e2 && a1 == a2 by {
            assert(at(lists, place(lists, e1), a1) && at(lists, place(lists, e2), a2));
        }
    }
    if s.map_names_distinct() && s.map_ids_distinct() {
        assert forall|i: int, a: int, b: int| #[trigger]
            at(lists, i, a) && #[trigger] at(lists, i, b) && a != b implies lists[i].1[a].map_name
            != lists[i].1[b].map_name by {
            assert(s.map_at(lists[i].0, a) && s.map_at(lists[i].0, b));
        }
        assert forall|i: int, a: int, j: int, b: int| #[trigger]
            at(lists, i, a) && #[trigger] at(lists, j, b) && lists[i].1[a].id
                == lists[j].1[b].id implies i == j && a == b by {
            assert(s.map_at(lists[i].0, a) && s.map_at(lists[j].0, b));
            lemma_place(lists, i);
            lemma_place(lists, j);
        }
    }
}

/// What the lists of routes of a store say of the store's routes.
pub proof fn lemma_routes_of_lists(s: StoreView, lists: Seq<(Id, Seq<RouteView>)>)
    requires
        keys_distinct(lists),
        s.routes == pairs_map(lists),
    ensures
        forall|id: Id| #[trigger] s.has_route(id) <==> lists_hold_route(lists, id),
        forall|i: int, a: int| #[trigger]
            at(lists, i, a) ==> s.route_at(lists[i].0, a) && s.routes[lists[i].0] == lists[i].1,
        forall|m: Id, a: int| #[trigger]
            s.route_at(m, a) ==> listed(lists, m) && at(lists, place(lists, m), a) && s.routes[m]
                == lists[place(lists, m)].1 && lists[place(lists, m)].0 == m,
        routes_sound(lists) <==> s.route_names_distinct() && s.route_ids_distinct(),
{
    assert forall|i: int, a: int| #[trigger] at(lists, i, a) implies s.route_at(lists[i].0, a)
        && s.routes[lists[i].0] == lists[i].1 by {
        lemma_place(lists, i);
    }
    assert forall|m: Id, a: int| #[trigger] s.route_at(m, a) implies listed(lists, m) && at(
        lists,
        place(lists, m),
        a,
    ) && s.routes[m] == lists[place(lists, m)].1 && lists[place(lists, m)].0 == m by {
        let i = place(lists, m);
        assert(0 <= i < lists.len() && lists[i].0 == m);
        lemma_place(lists, i);
    }
    assert forall|id: Id| #[trigger] s.has_route(id) <==> lists_hold_route(lists, id) by {
        if s.has_route(id) {
            let (m, a) = choose|m: Id, a: int| #[trigger]
                s.route_at(m, a) && s.routes[m][a].id == id;
            assert(at(lists, place(lists, m), a));
        }
        if lists_hold_route(lists, id) {
            let (i, a) = choose|i: int, a: int| #[trigger]
                at(lists, i, a) && lists[i].1[a].id == id;
            assert(s.route_at(lists[i].0, a));
        }
    }
    if routes_sound(lists) {
        assert forall|m: Id, a: int, b: int| #[trigger]
            s.route_at(m, a) && #[trigger] s.route_at(m, b) && a != b implies s.routes[m][a].name
            != s.routes[m][b].name by {
            let i = place(lists, m);
            assert(at(lists, i, a) && at(lists, i, b));
        }
        assert forall|m1: Id, a1: int, m2: Id, a2: int| #[trigger]
            s.route_at(m1, a1) && #[trigger] s.route_at(m2, a2) && s.routes[m1][a1].id
                == s.routes[m2][a2].id implies m1 == m2 && a1 == a2 by {
            assert(at(lists, place(lists, m1), a1) && at(lists, place(lists, m2), a2));
        }
    }
    if s.route_names_distinct() && s.route_ids_distinct() {
        assert forall|i: int, a: int, b: int| #[trigger]
            at(lists, i, a) && #[trigger] at(lists, i, b) && a != b implies lists[i].1[a].name
            != lists[i].1[b].name by {
            assert(s.route_at(lists[i].0, a) && s.route_at(lists[i].0, b));
        }
        assert forall|i: int, a: int, j: int, b: int| #[trigger]
            at(lists, i, a) && #[trigger] at(lists, j, b) && lists[i].1[a].id
                == lists[j].1[b].id implies i == j && a == b by {
            assert(s.route_at(lists[i].0, a) && s.route_at(lists[j].0, b));
            lemma_place(lists, i);
            lemma_place(lists, j);
        }
    }
}

/// What the score lists of a store say of the store's rule on score lists.
pub proof fn lemma_scores_of_lists(s: StoreView, lists: Seq<(Id, Seq<ScoreView>)>)
    requires
        keys_distinct(lists),
        s.scores == pairs_map(lists),
    ensures
        scores_sound(lists) <==> s.lists_in_order(),
{
    if scores_sound(lists) {
        assert forall|id: Id| #[trigger] s.scores.contains_key(id) implies is_leaderboard(
            s.scores[id],
        ) by {
            let i = place(lists, id);
            assert(0 <= i < lists.len() && lists[i].0 == id);
            assert(is_leaderboard(lists[i].1));
        }
    }
    if s.lists_in_order() {
        assert forall|i: int| 0 <= i < lists.len() implies is_leaderboard(
            (#[trigger] lists[i]).1,
        ) by {
            lemma_place(lists, i);
            assert(s.scores.contains_key(lists[i].0));
        }
    }
}

/// The store of a snapshot keeps the rules exactly if the snapshot's
/// parts are sound, given that no identifier heads two pairs of a part.
pub proof fn lemma_sound_is_wf(snapshot: SnapshotView)
    requires
        keys_distinct(snapshot.maps),
        keys_distinct(snapshot.routes),
        keys_distinct(snapshot.scores),
    ensures
        snapshot_sound(snapshot) <==> store_of(snapshot).wf(),
{
    let s = store_of(snapshot);
    lemma_maps_of_lists(s, snapshot.maps);
    lemma_routes_of_lists(s, snapshot.routes);
    lemma_scores_of_lists(s, snapshot.scores);
}

/// Whether the events are sound.
pub fn events_are_sound(events: &Vec<Event>) -> (sound: bool)
    ensures
        sound == events_sound(event_views(events@)),
{
    let ghost s = event_views(events@);
    let mut j: usize = 0;
    while j < events.len()
        invariant
            j <= events.len(),
            s == event_views(events@),
            forall|a: int, b: int|
                0 <= a < b < j ==> (#[trigger] s[a]).id != (#[trigger] s[b]).id && s[a].name
                    != s[b].name,
        decreases events.len() - j,
    {
        let mut i: usize = 0;
        while i < j
            invariant
                i <= j < events.len(),
                s == event_views(events@),
                forall|a: int|
                    0 <= a < i ==> (#[trigger] s[a]).id != s[j as int].id && s[a].name
                        != s[j as int].name,
            decreases j - i,
        {
            if events[i].id == events[j].id || events[i].name == events[j].name {
                assert(s[i as int].id == s[j as int].id || s[i as int].name == s[j as int].name);
                return false;
            }
            i += 1;
        }
        j += 1;
    }
    true
}

/// Whether no two maps of the list share a name.
fn map_names_are_distinct(maps: &Vec<GameMap>) -> (distinct: bool)
    ensures
        distinct <==> forall|a: int, b: int|
            0 <= a < b < maps.len() ==> (#[trigger] maps[a]).map_name@ != (
            #[trigger] maps[b]).map_name@,
{
    let mut j: usize = 0;
    while j < maps.len()
        invariant
            j <= maps.len(),
            forall|a: int, b: int|
                0 <= a < b < j ==> (#[trigger] maps[a]).map_name@ != (
                #[trigger] maps[b]).map_name@,
        decreases maps.len() - j,
    {
        let mut i: usize = 0;
        while i < j
            invariant
                i <= j < maps.len(),
                forall|a: int| 0 <= a < i ==> (#[trigger] maps[a]).map_name@ != maps[j as int].map_name@,
            decreases j - i,
        {
            if maps[i].map_name == maps[j].map_name {
                return false;
            }
            i += 1;
        }
        j += 1;
    }
    true
}

/// Whether no two routes of the list share a name.
fn route_names_are_distinct(routes: &Vec<MapRoute>) -> (distinct: bool)
    ensures
        distinct <==> forall|a: int, b: int|
            0 <= a < b < routes.len() ==> (#[trigger] routes[a]).name@ != (
            #[trigger] routes[b]).name@,
{
    let mut j: usize = 0;
    while j < routes.len()
        invariant
            j <= routes.len(),
            forall|a: int, b: int|
                0 <= a < b < j ==> (#[trigger] routes[a]).name@ != (#[trigger] routes[b]).name@,
        decreases routes.len() - j,
    {
        let mut i: usize = 0;
        while i < j
            invariant
                i <= j < routes.len(),
                forall|a: int| 0 <= a < i ==> (#[trigger] routes[a]).name@ != routes[j as int].name@,
            decreases j - i,
        {
            if routes[i].name == routes[j].name {
                return false;
            }
            i += 1;
        }
        j += 1;
    }
    true
}

/// Whether `(i, a)` comes before `(j, b)`: in an earlier list, or earlier in
/// the same list.
pub open spec fn earlier(i: int, a: int, j: int, b: int) -> bool {
    i < j || (i == j && a < b)
}

/// Whether `a` is a position in the row at position `i`.
pub open spec fn in_rows(rows: Seq<Vec<Id>>, i: int, a: int) -> bool {
    0 <= i < rows.len() && 0 <= a < rows[i].len()
}

/// Whether no identifier stands at two positions of the rows.
pub open spec fn rows_distinct(rows: Seq<Vec<Id>>) -> bool {
    forall|i: int, a: int, j: int, b: int|
        #[trigger] in_rows(rows, i, a) && #[trigger] in_rows(rows, j, b) && rows[i][a]
            == rows[j][b] ==> i == j && a == b
}

/// Whether `id` stands at a position before `(j, b)`.
fn stands_before(rows: &Vec<Vec<Id>>, j: usize, b: usize, id: Id) -> (found: bool)
    requires
        j < rows.len(),
        b <= rows[j as int].len(),
    ensures
        found <==> exists|i: int, a: int|
            #[trigger] in_rows(rows@, i, a) && earlier(i, a, j as int, b as int) && rows[i][a]
                == id,
{
    let mut i: usize = 0;
    while i <= j
        invariant
            i <= j + 1,
            j < rows.len(),
            b <= rows[j as int].len(),
            forall|x: int, a: int|
                #[trigger] in_rows(rows@, x, a) && x < i && earlier(x, a, j as int, b as int)
                    ==> rows[x][a] != id,
        decreases j + 1 - i,
    {
        let end: usize = if i == j {
            b
        } else {
            rows[i].len()
        };
        let mut a: usize = 0;
        while a < end
            invariant
                a <= end,
                i <= j < rows.len(),
                end == (if i == j {
                    b
                } else {
                    rows[i as int].len()
                }),
                b <= rows[j as int].len(),
                forall|y: int| 0 <= y < a ==> rows[i as int][y] != id,
            decreases end - a,
        {
            if rows[i][a] == id {
                assert(in_rows(rows@, i as int, a as int) && earlier(
                    i as int,
                    a as int,
                    j as int,
                    b as int,
                ));
                return true;
            }
            a += 1;
        }
        i += 1;
    }
    false
}

/// Whether no identifier stands at two positions of the rows.
fn rows_are_distinct(rows: &Vec<Vec<Id>>) -> (distinct: bool)
    ensures
        distinct == rows_distinct(rows@),
{
    let mut j: usize = 0;
    while j < rows.len()
        invariant
            j <= rows.len(),
            forall|i: int, a: int, x: int, b: int|
                #[trigger] in_rows(rows@, i, a) && #[trigger] in_rows(rows@, x, b) && i < j && x
                    < j && rows[i][a] == rows[x][b] ==> i == x && a == b,
        decreases rows.len() - j,
    {
        let mut b: usize = 0;
        while b < rows[j].len()
            invariant
                j < rows.len(),
                b <= rows[j as int].len(),
                forall|i: int, a: int, x: int, c: int|
                    #[trigger] in_rows(rows@, i, a) && #[trigger] in_rows(rows@, x, c) && earlier(
                        i,
                        a,
                        j as int,
                        b as int,
                    ) && earlier(x, c, j as int, b as int) && rows[i][a] == rows[x][c] ==> i == x
                        && a == c,
            decreases rows[j as int].len() - b,
        {
            if stands_before(rows, j, b, rows[j][b]) {
                proof {
                    let (i, a) = choose|i: int, a: int|
                        #[trigger] in_rows(rows@, i, a) && earlier(i, a, j as int, b as int)
                            && rows[i][a] == rows[j as int][b as int];
                    assert(in_rows(rows@, j as int, b as int));
                }
                return false;
            }
            assert(in_rows(rows@, j as int, b as int));
            b += 1;
        }
        j += 1;
    }
    true
}

/// The identifiers of the maps, list by list.
fn map_id_rows(lists: &Vec<(Id, Vec<GameMap>)>) -> (rows: Vec<Vec<Id>>)
    ensures
        rows.len() == lists.len(),
        forall|i: int| 0 <= i < rows.len() ==> (#[trigger] rows[i]).len() == lists[i].1.len(),
        forall|i: int, a: int| #[trigger]
            in_rows(rows@, i, a) ==> rows[i][a] == lists[i].1[a].id,
{
    let mut rows: Vec<Vec<Id>> = Vec::new();
    let mut i: usize = 0;
    while i < lists.len()
        invariant
            i <= lists.len(),
            rows.len() == i,
            forall|x: int| 0 <= x < i ==> (#[trigger] rows[x]).len() == lists[x].1.len(),
            forall|x: int, a: int| #[trigger]
                in_rows(rows@, x, a) ==> rows[x][a] == lists[x].1[a].id,
        decreases lists.len() - i,
    {
        let mut row: Vec<Id> = Vec::new();
        let mut a: usize = 0;
        while a < lists[i].1.len()
            invariant
                i < lists.len(),
                a <= lists[i as int].1.len(),
                row.len() == a,
                forall|y: int| 0 <= y < a ==> row[y] == lists[i as int].1[y].id,
            decreases lists[i as int].1.len() - a,
        {
            row.push(lists[i].1[a].id);
            a += 1;
        }
        let ghost before = rows@;
        rows.push(row);
        assert forall|x: int, y: int| #[trigger] in_rows(rows@, x, y) implies rows[x][y]
            == lists[x].1[y].id by {
            if x < i {
                assert(rows@[x] == before[x]);
                assert(in_rows(before, x, y));
            }
        }
        i += 1;
    }
    rows
}

/// The identifiers of the routes, list by list.
fn route_id_rows(lists: &Vec<(Id, Vec<MapRoute>)>) -> (rows: Vec<Vec<Id>>)
    ensures
        rows.len() == lists.len(),
        forall|i: int| 0 <= i < rows.len() ==> (#[trigger] rows[i]).len() == lists[i].1.len(),
        forall|i: int, a: int| #[trigger]
            in_rows(rows@, i, a) ==> rows[i][a] == lists[i].1[a].id,
{
    let mut rows: Vec<Vec<Id>> = Vec::new();
    let mut i: usize = 0;
    while i < lists.len()
        invariant
            i <= lists.len(),
            rows.len() == i,
            forall|x: int| 0 <= x < i ==> (#[trigger] rows[x]).len() == lists[x].1.len(),
            forall|x: int, a: int| #[trigger]
                in_rows(rows@, x, a) ==> rows[x][a] == lists[x].1[a].id,
        decreases lists.len() - i,
    {
        let mut row: Vec<Id> = Vec::new();
        let mut a: usize = 0;
        while a < lists[i].1.len()
            invariant
                i < lists.len(),
                a <= lists[i as int].1.len(),
                row.len() == a,
                forall|y: int| 0 <= y < a ==> row[y] == lists[i as int].1[y].id,
            decreases lists[i as int].1.len() - a,
        {
            row.push(lists[i].1[a].id);
            a += 1;
        }
        let ghost before = rows@;
        rows.push(row);
        assert forall|x: int, y: int| #[trigger] in_rows(rows@, x, y) implies rows[x][y]
            == lists[x].1[y].id by {
            if x < i {
                assert(rows@[x] == before[x]);
                assert(in_rows(before, x, y));
            }
        }
        i += 1;
    }
    rows
}

/// Whether the lists of maps are sound.
pub fn maps_are_sound(lists: &Vec<(Id, Vec<GameMap>)>) -> (sound: bool)
    ensures
        sound == maps_sound(saved_maps(lists@)),
{
    let ghost s = saved_maps(lists@);
    assert forall|i: int| 0 <= i < s.len() implies (#[trigger] s[i]).0 == lists[i].0 && s[i].1
        == map_views(lists[i].1@) by {}
    let keys_ok = keys_are_distinct(lists);
    proof {
        if keys_ok {
            assert forall|x: int, y: int| 0 <= x < y < s.len() implies (#[trigger] s[x]).0 != (
            #[trigger] s[y]).0 by {
                assert(lists[x].0 != lists[y].0);
            }
        } else {
            let (x, y) = choose|x: int, y: int|
                0 <= x < y < lists.len() && (#[trigger] lists[x]).0 == (#[trigger] lists[y]).0;
            assert(s[x].0 == s[y].0);
        }
    }
    if !keys_ok {
        return false;
    }
    let mut i: usize = 0;
    while i < lists.len()
        invariant
            i <= lists.len(),
            s == saved_maps(lists@),
            keys_distinct(s),
            forall|x: int, a: int, b: int|
                #[trigger] at(s, x, a) && #[trigger] at(s, x, b) && x < i && a != b
                    ==> s[x].1[a].map_name != s[x].1[b].map_name,
        decreases lists.len() - i,
    {
        assert(s[i as int].1 == map_views(lists[i as int].1@));
        if !map_names_are_distinct(&lists[i].1) {
            proof {
                let list = lists[i as int].1;
                let (a, b) = choose|a: int, b: int|
                    0 <= a < b < list.len() && (#[trigger] list[a]).map_name@ == (
                    #[trigger] list[b]).map_name@;
                assert(at(s, i as int, a) && at(s, i as int, b));
                assert(s[i as int].1[a].map_name == s[i as int].1[b].map_name);
            }
            return false;
        }
        proof {
            let list = lists[i as int].1;
            assert forall|a: int, b: int| #[trigger]
                at(s, i as int, a) && #[trigger] at(s, i as int, b) && a != b implies s[i as int].1[a].map_name
                != s[i as int].1[b].map_name by {
                if a < b {
                    assert(list[a].map_name@ != list[b].map_name@);
                } else {
                    assert(list[b].map_name@ != list[a].map_name@);
                }
            }
        }
        i += 1;
    }
    let rows = map_id_rows(lists);
    let distinct = rows_are_distinct(&rows);
    proof {
        assert forall|x: int, a: int| at(s, x, a) <==> in_rows(rows@, x, a) by {
            if 0 <= x < s.len() {
                assert(rows[x].len() == lists[x].1.len());
                assert(s[x].1.len() == lists[x].1.len());
            }
        }
        assert forall|x: int, a: int| #[trigger] at(s, x, a) implies s[x].1[a].id
            == rows[x][a] by {
            assert(in_rows(rows@, x, a));
            assert(s[x].1[a] == lists[x].1[a]@);
        }
        if distinct {
            assert forall|x: int, a: int, y: int, b: int| #[trigger]
                at(s, x, a) && #[trigger] at(s, y, b) && s[x].1[a].id
                    == s[y].1[b].id implies x == y && a == b by {
                assert(in_rows(rows@, x, a) && in_rows(rows@, y, b));
            }
        } else {
            let (x, a, y, b) = choose|x: int, a: int, y: int, b: int|
                #[trigger] in_rows(rows@, x, a) && #[trigger] in_rows(rows@, y, b) && rows[x][a]
                    == rows[y][b] && !(x == y && a == b);
            assert(at(s, x, a) && at(s, y, b));
            assert(s[x].1[a].id == s[y].1[b].id);
        }
    }
    distinct
}

/// Whether the lists of routes are sound.
pub fn routes_are_sound(lists: &Vec<(Id, Vec<MapRoute>)>) -> (sound: bool)
    ensures
        sound == routes_sound(saved_routes(lists@)),
{
    let ghost s = saved_routes(lists@);
    assert forall|i: int| 0 <= i < s.len() implies (#[trigger] s[i]).0 == lists[i].0 && s[i].1
        == route_views(lists[i].1@) by {}
    let keys_ok = keys_are_distinct(lists);
    proof {
        if keys_ok {
            assert forall|x: int, y: int| 0 <= x < y < s.len() implies (#[trigger] s[x]).0 != (
            #[trigger] s[y]).0 by {
                assert(lists[x].0 != lists[y].0);
            }
        } else {
            let (x, y) = choose|x: int, y: int|
                0 <= x < y < lists.len() && (#[trigger] lists[x]).0 == (#[trigger] lists[y]).0;
            assert(s[x].0 == s[y].0);
        }
    }
    if !keys_ok {
        return false;
    }
    let mut i: usize = 0;
    while i < lists.len()
        invariant
            i <= lists.len(),
            s == saved_routes(lists@),
            keys_distinct(s),
            forall|x: int, a: int, b: int|
                #[trigger] at(s, x, a) && #[trigger] at(s, x, b) && x < i && a != b
                    ==> s[x].1[a].name != s[x].1[b].name,
        decreases lists.len() - i,
    {
        assert(s[i as int].1 == route_views(lists[i as int].1@));
        if !route_names_are_distinct(&lists[i].1) {
            proof {
                let list = lists[i as int].1;
                let (a, b) = choose|a: int, b: int|
                    0 <= a < b < list.len() && (#[trigger] list[a]).name@ == (
                    #[trigger] list[b]).name@;
                assert(at(s, i as int, a) && at(s, i as int, b));
                assert(s[i as int].1[a].name == s[i as int].1[b].name);
            }
            return false;
        }
        proof {
            let list = lists[i as int].1;
            assert forall|a: int, b: int| #[trigger]
                at(s, i as int, a) && #[trigger] at(s, i as int, b) && a != b implies s[i as int].1[a].name
                != s[i as int].1[b].name by {
                if a < b {
                    assert(list[a].name@ != list[b].name@);
                } else {
                    assert(list[b].name@ != list[a].name@);
                }
            }
        }
        i += 1;
    }
    let rows = route_id_rows(lists);
    let distinct = rows_are_distinct(&rows);
    proof {
        assert forall|x: int, a: int| at(s, x, a) <==> in_rows(rows@, x, a) by {
            if 0 <= x < s.len() {
                assert(rows[x].len() == lists[x].1.len());
                assert(s[x].1.len() == lists[x].1.len());
            }
        }
        assert forall|x: int, a: int| #[trigger] at(s, x, a) implies s[x].1[a].id
            == rows[x][a] by {
            assert(in_rows(rows@, x, a));
            assert(s[x].1[a] == lists[x].1[a]@);
        }
        if distinct {
            assert forall|x: int, a: int, y: int, b: int| #[trigger]
                at(s, x, a) && #[trigger] at(s, y, b) && s[x].1[a].id
                    == s[y].1[b].id implies x == y && a == b by {
                assert(in_rows(rows@, x, a) && in_rows(rows@, y, b));
            }
        } else {
            let (x, a, y, b) = choose|x: int, a: int, y: int, b: int|
                #[trigger] in_rows(rows@, x, a) && #[trigger] in_rows(rows@, y, b) && rows[x][a]
                    == rows[y][b] && !(x == y && a == b);
            assert(at(s, x, a) && at(s, y, b));
            assert(s[x].1[a].id == s[y].1[b].id);
        }
    }
    distinct
}

/// Whether the score lists are sound.
pub fn scores_are_sound(lists: &Vec<(Id, Vec<ScoreEntry>)>) -> (sound: bool)
    ensures
        sound == scores_sound(saved_scores(lists@)),
{
    let ghost s = saved_scores(lists@);
    assert forall|i: int| 0 <= i < s.len() implies (#[trigger] s[i]).0 == lists[i].0 && s[i].1
        == entry_views(lists[i].1@) by {}
    let keys_ok = keys_are_distinct(lists);
    proof {
        if keys_ok {
            assert forall|x: int, y: int| 0 <= x < y < s.len() implies (#[trigger] s[x]).0 != (
            #[trigger] s[y]).0 by {
                assert(lists[x].0 != lists[y].0);
            }
        } else {
            let (x, y) = choose|x: int, y: int|
                0 <= x < y < lists.len() && (#[trigger] lists[x]).0 == (#[trigger] lists[y]).0;
            assert(s[x].0 == s[y].0);
        }
    }
    if !keys_ok {
        return false;
    }
    let mut i: usize = 0;
    while i < lists.len()
        invariant
            i <= lists.len(),
            s == saved_scores(lists@),
            keys_distinct(s),
            forall|x: int| 0 <= x < i ==> is_leaderboard((#[trigger] s[x]).1),
        decreases lists.len() - i,
    {
        assert(s[i as int].1 == entry_views(lists[i as int].1@));
        if !is_leaderboard_exec(&lists[i].1) {
            assert(!is_leaderboard(s[i as int].1));
            return false;
        }
        i += 1;
    }
    true
}

} // verus!
