//! What holds of the store across several operations.

use vstd::prelude::*;
use crate::error::StoreError;
use crate::game_map::MapView;
use crate::ids::Id;
use crate::model::{
    lemma_with_event, lemma_with_map, lemma_with_route, lemma_with_score, StoreView,
};
use crate::route::RouteView;
use crate::event::EventView;
use crate::scores::{
    after_submission, has_player, improves, is_leaderboard, lemma_merged, merged, time_of_player,
    ScoreView,
};

verus! {

/// The store after the maps `maps` have been created under the event
/// `event`, one after another.
pub open spec fn with_maps(s: StoreView, event: Id, maps: Seq<MapView>) -> StoreView
    decreases maps.len(),
{
    if maps.len() == 0 {
        s
    } else {
        with_maps(s, event, maps.drop_last()).with_map(event, maps.last())
    }
}

/// The store after the routes `routes` have been created under the map
/// `map`, one after another.
pub open spec fn with_routes(s: StoreView, map: Id, routes: Seq<RouteView>) -> StoreView
    decreases routes.len(),
{
    if routes.len() == 0 {
        s
    } else {
        with_routes(s, map, routes.drop_last()).with_route(map, routes.last())
    }
}

/// A request that is granted is granted under an identifier that was not in
/// use before and is in use afterwards; whatever was in use before, still is.
/// So no two entities that the store creates ever share an identifier,
/// whatever the order in which they are created.
pub proof fn law_identifiers_are_never_shared(
    s: StoreView,
    parent: Id,
    event: EventView,
    map: MapView,
    route: RouteView,
    used: Id,
)
    requires
        s.wf(),
        s.in_use(used),
    ensures
        s.event_outcome(event.name, event.id) is Ok ==> !s.in_use(event.id) && s.with_event(
            event,
        ).in_use(event.id) && s.with_event(event).in_use(used) && used != event.id,
        s.map_outcome(parent, map.map_name, map.id) is Ok ==> !s.in_use(map.id) && s.with_map(
            parent,
            map,
        ).in_use(map.id) && s.with_map(parent, map).in_use(used) && used != map.id,
        s.route_outcome(parent, route.name, route.id) is Ok ==> !s.in_use(route.id)
            && s.with_route(parent, route).in_use(route.id) && s.with_route(parent, route).in_use(
            used,
        ) && used != route.id,
{
    if s.event_outcome(event.name, event.id) is Ok {
        lemma_with_event(s, event);
    }
    if s.map_outcome(parent, map.map_name, map.id) is Ok {
        lemma_with_map(s, parent, map);
    }
    if s.route_outcome(parent, route.name, route.id) is Ok {
        lemma_with_route(s, parent, route);
    }
}

/// The store after the events `events` have been created, one after another.
pub open spec fn with_events(s: StoreView, events: Seq<EventView>) -> StoreView
    decreases events.len(),
{
    if events.len() == 0 {
        s
    } else {
        with_events(s, events.drop_last()).with_event(events.last())
    }
}

/// Whether the events `events` can be told apart by name and by identifier.
pub open spec fn events_distinct(events: Seq<EventView>) -> bool {
    forall|i: int, j: int|
        0 <= i < j < events.len() ==> (#[trigger] events[i]).name != (#[trigger] events[j]).name
            && events[i].id != events[j].id
}

/// Creating events with distinct new names, each under an identifier of its
/// own that named nothing before, is granted every time. The store then holds
/// the events it held before and the new ones behind them, in the order of
/// their creation, and keeps its rules.
pub proof fn law_events_with_distinct_names(s: StoreView, events: Seq<EventView>)
    requires
        s.wf(),
        events_distinct(events),
        forall|i: int|
            0 <= i < events.len() ==> !s.has_event_named((#[trigger] events[i]).name)
                && !s.in_use(events[i].id),
    ensures
        forall|k: int|
            0 <= k < events.len() ==> (#[trigger] with_events(s, events.take(k))).event_outcome(
                events[k].name,
                events[k].id,
            ) == Ok::<Id, StoreError>(events[k].id),
        with_events(s, events).wf(),
        with_events(s, events).events == s.events + events,
        forall|id: Id| #[trigger]
            with_events(s, events).in_use(id) <==> s.in_use(id) || exists|i: int|
                0 <= i < events.len() && (#[trigger] events[i]).id == id,
    decreases events.len(),
{
    let t = with_events(s, events);
    if events.len() == 0 {
        assert(t.events =~= s.events + events);
        assert(events.take(0) =~= events);
    } else {
        let n = events.len() - 1;
        let front = events.drop_last();
        let last = events.last();
        assert forall|i: int| 0 <= i < front.len() implies front[i] == events[i] by {}
        law_events_with_distinct_names(s, front);
        let u = with_events(s, front);
        assert(!u.has_event_named(last.name)) by {
            if u.has_event_named(last.name) {
                let i = choose|i: int| 0 <= i < u.events.len() && (#[trigger] u.events[i]).name
                    == last.name;
                let old_len = s.events.len() as int;
                if i < old_len {
                    assert(s.events[i].name == last.name);
                } else {
                    assert(u.events[i] == front[i - old_len]);
                    assert(events[i - old_len].name != events[n].name);
                }
            }
        }
        assert(!u.in_use(last.id)) by {
            if u.in_use(last.id) {
                assert(!s.in_use(events[n].id));
                let i = choose|i: int| 0 <= i < front.len() && (#[trigger] front[i]).id == last.id;
                assert(events[i].id != events[n].id);
            }
        }
        assert(u.event_outcome(last.name, last.id) == Ok::<Id, StoreError>(last.id));
        lemma_with_event(u, last);
        assert(t.events =~= s.events + events);
        assert forall|k: int| 0 <= k < events.len() implies (#[trigger] with_events(
            s,
            events.take(k),
        )).event_outcome(events[k].name, events[k].id) == Ok::<Id, StoreError>(events[k].id) by {
            if k < n {
                assert(events.take(k) =~= front.take(k));
            } else {
                assert(events.take(k) =~= front);
            }
        }
        assert forall|id: Id| #[trigger]
            t.in_use(id) <==> s.in_use(id) || exists|i: int|
                0 <= i < events.len() && (#[trigger] events[i]).id == id by {
            assert(t.in_use(id) <==> u.in_use(id) || id == last.id);
            assert(u.in_use(id) <==> s.in_use(id) || exists|i: int|
                0 <= i < front.len() && (#[trigger] front[i]).id == id);
            if exists|i: int| 0 <= i < front.len() && (#[trigger] front[i]).id == id {
                let i = choose|i: int| 0 <= i < front.len() && (#[trigger] front[i]).id == id;
                assert(events[i].id == id);
            }
            if exists|i: int| 0 <= i < events.len() && (#[trigger] events[i]).id == id {
                let i = choose|i: int| 0 <= i < events.len() && (#[trigger] events[i]).id == id;
                if i < n {
                    assert(front[i].id == id);
                }
            }
            if id == last.id {
                assert(events[n].id == id);
            }
        }
    }
}

/// Once an event of some name exists, a request to create another event of
/// that name is turned down as a duplicate, whatever else it says and
/// whatever identifier is offered, and the store stays as it was.
pub proof fn law_duplicate_event_name(s: StoreView, event: EventView)
    requires
        s.has_event_named(event.name),
    ensures
        s.event_outcome(event.name, event.id) == Err::<Id, StoreError>(
            StoreError::AlreadyExists,
        ),
        s.after_event_request(event) == s,
{
}

/// Whether the maps `maps` can be told apart by name and by identifier.
pub open spec fn maps_distinct(maps: Seq<MapView>) -> bool {
    forall|i: int, j: int|
        0 <= i < j < maps.len() ==> (#[trigger] maps[i]).map_name != (#[trigger] maps[j]).map_name
            && maps[i].id != maps[j].id
}

/// Whether the routes `routes` can be told apart by name and by identifier.
pub open spec fn routes_distinct(routes: Seq<RouteView>) -> bool {
    forall|i: int, j: int|
        0 <= i < j < routes.len() ==> (#[trigger] routes[i]).name != (#[trigger] routes[j]).name
            && routes[i].id != routes[j].id
}

/// Creating maps with distinct new names under one event, each under an
/// identifier of its own that named nothing before, is granted every time.
/// The event then owns the maps it owned before and the new ones behind
/// them, in the order of their creation, and the store keeps its rules.
pub proof fn law_maps_with_distinct_names(s: StoreView, event: Id, maps: Seq<MapView>)
    requires
        s.wf(),
        s.has_event(event),
        maps_distinct(maps),
        forall|i: int|
            0 <= i < maps.len() ==> !s.has_map_named(event, (#[trigger] maps[i]).map_name)
                && !s.in_use(maps[i].id),
    ensures
        forall|k: int|
            0 <= k < maps.len() ==> (#[trigger] with_maps(s, event, maps.take(k))).map_outcome(
                event,
                maps[k].map_name,
                maps[k].id,
            ) == Ok::<Id, StoreError>(maps[k].id),
        with_maps(s, event, maps).wf(),
        with_maps(s, event, maps).maps_of(event) == s.maps_of(event) + maps,
        with_maps(s, event, maps).events == s.events,
        forall|id: Id| #[trigger]
            with_maps(s, event, maps).in_use(id) <==> s.in_use(id) || exists|i: int|
                0 <= i < maps.len() && (#[trigger] maps[i]).id == id,
    decreases maps.len(),
{
    let t = with_maps(s, event, maps);
    if maps.len() == 0 {
        assert(t.maps_of(event) =~= s.maps_of(event) + maps);
        assert(maps.take(0) =~= maps);
    } else {
        let n = maps.len() - 1;
        let front = maps.drop_last();
        let last = maps.last();
        assert forall|i: int| 0 <= i < front.len() implies front[i] == maps[i] by {}
        law_maps_with_distinct_names(s, event, front);
        let u = with_maps(s, event, front);
        assert(u.has_event(event));
        assert(!u.has_map_named(event, last.map_name)) by {
            if u.has_map_named(event, last.map_name) {
                let i = choose|i: int| #[trigger]
                    u.map_at(event, i) && u.maps[event][i].map_name == last.map_name;
                let old_len = s.maps_of(event).len() as int;
                assert(u.maps[event] == s.maps_of(event) + front);
                if i < old_len {
                    assert(s.map_at(event, i));
                    assert(s.maps[event][i].map_name == last.map_name);
                } else {
                    assert(u.maps[event][i] == front[i - old_len]);
                    assert(maps[i - old_len].map_name != maps[n].map_name);
                }
            }
        }
        assert(!u.in_use(last.id)) by {
            if u.in_use(last.id) {
                assert(!s.in_use(maps[n].id));
                let i = choose|i: int| 0 <= i < front.len() && (#[trigger] front[i]).id == last.id;
                assert(maps[i].id != maps[n].id);
            }
        }
        assert(u.map_outcome(event, last.map_name, last.id) == Ok::<Id, StoreError>(last.id));
        lemma_with_map(u, event, last);
        assert(t.maps_of(event) =~= s.maps_of(event) + maps);
        assert forall|k: int| 0 <= k < maps.len() implies (#[trigger] with_maps(
            s,
            event,
            maps.take(k),
        )).map_outcome(event, maps[k].map_name, maps[k].id) == Ok::<Id, StoreError>(
            maps[k].id,
        ) by {
            if k < n {
                assert(maps.take(k) =~= front.take(k));
            } else {
                assert(maps.take(k) =~= front);
            }
        }
        assert forall|id: Id| #[trigger]
            t.in_use(id) <==> s.in_use(id) || exists|i: int|
                0 <= i < maps.len() && (#[trigger] maps[i]).id == id by {
            assert(t.in_use(id) <==> u.in_use(id) || id == last.id);
            assert(u.in_use(id) <==> s.in_use(id) || exists|i: int|
                0 <= i < front.len() && (#[trigger] front[i]).id == id);
            if exists|i: int| 0 <= i < front.len() && (#[trigger] front[i]).id == id {
                let i = choose|i: int| 0 <= i < front.len() && (#[trigger] front[i]).id == id;
                assert(maps[i].id == id);
            }
            if exists|i: int| 0 <= i < maps.len() && (#[trigger] maps[i]).id == id {
                let i = choose|i: int| 0 <= i < maps.len() && (#[trigger] maps[i]).id == id;
                if i < n {
                    assert(front[i].id == id);
                }
            }
            if id == last.id {
                assert(maps[n].id == id);
            }
        }
    }
}

/// Once a map of some name stands under an event, a request to create another map of
/// that name under it is turned down as a duplicate, whatever else it says
/// and whatever identifier is offered, and the store stays as it was: the
/// event owns as many maps as before.
pub proof fn law_duplicate_map_name(s: StoreView, event: Id, map: MapView)
    requires
        s.has_event(event),
        s.has_map_named(event, map.map_name),
    ensures
        s.map_outcome(event, map.map_name, map.id) == Err::<Id, StoreError>(
            StoreError::AlreadyExists,
        ),
        s.after_map_request(event, map) == s,
{
}

/// Creating routes with distinct new names under one map, each under an
/// identifier of its own that named nothing before, is granted every time.
/// The map then owns the routes it owned before and the new ones behind
/// them, in the order of their creation, and the store keeps its rules.
pub proof fn law_routes_with_distinct_names(s: StoreView, map: Id, routes: Seq<RouteView>)
    requires
        s.wf(),
        s.has_map(map),
        routes_distinct(routes),
        forall|i: int|
            0 <= i < routes.len() ==> !s.has_route_named(map, (#[trigger] routes[i]).name)
                && !s.in_use(routes[i].id),
    ensures
        forall|k: int|
            0 <= k < routes.len() ==> (#[trigger] with_routes(
                s,
                map,
                routes.take(k),
            )).route_outcome(map, routes[k].name, routes[k].id) == Ok::<Id, StoreError>(
                routes[k].id,
            ),
        with_routes(s, map, routes).wf(),
        with_routes(s, map, routes).routes_of(map) == s.routes_of(map) + routes,
        with_routes(s, map, routes).maps == s.maps,
        with_routes(s, map, routes).events == s.events,
        forall|id: Id| #[trigger]
            with_routes(s, map, routes).in_use(id) <==> s.in_use(id) || exists|i: int|
                0 <= i < routes.len() && (#[trigger] routes[i]).id == id,
    decreases routes.len(),
{
    let t = with_routes(s, map, routes);
    if routes.len() == 0 {
        assert(t.routes_of(map) =~= s.routes_of(map) + routes);
        assert(routes.take(0) =~= routes);
    } else {
        let n = routes.len() - 1;
        let front = routes.drop_last();
        let last = routes.last();
        assert forall|i: int| 0 <= i < front.len() implies front[i] == routes[i] by {}
        law_routes_with_distinct_names(s, map, front);
        let u = with_routes(s, map, front);
        crate::model::lemma_same_maps(s, u);
        assert(u.has_map(map));
        assert(!u.has_route_named(map, last.name)) by {
            if u.has_route_named(map, last.name) {
                let i = choose|i: int| #[trigger]
                    u.route_at(map, i) && u.routes[map][i].name == last.name;
                let old_len = s.routes_of(map).len() as int;
                assert(u.routes[map] == s.routes_of(map) + front);
                if i < old_len {
                    assert(s.route_at(map, i));
                    assert(s.routes[map][i].name == last.name);
                } else {
                    assert(u.routes[map][i] == front[i - old_len]);
                    assert(routes[i - old_len].name != routes[n].name);
                }
            }
        }
        assert(!u.in_use(last.id)) by {
            if u.in_use(last.id) {
                assert(!s.in_use(routes[n].id));
                let i = choose|i: int| 0 <= i < front.len() && (#[trigger] front[i]).id == last.id;
                assert(routes[i].id != routes[n].id);
            }
        }
        assert(u.route_outcome(map, last.name, last.id) == Ok::<Id, StoreError>(last.id));
        lemma_with_route(u, map, last);
        assert(t.routes_of(map) =~= s.routes_of(map) + routes);
        assert forall|k: int| 0 <= k < routes.len() implies (#[trigger] with_routes(
            s,
            map,
            routes.take(k),
        )).route_outcome(map, routes[k].name, routes[k].id) == Ok::<Id, StoreError>(
            routes[k].id,
        ) by {
            if k < n {
                assert(routes.take(k) =~= front.take(k));
            } else {
                assert(routes.take(k) =~= front);
            }
        }
        assert forall|id: Id| #[trigger]
            t.in_use(id) <==> s.in_use(id) || exists|i: int|
                0 <= i < routes.len() && (#[trigger] routes[i]).id == id by {
            assert(t.in_use(id) <==> u.in_use(id) || id == last.id);
            assert(u.in_use(id) <==> s.in_use(id) || exists|i: int|
                0 <= i < front.len() && (#[trigger] front[i]).id == id);
            if exists|i: int| 0 <= i < front.len() && (#[trigger] front[i]).id == id {
                let i = choose|i: int| 0 <= i < front.len() && (#[trigger] front[i]).id == id;
                assert(routes[i].id == id);
            }
            if exists|i: int| 0 <= i < routes.len() && (#[trigger] routes[i]).id == id {
                let i = choose|i: int| 0 <= i < routes.len() && (#[trigger] routes[i]).id == id;
                if i < n {
                    assert(front[i].id == id);
                }
            }
            if id == last.id {
                assert(routes[n].id == id);
            }
        }
    }
}

/// Once a map owns a route of some name, a request to create another route
/// of that name under it is turned down as a duplicate, whatever else it says
/// and whatever identifier is offered, and the store stays as it was: the map
/// owns as many routes as before.
pub proof fn law_duplicate_route_name(s: StoreView, map: Id, route: RouteView)
    requires
        s.has_map(map),
        s.has_route_named(map, route.name),
    ensures
        s.route_outcome(map, route.name, route.id) == Err::<Id, StoreError>(
            StoreError::AlreadyExists,
        ),
        s.after_route_request(map, route) == s,
{
    let i = choose|i: int| #[trigger]
        s.route_at(map, i) && s.routes[map][i].name == route.name;
    assert(s.route_at(map, i));
}

/// After a list has taken a player's time, a second submission for that
/// player with a time that is as long or longer is turned down, and the list
/// stays as it was: the player keeps the first time. A second submission with
/// a strictly shorter time is taken: the list then holds the second time for
/// the player, has as many entries as before, and is still in ascending order
/// with one entry per player.
pub proof fn law_second_submission(list: Seq<ScoreView>, first: ScoreView, second: ScoreView)
    requires
        is_leaderboard(list),
        improves(list, first),
        second.name == first.name,
    ensures
        ({
            let once = after_submission(list, first);
            let twice = after_submission(once, second);
            &&& is_leaderboard(once)
            &&& has_player(once, first.name)
            &&& time_of_player(once, first.name) == first.time
            &&& second.time.key() >= first.time.key() ==> !improves(once, second) && twice == once
            &&& second.time.key() < first.time.key() ==> improves(once, second) && is_leaderboard(
                twice,
            ) && has_player(twice, first.name) && time_of_player(twice, first.name)
                == second.time && twice.len() == once.len()
        }),
{
    lemma_merged(list, first);
    lemma_merged(merged(list, first), second);
}

/// The same holds of the store: a second submission for a player to the same
/// map or route is turned down and changes nothing if its time is as long or
/// longer than the first, and is taken if its time is strictly shorter.
pub proof fn law_second_submission_to_store(
    s: StoreView,
    leaf: Id,
    first: ScoreView,
    second: ScoreView,
)
    requires
        s.wf(),
        s.score_outcome(leaf, first) is Ok,
        second.name == first.name,
    ensures
        ({
            let once = s.after_submission(leaf, first);
            let twice = once.after_submission(leaf, second);
            &&& once.wf()
            &&& time_of_player(once.scores_of(leaf), first.name) == first.time
            &&& second.time.key() >= first.time.key() ==> once.score_outcome(leaf, second) == Err::<
                (),
                StoreError,
            >(StoreError::NotImproved) && twice == once
            &&& second.time.key() < first.time.key() ==> once.score_outcome(leaf, second) is Ok
                && time_of_player(twice.scores_of(leaf), first.name) == second.time
                && is_leaderboard(twice.scores_of(leaf))
        }),
{
    let list = s.scores_of(leaf);
    lemma_with_score(s, leaf, first);
    law_second_submission(list, first, second);
    let once = s.after_submission(leaf, first);
    assert(once.scores_of(leaf) == merged(list, first));
    lemma_merged(list, first);
    crate::model::lemma_with_score_list(s, leaf, merged(list, first));
    assert(once.has_leaf(leaf));
    lemma_with_score(once, leaf, second);
}

/// Listing twice without a write in between gives the same: what
/// `list_events`, `list_maps`, `list_routes` and `list_scores` answer is
/// settled by the state alone, and a request that is turned down is no write,
/// so the answers after it are the answers before it.
pub proof fn law_listing_twice(
    s: StoreView,
    asked: Id,
    parent: Id,
    event: EventView,
    map: MapView,
    route: RouteView,
    entry: ScoreView,
)
    ensures
        ({
            let after_event = s.after_event_request(event);
            let after_map = s.after_map_request(parent, map);
            let after_route = s.after_route_request(parent, route);
            let after_score = s.after_submission(parent, entry);
            &&& s.event_outcome(event.name, event.id) is Err ==> after_event.events == s.events
                && after_event.listed_maps(asked) == s.listed_maps(asked)
                && after_event.listed_routes(asked) == s.listed_routes(asked)
                && after_event.listed_scores(asked) == s.listed_scores(asked)
            &&& s.map_outcome(parent, map.map_name, map.id) is Err ==> after_map.events == s.events
                && after_map.listed_maps(asked) == s.listed_maps(asked) && after_map.listed_routes(
                asked,
            ) == s.listed_routes(asked) && after_map.listed_scores(asked) == s.listed_scores(asked)
            &&& s.route_outcome(parent, route.name, route.id) is Err ==> after_route.events
                == s.events && after_route.listed_maps(asked) == s.listed_maps(asked)
                && after_route.listed_routes(asked) == s.listed_routes(asked)
                && after_route.listed_scores(asked) == s.listed_scores(asked)
            &&& s.score_outcome(parent, entry) is Err ==> after_score.events == s.events
                && after_score.listed_maps(asked) == s.listed_maps(asked)
                && after_score.listed_routes(asked) == s.listed_routes(asked)
                && after_score.listed_scores(asked) == s.listed_scores(asked)
        }),
{
}

/// Where the parent is there and the name is free, only the identifier can
/// keep a request from being granted: the request is granted exactly if the
/// identifier offered is not in use, and turned down for the identifier
/// otherwise.
pub proof fn law_only_the_identifier_can_fail(
    s: StoreView,
    parent: Id,
    event: EventView,
    map: MapView,
    route: RouteView,
)
    ensures
        !s.has_event_named(event.name) ==> s.event_outcome(event.name, event.id) == (if s.in_use(
            event.id,
        ) {
            Err::<Id, StoreError>(StoreError::IdentifierInUse)
        } else {
            Ok::<Id, StoreError>(event.id)
        }),
        s.has_event(parent) && !s.has_map_named(parent, map.map_name) ==> s.map_outcome(
            parent,
            map.map_name,
            map.id,
        ) == (if s.in_use(map.id) {
            Err::<Id, StoreError>(StoreError::IdentifierInUse)
        } else {
            Ok::<Id, StoreError>(map.id)
        }),
        s.has_map(parent) && !s.has_route_named(parent, route.name) ==> s.route_outcome(
            parent,
            route.name,
            route.id,
        ) == (if s.in_use(route.id) {
            Err::<Id, StoreError>(StoreError::IdentifierInUse)
        } else {
            Ok::<Id, StoreError>(route.id)
        }),
{
}

/// A request to create a map under an identifier that names no event is
/// turned down for want of a parent, whatever else it says, and the store
/// stays as it was: no map is added, and no score list.
pub proof fn law_map_without_event(s: StoreView, event: Id, map: MapView)
    requires
        !s.has_event(event),
    ensures
        s.map_outcome(event, map.map_name, map.id) == Err::<Id, StoreError>(
            StoreError::ParentNotFound,
        ),
        s.after_map_request(event, map) == s,
        s.after_map_request(event, map).maps == s.maps,
        s.after_map_request(event, map).scores == s.scores,
{
}

/// A request to create a route under an identifier that names no map is
/// turned down for want of a parent, whatever else it says and whatever
/// stands under the identifier, and the store stays as it was: no route is
/// added and no score list. So is the submission of a time to an identifier
/// that names no map and no route.
pub proof fn law_nothing_without_parent(s: StoreView, parent: Id, route: RouteView, entry: ScoreView)
    ensures
        !s.has_map(parent) ==> s.route_outcome(parent, route.name, route.id) == Err::<
            Id,
            StoreError,
        >(StoreError::ParentNotFound) && s.after_route_request(parent, route) == s
            && s.after_route_request(parent, route).routes == s.routes && s.after_route_request(
            parent,
            route,
        ).scores == s.scores,
        !s.has_leaf(parent) ==> s.score_outcome(parent, entry) == Err::<
            (),
            StoreError,
        >(StoreError::ParentNotFound) && s.after_submission(parent, entry) == s,
{
}

/// Under an event that the store holds, a request to create a map of a name
/// that no map under the event has, with an identifier that is not in use, is
/// granted: the event then owns the maps it owned and the new one behind
/// them, the new map has the name asked for, an empty list of routes and an
/// empty score list stand under its identifier, and that identifier was that
/// of no map and stood over no score list before.
pub proof fn law_next_map(s: StoreView, event: Id, map: MapView)
    requires
        s.wf(),
        s.has_event(event),
        !s.has_map_named(event, map.map_name),
        !s.in_use(map.id),
    ensures
        s.map_outcome(event, map.map_name, map.id) == Ok::<Id, StoreError>(map.id),
        s.after_map_request(event, map).wf(),
        s.after_map_request(event, map).maps_of(event) == s.maps_of(event).push(map),
        s.after_map_request(event, map).maps_of(event).len() == s.maps_of(event).len() + 1,
        s.after_map_request(event, map).maps_of(event).last().map_name == map.map_name,
        s.after_map_request(event, map).scores.contains_key(map.id),
        s.after_map_request(event, map).scores[map.id] == Seq::<ScoreView>::empty(),
        s.after_map_request(event, map).routes.contains_key(map.id),
        s.after_map_request(event, map).routes[map.id] == Seq::<RouteView>::empty(),
        !s.has_map(map.id) && !s.scores.contains_key(map.id),
{
    lemma_with_map(s, event, map);
}

/// Under a map that the store holds, a request to create a route of a name
/// that no route under the map has, with an identifier that is not in use, is
/// granted: the map then owns the routes it owned and the new one behind
/// them, the new route has the name asked for, an empty score list stands
/// under its identifier, and that identifier was that of no route and stood
/// over no score list before.
pub proof fn law_next_route(s: StoreView, map: Id, route: RouteView)
    requires
        s.wf(),
        s.has_map(map),
        !s.has_route_named(map, route.name),
        !s.in_use(route.id),
    ensures
        s.route_outcome(map, route.name, route.id) == Ok::<Id, StoreError>(route.id),
        s.after_route_request(map, route).wf(),
        s.after_route_request(map, route).routes_of(map) == s.routes_of(map).push(route),
        s.after_route_request(map, route).routes_of(map).len() == s.routes_of(map).len() + 1,
        s.after_route_request(map, route).routes_of(map).last().name == route.name,
        s.after_route_request(map, route).scores.contains_key(route.id),
        s.after_route_request(map, route).scores[route.id] == Seq::<ScoreView>::empty(),
        !s.has_route(route.id) && !s.scores.contains_key(route.id),
{
    lemma_with_route(s, map, route);
}

} // verus!
