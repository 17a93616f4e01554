//! What the public scoreboard shows.
//!
//! The scoreboard shows the event that is running: its maps, and for every
//! route of every one of these maps the route's score list. An event is
//! running from its start to its end, both included; an event that lacks one
//! of the two never is. The scoreboard can be drawn only if exactly one event
//! is running.

use vstd::prelude::*;
use crate::collections::Collections;
use crate::event::{event_views, Event, EventView};
use crate::game_map::{map_views, GameMap, MapView};
use crate::ids::Id;
use crate::model::StoreView;
use crate::route::{route_views, MapRoute};
use crate::scores::{entry_views, ScoreEntry, ScoreView};
use crate::text::optional_text;
use vstd::string::StringExecFns;

verus! {

/// One block of the scoreboard: a route, the map it belongs to, and its score
/// list.
#[derive(Debug, PartialEq, Eq)]
pub struct RouteResult {
    pub id: Id,
    pub name: String,
    pub map_name: String,
    pub scores: Vec<ScoreEntry>,
}

/// What a route result says.
pub ghost struct RouteResultView {
    pub id: Id,
    pub name: Seq<char>,
    pub map_name: Seq<char>,
    pub scores: Seq<ScoreView>,
}

impl View for RouteResult {
    type V = RouteResultView;

    open spec fn view(&self) -> RouteResultView {
        RouteResultView {
            id: self.id,
            name: self.name@,
            map_name: self.map_name@,
            scores: entry_views(self.scores@),
        }
    }
}

/// What a sequence of route results says.
pub open spec fn result_views(results: Seq<RouteResult>) -> Seq<RouteResultView> {
    results.map_values(|r: RouteResult| r@)
}

/// What the scoreboard shows.
#[derive(Debug, PartialEq, Eq)]
pub struct Scoreboard {
    pub event: Event,
    pub maps: Vec<GameMap>,
    pub results: Vec<RouteResult>,
}

/// What a scoreboard says.
pub ghost struct ScoreboardView {
    pub event: EventView,
    pub maps: Seq<MapView>,
    pub results: Seq<RouteResultView>,
}

impl View for Scoreboard {
    type V = ScoreboardView;

    open spec fn view(&self) -> ScoreboardView {
        ScoreboardView {
            event: self.event@,
            maps: map_views(self.maps@),
            results: result_views(self.results@),
        }
    }
}

/// Why no scoreboard can be drawn.
#[derive(Clone, Copy, Debug, PartialEq, Eq, Structural)]
pub enum ScoreboardError {
    /// Not one event is running, but so many.
    NotOneRunning { found: usize },
}

/// Whether the event is running at the time `now`, in seconds since the Unix
/// epoch.
pub open spec fn runs_at(event: EventView, now: i64) -> bool {
    event.start matches Some(start) && event.end matches Some(end) && start <= now <= end
}

/// How many of the first `k` events are running.
pub open spec fn running_upto(events: Seq<EventView>, now: i64, k: int) -> int
    decreases k,
{
    if k <= 0 {
        0
    } else {
        running_upto(events, now, k - 1) + if runs_at(events[k - 1], now) {
            1int
        } else {
            0int
        }
    }
}

/// How many events are running.
pub open spec fn running(events: Seq<EventView>, now: i64) -> int {
    running_upto(events, now, events.len() as int)
}

/// Whether the event at position `i` is running, and the only one that is.
pub open spec fn only_running(events: Seq<EventView>, now: i64, i: int) -> bool {
    &&& 0 <= i < events.len()
    &&& runs_at(events[i], now)
    &&& forall|j: int| 0 <= j < events.len() && runs_at(#[trigger] events[j], now) ==> j == i
}

/// The results for one map: one for each of its routes, in their order.
pub open spec fn results_of_map(s: StoreView, map: MapView) -> Seq<RouteResultView> {
    Seq::new(
        s.routes_of(map.id).len(),
        |i: int|
            RouteResultView {
                id: s.routes_of(map.id)[i].id,
                name: s.routes_of(map.id)[i].name,
                map_name: map.map_name,
                scores: s.scores_of(s.routes_of(map.id)[i].id),
            },
    )
}

/// The results for the first `k` of `maps`, map by map.
pub open spec fn results_upto(s: StoreView, maps: Seq<MapView>, k: int) -> Seq<RouteResultView>
    decreases k,
{
    if k <= 0 {
        Seq::empty()
    } else {
        results_upto(s, maps, k - 1) + results_of_map(s, maps[k - 1])
    }
}

/// The scoreboard of the event at position `i`.
pub open spec fn scoreboard_of(s: StoreView, i: int) -> ScoreboardView {
    let event = s.events[i];
    let maps = s.maps_of(event.id);
    ScoreboardView { event, maps, results: results_upto(s, maps, maps.len() as int) }
}

/// Whether `outcome` is what the scoreboard comes to at the time `now`.
pub open spec fn draws(s: StoreView, now: i64, outcome: Result<Scoreboard, ScoreboardError>)
    -> bool {
    match outcome {
        Ok(board) => exists|i: int| #[trigger]
            only_running(s.events, now, i) && board@ == scoreboard_of(s, i),
        Err(ScoreboardError::NotOneRunning { found }) => found == running(s.events, now) && found
            != 1,
    }
}

/// Where none of the first `k` events is running, none is counted.
proof fn lemma_none_running(events: Seq<EventView>, now: i64, k: int)
    requires
        0 <= k <= events.len(),
        forall|j: int| 0 <= j < k ==> !runs_at(#[trigger] events[j], now),
    ensures
        running_upto(events, now, k) == 0,
    decreases k,
{
    if k > 0 {
        lemma_none_running(events, now, k - 1);
    }
}

/// Where the event at position `i` is the only one of the first `k` events
/// that is running, one is counted.
proof fn lemma_one_running(events: Seq<EventView>, now: i64, i: int, k: int)
    requires
        0 <= i < k <= events.len(),
        runs_at(events[i], now),
        forall|j: int| 0 <= j < k && runs_at(#[trigger] events[j], now) ==> j == i,
    ensures
        running_upto(events, now, k) == 1,
    decreases k,
{
    if k - 1 == i {
        lemma_none_running(events, now, i);
    } else {
        lemma_one_running(events, now, i, k - 1);
    }
}

/// A scoreboard is drawn exactly if one event is running: where an event is
/// the only one that is running, the count of running events is one, and
/// where the count is one, some event is the only one that is running.
pub proof fn law_one_running(events: Seq<EventView>, now: i64)
    ensures
        running(events, now) == 1 <==> exists|i: int| #[trigger] only_running(events, now, i),
{
    if exists|i: int| #[trigger] only_running(events, now, i) {
        let i = choose|i: int| #[trigger] only_running(events, now, i);
        lemma_one_running(events, now, i, events.len() as int);
    }
    if running(events, now) == 1 {
        let i = lemma_find_running(events, now, events.len() as int);
        assert(only_running(events, now, i));
    }
}

/// Where one of the first `k` events is counted as running, one of them is
/// running and no other is.
proof fn lemma_find_running(events: Seq<EventView>, now: i64, k: int) -> (i: int)
    requires
        0 <= k <= events.len(),
        running_upto(events, now, k) == 1,
    ensures
        0 <= i < k,
        runs_at(events[i], now),
        forall|j: int| 0 <= j < k && runs_at(#[trigger] events[j], now) ==> j == i,
    decreases k,
{
    if runs_at(events[k - 1], now) {
        assert(running_upto(events, now, k - 1) == 0);
        assert forall|j: int| 0 <= j < k - 1 implies !runs_at(#[trigger] events[j], now) by {
            if runs_at(events[j], now) {
                lemma_some_running(events, now, j, k - 1);
            }
        }
        k - 1
    } else {
        lemma_find_running(events, now, k - 1)
    }
}

/// From one running event on, at least one is counted.
proof fn lemma_some_running(events: Seq<EventView>, now: i64, j: int, k: int)
    requires
        0 <= j < k <= events.len(),
        runs_at(events[j], now),
    ensures
        running_upto(events, now, k) >= 1,
    decreases k,
{
    if k - 1 > j {
        lemma_some_running(events, now, j, k - 1);
    } else {
        lemma_count_is_natural(events, now, k - 1);
    }
}

/// A count is never negative.
proof fn lemma_count_is_natural(events: Seq<EventView>, now: i64, k: int)
    ensures
        running_upto(events, now, k) >= 0,
    decreases k,
{
    if k > 0 {
        lemma_count_is_natural(events, now, k - 1);
    }
}

/// Whether the event is running at the time `now`.
pub fn is_running(event: &Event, now: i64) -> (running: bool)
    ensures
        running == runs_at(event@, now),
{
    match (event.start, event.end) {
        (Some(start), Some(end)) => start <= now && now <= end,
        _ => false,
    }
}

/// The results for one map.
fn map_results(state: &Collections, map: &GameMap, routes: &Vec<MapRoute>) -> (results: Vec<
    RouteResult,
>)
    requires
        state@.wf(),
        route_views(routes@) == state@.routes_of(map.id),
    ensures
        result_views(results@) == results_of_map(state@, map@),
{
    let ghost s = state@;
    let mut results: Vec<RouteResult> = Vec::new();
    let mut i: usize = 0;
    while i < routes.len()
        invariant
            i <= routes.len(),
            s == state@,
            s.wf(),
            route_views(routes@) == s.routes_of(map.id),
            results.len() == i,
            forall|j: int|
                0 <= j < i ==> (#[trigger] results[j])@ == results_of_map(s, map@)[j],
        decreases routes.len() - i,
    {
        let route = &routes[i];
        proof {
            assert(s.routes_of(map.id)[i as int] == route@);
            assert(s.routes_of(map.id).len() == routes.len());
            assert(s.routes.contains_key(map.id));
            assert(s.route_at(map.id, i as int));
            assert(s.has_route(route.id));
        }
        let scores = match state.list_scores(route.id) {
            Ok(list) => list,
            Err(_) => Vec::new(),
        };
        results.push(
            RouteResult {
                id: route.id,
                name: route.name.clone(),
                map_name: map.map_name.clone(),
                scores,
            },
        );
        i += 1;
    }
    assert(result_views(results@) =~= results_of_map(s, map@));
    results
}

/// Draws the scoreboard for the time `now`, in seconds since the Unix epoch.
pub fn scoreboard(state: &Collections, now: i64) -> (outcome: Result<Scoreboard, ScoreboardError>)
    ensures
        draws(state@, now, outcome),
{
    proof {
        use_type_invariant(state);
    }
    let ghost s = state@;
    let events = state.list_events();
    let mut found: usize = 0;
    let mut at: usize = 0;
    let mut i: usize = 0;
    while i < events.len()
        invariant
            i <= events.len(),
            event_views(events@) == s.events,
            found == running_upto(s.events, now, i as int),
            found <= i,
            found == 0 ==> forall|j: int| 0 <= j < i ==> !runs_at(#[trigger] s.events[j], now),
            found == 1 ==> at < i && runs_at(s.events[at as int], now),
            found == 1 ==> forall|j: int|
                0 <= j < i && runs_at(#[trigger] s.events[j], now) ==> j == at,
        decreases events.len() - i,
    {
        assert(s.events[i as int] == events[i as int]@);
        if is_running(&events[i], now) {
            found += 1;
            at = i;
        }
        i += 1;
    }
    if found != 1 {
        return Err(ScoreboardError::NotOneRunning { found });
    }
    assert(only_running(s.events, now, at as int));
    let event = events[at].clone();
    proof {
        assert(s.events[at as int] == event@);
        assert(s.has_event(event.id));
    }
    let maps = match state.list_maps(event.id) {
        Ok(list) => list,
        Err(_) => Vec::new(),
    };
    assert(map_views(maps@) == s.maps_of(event.id));
    let mut results: Vec<RouteResult> = Vec::new();
    let mut k: usize = 0;
    assert(result_views(results@) =~= results_upto(s, s.maps_of(event.id), 0));
    while k < maps.len()
        invariant
            k <= maps.len(),
            s == state@,
            s.wf(),
            map_views(maps@) == s.maps_of(event.id),
            result_views(results@) == results_upto(s, s.maps_of(event.id), k as int),
        decreases maps.len() - k,
    {
        let map = &maps[k];
        proof {
            assert(s.maps_of(event.id)[k as int] == map@);
            assert(s.maps_of(event.id).len() == maps.len());
            assert(s.maps.contains_key(event.id));
            assert(s.map_at(event.id, k as int));
            assert(s.has_map(map.id));
        }
        let routes = match state.list_routes(map.id) {
            Ok(list) => list,
            Err(_) => Vec::new(),
        };
        let mut more = map_results(state, map, &routes);
        let ghost before = result_views(results@);
        let ghost added = result_views(more@);
        results.append(&mut more);
        assert(result_views(results@) =~= before + added);
        k += 1;
    }
    let board = Scoreboard { event, maps, results };
    assert(board@ == scoreboard_of(s, at as int));
    Ok(board)
}

/// The rank shown for the entry at position `index` of a score list: one
/// more than the position, as far as that can be counted.
pub fn rank(index: i64) -> (rank: i64)
    ensures
        index < i64::MAX ==> rank == index + 1,
        index == i64::MAX ==> rank == i64::MAX,
{
    if index < i64::MAX {
        index + 1
    } else {
        i64::MAX
    }
}

/// The date and time in UTC of a moment given in seconds since the Unix epoch,
/// written as year, month and day with hyphens between, a space, and hour,
/// minute and second with colons between; month, day, hour, minute and second
/// have two digits each, and the year has four, or a sign and more digits
/// where it lies outside 0 to 9999. `None` for a moment too far from the
/// epoch to have a date.
pub uninterp spec fn utc_date_text(timestamp: i64) -> Option<Seq<char>>;

/// The date and time in UTC of a moment given in seconds since the Unix
/// epoch.
///
/// Calls `chrono::DateTime::from_timestamp` and formats what it gives with
/// `DateTime::format`. The text depends on the moment alone, and is named
/// [`utc_date_text`]; `from_timestamp` gives nothing for a moment whose day
/// does not fit its calendar, and then there is no text.
#[verifier::external_body]
fn utc_date(timestamp: i64) -> (text: Option<String>)
    ensures
        optional_text(text) == utc_date_text(timestamp),
{
    match chrono::DateTime::from_timestamp(timestamp, 0) {
        Some(moment) => Some(moment.format("%Y-%m-%d %H:%M:%S").to_string()),
        None => None,
    }
}

/// What follows a date on the scoreboard.
pub open spec fn utc_suffix() -> Seq<char> {
    seq![' ', 'U', 'T', 'C']
}

/// The label that the scoreboard shows for a date.
pub fn label_of_date(date: String) -> (label: String)
    ensures
        label@ == date@ + utc_suffix(),
{
    let mut label = date;
    label.append(" UTC");
    proof {
        reveal_strlit(" UTC");
        assert(" UTC"@ =~= utc_suffix());
    }
    label
}

/// The label that the scoreboard shows for a moment given in seconds since
/// the Unix epoch, or `None` for a moment too far from the epoch to have a
/// date.
pub fn date_label(timestamp: i64) -> (label: Option<String>)
    ensures
        optional_text(label) == match utc_date_text(timestamp) {
            Some(date) => Some(date + utc_suffix()),
            None => None,
        },
{
    match utc_date(timestamp) {
        Some(date) => Some(label_of_date(date)),
        None => None,
    }
}

} // verus!
