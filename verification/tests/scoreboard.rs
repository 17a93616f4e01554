use parkour_api::collections::Collections;
use parkour_api::event::EventDraft;
use parkour_api::game_map::MapDraft;
use parkour_api::route::RouteDraft;
use parkour_api::scoreboard::{date_label, is_running, label_of_date, rank, scoreboard, ScoreboardError};
use parkour_api::scores::ScoreEntry;
use parkour_api::store::Store;
use parkour_api::time::Time;

fn event(name: &str, start: Option<i64>, end: Option<i64>) -> EventDraft {
    EventDraft { name: name.to_string(), description: None, start, end }
}

fn map(name: &str) -> MapDraft {
    MapDraft { map_name: name.to_string(), perks: None }
}

fn route(name: &str) -> RouteDraft {
    RouteDraft { name: name.to_string(), perks: None, entities: None, geometry: String::new() }
}

fn score(name: &str, seconds: f32) -> ScoreEntry {
    ScoreEntry { name: name.to_string(), time: Time::from_bits(seconds.to_bits()).unwrap() }
}

fn season() -> Collections {
    let mut store = Collections::new();
    store.create_event_with_id(event("Spring Cup", Some(100), Some(200)), 1).unwrap();
    store.create_event_with_id(event("Summer Cup", Some(200), Some(300)), 2).unwrap();
    store.create_event_with_id(event("Open End", Some(400), None), 3).unwrap();
    store.create_map_with_id(1, map("Canyon"), 11).unwrap();
    store.create_map_with_id(1, map("Harbour"), 12).unwrap();
    store.create_map_with_id(2, map("Rooftops"), 13).unwrap();
    store.create_route_with_id(11, route("Sprint"), 21).unwrap();
    store.create_route_with_id(11, route("Marathon"), 22).unwrap();
    store.create_route_with_id(12, route("Sprint"), 23).unwrap();
    store.create_route_with_id(13, route("Sprint"), 24).unwrap();
    store.submit_score(21, score("alice", 42.5)).unwrap();
    store.submit_score(21, score("bob", 40.0)).unwrap();
    store.submit_score(23, score("carol", 12.0)).unwrap();
    store.submit_score(11, score("dave", 1.0)).unwrap();
    store
}

#[test]
fn the_scoreboard_shows_the_running_event() {
    let store = season();
    let board = scoreboard(&store, 150).unwrap();
    assert_eq!(board.event.id, 1);
    assert_eq!(board.event.name, "Spring Cup");
    let maps: Vec<u128> = board.maps.iter().map(|m| m.id).collect();
    assert_eq!(maps, vec![11, 12]);
    let rows: Vec<(u128, String, String, Vec<String>)> = board
        .results
        .iter()
        .map(|r| (r.id, r.name.clone(), r.map_name.clone(), r.scores.iter().map(|e| e.name.clone()).collect()))
        .collect();
    assert_eq!(
        rows,
        vec![
            (21, "Sprint".to_string(), "Canyon".to_string(), vec!["bob".to_string(), "alice".to_string()]),
            (22, "Marathon".to_string(), "Canyon".to_string(), vec![]),
            (23, "Sprint".to_string(), "Harbour".to_string(), vec!["carol".to_string()]),
        ]
    );
}

#[test]
fn an_event_runs_from_its_start_to_its_end() {
    let store = season();
    assert_eq!(scoreboard(&store, 100).unwrap().event.id, 1);
    assert_eq!(scoreboard(&store, 199).unwrap().event.id, 1);
    assert_eq!(scoreboard(&store, 201).unwrap().event.id, 2);
    assert_eq!(scoreboard(&store, 300).unwrap().event.id, 2);
    let events = store.list_events();
    assert!(is_running(&events[0], 100) && is_running(&events[0], 200));
    assert!(!is_running(&events[0], 99) && !is_running(&events[0], 201));
    assert!(!is_running(&events[2], 500));
}

#[test]
fn no_scoreboard_unless_one_event_is_running() {
    let store = season();
    assert_eq!(scoreboard(&store, 99).unwrap_err(), ScoreboardError::NotOneRunning { found: 0 });
    assert_eq!(scoreboard(&store, 200).unwrap_err(), ScoreboardError::NotOneRunning { found: 2 });
    assert_eq!(scoreboard(&store, 450).unwrap_err(), ScoreboardError::NotOneRunning { found: 0 });
    assert_eq!(
        scoreboard(&Collections::new(), 150).unwrap_err(),
        ScoreboardError::NotOneRunning { found: 0 }
    );
}

#[test]
fn the_shared_store_draws_the_same_scoreboard() {
    let shared = Store::holding(season());
    let board = shared.scoreboard(250).unwrap();
    assert_eq!(board.event.name, "Summer Cup");
    assert_eq!(board.maps.len(), 1);
    assert_eq!(board.results.len(), 1);
    assert_eq!(board.results[0].id, 24);
    assert_eq!(shared.scoreboard(0).unwrap_err(), ScoreboardError::NotOneRunning { found: 0 });
}

#[test]
fn ranks_count_from_one() {
    assert_eq!(rank(0), 1);
    assert_eq!(rank(41), 42);
    assert_eq!(rank(-1), 0);
    assert_eq!(rank(i64::MAX - 1), i64::MAX);
    assert_eq!(rank(i64::MAX), i64::MAX);
}

#[test]
fn dates_are_shown_in_utc() {
    assert_eq!(date_label(1431648000), Some("2015-05-15 00:00:00 UTC".to_string()));
    assert_eq!(date_label(0), Some("1970-01-01 00:00:00 UTC".to_string()));
    assert_eq!(date_label(-1), Some("1969-12-31 23:59:59 UTC".to_string()));
    assert_eq!(date_label(i64::MAX), None);
    assert_eq!(date_label(i64::MIN), None);
    assert_eq!(label_of_date("2015-05-15 00:00:00".to_string()), "2015-05-15 00:00:00 UTC");
}
