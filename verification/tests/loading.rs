use parkour_api::error::StoreError;
use parkour_api::event::Event;
use parkour_api::game_map::{GameMap, Perks};
use parkour_api::persistence::{load_state, LoadReport, Saved};
use parkour_api::route::MapRoute;
use parkour_api::save_cycle::Failures;
use parkour_api::scores::ScoreEntry;
use parkour_api::time::Time;

const NOTHING: LoadReport = LoadReport { scores: None, maps: None, events: None, routes: None };

fn score(name: &str, seconds: f32) -> ScoreEntry {
    ScoreEntry { name: name.to_string(), time: Time::from_bits(seconds.to_bits()).unwrap() }
}

fn one_event() -> Saved<Vec<Event>> {
    Saved::Read(vec![Event {
        id: 1,
        name: "Spring Cup".to_string(),
        description: None,
        start: None,
        end: None,
    }])
}

fn one_map() -> Saved<Vec<(u128, Vec<GameMap>)>> {
    Saved::Read(vec![(1, vec![GameMap { id: 11, map_name: "Canyon".to_string(), perks: Perks::new() }])])
}

fn route(id: u128, name: &str) -> MapRoute {
    MapRoute { id, name: name.to_string(), perks: Perks::new(), entities: vec![], geometry: String::new() }
}

fn one_route() -> Saved<Vec<(u128, Vec<MapRoute>)>> {
    Saved::Read(vec![(11, vec![route(21, "Sprint")])])
}

fn one_list() -> Saved<Vec<(u128, Vec<ScoreEntry>)>> {
    Saved::Read(vec![(21, vec![score("alice", 39.0), score("bob", 40.0)])])
}

fn names(list: Vec<ScoreEntry>) -> Vec<(String, f32)> {
    list.into_iter().map(|e| (e.name, f32::from_bits(e.time.to_bits()))).collect()
}

#[test]
fn a_store_that_was_never_saved_loads_empty() {
    let loaded = load_state(Saved::Absent, Saved::Absent, Saved::Absent, Saved::Absent);
    assert_eq!(loaded.report, NOTHING);
    assert!(!loaded.report.any());
    let snap = loaded.state.snapshot();
    assert_eq!(snap.filled(), Failures { scores: false, maps: false, events: false, routes: false });
    assert!(snap.events.is_empty() && snap.maps.is_empty());
    assert!(snap.routes.is_empty() && snap.scores.is_empty());
}

#[test]
fn a_score_file_alone_is_loaded() {
    let loaded = load_state(one_list(), Saved::Absent, Saved::Absent, Saved::Absent);
    assert_eq!(loaded.report, NOTHING);
    let snap = loaded.state.snapshot();
    assert!(snap.events.is_empty() && snap.maps.is_empty() && snap.routes.is_empty());
    assert_eq!(snap.scores.len(), 1);
    assert_eq!(snap.scores[0].0, 21);
    assert_eq!(names(snap.scores[0].1.clone()), vec![("alice".to_string(), 39.0), ("bob".to_string(), 40.0)]);
    assert_eq!(loaded.state.list_scores(21).unwrap_err(), StoreError::ParentNotFound);
}

#[test]
fn each_file_is_loaded_by_itself() {
    let loaded = load_state(Saved::Absent, one_map(), Saved::Absent, Saved::Absent);
    assert_eq!(loaded.report, NOTHING);
    let snap = loaded.state.snapshot();
    assert!(snap.events.is_empty() && snap.routes.is_empty() && snap.scores.is_empty());
    assert_eq!(snap.maps.len(), 1);
    assert_eq!(snap.maps[0].0, 1);
    assert_eq!(snap.maps[0].1[0].id, 11);

    let loaded = load_state(Saved::Absent, Saved::Absent, Saved::Absent, one_route());
    assert_eq!(loaded.report, NOTHING);
    let snap = loaded.state.snapshot();
    assert!(snap.events.is_empty() && snap.maps.is_empty() && snap.scores.is_empty());
    assert_eq!(snap.routes[0].0, 11);
    assert_eq!(snap.routes[0].1[0].name, "Sprint");
    assert_eq!(loaded.state.list_routes(11).unwrap_err(), StoreError::ParentNotFound);

    let loaded = load_state(Saved::Absent, Saved::Absent, one_event(), Saved::Absent);
    assert_eq!(loaded.report, NOTHING);
    let snap = loaded.state.snapshot();
    assert!(snap.maps.is_empty() && snap.routes.is_empty() && snap.scores.is_empty());
    assert_eq!(snap.events[0].name, "Spring Cup");
    assert_eq!(loaded.state.list_maps(1).unwrap().len(), 0);
}

#[test]
fn all_four_files_are_loaded_together() {
    let mut loaded = load_state(one_list(), one_map(), one_event(), one_route());
    assert_eq!(loaded.report, NOTHING);
    let store = &mut loaded.state;
    assert_eq!(store.list_events().len(), 1);
    assert_eq!(store.list_maps(1).unwrap()[0].map_name, "Canyon");
    assert_eq!(store.list_routes(11).unwrap()[0].id, 21);
    assert_eq!(store.list_scores(21).unwrap().len(), 2);
    assert_eq!(store.list_scores(11).unwrap().len(), 0);
    assert_eq!(store.submit_score(21, score("alice", 38.0)), Ok(()));
    assert_eq!(store.submit_score(21, score("bob", 41.0)), Err(StoreError::NotImproved));
    assert_eq!(store.submit_score(11, score("carol", 5.0)), Ok(()));
    assert_eq!(store.list_scores(11).unwrap().len(), 1);
}

#[test]
fn a_part_that_cannot_be_read_fails_alone() {
    let loaded = load_state(Saved::Unreadable, one_map(), one_event(), one_route());
    assert_eq!(
        loaded.report,
        LoadReport { scores: Some(StoreError::SnapshotIoFailure), maps: None, events: None, routes: None }
    );
    assert!(loaded.report.any());
    assert_eq!(
        loaded.report.unloaded(),
        Failures { scores: true, maps: false, events: false, routes: false }
    );
    let snap = loaded.state.snapshot();
    assert_eq!(snap.filled(), Failures { scores: false, maps: true, events: true, routes: true });
    assert!(snap.scores.is_empty());
    assert_eq!(snap.events.len(), 1);
    assert_eq!(snap.maps.len(), 1);
    assert_eq!(snap.routes.len(), 1);
}

#[test]
fn a_part_that_does_not_parse_fails_alone() {
    let loaded = load_state(Saved::Unparsable, one_map(), one_event(), Saved::Unparsable);
    assert_eq!(
        loaded.report,
        LoadReport {
            scores: Some(StoreError::CorruptSnapshot),
            maps: None,
            events: None,
            routes: Some(StoreError::CorruptSnapshot)
        }
    );
    assert_eq!(loaded.state.list_events().len(), 1);
    assert_eq!(loaded.state.list_maps(1).unwrap()[0].id, 11);
    assert_eq!(loaded.state.list_routes(11).unwrap().len(), 0);

    let loaded = load_state(one_list(), Saved::Unreadable, Saved::Unparsable, one_route());
    assert_eq!(
        loaded.report,
        LoadReport {
            scores: None,
            maps: Some(StoreError::SnapshotIoFailure),
            events: Some(StoreError::CorruptSnapshot),
            routes: None
        }
    );
    assert_eq!(loaded.state.list_events().len(), 0);
    assert_eq!(loaded.state.list_scores(21).unwrap().len(), 2);
    assert_eq!(loaded.state.list_routes(11).unwrap_err(), StoreError::ParentNotFound);
    let snap = loaded.state.snapshot();
    assert!(snap.maps.is_empty());
    assert_eq!(snap.routes.len(), 1);
    assert_eq!(snap.scores.len(), 1);
}

#[test]
fn a_part_that_breaks_its_rules_fails_alone() {
    let unsorted = Saved::Read(vec![(21, vec![score("bob", 40.0), score("alice", 39.0)])]);
    let twice = Saved::Read(vec![(11, vec![route(21, "Sprint"), route(22, "Sprint")])]);
    let loaded = load_state(unsorted, one_map(), one_event(), twice);
    assert_eq!(
        loaded.report,
        LoadReport {
            scores: Some(StoreError::CorruptSnapshot),
            maps: None,
            events: None,
            routes: Some(StoreError::CorruptSnapshot)
        }
    );
    let snap = loaded.state.snapshot();
    assert!(snap.scores.is_empty() && snap.routes.is_empty());
    assert_eq!(snap.events.len(), 1);
    assert_eq!(snap.maps.len(), 1);
}

#[test]
fn what_was_loaded_alone_can_be_built_on() {
    use_loaded_events();
    use_loaded_routes();
}

fn use_loaded_events() {
    let mut loaded = load_state(Saved::Absent, Saved::Absent, one_event(), Saved::Absent);
    let store = &mut loaded.state;
    let draft = parkour_api::game_map::MapDraft { map_name: "Canyon".to_string(), perks: None };
    let id = store.create_map(1, draft).unwrap();
    assert_eq!(store.list_maps(1).unwrap()[0].id, id);
    assert_eq!(store.list_scores(id).unwrap().len(), 0);
    assert_eq!(store.list_routes(id).unwrap().len(), 0);
}

fn use_loaded_routes() {
    let mut loaded = load_state(one_list(), Saved::Absent, Saved::Absent, one_route());
    let store = &mut loaded.state;
    let named = |name: &str| parkour_api::route::RouteDraft {
        name: name.to_string(),
        perks: None,
        entities: None,
        geometry: String::new(),
    };
    assert_eq!(store.create_route(11, named("Dash")), Err(StoreError::ParentNotFound));
    assert_eq!(store.create_route(11, named("Sprint")), Err(StoreError::ParentNotFound));
    assert_eq!(store.create_route_with_id(11, named("Dash"), 77), Err(StoreError::ParentNotFound));
    assert_eq!(store.list_routes(11).unwrap_err(), StoreError::ParentNotFound);
    assert_eq!(store.submit_score(11, score("alice", 39.0)), Err(StoreError::ParentNotFound));
    assert_eq!(store.list_scores(11).unwrap_err(), StoreError::ParentNotFound);
    assert_eq!(store.list_scores(21).unwrap().len(), 2);
    assert_eq!(store.submit_score(21, score("alice", 38.0)), Ok(()));
    assert_eq!(store.submit_score(21, score("bob", 41.0)), Err(StoreError::NotImproved));
    assert!(store.id_in_use(11) && store.id_in_use(21));
    let snap = store.snapshot();
    assert_eq!(snap.routes.len(), 1);
    assert_eq!(snap.routes[0].1.len(), 1);
    assert_eq!(snap.scores.len(), 1);
}
