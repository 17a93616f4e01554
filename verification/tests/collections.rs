use parkour_api::collections::Collections;
use parkour_api::error::{StoreError, Verdict};
use parkour_api::event::EventDraft;
use parkour_api::game_map::{MapDraft, Perks};
use parkour_api::ids::{has_random_uuid_shape, Id};
use parkour_api::route::RouteDraft;
use parkour_api::scores::{ScoreEntry, ScoreList};
use parkour_api::time::Time;

const E1: Id = 0xe1;
const M1: Id = 0xa1;
const M2: Id = 0xa2;
const R1: Id = 0xb1;

fn event(name: &str) -> EventDraft {
    EventDraft { name: name.to_string(), description: None, start: None, end: None }
}

fn map(name: &str) -> MapDraft {
    MapDraft { map_name: name.to_string(), perks: None }
}

fn route(name: &str) -> RouteDraft {
    RouteDraft { name: name.to_string(), perks: None, entities: None, geometry: String::new() }
}

fn perks(key: &str, value: &str) -> Perks {
    let mut perks = Perks::new();
    perks.insert(key.to_string(), value.to_string());
    perks
}

fn score(name: &str, seconds: f32) -> ScoreEntry {
    ScoreEntry { name: name.to_string(), time: Time::from_bits(seconds.to_bits()).unwrap() }
}

fn board(store: &Collections, leaf: Id) -> Vec<(String, f32)> {
    store
        .list_scores(leaf)
        .unwrap()
        .into_iter()
        .map(|e| (e.name, f32::from_bits(e.time.to_bits())))
        .collect()
}

fn pair(name: &str, seconds: f32) -> (String, f32) {
    (name.to_string(), seconds)
}

#[test]
fn spring_cup_scenario() {
    let mut store = Collections::new();
    assert_eq!(store.create_event_with_id(event("Spring Cup"), E1), Ok(E1));
    assert_eq!(store.create_map_with_id(E1, map("Canyon"), M1), Ok(M1));
    assert_eq!(board(&store, M1), vec![]);
    assert_eq!(store.create_route_with_id(M1, route("Sprint"), R1), Ok(R1));
    assert_eq!(board(&store, R1), vec![]);

    assert_eq!(store.submit_score(R1, score("alice", 42.5)), Ok(()));
    assert_eq!(board(&store, R1), vec![pair("alice", 42.5)]);

    assert_eq!(store.submit_score(R1, score("bob", 40.0)), Ok(()));
    assert_eq!(board(&store, R1), vec![pair("bob", 40.0), pair("alice", 42.5)]);

    assert_eq!(store.submit_score(R1, score("alice", 45.0)), Err(StoreError::NotImproved));
    assert_eq!(board(&store, R1), vec![pair("bob", 40.0), pair("alice", 42.5)]);

    assert_eq!(store.submit_score(R1, score("alice", 39.0)), Ok(()));
    assert_eq!(board(&store, R1), vec![pair("alice", 39.0), pair("bob", 40.0)]);
}

#[test]
fn spring_cup_scenario_with_minted_identifiers() {
    let mut store = Collections::new();
    let e1 = store.create_event(event("Spring Cup")).unwrap();
    let m1 = store.create_map(e1, map("Canyon")).unwrap();
    assert_eq!(board(&store, m1), vec![]);
    let r1 = store.create_route(m1, route("Sprint")).unwrap();
    assert_eq!(board(&store, r1), vec![]);
    assert!(e1 != m1 && m1 != r1 && e1 != r1);
    assert!(has_random_uuid_shape(e1) && has_random_uuid_shape(m1) && has_random_uuid_shape(r1));

    assert_eq!(store.submit_score(r1, score("alice", 42.5)), Ok(()));
    assert_eq!(store.submit_score(r1, score("bob", 40.0)), Ok(()));
    assert_eq!(store.submit_score(r1, score("alice", 45.0)), Err(StoreError::NotImproved));
    assert_eq!(store.submit_score(r1, score("alice", 39.0)), Ok(()));
    assert_eq!(board(&store, r1), vec![pair("alice", 39.0), pair("bob", 40.0)]);
}

#[test]
fn a_map_under_a_missing_event_is_turned_down() {
    let mut store = Collections::new();
    assert_eq!(store.create_event_with_id(event("Spring Cup"), E1), Ok(E1));
    assert_eq!(store.create_map_with_id(0x99, map("Canyon"), M1), Err(StoreError::ParentNotFound));
    assert_eq!(store.create_map(0x99, map("Canyon")), Err(StoreError::ParentNotFound));
    assert_eq!(store.list_maps(E1).unwrap().len(), 0);
    assert_eq!(store.list_maps(0x99).unwrap_err(), StoreError::ParentNotFound);
    assert_eq!(store.list_scores(M1).unwrap_err(), StoreError::ParentNotFound);
    let snap = store.snapshot();
    assert_eq!(snap.maps.len(), 1);
    assert_eq!(snap.maps[0].1.len(), 0);
    assert_eq!(snap.scores.len(), 0);
}

#[test]
fn children_with_distinct_names_are_all_created() {
    let mut store = Collections::new();
    let e1 = store.create_event(event("Spring Cup")).unwrap();
    let names = ["Canyon", "Harbour", "Rooftops", "Quarry", "Tunnels"];
    let mut ids: Vec<Id> = Vec::new();
    for name in names {
        ids.push(store.create_map(e1, map(name)).unwrap());
    }
    for i in 0..ids.len() {
        for j in 0..i {
            assert_ne!(ids[i], ids[j]);
        }
    }
    let listed = store.list_maps(e1).unwrap();
    assert_eq!(listed.len(), 5);
    for i in 0..5 {
        assert_eq!(listed[i].id, ids[i]);
        assert_eq!(listed[i].map_name, names[i]);
    }
    assert_eq!(store.create_map(e1, map("Rooftops")), Err(StoreError::AlreadyExists));
    assert_eq!(store.list_maps(e1).unwrap().len(), 5);
}

#[test]
fn names_are_unique_under_one_parent_only() {
    let mut store = Collections::new();
    let e1 = store.create_event(event("Spring Cup")).unwrap();
    let e2 = store.create_event(event("Autumn Cup")).unwrap();
    assert_eq!(store.create_event(event("Spring Cup")), Err(StoreError::AlreadyExists));
    let m1 = store.create_map(e1, map("Canyon")).unwrap();
    let m2 = store.create_map(e2, map("Canyon")).unwrap();
    assert_ne!(m1, m2);
    let r1 = store.create_route(m1, route("Sprint")).unwrap();
    let r2 = store.create_route(m2, route("Sprint")).unwrap();
    assert_ne!(r1, r2);
    assert_eq!(store.create_route(m1, route("Sprint")), Err(StoreError::AlreadyExists));
    assert_eq!(store.list_routes(m1).unwrap().len(), 1);
    assert_eq!(store.list_events().len(), 2);
}

#[test]
fn names_are_compared_as_written() {
    let mut store = Collections::new();
    let e1 = store.create_event(event("Spring Cup")).unwrap();
    let m1 = store.create_map(e1, map("Canyon")).unwrap();
    assert!(store.create_map(e1, map("canyon")).is_ok());
    assert_eq!(store.submit_score(m1, score("alice", 10.0)), Ok(()));
    assert_eq!(store.submit_score(m1, score("Alice", 12.0)), Ok(()));
    assert_eq!(board(&store, m1), vec![pair("alice", 10.0), pair("Alice", 12.0)]);
}

#[test]
fn an_identifier_names_one_thing_only() {
    let mut store = Collections::new();
    assert_eq!(store.create_event_with_id(event("Spring Cup"), E1), Ok(E1));
    assert_eq!(store.create_event_with_id(event("Autumn Cup"), E1), Err(StoreError::IdentifierInUse));
    assert_eq!(store.create_map_with_id(E1, map("Canyon"), E1), Err(StoreError::IdentifierInUse));
    assert_eq!(store.create_map_with_id(E1, map("Canyon"), M1), Ok(M1));
    assert_eq!(store.create_map_with_id(E1, map("Harbour"), M1), Err(StoreError::IdentifierInUse));
    assert_eq!(store.create_route_with_id(M1, route("Sprint"), M1), Err(StoreError::IdentifierInUse));
    assert_eq!(store.create_route_with_id(M1, route("Sprint"), R1), Ok(R1));
    assert_eq!(store.create_map_with_id(E1, map("Harbour"), R1), Err(StoreError::IdentifierInUse));
    assert_eq!(store.create_event_with_id(event("Autumn Cup"), R1), Err(StoreError::IdentifierInUse));
    assert!(store.id_in_use(E1) && store.id_in_use(M1) && store.id_in_use(R1));
    assert!(!store.id_in_use(M2));
    assert_eq!(store.list_events().len(), 1);
    assert_eq!(store.list_maps(E1).unwrap().len(), 1);
    assert_eq!(store.list_routes(M1).unwrap().len(), 1);
}

#[test]
fn a_duplicate_name_is_reported_before_a_used_identifier() {
    let mut store = Collections::new();
    assert_eq!(store.create_event_with_id(event("Spring Cup"), E1), Ok(E1));
    assert_eq!(store.create_event_with_id(event("Spring Cup"), E1), Err(StoreError::AlreadyExists));
    assert_eq!(store.create_map_with_id(E1, map("Canyon"), M1), Ok(M1));
    assert_eq!(store.create_map_with_id(E1, map("Canyon"), M1), Err(StoreError::AlreadyExists));
    assert_eq!(store.create_map_with_id(0x99, map("Canyon"), M1), Err(StoreError::ParentNotFound));
}

#[test]
fn routes_hang_under_maps_not_under_events_or_routes() {
    let mut store = Collections::new();
    assert_eq!(store.create_event_with_id(event("Spring Cup"), E1), Ok(E1));
    assert_eq!(store.create_map_with_id(E1, map("Canyon"), M1), Ok(M1));
    assert_eq!(store.create_route_with_id(M1, route("Sprint"), R1), Ok(R1));
    assert_eq!(store.create_route_with_id(E1, route("Sprint"), 0xb2), Err(StoreError::ParentNotFound));
    assert_eq!(store.create_route_with_id(R1, route("Sprint"), 0xb2), Err(StoreError::ParentNotFound));
    assert_eq!(store.create_map_with_id(M1, map("Harbour"), M2), Err(StoreError::ParentNotFound));
    assert_eq!(store.list_routes(R1).unwrap_err(), StoreError::ParentNotFound);
    assert_eq!(store.list_routes(E1).unwrap_err(), StoreError::ParentNotFound);
    assert_eq!(store.list_maps(M1).unwrap_err(), StoreError::ParentNotFound);
}

#[test]
fn scores_go_to_maps_and_routes_only() {
    let mut store = Collections::new();
    assert_eq!(store.create_event_with_id(event("Spring Cup"), E1), Ok(E1));
    assert_eq!(store.create_map_with_id(E1, map("Canyon"), M1), Ok(M1));
    assert_eq!(store.submit_score(E1, score("alice", 42.5)), Err(StoreError::ParentNotFound));
    assert_eq!(store.submit_score(0x77, score("alice", 42.5)), Err(StoreError::ParentNotFound));
    assert_eq!(store.submit_score(M1, score("alice", 42.5)), Ok(()));
    assert_eq!(board(&store, M1), vec![pair("alice", 42.5)]);
}

#[test]
fn absent_perks_and_entities_become_empty() {
    let mut store = Collections::new();
    assert_eq!(store.create_event_with_id(event("Spring Cup"), E1), Ok(E1));
    assert_eq!(store.create_map_with_id(E1, map("Canyon"), M1), Ok(M1));
    let with_perks = MapDraft { map_name: "Harbour".to_string(), perks: Some(perks("speed", "2")) };
    assert_eq!(store.create_map_with_id(E1, with_perks, M2), Ok(M2));
    let maps = store.list_maps(E1).unwrap();
    assert_eq!(maps[0].perks, Perks::new());
    assert_eq!(maps[1].perks, perks("speed", "2"));

    assert_eq!(store.create_route_with_id(M1, route("Sprint"), R1), Ok(R1));
    let full = RouteDraft {
        name: "Marathon".to_string(),
        perks: Some(perks("jump", "high")),
        entities: Some(vec!["{\"model_name\":\"crate\"}".to_string()]),
        geometry: "{\"checkpoints\":[]}".to_string(),
    };
    assert_eq!(store.create_route_with_id(M1, full, 0xb2), Ok(0xb2));
    let routes = store.list_routes(M1).unwrap();
    assert_eq!(routes[0].perks, Perks::new());
    assert_eq!(routes[0].entities.len(), 0);
    assert_eq!(routes[0].geometry, "");
    assert_eq!(routes[1].perks, perks("jump", "high"));
    assert_eq!(routes[1].entities, vec!["{\"model_name\":\"crate\"}".to_string()]);
    assert_eq!(routes[1].geometry, "{\"checkpoints\":[]}");
}

#[test]
fn an_event_keeps_what_the_draft_says() {
    let mut store = Collections::new();
    let draft = EventDraft {
        name: "Spring Cup".to_string(),
        description: Some("first of the year".to_string()),
        start: Some(1_700_000_000),
        end: Some(1_700_086_400),
    };
    assert_eq!(store.create_event_with_id(draft, E1), Ok(E1));
    let events = store.list_events();
    assert_eq!(events.len(), 1);
    assert_eq!(events[0].id, E1);
    assert_eq!(events[0].name, "Spring Cup");
    assert_eq!(events[0].description, Some("first of the year".to_string()));
    assert_eq!(events[0].start, Some(1_700_000_000));
    assert_eq!(events[0].end, Some(1_700_086_400));
}

#[test]
fn listing_twice_gives_the_same() {
    let mut store = Collections::new();
    let e1 = store.create_event(event("Spring Cup")).unwrap();
    let m1 = store.create_map(e1, map("Canyon")).unwrap();
    let r1 = store.create_route(m1, route("Sprint")).unwrap();
    store.submit_score(r1, score("alice", 42.5)).unwrap();
    store.submit_score(r1, score("bob", 40.0)).unwrap();
    assert_eq!(store.list_events(), store.list_events());
    assert_eq!(store.list_maps(e1), store.list_maps(e1));
    assert_eq!(store.list_routes(m1), store.list_routes(m1));
    assert_eq!(board(&store, r1), board(&store, r1));
    assert_eq!(store.list_maps(0x99), store.list_maps(0x99));
}

#[test]
fn equal_times_rank_in_order_of_submission() {
    let mut store = Collections::new();
    let e1 = store.create_event(event("Spring Cup")).unwrap();
    let m1 = store.create_map(e1, map("Canyon")).unwrap();
    store.submit_score(m1, score("carol", 40.0)).unwrap();
    store.submit_score(m1, score("alice", 40.0)).unwrap();
    store.submit_score(m1, score("bob", 40.0)).unwrap();
    assert_eq!(board(&store, m1), vec![pair("carol", 40.0), pair("alice", 40.0), pair("bob", 40.0)]);
    assert_eq!(store.submit_score(m1, score("carol", 40.0)), Err(StoreError::NotImproved));
    store.submit_score(m1, score("dave", 39.5)).unwrap();
    store.submit_score(m1, score("erin", 41.0)).unwrap();
    assert_eq!(
        board(&store, m1),
        vec![
            pair("dave", 39.5),
            pair("carol", 40.0),
            pair("alice", 40.0),
            pair("bob", 40.0),
            pair("erin", 41.0)
        ]
    );
}

#[test]
fn each_error_calls_for_its_answer() {
    assert_eq!(StoreError::ParentNotFound.verdict(), Verdict::NotFound);
    assert_eq!(StoreError::AlreadyExists.verdict(), Verdict::Conflict);
    assert_eq!(StoreError::NotImproved.verdict(), Verdict::Conflict);
    assert_eq!(StoreError::IdentifierInUse.verdict(), Verdict::Failure);
    assert_eq!(StoreError::CorruptSnapshot.verdict(), Verdict::Failure);
    assert_eq!(StoreError::SnapshotIoFailure.verdict(), Verdict::Failure);
}

#[test]
fn a_score_list_can_be_put_in_the_place_of_another() {
    let mut store = Collections::new();
    assert_eq!(store.create_event_with_id(event("Spring Cup"), E1), Ok(E1));
    assert_eq!(store.create_map_with_id(E1, map("Canyon"), M1), Ok(M1));
    store.submit_score(M1, score("alice", 42.5)).unwrap();
    let list = ScoreList::from_entries(vec![score("bob", 1.0), score("carol", 2.0)]).unwrap();
    assert_eq!(store.replace_scores(M1, list), Ok(()));
    assert_eq!(board(&store, M1), vec![pair("bob", 1.0), pair("carol", 2.0)]);
    assert_eq!(store.replace_scores(E1, ScoreList::new()), Err(StoreError::ParentNotFound));
    assert_eq!(store.replace_scores(0x77, ScoreList::new()), Err(StoreError::ParentNotFound));
    assert_eq!(board(&store, M1), vec![pair("bob", 1.0), pair("carol", 2.0)]);
}
