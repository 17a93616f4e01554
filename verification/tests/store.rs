use parkour_api::error::StoreError;
use parkour_api::event::EventDraft;
use parkour_api::game_map::MapDraft;
use parkour_api::ids::has_random_uuid_shape;
use parkour_api::route::RouteDraft;
use parkour_api::scores::ScoreEntry;
use parkour_api::store::Store;
use parkour_api::time::Time;

fn event(name: &str) -> EventDraft {
    EventDraft { name: name.to_string(), description: None, start: None, end: None }
}

fn map(name: &str) -> MapDraft {
    MapDraft { map_name: name.to_string(), perks: None }
}

fn route(name: &str) -> RouteDraft {
    RouteDraft { name: name.to_string(), perks: None, entities: None, geometry: String::new() }
}

fn score(name: &str, seconds: f32) -> ScoreEntry {
    ScoreEntry { name: name.to_string(), time: Time::from_bits(seconds.to_bits()).unwrap() }
}

fn board(store: &Store, leaf: u128) -> Vec<(String, f32)> {
    store
        .list_scores(leaf)
        .unwrap()
        .into_iter()
        .map(|e| (e.name, f32::from_bits(e.time.to_bits())))
        .collect()
}

#[test]
fn a_new_store_is_empty() {
    let store = Store::new();
    assert!(!store.has_events());
    assert_eq!(store.list_events().len(), 0);
    let snap = store.snapshot();
    assert_eq!(snap.events.len(), 0);
    assert_eq!(snap.maps.len(), 0);
    assert_eq!(snap.routes.len(), 0);
    assert_eq!(snap.scores.len(), 0);
}

#[test]
fn handles_share_one_state() {
    let store = Store::new();
    let other = store.clone();
    let e1 = store.create_event(event("Spring Cup")).unwrap();
    assert!(other.has_events());
    let m1 = other.create_map(e1, map("Canyon")).unwrap();
    let r1 = store.create_route(m1, route("Sprint")).unwrap();
    assert!(has_random_uuid_shape(e1) && has_random_uuid_shape(m1) && has_random_uuid_shape(r1));
    assert_eq!(other.list_maps(e1).unwrap()[0].id, m1);
    assert_eq!(other.list_routes(m1).unwrap()[0].id, r1);
    assert_eq!(board(&other, m1), vec![]);
    assert_eq!(board(&other, r1), vec![]);

    assert_eq!(store.submit_score(r1, score("alice", 42.5)), Ok(()));
    assert_eq!(other.submit_score(r1, score("bob", 40.0)), Ok(()));
    assert_eq!(store.submit_score(r1, score("alice", 45.0)), Err(StoreError::NotImproved));
    assert_eq!(other.submit_score(r1, score("alice", 39.0)), Ok(()));
    assert_eq!(board(&store, r1), vec![("alice".to_string(), 39.0), ("bob".to_string(), 40.0)]);
    assert_eq!(board(&store, r1), board(&other, r1));
}

#[test]
fn the_shared_store_turns_down_what_the_state_turns_down() {
    let store = Store::new();
    let e1 = store.create_event(event("Spring Cup")).unwrap();
    assert_eq!(store.create_event(event("Spring Cup")), Err(StoreError::AlreadyExists));
    assert_eq!(store.create_map(e1 ^ 1, map("Canyon")), Err(StoreError::ParentNotFound));
    let m1 = store.create_map(e1, map("Canyon")).unwrap();
    assert_eq!(store.create_map(e1, map("Canyon")), Err(StoreError::AlreadyExists));
    assert_eq!(store.create_route(e1, route("Sprint")), Err(StoreError::ParentNotFound));
    let r1 = store.create_route(m1, route("Sprint")).unwrap();
    assert_eq!(store.create_route(m1, route("Sprint")), Err(StoreError::AlreadyExists));
    assert_eq!(store.submit_score(e1, score("alice", 1.0)), Err(StoreError::ParentNotFound));
    assert_eq!(store.list_maps(m1).unwrap_err(), StoreError::ParentNotFound);
    assert_eq!(store.list_routes(r1).unwrap_err(), StoreError::ParentNotFound);
    assert_eq!(store.list_scores(e1).unwrap_err(), StoreError::ParentNotFound);
    assert_eq!(store.list_events().len(), 1);
    assert_eq!(store.list_maps(e1).unwrap().len(), 1);
    assert_eq!(store.list_routes(m1).unwrap().len(), 1);
}
