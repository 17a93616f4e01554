use parkour_api::collections::Collections;
use parkour_api::error::StoreError;
use parkour_api::event::{Event, EventDraft};
use parkour_api::game_map::{GameMap, MapDraft, Perks};
use parkour_api::persistence::restore;
use parkour_api::roundtrip::copy_of;
use parkour_api::route::{MapRoute, RouteDraft};
use parkour_api::scores::ScoreEntry;
use parkour_api::snapshot::Snapshot;
use parkour_api::store::Store;
use parkour_api::time::Time;

fn score(name: &str, seconds: f32) -> ScoreEntry {
    ScoreEntry { name: name.to_string(), time: Time::from_bits(seconds.to_bits()).unwrap() }
}

fn saved_event(id: u128, name: &str) -> Event {
    Event { id, name: name.to_string(), description: None, start: None, end: None }
}

fn saved_map(id: u128, name: &str) -> GameMap {
    GameMap { id, map_name: name.to_string(), perks: Perks::new() }
}

fn saved_route(id: u128, name: &str) -> MapRoute {
    MapRoute { id, name: name.to_string(), perks: Perks::new(), entities: vec![], geometry: String::new() }
}

fn sorted(mut snap: Snapshot) -> Snapshot {
    snap.maps.sort_by_key(|pair| pair.0);
    snap.routes.sort_by_key(|pair| pair.0);
    snap.scores.sort_by_key(|pair| pair.0);
    snap
}

fn populated() -> Collections {
    let mut store = Collections::new();
    let spring = EventDraft {
        name: "Spring Cup".to_string(),
        description: Some("first of the year".to_string()),
        start: Some(10),
        end: Some(20),
    };
    store.create_event_with_id(spring, 1).unwrap();
    store
        .create_event_with_id(
            EventDraft { name: "Autumn Cup".to_string(), description: None, start: None, end: None },
            2,
        )
        .unwrap();
    let mut speed = Perks::new();
    speed.insert("speed".to_string(), "2".to_string());
    let canyon = MapDraft { map_name: "Canyon".to_string(), perks: Some(speed) };
    store.create_map_with_id(2, canyon, 11).unwrap();
    store.create_map_with_id(1, MapDraft { map_name: "Canyon".to_string(), perks: None }, 12).unwrap();
    store.create_map_with_id(1, MapDraft { map_name: "Harbour".to_string(), perks: None }, 13).unwrap();
    let sprint = RouteDraft {
        name: "Sprint".to_string(),
        perks: None,
        entities: Some(vec!["crate".to_string(), "barrel".to_string()]),
        geometry: "{}".to_string(),
    };
    store.create_route_with_id(13, sprint, 21).unwrap();
    store
        .create_route_with_id(
            11,
            RouteDraft { name: "Sprint".to_string(), perks: None, entities: None, geometry: String::new() },
            22,
        )
        .unwrap();
    store.submit_score(21, score("alice", 42.5)).unwrap();
    store.submit_score(21, score("bob", 40.0)).unwrap();
    store.submit_score(21, score("carol", 40.0)).unwrap();
    store.submit_score(12, score("alice", 7.25)).unwrap();
    store
}

#[test]
fn a_snapshot_lists_the_store_in_its_order() {
    let snap = sorted(populated().snapshot());
    let event_ids: Vec<u128> = snap.events.iter().map(|e| e.id).collect();
    assert_eq!(event_ids, vec![1, 2]);
    let map_keys: Vec<u128> = snap.maps.iter().map(|p| p.0).collect();
    assert_eq!(map_keys, vec![1, 2]);
    let maps_of_first: Vec<u128> = snap.maps[0].1.iter().map(|m| m.id).collect();
    assert_eq!(maps_of_first, vec![12, 13]);
    let route_keys: Vec<u128> = snap.routes.iter().map(|p| p.0).collect();
    assert_eq!(route_keys, vec![11, 12, 13]);
    let score_keys: Vec<u128> = snap.scores.iter().map(|p| p.0).collect();
    assert_eq!(score_keys, vec![11, 12, 13, 21, 22]);
    let sprint: Vec<String> = snap.scores[3].1.iter().map(|e| e.name.clone()).collect();
    assert_eq!(sprint, vec!["bob".to_string(), "carol".to_string(), "alice".to_string()]);
}

#[test]
fn a_snapshot_brings_the_same_store_back() {
    let store = populated();
    let snap = sorted(store.snapshot());
    let back = restore(store.snapshot()).unwrap();
    assert_eq!(sorted(back.snapshot()), snap);
    assert_eq!(back.list_events(), store.list_events());
    for parent in [1u128, 2, 11, 12, 13, 21, 22, 99] {
        assert_eq!(back.list_maps(parent), store.list_maps(parent));
        assert_eq!(back.list_routes(parent), store.list_routes(parent));
        assert_eq!(back.list_scores(parent), store.list_scores(parent));
    }
    let shared = Store::holding(back);
    assert_eq!(sorted(shared.snapshot()), snap);
}

#[test]
fn an_empty_snapshot_brings_an_empty_store_back() {
    let snap = Snapshot { events: vec![], maps: vec![], routes: vec![], scores: vec![] };
    let back = restore(snap).unwrap();
    assert_eq!(back.list_events().len(), 0);
}

#[test]
fn what_the_snapshot_leaves_out_comes_back_empty() {
    let snap = Snapshot {
        events: vec![saved_event(1, "Spring Cup")],
        maps: vec![],
        routes: vec![],
        scores: vec![],
    };
    let back = restore(snap).unwrap();
    assert_eq!(back.list_maps(1).unwrap().len(), 0);
    let snap = Snapshot {
        events: vec![saved_event(1, "Spring Cup")],
        maps: vec![(1, vec![saved_map(11, "Canyon")])],
        routes: vec![],
        scores: vec![],
    };
    let back = restore(snap).unwrap();
    assert_eq!(back.list_routes(11).unwrap().len(), 0);
    assert_eq!(back.list_scores(11).unwrap().len(), 0);
}

fn corrupt(snap: Snapshot) -> bool {
    match restore(snap) {
        Err(StoreError::CorruptSnapshot) => true,
        _ => false,
    }
}

#[test]
fn lists_are_kept_where_their_owner_is_not_there() {
    let back = restore(Snapshot {
        events: vec![],
        maps: vec![(1, vec![saved_map(11, "Canyon")])],
        routes: vec![(12, vec![saved_route(21, "Sprint")])],
        scores: vec![(31, vec![score("alice", 39.0), score("bob", 40.0)])],
    })
    .unwrap();
    assert_eq!(back.list_events().len(), 0);
    assert_eq!(back.list_maps(1).unwrap_err(), StoreError::ParentNotFound);
    assert_eq!(back.list_routes(12).unwrap_err(), StoreError::ParentNotFound);
    assert_eq!(back.list_routes(11).unwrap().len(), 0);
    assert_eq!(back.list_scores(31).unwrap_err(), StoreError::ParentNotFound);
    assert_eq!(back.list_scores(21).unwrap().len(), 0);
    assert!(back.id_in_use(1) && back.id_in_use(11) && back.id_in_use(12));
    assert!(back.id_in_use(21) && back.id_in_use(31) && !back.id_in_use(41));
    let snap = back.snapshot();
    assert_eq!(snap.maps.len(), 1);
    assert_eq!(snap.routes.len(), 1);
    assert_eq!(snap.scores.len(), 1);
    assert_eq!(snap.scores[0].0, 31);
    assert_eq!(snap.scores[0].1.len(), 2);
    assert_eq!(snap.routes[0].0, 12);
    assert_eq!(snap.routes[0].1[0].id, 21);
}

#[test]
fn the_order_of_the_pairs_says_nothing() {
    let one = restore(Snapshot {
        events: vec![saved_event(1, "Spring Cup"), saved_event(2, "Autumn Cup")],
        maps: vec![(1, vec![saved_map(11, "Canyon")]), (2, vec![saved_map(12, "Canyon")])],
        routes: vec![(11, vec![saved_route(21, "Sprint")]), (12, vec![])],
        scores: vec![(11, vec![]), (21, vec![score("alice", 39.0)])],
    })
    .unwrap();
    let other = restore(Snapshot {
        events: vec![saved_event(1, "Spring Cup"), saved_event(2, "Autumn Cup")],
        maps: vec![(2, vec![saved_map(12, "Canyon")]), (1, vec![saved_map(11, "Canyon")])],
        routes: vec![(12, vec![]), (11, vec![saved_route(21, "Sprint")])],
        scores: vec![(21, vec![score("alice", 39.0)]), (11, vec![])],
    })
    .unwrap();
    assert_eq!(one.list_events(), other.list_events());
    for id in [1u128, 2, 11, 12, 21, 99] {
        assert_eq!(one.list_maps(id), other.list_maps(id));
        assert_eq!(one.list_routes(id), other.list_routes(id));
        assert_eq!(one.list_scores(id), other.list_scores(id));
        assert_eq!(one.id_in_use(id), other.id_in_use(id));
    }
}

#[test]
fn a_snapshot_with_duplicates_is_corrupt() {
    assert!(corrupt(Snapshot {
        events: vec![saved_event(1, "Spring Cup"), saved_event(2, "Spring Cup")],
        maps: vec![],
        routes: vec![],
        scores: vec![],
    }));
    assert!(corrupt(Snapshot {
        events: vec![saved_event(1, "Spring Cup"), saved_event(1, "Autumn Cup")],
        maps: vec![],
        routes: vec![],
        scores: vec![],
    }));
    assert!(corrupt(Snapshot {
        events: vec![saved_event(1, "Spring Cup")],
        maps: vec![(1, vec![saved_map(11, "Canyon"), saved_map(12, "Canyon")])],
        routes: vec![],
        scores: vec![],
    }));
    assert!(corrupt(Snapshot {
        events: vec![saved_event(1, "Spring Cup"), saved_event(2, "Autumn Cup")],
        maps: vec![(1, vec![saved_map(11, "Canyon")]), (2, vec![saved_map(11, "Harbour")])],
        routes: vec![],
        scores: vec![],
    }));
    assert!(corrupt(Snapshot {
        events: vec![],
        maps: vec![(1, vec![saved_map(11, "Canyon")]), (1, vec![saved_map(12, "Harbour")])],
        routes: vec![],
        scores: vec![],
    }));
    assert!(corrupt(Snapshot {
        events: vec![],
        maps: vec![],
        routes: vec![(11, vec![saved_route(21, "Sprint"), saved_route(22, "Sprint")])],
        scores: vec![],
    }));
    assert!(corrupt(Snapshot {
        events: vec![],
        maps: vec![],
        routes: vec![(11, vec![saved_route(21, "Sprint")]), (12, vec![saved_route(21, "Dash")])],
        scores: vec![],
    }));
    assert!(corrupt(Snapshot {
        events: vec![],
        maps: vec![],
        routes: vec![],
        scores: vec![(11, vec![]), (11, vec![])],
    }));
}

#[test]
fn a_snapshot_with_a_bad_score_list_is_corrupt() {
    let base = |entries: Vec<ScoreEntry>| Snapshot {
        events: vec![saved_event(1, "Spring Cup")],
        maps: vec![(1, vec![saved_map(11, "Canyon")])],
        routes: vec![],
        scores: vec![(11, entries)],
    };
    assert!(restore(base(vec![score("bob", 40.0), score("alice", 42.5)])).is_ok());
    assert!(corrupt(base(vec![score("alice", 42.5), score("bob", 40.0)])));
    assert!(corrupt(base(vec![score("alice", 40.0), score("alice", 42.5)])));
}

#[test]
fn a_copy_holds_what_the_store_holds() {
    let store = populated();
    let mut copy = copy_of(&store);
    assert_eq!(sorted(copy.snapshot()), sorted(store.snapshot()));
    copy.submit_score(22, score("dave", 3.0)).unwrap();
    assert_eq!(copy.list_scores(22).unwrap().len(), 1);
    assert_eq!(store.list_scores(22).unwrap().len(), 0);
    assert_eq!(copy_of(&Collections::new()).snapshot(), Collections::new().snapshot());
}
