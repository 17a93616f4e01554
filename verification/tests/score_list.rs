use parkour_api::error::StoreError;
use parkour_api::scores::{ScoreEntry, ScoreList};
use parkour_api::time::Time;

fn seconds(s: f32) -> Time {
    Time::from_bits(s.to_bits()).unwrap()
}

fn entry(name: &str, s: f32) -> ScoreEntry {
    ScoreEntry { name: name.to_string(), time: seconds(s) }
}

fn shown(list: &ScoreList) -> Vec<(String, f32)> {
    list.entries().into_iter().map(|e| (e.name, f32::from_bits(e.time.to_bits()))).collect()
}

#[test]
fn a_new_player_is_added() {
    let mut list = ScoreList::new();
    assert_eq!(list.submit(entry("alice", 42.5)), Ok(()));
    assert_eq!(shown(&list), vec![("alice".to_string(), 42.5)]);
}

#[test]
fn the_list_is_kept_in_ascending_order() {
    let mut list = ScoreList::new();
    assert_eq!(list.submit(entry("alice", 42.5)), Ok(()));
    assert_eq!(list.submit(entry("bob", 40.0)), Ok(()));
    assert_eq!(shown(&list), vec![("bob".to_string(), 40.0), ("alice".to_string(), 42.5)]);
}

#[test]
fn a_time_that_is_no_better_is_turned_down() {
    let mut list = ScoreList::new();
    assert_eq!(list.submit(entry("alice", 42.5)), Ok(()));
    assert_eq!(list.submit(entry("bob", 40.0)), Ok(()));
    assert_eq!(list.submit(entry("alice", 45.0)), Err(StoreError::NotImproved));
    assert_eq!(list.submit(entry("alice", 42.5)), Err(StoreError::NotImproved));
    assert_eq!(shown(&list), vec![("bob".to_string(), 40.0), ("alice".to_string(), 42.5)]);
}

#[test]
fn a_better_time_replaces_the_old_one() {
    let mut list = ScoreList::new();
    assert_eq!(list.submit(entry("alice", 42.5)), Ok(()));
    assert_eq!(list.submit(entry("bob", 40.0)), Ok(()));
    assert_eq!(list.submit(entry("alice", 39.0)), Ok(()));
    assert_eq!(shown(&list), vec![("alice".to_string(), 39.0), ("bob".to_string(), 40.0)]);
}

#[test]
fn a_list_is_built_from_entries_that_keep_the_rule() {
    let list = ScoreList::from_entries(vec![entry("bob", 40.0), entry("carol", 40.0), entry("alice", 42.5)]).unwrap();
    assert_eq!(list.len(), 3);
    assert_eq!(
        shown(&list),
        vec![("bob".to_string(), 40.0), ("carol".to_string(), 40.0), ("alice".to_string(), 42.5)]
    );
    assert_eq!(ScoreList::from_entries(vec![]).unwrap().len(), 0);
    assert!(ScoreList::from_entries(vec![entry("alice", 42.5), entry("bob", 40.0)]).is_none());
    assert!(ScoreList::from_entries(vec![entry("bob", 40.0), entry("bob", 42.5)]).is_none());
    assert!(ScoreList::from_entries(vec![entry("bob", 40.0), entry("alice", 41.0), entry("bob", 42.5)]).is_none());
}

#[test]
fn a_list_tells_where_a_player_stands_and_what_it_would_take() {
    let mut list = ScoreList::new();
    assert_eq!(list.position(&"alice".to_string()), None);
    assert!(list.accepts(&entry("alice", 42.5)));
    list.submit(entry("alice", 42.5)).unwrap();
    list.submit(entry("bob", 40.0)).unwrap();
    assert_eq!(list.position(&"bob".to_string()), Some(0));
    assert_eq!(list.position(&"alice".to_string()), Some(1));
    assert_eq!(list.position(&"Alice".to_string()), None);
    assert!(list.accepts(&entry("alice", 42.0)));
    assert!(!list.accepts(&entry("alice", 42.5)));
    assert!(!list.accepts(&entry("alice", 43.0)));
    assert!(list.accepts(&entry("carol", 99.0)));
    assert_eq!(list.len(), 2);
}

#[test]
fn negative_and_infinite_times_are_ranked_too() {
    let mut list = ScoreList::new();
    list.submit(entry("alice", 1.0)).unwrap();
    list.submit(entry("bob", f32::INFINITY)).unwrap();
    list.submit(entry("carol", -1.0)).unwrap();
    list.submit(entry("dave", 0.0)).unwrap();
    list.submit(entry("erin", -0.0)).unwrap();
    assert_eq!(
        shown(&list),
        vec![
            ("carol".to_string(), -1.0),
            ("dave".to_string(), 0.0),
            ("erin".to_string(), 0.0),
            ("alice".to_string(), 1.0),
            ("bob".to_string(), f32::INFINITY)
        ]
    );
    assert_eq!(list.submit(entry("dave", -0.0)), Err(StoreError::NotImproved));
}
