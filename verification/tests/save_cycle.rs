use parkour_api::save_cycle::{
    file_name, interval_seconds, start_save_cron, Failures, SaveAction, SaveCycle, SaveEvent,
    SaveState, Target,
};

const ALL: Failures = Failures { scores: true, maps: true, events: true, routes: true };
const NONE: Failures = Failures { scores: false, maps: false, events: false, routes: false };

#[test]
fn the_pause_is_fifteen_minutes_unless_asked_otherwise() {
    assert_eq!(interval_seconds(None), 900);
    assert_eq!(interval_seconds(Some(15)), 900);
    assert_eq!(interval_seconds(Some(1)), 60);
    assert_eq!(interval_seconds(Some(0)), 0);
}

#[test]
fn a_pause_too_long_to_count_is_the_longest() {
    assert_eq!(interval_seconds(Some(u64::MAX / 60)), u64::MAX / 60 * 60);
    assert_eq!(interval_seconds(Some(u64::MAX / 60 + 1)), u64::MAX);
    assert_eq!(interval_seconds(Some(u64::MAX)), u64::MAX);
}

#[test]
fn each_part_has_its_file() {
    assert_eq!(file_name(Target::Scores), "data/scores.json");
    assert_eq!(file_name(Target::Maps), "data/maps.json");
    assert_eq!(file_name(Target::Events), "data/events.json");
    assert_eq!(file_name(Target::Routes), "data/routes.json");
}

#[test]
fn a_round_writes_the_four_parts_in_order() {
    let mut cycle = SaveCycle::new(Some(2));
    assert_eq!(cycle.action(), SaveAction::Sleep { seconds: 120 });
    assert_eq!(cycle.step(SaveEvent::Woke), SaveAction::TakeSnapshot);
    assert_eq!(cycle.step(SaveEvent::Copied { filled: ALL }), SaveAction::Write { target: Target::Scores });
    assert_eq!(cycle.step(SaveEvent::Written), SaveAction::Write { target: Target::Maps });
    assert_eq!(cycle.step(SaveEvent::Written), SaveAction::Write { target: Target::Events });
    assert_eq!(cycle.step(SaveEvent::Written), SaveAction::Write { target: Target::Routes });
    assert_eq!(cycle.step(SaveEvent::Written), SaveAction::Sleep { seconds: 120 });
    assert_eq!(cycle.state, SaveState::Pausing { last: Failures::new() });
    assert_eq!(cycle.step(SaveEvent::Woke), SaveAction::TakeSnapshot);
}

#[test]
fn a_part_that_fails_does_not_stop_the_round() {
    let mut cycle = SaveCycle::new(None);
    assert_eq!(cycle.step(SaveEvent::Woke), SaveAction::TakeSnapshot);
    assert_eq!(cycle.step(SaveEvent::Copied { filled: ALL }), SaveAction::Write { target: Target::Scores });
    assert_eq!(cycle.step(SaveEvent::WriteFailed), SaveAction::Write { target: Target::Maps });
    assert_eq!(cycle.step(SaveEvent::Written), SaveAction::Write { target: Target::Events });
    assert_eq!(cycle.step(SaveEvent::WriteFailed), SaveAction::Write { target: Target::Routes });
    assert_eq!(cycle.step(SaveEvent::Written), SaveAction::Sleep { seconds: 900 });
    let failed = Failures { scores: true, maps: false, events: true, routes: false };
    assert_eq!(cycle.state, SaveState::Pausing { last: failed });
    assert!(failed.any());
    assert!(!Failures::new().any());
    assert_eq!(Failures::new().with(Target::Scores).with(Target::Events), failed);
}

#[test]
fn a_report_that_does_not_fit_changes_nothing() {
    let mut cycle = SaveCycle::new(None);
    assert_eq!(cycle.step(SaveEvent::Written), SaveAction::Sleep { seconds: 900 });
    assert_eq!(cycle.step(SaveEvent::Copied { filled: ALL }), SaveAction::Sleep { seconds: 900 });
    assert_eq!(cycle.step(SaveEvent::Woke), SaveAction::TakeSnapshot);
    assert_eq!(cycle.step(SaveEvent::Woke), SaveAction::TakeSnapshot);
    assert_eq!(cycle.step(SaveEvent::WriteFailed), SaveAction::TakeSnapshot);
    assert_eq!(cycle.step(SaveEvent::Copied { filled: ALL }), SaveAction::Write { target: Target::Scores });
    assert_eq!(cycle.step(SaveEvent::Copied { filled: ALL }), SaveAction::Write { target: Target::Scores });
    assert_eq!(cycle.step(SaveEvent::Woke), SaveAction::Write { target: Target::Scores });
}

#[test]
fn a_schedule_can_be_given_its_pause_in_seconds() {
    let mut cycle = SaveCycle::every(5);
    assert_eq!(cycle.action(), SaveAction::Sleep { seconds: 5 });
    assert_eq!(cycle.step(SaveEvent::Woke), SaveAction::TakeSnapshot);
}

#[test]
fn the_schedule_starts_with_a_pause() {
    let cycle = start_save_cron(None, Failures::new());
    assert_eq!(cycle.seconds, 900);
    assert_eq!(cycle.state, SaveState::Pausing { last: Failures::new() });
    assert_eq!(cycle.spared, Failures::new());
    assert_eq!(start_save_cron(Some(3), Failures::new()).action(), SaveAction::Sleep { seconds: 180 });
}

#[test]
fn a_spared_part_is_not_written_while_the_store_holds_nothing_in_it() {
    let spared = Failures { scores: true, maps: false, events: true, routes: false };
    let mut cycle = start_save_cron(None, spared);
    assert_eq!(cycle.step(SaveEvent::Woke), SaveAction::TakeSnapshot);
    assert_eq!(cycle.step(SaveEvent::Copied { filled: NONE }), SaveAction::Write { target: Target::Maps });
    assert_eq!(cycle.step(SaveEvent::Written), SaveAction::Write { target: Target::Routes });
    assert_eq!(cycle.step(SaveEvent::WriteFailed), SaveAction::Sleep { seconds: 900 });
    let failed = Failures { scores: false, maps: false, events: false, routes: true };
    assert_eq!(cycle.state, SaveState::Pausing { last: failed });
    assert!(spared.has(Target::Scores) && !spared.has(Target::Maps));

    let mut cycle = SaveCycle::sparing(Some(1), ALL);
    assert_eq!(cycle.step(SaveEvent::Woke), SaveAction::TakeSnapshot);
    assert_eq!(cycle.step(SaveEvent::Copied { filled: NONE }), SaveAction::Sleep { seconds: 60 });
}

#[test]
fn a_spared_part_is_written_once_the_store_holds_something_in_it() {
    let spared = Failures { scores: true, maps: false, events: true, routes: false };
    let filled = Failures { scores: false, maps: true, events: true, routes: false };
    let mut cycle = start_save_cron(Some(1), spared);
    assert_eq!(cycle.step(SaveEvent::Woke), SaveAction::TakeSnapshot);
    assert_eq!(cycle.step(SaveEvent::Copied { filled }), SaveAction::Write { target: Target::Maps });
    assert_eq!(cycle.step(SaveEvent::Written), SaveAction::Write { target: Target::Events });
    assert_eq!(cycle.step(SaveEvent::Written), SaveAction::Write { target: Target::Routes });
    assert_eq!(cycle.step(SaveEvent::Written), SaveAction::Sleep { seconds: 60 });
    assert_eq!(spared.minus(filled), Failures { scores: true, maps: false, events: false, routes: false });
    assert_eq!(ALL.minus(NONE), ALL);
    assert_eq!(ALL.minus(ALL), NONE);

    assert_eq!(cycle.step(SaveEvent::Woke), SaveAction::TakeSnapshot);
    assert_eq!(cycle.step(SaveEvent::Copied { filled: ALL }), SaveAction::Write { target: Target::Scores });
}
