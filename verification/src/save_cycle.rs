//! The schedule by which the store is saved.
//!
//! The store is saved again and again, with a pause between two rounds. In
//! each round one snapshot is taken, and its four parts are written one after
//! another: the score lists, the maps, the events, the routes. A part that
//! cannot be written is noted and the round goes on with the next part. A
//! part can be spared: as long as the store holds nothing in it, it is not
//! written, so that a file that could not be loaded is not replaced by an
//! empty one.
//!
//! Sleeping, copying the store and writing files is the caller's work. This
//! module decides what is done next: the caller reports what happened, and is
//! told what to do.

use vstd::prelude::*;

verus! {

/// The pause between two rounds when none is asked for, in minutes.
pub const DEFAULT_INTERVAL_MINUTES: u64 = 15;

/// The pause between two rounds in seconds, for a pause asked for in minutes,
/// or for the default where none is asked for. A pause too long to count in
/// seconds is the longest that can be counted.
pub open spec fn pause_seconds(minutes: Option<u64>) -> int {
    let asked = match minutes {
        Some(m) => m,
        None => DEFAULT_INTERVAL_MINUTES,
    };
    if asked * 60 <= u64::MAX {
        asked * 60
    } else {
        u64::MAX as int
    }
}

/// The pause between two rounds in seconds.
pub fn interval_seconds(minutes: Option<u64>) -> (seconds: u64)
    ensures
        seconds == pause_seconds(minutes),
{
    let asked: u64 = match minutes {
        Some(m) => m,
        None => DEFAULT_INTERVAL_MINUTES,
    };
    if asked <= u64::MAX / 60 {
        asked * 60
    } else {
        u64::MAX
    }
}

/// A part of a snapshot that is written to a file of its own.
#[derive(Clone, Copy, Debug, PartialEq, Eq, Structural)]
pub enum Target {
    Scores,
    Maps,
    Events,
    Routes,
}

/// The name of the file that holds a part.
pub fn file_name(target: Target) -> (name: &'static str)
    ensures
        name@ == match target {
            Target::Scores => "data/scores.json"@,
            Target::Maps => "data/maps.json"@,
            Target::Events => "data/events.json"@,
            Target::Routes => "data/routes.json"@,
        },
{
    match target {
        Target::Scores => "data/scores.json",
        Target::Maps => "data/maps.json",
        Target::Events => "data/events.json",
        Target::Routes => "data/routes.json",
    }
}

/// Some of the four parts: those that could not be written in a round, or
/// those that are spared.
#[derive(Clone, Copy, Debug, PartialEq, Eq, Structural)]
pub struct Failures {
    pub scores: bool,
    pub maps: bool,
    pub events: bool,
    pub routes: bool,
}

impl Failures {
    /// No part has failed.
    pub open spec fn none() -> Failures {
        Failures { scores: false, maps: false, events: false, routes: false }
    }

    /// These failures and that of `target`.
    pub open spec fn and(self, target: Target) -> Failures {
        match target {
            Target::Scores => Failures { scores: true, ..self },
            Target::Maps => Failures { maps: true, ..self },
            Target::Events => Failures { events: true, ..self },
            Target::Routes => Failures { routes: true, ..self },
        }
    }

    /// Whether `target` has failed.
    pub open spec fn holds(self, target: Target) -> bool {
        match target {
            Target::Scores => self.scores,
            Target::Maps => self.maps,
            Target::Events => self.events,
            Target::Routes => self.routes,
        }
    }

    /// No part has failed.
    pub fn new() -> (f: Failures)
        ensures
            f == Failures::none(),
    {
        Failures { scores: false, maps: false, events: false, routes: false }
    }

    /// These failures and that of `target`.
    pub fn with(self, target: Target) -> (f: Failures)
        ensures
            f == self.and(target),
    {
        match target {
            Target::Scores => Failures {
                scores: true,
                maps: self.maps,
                events: self.events,
                routes: self.routes,
            },
            Target::Maps => Failures {
                scores: self.scores,
                maps: true,
                events: self.events,
                routes: self.routes,
            },
            Target::Events => Failures {
                scores: self.scores,
                maps: self.maps,
                events: true,
                routes: self.routes,
            },
            Target::Routes => Failures {
                scores: self.scores,
                maps: self.maps,
                events: self.events,
                routes: true,
            },
        }
    }

    /// These without those of `other`.
    pub open spec fn without(self, other: Failures) -> Failures {
        Failures {
            scores: self.scores && !other.scores,
            maps: self.maps && !other.maps,
            events: self.events && !other.events,
            routes: self.routes && !other.routes,
        }
    }

    /// These without those of `other`.
    pub fn minus(self, other: Failures) -> (rest: Failures)
        ensures
            rest == self.without(other),
    {
        Failures {
            scores: self.scores && !other.scores,
            maps: self.maps && !other.maps,
            events: self.events && !other.events,
            routes: self.routes && !other.routes,
        }
    }

    /// Whether `target` is among these.
    pub fn has(&self, target: Target) -> (held: bool)
        ensures
            held == self.holds(target),
    {
        match target {
            Target::Scores => self.scores,
            Target::Maps => self.maps,
            Target::Events => self.events,
            Target::Routes => self.routes,
        }
    }

    /// Whether any part has failed.
    pub fn any(&self) -> (some: bool)
        ensures
            some == (*self != Failures::none()),
    {
        self.scores || self.maps || self.events || self.routes
    }
}

/// Where the schedule stands.
#[derive(Clone, Copy, Debug, PartialEq, Eq, Structural)]
pub enum SaveState {
    /// Between two rounds. `last` tells which parts the last round failed to
    /// write.
    Pausing { last: Failures },
    /// A round has begun, and the store is being copied.
    Copying,
    /// The part `target` is being written. `failed` tells which of the parts
    /// before it could not be written, and `skipped` which parts this round
    /// does not write.
    Writing { target: Target, failed: Failures, skipped: Failures },
}

/// What the caller reports.
#[derive(Clone, Copy, Debug, PartialEq, Eq, Structural)]
pub enum SaveEvent {
    /// The pause is over.
    Woke,
    /// The snapshot has been taken. `filled` tells in which parts it holds
    /// something.
    Copied { filled: Failures },
    /// The part has been written.
    Written,
    /// The part could not be turned into text, or the text could not be
    /// written.
    WriteFailed,
}

/// What the caller is told to do.
#[derive(Clone, Copy, Debug, PartialEq, Eq, Structural)]
pub enum SaveAction {
    /// Sleep for so many seconds, then report `Woke`.
    Sleep { seconds: u64 },
    /// Take a snapshot of the store, then report `Copied`.
    TakeSnapshot,
    /// Write the part `target` of the snapshot to its file, then report
    /// `Written` or `WriteFailed`.
    Write { target: Target },
}

/// The part that is written after `target`, if any.
pub open spec fn target_after(target: Target) -> Option<Target> {
    match target {
        Target::Scores => Some(Target::Maps),
        Target::Maps => Some(Target::Events),
        Target::Events => Some(Target::Routes),
        Target::Routes => None,
    }
}

/// How many parts are written from `target` on.
pub open spec fn parts_left(target: Option<Target>) -> nat {
    match target {
        Some(Target::Scores) => 4,
        Some(Target::Maps) => 3,
        Some(Target::Events) => 2,
        Some(Target::Routes) => 1,
        None => 0,
    }
}

/// The first part from `target` on that is not among `spared`, if any.
pub open spec fn first_unspared(target: Option<Target>, spared: Failures) -> Option<Target>
    decreases parts_left(target),
{
    match target {
        Some(t) => if spared.holds(t) {
            first_unspared(target_after(t), spared)
        } else {
            Some(t)
        },
        None => None,
    }
}

/// Where the schedule stands when the parts from `target` on are still to be
/// written, but for those in `skipped`.
pub open spec fn state_from(target: Option<Target>, failed: Failures, skipped: Failures)
    -> SaveState {
    match first_unspared(target, skipped) {
        Some(next) => SaveState::Writing { target: next, failed, skipped },
        None => SaveState::Pausing { last: failed },
    }
}

/// Where the schedule stands after `event`. A round skips the spared parts
/// in which the snapshot holds nothing. A report that does not fit the state
/// changes nothing.
pub open spec fn state_after(state: SaveState, event: SaveEvent, spared: Failures) -> SaveState {
    match (state, event) {
        (SaveState::Pausing { .. }, SaveEvent::Woke) => SaveState::Copying,
        (SaveState::Copying, SaveEvent::Copied { filled }) => state_from(
            Some(Target::Scores),
            Failures::none(),
            spared.without(filled),
        ),
        (SaveState::Writing { target, failed, skipped }, SaveEvent::Written) => state_from(
            target_after(target),
            failed,
            skipped,
        ),
        (SaveState::Writing { target, failed, skipped }, SaveEvent::WriteFailed) => state_from(
            target_after(target),
            failed.and(target),
            skipped,
        ),
        _ => state,
    }
}

/// What is to be done in a state.
pub open spec fn action_in(state: SaveState, seconds: u64) -> SaveAction {
    match state {
        SaveState::Pausing { .. } => SaveAction::Sleep { seconds },
        SaveState::Copying => SaveAction::TakeSnapshot,
        SaveState::Writing { target, .. } => SaveAction::Write { target },
    }
}

/// The schedule of one store.
#[derive(Clone, Copy, Debug)]
pub struct SaveCycle {
    /// The pause between two rounds, in seconds.
    pub seconds: u64,
    pub state: SaveState,
    /// The parts that are not written as long as the store holds nothing in
    /// them.
    pub spared: Failures,
}

impl SaveCycle {
    /// A schedule that begins with a pause, of so many minutes or of the
    /// default length.
    pub fn new(minutes: Option<u64>) -> (cycle: SaveCycle)
        ensures
            cycle.seconds == pause_seconds(minutes),
            cycle.state == (SaveState::Pausing { last: Failures::none() }),
            cycle.spared == Failures::none(),
    {
        SaveCycle::sparing(minutes, Failures::new())
    }

    /// A schedule that begins with a pause, of so many minutes or of the
    /// default length, and does not write a part in `spared` as long as the
    /// store holds nothing in it.
    pub fn sparing(minutes: Option<u64>, spared: Failures) -> (cycle: SaveCycle)
        ensures
            cycle.seconds == pause_seconds(minutes),
            cycle.state == (SaveState::Pausing { last: Failures::none() }),
            cycle.spared == spared,
    {
        SaveCycle {
            seconds: interval_seconds(minutes),
            state: SaveState::Pausing { last: Failures::new() },
            spared,
        }
    }

    /// A schedule that begins with a pause, of so many seconds.
    pub fn every(seconds: u64) -> (cycle: SaveCycle)
        ensures
            cycle.seconds == seconds,
            cycle.state == (SaveState::Pausing { last: Failures::none() }),
            cycle.spared == Failures::none(),
    {
        SaveCycle {
            seconds,
            state: SaveState::Pausing { last: Failures::new() },
            spared: Failures::new(),
        }
    }

    /// What is to be done now.
    pub fn action(&self) -> (action: SaveAction)
        ensures
            action == action_in(self.state, self.seconds),
    {
        match self.state {
            SaveState::Pausing { .. } => SaveAction::Sleep { seconds: self.seconds },
            SaveState::Copying => SaveAction::TakeSnapshot,
            SaveState::Writing { target, .. } => SaveAction::Write { target },
        }
    }

    /// Takes the report `event` and tells what is to be done next.
    pub fn step(&mut self, event: SaveEvent) -> (action: SaveAction)
        ensures
            final(self).seconds == old(self).seconds,
            final(self).spared == old(self).spared,
            final(self).state == state_after(old(self).state, event, old(self).spared),
            action == action_in(final(self).state, final(self).seconds),
    {
        let next = match self.state {
            SaveState::Pausing { last } => match event {
                SaveEvent::Woke => SaveState::Copying,
                _ => SaveState::Pausing { last },
            },
            SaveState::Copying => match event {
                SaveEvent::Copied { filled } => from_target(
                    Some(Target::Scores),
                    Failures::new(),
                    self.spared.minus(filled),
                ),
                _ => SaveState::Copying,
            },
            SaveState::Writing { target, failed, skipped } => match event {
                SaveEvent::Written => from_target(next_target(target), failed, skipped),
                SaveEvent::WriteFailed => from_target(
                    next_target(target),
                    failed.with(target),
                    skipped,
                ),
                _ => SaveState::Writing { target, failed, skipped },
            },
        };
        self.state = next;
        self.action()
    }
}

/// Starts the schedule of saves: a schedule in its first pause, of so many
/// minutes or of the default length, that does not write a part in `spared`
/// as long as the store holds nothing in it.
pub fn start_save_cron(minutes: Option<u64>, spared: Failures) -> (cycle: SaveCycle)
    ensures
        cycle.seconds == pause_seconds(minutes),
        cycle.state == (SaveState::Pausing { last: Failures::none() }),
        cycle.spared == spared,
{
    SaveCycle::sparing(minutes, spared)
}

/// The part that is written after `target`, if any.
fn next_target(target: Target) -> (next: Option<Target>)
    ensures
        next == target_after(target),
{
    match target {
        Target::Scores => Some(Target::Maps),
        Target::Maps => Some(Target::Events),
        Target::Events => Some(Target::Routes),
        Target::Routes => None,
    }
}

/// Where the schedule stands when the parts from `target` on are still to be
/// written, but for those in `spared`.
fn from_target(target: Option<Target>, failed: Failures, spared: Failures) -> (state: SaveState)
    ensures
        state == state_from(target, failed, spared),
{
    let mut next = target;
    proof {
        reveal_with_fuel(first_unspared, 5);
    }
    while next.is_some() && spared.has(next.unwrap())
        invariant
            first_unspared(next, spared) == first_unspared(target, spared),
        decreases parts_left(next),
    {
        next = next_target(next.unwrap());
    }
    match next {
        Some(t) => SaveState::Writing { target: t, failed, skipped: spared },
        None => SaveState::Pausing { last: failed },
    }
}

/// Whether `event` reports how a write ended.
pub open spec fn ends_write(event: SaveEvent) -> bool {
    event == SaveEvent::Written || event == SaveEvent::WriteFailed
}

/// A round writes every part, whatever becomes of the others: where no part
/// is spared, once the pause is over and the snapshot taken, the four parts
/// are written in their order, each whether or not the parts before it could
/// be written, and the pause that follows knows exactly the parts that
/// failed.
pub proof fn law_round_writes_every_part(
    last: Failures,
    filled: Failures,
    scores: SaveEvent,
    maps: SaveEvent,
    events: SaveEvent,
    routes: SaveEvent,
    seconds: u64,
)
    requires
        ends_write(scores),
        ends_write(maps),
        ends_write(events),
        ends_write(routes),
    ensures
        ({
            let none = Failures::none();
            let begun = state_after(SaveState::Pausing { last }, SaveEvent::Woke, none);
            let first = state_after(begun, SaveEvent::Copied { filled }, none);
            let second = state_after(first, scores, none);
            let third = state_after(second, maps, none);
            let fourth = state_after(third, events, none);
            let done = state_after(fourth, routes, none);
            &&& action_in(begun, seconds) == SaveAction::TakeSnapshot
            &&& action_in(first, seconds) == (SaveAction::Write { target: Target::Scores })
            &&& action_in(second, seconds) == (SaveAction::Write { target: Target::Maps })
            &&& action_in(third, seconds) == (SaveAction::Write { target: Target::Events })
            &&& action_in(fourth, seconds) == (SaveAction::Write { target: Target::Routes })
            &&& action_in(done, seconds) == (SaveAction::Sleep { seconds })
            &&& done == (SaveState::Pausing {
                last: Failures {
                    scores: scores == SaveEvent::WriteFailed,
                    maps: maps == SaveEvent::WriteFailed,
                    events: events == SaveEvent::WriteFailed,
                    routes: routes == SaveEvent::WriteFailed,
                },
            })
        }),
{
    reveal_with_fuel(first_unspared, 5);
}

/// Whether the schedule is writing a part that its round skips.
pub open spec fn writes_skipped(state: SaveState) -> bool {
    state matches SaveState::Writing { target, skipped, .. } && skipped.holds(target)
}

/// Whether the schedule is in a round that skips the parts in `skipped`, as
/// far as it is writing.
pub open spec fn skips(state: SaveState, skipped: Failures) -> bool {
    state matches SaveState::Writing { skipped: s, .. } ==> s == skipped
}

/// A file that could not be loaded is not replaced by an empty one, and what
/// the store holds is saved all the same: the round that follows a snapshot
/// skips exactly the spared parts in which the snapshot holds nothing, keeps
/// to that to its end, and never tells the caller to write a part that it
/// skips.
pub proof fn law_spared_parts_stay(
    state: SaveState,
    event: SaveEvent,
    filled: Failures,
    spared: Failures,
)
    ensures
        skips(
            state_after(SaveState::Copying, SaveEvent::Copied { filled }, spared),
            spared.without(filled),
        ),
        !writes_skipped(state) ==> !writes_skipped(state_after(state, event, spared)),
        forall|skipped: Failures|
            state is Writing && skips(state, skipped) ==> skips(
                state_after(state, event, spared),
                skipped,
            ),
{
    reveal_with_fuel(first_unspared, 5);
}

} // verus!
