//! Events: the competitions that own maps.

use vstd::prelude::*;
use crate::ids::Id;
use crate::text::{copy_optional_text, optional_text};

verus! {

/// What a request to create an event brings.
#[derive(Debug, PartialEq, Eq)]
pub struct EventDraft {
    /// The name, which no other event may have.
    pub name: String,
    pub description: Option<String>,
    /// When the event opens, in seconds since the Unix epoch.
    pub start: Option<i64>,
    /// When the event closes, in seconds since the Unix epoch.
    pub end: Option<i64>,
}

/// A competition.
#[derive(Debug, PartialEq, Eq)]
pub struct Event {
    pub id: Id,
    pub name: String,
    pub description: Option<String>,
    pub start: Option<i64>,
    pub end: Option<i64>,
}

/// What an event says.
pub ghost struct EventView {
    pub id: Id,
    pub name: Seq<char>,
    pub description: Option<Seq<char>>,
    pub start: Option<i64>,
    pub end: Option<i64>,
}

impl View for Event {
    type V = EventView;

    open spec fn view(&self) -> EventView {
        EventView {
            id: self.id,
            name: self.name@,
            description: optional_text(self.description),
            start: self.start,
            end: self.end,
        }
    }
}

impl EventDraft {
    /// The event that this draft becomes under the identifier `id`.
    pub open spec fn recorded(&self, id: Id) -> EventView {
        EventView {
            id,
            name: self.name@,
            description: optional_text(self.description),
            start: self.start,
            end: self.end,
        }
    }

    /// Turns the draft into the event with the identifier `id`.
    pub fn record(self, id: Id) -> (event: Event)
        ensures
            event@ == self.recorded(id),
    {
        Event {
            id,
            name: self.name,
            description: self.description,
            start: self.start,
            end: self.end,
        }
    }
}

impl Event {
    /// The draft that becomes this event again under the event's identifier.
    pub fn to_draft(&self) -> (draft: EventDraft)
        ensures
            draft.recorded(self.id) == self@,
            draft.name@ == self.name@,
    {
        EventDraft {
            name: self.name.clone(),
            description: copy_optional_text(&self.description),
            start: self.start,
            end: self.end,
        }
    }
}

impl Clone for Event {
    fn clone(&self) -> (copy: Event)
        ensures
            copy@ == self@,
    {
        Event {
            id: self.id,
            name: self.name.clone(),
            description: copy_optional_text(&self.description),
            start: self.start,
            end: self.end,
        }
    }
}

/// What a sequence of events says.
pub open spec fn event_views(events: Seq<Event>) -> Seq<EventView> {
    events.map_values(|e: Event| e@)
}

/// A copy of `events`.
pub fn copy_events(events: &Vec<Event>) -> (copy: Vec<Event>)
    ensures
        event_views(copy@) == event_views(events@),
{
    let mut copy: Vec<Event> = Vec::new();
    let mut i: usize = 0;
    while i < events.len()
        invariant
            i <= events.len(),
            copy.len() == i,
            forall|j: int| 0 <= j < i ==> copy[j]@ == events[j]@,
        decreases events.len() - i,
    {
        copy.push(events[i].clone());
        i += 1;
    }
    assert(event_views(copy@) =~= event_views(events@));
    copy
}

} // verus!
