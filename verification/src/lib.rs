//! The data store behind a leaderboard service for timed events.
//!
//! Organisers register events; an event has maps; a map has routes; and every
//! map and every route has a score list with each player's best time.
//!
//! * [`collections`] holds the state of the store and the operations on it,
//!   each with a contract over the mathematical value of the state, which
//!   [`model`] defines together with the rules that the store keeps.
//! * [`scores`] holds the rule by which a score list takes a new time.
//! * [`store`] puts the state behind a lock, for use from many threads.
//! * [`snapshot`], [`persistence`] and [`save_cycle`] save the store and bring
//!   it back, each collection by itself.
//! * [`scoreboard`] gathers what the public scoreboard shows.
//! * [`laws`] and [`roundtrip`] state what holds across several operations.
//! * [`time`] holds run times, [`ids`] identifiers, [`pairs`] lists of values
//!   under their keys, and [`log`] the lines of the service's log.

pub mod collections;
pub mod error;
pub mod event;
pub mod game_map;
pub mod ids;
pub mod laws;
pub mod log;
pub mod model;
pub mod pairs;
pub mod persistence;
pub mod roundtrip;
pub mod route;
pub mod save_cycle;
pub mod scoreboard;
pub mod scores;
pub mod snapshot;
pub mod store;
pub mod text;
pub mod time;

pub use crate::collections::Collections;
pub use crate::error::StoreError;
pub use crate::event::{Event, EventDraft};
pub use crate::game_map::{GameMap, MapDraft, Perks};
pub use crate::ids::Id;
pub use crate::route::{MapRoute, RouteDraft};
pub use crate::scores::{ScoreEntry, ScoreList};
pub use crate::snapshot::Snapshot;
pub use crate::store::Store;
pub use crate::time::Time;
