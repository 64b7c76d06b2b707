//! Realtime broadcast hub for a transit-tracking service: a registry of
//! connected sessions, fan-out of payloads to them, and the decisions taken
//! on each tick of the vehicle-position poll.

pub mod outbox;
pub mod registry;
pub mod snapshot;
pub mod lobby;
