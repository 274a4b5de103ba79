//! Persistence and verification core of a key event log: identifier state
//! folded from events, typed escrows for events that cannot be finalised yet,
//! receipt accumulation, and the durable tables that hold all of it.

pub mod bytes;
pub mod codec;
pub mod error;
pub mod prefix;
pub mod signatures;
pub mod database;
pub mod event;
pub mod ledger;
pub mod manager;
pub mod state;
