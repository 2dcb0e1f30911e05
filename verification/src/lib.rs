//! A verified core for a simulated smart home: the framed wire protocol
//! spoken between device controllers and device emulators, the state
//! kept by those controllers and emulators, and the registries that
//! organise devices into rooms and houses.
//!
//! Everything that computes or decides lives here with a contract; the
//! sockets, threads and timers that carry bytes in and out are thin
//! unverified glue around this crate.

pub mod controllers;
pub mod devices;
pub mod emulators;
pub mod house;
pub mod protocol;
pub mod room;
pub mod table;
pub mod text;
pub mod units;
