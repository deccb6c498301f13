//! Core state of an interactive-connectivity stack: the ICE connectivity
//! check selector (controlling and controlled roles) and the TURN
//! allocation with its permissions, channel bindings and lifetime timer.
//!
//! Socket I/O, timers and the inbound dispatcher live outside this crate;
//! every entry point takes the current time and plain event data, mutates
//! the modelled state, and returns the messages to send as data.

pub mod allocation;
pub mod candidate;
pub mod chanbind;
pub mod net;
pub mod pairs;
pub mod permission;
pub mod selector;
pub mod stun_wire;
pub mod transactions;

