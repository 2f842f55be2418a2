//! The input pipeline of a keyboard controller: raw switch frames are
//! debounced into press and release events, the events drive a layered
//! layout engine with tap/hold keys, and the keys that are active at the end
//! of a period are packed into an eight byte boot-protocol report.
//!
//! Every stage is a state machine over plain values. Each has a mathematical
//! model, a transition function stated over that model, and an executable
//! implementation proved to follow it.

pub mod action;
pub mod debounce;
pub mod keyboard;
pub mod layout;
pub mod matrix;
pub mod pairing;
pub mod report;
pub mod resolution;
pub mod transport;
