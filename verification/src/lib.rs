//! Per-frame tracking of logical keyboard key state.
//!
//! A raw stream of hardware key transitions (which the OS may duplicate
//! through auto-repeat) is reconciled into a clean per-frame state machine,
//! so that "just pressed" and "just released" fire exactly once per physical
//! actuation and a sustained press is promoted to "held" only after the
//! configured repeat delay has elapsed.

pub mod input;
