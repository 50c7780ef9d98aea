//! Change detection for a host's public network address.
//!
//! The crate keeps the last confirmed address together with the bookkeeping
//! of an escalating "still unchanged" reminder, decides on every poll what
//! has to be announced and stored, and encodes that state as a one-line
//! record that survives a restart.

pub mod address;
pub mod fields;
pub mod laws;
pub mod machine;
pub mod message;
pub mod monitor;
pub mod numeral;
pub mod record;
pub mod state;
pub mod text;
