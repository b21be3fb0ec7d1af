//! Core of a U2F security-key emulator for a single-board computer: the
//! credential store with its replay counters, the presence gate, and the
//! decisions of the loop that relays HID reports.

pub mod counter;
pub mod error;
pub mod key;
pub mod names;
pub mod store;
pub mod presence;
pub mod relay;
pub mod adapter;
