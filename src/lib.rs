//! Hotkey detection core: key vocabulary, shortcut parsing, the hotkey
//! registry and the edge-triggered match engine, with the command and event
//! types of the agent's line protocol.
//!
//! `model` states what the detection state is and how each operation changes
//! it; `manager` holds the executable state and is proved to follow the
//! model; `laws` proves properties of the model over whole event sequences.

pub mod clipboard;
pub mod command;
pub mod keys;
pub mod laws;
pub mod manager;
pub mod model;
pub mod shortcut;
