//! Automated pointer and keyboard input for a Linux desktop, verified.
//!
//! The crate holds the three tightly coupled cores of the system: the
//! key-sequence compiler (macro text to an ordered action list), the
//! command protocol (a tagged, self-describing wire format with a proved
//! round-trip law), and the action execution engine (a command-driven
//! scheduler that advances one active specification per polling tick).
//! Device I/O, transports and the GUI live outside and talk to these
//! cores through plain values.

pub mod chars;
pub mod digits;
pub mod keycodes;
pub mod actions;
pub mod protocol;
pub mod codec;
pub mod key_parser;
pub mod engine;
pub mod settings;
pub mod service;
pub mod hypr;
