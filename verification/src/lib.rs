//! Interactive ignore-file template picker: a verified session engine.
//!
//! The library holds the logic of the tool: the catalog snapshot, the
//! fuzzy-search selection engine, the mode-aware event state machine, the
//! output-write decisions and the argument parsing.  Terminal drawing and
//! all file/network I/O live outside the library and drive it through the
//! event handlers.

pub mod args;
pub mod catalog;
pub mod events;
pub mod filter;
pub mod order;
pub mod output;
pub mod session;
pub mod strings;
