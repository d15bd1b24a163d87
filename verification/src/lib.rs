//! Interactive terminal session engine.
//!
//! The crate holds the decisions of a menu-driven terminal session as plain
//! functions over plain values: decoding raw key bytes into events, ordering
//! output into deliveries, wrapping and framing text, scrolling a selection
//! list, reading a line of input, and walking the submission form. Every
//! function carries a contract that Verus proves; the transport, the clock and
//! the network stay with the caller.

pub mod ansi;
pub mod app;
pub mod database;
pub mod form;
pub mod gallery;
pub mod menu;
pub mod params;
pub mod prompt;
pub mod registry;
pub mod relay;
pub mod select;
pub mod terminal;
pub mod text;
pub mod text_box;
pub mod wrap;
pub mod writer;
