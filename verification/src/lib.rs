//! Pexand: the verified core of a text expander.
//!
//! The library holds the snippet model, the keystroke buffer, the trigger
//! trie, the variable parser, recursion detection, the icon decoder and the
//! decision logic of the keyboard sentinel and of the management window.

pub mod db;
pub mod sentinel;
pub mod settings;
pub mod text;
pub mod ui;
