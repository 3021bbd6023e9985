//! Verified core of a terminal scenario player.
//!
//! A scenario is an immutable graph of text screens connected by
//! keystroke-triggered transitions.  This crate holds the key-chord grammar,
//! the transition-resolution state machine, and the word-transition expander
//! that synthesizes intermediate "partially typed" screens by diffing a start
//! screen against an end screen.

pub mod chord;
pub mod diffing;
pub mod expand;
pub mod itertools;
pub mod loader;
pub mod player;
pub mod scenario;
pub mod text;
