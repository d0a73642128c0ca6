//! A single-screen quiz board.
//!
//! The crate holds the three core pieces of the board: the quiz data model
//! with its validating loader, the layout engine that places a grid of tiles
//! on a window, and the interaction state machine that reveals and dismisses
//! clues in response to clicks. Windowing, rendering and event polling are
//! supplied by a host around this library.

pub mod board;
pub mod digits;
pub mod layout;
pub mod quiz;
