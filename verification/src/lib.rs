//! The progress-tracking and line-layout engine of a terminal typing trainer.
//!
//! The engine owns a passage, wraps it into lines sized to the terminal,
//! follows the typist through it keystroke by keystroke, and says what has to
//! be painted after each one. It never touches a terminal: what it wants
//! painted is queued on a [`screen::MainScreen`] as plain commands, which the
//! program around the engine carries out.

pub mod cursor;
pub mod error;
pub mod layout;
pub mod pecker;
pub mod screen;
pub mod text;
pub mod wrap;
