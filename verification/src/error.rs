//! What makes a screen or a passage unusable.

use vstd::prelude::*;

verus! {

/// Why a passage cannot be laid out on a screen.
#[derive(Clone, Copy, Debug, PartialEq, Eq, Structural)]
pub enum ConfigError {
    /// The screen is no wider than the margin: no column is left for text.
    ScreenTooNarrow,
    /// The screen has too few rows for the keyboard hint.
    ScreenTooShort,
    /// A line, or the number of lines, is beyond what screen coordinates can
    /// address.
    TextTooLarge,
}

} // verus!
