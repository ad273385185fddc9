//! Fixed window geometry, shared by the cursor mapping in `board`.
//!
//! The vertical board offset is five hundredths of the window height, which
//! is not a whole number of pixels; it is kept in tenths of a pixel so that
//! every cursor test below stays in integer arithmetic.

use vstd::prelude::*;

verus! {

/// Width and height of the square window, in pixels.
pub const WINDOW_SIZE: u32 = 512;

/// Side length of the board inside the window, in pixels.
pub const BOARD_IN_WINDOW_SIZE: u32 = 400;

/// Side length of one of the 64 squares, in pixels.
pub const SQUARE_IN_BOARD_SIZE: u32 = 50;

/// Horizontal offset of the board's left edge: the board is centred.
pub const BOARD_X_OFFSET: u32 = 56;

/// Vertical offset of the board's top edge, in tenths of a pixel.
pub const BOARD_Y_OFFSET_TENTHS: u32 = 256;

} // verus!
