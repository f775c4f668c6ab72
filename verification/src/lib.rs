use vstd::prelude::*;

pub mod calculadora;
pub mod combinatoria;
pub mod computacio;
pub mod display;
pub mod i2c;
pub mod keys;
pub mod laws;
pub mod order;
pub mod stack;
pub mod tokens;

pub use calculadora::{BufferType, Calculadora, ShiftStatus};
pub use tokens::{Dist, Operacio, Paren, Token, VariantR};

verus! {

/// Clock speed of the device, in Hz
pub const CLOCK_SPEED: Enter = 16_000_000;

/// Width of the buffer behind the first line of the LCD (an HD44780, 1602A)
pub const LCD_INTERNAL_WIDTH: usize = 64;

/// Horizontal size of the key scan matrix
pub const SCAN_MATRIX_WIDTH: usize = 4;

/// Vertical size of the key scan matrix
pub const SCAN_MATRIX_HEIGHT: usize = 5;

/// Number of keys in the scan matrix
pub const KEY_COUNT: usize = SCAN_MATRIX_HEIGHT * SCAN_MATRIX_WIDTH;

/// Horizontal size of the display, in characters.
pub const DISPLAY_WIDTH: usize = 16;

/// Vertical size of the display, in characters.
pub const DISPLAY_HEIGHT: usize = 2;

/// How many tokens can be held in memory at a given moment, at most.
pub const MAX_TOKENS: usize = DISPLAY_HEIGHT * DISPLAY_WIDTH;

/// Number of characters that the display shows.
pub const DISPLAY_SIZE: usize = DISPLAY_HEIGHT * DISPLAY_WIDTH;

/// Bytes to show on the display; always valid ASCII.
pub type TextArea = [u8; DISPLAY_SIZE];

/// Positive integer.
pub type Enter = u32;

} // verus!
