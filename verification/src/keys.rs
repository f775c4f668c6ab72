use vstd::prelude::*;

use crate::calculadora::{
    cursor_after_add, cursor_after_delete, cursor_left, cursor_right, toggled, with_token,
    without_token, BufferType, Calculadora, ShiftStatus,
};
use crate::computacio::computed_text;
use crate::tokens::{Dist, Operacio, Paren, Token};
use crate::{TextArea, DISPLAY_WIDTH, KEY_COUNT, LCD_INTERNAL_WIDTH};

verus! {

/// What a key press asks of the calculator.
#[derive(Clone, Copy, PartialEq, Eq, Debug, Structural)]
pub enum Command {
    /// Put a token at the cursor
    Put(Token),
    /// Put a distribution and an opening parenthesis at the cursor
    PutDist(Dist),
    Delete,
    Clear,
    Back,
    Advance,
    ToggleShift,
    /// Compute, and show the result
    Compute,
    /// A key with no function
    Nothing,
}

/// How the LCD's cursor must change.
#[derive(Clone, Copy, PartialEq, Eq, Debug, Structural)]
pub enum CursorChange {
    /// Visible and blinking: the tokens are shown again
    Show,
    /// Invisible and still: the result is shown
    Hide,
}

/// The command of key `key` of the scan matrix, with shift as `shift`.
pub open spec fn command_for(shift: ShiftStatus, key: usize) -> Command {
    if key == 3 {
        Command::Clear
    } else if key == 14 {
        Command::ToggleShift
    } else if key == 15 {
        Command::Compute
    } else if shift == ShiftStatus::Si {
        if key == 13 {
            Command::PutDist(Dist::Normal)
        } else {
            // a key with no shifted function only turns shift off
            Command::ToggleShift
        }
    } else if key == 0 {
        Command::Put(Token::Paren(Paren::Open))
    } else if key == 1 {
        Command::Put(Token::Op(Operacio::Add))
    } else if key == 2 {
        Command::Delete
    } else if key == 4 {
        Command::Back
    } else if key == 5 {
        Command::Advance
    } else if 8 <= key <= 12 {
        Command::Put(Token::Digit((key - 8) as u8))
    } else if key == 13 {
        Command::PutDist(Dist::NBinom)
    } else {
        Command::Nothing
    }
}

/// The command of key `key` of the scan matrix, with shift as `shift`.
pub fn command_for_key(shift: ShiftStatus, key: usize) -> (r: Command)
    ensures
        r == command_for(shift, key),
{
    match (shift, key) {
        (ShiftStatus::No, 0) => Command::Put(Token::Paren(Paren::Open)),
        (ShiftStatus::No, 1) => Command::Put(Token::Op(Operacio::Add)),
        (ShiftStatus::No, 2) => Command::Delete,
        (_, 3) => Command::Clear,
        (ShiftStatus::No, 4) => Command::Back,
        (ShiftStatus::No, 5) => Command::Advance,
        (ShiftStatus::No, 8) => Command::Put(Token::Digit(0)),
        (ShiftStatus::No, 9) => Command::Put(Token::Digit(1)),
        (ShiftStatus::No, 10) => Command::Put(Token::Digit(2)),
        (ShiftStatus::No, 11) => Command::Put(Token::Digit(3)),
        (ShiftStatus::No, 12) => Command::Put(Token::Digit(4)),
        (ShiftStatus::No, 13) => Command::PutDist(Dist::NBinom),
        (_, 14) => Command::ToggleShift,
        (_, 15) => Command::Compute,
        (ShiftStatus::Si, 13) => Command::PutDist(Dist::Normal),
        // Pressing a button with no defined Shift should reset shift
        (ShiftStatus::Si, _) => Command::ToggleShift,
        // no function on this key
        _ => Command::Nothing,
    }
}

/// `new` is `old` with the cursor at `c`.
pub open spec fn cursor_moved(old: Calculadora, new: Calculadora, c: int) -> bool {
    &&& new.cursor() == c
    &&& new.tokens() == old.tokens()
    &&& new.token_text() == old.token_text()
    &&& new.result_text() == old.result_text()
    &&& new.graphical() == old.graphical()
    &&& new.same_settings(&old)
}

/// `new` is `old` once `cmd` has been carried out.
pub open spec fn command_done(old: Calculadora, new: Calculadora, cmd: Command) -> bool {
    let toks = old.tokens();
    let c = old.cursor();
    match cmd {
        Command::Put(t) => {
            &&& new.tokens() == with_token(toks, c, t)
            &&& new.cursor() == cursor_after_add(toks, c)
            &&& new.shows_tokens()
            &&& new.result_text() == old.result_text()
            &&& new.same_settings(&old)
        },
        Command::PutDist(dist) => {
            let toks1 = with_token(toks, c, Token::Dist(dist));
            let c1 = cursor_after_add(toks, c);
            &&& new.tokens() == with_token(toks1, c1, Token::Paren(Paren::Open))
            &&& new.cursor() == cursor_after_add(toks1, c1)
            &&& new.shows_tokens()
            &&& new.result_text() == old.result_text()
            &&& new.same_settings(&old)
        },
        Command::Delete => {
            &&& new.tokens() == without_token(toks, c)
            &&& new.cursor() == cursor_after_delete(toks, c)
            &&& new.shows_tokens()
            &&& new.result_text() == old.result_text()
            &&& new.same_settings(&old)
        },
        Command::Clear => new.is_reset(),
        Command::Back => cursor_moved(old, new, cursor_left(c)),
        Command::Advance => cursor_moved(old, new, cursor_right(toks, c)),
        Command::ToggleShift => {
            &&& new.shift() == toggled(old.shift())
            &&& new.tokens() == toks
            &&& new.cursor() == c
            &&& new.token_text() == old.token_text()
            &&& new.result_text() == old.result_text()
            &&& new.graphical() == old.graphical()
            &&& new.cache_valid() == old.cache_valid()
            &&& new.buffer() == old.buffer()
        },
        Command::Compute => {
            &&& new.result_text() == computed_text(toks)
            &&& new.buffer() == BufferType::Resultat
            &&& new.tokens() == toks
            &&& new.cursor() == c
            &&& new.token_text() == old.token_text()
            &&& new.graphical() == old.graphical()
            &&& new.cache_valid() == old.cache_valid()
            &&& new.shift() == old.shift()
        },
        Command::Nothing => new == old,
    }
}

/// How many keys `pressed` shows pressed.
pub open spec fn pressed_count(pressed: Seq<bool>) -> nat
    decreases pressed.len(),
{
    if pressed.len() == 0 {
        0
    } else {
        pressed_count(pressed.drop_last()) + if pressed.last() {
            1nat
        } else {
            0nat
        }
    }
}

/// The first key from `i` on that `pressed` shows pressed, if any.
pub open spec fn first_pressed_from(pressed: Seq<bool>, i: int) -> Option<int>
    decreases pressed.len() - i,
{
    if i < 0 || i >= pressed.len() {
        None
    } else if pressed[i] {
        Some(i)
    } else {
        first_pressed_from(pressed, i + 1)
    }
}

/// The first key that `pressed` shows pressed, if any.
pub open spec fn first_pressed(pressed: Seq<bool>) -> Option<int> {
    first_pressed_from(pressed, 0)
}

/// How many keys are pressed.
pub fn count_pressed(pressed: &[bool; KEY_COUNT]) -> (r: usize)
    ensures
        r == pressed_count(pressed@),
{
    let mut n: usize = 0;
    let mut i: usize = 0;
    while i < KEY_COUNT
        invariant
            i <= KEY_COUNT,
            n == pressed_count(pressed@.take(i as int)),
            n <= i,
        decreases KEY_COUNT - i,
    {
        assert(pressed@.take(i as int + 1).drop_last() =~= pressed@.take(i as int));
        if pressed[i] {
            n += 1;
        }
        i += 1;
    }
    assert(pressed@.take(KEY_COUNT as int) =~= pressed@);
    n
}

/// The first key pressed, if any.
pub fn first_pressed_key(pressed: &[bool; KEY_COUNT]) -> (r: Option<usize>)
    ensures
        match first_pressed(pressed@) {
            Some(k) => r == Some(k as usize),
            None => r is None,
        },
{
    let mut i: usize = 0;
    while i < KEY_COUNT
        invariant
            i <= KEY_COUNT,
            first_pressed(pressed@) == first_pressed_from(pressed@, i as int),
        decreases KEY_COUNT - i,
    {
        if pressed[i] {
            return Some(i);
        }
        i += 1;
    }
    None
}

/// The address in the LCD's memory of display position `pos`: the second
/// line starts at `LCD_INTERNAL_WIDTH`.
pub open spec fn lcd_address(pos: int) -> int {
    if pos >= DISPLAY_WIDTH {
        LCD_INTERNAL_WIDTH + (pos - DISPLAY_WIDTH)
    } else {
        pos
    }
}

/// The address in the LCD's memory of display position `pos`.
pub fn lcd_cursor_address(pos: usize) -> (r: usize)
    requires
        lcd_address(pos as int) <= usize::MAX,
    ensures
        r == lcd_address(pos as int),
{
    if pos >= DISPLAY_WIDTH {
        LCD_INTERNAL_WIDTH + (pos - DISPLAY_WIDTH)
    } else {
        pos
    }
}

/// What to write to the LCD: the two lines of text, where to put the
/// cursor and whether it blinks.
#[derive(Clone, Copy, Debug)]
pub struct Frame {
    pub text: TextArea,
    pub cursor_address: usize,
    pub blink: bool,
}

} // verus!
