use vstd::prelude::*;

use crate::tokens::Token;
use crate::{DISPLAY_SIZE, DISPLAY_WIDTH};

verus! {

/// A text area of spaces only.
pub open spec fn blank_text() -> Seq<u8> {
    Seq::new(DISPLAY_SIZE as nat, |i: int| 32u8)
}

/// A token is valid when a digit holds a decimal digit, `0..9`.
pub open spec fn valid_token(t: Token) -> bool {
    t matches Token::Digit(n) ==> n <= 9
}

/// Every token held in `toks` is valid.
pub open spec fn all_valid(toks: Seq<Option<Token>>) -> bool {
    forall|i: int| 0 <= i < toks.len() && toks[i] is Some ==> valid_token(#[trigger] toks[i].unwrap())
}

/// The single character that shows a token other than a distribution.
pub open spec fn glyph(t: Token) -> u8 {
    match t {
        Token::Digit(n) => (n + 48) as u8,
        Token::Op(op) => op.glyph(),
        Token::Paren(p) => p.glyph(),
        Token::VariantR(v) => v.glyph(),
        Token::DecimalPoint => 46u8,
        Token::Comma => 44u8,
        Token::Dist(_) => 32u8,
    }
}

/// `disp` with `name` written from position `at` on.
pub open spec fn write_at(disp: Seq<u8>, at: int, name: Seq<u8>) -> Seq<u8> {
    Seq::new(
        disp.len(),
        |k: int|
            if at <= k < at + name.len() {
                name[k - at]
            } else {
                disp[k]
            },
    )
}

/// Lays out the tokens of `toks` from index `i` on, starting at display
/// position `d` over `disp`. A token takes one character, a distribution its
/// name; a name that does not fit on the first line starts the second one,
/// and one that does not fit on the second line ends the layout, as does
/// an empty slot or a full display. Returns the display and the position
/// after the last character written.
pub open spec fn layout(toks: Seq<Option<Token>>, i: nat, d: nat, disp: Seq<u8>) -> (Seq<u8>, nat)
    decreases toks.len() - i,
{
    if i >= toks.len() || d >= DISPLAY_SIZE || toks[i as int] is None {
        (disp, d)
    } else {
        match toks[i as int].unwrap() {
            Token::Dist(dist) => {
                let name = dist.name();
                if d < DISPLAY_WIDTH && name.len() > DISPLAY_WIDTH - d {
                    layout(
                        toks,
                        i + 1,
                        DISPLAY_WIDTH as nat + name.len(),
                        write_at(disp, DISPLAY_WIDTH as int, name),
                    )
                } else if d + name.len() > DISPLAY_SIZE {
                    (disp, d)
                } else {
                    layout(toks, i + 1, d + name.len(), write_at(disp, d as int, name))
                }
            },
            t => layout(toks, i + 1, d + 1, disp.update(d as int, glyph(t))),
        }
    }
}

/// What the token display shows for `toks`, and where its cursor stands.
pub open spec fn shown_tokens(toks: Seq<Option<Token>>) -> (Seq<u8>, nat) {
    layout(toks, 0, 0, blank_text())
}

/// Every byte of `text` is ASCII.
pub open spec fn is_ascii_text(text: Seq<u8>) -> bool {
    forall|i: int| 0 <= i < text.len() ==> #[trigger] text[i] < 128
}

/// Laying out valid tokens over an ASCII display of the display's size
/// gives an ASCII display of that size, and a position within it.
pub proof fn lemma_layout_ascii(toks: Seq<Option<Token>>, i: nat, d: nat, disp: Seq<u8>)
    requires
        all_valid(toks),
        is_ascii_text(disp),
        disp.len() == DISPLAY_SIZE,
        d <= DISPLAY_SIZE,
    ensures
        is_ascii_text(layout(toks, i, d, disp).0),
        layout(toks, i, d, disp).0.len() == DISPLAY_SIZE,
        layout(toks, i, d, disp).1 <= DISPLAY_SIZE,
    decreases toks.len() - i,
{
    if i >= toks.len() || d >= DISPLAY_SIZE || toks[i as int] is None {
    } else {
        let t = toks[i as int].unwrap();
        assert(valid_token(t));
        match t {
            Token::Dist(dist) => {
                let name = dist.name();
                assert(is_ascii_text(name));
                if d < DISPLAY_WIDTH && name.len() > DISPLAY_WIDTH - d {
                    let next = write_at(disp, DISPLAY_WIDTH as int, name);
                    assert(is_ascii_text(next));
                    lemma_layout_ascii(toks, i + 1, DISPLAY_WIDTH as nat + name.len(), next);
                } else if d + name.len() > DISPLAY_SIZE {
                } else {
                    let next = write_at(disp, d as int, name);
                    assert(is_ascii_text(next));
                    lemma_layout_ascii(toks, i + 1, d + name.len(), next);
                }
            },
            _ => {
                let next = disp.update(d as int, glyph(t));
                assert(is_ascii_text(next));
                lemma_layout_ascii(toks, i + 1, d + 1, next);
            },
        }
    }
}

/// The token display of valid tokens is ASCII, and its cursor stands within
/// the display.
pub proof fn lemma_shown_tokens_ascii(toks: Seq<Option<Token>>)
    requires
        all_valid(toks),
    ensures
        is_ascii_text(shown_tokens(toks).0),
        shown_tokens(toks).0.len() == DISPLAY_SIZE,
        shown_tokens(toks).1 <= DISPLAY_SIZE,
{
    lemma_layout_ascii(toks, 0, 0, blank_text());
}

} // verus!
