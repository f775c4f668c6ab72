use vstd::prelude::*;

use crate::computacio::{compute_tokens, computed_text, numbers_fit, numbers_fit_in};
use crate::stack::empty_slots;
use crate::laws::{
    law_add_keeps_tokens_contiguous, law_cursor_moves_stay_in_range,
    law_delete_keeps_tokens_contiguous, law_reset_tokens_contiguous,
};
use crate::keys::{
    command_done, command_for, command_for_key, count_pressed, first_pressed, first_pressed_from,
    first_pressed_key, lcd_address, lcd_cursor_address, pressed_count, Command, CursorChange, Frame,
};
use crate::display::{
    all_valid, blank_text, is_ascii_text, layout, lemma_shown_tokens_ascii, shown_tokens,
    valid_token, write_at,
};
use crate::tokens::{Dist, Paren, Token};
use crate::{TextArea, DISPLAY_SIZE, DISPLAY_WIDTH, KEY_COUNT, MAX_TOKENS};

verus! {

/// Shift status
#[derive(Clone, Copy, PartialEq, Eq, Debug, Structural)]
pub enum ShiftStatus {
    /// Enabled
    Si,
    /// Not enabled
    No,
}

/// Which buffer the display shows.
#[derive(Clone, Copy, PartialEq, Eq, Debug, Structural)]
pub enum BufferType {
    /// What the user typed
    Tokens,
    /// After computing
    Resultat,
}

/// `toks` once `t` is put at cursor `c`: into the slot there when it is
/// empty, otherwise in front of the token there, the tokens from `c` on
/// moving one slot to the right and the last one falling off.
pub open spec fn with_token(toks: Seq<Option<Token>>, c: int, t: Token) -> Seq<Option<Token>> {
    if toks[c] is None {
        toks.update(c, Some(t))
    } else {
        toks.take(c) + seq![Some(t)] + toks.subrange(c, MAX_TOKENS - 1)
    }
}

/// Where the cursor stands once a token is put at cursor `c`: it moves past
/// a token put into an empty slot, when there is room.
pub open spec fn cursor_after_add(toks: Seq<Option<Token>>, c: int) -> int {
    if toks[c] is None && c < MAX_TOKENS - 1 {
        c + 1
    } else {
        c
    }
}

/// The cursor one position to the left, if there is one.
pub open spec fn cursor_left(c: int) -> int {
    if c > 0 {
        c - 1
    } else {
        c
    }
}

/// `toks` once the token under cursor `c` is deleted: the tokens after it
/// move one slot to the left. When there is none under the cursor, the
/// slot to the left of the cursor is emptied.
pub open spec fn without_token(toks: Seq<Option<Token>>, c: int) -> Seq<Option<Token>> {
    if toks[c] is Some {
        toks.take(c) + toks.subrange(c + 1, MAX_TOKENS as int) + seq![None]
    } else {
        toks.update(cursor_left(c), None)
    }
}

/// Where the cursor stands once a token is deleted at cursor `c`.
pub open spec fn cursor_after_delete(toks: Seq<Option<Token>>, c: int) -> int {
    if toks[c] is Some {
        c
    } else {
        cursor_left(c)
    }
}

/// The cursor one position to the right, onto the slot after a token, when
/// there is room.
pub open spec fn cursor_right(toks: Seq<Option<Token>>, c: int) -> int {
    if c < MAX_TOKENS - 1 && toks[c] is Some {
        c + 1
    } else {
        c
    }
}

/// The shift status after a toggle.
pub open spec fn toggled(s: ShiftStatus) -> ShiftStatus {
    match s {
        ShiftStatus::Si => ShiftStatus::No,
        ShiftStatus::No => ShiftStatus::Si,
    }
}

/// The tokens form a prefix of the buffer: no empty slot comes before a
/// token.
pub open spec fn contiguous(toks: Seq<Option<Token>>) -> bool {
    forall|i: int, j: int| 0 <= i < j < toks.len() && #[trigger] toks[i] is None ==> #[trigger] toks[j] is None
}

/// The cursor stands on a token or just after the last one.
pub open spec fn cursor_in_range(toks: Seq<Option<Token>>, c: int) -> bool {
    &&& 0 <= c < MAX_TOKENS
    &&& (c == 0 || toks[c - 1] is Some)
}

/// The slot contents of an empty token buffer.
pub open spec fn no_tokens() -> Seq<Option<Token>> {
    Seq::new(MAX_TOKENS as nat, |i: int| None)
}

pub struct Calculadora {
    pub toks: [Option<Token>; MAX_TOKENS],
    /// ASCII to show when the user is inputting tokens
    token_display: TextArea,
    /// ASCII to show when the user wants to see the result
    computation_display: TextArea,
    /// Index into `toks`: the chosen token (or one past the last one).
    /// Insertions and deletions happen at the cursor.
    token_cursor: usize,
    /// Graphical cursor, where the user thinks they're inserting
    pub graphical_cursor: usize,
    /// Whether the displayed contents are still valid. If not, they should be redrawn to the screen
    pub is_cache_valid: bool,
    /// Which buffer should be displayed at the current moment
    pub currently_shown_buffer: BufferType,
    /// Shift status
    pub shift_status: ShiftStatus,
}

impl Calculadora {
    /// The token cursor.
    pub closed spec fn cursor(&self) -> int {
        self.token_cursor as int
    }

    /// What the token display holds.
    pub closed spec fn token_text(&self) -> Seq<u8> {
        self.token_display@
    }

    /// What the result display holds.
    pub closed spec fn result_text(&self) -> Seq<u8> {
        self.computation_display@
    }

    /// The tokens held.
    pub closed spec fn tokens(&self) -> Seq<Option<Token>> {
        self.toks@
    }

    /// The graphical cursor.
    pub closed spec fn graphical(&self) -> int {
        self.graphical_cursor as int
    }

    /// Whether the screen still shows what the display holds.
    pub closed spec fn cache_valid(&self) -> bool {
        self.is_cache_valid
    }

    /// The buffer that the display shows.
    pub closed spec fn buffer(&self) -> BufferType {
        self.currently_shown_buffer
    }

    /// The shift status.
    pub closed spec fn shift(&self) -> ShiftStatus {
        self.shift_status
    }

    /// The token display of a calculator is ASCII, and its graphical cursor
    /// stands within the display.
    pub proof fn lemma_token_display_ascii(&self)
        requires
            self.wf(),
            self.shows_tokens(),
        ensures
            is_ascii_text(self.token_text()),
            self.token_text().len() == DISPLAY_SIZE,
            0 <= self.graphical() <= DISPLAY_SIZE,
    {
        lemma_shown_tokens_ascii(self.toks@);
    }

    /// The calculator's invariant: the cursor indexes the token buffer and
    /// every token is valid.
    pub open spec fn wf(&self) -> bool {
        &&& 0 <= self.cursor() < MAX_TOKENS
        &&& self.tokens().len() == MAX_TOKENS
        &&& all_valid(self.tokens())
    }

    /// The token display shows the tokens, and the graphical cursor stands
    /// after them.
    pub open spec fn shows_tokens(&self) -> bool {
        &&& self.token_text() == shown_tokens(self.tokens()).0
        &&& self.graphical() == shown_tokens(self.tokens()).1
    }

    /// The settings that only the caller changes: cache validity, buffer
    /// shown and shift status.
    pub open spec fn same_settings(&self, other: &Self) -> bool {
        &&& self.cache_valid() == other.cache_valid()
        &&& self.buffer() == other.buffer()
        &&& self.shift() == other.shift()
    }

    /// The tokens form a prefix of the buffer, and the cursor points at a
    /// token or one past the last one.
    pub open spec fn cursor_on_tokens(&self) -> bool {
        &&& contiguous(self.tokens())
        &&& cursor_in_range(self.tokens(), self.cursor())
    }

    /// Everything but the settings is as in `other`.
    pub open spec fn same_contents(&self, other: &Self) -> bool {
        &&& self.tokens() == other.tokens()
        &&& self.cursor() == other.cursor()
        &&& self.token_text() == other.token_text()
        &&& self.result_text() == other.result_text()
        &&& self.graphical() == other.graphical()
    }

    /// This calculator, with the screen marked out of date.
    pub closed spec fn invalidated(self) -> Calculadora {
        Calculadora { is_cache_valid: false, ..self }
    }

    /// This calculator, with the screen marked up to date.
    pub closed spec fn validated(self) -> Calculadora {
        Calculadora { is_cache_valid: true, ..self }
    }

    /// This calculator, showing buffer `b`.
    pub closed spec fn showing(self, b: BufferType) -> Calculadora {
        Calculadora { currently_shown_buffer: b, ..self }
    }

    /// What the display shows: the tokens or the result.
    pub open spec fn shown_text(&self) -> Seq<u8> {
        match self.buffer() {
            BufferType::Tokens => self.token_text(),
            BufferType::Resultat => self.result_text(),
        }
    }

    /// The state of a calculator that was just switched on.
    pub open spec fn is_reset(&self) -> bool {
        &&& self.tokens() == no_tokens()
        &&& self.token_text() == blank_text()
        &&& self.result_text() == blank_text()
        &&& self.cursor() == 0
        &&& self.graphical() == 0
        &&& !self.cache_valid()
        &&& self.buffer() == BufferType::Tokens
        &&& self.shift() == ShiftStatus::No
    }

    /// What changing one setting leaves as it was.
    pub proof fn lemma_setting_changes(self, b: BufferType)
        ensures
            self.invalidated().same_contents(&self),
            !self.invalidated().cache_valid(),
            self.invalidated().buffer() == self.buffer(),
            self.invalidated().shift() == self.shift(),
            self.validated().same_contents(&self),
            self.validated().cache_valid(),
            self.validated().buffer() == self.buffer(),
            self.validated().shift() == self.shift(),
            self.showing(b).same_contents(&self),
            self.showing(b).cache_valid() == self.cache_valid(),
            self.showing(b).buffer() == b,
            self.showing(b).shift() == self.shift(),
    {
    }
}

/// Writes `c` at position `d_idx` of `display` and moves the position on.
fn update(display: &mut [u8], d_idx: &mut usize, c: u8)
    requires
        *old(d_idx) < old(display)@.len(),
    ensures
        final(display)@ == old(display)@.update(*old(d_idx) as int, c),
        *final(d_idx) == *old(d_idx) + 1,
{
    display[*d_idx] = c;
    *d_idx += 1;
}

/// Moves the contents of slot `a` to slot `b` and back.
fn swap_slots(toks: &mut [Option<Token>; MAX_TOKENS], a: usize, b: usize)
    requires
        a < MAX_TOKENS,
        b < MAX_TOKENS,
    ensures
        final(toks)@ == old(toks)@.update(a as int, old(toks)@[b as int]).update(
            b as int,
            old(toks)@[a as int],
        ),
{
    let t = toks[a];
    toks[a] = toks[b];
    toks[b] = t;
}

impl Calculadora {
    /// Updates the token display from the tokens held.
    /// Runs after every change.
    pub fn update_token_display(&mut self)
        requires
            old(self).wf(),
        ensures
            final(self).wf(),
            final(self).shows_tokens(),
            final(self).tokens() == old(self).tokens(),
            final(self).cursor() == old(self).cursor(),
            final(self).result_text() == old(self).result_text(),
            final(self).same_settings(old(self)),
    {
        // Where we are about to write
        let mut d_idx: usize = 0;
        self.token_display = [' ' as u8; DISPLAY_SIZE];
        assert(self.token_display@ =~= blank_text());

        let mut ti: usize = 0;
        while ti < MAX_TOKENS
            invariant_except_break
                ti <= MAX_TOKENS,
                d_idx <= DISPLAY_SIZE,
                self.token_cursor == old(self).token_cursor,
                self.toks == old(self).toks,
                self.computation_display == old(self).computation_display,
                self.same_settings(old(self)),
                all_valid(self.toks@),
                layout(self.toks@, ti as nat, d_idx as nat, self.token_display@) == shown_tokens(
                    self.toks@,
                ),
            ensures
                self.token_cursor == old(self).token_cursor,
                self.toks == old(self).toks,
                self.computation_display == old(self).computation_display,
                self.same_settings(old(self)),
                (self.token_display@, d_idx as nat) == shown_tokens(self.toks@),
            decreases MAX_TOKENS - ti,
        {
            let ghost disp0 = self.token_display@;
            let ghost d0 = d_idx as nat;
            if d_idx >= DISPLAY_SIZE || self.toks[ti].is_none() {
                break;
            }
            // we just checked that the slot holds a token
            let t = self.toks[ti].unwrap();
            assert(valid_token(self.toks@[ti as int].unwrap()));
            match t {
                Token::Digit(n) => update(&mut self.token_display, &mut d_idx, n + '0' as u8),
                Token::Op(op) => update(&mut self.token_display, &mut d_idx, op.as_ascii()),
                Token::Paren(p) => update(&mut self.token_display, &mut d_idx, p.as_ascii()),
                Token::VariantR(v) => update(&mut self.token_display, &mut d_idx, v.as_ascii()),
                Token::DecimalPoint => update(&mut self.token_display, &mut d_idx, '.' as u8),
                Token::Comma => update(&mut self.token_display, &mut d_idx, ',' as u8),
                Token::Dist(dist) => {
                    let text = dist.as_ascii();
                    let len = text.len();
                    if d_idx < DISPLAY_WIDTH && len > DISPLAY_WIDTH - d_idx {
                        d_idx = DISPLAY_WIDTH;
                    } else if d_idx + len > DISPLAY_SIZE {
                        break;
                    }
                    let bytes = text.as_bytes();
                    let ghost start = self.token_display@;
                    let mut k: usize = 0;
                    while k < len
                        invariant
                            k <= len,
                            len == bytes@.len(),
                            bytes@ == dist.name(),
                            d_idx + len <= DISPLAY_SIZE,
                            self.toks == old(self).toks,
                            self.token_cursor == old(self).token_cursor,
                            self.computation_display == old(self).computation_display,
                            self.same_settings(old(self)),
                            self.token_display@ == write_at(start, d_idx as int, bytes@.take(
                                k as int,
                            )),
                        decreases len - k,
                    {
                        self.token_display[d_idx + k] = bytes[k];
                        k += 1;
                        assert(self.token_display@ =~= write_at(
                            start,
                            d_idx as int,
                            bytes@.take(k as int),
                        ));
                    }
                    assert(bytes@.take(len as int) =~= bytes@);
                    d_idx += len;
                },
            };
            assert(layout(self.toks@, ti as nat, d0, disp0) == layout(
                self.toks@,
                (ti + 1) as nat,
                d_idx as nat,
                self.token_display@,
            ));
            ti += 1;
        }
        self.graphical_cursor = d_idx;
    }

    /// Almost any key press puts its token at the cursor: into the empty
    /// slot there, or in front of the token there.
    pub fn add_token(&mut self, token: Token)
        requires
            old(self).wf(),
            valid_token(token),
        ensures
            final(self).wf(),
            final(self).tokens() == with_token(old(self).tokens(), old(self).cursor(), token),
            final(self).cursor() == cursor_after_add(old(self).tokens(), old(self).cursor()),
            final(self).shows_tokens(),
            final(self).result_text() == old(self).result_text(),
            final(self).same_settings(old(self)),
            old(self).cursor_on_tokens() ==> final(self).cursor_on_tokens(),
    {
        let ghost old_toks = self.toks@;
        let c = self.token_cursor;
        proof {
            if old(self).cursor_on_tokens() {
                law_add_keeps_tokens_contiguous(old_toks, c as int, token);
            }
        }
        if self.toks[c].is_none() {
            self.toks[c] = Some(token);
            self.cursor_advance();
        } else {
            let mut i: usize = MAX_TOKENS - 1;
            while i > c
                invariant
                    c <= i < MAX_TOKENS,
                    c == self.token_cursor,
                    c < MAX_TOKENS,
                    self.toks@.len() == MAX_TOKENS,
                    forall|k: int| 0 <= k < i ==> self.toks@[k] == old_toks[k],
                    self.toks@[i as int] == old_toks[MAX_TOKENS - 1],
                    forall|k: int| i < k < MAX_TOKENS ==> self.toks@[k] == old_toks[k - 1],
                    self.computation_display == old(self).computation_display,
                    self.same_settings(old(self)),
                decreases i,
            {
                i -= 1;
                swap_slots(&mut self.toks, i + 1, i);
            }
            self.toks[c] = Some(token);
            assert(self.toks@ =~= with_token(old_toks, c as int, token));
        }
        assert(all_valid(self.toks@)) by {
            assert forall|k: int| 0 <= k < self.toks@.len() && self.toks@[k] is Some implies valid_token(
                #[trigger] self.toks@[k].unwrap(),
            ) by {
                if self.toks@[k] != Some(token) {
                    assert(exists|j: int|
                        0 <= j < MAX_TOKENS && old_toks[j] == self.toks@[k]) by {
                        if old_toks[c as int] is None {
                            assert(old_toks[k] == self.toks@[k]);
                        } else if k < c {
                            assert(old_toks[k] == self.toks@[k]);
                        } else {
                            assert(old_toks[k - 1] == self.toks@[k]);
                        }
                    }
                }
            }
        }
        self.update_token_display();
    }

    /// Puts a distribution and an opening parenthesis at the cursor.
    pub fn add_dist_tokens(&mut self, dist: Dist)
        requires
            old(self).wf(),
        ensures
            final(self).wf(),
            ({
                let toks1 = with_token(old(self).tokens(), old(self).cursor(), Token::Dist(dist));
                let c1 = cursor_after_add(old(self).tokens(), old(self).cursor());
                &&& final(self).tokens() == with_token(toks1, c1, Token::Paren(Paren::Open))
                &&& final(self).cursor() == cursor_after_add(toks1, c1)
            }),
            final(self).shows_tokens(),
            final(self).result_text() == old(self).result_text(),
            final(self).same_settings(old(self)),
            old(self).cursor_on_tokens() ==> final(self).cursor_on_tokens(),
    {
        self.add_token(Token::Dist(dist));
        self.add_token(Token::Paren(Paren::Open));
    }

    /// When Delete is pressed: removes the token under the cursor, or else
    /// the one to its left, moving the cursor there.
    pub fn del_token(&mut self)
        requires
            old(self).wf(),
        ensures
            final(self).wf(),
            final(self).tokens() == without_token(old(self).tokens(), old(self).cursor()),
            final(self).cursor() == cursor_after_delete(old(self).tokens(), old(self).cursor()),
            final(self).shows_tokens(),
            final(self).result_text() == old(self).result_text(),
            final(self).same_settings(old(self)),
            old(self).cursor_on_tokens() ==> final(self).cursor_on_tokens(),
    {
        let ghost old_toks = self.toks@;
        let c = self.token_cursor;
        proof {
            if old(self).cursor_on_tokens() {
                law_delete_keeps_tokens_contiguous(old_toks, c as int);
            }
        }
        if self.toks[c].is_some() {
            let mut i: usize = c;
            while i < MAX_TOKENS - 1
                invariant
                    c <= i < MAX_TOKENS,
                    c == self.token_cursor,
                    self.toks@.len() == MAX_TOKENS,
                    forall|k: int| 0 <= k < c ==> self.toks@[k] == old_toks[k],
                    forall|k: int| c <= k < i ==> self.toks@[k] == old_toks[k + 1],
                    self.toks@[i as int] == old_toks[c as int],
                    forall|k: int| i < k < MAX_TOKENS ==> self.toks@[k] == old_toks[k],
                    self.computation_display == old(self).computation_display,
                    self.same_settings(old(self)),
                decreases MAX_TOKENS - i,
            {
                swap_slots(&mut self.toks, i, i + 1);
                i += 1;
            }
            self.toks[MAX_TOKENS - 1] = None;
            assert(self.toks@ =~= without_token(old_toks, c as int));
        } else {
            self.cursor_back();
            self.toks[self.token_cursor] = None;
            assert(self.toks@ =~= without_token(old_toks, c as int));
        }
        assert(all_valid(self.toks@)) by {
            assert forall|k: int| 0 <= k < self.toks@.len() && self.toks@[k] is Some implies valid_token(
                #[trigger] self.toks@[k].unwrap(),
            ) by {
                if old_toks[c as int] is None {
                    assert(old_toks[k] == self.toks@[k]);
                } else if k < c {
                    assert(old_toks[k] == self.toks@[k]);
                } else {
                    assert(old_toks[k + 1] == self.toks@[k]);
                }
            }
        }
        self.update_token_display();
    }

    /// When Clear is pressed. Full reset
    pub fn clear(&mut self)
        ensures
            final(self).wf(),
            final(self).is_reset(),
            final(self).cursor_on_tokens(),
    {
        *self = Self::default();
    }

    /// Moves the cursor one position to the left
    pub fn cursor_back(&mut self)
        ensures
            final(self).cursor() == cursor_left(old(self).cursor()),
            final(self).tokens() == old(self).tokens(),
            final(self).token_text() == old(self).token_text(),
            final(self).result_text() == old(self).result_text(),
            final(self).graphical() == old(self).graphical(),
            final(self).same_settings(old(self)),
            old(self).cursor_on_tokens() ==> final(self).cursor_on_tokens(),
    {
        proof {
            if old(self).cursor_on_tokens() {
                law_cursor_moves_stay_in_range(self.toks@, self.token_cursor as int);
            }
        }
        if self.token_cursor > 0 {
            self.token_cursor -= 1
        }
    }

    /// Moves the cursor one position to the right, onto the slot after a
    /// token, when there is one.
    pub fn cursor_advance(&mut self)
        ensures
            final(self).cursor() == cursor_right(old(self).tokens(), old(self).cursor()),
            final(self).tokens() == old(self).tokens(),
            final(self).token_text() == old(self).token_text(),
            final(self).result_text() == old(self).result_text(),
            final(self).graphical() == old(self).graphical(),
            final(self).same_settings(old(self)),
            old(self).cursor_on_tokens() ==> final(self).cursor_on_tokens(),
    {
        proof {
            if old(self).cursor_on_tokens() {
                law_cursor_moves_stay_in_range(self.toks@, self.token_cursor as int);
            }
        }
        if self.token_cursor < (MAX_TOKENS - 1) && !self.toks[self.token_cursor].is_none() {
            self.token_cursor += 1
        }
    }

    /// Turns shift on when it is off, and off when it is on.
    pub fn toggle_shift(&mut self)
        ensures
            final(self).shift() == toggled(old(self).shift()),
            final(self).tokens() == old(self).tokens(),
            final(self).cursor() == old(self).cursor(),
            final(self).token_text() == old(self).token_text(),
            final(self).result_text() == old(self).result_text(),
            final(self).graphical() == old(self).graphical(),
            final(self).cache_valid() == old(self).cache_valid(),
            final(self).buffer() == old(self).buffer(),
    {
        self.shift_status = match self.shift_status {
            ShiftStatus::Si => ShiftStatus::No,
            ShiftStatus::No => ShiftStatus::Si,
        }
    }

    /// What the display shows now: the tokens or the result.
    pub fn display(&self) -> (r: TextArea)
        ensures
            r@ == self.shown_text(),
    {
        match self.currently_shown_buffer {
            BufferType::Tokens => self.token_display,
            BufferType::Resultat => self.computation_display,
        }
    }

    /// When '=' is pressed: computes what the tokens ask for, to be shown
    /// by `display`. A syntax error is written there too.
    pub fn compute(&mut self)
        requires
            numbers_fit(old(self).tokens()),
        ensures
            final(self).result_text() == computed_text(old(self).tokens()),
            is_ascii_text(final(self).result_text()),
            final(self).tokens() == old(self).tokens(),
            final(self).cursor() == old(self).cursor(),
            final(self).token_text() == old(self).token_text(),
            final(self).graphical() == old(self).graphical(),
            final(self).same_settings(old(self)),
    {
        match compute_tokens(&self.toks) {
            Ok(text) => self.computation_display = text,
            Err(e) => self.computation_display = e.as_text(),
        }
        assert(is_ascii_text(self.computation_display@));
    }

    /// Whether every number that computing the tokens held reads fits in an
    /// `Enter`: the condition under which `compute` can be called.
    pub fn numbers_fit_now(&self) -> (r: bool)
        ensures
            r == numbers_fit(self.tokens()),
    {
        numbers_fit_in(&self.toks)
    }

    /// The token cursor is never negative.
    pub proof fn lemma_cursor_nonnegative(&self)
        ensures
            0 <= self.cursor(),
    {
    }

    /// Replaces what the result display holds.
    pub fn set_backbuffer_text(&mut self, text: TextArea)
        ensures
            final(self).result_text() == text@,
            final(self).tokens() == old(self).tokens(),
            final(self).cursor() == old(self).cursor(),
            final(self).token_text() == old(self).token_text(),
            final(self).graphical() == old(self).graphical(),
            final(self).same_settings(old(self)),
    {
        self.computation_display = text;
    }
}

impl Default for Calculadora {
    fn default() -> (r: Self)
        ensures
            r.wf(),
            r.is_reset(),
            r.cursor_on_tokens(),
    {
        let r = Self {
            toks: empty_slots(),
            token_display: [' ' as u8; DISPLAY_SIZE],
            computation_display: [' ' as u8; DISPLAY_SIZE],
            token_cursor: 0,
            graphical_cursor: 0,
            is_cache_valid: false,
            currently_shown_buffer: BufferType::Tokens,
            shift_status: ShiftStatus::No,
        };
        assert(r.toks@ =~= no_tokens());
        proof {
            law_reset_tokens_contiguous();
        }
        assert(r.token_display@ =~= blank_text());
        assert(r.computation_display@ =~= blank_text());
        r
    }
}

/// The scan `pressed`, with `held` telling whether a key was already down,
/// makes the calculator compute.
pub open spec fn scan_computes(calc: Calculadora, pressed: Seq<bool>, held: bool) -> bool {
    &&& pressed_count(pressed) == 1
    &&& calc.buffer() == BufferType::Tokens
    &&& !held
    &&& command_for(calc.shift(), first_pressed(pressed).unwrap() as usize) == Command::Compute
}

impl Calculadora {
    /// Carries out a command; tells how the LCD's cursor must change.
    pub fn run_command(&mut self, cmd: Command) -> (r: Option<CursorChange>)
        requires
            old(self).wf(),
            cmd matches Command::Put(t) ==> valid_token(t),
            cmd == Command::Compute ==> numbers_fit(old(self).tokens()),
        ensures
            final(self).wf(),
            command_done(*old(self), *final(self), cmd),
            r == if cmd == Command::Compute {
                Some(CursorChange::Hide)
            } else {
                None
            },
    {
        match cmd {
            Command::Put(t) => self.add_token(t),
            Command::PutDist(dist) => self.add_dist_tokens(dist),
            Command::Delete => self.del_token(),
            Command::Clear => self.clear(),
            Command::Back => self.cursor_back(),
            Command::Advance => self.cursor_advance(),
            Command::ToggleShift => self.toggle_shift(),
            Command::Compute => {
                self.compute();
                self.currently_shown_buffer = BufferType::Resultat;
                return Some(CursorChange::Hide);
            },
            Command::Nothing => {},
        }
        None
    }

    /// Handles one scan of the key matrix. `held` tells whether a key was
    /// down at the previous scan; a key acts only when it goes down. Returns
    /// whether a key is down now, and how the LCD's cursor must change.
    /// A scan with several keys down is ignored.
    pub fn on_scan(&mut self, pressed: &[bool; KEY_COUNT], held: bool) -> (r: (
        bool,
        Option<CursorChange>,
    ))
        requires
            old(self).wf(),
            scan_computes(*old(self), pressed@, held) ==> numbers_fit(old(self).tokens()),
        ensures
            final(self).wf(),
            pressed_count(pressed@) > 1 ==> *final(self) == *old(self) && r == (
                held,
                None::<CursorChange>,
            ),
            pressed_count(pressed@) == 0 ==> *final(self) == *old(self) && r == (
                false,
                None::<CursorChange>,
            ),
            pressed_count(pressed@) == 1 ==> {
                let key = first_pressed(pressed@).unwrap() as usize;
                &&& r.0
                &&& held ==> *final(self) == *old(self) && r.1 is None
                &&& !held && old(self).buffer() == BufferType::Tokens ==> {
                    let cmd = command_for(old(self).shift(), key);
                    &&& command_done(old(self).invalidated(), *final(self), cmd)
                    &&& r.1 == if cmd == Command::Compute {
                        Some(CursorChange::Hide)
                    } else {
                        None
                    }
                }
                &&& !held && old(self).buffer() == BufferType::Resultat ==> {
                    &&& *final(self) == old(self).invalidated().showing(BufferType::Tokens)
                    &&& r.1 == Some(CursorChange::Show)
                }
            },
    {
        // No pressing multiple keys allowed
        let count = count_pressed(pressed);
        if count > 1 {
            return (held, None);
        }
        let is_curr_pressed = count == 1;
        let mut held = held;
        let mut change = None;
        proof {
            if count == 1 {
                lemma_first_pressed_exists(pressed@, 0);
            } else {
                lemma_first_pressed_none(pressed@, 0);
            }
        }
        // If nothing is pressed, no need to change
        if let Some(pressed_idx) = first_pressed_key(pressed) {
            match self.currently_shown_buffer {
                BufferType::Tokens => {
                    if !held {
                        self.is_cache_valid = false;
                        let cmd = command_for_key(self.shift_status, pressed_idx);
                        proof {
                            lemma_commands_put_valid_tokens(self.shift_status, pressed_idx);
                        }
                        change = self.run_command(cmd);
                    }
                },
                BufferType::Resultat => {
                    if !held && is_curr_pressed {
                        self.is_cache_valid = false;
                        self.currently_shown_buffer = BufferType::Tokens;
                        change = Some(CursorChange::Show);
                    } else {
                        held = false;
                    }
                },
            }
        }
        if held && !is_curr_pressed {
            held = false;
        } else if !held && is_curr_pressed {
            held = true;
        }
        (held, change)
    }

    /// When the screen is out of date: marks it up to date and returns what
    /// to write to it.
    pub fn redraw(&mut self) -> (r: Option<Frame>)
        requires
            lcd_address(old(self).graphical()) <= usize::MAX,
        ensures
            old(self).cache_valid() ==> r is None && *final(self) == *old(self),
            !old(self).cache_valid() ==> {
                &&& *final(self) == old(self).validated()
                &&& r matches Some(f) && {
                    &&& f.text@ == old(self).shown_text()
                    &&& f.cursor_address == lcd_address(old(self).graphical())
                    &&& f.blink == (old(self).shift() == ShiftStatus::Si)
                }
            },
    {
        if self.is_cache_valid {
            return None;
        }
        self.is_cache_valid = true;
        let text = self.display();
        let cursor_address = lcd_cursor_address(self.graphical_cursor);
        let blink = match self.shift_status {
            ShiftStatus::Si => true,
            ShiftStatus::No => false,
        };
        Some(Frame { text, cursor_address, blink })
    }
}

proof fn lemma_first_pressed_exists(pressed: Seq<bool>, i: int)
    requires
        0 <= i <= pressed.len(),
        pressed_count(pressed) == 1,
        forall|j: int| 0 <= j < i ==> !pressed[j],
    ensures
        first_pressed_from(pressed, i) is Some,
    decreases pressed.len() - i,
{
    if i == pressed.len() {
        lemma_count_none(pressed);
    } else if !pressed[i] {
        lemma_first_pressed_exists(pressed, i + 1);
    }
}

proof fn lemma_first_pressed_none(pressed: Seq<bool>, i: int)
    requires
        0 <= i,
        pressed_count(pressed) == 0,
    ensures
        first_pressed_from(pressed, i) is None,
    decreases pressed.len() - i,
{
    if i < pressed.len() {
        lemma_count_zero(pressed, i);
        lemma_first_pressed_none(pressed, i + 1);
    }
}

proof fn lemma_count_none(pressed: Seq<bool>)
    requires
        forall|j: int| 0 <= j < pressed.len() ==> !pressed[j],
    ensures
        pressed_count(pressed) == 0,
    decreases pressed.len(),
{
    if pressed.len() > 0 {
        lemma_count_none(pressed.drop_last());
    }
}

proof fn lemma_count_zero(pressed: Seq<bool>, i: int)
    requires
        pressed_count(pressed) == 0,
        0 <= i < pressed.len(),
    ensures
        !pressed[i],
    decreases pressed.len(),
{
    if i < pressed.len() - 1 {
        lemma_count_zero(pressed.drop_last(), i);
    }
}

/// Every token that a key puts is valid.
proof fn lemma_commands_put_valid_tokens(shift: ShiftStatus, key: usize)
    ensures
        command_for(shift, key) matches Command::Put(t) ==> valid_token(t),
{
}

} // verus!
