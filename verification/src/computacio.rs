use vstd::prelude::*;

use crate::stack::{slots_of, Stack};
use crate::tokens::{Dist, Operacio, Paren, Token, VariantR};
use crate::{Enter, TextArea, DISPLAY_SIZE, MAX_TOKENS};

verus! {

/// Why an expression could not be computed.
#[derive(Clone, Copy, PartialEq, Eq, Debug, Structural)]
pub enum ComputationError {
    NotYetImplemented,
    MismatchedParens,
    RVariantNotFollowedByDistFn,
    DistNotPrecededByRVariant,
}

/// The text area that shows `chars` from its start, padded with spaces and
/// cut at the size of the display.
pub open spec fn text_area_of(chars: Seq<char>) -> Seq<u8> {
    Seq::new(
        DISPLAY_SIZE as nat,
        |i: int|
            if i < chars.len() {
                chars[i] as u8
            } else {
                32u8
            },
    )
}

impl ComputationError {
    /// The message shown for this error.
    pub open spec fn message(self) -> Seq<char> {
        match self {
            ComputationError::NotYetImplemented => "No implementat"@,
            ComputationError::MismatchedParens => "Error de parentesi"@,
            ComputationError::RVariantNotFollowedByDistFn => "p/q/d sense fn"@,
            ComputationError::DistNotPrecededByRVariant => "fn sense p/q/d"@,
        }
    }

    /// The message of the error, written from the start of a blank text
    /// area.
    pub fn as_text(&self) -> (r: TextArea)
        ensures
            r@ == text_area_of(self.message()),
            forall|i: int| 0 <= i < DISPLAY_SIZE ==> r@[i] < 128,
    {
        broadcast use vstd::string::is_ascii_spec_bytes;

        let mut r: TextArea = [' ' as u8; DISPLAY_SIZE];
        let s = match self {
            ComputationError::NotYetImplemented => {
                let s = "No implementat";
                proof { reveal_strlit("No implementat"); }
                s
            },
            ComputationError::MismatchedParens => {
                let s = "Error de parentesi";
                proof { reveal_strlit("Error de parentesi"); }
                s
            },
            ComputationError::RVariantNotFollowedByDistFn => {
                let s = "p/q/d sense fn";
                proof { reveal_strlit("p/q/d sense fn"); }
                s
            },
            ComputationError::DistNotPrecededByRVariant => {
                let s = "fn sense p/q/d";
                proof { reveal_strlit("fn sense p/q/d"); }
                s
            },
        };
        assert(vstd::string::is_ascii(s));
        let bytes = s.as_bytes();
        let len = s.len();
        let n = if len < DISPLAY_SIZE { len } else { DISPLAY_SIZE };
        for i in 0..n
            invariant
                n <= DISPLAY_SIZE,
                n <= bytes@.len(),
                bytes@.len() == s@.len(),
                s@ == self.message(),
                forall|k: int| 0 <= k < s@.len() ==> bytes@[k] == s@[k] as u8,
                forall|k: int| 0 <= k < s@.len() ==> (s@[k] as u8) < 128,
                forall|k: int|
                    0 <= k < DISPLAY_SIZE ==> r@[k] == if k < i {
                        bytes@[k]
                    } else {
                        32u8
                    },
        {
            r[i] = bytes[i];
        }
        assert(r@ =~= text_area_of(self.message()));
        r
    }
}

/// An operator as it waits on the operator stack of the conversion to
/// postfix.
#[derive(Clone, Copy, PartialEq, Eq, Debug, Structural)]
pub enum PseudoOp {
    FuncioR(VariantR, Dist),
    Paren(Paren),
    Op(Operacio),
}

/// One element of the postfix form of an expression.
#[derive(Clone, Copy, PartialEq, Eq, Debug, Structural)]
pub enum PseudoToken {
    Token(Token),
    Number(Enter),
    Op(PseudoOp),
}

/// The state of the conversion to postfix after a prefix of the input.
pub struct Conversion {
    /// The operator stack, bottom first.
    pub ops: Seq<PseudoOp>,
    /// What has been written so far.
    pub out: Seq<PseudoToken>,
    /// The number whose digits are being read, if there is one.
    pub number: Option<int>,
    /// Whether every number read so far fits in an `Enter`.
    pub fits: bool,
}

impl Conversion {
    pub open spec fn start() -> Conversion {
        Conversion { ops: Seq::empty(), out: Seq::empty(), number: None, fits: true }
    }

    /// A number that was being read is written out.
    pub open spec fn flushed(self) -> Conversion {
        match self.number {
            Some(n) => Conversion {
                out: self.out.push(PseudoToken::Number(n as Enter)),
                number: None,
                ..self
            },
            None => self,
        }
    }

    /// One more digit of the number being read.
    pub open spec fn with_digit(self, d: u8) -> Conversion {
        let n = match self.number {
            Some(n) => n * 10 + d,
            None => d as int,
        };
        Conversion { number: Some(n), fits: self.fits && n <= u32::MAX, ..self }
    }

    pub open spec fn with_op_pushed(self, op: PseudoOp) -> Conversion {
        Conversion { ops: self.ops.push(op), ..self }
    }

    /// An operator arrives: it goes on the stack when the stack is empty or
    /// it binds tighter than the top. Otherwise the top is written out; the
    /// arriving operator then takes its place on the stack, unless the top
    /// was the same operator, which stands for both.
    pub open spec fn with_operator(self, o: Operacio) -> Conversion {
        if self.ops.len() == 0 || binds_tighter(PseudoOp::Op(o), self.ops.last()) {
            self.with_op_pushed(PseudoOp::Op(o))
        } else {
            let popped = Conversion {
                ops: self.ops.drop_last(),
                out: self.out.push(PseudoToken::Op(self.ops.last())),
                ..self
            };
            if self.ops.last() == PseudoOp::Op(o) {
                popped
            } else {
                popped.with_op_pushed(PseudoOp::Op(o))
            }
        }
    }

    /// What is written in the end: the output, then the operators left on the
    /// stack, top first.
    pub open spec fn finished(self) -> Seq<PseudoToken> {
        self.out + self.ops.reverse().map_values(|op: PseudoOp| PseudoToken::Op(op))
    }

    /// How many slots the conversion occupies: output, stack and the number
    /// being read.
    pub open spec fn size(self) -> int {
        self.ops.len() + self.out.len() + if self.number is Some { 1int } else { 0int }
    }
}

/// `a` binds tighter than `b`: both are arithmetic operators and `a` has the
/// higher precedence.
pub open spec fn binds_tighter(a: PseudoOp, b: PseudoOp) -> bool {
    match (a, b) {
        (PseudoOp::Op(o), PseudoOp::Op(u)) => o.precedence() > u.precedence(),
        _ => false,
    }
}

/// Runs the conversion over `input` from index `i` on, starting in `c`;
/// stops at the first empty slot, at the end, or at an error.
pub open spec fn run(input: Seq<Option<Token>>, i: nat, c: Conversion) -> (Conversion, Option<
    ComputationError,
>)
    decreases input.len() - i,
{
    if i >= input.len() || input[i as int] is None {
        (c, None)
    } else {
        let t = input[i as int].unwrap();
        let c = if t is Digit {
            c
        } else {
            c.flushed()
        };
        match t {
            Token::Digit(d) => run(input, i + 1, c.with_digit(d)),
            Token::DecimalPoint | Token::Comma => (c, Some(ComputationError::NotYetImplemented)),
            Token::Op(o) => run(input, i + 1, c.with_operator(o)),
            Token::Paren(Paren::Open) => run(
                input,
                i + 1,
                c.with_op_pushed(PseudoOp::Paren(Paren::Open)),
            ),
            Token::Paren(Paren::Close) => run(input, i + 1, c),
            Token::Dist(_) => (c, Some(ComputationError::DistNotPrecededByRVariant)),
            Token::VariantR(v) => if i + 1 < input.len() {
                match input[i + 1int] {
                    Some(Token::Dist(d)) => run(
                        input,
                        i + 2,
                        c.with_op_pushed(PseudoOp::FuncioR(v, d)),
                    ),
                    _ => (c, Some(ComputationError::RVariantNotFollowedByDistFn)),
                }
            } else {
                run(input, i + 1, c)
            },
        }
    }
}

/// The postfix form of `input`, or the error that stops its conversion.
pub open spec fn postfix(input: Seq<Option<Token>>) -> Result<Seq<PseudoToken>, ComputationError> {
    let (c, e) = run(input, 0, Conversion::start());
    match e {
        Some(e) => Err(e),
        None => Ok(c.finished()),
    }
}

/// Every number that the conversion of `input` reads fits in an `Enter`.
pub open spec fn numbers_fit(input: Seq<Option<Token>>) -> bool {
    run(input, 0, Conversion::start()).0.fits
}

proof fn lemma_fits_monotone(input: Seq<Option<Token>>, i: nat, c: Conversion)
    ensures
        run(input, i, c).0.fits ==> c.fits,
    decreases input.len() - i,
{
    if i >= input.len() || input[i as int] is None {
    } else {
        let t = input[i as int].unwrap();
        let c2 = if t is Digit {
            c
        } else {
            c.flushed()
        };
        match t {
            Token::Digit(d) => lemma_fits_monotone(input, i + 1, c2.with_digit(d)),
            Token::Op(o) => lemma_fits_monotone(input, i + 1, c2.with_operator(o)),
            Token::Paren(Paren::Open) => lemma_fits_monotone(
                input,
                i + 1,
                c2.with_op_pushed(PseudoOp::Paren(Paren::Open)),
            ),
            Token::Paren(Paren::Close) => lemma_fits_monotone(input, i + 1, c2),
            Token::VariantR(v) => if i + 1 < input.len() {
                match input[i + 1int] {
                    Some(Token::Dist(d)) => lemma_fits_monotone(
                        input,
                        i + 2,
                        c2.with_op_pushed(PseudoOp::FuncioR(v, d)),
                    ),
                    _ => {},
                }
            } else {
                lemma_fits_monotone(input, i + 1, c2)
            },
            _ => {},
        }
    }
}

/// `r` is what `to_postfix` gives for `input`: the slots of its postfix
/// form, or the error that stops the conversion.
pub open spec fn postfix_result(
    input: Seq<Option<Token>>,
    r: Result<[Option<PseudoToken>; MAX_TOKENS], ComputationError>,
) -> bool {
    match postfix(input) {
        Ok(out) => r matches Ok(a) && a@ == slots_of(out),
        Err(e) => r == Err::<[Option<PseudoToken>; MAX_TOKENS], ComputationError>(e),
    }
}

/// Shunting yard implementation
pub fn to_postfix(input: &[Option<Token>; MAX_TOKENS]) -> (r: Result<
    [Option<PseudoToken>; MAX_TOKENS],
    ComputationError,
>)
    requires
        numbers_fit(input@),
    ensures
        postfix_result(input@, r),
{
    let mut op_stack: Stack<PseudoOp> = Stack::default();
    let mut output_stack: Stack<PseudoToken> = Stack::default();

    // Tokens go digit by digit, this is where the partial number is stored
    let mut current_number: Option<Enter> = None;
    let mut token_idx: usize = 0;
    let ghost mut c = Conversion::start();
    proof {
        lemma_fits_monotone(input@, 0, c);
    }
    while token_idx < MAX_TOKENS
        invariant_except_break
            token_idx <= MAX_TOKENS,
            run(input@, token_idx as nat, c) == run(input@, 0, Conversion::start()),
            run(input@, token_idx as nat, c).0.fits,
            c.fits,
            op_stack.wf(),
            output_stack.wf(),
            op_stack@ == c.ops,
            output_stack@ == c.out,
            c.number == match current_number {
                Some(n) => Some(n as int),
                None => None::<int>,
            },
            c.size() <= token_idx,
        ensures
            op_stack.wf(),
            output_stack.wf(),
            op_stack@ == c.ops,
            output_stack@ == c.out,
            run(input@, 0, Conversion::start()) == (c, None::<ComputationError>),
            c.ops.len() + c.out.len() <= MAX_TOKENS,
        decreases MAX_TOKENS - token_idx,
    {
        let token = match input[token_idx] {
            Some(token) => token,
            None => {
                break;
            },
        };
        let ghost c0 = c;

        // If we were parsing a number but it's over, push to output stack
        if current_number.is_some() && !matches!(token, Token::Digit(_)) {
            let _ = output_stack.push(PseudoToken::Number(current_number.unwrap()));
            current_number = None;
        }
        proof {
            if !(token is Digit) {
                c = c.flushed();
            }
        }
        assert(run(input@, token_idx as nat, c0) == run(input@, 0, Conversion::start()));

        match token {
            Token::Digit(d) => {
                proof {
                    lemma_fits_monotone(input@, (token_idx + 1) as nat, c.with_digit(d));
                }
                match current_number {
                    None => current_number = Some(d as Enter),
                    Some(n) => current_number = Some(n * 10 + d as Enter),
                }
                proof {
                    c = c.with_digit(d);
                }
            },
            Token::DecimalPoint | Token::Comma => return Err(ComputationError::NotYetImplemented),
            Token::Op(curr_op) => {
                if op_stack.is_empty() || (PseudoOp::Op(curr_op) > *op_stack.top().unwrap()) {
                    let _ = op_stack.push(PseudoOp::Op(curr_op));
                } else {
                    // op_stack isn't empty from the previous condition
                    let lower_op = op_stack.pop().unwrap();
                    let _ = output_stack.push(PseudoToken::Op(lower_op));
                    // the same operator written out stands for the arriving
                    // one too
                    if lower_op != PseudoOp::Op(curr_op) {
                        let _ = op_stack.push(PseudoOp::Op(curr_op));
                    }
                }
                proof {
                    c = c.with_operator(curr_op);
                    lemma_fits_monotone(input@, (token_idx + 1) as nat, c);
                }
            },
            Token::Paren(Paren::Open) => {
                let _ = op_stack.push(PseudoOp::Paren(Paren::Open));
                proof {
                    c = c.with_op_pushed(PseudoOp::Paren(Paren::Open));
                    lemma_fits_monotone(input@, (token_idx + 1) as nat, c);
                }
            },
            Token::Paren(Paren::Close) => {
                proof {
                    lemma_fits_monotone(input@, (token_idx + 1) as nat, c);
                }
            },
            Token::Dist(_) => return Err(ComputationError::DistNotPrecededByRVariant),
            Token::VariantR(v) => {
                if token_idx + 1 < MAX_TOKENS {
                    match input[token_idx + 1] {
                        Some(Token::Dist(d)) => {
                            let _ = op_stack.push(PseudoOp::FuncioR(v, d));
                            proof {
                                c = c.with_op_pushed(PseudoOp::FuncioR(v, d));
                                lemma_fits_monotone(input@, (token_idx + 2) as nat, c);
                            }
                            // We took 2 instead of 1
                            token_idx += 1;
                        },
                        _ => return Err(ComputationError::RVariantNotFollowedByDistFn),
                    }
                } else {
                    proof {
                        lemma_fits_monotone(input@, (token_idx + 1) as nat, c);
                    }
                }
            },
        }

        token_idx += 1;
    }

    let ghost ops0 = c.ops;
    let ghost out0 = c.out;
    while !op_stack.is_empty()
        invariant
            op_stack.wf(),
            output_stack.wf(),
            ops0.len() + out0.len() <= MAX_TOKENS,
            op_stack@.len() <= ops0.len(),
            op_stack@ == ops0.take(op_stack@.len() as int),
            output_stack@ == out0 + ops0.reverse().map_values(|op: PseudoOp| PseudoToken::Op(op)).take(
                ops0.len() - op_stack@.len(),
            ),
        decreases op_stack@.len(),
    {
        let op = op_stack.pop().unwrap();
        let _ = output_stack.push(PseudoToken::Op(op));
    }
    assert(output_stack@ =~= c.finished());
    let elements = output_stack.as_elements();
    assert(postfix(input@) == Ok::<Seq<PseudoToken>, ComputationError>(c.finished()));
    Ok(elements)
}

/// The text shown when an expression converts without error: `yay`.
pub open spec fn yay_text() -> Seq<u8> {
    Seq::new(
        DISPLAY_SIZE as nat,
        |i: int|
            if i == 0 || i == 2 {
                121u8
            } else if i == 1 {
                97u8
            } else {
                32u8
            },
    )
}

/// `r` is what `compute_tokens` gives for `toks`.
pub open spec fn compute_tokens_result(
    toks: Seq<Option<Token>>,
    r: Result<TextArea, ComputationError>,
) -> bool {
    match postfix(toks) {
        Ok(_) => r matches Ok(t) && t@ == yay_text(),
        Err(e) => r == Err::<TextArea, ComputationError>(e),
    }
}

/// The text that computing `toks` shows: `yay`, or the message of the error.
pub open spec fn computed_text(toks: Seq<Option<Token>>) -> Seq<u8> {
    match postfix(toks) {
        Ok(_) => yay_text(),
        Err(e) => text_area_of(e.message()),
    }
}

/// Computes the expression held in `toks`. For now, an expression that
/// converts to postfix without error shows `yay`; otherwise the error comes
/// back.
pub fn compute_tokens(toks: &[Option<Token>; MAX_TOKENS]) -> (r: Result<TextArea, ComputationError>)
    requires
        numbers_fit(toks@),
    ensures
        compute_tokens_result(toks@, r),
{
    match to_postfix(toks) {
        Ok(_) => {
            let mut t: TextArea = [' ' as u8; DISPLAY_SIZE];
            t[0] = 'y' as u8;
            t[1] = 'a' as u8;
            t[2] = 'y' as u8;
            assert(t@ =~= yay_text());
            Ok(t)
        },
        Err(e) => Err(e),
    }
}

/// Puts `op` in slot `*op_idx` of an operator stack kept as a plain array,
/// and moves the index on.
pub fn push_to_op_stack(op_stack: &mut [Option<PseudoOp>; MAX_TOKENS], op_idx: &mut usize, op: PseudoOp)
    requires
        *old(op_idx) < MAX_TOKENS,
    ensures
        final(op_stack)@ == old(op_stack)@.update(*old(op_idx) as int, Some(op)),
        *final(op_idx) == *old(op_idx) + 1,
{
    op_stack[*op_idx] = Some(op);
    *op_idx += 1;
}

/// Puts `ptk` in slot `*output_idx` of an output kept as a plain array, and
/// moves the index on.
pub fn push_to_output_stack(
    output_stack: &mut [Option<PseudoToken>; MAX_TOKENS],
    output_idx: &mut usize,
    ptk: PseudoToken,
)
    requires
        *old(output_idx) < MAX_TOKENS,
    ensures
        final(output_stack)@ == old(output_stack)@.update(*old(output_idx) as int, Some(ptk)),
        *final(output_idx) == *old(output_idx) + 1,
{
    output_stack[*output_idx] = Some(ptk);
    *output_idx += 1;
}

/// Whether every number that the conversion of `input` reads fits in an
/// `Enter`: the condition under which `to_postfix` and `compute_tokens` can
/// be called on `input`.
pub fn numbers_fit_in(input: &[Option<Token>; MAX_TOKENS]) -> (r: bool)
    ensures
        r == numbers_fit(input@),
{
    let mut current_number: Option<Enter> = None;
    let mut token_idx: usize = 0;
    let ghost mut c = Conversion::start();
    while token_idx < MAX_TOKENS
        invariant
            token_idx <= MAX_TOKENS,
            run(input@, token_idx as nat, c).0.fits == numbers_fit(input@),
            c.fits,
            c.number == match current_number {
                Some(n) => Some(n as int),
                None => None::<int>,
            },
        decreases MAX_TOKENS - token_idx,
    {
        let token = match input[token_idx] {
            Some(token) => token,
            None => {
                return true;
            },
        };
        if !matches!(token, Token::Digit(_)) {
            current_number = None;
            proof {
                c = c.flushed();
            }
        }
        match token {
            Token::Digit(d) => {
                let n: u64 = match current_number {
                    None => d as u64,
                    Some(n) => n as u64 * 10 + d as u64,
                };
                proof {
                    lemma_fits_monotone(input@, (token_idx + 1) as nat, c.with_digit(d));
                }
                if n > Enter::MAX as u64 {
                    return false;
                }
                current_number = Some(n as Enter);
                proof {
                    c = c.with_digit(d);
                }
            },
            Token::DecimalPoint | Token::Comma | Token::Dist(_) => return true,
            Token::Op(curr_op) => {
                proof {
                    c = c.with_operator(curr_op);
                }
            },
            Token::Paren(Paren::Open) => {
                proof {
                    c = c.with_op_pushed(PseudoOp::Paren(Paren::Open));
                }
            },
            Token::Paren(Paren::Close) => {},
            Token::VariantR(v) => {
                if token_idx + 1 < MAX_TOKENS {
                    match input[token_idx + 1] {
                        Some(Token::Dist(d)) => {
                            proof {
                                c = c.with_op_pushed(PseudoOp::FuncioR(v, d));
                            }
                            token_idx += 1;
                        },
                        _ => return true,
                    }
                }
            },
        }
        token_idx += 1;
    }
    true
}

} // verus!
