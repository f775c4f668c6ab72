use vstd::prelude::*;

use crate::calculadora::{
    contiguous, cursor_after_add, cursor_after_delete, cursor_in_range, cursor_left, cursor_right, no_tokens,
    toggled, with_token, without_token, Calculadora, ShiftStatus,
};
use crate::display::{glyph, layout, shown_tokens, valid_token};
use crate::keys::{command_done, command_for, Command};
use crate::computacio::{
    compute_tokens_result, computed_text, numbers_fit, postfix, postfix_result, run,
    text_area_of, yay_text, ComputationError, Conversion, PseudoOp, PseudoToken,
};
use crate::stack::slots_of;
use crate::tokens::{Operacio, Token};
use crate::{Enter, DISPLAY_SIZE};
use crate::{TextArea, MAX_TOKENS};

verus! {

/// What `Stack::push` puts on a stack that has room is what `Stack::pop`
/// takes off right after, and the stack is as it was before.
pub proof fn law_pop_undoes_push<T>(s: Seq<T>, x: T)
    ensures
        s.push(x).len() > 0,
        s.push(x).last() == x,
        s.push(x).drop_last() == s,
{
    assert(s.push(x).drop_last() =~= s);
}

/// A calculator starts with its tokens a prefix of the buffer (there are
/// none) and its cursor at the start.
pub proof fn law_reset_tokens_contiguous()
    ensures
        contiguous(no_tokens()),
        cursor_in_range(no_tokens(), 0),
{
}

/// Putting a token keeps the tokens a prefix of the buffer and the cursor on
/// a token or just after the last one.
pub proof fn law_add_keeps_tokens_contiguous(toks: Seq<Option<Token>>, c: int, t: Token)
    requires
        toks.len() == MAX_TOKENS,
        contiguous(toks),
        cursor_in_range(toks, c),
    ensures
        with_token(toks, c, t).len() == MAX_TOKENS,
        contiguous(with_token(toks, c, t)),
        cursor_in_range(with_token(toks, c, t), cursor_after_add(toks, c)),
{
    let t2 = with_token(toks, c, t);
    if toks[c] is None {
        assert forall|i: int, j: int| 0 <= i < j < t2.len() && #[trigger] t2[i] is None implies #[trigger] t2[j] is None by {
            assert(toks[i] is None);
            assert(toks[c] is None);
            if j != c {
            } else {
                assert(i < c);
                if c > 0 {
                    assert(toks[c - 1] is Some);
                    assert(toks[i] is None ==> toks[c - 1] is None);
                }
            }
        }
    } else {
        assert forall|i: int, j: int| 0 <= i < j < t2.len() && #[trigger] t2[i] is None implies #[trigger] t2[j] is None by {
            assert(i != c);
            if i < c {
                assert(toks[i] is None);
                assert(toks[i] is None ==> toks[c] is None);
            } else {
                assert(toks[i - 1] is None);
                assert(t2[j] == toks[j - 1]);
                assert(toks[i - 1] is None ==> toks[j - 1] is None);
            }
        }
    }
}

/// Deleting a token keeps the tokens a prefix of the buffer and the cursor
/// on a token or just after the last one.
pub proof fn law_delete_keeps_tokens_contiguous(toks: Seq<Option<Token>>, c: int)
    requires
        toks.len() == MAX_TOKENS,
        contiguous(toks),
        cursor_in_range(toks, c),
    ensures
        without_token(toks, c).len() == MAX_TOKENS,
        contiguous(without_token(toks, c)),
        cursor_in_range(without_token(toks, c), cursor_after_delete(toks, c)),
{
    let t2 = without_token(toks, c);
    if toks[c] is Some {
        assert forall|i: int, j: int| 0 <= i < j < t2.len() && #[trigger] t2[i] is None implies #[trigger] t2[j] is None by {
            if j == MAX_TOKENS - 1 {
            } else if i < c {
                assert(toks[i] is None ==> toks[c] is None);
            } else if j < c {
                assert(toks[i] is None ==> toks[j] is None);
            } else {
                assert(t2[j] == toks[j + 1]);
                if i < c {
                } else {
                    assert(toks[i + 1] is None ==> toks[j + 1] is None);
                }
            }
        }
    } else {
        assert forall|i: int, j: int| 0 <= i < j < t2.len() && #[trigger] t2[i] is None implies #[trigger] t2[j] is None by {
            let l = cursor_left(c);
            if j == l {
            } else if i == l {
                assert(toks[c] is None ==> toks[j] is None);
                assert(c <= j);
            } else {
                assert(toks[i] is None ==> toks[j] is None);
            }
        }
        let l = cursor_left(c);
        if l > 0 {
            assert(toks[l - 1] is Some) by {
                if toks[l - 1] is None {
                    assert(toks[l - 1] is None ==> toks[l] is None);
                }
            }
        }
    }
}

/// Moving the cursor keeps it on a token or just after the last one.
pub proof fn law_cursor_moves_stay_in_range(toks: Seq<Option<Token>>, c: int)
    requires
        toks.len() == MAX_TOKENS,
        contiguous(toks),
        cursor_in_range(toks, c),
    ensures
        cursor_in_range(toks, cursor_left(c)),
        cursor_in_range(toks, cursor_right(toks, c)),
{
    if c > 1 {
        assert(toks[c - 2] is Some) by {
            if toks[c - 2] is None {
                assert(toks[c - 2] is None ==> toks[c - 1] is None);
            }
        }
    }
}

/// Deleting right after putting a token gives back the tokens and the
/// cursor as they were, as long as the buffer was not full.
pub proof fn law_delete_undoes_add(toks: Seq<Option<Token>>, c: int, t: Token)
    requires
        toks.len() == MAX_TOKENS,
        contiguous(toks),
        cursor_in_range(toks, c),
        toks[MAX_TOKENS - 1] is None,
    ensures
        without_token(with_token(toks, c, t), cursor_after_add(toks, c)) == toks,
        cursor_after_delete(with_token(toks, c, t), cursor_after_add(toks, c)) == c,
{
    let t2 = with_token(toks, c, t);
    if toks[c] is None && c < MAX_TOKENS - 1 {
        assert(toks[c] is None ==> toks[c + 1] is None);
    }
    assert(without_token(t2, cursor_after_add(toks, c)) =~= toks);
}

/// Delete does nothing when there is no token.
pub proof fn law_delete_without_tokens_does_nothing(c: int)
    requires
        cursor_in_range(no_tokens(), c),
    ensures
        without_token(no_tokens(), c) == no_tokens(),
        cursor_after_delete(no_tokens(), c) == c,
{
    assert(without_token(no_tokens(), c) =~= no_tokens());
}

/// Moving the cursor left and then right gives back the cursor, unless it
/// stood at the start.
pub proof fn law_advance_undoes_back(toks: Seq<Option<Token>>, c: int)
    requires
        toks.len() == MAX_TOKENS,
        cursor_in_range(toks, c),
        c > 0,
    ensures
        cursor_right(toks, cursor_left(c)) == c,
{
}

/// Toggling shift twice leaves it as it was.
pub proof fn law_toggle_twice(s: ShiftStatus)
    ensures
        toggled(toggled(s)) == s,
{
}

/// `s` with the elements of `xs` pushed on it one by one, in order.
pub open spec fn pushed_all<T>(s: Seq<T>, xs: Seq<T>) -> Seq<T>
    decreases xs.len(),
{
    if xs.len() == 0 {
        s
    } else {
        pushed_all(s, xs.drop_last()).push(xs.last())
    }
}

/// Pushing `xs` one by one on an empty stack leaves them in push order,
/// packed from the first slot, the other slots empty.
pub proof fn law_pushes_fill_slots_in_order<T>(xs: Seq<T>)
    requires
        xs.len() <= MAX_TOKENS,
    ensures
        pushed_all(Seq::empty(), xs) == xs,
        forall|j: int| 0 <= j < xs.len() ==> slots_of(pushed_all(Seq::empty(), xs))[j] == Some(xs[j]),
        forall|j: int| xs.len() <= j < MAX_TOKENS ==> slots_of(pushed_all(Seq::empty(), xs))[j] is None,
    decreases xs.len(),
{
    if xs.len() > 0 {
        law_pushes_fill_slots_in_order(xs.drop_last());
        assert(xs.drop_last().push(xs.last()) =~= xs);
    } else {
        assert(xs =~= Seq::<T>::empty());
    }
}

proof fn lemma_run_reads_up_to(a: Seq<Option<Token>>, b: Seq<Option<Token>>, k: int, i: nat, c: Conversion)
    requires
        a.len() == b.len(),
        0 <= k < a.len(),
        a[k] is None,
        b[k] is None,
        forall|j: int| 0 <= j < k ==> a[j] == b[j],
        i <= k,
    ensures
        run(a, i, c) == run(b, i, c),
    decreases k - i,
{
    if i == k {
    } else {
        let t = a[i as int].unwrap();
        let c2 = if t is Digit {
            c
        } else {
            c.flushed()
        };
        match t {
            Token::Digit(d) => lemma_run_reads_up_to(a, b, k, i + 1, c2.with_digit(d)),
            Token::Op(o) => lemma_run_reads_up_to(a, b, k, i + 1, c2.with_operator(o)),
            Token::Paren(p) => {
                lemma_run_reads_up_to(a, b, k, i + 1, c2);
                lemma_run_reads_up_to(a, b, k, i + 1, c2.with_op_pushed(PseudoOp::Paren(p)));
            },
            Token::VariantR(v) => {
                if i + 1 < k {
                    match a[i + 1int] {
                        Some(Token::Dist(d)) => lemma_run_reads_up_to(
                            a,
                            b,
                            k,
                            i + 2,
                            c2.with_op_pushed(PseudoOp::FuncioR(v, d)),
                        ),
                        _ => {},
                    }
                }
            },
            _ => {},
        }
    }
}

/// The conversion to postfix reads nothing after the first empty slot: two
/// inputs that agree up to an empty slot convert alike, and have the same
/// numbers to fit.
pub proof fn law_postfix_reads_up_to_first_empty(a: Seq<Option<Token>>, b: Seq<Option<Token>>, k: int)
    requires
        a.len() == b.len(),
        0 <= k < a.len(),
        a[k] is None,
        b[k] is None,
        forall|j: int| 0 <= j < k ==> a[j] == b[j],
    ensures
        postfix(a) == postfix(b),
        numbers_fit(a) == numbers_fit(b),
{
    lemma_run_reads_up_to(a, b, k, 0, Conversion::start());
}

/// The output of the conversion only grows, at its end: what is written is
/// never taken back or reordered, so numbers come out in the order they are
/// read.
pub proof fn law_output_only_grows(input: Seq<Option<Token>>, i: nat, c: Conversion)
    ensures
        c.out.len() <= run(input, i, c).0.out.len(),
        run(input, i, c).0.out.take(c.out.len() as int) == c.out,
    decreases input.len() - i,
{
    if i >= input.len() || input[i as int] is None {
        assert(c.out.take(c.out.len() as int) =~= c.out);
    } else {
        let t = input[i as int].unwrap();
        let c2 = if t is Digit {
            c
        } else {
            c.flushed()
        };
        assert(c2.out.take(c.out.len() as int) =~= c.out);
        let next = match t {
            Token::Digit(d) => c2.with_digit(d),
            Token::Op(o) => c2.with_operator(o),
            Token::Paren(p) => if p == crate::tokens::Paren::Open {
                c2.with_op_pushed(PseudoOp::Paren(p))
            } else {
                c2
            },
            Token::VariantR(v) => if i + 1 < input.len() {
                match input[i + 1int] {
                    Some(Token::Dist(d)) => c2.with_op_pushed(PseudoOp::FuncioR(v, d)),
                    _ => c2,
                }
            } else {
                c2
            },
            _ => c2,
        };
        assert(next.out.take(c.out.len() as int) =~= c.out);
        match t {
            Token::VariantR(v) => {
                if i + 1 < input.len() {
                    match input[i + 1int] {
                        Some(Token::Dist(d)) => {
                            law_output_only_grows(input, i + 2, next);
                        },
                        _ => {},
                    }
                } else {
                    law_output_only_grows(input, i + 1, next);
                }
            },
            Token::DecimalPoint | Token::Comma | Token::Dist(_) => {},
            _ => {
                law_output_only_grows(input, i + 1, next);
            },
        }
        let fin = run(input, i, c).0.out;
        assert(fin.take(c.out.len() as int) =~= fin.take(next.out.len() as int).take(
            c.out.len() as int,
        ));
    }
}

/// A number that ends is written out right away, after what was written
/// before.
pub proof fn law_number_written_when_it_ends(c: Conversion)
    ensures
        c.number matches Some(n) ==> c.flushed().out == c.out.push(
            PseudoToken::Number(n as crate::Enter),
        ),
        c.number is None ==> c.flushed() == c,
{
}

/// What the conversion holds, written or waiting on the stack.
pub open spec fn held(c: Conversion) -> vstd::multiset::Multiset<PseudoToken> {
    c.out.to_multiset().add(c.ops.map_values(|op: PseudoOp| PseudoToken::Op(op)).to_multiset())
}

/// An arriving operator is kept exactly once, written out or waiting on the
/// stack, and nothing else is lost; the one exception is an operator that
/// meets the same operator on top of the stack, which the written out top
/// stands for.
pub proof fn law_operator_kept_once(c: Conversion, o: Operacio)
    ensures
        (c.ops.len() == 0 || c.ops.last() != PseudoOp::Op(o)) ==> held(
            c.with_operator(o),
        ) == held(c).insert(PseudoToken::Op(PseudoOp::Op(o))),
        (c.ops.len() > 0 && c.ops.last() == PseudoOp::Op(o)) ==> held(
            c.with_operator(o),
        ) == held(c),
{
    broadcast use vstd::seq_lib::group_to_multiset_ensures;
    broadcast use vstd::multiset::group_multiset_axioms;

    let f = |op: PseudoOp| PseudoToken::Op(op);
    let x = PseudoToken::Op(PseudoOp::Op(o));
    let n = c.with_operator(o);
    if c.ops.len() == 0 || crate::computacio::binds_tighter(PseudoOp::Op(o), c.ops.last()) {
        assert(n.ops.map_values(f) =~= c.ops.map_values(f).push(x));
        assert(held(n) =~= held(c).insert(x));
    } else {
        let top = c.ops.last();
        let rest = c.ops.drop_last().map_values(f);
        assert(c.ops.map_values(f) =~= rest.push(f(top)));
        assert(n.out == c.out.push(f(top)));
        if top == PseudoOp::Op(o) {
            assert(n.ops.map_values(f) =~= rest);
            assert(held(n) =~= held(c));
        } else {
            assert(n.ops.map_values(f) =~= rest.push(x));
            assert(held(n) =~= held(c).insert(x));
        }
    }
}

/// What is written in the end is everything the conversion held.
pub proof fn law_finished_writes_all_held(c: Conversion)
    ensures
        c.finished().to_multiset() == held(c),
{
    broadcast use vstd::seq_lib::lemma_multiset_commutative;

    let f = |op: PseudoOp| PseudoToken::Op(op);
    let m = c.ops.map_values(f);
    assert(c.ops.reverse().map_values(f) =~= m.reverse());
    m.lemma_reverse_to_multiset();
}

/// `compute_tokens` shows `yay` exactly when `to_postfix` converts, and
/// returns the error that `to_postfix` returns otherwise.
pub proof fn law_compute_tokens_follows_to_postfix(
    input: Seq<Option<Token>>,
    a: Result<[Option<PseudoToken>; MAX_TOKENS], ComputationError>,
    t: Result<TextArea, ComputationError>,
)
    requires
        postfix_result(input, a),
        compute_tokens_result(input, t),
    ensures
        a is Ok <==> t is Ok,
        t matches Ok(x) ==> x@ == yay_text(),
        a matches Err(e) ==> t == Err::<TextArea, ComputationError>(e),
{
}

/// What `Calculadora::compute` writes is what `compute_tokens` gives, or
/// the text that `ComputationError::as_text` gives for its error.
pub proof fn law_compute_shows_compute_tokens(input: Seq<Option<Token>>, t: Result<TextArea, ComputationError>)
    requires
        compute_tokens_result(input, t),
    ensures
        computed_text(input) == match t {
            Ok(x) => x@,
            Err(e) => text_area_of(e.message()),
        },
{
}

/// `10` to the power `n`.
pub open spec fn pow10(n: nat) -> int
    decreases n,
{
    if n == 0 {
        1
    } else {
        10 * pow10((n - 1) as nat)
    }
}

/// The value of the decimal numeral whose digits are `ds`, most significant
/// first: the sum of each digit times ten to the power of the number of
/// digits after it.
pub open spec fn decimal(ds: Seq<u8>) -> int
    decreases ds.len(),
{
    if ds.len() == 0 {
        0
    } else {
        ds[0] * pow10((ds.len() - 1) as nat) + decimal(ds.drop_first())
    }
}

/// Writing one more digit `d` after a numeral multiplies its value by ten
/// and adds `d`.
pub proof fn law_appending_digit(ds: Seq<u8>, d: u8)
    ensures
        decimal(ds.push(d)) == 10 * decimal(ds) + d,
    decreases ds.len(),
{
    let s = ds.push(d);
    assert(s[0] == if ds.len() == 0 {
        d
    } else {
        ds[0]
    });
    assert(decimal(s) == s[0] * pow10(ds.len()) + decimal(s.drop_first()));
    if ds.len() == 0 {
        assert(s.drop_first() =~= Seq::<u8>::empty());
        assert(decimal(s.drop_first()) == 0);
        assert(pow10(0) == 1);
    } else {
        assert(s.drop_first() =~= ds.drop_first().push(d));
        law_appending_digit(ds.drop_first(), d);
        let p = pow10((ds.len() - 1) as nat);
        let x = ds[0] as int;
        assert(decimal(ds) == x * p + decimal(ds.drop_first()));
        assert(pow10(ds.len()) == 10 * p);
        assert(x * (10 * p) == 10 * (x * p)) by (nonlinear_arith);
    }
}

/// `input` starts with the digit tokens `ds`, in order.
pub open spec fn starts_with_digits(input: Seq<Option<Token>>, ds: Seq<u8>) -> bool {
    &&& ds.len() <= input.len()
    &&& forall|i: int| 0 <= i < ds.len() ==> input[i] == Some(Token::Digit(#[trigger] ds[i]))
}

proof fn lemma_digit_run(input: Seq<Option<Token>>, ds: Seq<u8>, o: Operacio, i: nat, c: Conversion)
    requires
        starts_with_digits(input, ds),
        1 <= ds.len() < input.len(),
        input[ds.len() as int] == Some(Token::Op(o)),
        i <= ds.len(),
        c.ops.len() == 0,
        c.out.len() == 0,
        c.number == if i == 0 {
            None::<int>
        } else {
            Some(decimal(ds.take(i as int)))
        },
    ensures
        run(input, i, c).0.out.len() >= 1,
        run(input, i, c).0.out[0] == PseudoToken::Number(decimal(ds) as Enter),
    decreases ds.len() - i,
{
    if i < ds.len() {
        let d = ds[i as int];
        assert(input[i as int] == Some(Token::Digit(d)));
        law_appending_digit(ds.take(i as int), d);
        assert(ds.take(i + 1int) =~= ds.take(i as int).push(d));
        if i == 0 {
            assert(ds.take(0) =~= Seq::<u8>::empty());
        }
        lemma_digit_run(input, ds, o, i + 1, c.with_digit(d));
    } else {
        assert(ds.take(i as int) =~= ds);
        let c3 = c.flushed().with_operator(o);
        assert(c3.out == seq![PseudoToken::Number(decimal(ds) as Enter)]);
        law_output_only_grows(input, i + 1, c3);
        assert(run(input, i, c) == run(input, i + 1, c3));
        let fin = run(input, i, c).0.out;
        assert(fin.take(1)[0] == fin[0]);
    }
}

/// Digit tokens are read as one decimal number: when the input starts with
/// the digits `ds` followed by an operator, its postfix form, and what
/// `to_postfix` returns, start with the number that `ds` writes in base ten
/// (so `1`, `0`, `+` reads as `10`, not as `1`).
pub proof fn law_digits_read_as_decimal(
    input: Seq<Option<Token>>,
    ds: Seq<u8>,
    o: Operacio,
    r: Result<[Option<PseudoToken>; MAX_TOKENS], ComputationError>,
)
    requires
        starts_with_digits(input, ds),
        1 <= ds.len() < input.len(),
        input[ds.len() as int] == Some(Token::Op(o)),
        postfix_result(input, r),
    ensures
        postfix(input) matches Ok(out) ==> out.len() >= 1 && out[0] == PseudoToken::Number(
            decimal(ds) as Enter,
        ),
        r matches Ok(a) ==> a@[0] == Some(PseudoToken::Number(decimal(ds) as Enter)),
{
    lemma_digit_run(input, ds, o, 0, Conversion::start());
    let fin = run(input, 0, Conversion::start()).0;
    assert(fin.finished()[0] == fin.out[0]);
}

/// Every token but a distribution is shown by a printable ASCII character
/// of its own: no two different tokens share one, and a digit `n` is shown
/// as the character `'0' + n`.
pub proof fn law_glyphs_tell_tokens_apart(a: Token, b: Token)
    requires
        valid_token(a),
        valid_token(b),
        !(a is Dist),
        !(b is Dist),
    ensures
        33 <= glyph(a) <= 126,
        a != b ==> glyph(a) != glyph(b),
        a matches Token::Digit(n) ==> glyph(a) == 48 + n,
{
}

/// Each arithmetic operator is shown by its usual ASCII symbol.
pub proof fn law_operator_symbols(o: Operacio)
    ensures
        o.glyph() == match o {
            Operacio::Add => '+' as u8,
            Operacio::Sub => '-' as u8,
            Operacio::Mul => '*' as u8,
            Operacio::Div => '/' as u8,
            Operacio::Pow => '^' as u8,
        },
        glyph(Token::Op(o)) == o.glyph(),
{
}

proof fn lemma_layout_keeps_before(toks: Seq<Option<Token>>, i: nat, d: nat, disp: Seq<u8>, k: int)
    requires
        disp.len() == DISPLAY_SIZE,
        0 <= k < d,
    ensures
        layout(toks, i, d, disp).0.len() == DISPLAY_SIZE,
        layout(toks, i, d, disp).0[k] == disp[k],
    decreases toks.len() - i,
{
    if i >= toks.len() || d >= DISPLAY_SIZE || toks[i as int] is None {
    } else {
        match toks[i as int].unwrap() {
            Token::Dist(dist) => {
                let name = dist.name();
                if d < crate::DISPLAY_WIDTH && name.len() > crate::DISPLAY_WIDTH - d {
                    lemma_layout_keeps_before(
                        toks,
                        i + 1,
                        crate::DISPLAY_WIDTH as nat + name.len(),
                        crate::display::write_at(disp, crate::DISPLAY_WIDTH as int, name),
                        k,
                    );
                } else if d + name.len() > DISPLAY_SIZE {
                } else {
                    lemma_layout_keeps_before(
                        toks,
                        i + 1,
                        d + name.len(),
                        crate::display::write_at(disp, d as int, name),
                        k,
                    );
                }
            },
            t => {
                lemma_layout_keeps_before(toks, i + 1, d + 1, disp.update(d as int, glyph(t)), k);
            },
        }
    }
}

proof fn lemma_layout_single_chars(toks: Seq<Option<Token>>, n: nat, i: nat, disp: Seq<u8>, k: int)
    requires
        disp.len() == DISPLAY_SIZE,
        n <= toks.len(),
        n <= DISPLAY_SIZE,
        i <= n,
        0 <= k < n,
        forall|j: int| 0 <= j < n ==> #[trigger] toks[j] is Some && !(toks[j].unwrap() is Dist),
    ensures
        layout(toks, i, i, disp).0[k] == if k < i {
            disp[k]
        } else {
            glyph(toks[k].unwrap())
        },
    decreases n - i,
{
    if i < n {
        assert(toks[i as int] is Some && !(toks[i as int].unwrap() is Dist));
        let next = disp.update(i as int, glyph(toks[i as int].unwrap()));
        lemma_layout_single_chars(toks, n, i + 1, next, k);
    } else {
        lemma_layout_keeps_before(toks, i, i, disp, k);
    }
}

/// Tokens of one character each are shown in order, one per position: as
/// long as the first `n` slots hold such tokens, position `k < n` of the
/// token display shows the character of token `k`.
pub proof fn law_tokens_shown_in_order(toks: Seq<Option<Token>>, n: nat, k: int)
    requires
        n <= toks.len(),
        n <= DISPLAY_SIZE,
        0 <= k < n,
        forall|j: int| 0 <= j < n ==> #[trigger] toks[j] is Some && !(toks[j].unwrap() is Dist),
    ensures
        shown_tokens(toks).0[k] == glyph(toks[k].unwrap()),
{
    lemma_layout_single_chars(toks, n, 0, crate::display::blank_text(), k);
}

/// How many slots of `toks` hold a token.
pub open spec fn token_count(toks: Seq<Option<Token>>) -> nat
    decreases toks.len(),
{
    if toks.len() == 0 {
        0
    } else {
        token_count(toks.drop_last()) + if toks.last() is Some {
            1nat
        } else {
            0nat
        }
    }
}

proof fn lemma_token_count_concat(a: Seq<Option<Token>>, b: Seq<Option<Token>>)
    ensures
        token_count(a + b) == token_count(a) + token_count(b),
    decreases b.len(),
{
    if b.len() == 0 {
        assert(a + b =~= a);
    } else {
        lemma_token_count_concat(a, b.drop_last());
        assert((a + b).drop_last() =~= a + b.drop_last());
        assert((a + b).last() == b.last());
    }
}

proof fn lemma_token_count_one(x: Option<Token>)
    ensures
        token_count(seq![x]) == if x is Some {
            1nat
        } else {
            0nat
        },
{
    assert(seq![x].drop_last() =~= Seq::<Option<Token>>::empty());
    assert(seq![x].last() == x);
    assert(token_count(Seq::<Option<Token>>::empty()) == 0);
}

/// Delete removes exactly the token under the cursor, wherever it stands,
/// the last token included: one token fewer, those before it unchanged,
/// those after it one slot to the left, and the last slot empty.
pub proof fn law_delete_removes_one_token(toks: Seq<Option<Token>>, c: int)
    requires
        toks.len() == MAX_TOKENS,
        0 <= c < MAX_TOKENS,
        toks[c] is Some,
    ensures
        token_count(without_token(toks, c)) + 1 == token_count(toks),
        forall|k: int| 0 <= k < c ==> #[trigger] without_token(toks, c)[k] == toks[k],
        forall|k: int| c <= k < MAX_TOKENS - 1 ==> #[trigger] without_token(toks, c)[k] == toks[k + 1],
        without_token(toks, c)[MAX_TOKENS - 1] is None,
{
    let pre = toks.take(c);
    let post = toks.subrange(c + 1, MAX_TOKENS as int);
    assert(toks =~= pre + seq![toks[c]] + post);
    lemma_token_count_concat(pre + seq![toks[c]], post);
    lemma_token_count_concat(pre, seq![toks[c]]);
    lemma_token_count_one(toks[c]);
    lemma_token_count_concat(pre + post, seq![None]);
    lemma_token_count_concat(pre, post);
    lemma_token_count_one(None);
}

/// Putting a token adds exactly one token, at the cursor, and leaves those
/// before the cursor unchanged; when the buffer is full and the cursor
/// stands on a token, the last token falls off and the count stays.
pub proof fn law_add_puts_one_token(toks: Seq<Option<Token>>, c: int, t: Token)
    requires
        toks.len() == MAX_TOKENS,
        0 <= c < MAX_TOKENS,
    ensures
        (toks[c] is None || toks[MAX_TOKENS - 1] is None) ==> token_count(with_token(toks, c, t))
            == token_count(toks) + 1,
        (toks[c] is Some && toks[MAX_TOKENS - 1] is Some) ==> token_count(with_token(toks, c, t))
            == token_count(toks),
        with_token(toks, c, t)[c] == Some(t),
        forall|k: int| 0 <= k < c ==> #[trigger] with_token(toks, c, t)[k] == toks[k],
{
    let pre = toks.take(c);
    lemma_token_count_one(Some(t));
    lemma_token_count_one(toks[c]);
    if toks[c] is None {
        let post = toks.subrange(c + 1, MAX_TOKENS as int);
        assert(toks =~= pre + seq![toks[c]] + post);
        assert(with_token(toks, c, t) =~= pre + seq![Some(t)] + post);
        lemma_token_count_concat(pre + seq![toks[c]], post);
        lemma_token_count_concat(pre, seq![toks[c]]);
        lemma_token_count_concat(pre + seq![Some(t)], post);
        lemma_token_count_concat(pre, seq![Some(t)]);
    } else {
        let mid = toks.subrange(c, MAX_TOKENS - 1);
        let last = toks[MAX_TOKENS - 1];
        assert(toks =~= pre + mid + seq![last]);
        lemma_token_count_one(last);
        lemma_token_count_concat(pre + mid, seq![last]);
        lemma_token_count_concat(pre, mid);
        lemma_token_count_concat(pre + seq![Some(t)], mid);
        lemma_token_count_concat(pre, seq![Some(t)]);
    }
}

/// The Clear, Shift and Compute keys do the same whether shift is on or
/// off: key 3 clears, key 14 toggles shift, key 15 computes.
pub proof fn law_keys_that_ignore_shift(s: ShiftStatus)
    ensures
        command_for(s, 3) == Command::Clear,
        command_for(s, 14) == Command::ToggleShift,
        command_for(s, 15) == Command::Compute,
        command_for(ShiftStatus::Si, 3) == command_for(ShiftStatus::No, 3),
{
}

/// Keys 8 to 12 type the digits 0 to 4 while shift is off; with shift on
/// they, like every key without a shifted function, only turn shift off.
pub proof fn law_digit_keys(k: usize)
    requires
        8 <= k <= 12,
    ensures
        command_for(ShiftStatus::No, k) == Command::Put(Token::Digit((k - 8) as u8)),
        command_for(ShiftStatus::Si, k) == Command::ToggleShift,
{
}

/// Pressing Clear on the token screen resets the calculator, whatever its
/// state and its shift: what the key does leaves it as just switched on.
pub proof fn law_clear_key_resets(before: Calculadora, after: Calculadora)
    requires
        command_done(before.invalidated(), after, command_for(before.shift(), 3)),
    ensures
        after.is_reset(),
{
}

} // verus!
