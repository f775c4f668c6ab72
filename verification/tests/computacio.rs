use r_calc::computacio::{
    compute_tokens, numbers_fit_in, push_to_op_stack, push_to_output_stack, to_postfix,
    ComputationError, PseudoOp, PseudoToken,
};
use r_calc::{Dist, Operacio, Paren, Token, VariantR, MAX_TOKENS};

/// Pads the tokens given with empty slots up to `MAX_TOKENS`.
fn slots<T: Copy>(given: &[Option<T>]) -> [Option<T>; MAX_TOKENS] {
    let mut all = [None; MAX_TOKENS];
    all[..given.len()].copy_from_slice(given);
    all
}

#[test]
fn basic_to_postfix() {
    let input = slots(&[
        Some(Token::Digit(1)),
        Some(Token::Digit(2)),
        Some(Token::Digit(3)),
        Some(Token::Op(Operacio::Add)),
        Some(Token::Digit(7)),
        Some(Token::Digit(7)),
        Some(Token::Digit(7)),
        Some(Token::Op(Operacio::Add)),
        Some(Token::Digit(6)),
        Some(Token::Digit(5)),
        Some(Token::Digit(4)),
        None,
        None,
        None,
        None,
        None,
        None,
        None,
        None,
        None,
    ]);
    let output = slots(&[
        Some(PseudoToken::Number(123)),
        Some(PseudoToken::Number(777)),
        Some(PseudoToken::Op(PseudoOp::Op(Operacio::Add))),
        None,
        None,
        None,
        None,
        None,
        None,
        None,
        None,
        None,
        None,
        None,
        None,
        None,
        None,
        None,
        None,
    ]);

    let res = to_postfix(&input).unwrap_or_else(|e| panic!("Failed {e:?}"));
    for i in 0..MAX_TOKENS {
        if res[i] != output[i] {
            println!("{:?} {:?}", res, output);
            panic!("Mismatch at {i}: {:?}, {:?}", res[i], output[i]);
        }
    }
}

#[test]
fn postfix_of_empty_input_is_empty() {
    let res = to_postfix(&[None; MAX_TOKENS]).unwrap();
    assert_eq!(res, [None; MAX_TOKENS]);
}

#[test]
fn postfix_tighter_operator_stays_on_stack() {
    // 1+2*3: the last number is still being read when the input ends
    let input = slots(&[
        Some(Token::Digit(1)),
        Some(Token::Op(Operacio::Add)),
        Some(Token::Digit(2)),
        Some(Token::Op(Operacio::Mul)),
        Some(Token::Digit(3)),
    ]);
    let expected = slots(&[
        Some(PseudoToken::Number(1)),
        Some(PseudoToken::Number(2)),
        Some(PseudoToken::Op(PseudoOp::Op(Operacio::Mul))),
        Some(PseudoToken::Op(PseudoOp::Op(Operacio::Add))),
    ]);
    assert_eq!(to_postfix(&input).unwrap(), expected);
}

#[test]
fn postfix_parenthesis_and_function() {
    // pbinom(4: the open parenthesis and the function wait on the stack
    let input = slots(&[
        Some(Token::VariantR(VariantR::P)),
        Some(Token::Dist(Dist::Binom)),
        Some(Token::Paren(Paren::Open)),
        Some(Token::Digit(4)),
        Some(Token::Paren(Paren::Close)),
    ]);
    let expected = slots(&[
        Some(PseudoToken::Number(4)),
        Some(PseudoToken::Op(PseudoOp::Paren(Paren::Open))),
        Some(PseudoToken::Op(PseudoOp::FuncioR(VariantR::P, Dist::Binom))),
    ]);
    assert_eq!(to_postfix(&input).unwrap(), expected);
}

#[test]
fn postfix_operator_after_parenthesis_takes_it_out() {
    // (1+2): the parenthesis does not compare with +, so it is written out
    // and + takes its place
    let input = slots(&[
        Some(Token::Paren(Paren::Open)),
        Some(Token::Digit(1)),
        Some(Token::Op(Operacio::Add)),
        Some(Token::Digit(2)),
        Some(Token::Paren(Paren::Close)),
    ]);
    let expected = slots(&[
        Some(PseudoToken::Number(1)),
        Some(PseudoToken::Op(PseudoOp::Paren(Paren::Open))),
        Some(PseudoToken::Number(2)),
        Some(PseudoToken::Op(PseudoOp::Op(Operacio::Add))),
    ]);
    assert_eq!(to_postfix(&input).unwrap(), expected);
}

#[test]
fn postfix_looser_operator_after_tighter_one() {
    // 1*2+3: * is written out and + waits on the stack
    let input = slots(&[
        Some(Token::Digit(1)),
        Some(Token::Op(Operacio::Mul)),
        Some(Token::Digit(2)),
        Some(Token::Op(Operacio::Add)),
        Some(Token::Digit(3)),
    ]);
    let expected = slots(&[
        Some(PseudoToken::Number(1)),
        Some(PseudoToken::Number(2)),
        Some(PseudoToken::Op(PseudoOp::Op(Operacio::Mul))),
        Some(PseudoToken::Op(PseudoOp::Op(Operacio::Add))),
    ]);
    assert_eq!(to_postfix(&input).unwrap(), expected);
}

#[test]
fn postfix_same_precedence_operators() {
    // 4-5+6: - is written out and + takes its place
    let input = slots(&[
        Some(Token::Digit(4)),
        Some(Token::Op(Operacio::Sub)),
        Some(Token::Digit(5)),
        Some(Token::Op(Operacio::Add)),
        Some(Token::Digit(6)),
    ]);
    let expected = slots(&[
        Some(PseudoToken::Number(4)),
        Some(PseudoToken::Number(5)),
        Some(PseudoToken::Op(PseudoOp::Op(Operacio::Sub))),
        Some(PseudoToken::Op(PseudoOp::Op(Operacio::Add))),
    ]);
    assert_eq!(to_postfix(&input).unwrap(), expected);
}

#[test]
fn postfix_same_operator_twice() {
    // 8/2/2: the / written out stands for the second one too
    let input = slots(&[
        Some(Token::Digit(8)),
        Some(Token::Op(Operacio::Div)),
        Some(Token::Digit(2)),
        Some(Token::Op(Operacio::Div)),
        Some(Token::Digit(2)),
    ]);
    let expected = slots(&[
        Some(PseudoToken::Number(8)),
        Some(PseudoToken::Number(2)),
        Some(PseudoToken::Op(PseudoOp::Op(Operacio::Div))),
    ]);
    assert_eq!(to_postfix(&input).unwrap(), expected);
}

#[test]
fn postfix_ignores_what_follows_the_first_empty_slot() {
    let mut a = slots(&[Some(Token::Digit(2)), Some(Token::Op(Operacio::Div))]);
    let b = a;
    a[5] = Some(Token::Comma);
    a[9] = Some(Token::Op(Operacio::Pow));
    assert_eq!(to_postfix(&a), to_postfix(&b));
}

#[test]
fn postfix_errors() {
    let decimal = slots(&[Some(Token::Digit(1)), Some(Token::DecimalPoint)]);
    assert_eq!(to_postfix(&decimal), Err(ComputationError::NotYetImplemented));
    let comma = slots(&[Some(Token::Comma)]);
    assert_eq!(to_postfix(&comma), Err(ComputationError::NotYetImplemented));
    let dist = slots(&[Some(Token::Dist(Dist::Normal))]);
    assert_eq!(to_postfix(&dist), Err(ComputationError::DistNotPrecededByRVariant));
    let variant = slots(&[Some(Token::VariantR(VariantR::Q)), Some(Token::Digit(1))]);
    assert_eq!(to_postfix(&variant), Err(ComputationError::RVariantNotFollowedByDistFn));
}

#[test]
fn postfix_variant_in_last_slot_is_skipped() {
    let mut input = [None; MAX_TOKENS];
    for slot in input.iter_mut() {
        *slot = Some(Token::Paren(Paren::Close));
    }
    input[MAX_TOKENS - 1] = Some(Token::VariantR(VariantR::D));
    assert_eq!(to_postfix(&input).unwrap(), [None; MAX_TOKENS]);
}

#[test]
fn postfix_ten_digit_number() {
    let input = slots(&[
        Some(Token::Digit(4)),
        Some(Token::Digit(2)),
        Some(Token::Digit(9)),
        Some(Token::Digit(4)),
        Some(Token::Digit(9)),
        Some(Token::Digit(6)),
        Some(Token::Digit(7)),
        Some(Token::Digit(2)),
        Some(Token::Digit(9)),
        Some(Token::Digit(5)),
        Some(Token::Op(Operacio::Sub)),
    ]);
    assert!(numbers_fit_in(&input));
    let res = to_postfix(&input).unwrap();
    assert_eq!(res[0], Some(PseudoToken::Number(4294967295)));
    assert_eq!(res[1], Some(PseudoToken::Op(PseudoOp::Op(Operacio::Sub))));
}

#[test]
fn numbers_that_do_not_fit() {
    let too_big = slots(&[
        Some(Token::Digit(4)),
        Some(Token::Digit(2)),
        Some(Token::Digit(9)),
        Some(Token::Digit(4)),
        Some(Token::Digit(9)),
        Some(Token::Digit(6)),
        Some(Token::Digit(7)),
        Some(Token::Digit(2)),
        Some(Token::Digit(9)),
        Some(Token::Digit(6)),
    ]);
    assert!(!numbers_fit_in(&too_big));
    // the conversion stops at the decimal point, before the long number
    let stopped = slots(&[
        Some(Token::DecimalPoint),
        Some(Token::Digit(9)),
        Some(Token::Digit(9)),
        Some(Token::Digit(9)),
        Some(Token::Digit(9)),
        Some(Token::Digit(9)),
        Some(Token::Digit(9)),
        Some(Token::Digit(9)),
        Some(Token::Digit(9)),
        Some(Token::Digit(9)),
        Some(Token::Digit(9)),
        Some(Token::Digit(9)),
    ]);
    assert!(numbers_fit_in(&stopped));
    assert!(numbers_fit_in(&[None; MAX_TOKENS]));
}

#[test]
fn compute_tokens_shows_yay_or_the_error() {
    let good = slots(&[Some(Token::Digit(1)), Some(Token::Op(Operacio::Pow))]);
    let text = compute_tokens(&good).unwrap();
    assert_eq!(&text[..3], b"yay");
    assert!(text[3..].iter().all(|b| *b == b' '));
    let bad = slots(&[Some(Token::Comma)]);
    assert_eq!(compute_tokens(&bad), Err(ComputationError::NotYetImplemented));
}

#[test]
fn error_texts() {
    let cases = [
        (ComputationError::NotYetImplemented, "No implementat"),
        (ComputationError::MismatchedParens, "Error de parentesi"),
        (ComputationError::RVariantNotFollowedByDistFn, "p/q/d sense fn"),
        (ComputationError::DistNotPrecededByRVariant, "fn sense p/q/d"),
    ];
    for (e, msg) in cases {
        let text = e.as_text();
        assert_eq!(&text[..msg.len()], msg.as_bytes());
        assert!(text[msg.len()..].iter().all(|b| *b == b' '));
    }
}

#[test]
fn push_into_plain_arrays() {
    let mut ops = [None; MAX_TOKENS];
    let mut idx = 3;
    push_to_op_stack(&mut ops, &mut idx, PseudoOp::Op(Operacio::Div));
    assert_eq!(idx, 4);
    assert_eq!(ops[3], Some(PseudoOp::Op(Operacio::Div)));
    let mut out = [None; MAX_TOKENS];
    let mut oidx = 0;
    push_to_output_stack(&mut out, &mut oidx, PseudoToken::Number(9));
    assert_eq!(oidx, 1);
    assert_eq!(out[0], Some(PseudoToken::Number(9)));
}
