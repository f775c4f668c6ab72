use r_calc::calculadora::{BufferType, Calculadora, ShiftStatus};
use r_calc::keys::{command_for_key, Command, CursorChange};
use r_calc::{Dist, Operacio, Paren, Token, KEY_COUNT, MAX_TOKENS};

fn shown(calc: &Calculadora) -> String {
    String::from_utf8(calc.display().to_vec()).unwrap()
}

fn tokens(calc: &Calculadora) -> Vec<Token> {
    calc.toks.iter().map_while(|t| *t).collect()
}

#[test]
fn starts_blank() {
    let calc = Calculadora::default();
    assert_eq!(shown(&calc), " ".repeat(32));
    assert_eq!(calc.toks, [None; MAX_TOKENS]);
    assert_eq!(calc.graphical_cursor, 0);
    assert!(!calc.is_cache_valid);
    assert_eq!(calc.shift_status, ShiftStatus::No);
    assert!(matches!(calc.currently_shown_buffer, BufferType::Tokens));
}

#[test]
fn tokens_are_shown_as_typed() {
    let mut calc = Calculadora::default();
    calc.add_token(Token::Digit(1));
    calc.add_token(Token::Op(Operacio::Mul));
    calc.add_token(Token::Paren(Paren::Open));
    calc.add_token(Token::Digit(9));
    calc.add_token(Token::DecimalPoint);
    calc.add_token(Token::Comma);
    calc.add_token(Token::Op(Operacio::Pow));
    assert_eq!(shown(&calc), format!("{:<32}", "1*(9.,^"));
    assert_eq!(calc.graphical_cursor, 7);
}

#[test]
fn token_is_inserted_in_front_of_the_cursor() {
    let mut calc = Calculadora::default();
    calc.add_token(Token::Digit(1));
    calc.add_token(Token::Digit(2));
    calc.cursor_back();
    calc.add_token(Token::Digit(3));
    assert_eq!(tokens(&calc), vec![Token::Digit(1), Token::Digit(3), Token::Digit(2)]);
    assert_eq!(shown(&calc), format!("{:<32}", "132"));
    // the cursor stays on the inserted token
    calc.add_token(Token::Digit(4));
    assert_eq!(tokens(&calc), vec![Token::Digit(1), Token::Digit(4), Token::Digit(3), Token::Digit(2)]);
}

#[test]
fn full_buffer_drops_the_last_token_on_insertion() {
    let mut calc = Calculadora::default();
    for _ in 0..MAX_TOKENS {
        calc.add_token(Token::Digit(7));
    }
    assert_eq!(tokens(&calc).len(), MAX_TOKENS);
    calc.add_token(Token::Digit(1));
    // the cursor stayed on the last slot: the new token took it, and the
    // token that was there fell off
    assert_eq!(calc.toks[MAX_TOKENS - 2], Some(Token::Digit(7)));
    assert_eq!(calc.toks[MAX_TOKENS - 1], Some(Token::Digit(1)));
    assert_eq!(tokens(&calc).len(), MAX_TOKENS);
    assert_eq!(calc.graphical_cursor, 32);
}

#[test]
fn delete_removes_the_last_token() {
    let mut calc = Calculadora::default();
    calc.add_token(Token::Digit(5));
    calc.add_token(Token::Digit(6));
    calc.del_token();
    assert_eq!(tokens(&calc), vec![Token::Digit(5)]);
    assert_eq!(shown(&calc), format!("{:<32}", "5"));
    calc.del_token();
    calc.del_token();
    assert_eq!(calc.toks, [None; MAX_TOKENS]);
}

#[test]
fn delete_under_the_cursor_moves_the_rest_left() {
    let mut calc = Calculadora::default();
    calc.add_token(Token::Digit(1));
    calc.add_token(Token::Digit(2));
    calc.add_token(Token::Digit(3));
    calc.cursor_back();
    calc.cursor_back();
    calc.del_token();
    assert_eq!(tokens(&calc), vec![Token::Digit(1), Token::Digit(3)]);
    assert_eq!(shown(&calc), format!("{:<32}", "13"));
}

#[test]
fn delete_right_after_add_restores() {
    let mut calc = Calculadora::default();
    calc.add_token(Token::Digit(1));
    calc.add_token(Token::Digit(2));
    calc.cursor_back();
    let before = calc.toks;
    let before_text = calc.display();
    calc.add_token(Token::Op(Operacio::Sub));
    calc.del_token();
    assert_eq!(calc.toks, before);
    assert_eq!(calc.display(), before_text);
}

#[test]
fn cursor_moves() {
    let mut calc = Calculadora::default();
    calc.cursor_back();
    calc.cursor_advance();
    calc.add_token(Token::Digit(1));
    // the cursor cannot move past the tokens
    calc.cursor_advance();
    calc.add_token(Token::Digit(2));
    assert_eq!(tokens(&calc), vec![Token::Digit(1), Token::Digit(2)]);
    calc.cursor_back();
    calc.cursor_back();
    calc.cursor_advance();
    calc.add_token(Token::Digit(3));
    assert_eq!(tokens(&calc), vec![Token::Digit(1), Token::Digit(3), Token::Digit(2)]);
}

#[test]
fn distribution_name_that_does_not_fit_starts_the_second_line() {
    let mut calc = Calculadora::default();
    for _ in 0..12 {
        calc.add_token(Token::Digit(0));
    }
    calc.add_dist_tokens(Dist::NBinom);
    let expected = format!("{}{:<16}", "0".repeat(12) + "    ", "nbinom(");
    assert_eq!(shown(&calc), expected);
    assert_eq!(calc.graphical_cursor, 23);
    assert_eq!(calc.toks[12], Some(Token::Dist(Dist::NBinom)));
    assert_eq!(calc.toks[13], Some(Token::Paren(Paren::Open)));
}

#[test]
fn distribution_name_that_does_not_fit_at_all_ends_the_display() {
    let mut calc = Calculadora::default();
    for _ in 0..29 {
        calc.add_token(Token::Digit(3));
    }
    calc.add_token(Token::Dist(Dist::Bernoulli));
    calc.add_token(Token::Digit(4));
    assert_eq!(shown(&calc), format!("{:<32}", "3".repeat(29)));
    assert_eq!(calc.graphical_cursor, 29);
}

#[test]
fn every_distribution_name() {
    let names = [
        (Dist::Bernoulli, "bern"),
        (Dist::Binom, "binom"),
        (Dist::Poisson, "pois"),
        (Dist::NBinom, "nbinom"),
        (Dist::Uniforme, "unif"),
        (Dist::Normal, "norm"),
    ];
    for (dist, name) in names {
        assert_eq!(dist.as_ascii(), name);
        let mut calc = Calculadora::default();
        calc.add_token(Token::Dist(dist));
        assert_eq!(shown(&calc), format!("{:<32}", name));
    }
}

#[test]
fn display_is_ascii() {
    let mut calc = Calculadora::default();
    for d in 0..10 {
        calc.add_token(Token::Digit(d));
    }
    calc.add_dist_tokens(Dist::Uniforme);
    calc.compute();
    assert!(calc.display().iter().all(|b| b.is_ascii()));
    calc.currently_shown_buffer = BufferType::Resultat;
    assert!(calc.display().iter().all(|b| b.is_ascii()));
}

#[test]
fn clear_resets() {
    let mut calc = Calculadora::default();
    calc.add_token(Token::Digit(2));
    calc.toggle_shift();
    calc.compute();
    calc.is_cache_valid = true;
    calc.clear();
    assert_eq!(calc.toks, [None; MAX_TOKENS]);
    assert_eq!(shown(&calc), " ".repeat(32));
    assert_eq!(calc.shift_status, ShiftStatus::No);
    assert!(!calc.is_cache_valid);
    calc.currently_shown_buffer = BufferType::Resultat;
    assert_eq!(shown(&calc), " ".repeat(32));
}

#[test]
fn toggle_shift_twice_restores() {
    let mut calc = Calculadora::default();
    calc.toggle_shift();
    assert_eq!(calc.shift_status, ShiftStatus::Si);
    calc.toggle_shift();
    assert_eq!(calc.shift_status, ShiftStatus::No);
}

#[test]
fn compute_writes_the_result_buffer() {
    let mut calc = Calculadora::default();
    calc.add_token(Token::Digit(2));
    calc.add_token(Token::Op(Operacio::Add));
    calc.add_token(Token::Digit(2));
    calc.compute();
    // the token display is still shown
    assert_eq!(shown(&calc), format!("{:<32}", "2+2"));
    calc.currently_shown_buffer = BufferType::Resultat;
    assert_eq!(shown(&calc), format!("{:<32}", "yay"));

    calc.add_token(Token::Dist(Dist::Poisson));
    calc.compute();
    assert_eq!(shown(&calc), format!("{:<32}", "fn sense p/q/d"));
}

#[test]
fn backbuffer_text_is_shown() {
    let mut calc = Calculadora::default();
    let mut text = [b' '; 32];
    text[0] = b'4';
    text[1] = b'2';
    calc.set_backbuffer_text(text);
    calc.currently_shown_buffer = BufferType::Resultat;
    assert_eq!(calc.display(), text);
    calc.currently_shown_buffer = BufferType::Tokens;
    assert_eq!(shown(&calc), " ".repeat(32));
}

#[test]
fn update_token_display_is_steady() {
    let mut calc = Calculadora::default();
    calc.add_token(Token::Digit(8));
    let text = calc.display();
    calc.update_token_display();
    assert_eq!(calc.display(), text);
    assert_eq!(calc.graphical_cursor, 1);
}

fn press(key: usize) -> [bool; KEY_COUNT] {
    let mut pressed = [false; KEY_COUNT];
    pressed[key] = true;
    pressed
}

#[test]
fn key_commands() {
    assert_eq!(command_for_key(ShiftStatus::No, 0), Command::Put(Token::Paren(Paren::Open)));
    assert_eq!(command_for_key(ShiftStatus::No, 1), Command::Put(Token::Op(Operacio::Add)));
    assert_eq!(command_for_key(ShiftStatus::No, 2), Command::Delete);
    assert_eq!(command_for_key(ShiftStatus::Si, 3), Command::Clear);
    assert_eq!(command_for_key(ShiftStatus::No, 4), Command::Back);
    assert_eq!(command_for_key(ShiftStatus::No, 5), Command::Advance);
    assert_eq!(command_for_key(ShiftStatus::No, 6), Command::Nothing);
    assert_eq!(command_for_key(ShiftStatus::No, 8), Command::Put(Token::Digit(0)));
    assert_eq!(command_for_key(ShiftStatus::No, 12), Command::Put(Token::Digit(4)));
    assert_eq!(command_for_key(ShiftStatus::No, 13), Command::PutDist(Dist::NBinom));
    assert_eq!(command_for_key(ShiftStatus::Si, 13), Command::PutDist(Dist::Normal));
    assert_eq!(command_for_key(ShiftStatus::No, 14), Command::ToggleShift);
    assert_eq!(command_for_key(ShiftStatus::Si, 15), Command::Compute);
    assert_eq!(command_for_key(ShiftStatus::Si, 9), Command::ToggleShift);
    assert_eq!(command_for_key(ShiftStatus::No, 19), Command::Nothing);
}

#[test]
fn a_key_acts_once_while_held() {
    let mut calc = Calculadora::default();
    let (held, change) = calc.on_scan(&press(9), false);
    assert!(held);
    assert_eq!(change, None);
    assert_eq!(tokens(&calc), vec![Token::Digit(1)]);
    assert!(!calc.is_cache_valid);
    calc.is_cache_valid = true;
    let (held, _) = calc.on_scan(&press(9), held);
    assert!(held);
    assert_eq!(tokens(&calc), vec![Token::Digit(1)]);
    assert!(calc.is_cache_valid);
    let (held, _) = calc.on_scan(&[false; KEY_COUNT], held);
    assert!(!held);
    let (held, _) = calc.on_scan(&press(10), held);
    assert!(held);
    assert_eq!(tokens(&calc), vec![Token::Digit(1), Token::Digit(2)]);
}

#[test]
fn several_keys_at_once_are_ignored() {
    let mut calc = Calculadora::default();
    let mut pressed = press(8);
    pressed[9] = true;
    assert_eq!(calc.on_scan(&pressed, false), (false, None));
    assert_eq!(calc.on_scan(&pressed, true), (true, None));
    assert_eq!(calc.toks, [None; MAX_TOKENS]);
}

#[test]
fn equals_shows_the_result_and_any_key_goes_back() {
    let mut calc = Calculadora::default();
    calc.on_scan(&press(11), false);
    calc.on_scan(&[false; KEY_COUNT], true);
    let (held, change) = calc.on_scan(&press(15), false);
    assert!(held);
    assert_eq!(change, Some(CursorChange::Hide));
    assert!(matches!(calc.currently_shown_buffer, BufferType::Resultat));
    assert_eq!(shown(&calc), format!("{:<32}", "yay"));
    let (held, change) = calc.on_scan(&[false; KEY_COUNT], held);
    assert!(!held);
    assert_eq!(change, None);
    let (held, change) = calc.on_scan(&press(2), held);
    assert!(held);
    assert_eq!(change, Some(CursorChange::Show));
    assert!(matches!(calc.currently_shown_buffer, BufferType::Tokens));
    // the key only switched the buffer back
    assert_eq!(tokens(&calc), vec![Token::Digit(3)]);
}

#[test]
fn shift_selects_the_normal_distribution() {
    let mut calc = Calculadora::default();
    calc.on_scan(&press(14), false);
    assert_eq!(calc.shift_status, ShiftStatus::Si);
    calc.on_scan(&press(13), false);
    assert_eq!(tokens(&calc), vec![Token::Dist(Dist::Normal), Token::Paren(Paren::Open)]);
    // a key with no shifted function turns shift off
    assert_eq!(calc.shift_status, ShiftStatus::Si);
    calc.on_scan(&press(8), false);
    assert_eq!(calc.shift_status, ShiftStatus::No);
    assert_eq!(tokens(&calc).len(), 2);
}

#[test]
fn redraw_only_when_out_of_date() {
    let mut calc = Calculadora::default();
    for _ in 0..17 {
        calc.add_token(Token::Digit(1));
    }
    let frame = calc.redraw().unwrap();
    assert_eq!(frame.text, calc.display());
    assert_eq!(frame.cursor_address, 65);
    assert!(!frame.blink);
    assert!(calc.is_cache_valid);
    assert!(calc.redraw().is_none());
    calc.is_cache_valid = false;
    calc.toggle_shift();
    calc.del_token();
    calc.del_token();
    let frame = calc.redraw().unwrap();
    assert_eq!(frame.cursor_address, 15);
    assert!(frame.blink);
}

#[test]
fn numbers_fit_now_sees_long_numbers() {
    let mut calc = Calculadora::default();
    assert!(calc.numbers_fit_now());
    for _ in 0..10 {
        calc.add_token(Token::Digit(4));
    }
    assert!(!calc.numbers_fit_now());
    calc.del_token();
    assert!(calc.numbers_fit_now());
}
