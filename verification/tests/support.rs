use r_calc::combinatoria::{factorial, n_choose_r};
use r_calc::computacio::PseudoOp;
use r_calc::i2c::{send_data_steps, BusStep, BUS_PAUSE};
use r_calc::keys::lcd_cursor_address;
use r_calc::stack::Stack;
use r_calc::{Operacio, Paren, MAX_TOKENS};
use std::cmp::Ordering;

#[test]
fn stack_is_last_in_first_out() {
    let mut s: Stack<u32> = Stack::default();
    assert!(s.is_empty());
    assert_eq!(s.top(), None);
    assert_eq!(s.pop(), None);
    assert_eq!(s.push(1), Ok(()));
    assert_eq!(s.push(2), Ok(()));
    assert_eq!(s.top(), Some(&2));
    assert_eq!(s.pop(), Some(2));
    assert_eq!(s.pop(), Some(1));
    assert!(s.is_empty());
}

#[test]
fn full_stack_refuses_a_push() {
    let mut s: Stack<usize> = Stack::default();
    for i in 0..MAX_TOKENS {
        assert_eq!(s.push(i), Ok(()));
    }
    assert_eq!(s.push(99), Err(()));
    assert_eq!(s.top(), Some(&(MAX_TOKENS - 1)));
    let elements = s.as_elements();
    for i in 0..MAX_TOKENS {
        assert_eq!(elements[i], Some(i));
    }
}

#[test]
fn stack_elements_after_pops() {
    let mut s: Stack<char> = Stack::default();
    s.push('a').unwrap();
    s.push('b').unwrap();
    s.push('c').unwrap();
    s.pop();
    let elements = s.as_elements();
    assert_eq!(&elements[..3], &[Some('a'), Some('b'), None]);
}

#[test]
fn operator_precedence() {
    assert_eq!(Operacio::Add.partial_cmp(&Operacio::Sub), Some(Ordering::Equal));
    assert_eq!(Operacio::Mul.partial_cmp(&Operacio::Div), Some(Ordering::Equal));
    assert_eq!(Operacio::Add.partial_cmp(&Operacio::Mul), Some(Ordering::Less));
    assert_eq!(Operacio::Pow.partial_cmp(&Operacio::Div), Some(Ordering::Greater));
    assert_eq!(Operacio::Sub.partial_cmp(&Operacio::Pow), Some(Ordering::Less));
    assert!(Operacio::Pow > Operacio::Mul);
    assert!(PseudoOp::Op(Operacio::Mul) > PseudoOp::Op(Operacio::Add));
    assert_eq!(PseudoOp::Op(Operacio::Add).partial_cmp(&PseudoOp::Paren(Paren::Open)), None);
    assert!(!(PseudoOp::Op(Operacio::Pow) > PseudoOp::Paren(Paren::Open)));
}

#[test]
fn factorials() {
    assert_eq!(factorial(0), 1);
    assert_eq!(factorial(1), 1);
    assert_eq!(factorial(5), 120);
    assert_eq!(factorial(12), 479001600);
}

#[test]
fn binomial_coefficients() {
    assert_eq!(n_choose_r(5, 2), 10);
    assert_eq!(n_choose_r(10, 3), 120);
    assert_eq!(n_choose_r(7, 0), 1);
    assert_eq!(n_choose_r(7, 7), 1);
    assert_eq!(n_choose_r(0, 0), 1);
    assert_eq!(n_choose_r(3, 5), 0);
    assert_eq!(n_choose_r(30, 15), 155117520);
    // symmetric
    assert_eq!(n_choose_r(20, 6), n_choose_r(20, 14));
}

#[test]
fn lcd_addresses() {
    assert_eq!(lcd_cursor_address(0), 0);
    assert_eq!(lcd_cursor_address(15), 15);
    assert_eq!(lcd_cursor_address(16), 64);
    assert_eq!(lcd_cursor_address(32), 80);
}

#[test]
fn bus_transfer_of_one_byte() {
    let steps = send_data_steps(&[0b1010_0001]);
    let w = BusStep::Wait(BUS_PAUSE);
    let mut expected = vec![BusStep::SdaLow, w, BusStep::SclLow, w];
    for bit in [true, false, true, false, false, false, false, true] {
        expected.push(if bit { BusStep::SdaHigh } else { BusStep::SdaLow });
        expected.push(w);
        expected.push(BusStep::SclHigh);
        expected.push(w);
        expected.push(BusStep::SclLow);
        expected.push(w);
    }
    expected.extend([BusStep::SclHigh, w, BusStep::SdaHigh, w]);
    assert_eq!(steps, expected);
}

#[test]
fn bus_data_changes_only_while_clock_is_low() {
    let steps = send_data_steps(&[0x5A, 0xFF, 0x00]);
    let mut clock_high = false;
    for (k, step) in steps.iter().enumerate() {
        match step {
            BusStep::SclHigh => clock_high = true,
            BusStep::SclLow => clock_high = false,
            BusStep::SdaLow | BusStep::SdaHigh => {
                // the stop sequence raises SDA while the clock is high
                assert!(!clock_high || k == steps.len() - 2);
            }
            BusStep::Wait(_) => {}
        }
    }
}

#[test]
fn bus_transfer_lengths() {
    assert_eq!(send_data_steps(&[]).len(), 8);
    assert_eq!(send_data_steps(&[0, 255, 7]).len(), 8 + 3 * 48);
}
