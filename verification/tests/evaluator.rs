//! Tests of the expression-tree evaluator on hand-built trees.

use esianolop::instruction::{ArithErr, EsianolopInstruction};

fn num(v: usize) -> Box<EsianolopInstruction> {
    Box::new(EsianolopInstruction::Num(v))
}

#[test]
fn nul_evaluates_to_zero() {
    assert_eq!(EsianolopInstruction::Nul.execute(), Ok(0));
}

#[test]
fn num_evaluates_to_itself() {
    assert_eq!(EsianolopInstruction::Num(42).execute(), Ok(42));
}

#[test]
fn snapshots_return_their_stored_value() {
    assert_eq!(EsianolopInstruction::Dup(7).execute(), Ok(7));
    assert_eq!(EsianolopInstruction::DpL(8).execute(), Ok(8));
    assert_eq!(EsianolopInstruction::DpR(9).execute(), Ok(9));
}

#[test]
fn add_is_checked() {
    assert_eq!(EsianolopInstruction::Add(num(2), num(3)).execute(), Ok(5));
    assert_eq!(
        EsianolopInstruction::Add(num(usize::MAX), num(1)).execute(),
        Err(ArithErr::AddOverflow)
    );
}

#[test]
fn sub_refuses_negative_results() {
    assert_eq!(EsianolopInstruction::Sub(num(8), num(5)).execute(), Ok(3));
    assert_eq!(
        EsianolopInstruction::Sub(num(5), num(8)).execute(),
        Err(ArithErr::SubUnderflow)
    );
}

#[test]
fn mul_is_checked() {
    assert_eq!(EsianolopInstruction::Mul(num(6), num(7)).execute(), Ok(42));
    assert_eq!(
        EsianolopInstruction::Mul(num(usize::MAX), num(2)).execute(),
        Err(ArithErr::MulOverflow)
    );
}

#[test]
fn div_truncates_and_refuses_zero() {
    assert_eq!(EsianolopInstruction::Div(num(7), num(2)).execute(), Ok(3));
    assert_eq!(
        EsianolopInstruction::Div(num(4), num(0)).execute(),
        Err(ArithErr::DivByZero)
    );
}

#[test]
fn pow_small_cases() {
    assert_eq!(EsianolopInstruction::Pow(num(2), num(10)).execute(), Ok(1024));
    assert_eq!(EsianolopInstruction::Pow(num(0), num(0)).execute(), Ok(1));
    assert_eq!(EsianolopInstruction::Pow(num(0), num(5)).execute(), Ok(0));
    assert_eq!(EsianolopInstruction::Pow(num(1), num(999)).execute(), Ok(1));
}

#[test]
fn pow_overflow_is_reported() {
    assert_eq!(
        EsianolopInstruction::Pow(num(2), num(64)).execute(),
        Err(ArithErr::PowOverflow)
    );
}

#[test]
fn pow_exponent_is_truncated_to_32_bits() {
    // The exponent is reduced to the 32-bit range before use, as the
    // checked exponentiation takes it: 2 to the power 2^32 uses exponent 0.
    assert_eq!(
        EsianolopInstruction::Pow(num(2), num(4_294_967_296)).execute(),
        Ok(1)
    );
}

#[test]
fn sqr_takes_the_integer_square_root() {
    assert_eq!(EsianolopInstruction::Sqr(num(0)).execute(), Ok(0));
    assert_eq!(EsianolopInstruction::Sqr(num(1)).execute(), Ok(1));
    assert_eq!(EsianolopInstruction::Sqr(num(2)).execute(), Ok(1));
    assert_eq!(EsianolopInstruction::Sqr(num(16)).execute(), Ok(4));
    assert_eq!(EsianolopInstruction::Sqr(num(24)).execute(), Ok(4));
    assert_eq!(EsianolopInstruction::Sqr(num(25)).execute(), Ok(5));
    assert_eq!(EsianolopInstruction::Sqr(num(usize::MAX)).execute(), Ok(4_294_967_295));
}

#[test]
fn left_error_wins_over_right() {
    let bad_left = EsianolopInstruction::Sub(num(0), num(1));
    let bad_right = EsianolopInstruction::Div(num(1), num(0));
    let tree = EsianolopInstruction::Add(Box::new(bad_left), Box::new(bad_right));
    assert_eq!(tree.execute(), Err(ArithErr::SubUnderflow));
}

#[test]
fn evaluation_is_repeatable_and_pure() {
    let tree = EsianolopInstruction::Mul(
        Box::new(EsianolopInstruction::Add(num(1), num(2))),
        num(4),
    );
    assert_eq!(tree.execute(), Ok(12));
    assert_eq!(tree.execute(), Ok(12));
    assert_eq!(tree, tree.clone());
}

#[test]
fn nested_tree_evaluates_bottom_up() {
    // Sqr(Add(Pow(2, 3), 1)) = sqrt(9) = 3
    let tree = EsianolopInstruction::Sqr(Box::new(EsianolopInstruction::Add(
        Box::new(EsianolopInstruction::Pow(num(2), num(3))),
        num(1),
    )));
    assert_eq!(tree.execute(), Ok(3));
}
