use falcon_z3::{expr_const, expr_scalar, Error, Expression};

#[test]
fn bits_of_terminals_and_comparisons() {
    assert_eq!(expr_const(1, 32).bits(), 32);
    assert_eq!(expr_scalar("rdx", 64).bits(), 64);
    let cmp = Expression::cmpeq(expr_const(1, 32), expr_const(2, 32)).unwrap();
    assert_eq!(cmp.bits(), 1);
}

#[test]
fn binary_operands_must_share_width() {
    let e = Expression::add(expr_const(1, 32), expr_const(1, 64));
    assert_eq!(e.unwrap_err(), Error::Sort);
    assert!(Expression::add(expr_const(1, 32), expr_const(1, 32)).is_ok());
}

#[test]
fn extension_and_truncation_validate_widths() {
    assert_eq!(Expression::zext(32, expr_const(1, 32)).unwrap_err(), Error::Sort);
    assert!(Expression::zext(64, expr_const(1, 32)).is_ok());
    assert_eq!(Expression::sext(16, expr_const(1, 32)).unwrap_err(), Error::Sort);
    assert!(Expression::sext(33, expr_const(1, 32)).is_ok());
    assert_eq!(Expression::trun(64, expr_const(1, 32)).unwrap_err(), Error::Sort);
    assert!(Expression::trun(8, expr_const(1, 32)).is_ok());
}

#[test]
fn conditional_selects_on_one_bit() {
    let bad = Expression::ite(expr_const(1, 32), expr_const(1, 8), expr_const(2, 8));
    assert_eq!(bad.unwrap_err(), Error::Sort);
    let good = Expression::ite(expr_const(1, 1), expr_const(1, 8), expr_const(2, 8));
    assert_eq!(good.unwrap().bits(), 8);
}
