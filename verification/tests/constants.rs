use falcon_z3::{const_, to_decimal_string, Constant, Error};

#[test]
fn new_masks_to_width() {
    let c = Constant::new(0x1ff, 8);
    assert_eq!(c.value_u64(), Some(0xff));
    assert_eq!(c.bits(), 8);
}

#[test]
fn new_keeps_small_value() {
    let c = const_(32, 32);
    assert_eq!(c.value_u64(), Some(32));
    assert_eq!(c.bits(), 32);
}

#[test]
fn decimal_round_trip() {
    let c = Constant::from_decimal_string("26", 64).unwrap();
    assert_eq!(c.value_u64(), Some(26));
    assert_eq!(to_decimal_string(26), "26");
}

#[test]
fn decimal_rendering_of_zero_and_larger() {
    assert_eq!(to_decimal_string(0), "0");
    assert_eq!(to_decimal_string(12345), "12345");
    assert_eq!(to_decimal_string(u64::MAX), "18446744073709551615");
}

#[test]
fn decimal_rejects_non_digits() {
    assert_eq!(Constant::from_decimal_string("2a", 8).unwrap_err(), Error::Parse);
    assert_eq!(Constant::from_decimal_string("", 8).unwrap_err(), Error::Parse);
    assert_eq!(Constant::from_decimal_string("-1", 8).unwrap_err(), Error::Parse);
}

#[test]
fn decimal_rejects_value_too_wide() {
    assert_eq!(Constant::from_decimal_string("256", 8).unwrap_err(), Error::Parse);
    let c = Constant::from_decimal_string("255", 8).unwrap();
    assert_eq!(c.value_u64(), Some(255));
}

#[test]
fn decimal_parses_beyond_machine_words() {
    let c = Constant::from_decimal_string("18446744073709551616", 128).unwrap();
    assert_eq!(c.value_u64(), None);
    assert_eq!(c.bytes.len(), 16);
    assert_eq!(c.bytes[8], 1);
    for (i, b) in c.bytes.iter().enumerate() {
        if i != 8 {
            assert_eq!(*b, 0);
        }
    }
}

#[test]
fn decimal_boundary_of_u64() {
    let c = Constant::from_decimal_string("18446744073709551615", 64).unwrap();
    assert_eq!(c.value_u64(), Some(u64::MAX));
}

#[test]
fn partial_top_byte_is_checked() {
    assert_eq!(Constant::from_decimal_string("8", 3).unwrap_err(), Error::Parse);
    let c = Constant::from_decimal_string("7", 3).unwrap();
    assert_eq!(c.value_u64(), Some(7));
}
