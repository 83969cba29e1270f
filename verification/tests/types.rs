use avrs::types::{IntegerError, Signed, Unsigned};

#[test]
fn test_unsigned() {
    let value: Result<Unsigned<0, 31, 0>, _> = 30u32.try_into();
    assert!(value.is_ok());
    assert_eq!(30, value.unwrap().inner());

    let value: Result<Unsigned<0, 31, 0>, _> = 54u16.try_into();
    assert!(matches!(value, Err(IntegerError::OutOfRange)));

    let value: Result<Unsigned<0, 31, 0>, _> = 8u16.try_into();
    assert!(value.is_ok());
    let value = value.unwrap();
    assert_eq!(8, value.inner());
    assert_eq!(8u32, value.into());
}

// The bounds of `Signed` are two's complement bit patterns:
// 0x8000 is i16::MIN, 0x7fff is i16::MAX and 0xffce is -50.
#[test]
fn test_signed() {
    let value: Result<Signed<7, 0x8000, 0x7fff, 0>, _> = 0b0011_1111u32.try_into();
    assert!(value.is_ok());
    assert_eq!(63, value.unwrap().inner());
    let value: Result<Signed<7, 0x8000, 0x7fff, 0>, _> = 0b0100_0000u32.try_into();
    assert!(value.is_ok());
    assert_eq!(-64, value.unwrap().inner());

    let value: Result<Signed<7, 0xffce, 50, 0>, _> = 0b0011_1111u32.try_into();
    assert!(matches!(value, Err(IntegerError::OutOfRange)));
    let value: Result<Signed<7, 0xffce, 50, 0>, _> = 0b0001_1111u32.try_into();
    assert!(value.is_ok());
    assert_eq!(31, value.unwrap().inner());

    assert_eq!(-64, Signed::<7, 0x8000, 0x7fff, 0>::min_value());
    assert_eq!(63, Signed::<7, 0x8000, 0x7fff, 0>::max_value());
    assert_eq!(i16::MAX, Signed::<16, 0x8000, 0x7fff, 0>::max_value());
}

#[test]
fn unsigned_offset_is_added() {
    let value = Unsigned::<16, 31, 16>::transform(3).unwrap();
    assert_eq!(19, value.inner());
    assert_eq!(19u16, value.into());
    assert!(matches!(Unsigned::<16, 31, 16>::transform(16), Err(IntegerError::OutOfRange)));
}

#[test]
fn unsigned_overflow() {
    assert!(matches!(Unsigned::<0, 0xffff, 10>::transform(65530), Err(IntegerError::Overflow)));
    let value: Result<Unsigned<0, 31, 0>, _> = 0x1_0000u32.try_into();
    assert!(matches!(value, Err(IntegerError::Overflow)));
    assert_eq!(17, Unsigned::<0, 0xffff, 10>::new_const(7).inner());
}

#[test]
fn signed_bit7_refused() {
    let value: Result<Signed<7, 0x8000, 0x7fff, 0>, _> = 0x80u16.try_into();
    assert!(matches!(value, Err(IntegerError::OutOfRange)));
    // only the low seven bits are read
    let value: Result<Signed<7, 0x8000, 0x7fff, 0>, _> = 0x17fu16.try_into();
    assert_eq!(-1, value.unwrap().inner());
}

#[test]
fn signed_invalid_width() {
    let value: Result<Signed<16, 0x8000, 0x7fff, 0>, _> = 1u16.try_into();
    assert!(matches!(value, Err(IntegerError::InvalidBitWidth)));
    let value: Result<Signed<15, 0x8000, 0x7fff, 0>, _> = 0x4000u16.try_into();
    assert!(matches!(value, Err(IntegerError::Overflow)));
}

#[test]
fn signed_bit_pattern() {
    let value = Signed::<7, 0x8000, 0x7fff, 0>::new_const(-2);
    assert_eq!(0xfffe, value.as_u16());
    assert_eq!(0xfffeu32, value.into());
}

#[test]
fn integer_error_messages() {
    assert_eq!("out-of-range", IntegerError::OutOfRange.message());
    assert_eq!("overflow", IntegerError::Overflow.message());
    assert_eq!("invalid bit width", IntegerError::InvalidBitWidth.message());
}
