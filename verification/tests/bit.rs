use avrs::bit::{pdep_u32, pext_u32};

#[test]
fn test_bit_extraction() {
    let cases = vec![
        (0xffffffff, 0b1000_1000_1000_1000, 0b0000_0000_0000_1111),
        (0xffffffff, 0b0000_0011_0000_1100, 0b0000_0000_0000_1111),
    ];

    for (value, mask, expected) in cases {
        assert_eq!(expected, pext_u32(value, mask))
    }
}

#[test]
fn test_bit_packing() {
    let cases = vec![
        (0xffffffff, 0b1000_1000_1000_1000, 0b1000_1000_1000_1000),
    ];

    for (value, mask, expected) in cases {
        assert_eq!(expected, pdep_u32(value, mask))
    }
}

#[test]
fn extraction_keeps_order() {
    assert_eq!(0b110, pext_u32(0b1000_0010, 0b1000_0011));
    assert_eq!(0, pext_u32(0xffff_ffff, 0));
    assert_eq!(0xffff_ffff, pext_u32(0xffff_ffff, 0xffff_ffff));
}

#[test]
fn deposit_keeps_order() {
    assert_eq!(0b1000_0001, pdep_u32(0b101, 0b1000_0011));
    assert_eq!(0x8000_0000, pdep_u32(1, 0x8000_0000));
}

#[test]
fn extract_after_deposit() {
    let mask = 0b0000_0011_1111_1000;
    assert_eq!(0b101_1010, pext_u32(pdep_u32(0b1101_1010, mask), mask));
}

#[test]
fn bit_test() {
    assert!(avrs::bit::set(0b1000_0000, 7));
    assert!(!avrs::bit::set(0b1000_0000, 6));
    assert!(avrs::bit::set(1, 0));
}
