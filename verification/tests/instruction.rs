use avrs::instruction::{Add, Avr, Breq, Cp, InstructionError, Ldi};
use avrs::types::{Signed, Unsigned};

#[test]
fn test_instructions() {
    let cases = vec![
        (0x0c01, Avr::Add(Add { d: Unsigned::new_const(0), r: Unsigned::new_const(1) })),
        (0x0fc2, Avr::Add(Add { d: Unsigned::new_const(28), r: Unsigned::new_const(18) })),
        (0xef00, Avr::Ldi(Ldi { d: Unsigned::new_const(0), k: Unsigned::new_const(0xf0) })),
        (0xe4f1, Avr::Ldi(Ldi { d: Unsigned::new_const(15), k: Unsigned::new_const(0x41) })),
        (0xf009, Avr::Breq(Breq { k: Signed::new_const(1) })),
        (0xf3f1, Avr::Breq(Breq { k: Signed::new_const(-2) })),
        (0x164f, Avr::Cp(Cp { d: Unsigned::new_const(4), r: Unsigned::new_const(31) })),
        (0x1481, Avr::Cp(Cp { d: Unsigned::new_const(8), r: Unsigned::new_const(1) })),
    ];

    for (opcode, expected) in cases {
        let decoded = Avr::decode(opcode)
            .unwrap();
        assert_eq!(decoded, expected);
        let encoded = decoded.encode();
        assert_eq!(encoded, opcode);
    }
}

#[test]
fn unknown_opcode() {
    assert!(matches!(Avr::decode(0x0000), Err(InstructionError::UnknownInstruction(0))));
    assert!(matches!(Avr::decode(0xf000), Err(InstructionError::UnknownInstruction(0xf000))));
}

#[test]
fn encode_then_decode() {
    let i = Avr::Breq(Breq::new(Signed::new_const(-64)));
    assert_eq!(Avr::decode(i.encode()).unwrap(), i);
    let i = Avr::Ldi(Ldi::new(Unsigned::new_const(15), Unsigned::new_const(255)));
    assert_eq!(0xefff, i.encode());
    assert_eq!(Avr::decode(i.encode()).unwrap(), i);
}

#[test]
fn ldi_register_offset() {
    let ldi = Ldi::decode(0xe0f0).unwrap();
    assert_eq!(31, ldi.d.inner());
    assert_eq!(0, ldi.k.inner());
}
