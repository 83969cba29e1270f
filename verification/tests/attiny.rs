use avrs::attiny::{ATTiny11, EmulatorError};
use avrs::hardware::{Flash, HardwareError};
use avrs::instruction::{Add, Breq, InstructionError, Ldi};
use avrs::types::{Signed, Unsigned};

#[test]
fn test() {
    let mut attiny = ATTiny11::default();
    let instructions = vec![
        (Ldi { d: Unsigned::new_const(0), k: Unsigned::new_const(5) }).encode(),
        (Ldi { d: Unsigned::new_const(1), k: Unsigned::new_const(3) }).encode(),
        (Add { d: Unsigned::new_const(16), r: Unsigned::new_const(17) }).encode(),
    ];
    attiny.flash.load(&instructions).unwrap();
    attiny.tick().unwrap();
    attiny.tick().unwrap();
    attiny.tick().unwrap();

    assert_eq!(8, attiny.state.get_checked(16));
}

#[test]
fn tick_advances_program_counter() {
    let mut attiny = ATTiny11::new();
    let instructions = vec![(Ldi { d: Unsigned::new_const(2), k: Unsigned::new_const(7) }).encode()];
    attiny.flash.load(&instructions).unwrap();
    attiny.tick().unwrap();
    assert_eq!(1, attiny.state.program_counter);
    assert_eq!(7, attiny.state.get_checked(18));
}

#[test]
fn tick_unknown_instruction() {
    let mut attiny = ATTiny11::new();
    attiny.state.program_counter = 3;
    assert!(matches!(attiny.tick(), Err(EmulatorError::Instruction(InstructionError::UnknownInstruction(0)))));
    assert_eq!(3, attiny.state.program_counter);
}

#[test]
fn tick_past_memory() {
    let mut attiny = ATTiny11::new();
    attiny.state.program_counter = 600;
    assert!(matches!(attiny.tick(), Err(EmulatorError::Hardware(HardwareError::OutOfRange))));
    attiny.state.program_counter = 512;
    assert!(matches!(attiny.tick(), Err(EmulatorError::Hardware(HardwareError::OutOfRange))));
    assert_eq!(512, attiny.state.program_counter);
}

#[test]
fn tick_branch() {
    let mut attiny = ATTiny11::new();
    let instructions = vec![0u16, 0, (Breq { k: Signed::new_const(-2) }).encode()];
    attiny.flash.load(&instructions).unwrap();
    attiny.state.program_counter = 2;
    attiny.state.z = true;
    attiny.tick().unwrap();
    assert_eq!(1, attiny.state.program_counter);
}

#[test]
fn flash_load_and_read() {
    let mut flash = Flash::<4>::new();
    assert!(matches!(flash.load(&[1, 2, 3, 4, 5]), Err(HardwareError::OutOfRange)));
    assert_eq!(0, flash.read(0).unwrap());
    flash.load(&[9, 8]).unwrap();
    assert_eq!(9, flash.read(0).unwrap());
    assert_eq!(8, flash.read(1).unwrap());
    assert_eq!(0, flash.read(2).unwrap());
    assert!(matches!(flash.read(5), Err(HardwareError::OutOfRange)));
    assert!(matches!(flash.read(4), Err(HardwareError::OutOfRange)));
    assert_eq!(4, flash.len());
}
