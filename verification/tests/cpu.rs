use avrs::cpu::StateOp;
use avrs::hardware::CPUState;
use avrs::instruction::{Add, Breq, Cp, Ldi};
use avrs::types::{Signed, Unsigned};

#[test]
fn test_ldi() {
    let mut state = CPUState::<32>::default();
    let ldi = Ldi::new(Unsigned::new_no_offset_const(16), Unsigned::new_const(232));
    ldi.process(&mut state).unwrap();
    assert_eq!(state.get_checked(16), 232);
}

#[test]
fn cpu_test_add() {
    let add = Add::new(Unsigned::new_const(0), Unsigned::new_const(1));
    let create = |v1, v2| {
        let mut state = CPUState::<32>::default();
        state.set_checked(0, v1);
        state.set_checked(1, v2);
        state
    };

    let mut state = create(3, 12);
    add.process(&mut state).unwrap();
    assert_eq!(15, state.get_checked(0));

    let mut state = create(255, 255);
    add.process(&mut state).unwrap();
    assert_eq!(254, state.get_checked(0));
    assert!(state.c);

    let mut state = create(127, 1);
    add.process(&mut state).unwrap();
    assert_eq!(128, state.get_checked(0));
    assert!(state.n);
    assert!(state.v);
    assert!(!state.c);

    let mut state = create(0xf, 0x1);
    add.process(&mut state).unwrap();
    assert_eq!(0x10, state.get_checked(0));
    assert!(state.h);
    assert!(!state.c);
}

#[test]
fn test_cp() {
    let cp = Cp::new(Unsigned::new_const(0), Unsigned::new_const(1));

    let mut state = CPUState::<32>::default();
    state.set_checked(0, 2);
    state.set_checked(1, 2);
    let _ = cp.process(&mut state);
    assert!(state.z);

    let mut state = CPUState::<32>::default();
    state.set_checked(0, 1);
    state.set_checked(1, 2);
    let _ = cp.process(&mut state);
    assert!(!state.z);
}

#[test]
fn add_wraps_to_zero() {
    let add = Add::new(Unsigned::new_const(2), Unsigned::new_const(3));
    let mut state = CPUState::<32>::default();
    state.set_checked(2, 0x80);
    state.set_checked(3, 0x80);
    add.process(&mut state).unwrap();
    assert_eq!(0, state.get_checked(2));
    assert_eq!(0x80, state.get_checked(3));
    assert!(state.z);
    assert!(state.c);
    assert!(state.v);
    assert!(!state.n);
    assert!(state.s);
    assert!(!state.h);
}

#[test]
fn cp_flags() {
    let cp = Cp::new(Unsigned::new_const(0), Unsigned::new_const(1));
    let mut state = CPUState::<32>::default();
    state.set_checked(0, 0x10);
    state.set_checked(1, 0x01);
    cp.process(&mut state).unwrap();
    assert!(!state.c);
    assert!(state.h);
    assert!(!state.z);
    assert_eq!(0x10, state.get_checked(0));

    let mut state = CPUState::<32>::default();
    state.set_checked(0, 0x80);
    state.set_checked(1, 0x01);
    cp.process(&mut state).unwrap();
    assert!(state.v);
    assert!(!state.c);
    // 0x80 - 0x01 = 0x7f: a positive result byte, but -128 - 1 overflows
    assert!(!state.n);
    assert!(state.s);

    let mut state = CPUState::<32>::default();
    state.set_checked(0, 0x01);
    state.set_checked(1, 0x02);
    cp.process(&mut state).unwrap();
    assert!(state.c);
    // 1 - 2 = 0xff: the negative flag follows bit 7 of the result
    assert!(state.n);
    assert!(!state.v);
    assert!(state.s);
}

#[test]
fn breq_branches_on_zero() {
    let breq = Breq::new(Signed::new_const(-2));
    let mut state = CPUState::<32>::default();
    state.program_counter = 10;
    breq.process(&mut state).unwrap();
    assert_eq!(10, state.program_counter);
    state.z = true;
    breq.process(&mut state).unwrap();
    assert_eq!(8, state.program_counter);
}

#[test]
fn registers_start_cleared() {
    let state = CPUState::<32>::new();
    assert_eq!(32, state.registries.len());
    assert!(state.registries.iter().all(|r| *r == 0));
    assert_eq!(0, state.program_counter);
}
