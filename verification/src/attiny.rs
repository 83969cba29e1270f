use vstd::prelude::*;
use crate::cpu::{CPUError, StateOp, lemma_add_effects, lemma_breq_effects, lemma_cp_effects, lemma_ldi_effects};
use crate::hardware::{CPUState, CPUView, Flash, HardwareError, signed_byte};
use crate::instruction::{Avr, InstructionError, lemma_encode_decode};

verus! {

/// Why a step of the emulator failed.
#[derive(Debug, Clone, Copy, PartialEq, Eq)]
pub enum EmulatorError {
    Cpu(CPUError),
    Instruction(InstructionError),
    Hardware(HardwareError),
}

/// The state after instruction `i` is carried out.
pub open spec fn process_spec(i: Avr, st: CPUView) -> CPUView {
    match i {
        Avr::Add(a) => a.spec_process(st),
        Avr::Breq(b) => b.spec_process(st),
        Avr::Cp(c) => c.spec_process(st),
        Avr::Ldi(l) => l.spec_process(st),
    }
}

/// Whether instruction `i` can be carried out on `st`.
pub open spec fn can_process_spec(i: Avr, st: CPUView) -> bool {
    match i {
        Avr::Add(a) => a.can_process(st),
        Avr::Breq(b) => b.can_process(st),
        Avr::Cp(c) => c.can_process(st),
        Avr::Ldi(l) => l.can_process(st),
    }
}

/// One step of the emulator: fetch the word at the program counter, decode
/// it, carry it out and move the program counter on by one. A failed fetch
/// or decode changes nothing.
pub open spec fn spec_tick(st: CPUView, flash: Seq<u16>) -> (Result<(), EmulatorError>, CPUView) {
    let pc = st.program_counter;
    if pc >= flash.len() {
        (Err(EmulatorError::Hardware(HardwareError::OutOfRange)), st)
    } else {
        match Avr::spec_decode(flash[pc as int]) {
            Err(e) => (Err(EmulatorError::Instruction(e)), st),
            Ok(i) => {
                let next = process_spec(i, st);
                (Ok(()), CPUView { program_counter: (next.program_counter + 1) as usize, ..next })
            },
        }
    }
}

/// An ATtiny11: the processor state and 512 words of program memory.
#[derive(Debug, Clone)]
pub struct ATTiny11 {
    pub state: CPUState<32>,
    pub flash: Flash<512>, // 1024 bytes: 512 instruction words of 16 bits
}

impl ATTiny11 {
    /// Both parts have their sizes.
    pub open spec fn wf(&self) -> bool {
        self.state.wf() && self.flash.wf()
    }

    /// Whether a step faults: the fetched instruction cannot be carried out,
    /// or the new program counter cannot be advanced.
    pub open spec fn tick_faults(&self) -> bool {
        let st = self.state@;
        let pc = st.program_counter;
        &&& pc < 512
        &&& match Avr::spec_decode(self.flash.view()[pc as int]) {
            Ok(i) => !can_process_spec(i, st) || process_spec(i, st).program_counter == usize::MAX,
            Err(_) => false,
        }
    }

    /// A device with cleared registers and flags and zeroed memory.
    pub fn new() -> (r: Self)
        ensures
            r.wf(),
            r.state.program_counter == 0,
            r.state.registries@ == Seq::new(32, |i: int| 0u8),
            !r.state.h && !r.state.s && !r.state.v && !r.state.n && !r.state.z && !r.state.c,
            r.flash.view() == Seq::new(512, |i: int| 0u16),
    {
        ATTiny11 { state: CPUState::new(), flash: Flash::new() }
    }

    /// Runs one instruction.
    #[verifier::rlimit(40)]
    pub fn tick(&mut self) -> (r: Result<(), EmulatorError>)
        requires
            old(self).wf(),
            !old(self).tick_faults(),
        ensures
            final(self).wf(),
            final(self).flash == old(self).flash,
            (r, final(self).state@) == spec_tick(old(self).state@, old(self).flash.view()),
    {
        let opcode = match self.flash.read(self.state.program_counter) {
            Ok(opcode) => opcode,
            Err(e) => return Err(EmulatorError::Hardware(e)),
        };
        let instr = match Avr::decode(opcode) {
            Ok(instr) => instr,
            Err(e) => return Err(EmulatorError::Instruction(e)),
        };

        let processed = match instr {
            Avr::Add(add) => add.process(&mut self.state),
            Avr::Breq(breq) => breq.process(&mut self.state),
            Avr::Cp(cp) => cp.process(&mut self.state),
            Avr::Ldi(ldi) => ldi.process(&mut self.state),
        };
        if let Err(e) = processed {
            return Err(EmulatorError::Cpu(e));
        }

        self.state.program_counter += 1;
        Ok(())
    }
}

impl Default for ATTiny11 {
    fn default() -> (r: Self)
        ensures
            r.wf(),
            r.state.program_counter == 0,
            r.state.registries@ == Seq::new(32, |i: int| 0u8),
            !r.state.h && !r.state.s && !r.state.v && !r.state.n && !r.state.z && !r.state.c,
            r.flash.view() == Seq::new(512, |i: int| 0u16),
    {
        Self::new()
    }
}

/// A step that carries out anything but a branch moves the program counter
/// on by exactly one; a failed step leaves the state as it was.
pub proof fn lemma_tick_program_counter(st: CPUView, flash: Seq<u16>)
    requires
        st.program_counter < flash.len(),
        st.program_counter < usize::MAX,
    ensures
        ({
            let (r, next) = spec_tick(st, flash);
            match Avr::spec_decode(flash[st.program_counter as int]) {
                Ok(i) => !(i is Breq) ==> r is Ok && next.program_counter == st.program_counter + 1,
                Err(_) => r is Err && next == st,
            }
        }),
{
}

/// What one step does, by the instruction fetched at the program counter:
/// - ADD writes `Rd + Rr` (modulo 256, of the values before the step) to
///   `Rd`, keeps the other registers, and sets the carry, zero and signed
///   overflow flags from that sum;
/// - CP changes no register and sets the zero flag exactly when the two
///   registers are equal, and the carry flag when `Rr > Rd`;
/// - LDI writes its constant to `Rd` and keeps the flags;
/// - these three move the program counter on by one; BREQ moves it by its
///   offset plus one when the zero flag is set, by one otherwise;
/// - a word that does not decode changes nothing.
pub proof fn lemma_tick_effects(st: CPUView, flash: Seq<u16>)
    requires
        st.program_counter < flash.len(),
        st.program_counter < isize::MAX,
        st.registries.len() == 32,
    ensures
        ({
            let pc = st.program_counter;
            let regs = st.registries;
            let (r, next) = spec_tick(st, flash);
            match Avr::spec_decode(flash[pc as int]) {
                Err(e) => r == Err::<(), EmulatorError>(EmulatorError::Instruction(e)) && next == st,
                Ok(Avr::Add(a)) => {
                    let d = a.d.value() as int;
                    let (rd, rr) = (regs[d], regs[a.r.value() as int]);
                    &&& r is Ok
                    &&& next.program_counter == pc + 1
                    &&& next.registries.len() == 32
                    &&& next.registries[d] == (rd + rr) % 256
                    &&& forall|i: int| 0 <= i < 32 && i != d ==> next.registries[i] == regs[i]
                    &&& next.z == ((rd + rr) % 256 == 0)
                    &&& next.c == (rd + rr > 255)
                    &&& next.v == (signed_byte(rd) + signed_byte(rr) > 127 || signed_byte(rd) + signed_byte(rr) < -128)
                },
                Ok(Avr::Cp(c)) => {
                    let (rd, rr) = (regs[c.d.value() as int], regs[c.r.value() as int]);
                    &&& r is Ok
                    &&& next.program_counter == pc + 1
                    &&& next.registries == regs
                    &&& next.z == (rd == rr)
                    &&& next.c == (rr > rd)
                },
                Ok(Avr::Ldi(l)) => {
                    let d = l.d.value() as int;
                    &&& r is Ok
                    &&& next.program_counter == pc + 1
                    &&& next.registries.len() == 32
                    &&& next.registries[d] == l.k.value()
                    &&& forall|i: int| 0 <= i < 32 && i != d ==> next.registries[i] == regs[i]
                    &&& (next.h, next.s, next.v, next.n, next.z, next.c) == (st.h, st.s, st.v, st.n, st.z, st.c)
                },
                Ok(Avr::Breq(b)) => {
                    &&& r is Ok
                    &&& next.registries == regs
                    &&& st.z && 0 <= pc + b.k.value() ==> next.program_counter == pc + b.k.value() + 1
                    &&& !st.z ==> next.program_counter == pc + 1
                },
            }
        }),
{
    let pc = st.program_counter;
    let w = flash[pc as int];
    if Avr::spec_decode(w) is Ok {
        lemma_encode_decode(w);
        match Avr::spec_decode(w)->Ok_0 {
            Avr::Add(a) => lemma_add_effects(a, st),
            Avr::Cp(c) => lemma_cp_effects(c, st),
            Avr::Ldi(l) => lemma_ldi_effects(l, st),
            Avr::Breq(b) => if !st.z || 0 <= pc + b.k.value() {
                lemma_breq_effects(b, st);
            },
        }
    }
}

} // verus!
