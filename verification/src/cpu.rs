use vstd::prelude::*;
use crate::hardware::{CPUState, CPUView, add_flags, sub_flags, set_register, signed_byte, lemma_add_flags_meaning, lemma_sub_flags_meaning};
use crate::instruction::{Add, Breq, Cp, Ldi};

verus! {

/// Why an instruction could not be carried out. No instruction fails yet,
/// so no value of this type is ever made: its one field is private.
#[derive(Debug, Clone, Copy, PartialEq, Eq)]
pub struct CPUError {
    reason: (),
}

/// An instruction that acts on the processor state.
pub trait StateOp {
    /// Whether the instruction can be carried out on `state` without an
    /// arithmetic fault.
    spec fn can_process(&self, state: CPUView) -> bool;

    /// The state after the instruction.
    spec fn spec_process(&self, state: CPUView) -> CPUView;

    /// Carries out the instruction.
    fn process(&self, state: &mut CPUState<32>) -> (r: Result<(), CPUError>)
        requires
            old(state).wf(),
            self.can_process(old(state)@),
        ensures
            r is Ok,
            final(state).wf(),
            final(state)@ == self.spec_process(old(state)@),
    ;
}

/// `rd + rr` modulo 256.
pub open spec fn add_u8(rd: u8, rr: u8) -> u8 {
    ((rd + rr) % 256) as u8
}

/// `rd - rr` modulo 256.
pub open spec fn sub_u8(rd: u8, rr: u8) -> u8 {
    ((rd - rr + 256) % 256) as u8
}

impl StateOp for Add {
    open spec fn can_process(&self, state: CPUView) -> bool {
        true
    }

    /// `Rd <- Rd + Rr`, with the addition flags.
    open spec fn spec_process(&self, state: CPUView) -> CPUView {
        let rd = state.registries[self.d.value() as int];
        let rr = state.registries[self.r.value() as int];
        let r = add_u8(rd, rr);
        add_flags(set_register(state, self.d.value() as int, r), rd, rr, r)
    }

    fn process(&self, state: &mut CPUState<32>) -> (r: Result<(), CPUError>) {
        let rd = state.get_checked(self.d.inner() as u8);
        let rr = state.get_checked(self.r.inner() as u8);
        let r = rd.wrapping_add(rr);

        state.set_checked(self.d.inner() as u8, r);
        state.set_add_flags(rd, rr, r);
        Ok(())
    }
}

/// Where the program counter goes after `BREQ k` taken at `pc`: the offset is
/// added in signed arithmetic and the sum read back as an address.
pub open spec fn branch_target(pc: usize, k: i16) -> usize {
    ((pc as isize) + k) as usize
}

impl StateOp for Breq {
    /// The sum of the program counter, read as a signed number, and the
    /// offset does not overflow.
    open spec fn can_process(&self, state: CPUView) -> bool {
        state.z ==> isize::MIN <= (state.program_counter as isize) + self.k.value() <= isize::MAX
    }

    /// `PC <- PC + k` when the zero flag is set.
    open spec fn spec_process(&self, state: CPUView) -> CPUView {
        if state.z {
            CPUView { program_counter: branch_target(state.program_counter, self.k.value()), ..state }
        } else {
            state
        }
    }

    fn process(&self, state: &mut CPUState<32>) -> (r: Result<(), CPUError>) {
        if state.z {
            let pc = state.program_counter as isize;
            let change = self.k.inner() as isize;
            let new = pc + change;
            state.program_counter = new as usize;
        }
        Ok(())
    }
}

impl StateOp for Cp {
    open spec fn can_process(&self, state: CPUView) -> bool {
        true
    }

    /// Sets the flags of `Rd - Rr`; no register changes.
    open spec fn spec_process(&self, state: CPUView) -> CPUView {
        let rd = state.registries[self.d.value() as int];
        let rr = state.registries[self.r.value() as int];
        sub_flags(state, rd, rr, sub_u8(rd, rr))
    }

    fn process(&self, state: &mut CPUState<32>) -> (r: Result<(), CPUError>) {
        let rr = state.get_checked(self.r.inner() as u8);
        let rd = state.get_checked(self.d.inner() as u8);
        let r = rd.wrapping_sub(rr);
        state.set_sub_flags(rd, rr, r);
        Ok(())
    }
}

impl StateOp for Ldi {
    open spec fn can_process(&self, state: CPUView) -> bool {
        true
    }

    /// `Rd <- K`.
    open spec fn spec_process(&self, state: CPUView) -> CPUView {
        set_register(state, self.d.value() as int, self.k.value() as u8)
    }

    fn process(&self, state: &mut CPUState<32>) -> (r: Result<(), CPUError>) {
        state.set_checked(self.d.inner() as u8, self.k.inner() as u8);
        Ok(())
    }
}

/// A comparison changes no register and does not move the program counter;
/// a load changes only its target register.
pub proof fn lemma_cp_ldi_effects(cp: Cp, ldi: Ldi, st: CPUView)
    requires
        ldi.d.value() < st.registries.len(),
    ensures
        cp.spec_process(st).registries == st.registries,
        cp.spec_process(st).program_counter == st.program_counter,
        ldi.spec_process(st).program_counter == st.program_counter,
        ldi.spec_process(st).registries.len() == st.registries.len(),
        forall|i: int| 0 <= i < st.registries.len() && i != ldi.d.value() ==> ldi.spec_process(st).registries[i] == st.registries[i],
        (ldi.spec_process(st).h, ldi.spec_process(st).s, ldi.spec_process(st).v, ldi.spec_process(st).n, ldi.spec_process(st).z, ldi.spec_process(st).c) == (st.h, st.s, st.v, st.n, st.z, st.c),
{
}

/// ADD adds the two registers as they held before the instruction, also
/// when both operands are the same register: `Rd` gets the sum modulo 256,
/// no other register and not the program counter changes, and the flags
/// tell the carry out of bits 3 and 7, signed overflow, a zero or negative
/// result, and the sign of the true signed sum.
pub proof fn lemma_add_effects(a: Add, st: CPUView)
    requires
        a.d.value() < st.registries.len(),
        a.r.value() < st.registries.len(),
    ensures
        ({
            let d = a.d.value() as int;
            let rd = st.registries[d];
            let rr = st.registries[a.r.value() as int];
            let after = a.spec_process(st);
            &&& after.registries.len() == st.registries.len()
            &&& after.registries[d] == (rd + rr) % 256
            &&& forall|i: int| 0 <= i < st.registries.len() && i != d ==> after.registries[i] == st.registries[i]
            &&& after.program_counter == st.program_counter
            &&& after.c == (rd + rr > 255)
            &&& after.h == (rd % 16 + rr % 16 > 15)
            &&& after.v == (signed_byte(rd) + signed_byte(rr) > 127 || signed_byte(rd) + signed_byte(rr) < -128)
            &&& after.z == ((rd + rr) % 256 == 0)
            &&& after.n == ((rd + rr) % 256 >= 128)
            &&& after.s == (signed_byte(rd) + signed_byte(rr) < 0)
        }),
{
    let d = a.d.value() as int;
    let rd = st.registries[d];
    let rr = st.registries[a.r.value() as int];
    let r = add_u8(rd, rr);
    lemma_add_flags_meaning(set_register(st, d, r), rd, rr);
}

/// CP compares two registers: no register and not the program counter
/// changes, and the flags tell equality, a borrow into bits 3 and 7, signed
/// overflow of `Rd - Rr`, a negative result byte, and the sign of the true
/// signed difference.
pub proof fn lemma_cp_effects(c: Cp, st: CPUView)
    requires
        c.d.value() < st.registries.len(),
        c.r.value() < st.registries.len(),
    ensures
        ({
            let rd = st.registries[c.d.value() as int];
            let rr = st.registries[c.r.value() as int];
            let after = c.spec_process(st);
            &&& after.registries == st.registries
            &&& after.program_counter == st.program_counter
            &&& after.z == (rd == rr)
            &&& after.c == (rr > rd)
            &&& after.h == (rr % 16 > rd % 16)
            &&& after.v == (signed_byte(rd) - signed_byte(rr) > 127 || signed_byte(rd) - signed_byte(rr) < -128)
            &&& after.n == ((rd - rr + 256) % 256 >= 128)
            &&& after.s == (signed_byte(rd) - signed_byte(rr) < 0)
        }),
{
    let rd = st.registries[c.d.value() as int];
    let rr = st.registries[c.r.value() as int];
    lemma_sub_flags_meaning(st, rd, rr);
}

/// LDI puts its constant in its register and changes nothing else.
pub proof fn lemma_ldi_effects(l: Ldi, st: CPUView)
    requires
        l.d.value() < st.registries.len(),
        l.k.value() <= 255,
    ensures
        ({
            let d = l.d.value() as int;
            let after = l.spec_process(st);
            &&& after.registries.len() == st.registries.len()
            &&& after.registries[d] == l.k.value()
            &&& forall|i: int| 0 <= i < st.registries.len() && i != d ==> after.registries[i] == st.registries[i]
            &&& after.program_counter == st.program_counter
            &&& (after.h, after.s, after.v, after.n, after.z, after.c) == (st.h, st.s, st.v, st.n, st.z, st.c)
        }),
{
}

/// BREQ moves the program counter by its offset, forwards or backwards,
/// when the zero flag is set, and leaves it alone otherwise; registers and
/// flags stay as they were.
pub proof fn lemma_breq_effects(b: Breq, st: CPUView)
    requires
        st.program_counter <= isize::MAX,
        st.z ==> 0 <= st.program_counter + b.k.value(),
    ensures
        ({
            let after = b.spec_process(st);
            &&& st.z ==> after.program_counter == st.program_counter + b.k.value()
            &&& !st.z ==> after.program_counter == st.program_counter
            &&& after.registries == st.registries
            &&& (after.h, after.s, after.v, after.n, after.z, after.c) == (st.h, st.s, st.v, st.n, st.z, st.c)
        }),
{
}

} // verus!
