use vstd::prelude::*;

verus! {

/// Why a hardware access failed.
#[derive(Debug, Clone, Copy, PartialEq, Eq, Structural)]
pub enum HardwareError {
    OutOfRange,
}

/// The state of the processor: program counter, register file and status flags.
#[derive(Debug, Clone)]
pub struct CPUState<const REGS: usize> {
    /// Instruction pointer
    pub program_counter: usize,
    /// Registers
    pub registries: Vec<u8>,
    /// Half carry flag
    pub h: bool,
    /// Sign flag
    pub s: bool,
    /// Two's complement overflow flag
    pub v: bool,
    /// Negative flag
    pub n: bool,
    /// Zero flag
    pub z: bool,
    /// Carry flag
    pub c: bool,
}

/// Bit 7 of a byte: its sign bit.
pub open spec fn bit7(x: u8) -> bool {
    x >= 128
}

/// Bit 3 of a byte: the top bit of its low nibble.
pub open spec fn bit3(x: u8) -> bool {
    (x / 8) % 2 == 1
}

/// A byte read as a two's complement number.
pub open spec fn signed_byte(x: u8) -> int {
    if x >= 128 { x - 256 } else { x as int }
}

/// The abstract processor state: what `CPUState` holds, with the register
/// file as a sequence.
pub struct CPUView {
    pub program_counter: usize,
    pub registries: Seq<u8>,
    pub h: bool,
    pub s: bool,
    pub v: bool,
    pub n: bool,
    pub z: bool,
    pub c: bool,
}

impl<const REGS: usize> View for CPUState<REGS> {
    type V = CPUView;

    open spec fn view(&self) -> CPUView {
        CPUView {
            program_counter: self.program_counter,
            registries: self.registries@,
            h: self.h,
            s: self.s,
            v: self.v,
            n: self.n,
            z: self.z,
            c: self.c,
        }
    }
}

/// The status flags after an addition `rd + rr = r`, as the AVR instruction
/// set defines them from bits 3 and 7 of the operands and the result.
pub open spec fn add_flags(st: CPUView, rd: u8, rr: u8, r: u8) -> CPUView {
    let (rd3, rr3, r3) = (bit3(rd), bit3(rr), bit3(r));
    let (rd7, rr7, r7) = (bit7(rd), bit7(rr), bit7(r));
    let n = bit7(r);
    let v = (rd7 && rr7 && !r7) || (!rd7 && !rr7 && r7);
    CPUView {
        z: r == 0,
        n: n,
        c: (rd7 && rr7) || (rr7 && !r7) || (rd7 && !r7),
        h: (rd3 && rr3) || (rr3 && !r3) || (!r3 && rd3),
        v: v,
        s: n != v,
        ..st
    }
}

/// The status flags after a comparison `rd - rr = r`, as the AVR instruction
/// set defines them; the negative flag is bit 7 of the result.
pub open spec fn sub_flags(st: CPUView, rd: u8, rr: u8, r: u8) -> CPUView {
    let n = bit7(r);
    let v = bit7(rd) != bit7(rr) && bit7(rd) != bit7(r);
    CPUView {
        c: r > rd,
        h: rr % 16 > rd % 16,
        n: n,
        z: r == 0,
        v: v,
        s: n != v,
        ..st
    }
}

/// The state with register `index` holding `value`.
pub open spec fn set_register(st: CPUView, index: int, value: u8) -> CPUView {
    CPUView { registries: st.registries.update(index, value), ..st }
}

impl<const REGS: usize> CPUState<REGS> {
    /// The register file has `REGS` registers.
    pub open spec fn wf(&self) -> bool {
        self.registries@.len() == REGS
    }

    /// A processor with every register and flag cleared.
    pub fn new() -> (r: Self)
        ensures
            r.wf(),
            r.program_counter == 0,
            r.registries@ == Seq::new(REGS as nat, |i: int| 0u8),
            !r.h && !r.s && !r.v && !r.n && !r.z && !r.c,
    {
        let mut registries: Vec<u8> = Vec::new();
        let mut i: usize = 0;
        while i < REGS
            invariant
                i <= REGS,
                registries@ == Seq::new(i as nat, |j: int| 0u8),
            decreases REGS - i,
        {
            registries.push(0);
            i = i + 1;
        }
        Self { program_counter: 0, registries, h: false, s: false, v: false, n: false, z: false, c: false }
    }

    /// The value of register `index`.
    pub fn get_checked(&self, index: u8) -> (r: u8)
        requires
            (index as int) < self.registries@.len(),
        ensures
            r == self.registries@[index as int],
    {
        self.registries[index as usize]
    }

    /// Stores `value` in register `index`.
    pub fn set_checked(&mut self, index: u8, value: u8)
        requires
            (index as int) < old(self).registries@.len(),
        ensures
            final(self)@ == set_register(old(self)@, index as int, value),
    {
        self.registries.set(index as usize, value);
    }

    /// Sets the status flags for the addition `rd + rr = r`.
    pub fn set_add_flags(&mut self, rd: u8, rr: u8, r: u8)
        ensures
            final(self)@ == add_flags(old(self)@, rd, rr, r),
    {
        proof {
            lemma_bit_tests(rd);
            lemma_bit_tests(rr);
            lemma_bit_tests(r);
        }
        let rd3 = (rd >> 3) & 1 != 0;
        let rr3 = (rr >> 3) & 1 != 0;
        let r3 = (r >> 3) & 1 != 0;
        let rd7 = (rd >> 7) & 1 != 0;
        let rr7 = (rr >> 7) & 1 != 0;
        let r7 = (r >> 7) & 1 != 0;

        self.z = r == 0;
        self.n = (r & 0x80) != 0;
        self.c = (rd7 && rr7) || (rr7 && !r7) || (rd7 && !r7);
        self.h = (rd3 && rr3) || (rr3 && !r3) || (!r3 && rd3);
        self.v = (rd7 && rr7 && !r7) || (!rd7 && !rr7 && r7);
        self.s = self.n != self.v;
    }

    /// Sets the status flags for the subtraction `rd - rr = r`.
    pub fn set_sub_flags(&mut self, rd: u8, rr: u8, r: u8)
        ensures
            final(self)@ == sub_flags(old(self)@, rd, rr, r),
    {
        proof {
            lemma_bit_tests(rd);
            lemma_bit_tests(rr);
            lemma_bit_tests(r);
            assert((((rd ^ rr) & (rd ^ r) & 0x80) != 0) == (((rd >> 7) & 1 != 0) != ((rr >> 7) & 1 != 0) && ((rd >> 7) & 1 != 0) != ((r >> 7) & 1 != 0))) by (bit_vector);
            assert(rr & 0x0f == rr % 16) by (bit_vector);
            assert(rd & 0x0f == rd % 16) by (bit_vector);
        }
        self.c = r > rd;
        self.h = (rr & 0x0f) > (rd & 0x0f);
        self.n = (r & 0x80) != 0;
        self.z = r == 0;
        self.v = ((rd ^ rr) & (rd ^ r) & 0x80) != 0;
        self.s = self.n != self.v;
    }
}

impl<const REGS: usize> Default for CPUState<REGS> {
    fn default() -> (r: Self)
        ensures
            r.wf(),
            r.program_counter == 0,
            r.registries@ == Seq::new(REGS as nat, |i: int| 0u8),
            !r.h && !r.s && !r.v && !r.n && !r.z && !r.c,
    {
        Self::new()
    }
}

/// The bit tests of the flag computations, in arithmetic terms.
proof fn lemma_bit_tests(x: u8)
    ensures
        ((x >> 3) & 1 != 0) == bit3(x),
        ((x >> 7) & 1 != 0) == bit7(x),
        ((x & 0x80) != 0) == bit7(x),
{
    assert(((x >> 3) & 1 != 0) == ((x / 8) % 2 == 1)) by (bit_vector);
    assert(((x >> 7) & 1 != 0) == (x >= 128)) by (bit_vector);
    assert(((x & 0x80) != 0) == (x >= 128)) by (bit_vector);
}

/// The flags of an addition tell what happened in the arithmetic: carry out
/// of bit 7 and bit 3, signed overflow, a zero or negative result.
pub proof fn lemma_add_flags_meaning(st: CPUView, rd: u8, rr: u8)
    ensures
        ({
            let r = ((rd + rr) % 256) as u8;
            let f = add_flags(st, rd, rr, r);
            &&& f.c == (rd + rr > 255)
            &&& f.h == (rd % 16 + rr % 16 > 15)
            &&& f.v == (signed_byte(rd) + signed_byte(rr) > 127 || signed_byte(rd) + signed_byte(rr) < -128)
            &&& f.z == (r == 0)
            &&& f.n == (signed_byte(r) < 0)
            &&& f.s == (signed_byte(rd) + signed_byte(rr) < 0)
        }),
{
    let r = ((rd + rr) % 256) as u8;
    assert(r == ((rd + rr) % 256) as u8);
    assert({
        let r = ((rd + rr) % 256) as u8;
        &&& ((rd >= 128 && rr >= 128) || (rr >= 128 && !(r >= 128)) || (rd >= 128 && !(r >= 128))) == (rd + rr > 255)
        &&& (((rd / 8) % 2 == 1 && (rr / 8) % 2 == 1) || ((rr / 8) % 2 == 1 && !((r / 8) % 2 == 1)) || (!((r / 8) % 2 == 1) && (rd / 8) % 2 == 1)) == (rd % 16 + rr % 16 > 15)
    }) by (bit_vector);
    assert(r == rd + rr || r == rd + rr - 256);
}

/// The flags of a comparison tell what happened in the arithmetic: a borrow
/// into bit 7 and bit 3, signed overflow, equal operands, a negative
/// result byte, and the sign of the true signed difference.
pub proof fn lemma_sub_flags_meaning(st: CPUView, rd: u8, rr: u8)
    ensures
        ({
            let r = ((rd - rr + 256) % 256) as u8;
            let f = sub_flags(st, rd, rr, r);
            &&& f.c == (rr > rd)
            &&& f.h == (rr % 16 > rd % 16)
            &&& f.v == (signed_byte(rd) - signed_byte(rr) > 127 || signed_byte(rd) - signed_byte(rr) < -128)
            &&& f.z == (rd == rr)
            &&& f.n == (signed_byte(r) < 0)
            &&& f.s == (signed_byte(rd) - signed_byte(rr) < 0)
        }),
{
    let r = ((rd - rr + 256) % 256) as u8;
    assert(r == rd - rr || r == rd - rr + 256);
}

/// Program memory of `SIZE` words.
#[derive(Debug, Clone)]
pub struct Flash<const SIZE: usize>(Vec<u16>);

impl<const SIZE: usize> View for Flash<SIZE> {
    type V = Seq<u16>;

    /// The words in memory.
    closed spec fn view(&self) -> Seq<u16> {
        self.0@
    }
}

impl<const SIZE: usize> Flash<SIZE> {
    /// The memory holds `SIZE` words.
    pub closed spec fn wf(self) -> bool {
        self.0@.len() == SIZE
    }

    /// Well-formed memory holds `SIZE` words.
    pub proof fn lemma_wf(self)
        requires
            self.wf(),
        ensures
            self@.len() == SIZE,
    {
    }

    /// Memory filled with zero words.
    pub fn new() -> (r: Self)
        ensures
            r.wf(),
            r.view() == Seq::new(SIZE as nat, |i: int| 0u16),
    {
        let mut words: Vec<u16> = Vec::new();
        let mut i: usize = 0;
        while i < SIZE
            invariant
                i <= SIZE,
                words@ == Seq::new(i as nat, |j: int| 0u16),
            decreases SIZE - i,
        {
            words.push(0);
            i = i + 1;
        }
        Self(words)
    }

    /// The memory holds `SIZE` words.
    pub fn len(&self) -> (r: usize)
        requires
            self.wf(),
        ensures
            r == SIZE,
            self.view().len() == SIZE,
    {
        self.0.len()
    }

    /// Writes `data` at the start of memory; fails, changing nothing, when it
    /// does not fit.
    pub fn load(&mut self, data: &[u16]) -> (r: Result<(), HardwareError>)
        requires
            old(self).wf(),
        ensures
            final(self).wf(),
            old(self).view().len() == SIZE,
            data@.len() > SIZE ==> r == Err::<(), HardwareError>(HardwareError::OutOfRange) && final(self).view() == old(self).view(),
            data@.len() <= SIZE ==> r is Ok && final(self).view() == data@ + old(self).view().skip(data@.len() as int),
    {
        if data.len() > SIZE {
            return Err(HardwareError::OutOfRange);
        }
        let ghost before = self.0@;
        let mut i: usize = 0;
        while i < data.len()
            invariant
                before.len() == SIZE,
                data@.len() <= SIZE,
                i <= data@.len(),
                self.0@ == data@.take(i as int) + before.skip(i as int),
            decreases data@.len() - i,
        {
            self.0.set(i, data[i]);
            i = i + 1;
            proof {
                assert(self.0@ =~= data@.take(i as int) + before.skip(i as int));
            }
        }
        proof {
            assert(data@.take(i as int) =~= data@);
        }
        Ok(())
    }

    /// The word at `addr`; addresses at or past the end are refused.
    pub fn read(&self, addr: usize) -> (r: Result<u16, HardwareError>)
        requires
            self.wf(),
        ensures
            self@.len() == SIZE,
            addr >= SIZE ==> r == Err::<u16, HardwareError>(HardwareError::OutOfRange),
            addr < SIZE ==> r == Ok::<u16, HardwareError>(self@[addr as int]),
    {
        if addr >= self.0.len() {
            return Err(HardwareError::OutOfRange);
        }
        Ok(self.0[addr])
    }
}

impl<const SIZE: usize> Default for Flash<SIZE> {
    fn default() -> (r: Self)
        ensures
            r.wf(),
            r.view() == Seq::new(SIZE as nat, |i: int| 0u16),
    {
        Self::new()
    }
}

/// A read after a load gives back the loaded word where the data reached,
/// and the earlier word beyond it: the memory that `load` leaves is
/// `data + before.skip(data.len())`.
pub proof fn lemma_read_after_load(before: Seq<u16>, data: Seq<u16>, addr: int)
    requires
        data.len() <= before.len(),
        0 <= addr < before.len(),
    ensures
        ({
            let after = data + before.skip(data.len() as int);
            &&& after.len() == before.len()
            &&& addr < data.len() ==> after[addr] == data[addr]
            &&& addr >= data.len() ==> after[addr] == before[addr]
        }),
{
}

} // verus!
