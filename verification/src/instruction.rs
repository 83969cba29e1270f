use vstd::prelude::*;
use vstd::arithmetic::power2::pow2;
use crate::bit::{self, pext, pdep, popcount, lemma_pext_bound, lemma_pext_and, lemma_pext_pdep, lemma_pdep_pext, lemma_pdep_within, lemma_pdep_low_bits};
use crate::types::{IntegerError, Signed, Unsigned, unsigned_of, signed_of, lemma_unsigned_ext, lemma_signed_ext, lemma_unsigned_of, lemma_signed_of, sign_extend, lemma_as_i16};

verus! {

/// A register operand: `r0` to `r31`.
pub type Register = Unsigned<0, 31, 0>;

/// An upper register operand: `r16` to `r31`, encoded as its distance from `r16`.
pub type UpperRegister = Unsigned<16, 31, 16>;

/// An eight-bit immediate operand.
pub type Immediate = Unsigned<0, 255, 0>;

/// A seven-bit signed branch offset.
pub type BranchOffset = Signed<7, 0x8000, 0x7fff, 0>;

/// Why an opcode could not be decoded.
#[derive(Debug, Clone, Copy, PartialEq, Eq, Structural)]
pub enum InstructionError {
    Conversion(IntegerError),
    UnknownInstruction(u16),
}

/// The number of one bits of each operand mask, and the powers of two they give.
proof fn lemma_masks()
    ensures
        popcount(0x01F0) == 5,
        popcount(0x020F) == 5,
        popcount(0x03F8) == 7,
        popcount(0x00F0) == 4,
        popcount(0x0F0F) == 8,
        pow2(4) == 16,
        pow2(5) == 32,
        pow2(6) == 64,
        pow2(7) == 128,
        pow2(8) == 256,
{
    reveal_with_fuel(popcount, 13);
    vstd::arithmetic::power2::lemma2_to64();
}

/// `ADD Rd, Rr`: adds two registers.
#[derive(Debug, Copy, Clone, PartialEq, PartialOrd)]
pub struct Add {
    pub d: Register,
    pub r: Register,
}

/// `BREQ k`: branches by `k` when the zero flag is set.
#[derive(Debug, Copy, Clone, PartialEq, PartialOrd)]
pub struct Breq {
    pub k: BranchOffset,
}

/// `CP Rd, Rr`: compares two registers.
#[derive(Debug, Copy, Clone, PartialEq, PartialOrd)]
pub struct Cp {
    pub d: Register,
    pub r: Register,
}

/// `LDI Rd, K`: loads an immediate into an upper register.
#[derive(Debug, Copy, Clone, PartialEq, PartialOrd)]
pub struct Ldi {
    pub d: UpperRegister,
    pub k: Immediate,
}

/// The value that a `Register` decoded from `bits` holds.
pub open spec fn register_of(bits: nat) -> Register {
    unsigned_of::<0, 31, 0>(bits as u16)
}

/// Packs two register operands into an opcode.
pub open spec fn encode_two(code: u16, first: u16, first_mask: u16, second: u16, second_mask: u16) -> u16 {
    ((code as u32) | (pdep(first as u32, first_mask as u32) as u32) | (pdep(second as u32, second_mask as u32) as u32)) as u16
}

impl Add {
    pub const MASK_I: u16 = 0b1111_1100_0000_0000;
    pub const CODE: u16 = 0b0000_1100_0000_0000;
    pub const MASK_D: u16 = 0b0000_0001_1111_0000;
    pub const MASK_R: u16 = 0b0000_0010_0000_1111;

    pub open spec fn spec_decode(value: u16) -> Add {
        Add { d: register_of(pext(value as u32, 0x01F0)), r: register_of(pext(value as u32, 0x020F)) }
    }

    pub open spec fn spec_encode(self) -> u16 {
        encode_two(0x0C00, self.d.value(), 0x01F0, self.r.value(), 0x020F)
    }

    /// Whether every operand lies in its range.
    pub open spec fn valid(self) -> bool {
        self.d.value() <= 31 && self.r.value() <= 31
    }

    pub fn new(d: Register, r: Register) -> (i: Self)
        ensures
            i == (Add { d, r }),
    {
        Self { d, r }
    }

    /// Reads the operands out of an opcode; the opcode's own bits are not checked.
    pub fn decode(value: u16) -> (r: Result<Self, InstructionError>)
        ensures
            r == Ok::<Self, InstructionError>(Self::spec_decode(value)),
    {
        let (d, r) = decode_two_registers(value, Self::MASK_D, Self::MASK_R);
        Ok(Self { d, r })
    }

    /// The opcode of the instruction.
    pub fn encode(&self) -> (r: u16)
        ensures
            r == self.spec_encode(),
    {
        encode_two_registers(Self::CODE, self.d, Self::MASK_D, self.r, Self::MASK_R)
    }
}

impl Cp {
    pub const MASK_I: u16 = 0b1111_1100_0000_0000;
    pub const CODE: u16 = 0b0001_0100_0000_0000;
    pub const MASK_D: u16 = 0b0000_0001_1111_0000;
    pub const MASK_R: u16 = 0b0000_0010_0000_1111;

    pub open spec fn spec_decode(value: u16) -> Cp {
        Cp { d: register_of(pext(value as u32, 0x01F0)), r: register_of(pext(value as u32, 0x020F)) }
    }

    pub open spec fn spec_encode(self) -> u16 {
        encode_two(0x1400, self.d.value(), 0x01F0, self.r.value(), 0x020F)
    }

    /// Whether every operand lies in its range.
    pub open spec fn valid(self) -> bool {
        self.d.value() <= 31 && self.r.value() <= 31
    }

    pub fn new(d: Register, r: Register) -> (i: Self)
        ensures
            i == (Cp { d, r }),
    {
        Self { d, r }
    }

    /// Reads the operands out of an opcode; the opcode's own bits are not checked.
    pub fn decode(value: u16) -> (r: Result<Self, InstructionError>)
        ensures
            r == Ok::<Self, InstructionError>(Self::spec_decode(value)),
    {
        let (d, r) = decode_two_registers(value, Self::MASK_D, Self::MASK_R);
        Ok(Self { d, r })
    }

    /// The opcode of the instruction.
    pub fn encode(&self) -> (r: u16)
        ensures
            r == self.spec_encode(),
    {
        encode_two_registers(Self::CODE, self.d, Self::MASK_D, self.r, Self::MASK_R)
    }
}

/// Extracts two five-bit register operands.
fn decode_two_registers(value: u16, mask_d: u16, mask_r: u16) -> (r: (Register, Register))
    requires
        mask_d == 0x01F0,
        mask_r == 0x020F,
    ensures
        r.0 == register_of(pext(value as u32, 0x01F0)),
        r.1 == register_of(pext(value as u32, 0x020F)),
{
    proof {
        lemma_masks();
        lemma_pext_bound(value as u32, 0x01F0);
        lemma_pext_bound(value as u32, 0x020F);
    }
    let d = bit::pext_u32(value as u32, mask_d as u32);
    let d = Register::try_from(d).unwrap();
    let r = bit::pext_u32(value as u32, mask_r as u32);
    let r = Register::try_from(r).unwrap();
    (d, r)
}

/// Packs two register operands behind an opcode's own bits.
fn encode_two_registers(code: u16, d: Register, mask_d: u16, r: Register, mask_r: u16) -> (o: u16)
    requires
        mask_d == 0x01F0,
        mask_r == 0x020F,
    ensures
        o == encode_two(code, d.value(), mask_d, r.value(), mask_r),
{
    let pd = bit::pdep_u32(d.into(), mask_d as u32);
    let pr = bit::pdep_u32(r.into(), mask_r as u32);
    proof {
        lemma_pdep_within(d.value() as u32, 0x01F0);
        lemma_pdep_within(r.value() as u32, 0x020F);
    }
    ((code as u32) | pd | pr) as u16
}

impl Breq {
    pub const MASK_I: u16 = 0b1111_1100_0000_0111;
    pub const CODE: u16 = 0b1111_0000_0000_0001;
    pub const MASK_K: u16 = 0b0000_0011_1111_1000;

    pub open spec fn spec_decode(value: u16) -> Breq {
        Breq { k: signed_of::<7, 0x8000, 0x7fff, 0>(sign_extend(pext(value as u32, 0x03F8) as int, 7) as i16) }
    }

    pub open spec fn spec_encode(self) -> u16 {
        ((0xF001u32) | (pdep((self.k.value() as u16) as u32, 0x03F8) as u32)) as u16
    }

    /// Whether the offset fits in seven bits.
    pub open spec fn valid(self) -> bool {
        -64 <= self.k.value() <= 63
    }

    pub fn new(k: BranchOffset) -> (i: Self)
        ensures
            i == (Breq { k }),
    {
        Self { k }
    }

    /// Reads the offset out of an opcode; the opcode's own bits are not checked.
    pub fn decode(value: u16) -> (r: Result<Self, InstructionError>)
        ensures
            r == Ok::<Self, InstructionError>(Self::spec_decode(value)),
    {
        proof {
            lemma_masks();
            lemma_pext_bound(value as u32, 0x03F8);
        }
        let k = bit::pext_u32(value as u32, Self::MASK_K as u32);
        proof {
            assert((k / 128) % 2 == 0);
        }
        let k = BranchOffset::try_from(k).unwrap();
        proof {
            lemma_as_i16(0x8000);
            lemma_as_i16(0x7fff);
            lemma_signed_ext(k, signed_of::<7, 0x8000, 0x7fff, 0>(sign_extend(pext(value as u32, 0x03F8) as int, 7) as i16));
        }
        Ok(Self { k })
    }

    /// The opcode of the instruction.
    pub fn encode(&self) -> (r: u16)
        ensures
            r == self.spec_encode(),
    {
        let pk = bit::pdep_u32(self.k.into(), Self::MASK_K as u32);
        proof {
            lemma_pdep_within((self.k.value() as u16) as u32, 0x03F8);
        }
        (Self::CODE as u32 | pk) as u16
    }
}

impl Ldi {
    pub const MASK_I: u16 = 0b1111_0000_0000_0000;
    pub const CODE: u16 = 0b1110_0000_0000_0000;
    pub const MASK_D: u16 = 0b0000_0000_1111_0000;
    pub const MASK_K: u16 = 0b0000_1111_0000_1111;

    pub open spec fn spec_decode(value: u16) -> Ldi {
        Ldi {
            d: unsigned_of::<16, 31, 16>((pext(value as u32, 0x00F0) + 16) as u16),
            k: unsigned_of::<0, 255, 0>(pext(value as u32, 0x0F0F) as u16),
        }
    }

    pub open spec fn spec_encode(self) -> u16 {
        encode_two(0xE000, self.d.value(), 0x00F0, self.k.value(), 0x0F0F)
    }

    /// Whether every operand lies in its range.
    pub open spec fn valid(self) -> bool {
        16 <= self.d.value() <= 31 && self.k.value() <= 255
    }

    pub fn new(d: UpperRegister, k: Immediate) -> (i: Self)
        ensures
            i == (Ldi { d, k }),
    {
        Self { d, k }
    }

    /// Reads the operands out of an opcode; the opcode's own bits are not checked.
    pub fn decode(value: u16) -> (r: Result<Self, InstructionError>)
        ensures
            r == Ok::<Self, InstructionError>(Self::spec_decode(value)),
    {
        proof {
            lemma_masks();
            lemma_pext_bound(value as u32, 0x00F0);
            lemma_pext_bound(value as u32, 0x0F0F);
        }
        let d = bit::pext_u32(value as u32, Self::MASK_D as u32);
        let d = UpperRegister::try_from(d).unwrap();
        let k = bit::pext_u32(value as u32, Self::MASK_K as u32);
        let k = Immediate::try_from(k).unwrap();
        proof {
            lemma_unsigned_ext(d, unsigned_of::<16, 31, 16>((pext(value as u32, 0x00F0) + 16) as u16));
            lemma_unsigned_ext(k, unsigned_of::<0, 255, 0>(pext(value as u32, 0x0F0F) as u16));
        }
        Ok(Self { d, k })
    }

    /// The opcode of the instruction.
    pub fn encode(&self) -> (r: u16)
        ensures
            r == self.spec_encode(),
    {
        let pd = bit::pdep_u32(self.d.into(), Self::MASK_D as u32);
        let pk = bit::pdep_u32(self.k.into(), Self::MASK_K as u32);
        (Self::CODE as u32 | pd | pk) as u16
    }
}

/// The instructions of the AVR core that this emulator runs.
#[derive(Debug, Copy, Clone, PartialEq, PartialOrd)]
pub enum Avr {
    Add(Add),
    Breq(Breq),
    Cp(Cp),
    Ldi(Ldi),
}

/// Whether the opcode bits under `mask` are those of `code`.
pub open spec fn matches_code(value: u16, mask: u16, code: u16) -> bool {
    value & mask == code
}

impl Avr {
    /// The instruction an opcode stands for: the first whose own bits match.
    pub open spec fn spec_decode(value: u16) -> Result<Avr, InstructionError> {
        if matches_code(value, 0xFC00, 0x0C00) {
            Ok(Avr::Add(Add::spec_decode(value)))
        } else if matches_code(value, 0xFC07, 0xF001) {
            Ok(Avr::Breq(Breq::spec_decode(value)))
        } else if matches_code(value, 0xFC00, 0x1400) {
            Ok(Avr::Cp(Cp::spec_decode(value)))
        } else if matches_code(value, 0xF000, 0xE000) {
            Ok(Avr::Ldi(Ldi::spec_decode(value)))
        } else {
            Err(InstructionError::UnknownInstruction(value))
        }
    }

    pub open spec fn spec_encode(self) -> u16 {
        match self {
            Avr::Add(i) => i.spec_encode(),
            Avr::Breq(i) => i.spec_encode(),
            Avr::Cp(i) => i.spec_encode(),
            Avr::Ldi(i) => i.spec_encode(),
        }
    }

    /// Whether every operand lies in its range.
    pub open spec fn valid(self) -> bool {
        match self {
            Avr::Add(i) => i.valid(),
            Avr::Breq(i) => i.valid(),
            Avr::Cp(i) => i.valid(),
            Avr::Ldi(i) => i.valid(),
        }
    }

    /// Decodes an opcode into an instruction.
    pub fn decode(value: u16) -> (r: Result<Self, InstructionError>)
        ensures
            r == Self::spec_decode(value),
    {
        let i = if value & Add::MASK_I == Add::CODE {
            Avr::Add(Add::decode(value)?)
        } else if value & Breq::MASK_I == Breq::CODE {
            Avr::Breq(Breq::decode(value)?)
        } else if value & Cp::MASK_I == Cp::CODE {
            Avr::Cp(Cp::decode(value)?)
        } else if value & Ldi::MASK_I == Ldi::CODE {
            Avr::Ldi(Ldi::decode(value)?)
        } else {
            return Err(InstructionError::UnknownInstruction(value));
        };
        Ok(i)
    }

    /// The opcode of an instruction.
    pub fn encode(&self) -> (r: u16)
        ensures
            r == self.spec_encode(),
    {
        match self {
            Avr::Add(i) => i.encode(),
            Avr::Breq(i) => i.encode(),
            Avr::Cp(i) => i.encode(),
            Avr::Ldi(i) => i.encode(),
        }
    }
}

/// How the opcode and operand masks of each instruction divide the word.
proof fn lemma_mask_facts()
    ensures
        0x0C00u32 & 0xFC00 == 0x0C00,
        0x1400u32 & 0xFC00 == 0x1400,
        0xE000u32 & 0xF000 == 0xE000,
        0xF001u32 & 0xFC07 == 0xF001,
        0x01F0u32 & 0xFC00 == 0,
        0x020Fu32 & 0xFC00 == 0,
        0x01F0u32 & 0x020F == 0,
        (0xFC00u32 | 0x01F0 | 0x020F) == 0xFFFF,
        0x00F0u32 & 0xF000 == 0,
        0x0F0Fu32 & 0xF000 == 0,
        0x00F0u32 & 0x0F0F == 0,
        (0xF000u32 | 0x00F0 | 0x0F0F) == 0xFFFF,
        0x03F8u32 & 0xFC07 == 0,
        0u32 & 0xFC07 == 0,
        0x03F8u32 & 0 == 0,
        (0xFC07u32 | 0x03F8 | 0) == 0xFFFF,
{
    assert(
        0x0C00u32 & 0xFC00 == 0x0C00 &&
        0x1400u32 & 0xFC00 == 0x1400 &&
        0xE000u32 & 0xF000 == 0xE000 &&
        0xF001u32 & 0xFC07 == 0xF001 &&
        0x01F0u32 & 0xFC00 == 0 &&
        0x020Fu32 & 0xFC00 == 0 &&
        0x01F0u32 & 0x020F == 0 &&
        (0xFC00u32 | 0x01F0 | 0x020F) == 0xFFFF &&
        0x00F0u32 & 0xF000 == 0 &&
        0x0F0Fu32 & 0xF000 == 0 &&
        0x00F0u32 & 0x0F0F == 0 &&
        (0xF000u32 | 0x00F0 | 0x0F0F) == 0xFFFF &&
        0x03F8u32 & 0xFC07 == 0 &&
        0u32 & 0xFC07 == 0 &&
        0x03F8u32 & 0 == 0 &&
        (0xFC07u32 | 0x03F8 | 0) == 0xFFFF
    ) by (bit_vector);
}

/// Bit facts about an opcode made of its own bits and two operand fields
/// that occupy disjoint parts of the word.
proof fn lemma_fields(code: u32, mi: u32, a: u32, ma: u32, b: u32, mb: u32)
    requires
        a & ma == a,
        b & mb == b,
        code & mi == code,
        ma & mi == 0,
        mb & mi == 0,
        ma & mb == 0,
        code <= 0xFFFF,
        (mi | ma | mb) == 0xFFFF,
    ensures
        ((code | a | b) as u16) as u32 == code | a | b,
        (code | a | b) & ma == a,
        (code | a | b) & mb == b,
        (code | a | b) & mi == code,
{
    assert(((code | a | b) as u16) as u32 == code | a | b) by (bit_vector)
        requires a & ma == a, b & mb == b, code <= 0xFFFF, (mi | ma | mb) == 0xFFFF, code & mi == code, ma & mi == 0, mb & mi == 0;
    assert((code | a | b) & ma == a) by (bit_vector)
        requires a & ma == a, b & mb == b, code & mi == code, ma & mi == 0, ma & mb == 0;
    assert((code | a | b) & mb == b) by (bit_vector)
        requires a & ma == a, b & mb == b, code & mi == code, mb & mi == 0, ma & mb == 0;
    assert((code | a | b) & mi == code) by (bit_vector)
        requires a & ma == a, b & mb == b, code & mi == code, ma & mi == 0, mb & mi == 0;
}

/// An opcode is rebuilt from its own bits and the bits under two operand masks.
proof fn lemma_reassemble(x: u16, code: u32, mi: u32, ma: u32, mb: u32)
    requires
        (x as u32) & mi == code,
        (mi | ma | mb) == 0xFFFF,
    ensures
        ((code | ((x as u32) & ma) | ((x as u32) & mb)) as u16) == x,
{
    assert(((code | ((x as u32) & ma) | ((x as u32) & mb)) as u16) == x) by (bit_vector)
        requires (x as u32) & mi == code, (mi | ma | mb) == 0xFFFF;
}

/// The bit pattern of a seven-bit offset, cut to seven bits, sign-extends back to it.
proof fn lemma_offset_bits(k: i16)
    requires
        -64 <= k <= 63,
    ensures
        ((k as u16) as u32) as nat % 128 < 128,
        sign_extend((((k as u16) as u32) as nat % 128) as int, 7) == k,
{
    lemma_masks();
    assert((k as u16) as int == if k < 0 { k + 65536 } else { k as int }) by (bit_vector);
}

/// A seven-bit field sign-extended, stored as a bit pattern and cut to seven
/// bits again, gives back the field.
proof fn lemma_offset_field(p: nat)
    requires
        p < 128,
    ensures
        -64 <= sign_extend(p as int, 7) <= 63,
        (((sign_extend(p as int, 7) as i16) as u16) as u32) as nat % 128 == p,
{
    lemma_masks();
    let k = sign_extend(p as int, 7) as i16;
    assert(k as int == sign_extend(p as int, 7));
    assert((k as u16) as int == if k < 0 { k + 65536 } else { k as int }) by (bit_vector);
}

/// The round trips for an instruction with two register-like operands.
proof fn lemma_two_roundtrip(code: u32, mi: u32, d: u32, md: u32, r: u32, mr: u32)
    requires
        code & mi == code,
        md & mi == 0,
        mr & mi == 0,
        md & mr == 0,
        code <= 0xFFFF,
        d <= 0xFFFF,
        r <= 0xFFFF,
        md <= 0xFFFF,
        mr <= 0xFFFF,
        (mi | md | mr) == 0xFFFF,
    ensures
        ({
            let x = encode_two(code as u16, d as u16, md as u16, r as u16, mr as u16);
            &&& (x as u32) & mi == code
            &&& pext(x as u32, md) == pext(pdep(d, md) as u32, md)
            &&& pext(x as u32, mr) == pext(pdep(r, mr) as u32, mr)
        }),
{
    lemma_pdep_within(d, md);
    lemma_pdep_within(r, mr);
    let (pd, pr) = (pdep(d, md) as u32, pdep(r, mr) as u32);
    lemma_fields(code, mi, pd, md, pr, mr);
    let x = encode_two(code as u16, d as u16, md as u16, r as u16, mr as u16);
    assert(x as u32 == (code | pd | pr));
    lemma_pext_and(x as u32, md);
    lemma_pext_and(x as u32, mr);
    lemma_pext_and(pd, md);
    lemma_pext_and(pr, mr);
}

/// Decoding the opcode of an instruction gives back the instruction.
pub proof fn lemma_decode_encode(i: Avr)
    requires
        i.valid(),
    ensures
        Avr::spec_decode(i.spec_encode()) == Ok::<Avr, InstructionError>(i),
{
    lemma_masks();
    lemma_mask_facts();
    match i {
        Avr::Add(a) => {
            let (d, r) = (a.d.value() as u32, a.r.value() as u32);
            lemma_two_roundtrip(0x0C00, 0xFC00, d, 0x01F0, r, 0x020F);
            let x = i.spec_encode();
            assert((x & 0xFC00) as u32 == (x as u32) & 0xFC00) by (bit_vector);
            lemma_pext_pdep(d, 0x01F0);
            lemma_pext_pdep(r, 0x020F);
            lemma_unsigned_of::<0, 31, 0>(pext(x as u32, 0x01F0) as u16);
            lemma_unsigned_of::<0, 31, 0>(pext(x as u32, 0x020F) as u16);
            lemma_unsigned_ext(a.d, register_of(pext(x as u32, 0x01F0)));
            lemma_unsigned_ext(a.r, register_of(pext(x as u32, 0x020F)));
        },
        Avr::Cp(a) => {
            let (d, r) = (a.d.value() as u32, a.r.value() as u32);
            lemma_two_roundtrip(0x1400, 0xFC00, d, 0x01F0, r, 0x020F);
            let x = i.spec_encode();
            assert((x & 0xFC00) as u32 == (x as u32) & 0xFC00) by (bit_vector);
            assert(((x as u32) & 0xFC07) != 0xF001) by (bit_vector)
                requires (x as u32) & 0xFC00 == 0x1400;
            lemma_pext_pdep(d, 0x01F0);
            lemma_pext_pdep(r, 0x020F);
            lemma_unsigned_of::<0, 31, 0>(pext(x as u32, 0x01F0) as u16);
            lemma_unsigned_of::<0, 31, 0>(pext(x as u32, 0x020F) as u16);
            lemma_unsigned_ext(a.d, register_of(pext(x as u32, 0x01F0)));
            lemma_unsigned_ext(a.r, register_of(pext(x as u32, 0x020F)));
        },
        Avr::Ldi(a) => {
            let (d, k) = (a.d.value() as u32, a.k.value() as u32);
            lemma_two_roundtrip(0xE000, 0xF000, d, 0x00F0, k, 0x0F0F);
            let x = i.spec_encode();
            assert((x & 0xF000) as u32 == (x as u32) & 0xF000) by (bit_vector);
            assert(((x as u32) & 0xFC00) != 0x0C00 && ((x as u32) & 0xFC07) != 0xF001 && ((x as u32) & 0xFC00) != 0x1400) by (bit_vector)
                requires (x as u32) & 0xF000 == 0xE000;
            lemma_pext_pdep(d, 0x00F0);
            lemma_pext_pdep(k, 0x0F0F);
            lemma_unsigned_of::<16, 31, 16>((pext(x as u32, 0x00F0) + 16) as u16);
            lemma_unsigned_of::<0, 255, 0>(pext(x as u32, 0x0F0F) as u16);
            lemma_unsigned_ext(a.d, unsigned_of::<16, 31, 16>((pext(x as u32, 0x00F0) + 16) as u16));
            lemma_unsigned_ext(a.k, unsigned_of::<0, 255, 0>(pext(x as u32, 0x0F0F) as u16));
        },
        Avr::Breq(b) => {
            let kv = (b.k.value() as u16) as u32;
            lemma_two_roundtrip(0xF001, 0xFC07, kv, 0x03F8, 0, 0);
            let x = i.spec_encode();
            assert(pdep(0, 0) == 0);
            assert((0xF001u32 | (pdep(kv, 0x03F8) as u32) | 0) == (0xF001u32 | (pdep(kv, 0x03F8) as u32))) by (bit_vector);
            assert((x & 0xFC07) as u32 == (x as u32) & 0xFC07) by (bit_vector);
            assert(((x as u32) & 0xFC00) != 0x0C00) by (bit_vector)
                requires (x as u32) & 0xFC07 == 0xF001;
            lemma_pext_pdep(kv, 0x03F8);
            lemma_offset_bits(b.k.value());
            let k2 = sign_extend(pext(x as u32, 0x03F8) as int, 7) as i16;
            lemma_signed_of::<7, 0x8000, 0x7fff, 0>(k2);
            lemma_signed_ext(b.k, signed_of::<7, 0x8000, 0x7fff, 0>(k2));
        },
    }
}

/// Encoding a decoded instruction gives back the opcode, and what is decoded
/// is a valid instruction.
pub proof fn lemma_encode_decode(x: u16)
    requires
        Avr::spec_decode(x) is Ok,
    ensures
        Avr::spec_decode(x)->Ok_0.valid(),
        Avr::spec_decode(x)->Ok_0.spec_encode() == x,
{
    lemma_masks();
    lemma_mask_facts();
    let y = x as u32;
    assert((x & 0xFC00) as u32 == (x as u32) & 0xFC00) by (bit_vector);
    assert((x & 0xFC07) as u32 == (x as u32) & 0xFC07) by (bit_vector);
    assert((x & 0xF000) as u32 == (x as u32) & 0xF000) by (bit_vector);
    if matches_code(x, 0xFC00, 0x0C00) || matches_code(x, 0xFC00, 0x1400) {
        lemma_pext_bound(y, 0x01F0);
        lemma_pext_bound(y, 0x020F);
        lemma_pdep_pext(y, 0x01F0);
        lemma_pdep_pext(y, 0x020F);
        lemma_unsigned_of::<0, 31, 0>(pext(y, 0x01F0) as u16);
        lemma_unsigned_of::<0, 31, 0>(pext(y, 0x020F) as u16);
        if matches_code(x, 0xFC00, 0x0C00) {
            lemma_reassemble(x, 0x0C00, 0xFC00, 0x01F0, 0x020F);
        } else {
            assert((x as u32) & 0xFC07 != 0xF001) by (bit_vector)
                requires (x as u32) & 0xFC00 == 0x1400;
            lemma_reassemble(x, 0x1400, 0xFC00, 0x01F0, 0x020F);
        }
    } else if matches_code(x, 0xFC07, 0xF001) {
        lemma_pext_bound(y, 0x03F8);
        let p = pext(y, 0x03F8);
        lemma_offset_field(p);
        let k = sign_extend(p as int, 7) as i16;
        lemma_signed_of::<7, 0x8000, 0x7fff, 0>(k);
        let kv = (k as u16) as u32;
        lemma_pdep_low_bits(kv, 0x03F8);
        lemma_pdep_pext(y, 0x03F8);
        lemma_reassemble(x, 0xF001, 0xFC07, 0x03F8, 0);
        assert((0xF001u32 | ((x as u32) & 0x03F8) | ((x as u32) & 0)) == (0xF001u32 | ((x as u32) & 0x03F8))) by (bit_vector);
    } else {
        lemma_pext_bound(y, 0x00F0);
        lemma_pext_bound(y, 0x0F0F);
        let d = (pext(y, 0x00F0) + 16) as u32;
        lemma_unsigned_of::<16, 31, 16>(d as u16);
        lemma_unsigned_of::<0, 255, 0>(pext(y, 0x0F0F) as u16);
        lemma_pdep_low_bits(d, 0x00F0);
        lemma_pdep_pext(y, 0x00F0);
        lemma_pdep_pext(y, 0x0F0F);
        lemma_reassemble(x, 0xE000, 0xF000, 0x00F0, 0x0F0F);
    }
}

} // verus!
