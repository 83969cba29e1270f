use vstd::prelude::*;
use vstd::std_specs::convert::{FromSpecImpl, TryFromSpecImpl};
use vstd::arithmetic::power2::{pow2, lemma_pow2_unfold, lemma_pow2_pos};
use vstd::bits::{lemma_u16_shl_is_mul, lemma_u16_pow2_no_overflow, lemma_u16_low_bits_mask_is_mod, lemma_u32_shl_is_mul, lemma_u32_pow2_no_overflow, low_bits_mask};

verus! {

/// Why a raw number could not become a bounded integer.
#[derive(Debug, Clone, Copy, PartialEq, Eq, Structural)]
pub enum IntegerError {
    OutOfRange,
    Overflow,
    InvalidBitWidth,
}

impl IntegerError {
    /// The text the error is shown with.
    pub fn message(&self) -> (r: String)
        ensures
            r@ == integer_error_text(*self),
    {
        match self {
            IntegerError::OutOfRange => String::from_str("out-of-range"),
            IntegerError::Overflow => String::from_str("overflow"),
            IntegerError::InvalidBitWidth => String::from_str("invalid bit width"),
        }
    }
}

/// The text of each integer error.
pub open spec fn integer_error_text(e: IntegerError) -> Seq<char> {
    match e {
        IntegerError::OutOfRange => "out-of-range"@,
        IntegerError::Overflow => "overflow"@,
        IntegerError::InvalidBitWidth => "invalid bit width"@,
    }
}

/// An unsigned integer known to lie in `LOWEST..=HIGHEST`; raw values are
/// shifted by `OFFSET` on the way in.
#[derive(Debug, Copy, Clone, PartialEq, Eq, PartialOrd)]
pub struct Unsigned<const LOWEST: u16, const HIGHEST: u16, const OFFSET: u16> {
    inner: u16,
}

/// What `Unsigned::transform` makes of a raw value: the raw value plus the
/// offset, when that neither overflows nor leaves the range.
pub open spec fn unsigned_transform(value: u16, lowest: u16, highest: u16, offset: u16) -> Result<u16, IntegerError> {
    if value + offset > u16::MAX {
        Err(IntegerError::Overflow)
    } else if value + offset < lowest || value + offset > highest {
        Err(IntegerError::OutOfRange)
    } else {
        Ok((value + offset) as u16)
    }
}

impl<const LOWEST: u16, const HIGHEST: u16, const OFFSET: u16> Unsigned<LOWEST, HIGHEST, OFFSET> {
    #[verifier::type_invariant]
    spec fn in_range(self) -> bool {
        LOWEST <= self.inner <= HIGHEST
    }

    /// The number held.
    pub closed spec fn value(self) -> u16 {
        self.inner
    }

    /// Builds a value from a raw number: adds `OFFSET`, then checks the range.
    pub fn transform(value: u16) -> (r: Result<Self, IntegerError>)
        ensures
            match r {
                Ok(u) => unsigned_transform(value, LOWEST, HIGHEST, OFFSET) == Ok::<u16, IntegerError>(u.value()),
                Err(e) => unsigned_transform(value, LOWEST, HIGHEST, OFFSET) == Err::<u16, IntegerError>(e),
            },
    {
        let value = if let Some(value) = value.checked_add(OFFSET) {
            value
        } else {
            return Err(IntegerError::Overflow);
        };

        if value < LOWEST || value > HIGHEST {
            return Err(IntegerError::OutOfRange);
        }

        Ok(Self { inner: value })
    }

    /// Builds a value from a raw number known to fit once `OFFSET` is added.
    pub fn new_const(value: u16) -> (r: Self)
        requires
            value + OFFSET <= u16::MAX,
            LOWEST <= value + OFFSET <= HIGHEST,
        ensures
            r.value() == value + OFFSET,
    {
        Self::new_no_offset_const(value + OFFSET)
    }

    /// Builds a value from a number known to lie in the range, without the offset.
    pub fn new_no_offset_const(value: u16) -> (r: Self)
        requires
            LOWEST <= value <= HIGHEST,
        ensures
            r.value() == value,
    {
        Self { inner: value }
    }

    /// The number held.
    pub fn inner(&self) -> (r: u16)
        ensures
            r == self.value(),
            LOWEST <= r <= HIGHEST,
    {
        proof {
            use_type_invariant(self);
        }
        self.inner
    }
}

/// What a conversion into `Unsigned` gives, as a result over the number held.
pub open spec fn unsigned_result_value<const L: u16, const H: u16, const O: u16>(
    r: Result<Unsigned<L, H, O>, IntegerError>,
) -> Result<u16, IntegerError> {
    match r {
        Ok(u) => Ok(u.value()),
        Err(e) => Err(e),
    }
}

/// The conversion of a `u32`: values above `u16::MAX` overflow, the rest go
/// through `unsigned_transform`.
pub open spec fn unsigned_from_u32(value: u32, lowest: u16, highest: u16, offset: u16) -> Result<u16, IntegerError> {
    if value > u16::MAX {
        Err(IntegerError::Overflow)
    } else {
        unsigned_transform(value as u16, lowest, highest, offset)
    }
}

/// The one `Unsigned` value holding `v`, when `v` lies in the range.
pub closed spec fn unsigned_of<const L: u16, const H: u16, const O: u16>(v: u16) -> Unsigned<L, H, O> {
    Unsigned { inner: v }
}

/// `unsigned_of` holds the number it was given.
pub proof fn lemma_unsigned_of<const L: u16, const H: u16, const O: u16>(v: u16)
    ensures
        unsigned_of::<L, H, O>(v).value() == v,
{
}

/// Two values that hold the same number are the same value.
pub proof fn lemma_unsigned_ext<const L: u16, const H: u16, const O: u16>(a: Unsigned<L, H, O>, b: Unsigned<L, H, O>)
    requires
        a.value() == b.value(),
    ensures
        a == b,
{
}

/// The spec side of the `TryFrom` conversions.
pub open spec fn unsigned_lift<const L: u16, const H: u16, const O: u16>(r: Result<u16, IntegerError>) -> Result<Unsigned<L, H, O>, IntegerError> {
    match r {
        Ok(v) => Ok(unsigned_of::<L, H, O>(v)),
        Err(e) => Err(e),
    }
}

impl<const LOWEST: u16, const HIGHEST: u16, const OFFSET: u16> TryFrom<u16> for Unsigned<LOWEST, HIGHEST, OFFSET> {
    type Error = IntegerError;

    fn try_from(value: u16) -> (r: Result<Self, Self::Error>) {
        let r = Self::transform(value);
        proof {
            if let Ok(u) = r {
                lemma_unsigned_ext(u, unsigned_of::<LOWEST, HIGHEST, OFFSET>(u.value()));
            }
        }
        r
    }
}

impl<const LOWEST: u16, const HIGHEST: u16, const OFFSET: u16> TryFromSpecImpl<u16> for Unsigned<LOWEST, HIGHEST, OFFSET> {
    open spec fn obeys_try_from_spec() -> bool {
        true
    }

    open spec fn try_from_spec(v: u16) -> Result<Self, IntegerError> {
        unsigned_lift(unsigned_transform(v, LOWEST, HIGHEST, OFFSET))
    }
}

impl<const LOWEST: u16, const HIGHEST: u16, const OFFSET: u16> TryFrom<u32> for Unsigned<LOWEST, HIGHEST, OFFSET> {
    type Error = IntegerError;

    fn try_from(value: u32) -> (r: Result<Self, Self::Error>) {
        if value > 0xffff {
            return Err(IntegerError::Overflow);
        }
        let r = Self::transform(value as u16);
        proof {
            if let Ok(u) = r {
                lemma_unsigned_ext(u, unsigned_of::<LOWEST, HIGHEST, OFFSET>(u.value()));
            }
        }
        r
    }
}

impl<const LOWEST: u16, const HIGHEST: u16, const OFFSET: u16> TryFromSpecImpl<u32> for Unsigned<LOWEST, HIGHEST, OFFSET> {
    open spec fn obeys_try_from_spec() -> bool {
        true
    }

    open spec fn try_from_spec(v: u32) -> Result<Self, IntegerError> {
        unsigned_lift(unsigned_from_u32(v, LOWEST, HIGHEST, OFFSET))
    }
}

impl<const LOWEST: u16, const HIGHEST: u16, const OFFSET: u16> From<Unsigned<LOWEST, HIGHEST, OFFSET>> for u32 {
    fn from(value: Unsigned<LOWEST, HIGHEST, OFFSET>) -> (r: u32) {
        value.inner() as u32
    }
}

impl<const LOWEST: u16, const HIGHEST: u16, const OFFSET: u16> FromSpecImpl<Unsigned<LOWEST, HIGHEST, OFFSET>> for u32 {
    open spec fn obeys_from_spec() -> bool {
        true
    }

    open spec fn from_spec(v: Unsigned<LOWEST, HIGHEST, OFFSET>) -> u32 {
        v.value() as u32
    }
}

impl<const LOWEST: u16, const HIGHEST: u16, const OFFSET: u16> From<Unsigned<LOWEST, HIGHEST, OFFSET>> for u16 {
    fn from(value: Unsigned<LOWEST, HIGHEST, OFFSET>) -> (r: u16) {
        value.inner()
    }
}

impl<const LOWEST: u16, const HIGHEST: u16, const OFFSET: u16> FromSpecImpl<Unsigned<LOWEST, HIGHEST, OFFSET>> for u16 {
    open spec fn obeys_from_spec() -> bool {
        true
    }

    open spec fn from_spec(v: Unsigned<LOWEST, HIGHEST, OFFSET>) -> u16 {
        v.value()
    }
}

} // verus!

verus! {

/// A signed integer read from the low `BITS` bits of a raw number in two's
/// complement. `LOWEST` and `HIGHEST` bound the accepted values; they are
/// given as the two's complement bit patterns of `i16` numbers.
#[derive(Debug, Copy, Clone, PartialEq, Eq, PartialOrd)]
pub struct Signed<const BITS: usize, const LOWEST: u16, const HIGHEST: u16, const OFFSET: u16> {
    inner: i16,
}

/// The `i16` that a bit pattern stands for.
pub open spec fn as_i16(pattern: u16) -> int {
    if pattern >= 0x8000 { pattern - 0x10000 } else { pattern as int }
}

/// Casting a bit pattern to `i16` gives the number it stands for.
pub proof fn lemma_as_i16(pattern: u16)
    ensures
        (pattern as i16) as int == as_i16(pattern),
{
    assert((pattern as i16) as int == if pattern >= 0x8000 { pattern - 0x10000 } else { pattern as int }) by (bit_vector);
}

/// `raw` (below `2^bits`) read as a `bits`-bit two's complement number.
pub open spec fn sign_extend(raw: int, bits: nat) -> int {
    if raw >= pow2((bits - 1) as nat) { raw - pow2(bits) } else { raw }
}

/// Whether bit 7 of `value` is set: such raw values are always refused.
pub open spec fn bit7(value: u16) -> bool {
    (value / 128) % 2 == 1
}

/// What `Signed::transform` makes of a raw value.
pub open spec fn signed_transform(value: u16, bits: nat, lowest: int, highest: int) -> Result<int, IntegerError> {
    if bit7(value) {
        Err(IntegerError::OutOfRange)
    } else {
        let s = sign_extend((value as int) % (pow2(bits) as int), bits);
        if s < lowest || s > highest {
            Err(IntegerError::OutOfRange)
        } else {
            Ok(s)
        }
    }
}

/// The inputs on which `Signed::transform` computes without an arithmetic
/// fault: a width of 1 to 15 bits, and for 15 bits no negative result.
pub open spec fn signed_transform_defined(value: u16, bits: nat) -> bool {
    &&& 1 <= bits <= 15
    &&& (bits == 15 && !bit7(value)) ==> (value / 0x4000) % 2 == 0
}

/// The conversions from raw numbers: where `transform` would fault, the width
/// is reported as invalid, or the value as overflowing.
pub open spec fn signed_try_from(value: u16, bits: nat, lowest: int, highest: int) -> Result<int, IntegerError> {
    if !(1 <= bits <= 15) {
        Err(IntegerError::InvalidBitWidth)
    } else if !signed_transform_defined(value, bits) {
        Err(IntegerError::Overflow)
    } else {
        signed_transform(value, bits, lowest, highest)
    }
}

impl<const BITS: usize, const LOWEST: u16, const HIGHEST: u16, const OFFSET: u16> Signed<BITS, LOWEST, HIGHEST, OFFSET> {
    /// The number held.
    pub closed spec fn value(self) -> i16 {
        self.inner
    }

    /// The smallest value of the width, `-2^(BITS-1)`, cut to 16 bits.
    pub open spec fn spec_min() -> i16 {
        (0 - pow2((BITS - 1) as nat)) as i16
    }

    /// The largest value of the width, `2^(BITS-1) - 1`, cut to 16 bits.
    pub open spec fn spec_max() -> i16 {
        (pow2((BITS - 1) as nat) - 1) as i16
    }

    /// The smallest value of the width.
    pub fn min_value() -> (r: i16)
        requires
            1 <= BITS <= 31,
        ensures
            r == Self::spec_min(),
    {
        let b: u32 = (BITS - 1) as u32;
        proof {
            lemma_u32_pow2_no_overflow(b as nat);
            lemma_u32_shl_is_mul(1, b);
            vstd::arithmetic::power2::lemma_pow2_strictly_increases(b as nat, 31);
            vstd::arithmetic::power2::lemma2_to64();
        }
        let p: u32 = 1u32 << b;
        (-(p as i32)) as i16
    }

    /// The largest value of the width.
    pub fn max_value() -> (r: i16)
        requires
            1 <= BITS <= 31,
        ensures
            r == Self::spec_max(),
    {
        let b: u32 = (BITS - 1) as u32;
        proof {
            lemma_u32_pow2_no_overflow(b as nat);
            lemma_u32_shl_is_mul(1, b);
            vstd::arithmetic::power2::lemma_pow2_strictly_increases(b as nat, 31);
            vstd::arithmetic::power2::lemma2_to64();
        }
        let p: u32 = 1u32 << b;
        ((p as i32) - 1) as i16
    }

    /// Reads the low `BITS` bits of `value` as a two's complement number and
    /// checks it against `LOWEST..=HIGHEST`; raw values with bit 7 set are
    /// refused.
    pub fn transform(value: u16) -> (r: Result<Self, IntegerError>)
        requires
            signed_transform_defined(value, BITS as nat),
        ensures
            match r {
                Ok(s) => signed_transform(value, BITS as nat, as_i16(LOWEST), as_i16(HIGHEST)) == Ok::<int, IntegerError>(s.value() as int),
                Err(e) => signed_transform(value, BITS as nat, as_i16(LOWEST), as_i16(HIGHEST)) == Err::<int, IntegerError>(e),
            },
    {
        proof {
            assert((value & 0x80 != 0) <==> (value / 128) % 2 == 1) by (bit_vector);
        }
        if value & 0b1000_0000 != 0 {
            return Err(IntegerError::OutOfRange);
        }
        let b: u16 = BITS as u16;
        proof {
            lemma_u16_pow2_no_overflow(b as nat);
            lemma_u16_pow2_no_overflow((b - 1) as nat);
            lemma_u16_shl_is_mul(1, b);
            lemma_u16_shl_is_mul(1, (b - 1) as u16);
            lemma_pow2_unfold(b as nat);
            lemma_pow2_pos((b - 1) as nat);
            vstd::arithmetic::power2::lemma2_to64();
        }
        let p: u16 = 1u16 << b;
        let mask = p - 1;
        proof {
            assert(mask == low_bits_mask(b as nat));
            lemma_u16_low_bits_mask_is_mod(value, b as nat);
        }
        let raw = value & mask;

        let sign_bit: u16 = 1u16 << (b - 1);
        proof {
            assert(raw < p);
            assert(1 <= b <= 15 && raw < (1u16 << b) ==> ((raw & (1u16 << ((b - 1) as u16))) != 0 <==> raw >= (1u16 << ((b - 1) as u16)))) by (bit_vector);
            assert((value & 0x4000 != 0) <==> (value / 0x4000) % 2 == 1) by (bit_vector);
            assert(b == 15 ==> (raw >= 0x4000 ==> value & 0x4000 != 0)) by (bit_vector)
                requires raw == value & mask, b == 15 ==> mask == 0x7fff;
            vstd::arithmetic::power2::lemma2_to64();
        }
        let signed: i16 = if raw & sign_bit != 0 {
            (raw as i16) - (p as i16)
        } else {
            raw as i16
        };

        let lowest = LOWEST as i16;
        let highest = HIGHEST as i16;
        proof {
            lemma_as_i16(LOWEST);
            lemma_as_i16(HIGHEST);
        }
        if signed < lowest || signed > highest {
            return Err(IntegerError::OutOfRange);
        }

        Ok(Self { inner: signed })
    }

    /// Builds a value known to fit the width.
    pub fn new_const(value: i16) -> (r: Self)
        requires
            1 <= BITS <= 31,
            Self::spec_min() <= value <= Self::spec_max(),
        ensures
            r.value() == value,
    {
        Self { inner: value }
    }

    /// The two's complement bit pattern of the number held.
    pub fn as_u16(&self) -> (r: u16)
        ensures
            r == self.value() as u16,
    {
        self.inner as u16
    }

    /// The number held.
    pub fn inner(&self) -> (r: i16)
        ensures
            r == self.value(),
    {
        self.inner
    }
}

/// The one `Signed` value holding `v`.
pub closed spec fn signed_of<const B: usize, const L: u16, const H: u16, const O: u16>(v: i16) -> Signed<B, L, H, O> {
    Signed { inner: v }
}

/// `signed_of` holds the number it was given.
pub proof fn lemma_signed_of<const B: usize, const L: u16, const H: u16, const O: u16>(v: i16)
    ensures
        signed_of::<B, L, H, O>(v).value() == v,
{
}

/// Two values that hold the same number are the same value.
pub proof fn lemma_signed_ext<const B: usize, const L: u16, const H: u16, const O: u16>(a: Signed<B, L, H, O>, b: Signed<B, L, H, O>)
    requires
        a.value() == b.value(),
    ensures
        a == b,
{
}

/// The spec side of the `TryFrom` conversions.
pub open spec fn signed_lift<const B: usize, const L: u16, const H: u16, const O: u16>(r: Result<int, IntegerError>) -> Result<Signed<B, L, H, O>, IntegerError> {
    match r {
        Ok(v) => Ok(signed_of::<B, L, H, O>(v as i16)),
        Err(e) => Err(e),
    }
}

impl<const BITS: usize, const LOWEST: u16, const HIGHEST: u16, const OFFSET: u16> From<Signed<BITS, LOWEST, HIGHEST, OFFSET>> for u32 {
    fn from(value: Signed<BITS, LOWEST, HIGHEST, OFFSET>) -> (r: u32) {
        value.as_u16() as u32
    }
}

impl<const BITS: usize, const LOWEST: u16, const HIGHEST: u16, const OFFSET: u16> FromSpecImpl<Signed<BITS, LOWEST, HIGHEST, OFFSET>> for u32 {
    open spec fn obeys_from_spec() -> bool {
        true
    }

    open spec fn from_spec(v: Signed<BITS, LOWEST, HIGHEST, OFFSET>) -> u32 {
        (v.value() as u16) as u32
    }
}

impl<const BITS: usize, const LOWEST: u16, const HIGHEST: u16, const OFFSET: u16> TryFrom<u16> for Signed<BITS, LOWEST, HIGHEST, OFFSET> {
    type Error = IntegerError;

    fn try_from(value: u16) -> (r: Result<Self, Self::Error>) {
        if BITS < 1 || BITS > 15 {
            return Err(IntegerError::InvalidBitWidth);
        }
        if BITS == 15 && value & 0x80 == 0 && value & 0x4000 != 0 {
            proof {
                assert((value & 0x80 != 0) <==> (value / 128) % 2 == 1) by (bit_vector);
                assert((value & 0x4000 != 0) <==> (value / 0x4000) % 2 == 1) by (bit_vector);
            }
            return Err(IntegerError::Overflow);
        }
        proof {
            assert((value & 0x80 != 0) <==> (value / 128) % 2 == 1) by (bit_vector);
            assert((value & 0x4000 != 0) <==> (value / 0x4000) % 2 == 1) by (bit_vector);
        }
        let r = Self::transform(value);
        proof {
            if let Ok(s) = r {
                lemma_signed_ext(s, signed_of::<BITS, LOWEST, HIGHEST, OFFSET>(s.value()));
            }
        }
        r
    }
}

impl<const BITS: usize, const LOWEST: u16, const HIGHEST: u16, const OFFSET: u16> TryFromSpecImpl<u16> for Signed<BITS, LOWEST, HIGHEST, OFFSET> {
    open spec fn obeys_try_from_spec() -> bool {
        true
    }

    open spec fn try_from_spec(v: u16) -> Result<Self, IntegerError> {
        signed_lift(signed_try_from(v, BITS as nat, as_i16(LOWEST), as_i16(HIGHEST)))
    }
}

impl<const BITS: usize, const LOWEST: u16, const HIGHEST: u16, const OFFSET: u16> TryFrom<u32> for Signed<BITS, LOWEST, HIGHEST, OFFSET> {
    type Error = IntegerError;

    fn try_from(value: u32) -> (r: Result<Self, Self::Error>) {
        if value > 0xffff {
            return Err(IntegerError::Overflow);
        }
        <Self as TryFrom<u16>>::try_from(value as u16)
    }
}

impl<const BITS: usize, const LOWEST: u16, const HIGHEST: u16, const OFFSET: u16> TryFromSpecImpl<u32> for Signed<BITS, LOWEST, HIGHEST, OFFSET> {
    open spec fn obeys_try_from_spec() -> bool {
        true
    }

    open spec fn try_from_spec(v: u32) -> Result<Self, IntegerError> {
        if v > u16::MAX {
            Err(IntegerError::Overflow)
        } else {
            signed_lift(signed_try_from(v as u16, BITS as nat, as_i16(LOWEST), as_i16(HIGHEST)))
        }
    }
}

} // verus!
