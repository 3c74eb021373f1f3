//! Scalar kernel arguments: their bytes in a 16-byte slot, their type and their
//! divisibility hint.
use std::marker::PhantomData;
use vstd::prelude::*;

use crate::dtype;
use crate::dtype::{DTypeId, DivHint};

verus! {

/// The two's complement bits of `x` in a field of `modulus` values.
pub open spec fn twos_complement(x: int, modulus: int) -> u128 {
    if x < 0 {
        (x + modulus) as u128
    } else {
        x as u128
    }
}

/// The hint of a scalar of `dtype` whose bits are `slot`: that of the value for
/// an integer type, none for another type.
pub open spec fn hint_of(dtype: DTypeId, slot: u128) -> Option<DivHint> {
    if dtype.hinted() {
        Some(DivHint { divisor: dtype::pow2_divisor(slot as int) as i32 })
    } else {
        None
    }
}

/// A value that fits one zeroed 16-byte argument slot.
pub trait SlotValue: Sized {
    /// The slot that holds the value: its bytes, least significant first, then
    /// zeros.
    spec fn slot(self) -> u128;

    /// The slot that holds the value.
    fn to_slot(self) -> (r: u128)
        ensures
            r == self.slot(),
    ;
}

/// The value's bytes in a zeroed 16-byte slot, as a launch stores it.
pub fn scalar_bits<T: SlotValue>(value: T) -> (r: u128)
    ensures
        r == value.slot(),
{
    value.to_slot()
}

/// A scalar that a kernel parameter can declare.
pub trait PlanScalar: SlotValue {
    /// The scalar's type.
    spec fn dtype_spec(self) -> DTypeId;

    /// The scalar's type.
    fn dtype(&self) -> (r: DTypeId)
        ensures
            r == self.dtype_spec(),
    ;

    /// The divisibility hint a launch computes for this value.
    fn div_hint(self) -> (r: Option<DivHint>)
        ensures
            r == hint_of(self.dtype_spec(), self.slot()),
    ;
}

impl SlotValue for u128 {
    open spec fn slot(self) -> u128 {
        self
    }

    fn to_slot(self) -> (r: u128) {
        self
    }
}

impl SlotValue for bool {
    open spec fn slot(self) -> u128 {
        if self {
            1
        } else {
            0
        }
    }

    fn to_slot(self) -> (r: u128) {
        if self {
            1
        } else {
            0
        }
    }
}

impl PlanScalar for bool {
    open spec fn dtype_spec(self) -> DTypeId {
        DTypeId::Bool
    }

    fn dtype(&self) -> (r: DTypeId) {
        DTypeId::Bool
    }

    fn div_hint(self) -> (r: Option<DivHint>) {
        None
    }
}

/// The hint of an integer whose slot is `slot`. The low 32 bits decide it.
fn slot_hint(slot: u128) -> (r: DivHint)
    ensures
        r.divisor == dtype::pow2_divisor(slot as int),
{
    let low = (slot % 16) as i32;
    proof {
        dtype::lemma_low_bits(slot as int);
        dtype::lemma_low_bits(low as int);
    }
    DivHint::from_value(low)
}

impl SlotValue for u8 {
    open spec fn slot(self) -> u128 {
        self as u128
    }

    fn to_slot(self) -> (r: u128) {
        self as u128
    }
}

impl PlanScalar for u8 {
    open spec fn dtype_spec(self) -> DTypeId {
        DTypeId::U8
    }

    fn dtype(&self) -> (r: DTypeId) {
        DTypeId::U8
    }

    fn div_hint(self) -> (r: Option<DivHint>) {
        Some(slot_hint(self.to_slot()))
    }
}

impl SlotValue for u16 {
    open spec fn slot(self) -> u128 {
        self as u128
    }

    fn to_slot(self) -> (r: u128) {
        self as u128
    }
}

impl PlanScalar for u16 {
    open spec fn dtype_spec(self) -> DTypeId {
        DTypeId::U16
    }

    fn dtype(&self) -> (r: DTypeId) {
        DTypeId::U16
    }

    fn div_hint(self) -> (r: Option<DivHint>) {
        Some(slot_hint(self.to_slot()))
    }
}

impl SlotValue for u32 {
    open spec fn slot(self) -> u128 {
        self as u128
    }

    fn to_slot(self) -> (r: u128) {
        self as u128
    }
}

impl PlanScalar for u32 {
    open spec fn dtype_spec(self) -> DTypeId {
        DTypeId::U32
    }

    fn dtype(&self) -> (r: DTypeId) {
        DTypeId::U32
    }

    fn div_hint(self) -> (r: Option<DivHint>) {
        Some(slot_hint(self.to_slot()))
    }
}

impl SlotValue for u64 {
    open spec fn slot(self) -> u128 {
        self as u128
    }

    fn to_slot(self) -> (r: u128) {
        self as u128
    }
}

impl PlanScalar for u64 {
    open spec fn dtype_spec(self) -> DTypeId {
        DTypeId::U64
    }

    fn dtype(&self) -> (r: DTypeId) {
        DTypeId::U64
    }

    fn div_hint(self) -> (r: Option<DivHint>) {
        Some(slot_hint(self.to_slot()))
    }
}

impl SlotValue for i8 {
    open spec fn slot(self) -> u128 {
        twos_complement(self as int, 0x100)
    }

    fn to_slot(self) -> (r: u128) {
        if self < 0 {
            (self as i64 + 0x100) as u128
        } else {
            self as u128
        }
    }
}

impl PlanScalar for i8 {
    open spec fn dtype_spec(self) -> DTypeId {
        DTypeId::I8
    }

    fn dtype(&self) -> (r: DTypeId) {
        DTypeId::I8
    }

    fn div_hint(self) -> (r: Option<DivHint>) {
        Some(slot_hint(self.to_slot()))
    }
}

impl SlotValue for i16 {
    open spec fn slot(self) -> u128 {
        twos_complement(self as int, 0x10000)
    }

    fn to_slot(self) -> (r: u128) {
        if self < 0 {
            (self as i64 + 0x10000) as u128
        } else {
            self as u128
        }
    }
}

impl PlanScalar for i16 {
    open spec fn dtype_spec(self) -> DTypeId {
        DTypeId::I16
    }

    fn dtype(&self) -> (r: DTypeId) {
        DTypeId::I16
    }

    fn div_hint(self) -> (r: Option<DivHint>) {
        Some(slot_hint(self.to_slot()))
    }
}

impl SlotValue for i32 {
    open spec fn slot(self) -> u128 {
        twos_complement(self as int, 0x100000000)
    }

    fn to_slot(self) -> (r: u128) {
        if self < 0 {
            (self as i64 + 0x100000000) as u128
        } else {
            self as u128
        }
    }
}

impl PlanScalar for i32 {
    open spec fn dtype_spec(self) -> DTypeId {
        DTypeId::I32
    }

    fn dtype(&self) -> (r: DTypeId) {
        DTypeId::I32
    }

    fn div_hint(self) -> (r: Option<DivHint>) {
        Some(slot_hint(self.to_slot()))
    }
}

impl SlotValue for i64 {
    open spec fn slot(self) -> u128 {
        twos_complement(self as int, 0x10000000000000000)
    }

    fn to_slot(self) -> (r: u128) {
        if self < 0 {
            (self as i128 + 0x10000000000000000) as u128
        } else {
            self as u128
        }
    }
}

impl PlanScalar for i64 {
    open spec fn dtype_spec(self) -> DTypeId {
        DTypeId::I64
    }

    fn dtype(&self) -> (r: DTypeId) {
        DTypeId::I64
    }

    fn div_hint(self) -> (r: Option<DivHint>) {
        Some(slot_hint(self.to_slot()))
    }
}

/// A floating-point type, as a type.
pub trait FloatKind: Copy + Sized {
    /// The type.
    spec fn id() -> DTypeId;

    /// The type, which carries no divisibility hint.
    fn dtype_id() -> (r: DTypeId)
        ensures
            r == Self::id(),
            !r.hinted(),
    ;
}

/// How many values the bits of an element of `size` bytes can take.
pub open spec fn bit_patterns(size: nat) -> int {
    if size == 1 {
        0x100
    } else if size == 2 {
        0x1_0000
    } else if size == 4 {
        0x1_0000_0000
    } else {
        0x1_0000_0000_0000_0000
    }
}

/// A floating-point scalar, held as its bits: launches only copy them.
#[derive(Debug)]
pub struct Float<K: FloatKind> {
    bits: u64,
    kind: PhantomData<K>,
}

impl<K: FloatKind> Clone for Float<K> {
    fn clone(&self) -> (r: Self)
        ensures
            r == *self,
    {
        *self
    }
}

impl<K: FloatKind> Copy for Float<K> {

}

impl<K: FloatKind> Float<K> {
    pub closed spec fn pattern(self) -> u64 {
        self.bits
    }

    /// The scalar with these bits, if its type has as many.
    pub fn from_bits(bits: u64) -> (r: Option<Float<K>>)
        ensures
            r is Some <==> bits < bit_patterns(K::id().size_spec()),
            r matches Some(x) ==> x.pattern() == bits,
    {
        let size = K::dtype_id().size();
        let fits = if size == 1 {
            bits < 0x100
        } else if size == 2 {
            bits < 0x1_0000
        } else if size == 4 {
            bits < 0x1_0000_0000
        } else {
            true
        };
        if fits {
            Some(Float { bits, kind: PhantomData })
        } else {
            None
        }
    }

    /// The scalar's bits.
    pub fn to_bits(self) -> (r: u64)
        ensures
            r == self.pattern(),
    {
        self.bits
    }
}

impl<K: FloatKind> SlotValue for Float<K> {
    open spec fn slot(self) -> u128 {
        self.pattern() as u128
    }

    fn to_slot(self) -> (r: u128) {
        self.bits as u128
    }
}

impl<K: FloatKind> PlanScalar for Float<K> {
    open spec fn dtype_spec(self) -> DTypeId {
        K::id()
    }

    fn dtype(&self) -> (r: DTypeId) {
        K::dtype_id()
    }

    fn div_hint(self) -> (r: Option<DivHint>) {
        let dtype = K::dtype_id();
        assert(!dtype.hinted());
        None
    }
}

/// IEEE half precision.
#[derive(Debug, Clone, Copy)]
pub struct F16;

impl FloatKind for F16 {
    open spec fn id() -> DTypeId {
        DTypeId::F16
    }

    fn dtype_id() -> (r: DTypeId) {
        DTypeId::F16
    }
}

/// Brain floating point, 16 bits.
#[derive(Debug, Clone, Copy)]
pub struct BF16;

impl FloatKind for BF16 {
    open spec fn id() -> DTypeId {
        DTypeId::BF16
    }

    fn dtype_id() -> (r: DTypeId) {
        DTypeId::BF16
    }
}

/// IEEE single precision.
#[derive(Debug, Clone, Copy)]
pub struct F32;

impl FloatKind for F32 {
    open spec fn id() -> DTypeId {
        DTypeId::F32
    }

    fn dtype_id() -> (r: DTypeId) {
        DTypeId::F32
    }
}

/// Single precision with a 10-bit mantissa, in 32 bits.
#[derive(Debug, Clone, Copy)]
pub struct TF32;

impl FloatKind for TF32 {
    open spec fn id() -> DTypeId {
        DTypeId::TF32
    }

    fn dtype_id() -> (r: DTypeId) {
        DTypeId::TF32
    }
}

/// IEEE double precision.
#[derive(Debug, Clone, Copy)]
pub struct F64;

impl FloatKind for F64 {
    open spec fn id() -> DTypeId {
        DTypeId::F64
    }

    fn dtype_id() -> (r: DTypeId) {
        DTypeId::F64
    }
}

/// 8 bits: 4 of exponent, 3 of mantissa, finite.
#[derive(Debug, Clone, Copy)]
pub struct F8E4M3FN;

impl FloatKind for F8E4M3FN {
    open spec fn id() -> DTypeId {
        DTypeId::F8E4M3FN
    }

    fn dtype_id() -> (r: DTypeId) {
        DTypeId::F8E4M3FN
    }
}

/// 8 bits: 5 of exponent, 2 of mantissa.
#[derive(Debug, Clone, Copy)]
pub struct F8E5M2;

impl FloatKind for F8E5M2 {
    open spec fn id() -> DTypeId {
        DTypeId::F8E5M2
    }

    fn dtype_id() -> (r: DTypeId) {
        DTypeId::F8E5M2
    }
}

/// 8 bits of exponent, unsigned.
#[derive(Debug, Clone, Copy)]
pub struct F8E8M0FNU;

impl FloatKind for F8E8M0FNU {
    open spec fn id() -> DTypeId {
        DTypeId::F8E8M0FNU
    }

    fn dtype_id() -> (r: DTypeId) {
        DTypeId::F8E8M0FNU
    }
}

/// 8 bits: 5 of exponent, 3 of mantissa, unsigned.
#[derive(Debug, Clone, Copy)]
pub struct F8E5M3FNU;

impl FloatKind for F8E5M3FNU {
    open spec fn id() -> DTypeId {
        DTypeId::F8E5M3FNU
    }

    fn dtype_id() -> (r: DTypeId) {
        DTypeId::F8E5M3FNU
    }
}

/// Two values of 4 bits each.
#[derive(Debug, Clone, Copy)]
pub struct F4E2M1FNX2;

impl FloatKind for F4E2M1FNX2 {
    open spec fn id() -> DTypeId {
        DTypeId::F4E2M1FNX2
    }

    fn dtype_id() -> (r: DTypeId) {
        DTypeId::F4E2M1FNX2
    }
}

/// The slot of a signed value is as divisible by 1, 2, 4, 8 and 16 as the value:
/// both have one hint.
pub proof fn slots_keep_divisibility(x: int, modulus: int)
    requires
        modulus % 16 == 0,
        0 < modulus <= 0x1_0000_0000_0000_0000,
        -modulus <= x < modulus,
    ensures
        dtype::pow2_divisor(twos_complement(x, modulus) as int) == dtype::pow2_divisor(x),
{
    dtype::lemma_low_bits(x);
    dtype::lemma_low_bits(x + modulus);
    vstd::arithmetic::div_mod::lemma_add_mod_noop(x, modulus, 16);
    vstd::arithmetic::div_mod::lemma_mod_twice(x, 16);
}

/// A signed value is stored as the non-negative number that equals it up to a multiple
/// of the number of bit patterns.
pub proof fn signed_values_are_stored_modulo_their_width(x: int, modulus: int)
    requires
        0 < modulus <= 0x1_0000_0000_0000_0000,
        -modulus <= x < modulus,
    ensures
        0 <= twos_complement(x, modulus) < modulus,
        twos_complement(x, modulus) == x || twos_complement(x, modulus) == x + modulus,
{
}

/// An unsigned value, and a signed one that is not negative, is stored as itself; a
/// negative one as itself plus the number of bit patterns of its type.
pub proof fn integers_are_stored_by_value(
    a: u8,
    b: u16,
    c: u32,
    d: u64,
    e: i8,
    f: i16,
    g: i32,
    h: i64,
    i: u128,
)
    ensures
        a.slot() == a && b.slot() == b && c.slot() == c && d.slot() == d && i.slot() == i,
        e.slot() == if e < 0 { e + 0x100 } else { e as int },
        f.slot() == if f < 0 { f + 0x1_0000 } else { f as int },
        g.slot() == if g < 0 { g + 0x1_0000_0000 } else { g as int },
        h.slot() == if h < 0 { h + 0x1_0000_0000_0000_0000 } else { h as int },
{
}

/// A flag is stored as 1 or 0, a floating-point value as its bits.
pub proof fn flags_and_floats_are_stored_by_bits<K: FloatKind>(b: bool, x: Float<K>)
    ensures
        b.slot() == 1 <==> b,
        b.slot() == 0 <==> !b,
        x.slot() == x.pattern(),
        x.dtype_spec() == K::id(),
{
}

/// Each scalar has the type of its value.
pub proof fn scalars_have_the_type_of_their_value(
    a: u8,
    b: u16,
    c: u32,
    d: u64,
    e: i8,
    f: i16,
    g: i32,
    h: i64,
    i: bool,
)
    ensures
        a.dtype_spec() is U8 && b.dtype_spec() is U16 && c.dtype_spec() is U32 && d.dtype_spec() is U64,
        e.dtype_spec() is I8 && f.dtype_spec() is I16 && g.dtype_spec() is I32 && h.dtype_spec() is I64,
        i.dtype_spec() is Bool,
{
}

/// Each floating-point kind is its own type.
pub proof fn float_kinds_are_their_own_types()
    ensures
        F16::id() is F16 && BF16::id() is BF16 && F32::id() is F32 && TF32::id() is TF32,
        F64::id() is F64 && F8E4M3FN::id() is F8E4M3FN && F8E5M2::id() is F8E5M2,
        F8E8M0FNU::id() is F8E8M0FNU && F8E5M3FNU::id() is F8E5M3FNU,
        F4E2M1FNX2::id() is F4E2M1FNX2,
{
}

/// A scalar carries a hint exactly when its type is an integer; the hint is the largest
/// of 1, 2, 4, 8 and 16 that divides what is stored.
pub proof fn a_hint_divides_the_stored_value(dtype: DTypeId, slot: u128, d: int)
    requires
        d == 1 || d == 2 || d == 4 || d == 8 || d == 16,
    ensures
        hint_of(dtype, slot) is Some <==> dtype.hinted(),
        hint_of(dtype, slot) matches Some(h) ==> h.wf() && slot as int % h.divisor as int == 0 && (
        slot as int % d == 0 ==> d <= h.divisor),
{
    dtype::the_divisor_is_the_largest(slot as int, d);
}

/// An element of twice the size has the square of the bit patterns; one byte has 256.
pub proof fn bit_patterns_square_with_the_size()
    ensures
        bit_patterns(1) == 256,
        bit_patterns(2) == bit_patterns(1) * bit_patterns(1),
        bit_patterns(4) == bit_patterns(2) * bit_patterns(2),
        bit_patterns(8) == bit_patterns(4) * bit_patterns(4),
{
}

} // verus!
