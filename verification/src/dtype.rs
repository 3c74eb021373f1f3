//! Element types, divisibility hints and specialization bits: the plain values
//! that kernels are specialized on.
use vstd::prelude::*;

verus! {

/// An element or scalar type.
#[derive(Debug, Clone, Copy, PartialEq, Eq, Hash, Structural)]
pub enum DTypeId {
    Bool,
    U8,
    U16,
    U32,
    U64,
    I8,
    I16,
    I32,
    I64,
    F16,
    BF16,
    F32,
    TF32,
    F64,
    F8E4M3FN,
    F8E5M2,
    F8E8M0FNU,
    F8E5M3FNU,
    F4E2M1FNX2,
}

impl DTypeId {
    /// The size of an element in bytes.
    pub open spec fn size_spec(self) -> nat {
        match self {
            DTypeId::Bool | DTypeId::U8 | DTypeId::I8 => 1,
            DTypeId::U16 | DTypeId::I16 | DTypeId::F16 | DTypeId::BF16 => 2,
            DTypeId::U32 | DTypeId::I32 | DTypeId::F32 | DTypeId::TF32 => 4,
            DTypeId::U64 | DTypeId::I64 | DTypeId::F64 => 8,
            _ => 1,
        }
    }

    /// The name of the type.
    pub open spec fn name(self) -> Seq<char> {
        match self {
            DTypeId::Bool => "bool"@,
            DTypeId::U8 => "u8"@,
            DTypeId::U16 => "u16"@,
            DTypeId::U32 => "u32"@,
            DTypeId::U64 => "u64"@,
            DTypeId::I8 => "i8"@,
            DTypeId::I16 => "i16"@,
            DTypeId::I32 => "i32"@,
            DTypeId::I64 => "i64"@,
            DTypeId::F16 => "f16"@,
            DTypeId::BF16 => "bf16"@,
            DTypeId::F32 => "f32"@,
            DTypeId::TF32 => "tf32"@,
            DTypeId::F64 => "f64"@,
            DTypeId::F8E4M3FN => "f8e4m3fn"@,
            DTypeId::F8E5M2 => "f8e5m2"@,
            DTypeId::F8E8M0FNU => "f8e8m0fnu"@,
            DTypeId::F8E5M3FNU => "f8e5m3fnu"@,
            DTypeId::F4E2M1FNX2 => "f4e2m1fnx2"@,
        }
    }

    /// Whether the divisibility of a scalar of this type is a specialization
    /// input: the integer types.
    pub open spec fn hinted(self) -> bool {
        match self {
            DTypeId::U8 | DTypeId::U16 | DTypeId::U32 | DTypeId::U64 => true,
            DTypeId::I8 | DTypeId::I16 | DTypeId::I32 | DTypeId::I64 => true,
            _ => false,
        }
    }

    /// The size of an element in bytes, which is also its alignment.
    pub fn size(self) -> (r: usize)
        ensures
            r == self.size_spec(),
            1 <= r <= 8,
    {
        match self {
            DTypeId::Bool | DTypeId::U8 | DTypeId::I8 => 1,
            DTypeId::U16 | DTypeId::I16 | DTypeId::F16 | DTypeId::BF16 => 2,
            DTypeId::U32 | DTypeId::I32 | DTypeId::F32 | DTypeId::TF32 => 4,
            DTypeId::U64 | DTypeId::I64 | DTypeId::F64 => 8,
            _ => 1,
        }
    }

    /// The name of the type.
    pub fn as_str(self) -> (r: &'static str)
        ensures
            r@ == self.name(),
    {
        match self {
            DTypeId::Bool => "bool",
            DTypeId::U8 => "u8",
            DTypeId::U16 => "u16",
            DTypeId::U32 => "u32",
            DTypeId::U64 => "u64",
            DTypeId::I8 => "i8",
            DTypeId::I16 => "i16",
            DTypeId::I32 => "i32",
            DTypeId::I64 => "i64",
            DTypeId::F16 => "f16",
            DTypeId::BF16 => "bf16",
            DTypeId::F32 => "f32",
            DTypeId::TF32 => "tf32",
            DTypeId::F64 => "f64",
            DTypeId::F8E4M3FN => "f8e4m3fn",
            DTypeId::F8E5M2 => "f8e5m2",
            DTypeId::F8E8M0FNU => "f8e8m0fnu",
            DTypeId::F8E5M3FNU => "f8e5m3fnu",
            DTypeId::F4E2M1FNX2 => "f4e2m1fnx2",
        }
    }

    /// Whether a scalar of this type carries a divisibility hint.
    pub fn is_integer(self) -> (r: bool)
        ensures
            r == self.hinted(),
    {
        match self {
            DTypeId::U8 | DTypeId::U16 | DTypeId::U32 | DTypeId::U64 => true,
            DTypeId::I8 | DTypeId::I16 | DTypeId::I32 | DTypeId::I64 => true,
            _ => false,
        }
    }

    /// The number of the variant, by which types are told apart in a key.
    pub open spec fn index(self) -> nat {
        match self {
            DTypeId::Bool => 0,
            DTypeId::U8 => 1,
            DTypeId::U16 => 2,
            DTypeId::U32 => 3,
            DTypeId::U64 => 4,
            DTypeId::I8 => 5,
            DTypeId::I16 => 6,
            DTypeId::I32 => 7,
            DTypeId::I64 => 8,
            DTypeId::F16 => 9,
            DTypeId::BF16 => 10,
            DTypeId::F32 => 11,
            DTypeId::TF32 => 12,
            DTypeId::F64 => 13,
            DTypeId::F8E4M3FN => 14,
            DTypeId::F8E5M2 => 15,
            DTypeId::F8E8M0FNU => 16,
            DTypeId::F8E5M3FNU => 17,
            DTypeId::F4E2M1FNX2 => 18,
        }
    }

    /// The number of the variant.
    pub fn to_index(self) -> (r: u8)
        ensures
            r == self.index(),
    {
        match self {
            DTypeId::Bool => 0,
            DTypeId::U8 => 1,
            DTypeId::U16 => 2,
            DTypeId::U32 => 3,
            DTypeId::U64 => 4,
            DTypeId::I8 => 5,
            DTypeId::I16 => 6,
            DTypeId::I32 => 7,
            DTypeId::I64 => 8,
            DTypeId::F16 => 9,
            DTypeId::BF16 => 10,
            DTypeId::F32 => 11,
            DTypeId::TF32 => 12,
            DTypeId::F64 => 13,
            DTypeId::F8E4M3FN => 14,
            DTypeId::F8E5M2 => 15,
            DTypeId::F8E8M0FNU => 16,
            DTypeId::F8E5M3FNU => 17,
            DTypeId::F4E2M1FNX2 => 18,
        }
    }
}

/// The largest of 16, 8, 4, 2 and 1 that divides `x`.
pub open spec fn pow2_divisor(x: int) -> int {
    if x % 16 == 0 {
        16
    } else if x % 8 == 0 {
        8
    } else if x % 4 == 0 {
        4
    } else if x % 2 == 0 {
        2
    } else {
        1
    }
}

/// A divisibility hint: a power of two, at most 16, that the value is known to
/// be a multiple of.
///
/// That a pointer's hint is clamped to 16 is part of the kernel compiler's
/// documented interface. That an integer's is clamped alike, and that both are the
/// largest such power of two, is this library's own choice.
#[derive(Debug, Clone, Copy, PartialEq, Eq, Hash, Structural)]
pub struct DivHint {
    pub divisor: i32,
}

impl DivHint {
    /// The divisor is 1, 2, 4, 8 or 16.
    pub open spec fn wf(self) -> bool {
        self.divisor == 1 || self.divisor == 2 || self.divisor == 4 || self.divisor == 8
            || self.divisor == 16
    }

    /// The hint of an integer value.
    pub fn from_value(value: i32) -> (r: DivHint)
        ensures
            r.wf(),
            r.divisor == pow2_divisor(value as int),
    {
        let low = match value.checked_rem_euclid(16) {
            Some(residue) => residue,
            None => 0,
        };
        proof {
            lemma_low_bits(value as int);
        }
        let divisor: i32 = if low == 0 {
            16
        } else if low == 8 {
            8
        } else if low % 4 == 0 {
            4
        } else if low % 2 == 0 {
            2
        } else {
            1
        };
        DivHint { divisor }
    }

    /// The hint of a device pointer: its alignment, clamped to 16.
    pub fn from_ptr(ptr: u64) -> (r: DivHint)
        ensures
            r.wf(),
            r.divisor == pow2_divisor(ptr as int),
    {
        let low = ptr % 16;
        proof {
            lemma_low_bits(ptr as int);
        }
        let divisor: i32 = if low == 0 {
            16
        } else if low == 8 {
            8
        } else if low % 4 == 0 {
            4
        } else if low % 2 == 0 {
            2
        } else {
            1
        };
        DivHint { divisor }
    }
}

/// Divisibility by a small power of two is decided by the value modulo 16.
pub proof fn lemma_low_bits(x: int)
    ensures
        x % 8 == (x % 16) % 8,
        x % 4 == (x % 16) % 4,
        x % 2 == (x % 16) % 2,
        0 <= x % 16 < 16,
{
    vstd::arithmetic::div_mod::lemma_mod_mod(x, 8, 2);
    vstd::arithmetic::div_mod::lemma_mod_mod(x, 4, 4);
    vstd::arithmetic::div_mod::lemma_mod_mod(x, 2, 8);
}

/// A hint tells exactly which of the divisors 1, 2, 4, 8 and 16 divide a value:
/// those up to it.
pub proof fn a_hint_orders_divisibility(x: int, d: DivHint)
    requires
        d.wf(),
    ensures
        pow2_divisor(x) >= d.divisor <==> x % (d.divisor as int) == 0,
{
    lemma_low_bits(x);
}

/// The specialization inputs of one tensor argument: per axis the divisibility
/// of extent and stride and whether the stride is 1, and the alignment of the
/// base pointer.
#[derive(Debug, PartialEq, Eq, Hash)]
pub struct SpecializationBits {
    pub shape_div: Vec<DivHint>,
    pub stride_div: Vec<DivHint>,
    pub stride_one: Vec<bool>,
    pub base_ptr_div: DivHint,
}

/// The contents of [`SpecializationBits`].
#[verifier::ext_equal]
pub struct SpecializationModel {
    pub shape_div: Seq<DivHint>,
    pub stride_div: Seq<DivHint>,
    pub stride_one: Seq<bool>,
    pub base_ptr_div: DivHint,
}

impl View for SpecializationBits {
    type V = SpecializationModel;

    open spec fn view(&self) -> SpecializationModel {
        SpecializationModel {
            shape_div: self.shape_div@,
            stride_div: self.stride_div@,
            stride_one: self.stride_one@,
            base_ptr_div: self.base_ptr_div,
        }
    }
}

fn copy_hints(s: &Vec<DivHint>) -> (r: Vec<DivHint>)
    ensures
        r@ == s@,
{
    let mut out: Vec<DivHint> = Vec::new();
    let mut i: usize = 0;
    while i < s.len()
        invariant
            i <= s.len(),
            out@ == s@.take(i as int),
        decreases s.len() - i,
    {
        out.push(s[i]);
        assert(s@.take(i + 1) =~= s@.take(i as int).push(s@[i as int]));
        i += 1;
    }
    assert(s@.take(i as int) =~= s@);
    out
}

fn same_hints(a: &Vec<DivHint>, b: &Vec<DivHint>) -> (r: bool)
    ensures
        r == (a@ == b@),
{
    if a.len() != b.len() {
        return false;
    }
    let mut i: usize = 0;
    while i < a.len()
        invariant
            i <= a.len(),
            a.len() == b.len(),
            forall|k: int| 0 <= k < i ==> a@[k] == b@[k],
        decreases a.len() - i,
    {
        if a[i] != b[i] {
            return false;
        }
        i += 1;
    }
    assert(a@ =~= b@);
    true
}

impl SpecializationBits {
    /// Whether two specializations are equal.
    pub fn same(&self, other: &SpecializationBits) -> (r: bool)
        ensures
            r == (self@ == other@),
    {
        if self.stride_one.len() != other.stride_one.len() {
            return false;
        }
        let mut i: usize = 0;
        while i < self.stride_one.len()
            invariant
                i <= self.stride_one.len(),
                self.stride_one.len() == other.stride_one.len(),
                forall|k: int| 0 <= k < i ==> self.stride_one@[k] == other.stride_one@[k],
            decreases self.stride_one.len() - i,
        {
            if self.stride_one[i] != other.stride_one[i] {
                assert(self@.stride_one[i as int] != other@.stride_one[i as int]);
                return false;
            }
            i += 1;
        }
        assert(self.stride_one@ =~= other.stride_one@);
        same_hints(&self.shape_div, &other.shape_div) && same_hints(
            &self.stride_div,
            &other.stride_div,
        ) && self.base_ptr_div == other.base_ptr_div
    }

    /// The kernel's stride pattern: 1 on the axes of stride 1, -1 on the others.
    pub fn strides_hint(&self) -> (r: Vec<i32>)
        ensures
            r@ == self.stride_one@.map_values(|one: bool| if one { 1i32 } else { -1i32 }),
    {
        let ghost f = |one: bool| if one { 1i32 } else { -1i32 };
        let mut out: Vec<i32> = Vec::new();
        let mut i: usize = 0;
        while i < self.stride_one.len()
            invariant
                i <= self.stride_one.len(),
                out@ == self.stride_one@.take(i as int).map_values(f),
                f == (|one: bool| if one { 1i32 } else { -1i32 }),
            decreases self.stride_one.len() - i,
        {
            let pattern: i32 = if self.stride_one[i] {
                1
            } else {
                -1
            };
            out.push(pattern);
            assert(self.stride_one@.take(i + 1).map_values(f)
                =~= self.stride_one@.take(i as int).map_values(f).push(pattern));
            i += 1;
        }
        assert(self.stride_one@.take(i as int) =~= self.stride_one@);
        out
    }
}

impl Clone for SpecializationBits {
    fn clone(&self) -> (r: Self)
        ensures
            r@ == self@,
    {
        let mut stride_one: Vec<bool> = Vec::new();
        let mut i: usize = 0;
        while i < self.stride_one.len()
            invariant
                i <= self.stride_one.len(),
                stride_one@ == self.stride_one@.take(i as int),
            decreases self.stride_one.len() - i,
        {
            stride_one.push(self.stride_one[i]);
            assert(self.stride_one@.take(i + 1) =~= self.stride_one@.take(i as int).push(
                self.stride_one@[i as int],
            ));
            i += 1;
        }
        assert(self.stride_one@.take(i as int) =~= self.stride_one@);
        SpecializationBits {
            shape_div: copy_hints(&self.shape_div),
            stride_div: copy_hints(&self.stride_div),
            stride_one,
            base_ptr_div: self.base_ptr_div,
        }
    }
}

/// The divisor of a value divides it, and no larger one of 2, 4, 8 and 16 does.
pub proof fn the_divisor_is_the_largest(x: int, d: int)
    requires
        d == 1 || d == 2 || d == 4 || d == 8 || d == 16,
    ensures
        x % pow2_divisor(x) == 0,
        x % d == 0 ==> d <= pow2_divisor(x),
        (DivHint { divisor: pow2_divisor(x) as i32 }).wf(),
        pow2_divisor(x) <= 16,
{
    lemma_low_bits(x);
}

/// The hints in use are exactly the powers of two up to 16.
pub proof fn hints_are_small_powers_of_two(h: DivHint)
    ensures
        h.wf() <==> 1 <= h.divisor <= 16 && 16int % (h.divisor as int) == 0,
{
    let d = h.divisor as int;
    assert(16int % 1 == 0 && 16int % 2 == 0 && 16int % 4 == 0 && 16int % 8 == 0 && 16int % 16 == 0);
    assert(16int % 3 != 0 && 16int % 5 != 0 && 16int % 6 != 0 && 16int % 7 != 0 && 16int % 9 != 0);
    assert(16int % 10 != 0 && 16int % 11 != 0 && 16int % 12 != 0 && 16int % 13 != 0);
    assert(16int % 14 != 0 && 16int % 15 != 0);
    if 1 <= d <= 16 {
        assert(d <= 4 || 5 <= d <= 8 || 9 <= d <= 12 || 13 <= d);
    }
}

/// Types are told apart by their number: no two have the same one.
pub proof fn types_have_their_own_numbers(a: DTypeId, b: DTypeId)
    ensures
        a.index() == b.index() <==> a == b,
        a.index() < 19,
{
}

/// A type's size is that of its value in bytes: 8 for the 64-bit types, 4 for the
/// 32-bit ones (`tf32` is stored in 32 bits), 2 for the 16-bit ones, 1 for the rest.
pub proof fn sizes_are_those_of_the_values(d: DTypeId)
    ensures
        d.size_spec() == 8 <==> (d is U64 || d is I64 || d is F64),
        d.size_spec() == 4 <==> (d is U32 || d is I32 || d is F32 || d is TF32),
        d.size_spec() == 2 <==> (d is U16 || d is I16 || d is F16 || d is BF16),
        d.size_spec() == 1 <==> !(d.size_spec() == 2 || d.size_spec() == 4 || d.size_spec() == 8),
{
}

/// The types that carry a divisibility hint are the signed and unsigned integers,
/// which come in pairs of one size.
pub proof fn integers_are_hinted(d: DTypeId)
    ensures
        d.hinted() <==> (d is U8 || d is U16 || d is U32 || d is U64 || d is I8 || d is I16
            || d is I32 || d is I64),
        DTypeId::U8.size_spec() == DTypeId::I8.size_spec(),
        DTypeId::U16.size_spec() == DTypeId::I16.size_spec(),
        DTypeId::U32.size_spec() == DTypeId::I32.size_spec(),
        DTypeId::U64.size_spec() == DTypeId::I64.size_spec(),
{
}

/// No two types have one name.
pub proof fn types_have_their_own_names(a: DTypeId, b: DTypeId)
    ensures
        a.name() == b.name() <==> a == b,
{
    reveal_strlit("bool");
    reveal_strlit("u8");
    reveal_strlit("u16");
    reveal_strlit("u32");
    reveal_strlit("u64");
    reveal_strlit("i8");
    reveal_strlit("i16");
    reveal_strlit("i32");
    reveal_strlit("i64");
    reveal_strlit("f16");
    reveal_strlit("bf16");
    reveal_strlit("f32");
    reveal_strlit("tf32");
    reveal_strlit("f64");
    reveal_strlit("f8e4m3fn");
    reveal_strlit("f8e5m2");
    reveal_strlit("f8e8m0fnu");
    reveal_strlit("f8e5m3fnu");
    reveal_strlit("f4e2m1fnx2");
    let (m, n) = (a.name(), b.name());
    if m == n {
        assert(m.len() == n.len());
        assert(m[0] == n[0]);
        assert(m[1] == n[1]);
        if m.len() > 2 {
            assert(m[2] == n[2]);
        }
        if m.len() > 3 {
            assert(m[3] == n[3]);
        }
        if m.len() > 5 {
            assert(m[5] == n[5]);
        }
    }
}

} // verus!
