//! How element types, hints and specialization inputs are shown in messages: the
//! name, then the fields in order.
use vstd::prelude::*;

use crate::dtype::{DTypeId, DivHint, SpecializationBits, SpecializationModel};
use crate::text;

verus! {

/// A flag as text.
pub open spec fn flag_text(b: bool) -> Seq<char> {
    if b {
        "true"@
    } else {
        "false"@
    }
}

/// The name of an element type.
pub open spec fn dtype_text(dtype: DTypeId) -> Seq<char> {
    match dtype {
        DTypeId::Bool => "Bool"@,
        DTypeId::U8 => "U8"@,
        DTypeId::U16 => "U16"@,
        DTypeId::U32 => "U32"@,
        DTypeId::U64 => "U64"@,
        DTypeId::I8 => "I8"@,
        DTypeId::I16 => "I16"@,
        DTypeId::I32 => "I32"@,
        DTypeId::I64 => "I64"@,
        DTypeId::F16 => "F16"@,
        DTypeId::BF16 => "BF16"@,
        DTypeId::F32 => "F32"@,
        DTypeId::TF32 => "TF32"@,
        DTypeId::F64 => "F64"@,
        DTypeId::F8E4M3FN => "F8E4M3FN"@,
        DTypeId::F8E5M2 => "F8E5M2"@,
        DTypeId::F8E8M0FNU => "F8E8M0FNU"@,
        DTypeId::F8E5M3FNU => "F8E5M3FNU"@,
        DTypeId::F4E2M1FNX2 => "F4E2M1FNX2"@,
    }
}

/// A divisibility hint as text.
pub open spec fn hint_text(hint: DivHint) -> Seq<char> {
    "DivHint { divisor: "@ + text::decimal_int(hint.divisor as int) + " }"@
}

/// A hint that may be absent, as text.
pub open spec fn optional_hint_text(hint: Option<DivHint>) -> Seq<char> {
    match hint {
        Some(h) => "Some("@ + hint_text(h) + ")"@,
        None => "None"@,
    }
}

/// Texts separated by a comma and a space.
pub open spec fn separated(items: Seq<Seq<char>>) -> Seq<char>
    decreases items.len(),
{
    if items.len() == 0 {
        Seq::empty()
    } else if items.len() == 1 {
        items[0]
    } else {
        separated(items.drop_last()) + ", "@ + items.last()
    }
}

/// A list of hints as text.
pub open spec fn hints_text(hints: Seq<DivHint>) -> Seq<char> {
    "["@ + separated(hints.map_values(|h: DivHint| hint_text(h))) + "]"@
}

/// A list of flags as text.
pub open spec fn flags_text(flags: Seq<bool>) -> Seq<char> {
    "["@ + separated(flags.map_values(|b: bool| flag_text(b))) + "]"@
}

/// Specialization inputs as text.
pub open spec fn specialization_text(spec: SpecializationModel) -> Seq<char> {
    "SpecializationBits { shape_div: "@ + hints_text(spec.shape_div) + ", stride_div: "@
        + hints_text(spec.stride_div) + ", stride_one: "@ + flags_text(spec.stride_one)
        + ", base_ptr_div: "@ + hint_text(spec.base_ptr_div) + " }"@
}

/// A flag as text.
pub fn flag_shown(b: bool) -> (r: &'static str)
    ensures
        r@ == flag_text(b),
{
    if b {
        "true"
    } else {
        "false"
    }
}

/// The name of an element type.
pub fn dtype_shown(dtype: DTypeId) -> (r: &'static str)
    ensures
        r@ == dtype_text(dtype),
{
    match dtype {
        DTypeId::Bool => "Bool",
        DTypeId::U8 => "U8",
        DTypeId::U16 => "U16",
        DTypeId::U32 => "U32",
        DTypeId::U64 => "U64",
        DTypeId::I8 => "I8",
        DTypeId::I16 => "I16",
        DTypeId::I32 => "I32",
        DTypeId::I64 => "I64",
        DTypeId::F16 => "F16",
        DTypeId::BF16 => "BF16",
        DTypeId::F32 => "F32",
        DTypeId::TF32 => "TF32",
        DTypeId::F64 => "F64",
        DTypeId::F8E4M3FN => "F8E4M3FN",
        DTypeId::F8E5M2 => "F8E5M2",
        DTypeId::F8E8M0FNU => "F8E8M0FNU",
        DTypeId::F8E5M3FNU => "F8E5M3FNU",
        DTypeId::F4E2M1FNX2 => "F4E2M1FNX2",
    }
}

/// The decimal text of a number.
pub fn number_shown(n: u128) -> (r: String)
    ensures
        r@ == text::decimal(n as nat),
{
    let mut out = String::new();
    text::push_u128(&mut out, n);
    assert(out@ =~= text::decimal(n as nat));
    out
}

/// A list of `i32` as text.
pub fn i32_list_shown(items: &[i32]) -> (r: String)
    ensures
        r@ == text::list_text(text::ints_of_i32(items@)),
{
    let mut out = String::new();
    text::push_i32_list(&mut out, items);
    assert(out@ =~= text::list_text(text::ints_of_i32(items@)));
    out
}

/// A list of `usize` as text.
pub fn usize_list_shown(items: &[usize]) -> (r: String)
    ensures
        r@ == text::list_text(text::ints_of_usize(items@)),
{
    let mut out = String::new();
    text::push_usize_list(&mut out, items);
    assert(out@ =~= text::list_text(text::ints_of_usize(items@)));
    out
}

/// A divisibility hint as text.
pub fn hint_shown(hint: DivHint) -> (r: String)
    ensures
        r@ == hint_text(hint),
{
    let mut out = "DivHint { divisor: ".to_owned();
    text::push_i64(&mut out, hint.divisor as i64);
    out.append(" }");
    out
}

/// A hint that may be absent, as text.
pub fn optional_hint_shown(hint: Option<DivHint>) -> (r: String)
    ensures
        r@ == optional_hint_text(hint),
{
    match hint {
        Some(h) => {
            let mut out = "Some(".to_owned();
            out.append(hint_shown(h).as_str());
            out.append(")");
            out
        },
        None => "None".to_owned(),
    }
}

/// One more item after a comma.
proof fn lemma_separated_step(items: Seq<Seq<char>>, i: int)
    requires
        0 <= i < items.len(),
    ensures
        separated(items.take(i + 1)) == (if i == 0 {
            items[0]
        } else {
            separated(items.take(i)) + ", "@ + items[i]
        }),
{
    assert(items.take(i + 1).drop_last() =~= items.take(i));
}

/// A list of hints as text.
pub fn hints_shown(hints: &Vec<DivHint>) -> (r: String)
    ensures
        r@ == hints_text(hints@),
{
    let ghost items = hints@.map_values(|h: DivHint| hint_text(h));
    let mut out = "[".to_owned();
    assert("["@ + separated(items.take(0)) =~= "["@);
    let mut i: usize = 0;
    while i < hints.len()
        invariant
            items == hints@.map_values(|h: DivHint| hint_text(h)),
            i <= hints.len(),
            out@ == "["@ + separated(items.take(i as int)),
        decreases hints.len() - i,
    {
        if i > 0 {
            out.append(", ");
        }
        out.append(hint_shown(hints[i]).as_str());
        proof {
            lemma_separated_step(items, i as int);
            assert(out@ =~= "["@ + separated(items.take(i + 1)));
        }
        i += 1;
    }
    assert(items.take(i as int) =~= items);
    out.append("]");
    out
}

/// A list of flags as text.
pub fn flags_shown(flags: &Vec<bool>) -> (r: String)
    ensures
        r@ == flags_text(flags@),
{
    let ghost items = flags@.map_values(|b: bool| flag_text(b));
    let mut out = "[".to_owned();
    assert("["@ + separated(items.take(0)) =~= "["@);
    let mut i: usize = 0;
    while i < flags.len()
        invariant
            items == flags@.map_values(|b: bool| flag_text(b)),
            i <= flags.len(),
            out@ == "["@ + separated(items.take(i as int)),
        decreases flags.len() - i,
    {
        if i > 0 {
            out.append(", ");
        }
        out.append(flag_shown(flags[i]));
        proof {
            lemma_separated_step(items, i as int);
            assert(out@ =~= "["@ + separated(items.take(i + 1)));
        }
        i += 1;
    }
    assert(items.take(i as int) =~= items);
    out.append("]");
    out
}

/// Specialization inputs as text.
pub fn specialization_shown(spec: &SpecializationBits) -> (r: String)
    ensures
        r@ == specialization_text(spec@),
{
    let mut out = "SpecializationBits { shape_div: ".to_owned();
    out.append(hints_shown(&spec.shape_div).as_str());
    out.append(", stride_div: ");
    out.append(hints_shown(&spec.stride_div).as_str());
    out.append(", stride_one: ");
    out.append(flags_shown(&spec.stride_one).as_str());
    out.append(", base_ptr_div: ");
    out.append(hint_shown(spec.base_ptr_div).as_str());
    out.append(" }");
    out
}

/// Shown lists grow by a comma, a space and the next item.
pub proof fn shown_items_are_separated_by_commas(items: Seq<Seq<char>>, x: Seq<char>)
    ensures
        separated(Seq::empty()) == Seq::<char>::empty(),
        separated(seq![x]) == x,
        items.len() > 0 ==> separated(items.push(x)) == separated(items) + seq![',', ' '] + x,
{
    reveal_strlit(", ");
    assert(", "@ =~= seq![',', ' ']);
    assert(items.push(x).drop_last() =~= items);
}

/// Lists of hints and flags show each item in order between square brackets.
pub proof fn shown_lists_hold_each_item(
    hints: Seq<DivHint>,
    flags: Seq<bool>,
    shown_hints: Seq<Seq<char>>,
    shown_flags: Seq<Seq<char>>,
)
    requires
        shown_hints.len() == hints.len(),
        forall|i: int| 0 <= i < hints.len() ==> #[trigger] shown_hints[i] == hint_text(hints[i]),
        shown_flags.len() == flags.len(),
        forall|i: int| 0 <= i < flags.len() ==> #[trigger] shown_flags[i] == flag_text(flags[i]),
    ensures
        hints_text(hints) == seq!['['] + separated(shown_hints) + seq![']'],
        flags_text(flags) == seq!['['] + separated(shown_flags) + seq![']'],
{
    reveal_strlit("[");
    reveal_strlit("]");
    assert("["@ =~= seq!['[']);
    assert("]"@ =~= seq![']']);
    assert(hints.map_values(|h: DivHint| hint_text(h)) =~= shown_hints);
    assert(flags.map_values(|b: bool| flag_text(b)) =~= shown_flags);
}

/// What is shown of a flag and of an absent hint tells them apart, and a hint shows
/// its divisor.
pub proof fn shown_values_differ(hint: DivHint)
    ensures
        flag_text(true) == seq!['t', 'r', 'u', 'e'],
        flag_text(false) == seq!['f', 'a', 'l', 's', 'e'],
        optional_hint_text(None) == seq!['N', 'o', 'n', 'e'],
        optional_hint_text(Some(hint)) == "Some("@ + "DivHint { divisor: "@ + text::decimal_int(
            hint.divisor as int,
        ) + " }"@ + ")"@,
{
    reveal_strlit("true");
    reveal_strlit("false");
    reveal_strlit("None");
    assert("true"@ =~= seq!['t', 'r', 'u', 'e']);
    assert("false"@ =~= seq!['f', 'a', 'l', 's', 'e']);
    assert("None"@ =~= seq!['N', 'o', 'n', 'e']);
    assert(optional_hint_text(Some(hint)) =~= "Some("@ + "DivHint { divisor: "@
        + text::decimal_int(hint.divisor as int) + " }"@ + ")"@);
}

/// A type is shown under its name in capitals, apart from `Bool`.
pub proof fn types_are_shown_in_capitals(d: DTypeId)
    requires
        !(d is Bool),
    ensures
        dtype_text(d) == d.name().map_values(|c: char| crate::expand::module::ascii_upper(c)),
{
    match d {
        DTypeId::Bool => {},
        DTypeId::U8 => {
            reveal_strlit("u8");
            reveal_strlit("U8");
            assert("U8"@ =~= "u8"@.map_values(
                |c: char| crate::expand::module::ascii_upper(c),
            ));
        },
        DTypeId::U16 => {
            reveal_strlit("u16");
            reveal_strlit("U16");
            assert("U16"@ =~= "u16"@.map_values(
                |c: char| crate::expand::module::ascii_upper(c),
            ));
        },
        DTypeId::U32 => {
            reveal_strlit("u32");
            reveal_strlit("U32");
            assert("U32"@ =~= "u32"@.map_values(
                |c: char| crate::expand::module::ascii_upper(c),
            ));
        },
        DTypeId::U64 => {
            reveal_strlit("u64");
            reveal_strlit("U64");
            assert("U64"@ =~= "u64"@.map_values(
                |c: char| crate::expand::module::ascii_upper(c),
            ));
        },
        DTypeId::I8 => {
            reveal_strlit("i8");
            reveal_strlit("I8");
            assert("I8"@ =~= "i8"@.map_values(
                |c: char| crate::expand::module::ascii_upper(c),
            ));
        },
        DTypeId::I16 => {
            reveal_strlit("i16");
            reveal_strlit("I16");
            assert("I16"@ =~= "i16"@.map_values(
                |c: char| crate::expand::module::ascii_upper(c),
            ));
        },
        DTypeId::I32 => {
            reveal_strlit("i32");
            reveal_strlit("I32");
            assert("I32"@ =~= "i32"@.map_values(
                |c: char| crate::expand::module::ascii_upper(c),
            ));
        },
        DTypeId::I64 => {
            reveal_strlit("i64");
            reveal_strlit("I64");
            assert("I64"@ =~= "i64"@.map_values(
                |c: char| crate::expand::module::ascii_upper(c),
            ));
        },
        DTypeId::F16 => {
            reveal_strlit("f16");
            reveal_strlit("F16");
            assert("F16"@ =~= "f16"@.map_values(
                |c: char| crate::expand::module::ascii_upper(c),
            ));
        },
        DTypeId::BF16 => {
            reveal_strlit("bf16");
            reveal_strlit("BF16");
            assert("BF16"@ =~= "bf16"@.map_values(
                |c: char| crate::expand::module::ascii_upper(c),
            ));
        },
        DTypeId::F32 => {
            reveal_strlit("f32");
            reveal_strlit("F32");
            assert("F32"@ =~= "f32"@.map_values(
                |c: char| crate::expand::module::ascii_upper(c),
            ));
        },
        DTypeId::TF32 => {
            reveal_strlit("tf32");
            reveal_strlit("TF32");
            assert("TF32"@ =~= "tf32"@.map_values(
                |c: char| crate::expand::module::ascii_upper(c),
            ));
        },
        DTypeId::F64 => {
            reveal_strlit("f64");
            reveal_strlit("F64");
            assert("F64"@ =~= "f64"@.map_values(
                |c: char| crate::expand::module::ascii_upper(c),
            ));
        },
        DTypeId::F8E4M3FN => {
            reveal_strlit("f8e4m3fn");
            reveal_strlit("F8E4M3FN");
            assert("F8E4M3FN"@ =~= "f8e4m3fn"@.map_values(
                |c: char| crate::expand::module::ascii_upper(c),
            ));
        },
        DTypeId::F8E5M2 => {
            reveal_strlit("f8e5m2");
            reveal_strlit("F8E5M2");
            assert("F8E5M2"@ =~= "f8e5m2"@.map_values(
                |c: char| crate::expand::module::ascii_upper(c),
            ));
        },
        DTypeId::F8E8M0FNU => {
            reveal_strlit("f8e8m0fnu");
            reveal_strlit("F8E8M0FNU");
            assert("F8E8M0FNU"@ =~= "f8e8m0fnu"@.map_values(
                |c: char| crate::expand::module::ascii_upper(c),
            ));
        },
        DTypeId::F8E5M3FNU => {
            reveal_strlit("f8e5m3fnu");
            reveal_strlit("F8E5M3FNU");
            assert("F8E5M3FNU"@ =~= "f8e5m3fnu"@.map_values(
                |c: char| crate::expand::module::ascii_upper(c),
            ));
        },
        DTypeId::F4E2M1FNX2 => {
            reveal_strlit("f4e2m1fnx2");
            reveal_strlit("F4E2M1FNX2");
            assert("F4E2M1FNX2"@ =~= "f4e2m1fnx2"@.map_values(
                |c: char| crate::expand::module::ascii_upper(c),
            ));
        },
    }
}

/// A specialization is shown with its hints of shape and strides, its unit strides and
/// its alignment, in this order.
pub proof fn a_specialization_is_shown_in_order(spec: SpecializationModel)
    ensures
        specialization_text(spec) == "SpecializationBits { shape_div: "@ + hints_text(
            spec.shape_div,
        ) + ", stride_div: "@ + hints_text(spec.stride_div) + ", stride_one: "@ + flags_text(
            spec.stride_one,
        ) + ", base_ptr_div: "@ + hint_text(spec.base_ptr_div) + " }"@,
{
}

} // verus!
