//! Argument layouts: everything about a kernel argument that a resolved launch
//! depends on, apart from pointer and scalar values.
use vstd::prelude::*;

use crate::dtype::{DTypeId, DivHint, SpecializationBits, SpecializationModel};
use crate::partition::Partition;
use crate::plan::key;
use crate::shape;
use crate::show;
use crate::text;

verus! {

/// The contents of a partition layout.
#[verifier::ext_equal]
pub struct PartitionModel {
    pub shape: Seq<usize>,
    pub strides: Seq<usize>,
    pub prefix_coverage: bool,
}

/// The contents of a tensor layout.
#[verifier::ext_equal]
pub struct TensorModel {
    pub dtype: DTypeId,
    pub device_id: usize,
    pub shape: Seq<i32>,
    pub strides: Seq<i32>,
    pub spec: SpecializationModel,
    pub partition: Option<PartitionModel>,
}

/// The contents of an argument layout.
#[verifier::ext_equal]
pub enum LayoutModel {
    Tensor(TensorModel),
    Scalar { dtype: DTypeId, hint: Option<DivHint> },
    Pointer { dtype: DTypeId, hint: DivHint },
}

/// The part of a layout that a cache key covers: all of it except a scalar's
/// divisibility hint.
#[verifier::ext_equal]
pub enum KeyModel {
    Tensor(TensorModel),
    Scalar(DTypeId),
    Pointer(DTypeId, DivHint),
}

impl LayoutModel {
    pub open spec fn key(self) -> KeyModel {
        match self {
            LayoutModel::Tensor(t) => KeyModel::Tensor(t),
            LayoutModel::Scalar { dtype, .. } => KeyModel::Scalar(dtype),
            LayoutModel::Pointer { dtype, hint } => KeyModel::Pointer(dtype, hint),
        }
    }

    /// How many driver arguments a parameter of this layout marshals to: the
    /// pointer, shape and strides of a tensor and of its partition, or one.
    pub open spec fn arg_count_spec(self) -> nat {
        match self {
            LayoutModel::Tensor(t) => 1 + t.shape.len() + t.strides.len() + (match t.partition {
                Some(p) => p.shape.len() + p.strides.len(),
                None => 0,
            }),
            _ => 1,
        }
    }
}

/// The words of a list of hints: the length, then the divisors.
pub open spec fn hint_words(s: Seq<DivHint>) -> Seq<usize> {
    seq![s.len() as usize] + s.map_values(|h: DivHint| key::i32_word(h.divisor))
}

/// The words of a list of flags: the length, then the flags.
pub open spec fn flag_words(s: Seq<bool>) -> Seq<usize> {
    seq![s.len() as usize] + s.map_values(|b: bool| key::flag_word(b))
}

impl PartitionModel {
    pub open spec fn words(self) -> Seq<usize> {
        key::usize_words(self.shape) + key::usize_words(self.strides) + seq![
            key::flag_word(self.prefix_coverage),
        ]
    }
}

impl TensorModel {
    pub open spec fn words(self) -> Seq<usize> {
        seq![self.dtype.index() as usize, self.device_id] + key::i32_words(self.shape)
            + key::i32_words(self.strides) + hint_words(self.spec.shape_div) + hint_words(
            self.spec.stride_div,
        ) + flag_words(self.spec.stride_one) + seq![key::i32_word(self.spec.base_ptr_div.divisor)]
            + (match self.partition {
            Some(p) => seq![1usize] + p.words(),
            None => seq![0usize],
        })
    }
}

impl KeyModel {
    /// The words that an argument adds to a cache key.
    pub open spec fn words(self) -> Seq<usize> {
        match self {
            KeyModel::Tensor(t) => seq![0usize] + t.words(),
            KeyModel::Scalar(dtype) => seq![1usize, dtype.index() as usize],
            KeyModel::Pointer(dtype, hint) => seq![
                2usize,
                dtype.index() as usize,
                key::i32_word(hint.divisor),
            ],
        }
    }
}

/// A parameter binding that launch plans cannot record.
#[derive(Debug, Clone, Copy, PartialEq, Eq)]
pub struct UnsupportedParam(pub &'static str);

/// The partition that an output is bound with.
#[derive(Debug, PartialEq)]
pub struct PartitionLayout {
    shape: Vec<usize>,
    strides: Vec<usize>,
    prefix_coverage: bool,
}

impl View for PartitionLayout {
    type V = PartitionModel;

    closed spec fn view(&self) -> PartitionModel {
        PartitionModel {
            shape: self.shape@,
            strides: self.strides@,
            prefix_coverage: self.prefix_coverage,
        }
    }
}

/// A tensor parameter's layout.
#[derive(Debug, PartialEq)]
pub struct TensorLayout {
    dtype: DTypeId,
    device_id: usize,
    shape: Vec<i32>,
    strides: Vec<i32>,
    spec: SpecializationBits,
    /// Present for an output: the partition it is bound with.
    partition: Option<PartitionLayout>,
}

impl View for TensorLayout {
    type V = TensorModel;

    closed spec fn view(&self) -> TensorModel {
        TensorModel {
            dtype: self.dtype,
            device_id: self.device_id,
            shape: self.shape@,
            strides: self.strides@,
            spec: self.spec@,
            partition: match self.partition {
                Some(p) => Some(p@),
                None => None,
            },
        }
    }
}

/// The layout of one kernel argument.
#[derive(Debug, PartialEq)]
pub enum ArgLayout {
    Tensor(TensorLayout),
    /// `hint` is present for integer scalars, whose divisibility the kernel is
    /// specialized on.
    Scalar { dtype: DTypeId, hint: Option<DivHint> },
    Pointer { dtype: DTypeId, hint: DivHint },
}

impl View for ArgLayout {
    type V = LayoutModel;

    open spec fn view(&self) -> LayoutModel {
        match self {
            ArgLayout::Tensor(t) => LayoutModel::Tensor(t@),
            ArgLayout::Scalar { dtype, hint } => LayoutModel::Scalar { dtype: *dtype, hint: *hint },
            ArgLayout::Pointer { dtype, hint } => LayoutModel::Pointer {
                dtype: *dtype,
                hint: *hint,
            },
        }
    }
}

impl PartitionModel {
    /// The partition layout as messages show it.
    pub open spec fn text(self) -> Seq<char> {
        "PartitionLayout { shape: "@ + text::list_text(text::ints_of_usize(self.shape))
            + ", strides: "@ + text::list_text(text::ints_of_usize(self.strides))
            + ", prefix_coverage: "@ + show::flag_text(self.prefix_coverage) + " }"@
    }
}

/// A partition layout that may be absent, as messages show it.
pub open spec fn optional_partition_text(partition: Option<PartitionModel>) -> Seq<char> {
    match partition {
        Some(p) => "Some("@ + p.text() + ")"@,
        None => "None"@,
    }
}

impl TensorModel {
    /// The tensor layout as messages show it.
    pub open spec fn text(self) -> Seq<char> {
        "TensorLayout { dtype: "@ + show::dtype_text(self.dtype) + ", device_id: "@
            + text::decimal(self.device_id as nat) + ", shape: "@ + text::list_text(
            text::ints_of_i32(self.shape),
        ) + ", strides: "@ + text::list_text(text::ints_of_i32(self.strides)) + ", spec: "@
            + show::specialization_text(self.spec) + ", partition: "@ + optional_partition_text(
            self.partition,
        ) + " }"@
    }
}

impl LayoutModel {
    /// The layout as messages show it.
    pub open spec fn text(self) -> Seq<char> {
        match self {
            LayoutModel::Tensor(t) => "Tensor("@ + t.text() + ")"@,
            LayoutModel::Scalar { dtype, hint } => "Scalar { dtype: "@ + show::dtype_text(dtype)
                + ", hint: "@ + show::optional_hint_text(hint) + " }"@,
            LayoutModel::Pointer { dtype, hint } => "Pointer { dtype: "@ + show::dtype_text(dtype)
                + ", hint: "@ + show::hint_text(hint) + " }"@,
        }
    }
}

impl PartitionLayout {
    fn shown(&self) -> (r: String)
        ensures
            r@ == self@.text(),
    {
        let mut out = "PartitionLayout { shape: ".to_owned();
        out.append(show::usize_list_shown(self.shape.as_slice()).as_str());
        out.append(", strides: ");
        out.append(show::usize_list_shown(self.strides.as_slice()).as_str());
        out.append(", prefix_coverage: ");
        out.append(show::flag_shown(self.prefix_coverage));
        out.append(" }");
        out
    }
}

impl TensorLayout {
    fn shown_partition(&self) -> (r: String)
        ensures
            r@ == optional_partition_text(self@.partition),
    {
        match &self.partition {
            Some(p) => {
                let mut out = "Some(".to_owned();
                out.append(p.shown().as_str());
                out.append(")");
                out
            },
            None => "None".to_owned(),
        }
    }

    fn shown(&self) -> (r: String)
        ensures
            r@ == self@.text(),
    {
        let mut out = "TensorLayout { dtype: ".to_owned();
        out.append(show::dtype_shown(self.dtype));
        out.append(", device_id: ");
        out.append(show::number_shown(self.device_id as u128).as_str());
        out.append(", shape: ");
        out.append(show::i32_list_shown(self.shape.as_slice()).as_str());
        out.append(", strides: ");
        out.append(show::i32_list_shown(self.strides.as_slice()).as_str());
        out.append(", spec: ");
        out.append(show::specialization_shown(&self.spec).as_str());
        out.append(", partition: ");
        out.append(self.shown_partition().as_str());
        out.append(" }");
        out
    }
}

impl ArgLayout {
    /// The layout as messages show it.
    pub fn to_string(&self) -> (r: String)
        ensures
            r@ == self@.text(),
    {
        match self {
            ArgLayout::Tensor(t) => {
                let mut out = "Tensor(".to_owned();
                out.append(t.shown().as_str());
                out.append(")");
                out
            },
            ArgLayout::Scalar { dtype, hint } => {
                let mut out = "Scalar { dtype: ".to_owned();
                out.append(show::dtype_shown(*dtype));
                out.append(", hint: ");
                out.append(show::optional_hint_shown(*hint).as_str());
                out.append(" }");
                out
            },
            ArgLayout::Pointer { dtype, hint } => {
                let mut out = "Pointer { dtype: ".to_owned();
                out.append(show::dtype_shown(*dtype));
                out.append(", hint: ");
                out.append(show::hint_shown(*hint).as_str());
                out.append(" }");
                out
            },
        }
    }
}

/// A partition's shape, strides and coverage, borrowed.
#[derive(Debug, Clone, Copy)]
pub struct PartitionParts<'a> {
    shape: &'a [usize],
    strides: &'a [usize],
    prefix_coverage: bool,
}

impl<'a> View for PartitionParts<'a> {
    type V = PartitionModel;

    closed spec fn view(&self) -> PartitionModel {
        PartitionModel {
            shape: self.shape@,
            strides: self.strides@,
            prefix_coverage: self.prefix_coverage,
        }
    }
}

/// A tensor layout, borrowed from a stored [`TensorLayout`] or a live argument.
/// Plans compare and hash layouts only through this type, so a stored layout and
/// an argument that has it are equal, and hash equally.
#[derive(Debug, Clone, Copy)]
pub struct TensorLayoutRef<'a> {
    dtype: DTypeId,
    device_id: usize,
    shape: &'a [i32],
    strides: &'a [i32],
    spec: &'a SpecializationBits,
    partition: Option<PartitionParts<'a>>,
}

impl<'a> View for TensorLayoutRef<'a> {
    type V = TensorModel;

    closed spec fn view(&self) -> TensorModel {
        TensorModel {
            dtype: self.dtype,
            device_id: self.device_id,
            shape: self.shape@,
            strides: self.strides@,
            spec: self.spec@,
            partition: match self.partition {
                Some(p) => Some(p@),
                None => None,
            },
        }
    }
}

/// The part of an argument's layout that a cache key hashes.
#[derive(Debug, Clone, Copy)]
pub enum LayoutKey<'a> {
    Tensor(TensorLayoutRef<'a>),
    Scalar(DTypeId),
    Pointer(DTypeId, DivHint),
}

impl<'a> View for LayoutKey<'a> {
    type V = KeyModel;

    open spec fn view(&self) -> KeyModel {
        match self {
            LayoutKey::Tensor(t) => KeyModel::Tensor(t@),
            LayoutKey::Scalar(dtype) => KeyModel::Scalar(*dtype),
            LayoutKey::Pointer(dtype, hint) => KeyModel::Pointer(*dtype, *hint),
        }
    }
}

fn same_usize(a: &[usize], b: &[usize]) -> (r: bool)
    ensures
        r == (a@ == b@),
{
    if a.len() != b.len() {
        return false;
    }
    let mut i: usize = 0;
    while i < a.len()
        invariant
            i <= a.len(),
            a.len() == b.len(),
            forall|k: int| 0 <= k < i ==> a@[k] == b@[k],
        decreases a.len() - i,
    {
        if a[i] != b[i] {
            return false;
        }
        i += 1;
    }
    assert(a@ =~= b@);
    true
}

fn push_hint_words(out: &mut Vec<usize>, hints: &Vec<DivHint>)
    ensures
        final(out)@ == old(out)@ + hint_words(hints@),
{
    let ghost f = |h: DivHint| key::i32_word(h.divisor);
    out.push(hints.len());
    let ghost base = out@;
    let mut i: usize = 0;
    while i < hints.len()
        invariant
            i <= hints.len(),
            f == (|h: DivHint| key::i32_word(h.divisor)),
            out@ == base + hints@.take(i as int).map_values(f),
        decreases hints.len() - i,
    {
        let word = (hints[i].divisor as i64 + 0x8000_0000) as usize;
        out.push(word);
        assert(hints@.take(i + 1).map_values(f) =~= hints@.take(i as int).map_values(f).push(word));
        assert(out@ =~= base + hints@.take(i + 1).map_values(f));
        i += 1;
    }
    assert(hints@.take(i as int) =~= hints@);
    assert(out@ =~= old(out)@ + hint_words(hints@));
}

fn push_flag_words(out: &mut Vec<usize>, flags: &Vec<bool>)
    ensures
        final(out)@ == old(out)@ + flag_words(flags@),
{
    let ghost f = |b: bool| key::flag_word(b);
    out.push(flags.len());
    let ghost base = out@;
    let mut i: usize = 0;
    while i < flags.len()
        invariant
            i <= flags.len(),
            f == (|b: bool| key::flag_word(b)),
            out@ == base + flags@.take(i as int).map_values(f),
        decreases flags.len() - i,
    {
        let word: usize = if flags[i] {
            1
        } else {
            0
        };
        out.push(word);
        assert(flags@.take(i + 1).map_values(f) =~= flags@.take(i as int).map_values(f).push(word));
        assert(out@ =~= base + flags@.take(i + 1).map_values(f));
        i += 1;
    }
    assert(flags@.take(i as int) =~= flags@);
    assert(out@ =~= old(out)@ + flag_words(flags@));
}

impl<'a> PartitionParts<'a> {
    /// The parts of a partition.
    pub fn of<O>(partition: &'a Partition<O>) -> (r: PartitionParts<'a>)
        ensures
            r@.shape == partition.partition_shape@,
            r@.strides == partition.partition_strides@,
            r@.prefix_coverage == partition.prefix_coverage,
    {
        PartitionParts {
            shape: partition.partition_shape.as_slice(),
            strides: partition.partition_strides.as_slice(),
            prefix_coverage: partition.prefix_coverage,
        }
    }

    fn same(&self, other: &PartitionParts<'_>) -> (r: bool)
        ensures
            r == (self@ == other@),
    {
        same_usize(self.shape, other.shape) && same_usize(self.strides, other.strides)
            && self.prefix_coverage == other.prefix_coverage
    }

    fn push_words(&self, out: &mut Vec<usize>)
        ensures
            final(out)@ == old(out)@ + self@.words(),
    {
        key::push_usize_words(out, self.shape);
        key::push_usize_words(out, self.strides);
        let flag: usize = if self.prefix_coverage {
            1
        } else {
            0
        };
        out.push(flag);
        assert(out@ =~= old(out)@ + self@.words());
    }
}

impl<'a> TensorLayoutRef<'a> {
    /// A borrowed layout from its parts.
    pub fn new(
        dtype: DTypeId,
        device_id: usize,
        shape: &'a [i32],
        strides: &'a [i32],
        spec: &'a SpecializationBits,
        partition: Option<PartitionParts<'a>>,
    ) -> (r: TensorLayoutRef<'a>)
        ensures
            r@.dtype == dtype,
            r@.device_id == device_id,
            r@.shape == shape@,
            r@.strides == strides@,
            r@.spec == spec@,
            match partition {
                Some(p) => r@.partition == Some(p@),
                None => r@.partition is None,
            },
    {
        TensorLayoutRef { dtype, device_id, shape, strides, spec, partition }
    }

    /// Whether two layouts are equal.
    pub fn same(&self, other: &TensorLayoutRef<'_>) -> (r: bool)
        ensures
            r == (self@ == other@),
    {
        let partitions = match (&self.partition, &other.partition) {
            (Some(p), Some(q)) => p.same(q),
            (None, None) => true,
            _ => false,
        };
        self.dtype == other.dtype && self.device_id == other.device_id && shape::same_i32(
            self.shape,
            other.shape,
        ) && shape::same_i32(self.strides, other.strides) && self.spec.same(other.spec)
            && partitions
    }

    fn push_words(&self, out: &mut Vec<usize>)
        ensures
            final(out)@ == old(out)@ + self@.words(),
    {
        let ghost base = out@;
        let ghost m = self@;
        out.push(self.dtype.to_index() as usize);
        out.push(self.device_id);
        let ghost w = seq![m.dtype.index() as usize, m.device_id];
        assert(out@ =~= base + w);
        key::push_i32_words(out, self.shape);
        proof {
            lemma_append(base, w, key::i32_words(m.shape));
        }
        let ghost w = w + key::i32_words(m.shape);
        key::push_i32_words(out, self.strides);
        proof {
            lemma_append(base, w, key::i32_words(m.strides));
        }
        let ghost w = w + key::i32_words(m.strides);
        push_hint_words(out, &self.spec.shape_div);
        proof {
            lemma_append(base, w, hint_words(m.spec.shape_div));
        }
        let ghost w = w + hint_words(m.spec.shape_div);
        push_hint_words(out, &self.spec.stride_div);
        proof {
            lemma_append(base, w, hint_words(m.spec.stride_div));
        }
        let ghost w = w + hint_words(m.spec.stride_div);
        push_flag_words(out, &self.spec.stride_one);
        proof {
            lemma_append(base, w, flag_words(m.spec.stride_one));
        }
        let ghost w = w + flag_words(m.spec.stride_one);
        assert(out@ == base + w);
        let word = (self.spec.base_ptr_div.divisor as i64 + 0x8000_0000) as usize;
        out.push(word);
        proof {
            lemma_append(base, w, seq![word]);
            assert(out@ =~= (base + w) + seq![word]);
        }
        let ghost w = w + seq![key::i32_word(m.spec.base_ptr_div.divisor)];
        assert(out@ == base + w);
        match &self.partition {
            Some(p) => {
                out.push(1);
                p.push_words(out);
                proof {
                    let tail = seq![1usize] + p@.words();
                    lemma_append(base, w, tail);
                    assert(out@ =~= (base + w) + tail);
                }
            },
            None => {
                out.push(0);
                proof {
                    lemma_append(base, w, seq![0usize]);
                    assert(out@ =~= (base + w) + seq![0usize]);
                }
            },
        }
    }
}

/// Appending is associative.
proof fn lemma_append(a: Seq<usize>, b: Seq<usize>, c: Seq<usize>)
    ensures
        (a + b) + c == a + (b + c),
{
    assert((a + b) + c =~= a + (b + c));
}

impl TensorLayout {
    /// An owned copy of a borrowed layout.
    pub fn of(layout: TensorLayoutRef<'_>) -> (r: TensorLayout)
        ensures
            r@ == layout@,
    {
        let partition = match layout.partition {
            Some(p) => Some(
                PartitionLayout {
                    shape: shape::copy_usize(p.shape),
                    strides: shape::copy_usize(p.strides),
                    prefix_coverage: p.prefix_coverage,
                },
            ),
            None => None,
        };
        TensorLayout {
            dtype: layout.dtype,
            device_id: layout.device_id,
            shape: shape::copy_i32(layout.shape),
            strides: shape::copy_i32(layout.strides),
            spec: layout.spec.clone(),
            partition,
        }
    }

    /// The layout, borrowed.
    pub fn borrowed(&self) -> (r: TensorLayoutRef<'_>)
        ensures
            r@ == self@,
    {
        let partition = match &self.partition {
            Some(p) => Some(
                PartitionParts {
                    shape: p.shape.as_slice(),
                    strides: p.strides.as_slice(),
                    prefix_coverage: p.prefix_coverage,
                },
            ),
            None => None,
        };
        TensorLayoutRef {
            dtype: self.dtype,
            device_id: self.device_id,
            shape: self.shape.as_slice(),
            strides: self.strides.as_slice(),
            spec: &self.spec,
            partition,
        }
    }

    /// The alignment the kernel assumes of the base pointer.
    pub fn base_ptr_div(&self) -> (r: DivHint)
        ensures
            r == self@.spec.base_ptr_div,
    {
        self.spec.base_ptr_div
    }

    fn arg_count(&self) -> (r: Option<usize>)
        ensures
            match r {
                Some(n) => n == LayoutModel::Tensor(self@).arg_count_spec(),
                None => LayoutModel::Tensor(self@).arg_count_spec() > usize::MAX,
            },
    {
        let (p, q): (usize, usize) = match &self.partition {
            Some(parts) => (parts.shape.len(), parts.strides.len()),
            None => (0, 0),
        };
        let tensor = match self.shape.len().checked_add(self.strides.len()) {
            Some(n) => n.checked_add(1),
            None => None,
        };
        match (tensor, p.checked_add(q)) {
            (Some(n), Some(m)) => n.checked_add(m),
            _ => None,
        }
    }
}

impl ArgLayout {
    /// A scalar parameter with the divisibility hint of its value: present for
    /// integer scalars declared with a concrete integer type.
    pub fn scalar(dtype: DTypeId, hint: Option<DivHint>) -> (r: ArgLayout)
        ensures
            r@ == (LayoutModel::Scalar { dtype, hint }),
    {
        ArgLayout::Scalar { dtype, hint }
    }

    /// A raw device pointer parameter.
    pub fn pointer(dtype: DTypeId, ptr: u64) -> (r: ArgLayout)
        ensures
            r@ matches LayoutModel::Pointer { dtype: d, hint } && d == dtype && hint.divisor
                == crate::dtype::pow2_divisor(ptr as int),
    {
        ArgLayout::Pointer { dtype, hint: DivHint::from_ptr(ptr) }
    }

    /// How many driver arguments this parameter marshals to, `None` where that
    /// leaves `usize`.
    pub fn arg_count(&self) -> (r: Option<usize>)
        ensures
            match r {
                Some(n) => n == self@.arg_count_spec(),
                None => self@.arg_count_spec() > usize::MAX,
            },
    {
        match self {
            ArgLayout::Tensor(t) => t.arg_count(),
            ArgLayout::Scalar { .. } | ArgLayout::Pointer { .. } => Some(1),
        }
    }

    /// This layout's part of a cache key.
    pub fn key(&self) -> (r: LayoutKey<'_>)
        ensures
            r@ == self@.key(),
    {
        match self {
            ArgLayout::Tensor(t) => LayoutKey::Tensor(t.borrowed()),
            ArgLayout::Scalar { dtype, .. } => LayoutKey::Scalar(*dtype),
            ArgLayout::Pointer { dtype, hint } => LayoutKey::Pointer(*dtype, *hint),
        }
    }

    /// Whether two layouts are equal.
    pub fn same(&self, other: &ArgLayout) -> (r: bool)
        ensures
            r == (self@ == other@),
    {
        match (self, other) {
            (ArgLayout::Tensor(t), ArgLayout::Tensor(u)) => t.borrowed().same(&u.borrowed()),
            (
                ArgLayout::Scalar { dtype: d, hint: h },
                ArgLayout::Scalar { dtype: e, hint: g },
            ) => *d == *e && same_hint(*h, *g),
            (
                ArgLayout::Pointer { dtype: d, hint: h },
                ArgLayout::Pointer { dtype: e, hint: g },
            ) => *d == *e && *h == *g,
            _ => false,
        }
    }
}

/// Whether two optional hints are equal.
pub fn same_hint(a: Option<DivHint>, b: Option<DivHint>) -> (r: bool)
    ensures
        r == (a == b),
{
    match (a, b) {
        (Some(x), Some(y)) => x == y,
        (None, None) => true,
        _ => false,
    }
}

impl<'a> LayoutKey<'a> {
    /// Whether two keys are equal.
    pub fn same(&self, other: &LayoutKey<'_>) -> (r: bool)
        ensures
            r == (self@ == other@),
    {
        match (self, other) {
            (LayoutKey::Tensor(t), LayoutKey::Tensor(u)) => t.same(u),
            (LayoutKey::Scalar(d), LayoutKey::Scalar(e)) => *d == *e,
            (LayoutKey::Pointer(d, h), LayoutKey::Pointer(e, g)) => *d == *e && *h == *g,
            _ => false,
        }
    }

    /// Appends the words that the argument adds to a cache key.
    pub fn push_words(&self, out: &mut Vec<usize>)
        ensures
            final(out)@ == old(out)@ + self@.words(),
    {
        match self {
            LayoutKey::Tensor(t) => {
                out.push(0);
                t.push_words(out);
            },
            LayoutKey::Scalar(dtype) => {
                out.push(1);
                out.push(dtype.to_index() as usize);
            },
            LayoutKey::Pointer(dtype, hint) => {
                out.push(2);
                out.push(dtype.to_index() as usize);
                out.push((hint.divisor as i64 + 0x8000_0000) as usize);
            },
        }
        assert(out@ =~= old(out)@ + self@.words());
    }
}

/// A key covers all of a layout but a scalar's hint: two layouts have one key exactly
/// when they are equal, or are scalars of one type.
pub proof fn a_key_covers_all_but_a_scalars_hint(a: LayoutModel, b: LayoutModel)
    ensures
        a.key() == b.key() <==> a == b || (a is Scalar && b is Scalar && a->Scalar_dtype
            == b->Scalar_dtype),
{
}

/// A tensor parameter takes a pointer and one argument per dimension and stride, its
/// own and its partition's; any other parameter takes one argument.
pub proof fn a_parameter_takes_one_argument_per_value(layout: LayoutModel, t: TensorModel)
    ensures
        !(layout is Tensor) ==> layout.arg_count_spec() == 1,
        t.partition is None ==> LayoutModel::Tensor(t).arg_count_spec() == 1 + t.shape.len()
            + t.strides.len(),
        t.partition is Some ==> LayoutModel::Tensor(t).arg_count_spec() == 1 + t.shape.len()
            + t.strides.len() + t.partition->Some_0.shape.len()
            + t.partition->Some_0.strides.len(),
{
}

/// Lists of hints are told apart by their words, whatever follows them.
pub proof fn lists_of_hints_are_told_apart(a: Seq<DivHint>, b: Seq<DivHint>, x: Seq<usize>, y: Seq<usize>)
    requires
        a.len() <= usize::MAX,
        b.len() <= usize::MAX,
        hint_words(a) + x == hint_words(b) + y,
    ensures
        a == b,
        x == y,
{
    assert((hint_words(a) + x)[0] == a.len() as usize);
    assert((hint_words(b) + y)[0] == b.len() as usize);
    key::lemma_same_front(hint_words(a), hint_words(b), x, y);
    assert forall|i: int| 0 <= i < a.len() implies #[trigger] a[i] == b[i] by {
        assert(hint_words(a)[i + 1] == key::i32_word(a[i].divisor));
        assert(hint_words(b)[i + 1] == key::i32_word(b[i].divisor));
    }
    assert(a =~= b);
}

/// Lists of flags are told apart by their words, whatever follows them.
pub proof fn lists_of_flags_are_told_apart(a: Seq<bool>, b: Seq<bool>, x: Seq<usize>, y: Seq<usize>)
    requires
        a.len() <= usize::MAX,
        b.len() <= usize::MAX,
        flag_words(a) + x == flag_words(b) + y,
    ensures
        a == b,
        x == y,
{
    assert((flag_words(a) + x)[0] == a.len() as usize);
    assert((flag_words(b) + y)[0] == b.len() as usize);
    key::lemma_same_front(flag_words(a), flag_words(b), x, y);
    assert forall|i: int| 0 <= i < a.len() implies #[trigger] a[i] == b[i] by {
        assert(flag_words(a)[i + 1] == key::flag_word(a[i]));
        assert(flag_words(b)[i + 1] == key::flag_word(b[i]));
    }
    assert(a =~= b);
}

impl PartitionModel {
    /// The length of every list fits a word.
    pub open spec fn countable(self) -> bool {
        self.shape.len() <= usize::MAX && self.strides.len() <= usize::MAX
    }
}

impl TensorModel {
    /// The length of every list fits a word.
    pub open spec fn countable(self) -> bool {
        &&& self.shape.len() <= usize::MAX
        &&& self.strides.len() <= usize::MAX
        &&& self.spec.shape_div.len() <= usize::MAX
        &&& self.spec.stride_div.len() <= usize::MAX
        &&& self.spec.stride_one.len() <= usize::MAX
        &&& self.partition matches Some(p) ==> p.countable()
    }
}

impl KeyModel {
    /// The length of every list fits a word.
    pub open spec fn countable(self) -> bool {
        self matches KeyModel::Tensor(t) ==> t.countable()
    }
}

/// Partitions are told apart by their words, whatever follows them.
pub proof fn partitions_are_told_apart(
    a: PartitionModel,
    b: PartitionModel,
    x: Seq<usize>,
    y: Seq<usize>,
)
    requires
        a.countable(),
        b.countable(),
        a.words() + x == b.words() + y,
    ensures
        a == b,
        x == y,
{
    let (fa, fb) = (
        seq![key::flag_word(a.prefix_coverage)],
        seq![key::flag_word(b.prefix_coverage)],
    );
    let (ra, rb) = (key::usize_words(a.strides) + (fa + x), key::usize_words(b.strides) + (fb + y));
    assert(a.words() + x =~= key::usize_words(a.shape) + ra);
    assert(b.words() + y =~= key::usize_words(b.shape) + rb);
    key::lists_of_sizes_are_told_apart(a.shape, b.shape, ra, rb);
    key::lists_of_sizes_are_told_apart(a.strides, b.strides, fa + x, fb + y);
    key::lemma_same_front(fa, fb, x, y);
    assert(fa[0] == fb[0]);
    key::flags_and_dimensions_are_told_apart(a.prefix_coverage, b.prefix_coverage, 0, 0);
    assert(a =~= b);
}

/// The words of a partition that may be absent.
spec fn partition_words(p: Option<PartitionModel>) -> Seq<usize> {
    match p {
        Some(p) => seq![1usize] + p.words(),
        None => seq![0usize],
    }
}

proof fn lemma_optional_partitions_differ(
    a: Option<PartitionModel>,
    b: Option<PartitionModel>,
    x: Seq<usize>,
    y: Seq<usize>,
)
    requires
        a matches Some(p) ==> p.countable(),
        b matches Some(p) ==> p.countable(),
        partition_words(a) + x == partition_words(b) + y,
    ensures
        a == b,
        x == y,
{
    assert((partition_words(a) + x)[0] == partition_words(a)[0]);
    assert((partition_words(b) + y)[0] == partition_words(b)[0]);
    assert(partition_words(a)[0] == if a is Some {
        1usize
    } else {
        0usize
    });
    assert(partition_words(b)[0] == if b is Some {
        1usize
    } else {
        0usize
    });
    match (a, b) {
        (Some(p), Some(q)) => {
            assert(partition_words(a) + x =~= seq![1usize] + (p.words() + x));
            assert(partition_words(b) + y =~= seq![1usize] + (q.words() + y));
            key::lemma_same_front(seq![1usize], seq![1usize], p.words() + x, q.words() + y);
            partitions_are_told_apart(p, q, x, y);
        },
        _ => {
            key::lemma_same_front(partition_words(a), partition_words(b), x, y);
        },
    }
}

proof fn lemma_tensor_words(t: TensorModel, x: Seq<usize>)
    ensures
        t.words() + x == seq![t.dtype.index() as usize, t.device_id] + (key::i32_words(t.shape) + (
        key::i32_words(t.strides) + (hint_words(t.spec.shape_div) + (hint_words(t.spec.stride_div)
            + (flag_words(t.spec.stride_one) + (seq![key::i32_word(t.spec.base_ptr_div.divisor)] + (
        partition_words(t.partition) + x))))))),
{
    let h = seq![t.dtype.index() as usize, t.device_id];
    let (s1, s2) = (key::i32_words(t.shape), key::i32_words(t.strides));
    let (s3, s4) = (hint_words(t.spec.shape_div), hint_words(t.spec.stride_div));
    let (s5, s6) = (
        flag_words(t.spec.stride_one),
        seq![key::i32_word(t.spec.base_ptr_div.divisor)],
    );
    let s7 = partition_words(t.partition);
    assert(t.words() == h + s1 + s2 + s3 + s4 + s5 + s6 + s7);
    key::lemma_joined_words(h + s1 + s2 + s3 + s4 + s5 + s6, s7, x);
    key::lemma_joined_words(h + s1 + s2 + s3 + s4 + s5, s6, s7 + x);
    key::lemma_joined_words(h + s1 + s2 + s3 + s4, s5, s6 + (s7 + x));
    key::lemma_joined_words(h + s1 + s2 + s3, s4, s5 + (s6 + (s7 + x)));
    key::lemma_joined_words(h + s1 + s2, s3, s4 + (s5 + (s6 + (s7 + x))));
    key::lemma_joined_words(h + s1, s2, s3 + (s4 + (s5 + (s6 + (s7 + x)))));
    key::lemma_joined_words(h, s1, s2 + (s3 + (s4 + (s5 + (s6 + (s7 + x))))));
}

/// Tensor layouts are told apart by their words, whatever follows them: type, device,
/// shape, strides, specialization and partition all count.
pub proof fn tensor_layouts_are_told_apart(
    a: TensorModel,
    b: TensorModel,
    x: Seq<usize>,
    y: Seq<usize>,
)
    requires
        a.countable(),
        b.countable(),
        a.words() + x == b.words() + y,
    ensures
        a == b,
        x == y,
{
    let (ha, hb) = (
        seq![a.dtype.index() as usize, a.device_id],
        seq![b.dtype.index() as usize, b.device_id],
    );
    let (ia, ib) = (
        seq![key::i32_word(a.spec.base_ptr_div.divisor)],
        seq![key::i32_word(b.spec.base_ptr_div.divisor)],
    );
    let (a0, b0) = (partition_words(a.partition) + x, partition_words(b.partition) + y);
    let (a1, b1) = (ia + a0, ib + b0);
    let (a2, b2) = (flag_words(a.spec.stride_one) + a1, flag_words(b.spec.stride_one) + b1);
    let (a3, b3) = (hint_words(a.spec.stride_div) + a2, hint_words(b.spec.stride_div) + b2);
    let (a4, b4) = (hint_words(a.spec.shape_div) + a3, hint_words(b.spec.shape_div) + b3);
    let (a5, b5) = (key::i32_words(a.strides) + a4, key::i32_words(b.strides) + b4);
    let (a6, b6) = (key::i32_words(a.shape) + a5, key::i32_words(b.shape) + b5);
    lemma_tensor_words(a, x);
    lemma_tensor_words(b, y);
    key::lemma_same_front(ha, hb, a6, b6);
    assert(ha[0] == hb[0] && ha[1] == hb[1]);
    crate::dtype::types_have_their_own_numbers(a.dtype, b.dtype);
    key::lists_of_dimensions_are_told_apart(a.shape, b.shape, a5, b5);
    key::lists_of_dimensions_are_told_apart(a.strides, b.strides, a4, b4);
    lists_of_hints_are_told_apart(a.spec.shape_div, b.spec.shape_div, a3, b3);
    lists_of_hints_are_told_apart(a.spec.stride_div, b.spec.stride_div, a2, b2);
    lists_of_flags_are_told_apart(a.spec.stride_one, b.spec.stride_one, a1, b1);
    key::lemma_same_front(ia, ib, a0, b0);
    assert(ia[0] == ib[0]);
    key::flags_and_dimensions_are_told_apart(
        true,
        true,
        a.spec.base_ptr_div.divisor,
        b.spec.base_ptr_div.divisor,
    );
    lemma_optional_partitions_differ(a.partition, b.partition, x, y);
    assert(a.spec =~= b.spec);
    assert(a =~= b);
}

/// Argument keys are told apart by their words, whatever follows them.
pub proof fn argument_keys_are_told_apart(
    a: KeyModel,
    b: KeyModel,
    x: Seq<usize>,
    y: Seq<usize>,
)
    requires
        a.countable(),
        b.countable(),
        a.words() + x == b.words() + y,
    ensures
        a == b,
        x == y,
        a.words().len() > 0,
{
    let (wa, wb) = (a.words() + x, b.words() + y);
    assert(wa[0] == wb[0]);
    match (a, b) {
        (KeyModel::Tensor(t), KeyModel::Tensor(u)) => {
            assert(wa =~= seq![0usize] + (t.words() + x));
            assert(wb =~= seq![0usize] + (u.words() + y));
            key::lemma_same_front(seq![0usize], seq![0usize], t.words() + x, u.words() + y);
            tensor_layouts_are_told_apart(t, u, x, y);
        },
        (KeyModel::Scalar(d), KeyModel::Scalar(e)) => {
            key::lemma_same_front(a.words(), b.words(), x, y);
            assert(a.words()[1] == b.words()[1]);
            crate::dtype::types_have_their_own_numbers(d, e);
        },
        (KeyModel::Pointer(d, g), KeyModel::Pointer(e, h)) => {
            key::lemma_same_front(a.words(), b.words(), x, y);
            assert(a.words()[1] == b.words()[1] && a.words()[2] == b.words()[2]);
            crate::dtype::types_have_their_own_numbers(d, e);
            key::flags_and_dimensions_are_told_apart(true, true, g.divisor, h.divisor);
        },
        _ => {},
    }
}

/// A layout is shown by its kind and its parts in order: type, device, shape, strides,
/// specialization and partition of a tensor, type and hint of any other parameter.
pub proof fn layouts_are_shown_in_order(
    t: TensorModel,
    p: PartitionModel,
    dtype: DTypeId,
    hint: DivHint,
    maybe: Option<DivHint>,
)
    ensures
        LayoutModel::Tensor(t).text() == "Tensor("@ + t.text() + ")"@,
        (LayoutModel::Scalar { dtype, hint: maybe }).text() == "Scalar { dtype: "@
            + show::dtype_text(dtype) + ", hint: "@ + show::optional_hint_text(maybe) + " }"@,
        (LayoutModel::Pointer { dtype, hint }).text() == "Pointer { dtype: "@ + show::dtype_text(
            dtype,
        ) + ", hint: "@ + show::hint_text(hint) + " }"@,
        t.text() == "TensorLayout { dtype: "@ + show::dtype_text(t.dtype) + ", device_id: "@
            + text::decimal(t.device_id as nat) + ", shape: "@ + text::list_text(
            text::ints_of_i32(t.shape),
        ) + ", strides: "@ + text::list_text(text::ints_of_i32(t.strides)) + ", spec: "@
            + show::specialization_text(t.spec) + ", partition: "@ + optional_partition_text(
            t.partition,
        ) + " }"@,
        optional_partition_text(Some(p)) == "Some("@ + ("PartitionLayout { shape: "@
            + text::list_text(text::ints_of_usize(p.shape)) + ", strides: "@ + text::list_text(
            text::ints_of_usize(p.strides),
        ) + ", prefix_coverage: "@ + show::flag_text(p.prefix_coverage) + " }"@) + ")"@,
        optional_partition_text(None) == "None"@,
{
}

} // verus!
