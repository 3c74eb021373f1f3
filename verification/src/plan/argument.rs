//! Plan arguments: tensors and scalars as a replay sees them, and raw pointers
//! and scalars.
use vstd::prelude::*;

use crate::binding::KernelInputStored;
use crate::dtype::{DTypeId, DivHint, SpecializationBits};
use crate::partition::{Partition, PartitionObject};
use crate::plan::layout;
use crate::plan::layout::{
    ArgLayout, KeyModel, LayoutKey, LayoutModel, PartitionModel, PartitionParts, TensorLayout,
    TensorLayoutRef, TensorModel,
};
use crate::scalar;
use crate::scalar::{PlanScalar, SlotValue};
use crate::show;
use crate::tensor::{Tensor, TensorView};
use crate::text;

verus! {

/// One argument of a replay, whatever its kind: its layout apart from a scalar's
/// divisibility hint, that hint, the value written into its first slot, and
/// whether its device access writes (`None` for a scalar).
#[derive(Debug, Clone, Copy)]
pub struct ErasedPlanArg<'a> {
    pub key: LayoutKey<'a>,
    pub hint: Option<DivHint>,
    pub slot: u128,
    pub access: Option<bool>,
}

/// An argument with this key and hint has exactly the layout.
pub open spec fn has_layout(key: KeyModel, hint: Option<DivHint>, layout: LayoutModel) -> bool {
    &&& key == layout.key()
    &&& layout matches LayoutModel::Scalar { hint: Some(h), .. } ==> hint == Some(h)
}

/// Whether `arg` has exactly `layout`.
pub fn arg_matches(arg: &ErasedPlanArg<'_>, layout: &ArgLayout) -> (r: bool)
    ensures
        r == has_layout(arg.key@, arg.hint, layout@),
{
    arg.key.same(&layout.key()) && match layout {
        ArgLayout::Scalar { hint: Some(h), .. } => layout::same_hint(arg.hint, Some(*h)),
        _ => true,
    }
}

impl<'a> ErasedPlanArg<'a> {
    /// A scalar argument.
    pub fn scalar<T: PlanScalar + Copy>(value: T) -> (r: ErasedPlanArg<'a>)
        ensures
            r.key@ == KeyModel::Scalar(value.dtype_spec()),
            r.hint == scalar::hint_of(value.dtype_spec(), value.slot()),
            r.slot == value.slot(),
            r.access is None,
    {
        ErasedPlanArg {
            key: LayoutKey::Scalar(value.dtype()),
            hint: value.div_hint(),
            slot: value.to_slot(),
            access: None,
        }
    }
}

/// The accesses that arguments make, in argument order: the position of each
/// argument that has one, and whether it writes.
pub open spec fn accesses(args: Seq<ErasedPlanArg<'_>>) -> Seq<(usize, bool)>
    decreases args.len(),
{
    if args.len() == 0 {
        Seq::empty()
    } else {
        match args.last().access {
            Some(write) => accesses(args.drop_last()).push(((args.len() - 1) as usize, write)),
            None => accesses(args.drop_last()),
        }
    }
}

/// The accesses to acquire before a launch over `args` is submitted, in order.
pub fn accesses_of(args: &[ErasedPlanArg<'_>]) -> (r: Vec<(usize, bool)>)
    ensures
        r@ == accesses(args@),
{
    let mut out: Vec<(usize, bool)> = Vec::new();
    let mut i: usize = 0;
    while i < args.len()
        invariant
            i <= args.len(),
            out@ == accesses(args@.take(i as int)),
        decreases args.len() - i,
    {
        assert(args@.take(i + 1).drop_last() =~= args@.take(i as int));
        match args[i].access {
            Some(write) => {
                out.push((i, write));
            },
            None => {},
        }
        i += 1;
    }
    assert(args@.take(i as int) =~= args@);
    out
}

/// Every access is listed once, in argument order, with the write flag of its
/// argument; an argument without an access is not listed.
pub proof fn every_access_is_listed_in_order(args: Seq<ErasedPlanArg<'_>>)
    requires
        args.len() <= usize::MAX,
    ensures
        forall|a: int, b: int|
            0 <= a < b < accesses(args).len() ==> (#[trigger] accesses(args)[a]).0 < (
            #[trigger] accesses(args)[b]).0,
        forall|a: int|
            0 <= a < accesses(args).len() ==> (#[trigger] accesses(args)[a]).0 < args.len()
                && args[accesses(args)[a].0 as int].access == Some(accesses(args)[a].1),
        forall|i: int|
            0 <= i < args.len() && (#[trigger] args[i]).access is Some ==> accesses(args).contains(
                (i as usize, args[i].access->Some_0),
            ),
    decreases args.len(),
{
    if args.len() > 0 {
        let init = args.drop_last();
        every_access_is_listed_in_order(init);
        let rest = accesses(init);
        let all = accesses(args);
        assert forall|i: int|
            0 <= i < args.len() && (#[trigger] args[i]).access is Some implies all.contains(
            (i as usize, args[i].access->Some_0),
        ) by {
            let entry = (i as usize, args[i].access->Some_0);
            if i < init.len() {
                assert(init[i] == args[i]);
                assert(rest.contains(entry));
                let k = choose|k: int| 0 <= k < rest.len() && #[trigger] rest[k] == entry;
                assert(all[k] == entry);
            } else {
                assert(all[all.len() - 1] == entry);
            }
        }
        assert forall|a: int| 0 <= a < all.len() implies (#[trigger] all[a]).0 < args.len()
            && args[all[a].0 as int].access == Some(all[a].1) by {
            if a < rest.len() {
                assert(rest[a] == all[a]);
                assert(init[rest[a].0 as int] == args[rest[a].0 as int]);
            }
        }
        assert forall|a: int, b: int| 0 <= a < b < all.len() implies (#[trigger] all[a]).0 < (
        #[trigger] all[b]).0 by {
            assert(rest[a] == all[a]);
            if b < rest.len() {
                assert(rest[b] == all[b]);
            }
        }
    }
}

/// A tensor argument: its layout, the pointer the kernel receives where there is
/// device memory, and whether the kernel writes it.
#[derive(Debug, Clone, Copy)]
pub struct TensorArg<'a> {
    pub layout: TensorLayoutRef<'a>,
    pub device_ptr: Option<u64>,
    pub write: bool,
}

impl<'a> TensorArg<'a> {
    /// A whole tensor as an input.
    pub fn input(tensor: &'a Tensor, spec: &'a SpecializationBits) -> (r: TensorArg<'a>)
        ensures
            r.layout@ == (TensorModel {
                dtype: tensor.elem(),
                device_id: tensor.backing().device() as usize,
                shape: tensor.dims(),
                strides: tensor.steps(),
                spec: spec@,
                partition: None,
            }),
            r.device_ptr == tensor.pointer(),
            !r.write,
    {
        TensorArg {
            layout: TensorLayoutRef::new(
                tensor.dtype(),
                tensor.device_id(),
                tensor.shape(),
                tensor.strides(),
                spec,
                None,
            ),
            device_ptr: tensor.cu_deviceptr(),
            write: false,
        }
    }

    /// A view as an input; the kernel receives the storage's pointer plus the
    /// view's offset.
    pub fn view(view: &'a TensorView<'a>, spec: &'a SpecializationBits) -> (r: TensorArg<'a>)
        ensures
            r.layout@ == (TensorModel {
                dtype: view.source().elem(),
                device_id: view.source().backing().device() as usize,
                shape: view.dims(),
                strides: view.steps(),
                spec: spec@,
                partition: None,
            }),
            r.device_ptr == view.pointer(),
            !r.write,
    {
        TensorArg {
            layout: TensorLayoutRef::new(
                view.base().dtype(),
                view.base().device_id(),
                view.shape(),
                view.strides(),
                spec,
                None,
            ),
            device_ptr: view.device_ptr(),
            write: false,
        }
    }

    /// A partitioned tensor, owned or borrowed, as an output.
    pub fn output<O: PartitionObject>(
        partition: &'a Partition<O>,
        spec: &'a SpecializationBits,
    ) -> (r: TensorArg<'a>)
        ensures
            r.layout@ == (TensorModel {
                dtype: partition.object.tensor().elem(),
                device_id: partition.object.tensor().backing().device() as usize,
                shape: partition.object.tensor().dims(),
                strides: partition.object.tensor().steps(),
                spec: spec@,
                partition: Some(
                    PartitionModel {
                        shape: partition.partition_shape@,
                        strides: partition.partition_strides@,
                        prefix_coverage: partition.prefix_coverage,
                    },
                ),
            }),
            r.device_ptr == partition.object.tensor().pointer(),
            r.write,
    {
        let tensor = partition.object.as_tensor();
        TensorArg {
            layout: TensorLayoutRef::new(
                tensor.dtype(),
                tensor.device_id(),
                tensor.shape(),
                tensor.strides(),
                spec,
                Some(PartitionParts::of(partition)),
            ),
            device_ptr: tensor.cu_deviceptr(),
            write: true,
        }
    }

    /// The layout as a plan records it.
    pub fn tensor_layout(&self) -> (r: ArgLayout)
        ensures
            r@ == LayoutModel::Tensor(self.layout@),
    {
        ArgLayout::Tensor(TensorLayout::of(self.layout))
    }

    /// The argument of a replay, which needs device memory.
    pub fn erase(&self) -> (r: Option<ErasedPlanArg<'a>>)
        ensures
            match self.device_ptr {
                Some(ptr) => r matches Some(arg) && arg.key@ == KeyModel::Tensor(self.layout@)
                    && arg.hint is None && arg.slot == ptr && arg.access == Some(self.write),
                None => r is None,
            },
    {
        match self.device_ptr {
            Some(ptr) => Some(
                ErasedPlanArg {
                    key: LayoutKey::Tensor(self.layout),
                    hint: None,
                    slot: ptr.to_slot(),
                    access: Some(self.write),
                },
            ),
            None => None,
        }
    }
}

/// The contents of a raw argument.
pub enum RawModel {
    Ptr(u64),
    Scalar { dtype: DTypeId, hint: Option<DivHint>, bits: u128 },
}

#[derive(Debug, Clone, Copy)]
enum RawArgKind {
    Ptr(u64),
    Scalar { dtype: DTypeId, hint: Option<DivHint>, bits: u128 },
}

/// One argument of a raw launch: a device pointer for a tensor or pointer
/// parameter, or a scalar's value. Opaque, so that a scalar's dtype and hint are
/// always its value's.
#[derive(Debug, Clone, Copy)]
pub struct RawArg(RawArgKind);

impl View for RawArg {
    type V = RawModel;

    closed spec fn view(&self) -> RawModel {
        match self.0 {
            RawArgKind::Ptr(p) => RawModel::Ptr(p),
            RawArgKind::Scalar { dtype, hint, bits } => RawModel::Scalar { dtype, hint, bits },
        }
    }
}

impl RawModel {
    /// The argument as messages show it.
    pub open spec fn text(self) -> Seq<char> {
        match self {
            RawModel::Ptr(p) => "RawArg(Ptr("@ + text::decimal(p as nat) + "))"@,
            RawModel::Scalar { dtype, hint, bits } => "RawArg(Scalar { dtype: "@ + show::dtype_text(
                dtype,
            ) + ", hint: "@ + show::optional_hint_text(hint) + ", bits: "@ + text::decimal(
                bits as nat,
            ) + " })"@,
        }
    }

    /// The slot value of the argument.
    pub open spec fn bits_of(self) -> u128 {
        match self {
            RawModel::Ptr(p) => p as u128,
            RawModel::Scalar { bits, .. } => bits,
        }
    }
}

/// `p` is a multiple of `d`; only 0 is a multiple of 0.
pub open spec fn multiple_of(p: u64, d: u64) -> bool {
    if d == 0 {
        p == 0
    } else {
        p % d == 0
    }
}

/// A raw argument satisfies a layout: the kinds agree, a pointer is as aligned
/// and an integer scalar at least as divisible as the kernel assumes, and scalar
/// types are equal.
pub open spec fn raw_satisfies(layout: LayoutModel, arg: RawModel) -> bool {
    match (layout, arg) {
        (LayoutModel::Tensor(t), RawModel::Ptr(p)) => multiple_of(
            p,
            t.spec.base_ptr_div.divisor as u64,
        ),
        (LayoutModel::Pointer { hint, .. }, RawModel::Ptr(p)) => multiple_of(
            p,
            hint.divisor as u64,
        ),
        (
            LayoutModel::Scalar { dtype, hint },
            RawModel::Scalar { dtype: d, hint: raw, .. },
        ) => dtype == d && (match hint {
            None => true,
            Some(h) => raw matches Some(r) && r.divisor >= h.divisor,
        }),
        _ => false,
    }
}

impl RawArg {
    /// A device pointer, for a tensor or pointer parameter.
    pub fn ptr(ptr: u64) -> (r: RawArg)
        ensures
            r@ == RawModel::Ptr(ptr),
    {
        RawArg(RawArgKind::Ptr(ptr))
    }

    /// A scalar parameter's value.
    pub fn scalar<T: PlanScalar + Copy>(value: T) -> (r: RawArg)
        ensures
            r@ == (RawModel::Scalar {
                dtype: value.dtype_spec(),
                hint: scalar::hint_of(value.dtype_spec(), value.slot()),
                bits: value.slot(),
            }),
    {
        RawArg(
            RawArgKind::Scalar {
                dtype: value.dtype(),
                hint: value.div_hint(),
                bits: value.to_slot(),
            },
        )
    }

    /// The slot value of the argument.
    pub fn slot_value(&self) -> (r: u128)
        ensures
            r == self@.bits_of(),
    {
        match self.0 {
            RawArgKind::Ptr(p) => p.to_slot(),
            RawArgKind::Scalar { bits, .. } => bits,
        }
    }

    /// The argument as messages show it.
    pub fn to_string(&self) -> (r: String)
        ensures
            r@ == self@.text(),
    {
        match self.0 {
            RawArgKind::Ptr(p) => {
                let mut out = "RawArg(Ptr(".to_owned();
                out.append(show::number_shown(p as u128).as_str());
                out.append("))");
                out
            },
            RawArgKind::Scalar { dtype, hint, bits } => {
                let mut out = "RawArg(Scalar { dtype: ".to_owned();
                out.append(show::dtype_shown(dtype));
                out.append(", hint: ");
                out.append(show::optional_hint_shown(hint).as_str());
                out.append(", bits: ");
                out.append(show::number_shown(bits).as_str());
                out.append(" })");
                out
            },
        }
    }

    /// Whether the argument satisfies a layout.
    pub fn satisfies(&self, layout: &ArgLayout) -> (r: bool)
        ensures
            r == raw_satisfies(layout@, self@),
    {
        match (layout, &self.0) {
            (ArgLayout::Tensor(t), RawArgKind::Ptr(p)) => {
                let d = #[verifier::truncate] (t.base_ptr_div().divisor as u64);
                is_multiple(*p, d)
            },
            (ArgLayout::Pointer { hint, .. }, RawArgKind::Ptr(p)) => {
                let d = #[verifier::truncate] (hint.divisor as u64);
                is_multiple(*p, d)
            },
            (
                ArgLayout::Scalar { dtype, hint },
                RawArgKind::Scalar { dtype: d, hint: raw, .. },
            ) => *dtype == *d && (match hint {
                None => true,
                Some(h) => match raw {
                    Some(r) => r.divisor >= h.divisor,
                    None => false,
                },
            }),
            _ => false,
        }
    }
}

fn is_multiple(p: u64, d: u64) -> (r: bool)
    ensures
        r == multiple_of(p, d),
{
    if d == 0 {
        p == 0
    } else {
        p % d == 0
    }
}

/// A raw integer scalar satisfies a hinted layout of its type exactly when its
/// value is a multiple of what the kernel assumes.
pub proof fn raw_scalars_are_checked_for_divisibility(dtype: DTypeId, h: DivHint, slot: u128)
    requires
        dtype.hinted(),
        h.wf(),
    ensures
        raw_satisfies(
            LayoutModel::Scalar { dtype, hint: Some(h) },
            RawModel::Scalar { dtype, hint: scalar::hint_of(dtype, slot), bits: slot },
        ) <==> slot as int % h.divisor as int == 0,
{
    crate::dtype::a_hint_orders_divisibility(slot as int, h);
}

/// A scalar that a plan accepts as a typed argument, it accepts as a raw one.
pub proof fn matching_scalars_satisfy_raw_layouts(dtype: DTypeId, slot: u128, layout: LayoutModel)
    requires
        has_layout(KeyModel::Scalar(dtype), scalar::hint_of(dtype, slot), layout),
    ensures
        raw_satisfies(
            layout,
            RawModel::Scalar { dtype, hint: scalar::hint_of(dtype, slot), bits: slot },
        ),
{
}

/// A tensor matches the layout recorded from another tensor exactly when the two
/// layouts are equal: dtype, device, shape, strides, specialization and partition.
pub proof fn a_plan_accepts_exactly_its_tensor_layout(recorded: TensorModel, given: TensorModel)
    ensures
        has_layout(KeyModel::Tensor(given), None, LayoutModel::Tensor(recorded)) <==> given
            == recorded,
{
}

/// A scalar matches the layout recorded from another scalar exactly when the two
/// have one type and, for an integer type, one divisibility hint.
pub proof fn a_plan_accepts_exactly_its_scalar_layout(
    recorded: DTypeId,
    built: u128,
    given: DTypeId,
    slot: u128,
)
    ensures
        has_layout(
            KeyModel::Scalar(given),
            scalar::hint_of(given, slot),
            LayoutModel::Scalar { dtype: recorded, hint: scalar::hint_of(recorded, built) },
        ) <==> given == recorded && scalar::hint_of(given, slot) == scalar::hint_of(
            recorded,
            built,
        ),
{
}

/// A tensor output marshals to as many arguments as its layout counts.
pub proof fn an_output_pushes_what_its_layout_counts(
    ptr: u64,
    p: Partition<Tensor>,
    model: TensorModel,
)
    requires
        model.shape == p.object.dims(),
        model.strides == p.object.steps(),
        model.partition matches Some(q) && q.shape == p.partition_shape@ && q.strides
            == p.partition_strides@,
    ensures
        crate::binding::output_args(ptr, p).len() == LayoutModel::Tensor(model).arg_count_spec(),
{
}

/// A tensor input marshals to as many arguments as its layout counts.
pub proof fn an_input_pushes_what_its_layout_counts(ptr: u64, model: TensorModel)
    requires
        model.partition is None,
    ensures
        crate::binding::input_args(ptr, model.shape, model.strides).len() == LayoutModel::Tensor(
            model,
        ).arg_count_spec(),
{
}

/// A raw pointer stands for a tensor exactly when it is a whole number of times the
/// alignment that the kernel assumes of the tensor's base pointer.
pub proof fn a_raw_pointer_is_as_aligned_as_the_tensor(t: TensorModel, p: u64)
    requires
        t.spec.base_ptr_div.divisor >= 0,
    ensures
        raw_satisfies(LayoutModel::Tensor(t), RawModel::Ptr(p)) <==> exists|k: int| #[trigger]
            (k * t.spec.base_ptr_div.divisor) == p,
{
    lemma_multiple(p, t.spec.base_ptr_div);
}

/// A raw pointer stands for a pointer parameter exactly when it is a whole number of
/// times the alignment that the kernel assumes.
pub proof fn a_raw_pointer_is_as_aligned_as_the_pointer(dtype: DTypeId, hint: DivHint, p: u64)
    requires
        hint.divisor >= 0,
    ensures
        raw_satisfies(LayoutModel::Pointer { dtype, hint }, RawModel::Ptr(p)) <==> exists|
            k: int,
        | #[trigger] (k * hint.divisor) == p,
{
    lemma_multiple(p, hint);
}

proof fn lemma_multiple(p: u64, h: DivHint)
    requires
        h.divisor >= 0,
    ensures
        multiple_of(p, h.divisor as u64) <==> exists|k: int| #[trigger] (k * h.divisor) == p,
{
    let d = h.divisor as int;
    if d == 0 {
        assert(0 * h.divisor == 0);
        assert forall|k: int| #[trigger] (k * h.divisor) == 0 by {
            assert(k * d == 0) by (nonlinear_arith)
                requires
                    d == 0,
            ;
        }
    } else {
        vstd::arithmetic::div_mod::lemma_fundamental_div_mod(p as int, d);
        if multiple_of(p, h.divisor as u64) {
            let k = p as int / d;
            assert(k * d == d * k) by (nonlinear_arith);
            assert(k * h.divisor == p);
        }
        if exists|k: int| #[trigger] (k * h.divisor) == p {
            let k = choose|k: int| #[trigger] (k * h.divisor) == p;
            vstd::arithmetic::div_mod::lemma_mod_multiples_basic(k, d);
        }
    }
}

/// The pointer that a tensor's alignment was read from stands for the tensor, and so
/// does every pointer at least as aligned; a less aligned one does not.
pub proof fn a_tensors_own_pointer_stands_for_it(t: TensorModel, own: u64, p: u64)
    requires
        t.spec.base_ptr_div.divisor == crate::dtype::pow2_divisor(own as int),
    ensures
        raw_satisfies(LayoutModel::Tensor(t), RawModel::Ptr(own)),
        raw_satisfies(LayoutModel::Tensor(t), RawModel::Ptr(p)) <==> crate::dtype::pow2_divisor(
            p as int,
        ) >= crate::dtype::pow2_divisor(own as int),
{
    crate::dtype::a_hint_orders_divisibility(own as int, t.spec.base_ptr_div);
    crate::dtype::a_hint_orders_divisibility(p as int, t.spec.base_ptr_div);
}

/// A raw argument never stands for a parameter of another kind: a scalar for a tensor
/// or a pointer, a pointer for a scalar.
pub proof fn raw_arguments_keep_their_kind(layout: LayoutModel, arg: RawModel)
    requires
        raw_satisfies(layout, arg),
    ensures
        (arg is Ptr) <==> !(layout is Scalar),
{
}

/// A raw scalar stands for a scalar parameter of its own type, where it is hinted at
/// least as divisible as the kernel assumes; one that assumes nothing takes any value.
pub proof fn a_raw_scalar_has_the_parameters_type(
    dtype: DTypeId,
    hint: Option<DivHint>,
    given: DTypeId,
    raw: Option<DivHint>,
    bits: u128,
)
    ensures
        raw_satisfies(
            LayoutModel::Scalar { dtype, hint },
            RawModel::Scalar { dtype: given, hint: raw, bits },
        ) <==> given == dtype && (hint is None || (raw is Some && raw->Some_0.divisor
            >= hint->Some_0.divisor)),
{
}

/// An argument matches a recorded layout only of its own kind: a tensor an equal
/// tensor, a pointer a pointer of its type and alignment, a scalar a scalar of its type
/// whose hint, where one was recorded, is its own.
pub proof fn typed_arguments_match_their_own_kind(
    key: KeyModel,
    hint: Option<DivHint>,
    layout: LayoutModel,
)
    ensures
        has_layout(key, hint, layout) <==> match (key, layout) {
            (KeyModel::Tensor(given), LayoutModel::Tensor(recorded)) => given == recorded,
            (
                KeyModel::Pointer(given, aligned),
                LayoutModel::Pointer { dtype, hint: recorded },
            ) => given == dtype && aligned == recorded,
            (KeyModel::Scalar(given), LayoutModel::Scalar { dtype, hint: recorded }) => given
                == dtype && (recorded is None || hint == recorded),
            _ => false,
        },
{
}

/// A raw argument is passed by its value: a pointer's address, a scalar's bits.
pub proof fn raw_arguments_are_passed_by_value(
    p: u64,
    dtype: DTypeId,
    hint: Option<DivHint>,
    bits: u128,
)
    ensures
        RawModel::Ptr(p).bits_of() == p,
        (RawModel::Scalar { dtype, hint, bits }).bits_of() == bits,
{
}

/// A raw argument is shown by its kind and its values.
pub proof fn raw_arguments_are_shown_by_their_values(
    p: u64,
    dtype: DTypeId,
    hint: Option<DivHint>,
    bits: u128,
)
    ensures
        RawModel::Ptr(p).text() == "RawArg(Ptr("@ + text::decimal(p as nat) + "))"@,
        (RawModel::Scalar { dtype, hint, bits }).text() == "RawArg(Scalar { dtype: "@
            + show::dtype_text(dtype) + ", hint: "@ + show::optional_hint_text(hint) + ", bits: "@
            + text::decimal(bits as nat) + " })"@,
{
}

} // verus!
