//! The kinds of kernel parameter, as types, and what a parameter of each kind
//! accepts.
use std::marker::PhantomData;
use vstd::prelude::*;

use crate::plan::argument::{ErasedPlanArg, TensorArg};
use crate::plan::layout::{KeyModel, LayoutKey};
use crate::scalar;
use crate::scalar::{Float, FloatKind, PlanScalar, SlotValue};

verus! {

/// A tensor input.
pub struct In {
    marker: (),
}

/// A tensor output, bound through a partition.
pub struct Out {
    marker: (),
}

/// A scalar of type `T`.
pub struct Scalar<T> {
    marker: PhantomData<T>,
}

/// A scalar of one of the entry point's type parameters. Any scalar type is
/// accepted; the plan checks the dtype when it launches.
pub struct AnyScalar {
    marker: (),
}

/// A raw device pointer of an `unsafe` entry point, which no typed argument is.
pub struct Ptr {
    marker: (),
}

/// A parameter that launch plans cannot record.
pub struct Unsupported {
    marker: (),
}

/// Closes the set of plan arguments.
pub trait Sealed {

}

/// Closes the set of tensor arguments.
pub trait SealedTensor {

}

/// Closes the set of plan safeties.
pub trait SealedSafety {

}

/// A value that can be passed for a kernel parameter of kind `P`.
pub trait PlanArg<P>: Sealed {
    /// The argument, whatever its kind.
    spec fn erased_arg(&self) -> ErasedPlanArg<'_>;

    /// The argument, whatever its kind.
    fn erase_arg(&self) -> (r: ErasedPlanArg<'_>)
        ensures
            r == self.erased_arg(),
    ;
}

/// A tensor input with device memory.
pub struct InputArg<'a>(ErasedPlanArg<'a>);

/// A partitioned output with device memory.
pub struct OutputArg<'a>(ErasedPlanArg<'a>);

impl<'a> InputArg<'a> {
    pub closed spec fn arg(self) -> ErasedPlanArg<'a> {
        self.0
    }

    /// A tensor argument that the kernel reads; none without device memory, or
    /// for an output.
    pub fn new(tensor: &TensorArg<'a>) -> (r: Option<InputArg<'a>>)
        ensures
            r is Some <==> tensor.device_ptr is Some && !tensor.write,
            r matches Some(i) ==> i.arg().key@ == KeyModel::Tensor(tensor.layout@) && i.arg().hint
                is None && i.arg().slot == tensor.device_ptr->0 && i.arg().access == Some(false),
    {
        if tensor.write {
            return None;
        }
        match tensor.erase() {
            Some(arg) => Some(InputArg(arg)),
            None => None,
        }
    }
}

impl<'a> OutputArg<'a> {
    pub closed spec fn arg(self) -> ErasedPlanArg<'a> {
        self.0
    }

    /// A tensor argument that the kernel writes; none without device memory, or
    /// for an input.
    pub fn new(tensor: &TensorArg<'a>) -> (r: Option<OutputArg<'a>>)
        ensures
            r is Some <==> tensor.device_ptr is Some && tensor.write,
            r matches Some(o) ==> o.arg().key@ == KeyModel::Tensor(tensor.layout@) && o.arg().hint
                is None && o.arg().slot == tensor.device_ptr->0 && o.arg().access == Some(true),
    {
        if !tensor.write {
            return None;
        }
        match tensor.erase() {
            Some(arg) => Some(OutputArg(arg)),
            None => None,
        }
    }
}

impl<'a> Sealed for InputArg<'a> {

}

impl<'a> SealedTensor for InputArg<'a> {

}

impl<'a> PlanArg<In> for InputArg<'a> {
    closed spec fn erased_arg(&self) -> ErasedPlanArg<'_> {
        self.0
    }

    fn erase_arg(&self) -> (r: ErasedPlanArg<'_>) {
        self.0
    }
}

impl<'a> Sealed for OutputArg<'a> {

}

impl<'a> SealedTensor for OutputArg<'a> {

}

impl<'a> PlanArg<Out> for OutputArg<'a> {
    closed spec fn erased_arg(&self) -> ErasedPlanArg<'_> {
        self.0
    }

    fn erase_arg(&self) -> (r: ErasedPlanArg<'_>) {
        self.0
    }
}

/// The argument that a scalar is.
pub open spec fn scalar_arg<'a, T: PlanScalar>(value: T) -> ErasedPlanArg<'a> {
    ErasedPlanArg {
        key: LayoutKey::Scalar(value.dtype_spec()),
        hint: scalar::hint_of(value.dtype_spec(), value.slot()),
        slot: value.slot(),
        access: None,
    }
}

fn erase_scalar<'a, T: PlanScalar + Copy>(value: T) -> (r: ErasedPlanArg<'a>)
    ensures
        r == scalar_arg::<T>(value),
{
    ErasedPlanArg {
        key: LayoutKey::Scalar(value.dtype()),
        hint: value.div_hint(),
        slot: value.to_slot(),
        access: None,
    }
}

impl Sealed for u8 {

}

impl PlanArg<AnyScalar> for u8 {
    open spec fn erased_arg(&self) -> ErasedPlanArg<'_> {
        scalar_arg(*self)
    }

    fn erase_arg(&self) -> (r: ErasedPlanArg<'_>) {
        erase_scalar(*self)
    }
}

impl PlanArg<Scalar<u8>> for u8 {
    open spec fn erased_arg(&self) -> ErasedPlanArg<'_> {
        scalar_arg(*self)
    }

    fn erase_arg(&self) -> (r: ErasedPlanArg<'_>) {
        erase_scalar(*self)
    }
}

impl Sealed for u16 {

}

impl PlanArg<AnyScalar> for u16 {
    open spec fn erased_arg(&self) -> ErasedPlanArg<'_> {
        scalar_arg(*self)
    }

    fn erase_arg(&self) -> (r: ErasedPlanArg<'_>) {
        erase_scalar(*self)
    }
}

impl PlanArg<Scalar<u16>> for u16 {
    open spec fn erased_arg(&self) -> ErasedPlanArg<'_> {
        scalar_arg(*self)
    }

    fn erase_arg(&self) -> (r: ErasedPlanArg<'_>) {
        erase_scalar(*self)
    }
}

impl Sealed for u32 {

}

impl PlanArg<AnyScalar> for u32 {
    open spec fn erased_arg(&self) -> ErasedPlanArg<'_> {
        scalar_arg(*self)
    }

    fn erase_arg(&self) -> (r: ErasedPlanArg<'_>) {
        erase_scalar(*self)
    }
}

impl PlanArg<Scalar<u32>> for u32 {
    open spec fn erased_arg(&self) -> ErasedPlanArg<'_> {
        scalar_arg(*self)
    }

    fn erase_arg(&self) -> (r: ErasedPlanArg<'_>) {
        erase_scalar(*self)
    }
}

impl Sealed for u64 {

}

impl PlanArg<AnyScalar> for u64 {
    open spec fn erased_arg(&self) -> ErasedPlanArg<'_> {
        scalar_arg(*self)
    }

    fn erase_arg(&self) -> (r: ErasedPlanArg<'_>) {
        erase_scalar(*self)
    }
}

impl PlanArg<Scalar<u64>> for u64 {
    open spec fn erased_arg(&self) -> ErasedPlanArg<'_> {
        scalar_arg(*self)
    }

    fn erase_arg(&self) -> (r: ErasedPlanArg<'_>) {
        erase_scalar(*self)
    }
}

impl Sealed for i8 {

}

impl PlanArg<AnyScalar> for i8 {
    open spec fn erased_arg(&self) -> ErasedPlanArg<'_> {
        scalar_arg(*self)
    }

    fn erase_arg(&self) -> (r: ErasedPlanArg<'_>) {
        erase_scalar(*self)
    }
}

impl PlanArg<Scalar<i8>> for i8 {
    open spec fn erased_arg(&self) -> ErasedPlanArg<'_> {
        scalar_arg(*self)
    }

    fn erase_arg(&self) -> (r: ErasedPlanArg<'_>) {
        erase_scalar(*self)
    }
}

impl Sealed for i16 {

}

impl PlanArg<AnyScalar> for i16 {
    open spec fn erased_arg(&self) -> ErasedPlanArg<'_> {
        scalar_arg(*self)
    }

    fn erase_arg(&self) -> (r: ErasedPlanArg<'_>) {
        erase_scalar(*self)
    }
}

impl PlanArg<Scalar<i16>> for i16 {
    open spec fn erased_arg(&self) -> ErasedPlanArg<'_> {
        scalar_arg(*self)
    }

    fn erase_arg(&self) -> (r: ErasedPlanArg<'_>) {
        erase_scalar(*self)
    }
}

impl Sealed for i32 {

}

impl PlanArg<AnyScalar> for i32 {
    open spec fn erased_arg(&self) -> ErasedPlanArg<'_> {
        scalar_arg(*self)
    }

    fn erase_arg(&self) -> (r: ErasedPlanArg<'_>) {
        erase_scalar(*self)
    }
}

impl PlanArg<Scalar<i32>> for i32 {
    open spec fn erased_arg(&self) -> ErasedPlanArg<'_> {
        scalar_arg(*self)
    }

    fn erase_arg(&self) -> (r: ErasedPlanArg<'_>) {
        erase_scalar(*self)
    }
}

impl Sealed for i64 {

}

impl PlanArg<AnyScalar> for i64 {
    open spec fn erased_arg(&self) -> ErasedPlanArg<'_> {
        scalar_arg(*self)
    }

    fn erase_arg(&self) -> (r: ErasedPlanArg<'_>) {
        erase_scalar(*self)
    }
}

impl PlanArg<Scalar<i64>> for i64 {
    open spec fn erased_arg(&self) -> ErasedPlanArg<'_> {
        scalar_arg(*self)
    }

    fn erase_arg(&self) -> (r: ErasedPlanArg<'_>) {
        erase_scalar(*self)
    }
}

impl Sealed for bool {

}

impl PlanArg<AnyScalar> for bool {
    open spec fn erased_arg(&self) -> ErasedPlanArg<'_> {
        scalar_arg(*self)
    }

    fn erase_arg(&self) -> (r: ErasedPlanArg<'_>) {
        erase_scalar(*self)
    }
}

impl PlanArg<Scalar<bool>> for bool {
    open spec fn erased_arg(&self) -> ErasedPlanArg<'_> {
        scalar_arg(*self)
    }

    fn erase_arg(&self) -> (r: ErasedPlanArg<'_>) {
        erase_scalar(*self)
    }
}

impl<K: FloatKind> Sealed for Float<K> {

}

impl<K: FloatKind> PlanArg<AnyScalar> for Float<K> {
    open spec fn erased_arg(&self) -> ErasedPlanArg<'_> {
        scalar_arg(*self)
    }

    fn erase_arg(&self) -> (r: ErasedPlanArg<'_>) {
        erase_scalar(*self)
    }
}

impl<K: FloatKind> PlanArg<Scalar<Float<K>>> for Float<K> {
    open spec fn erased_arg(&self) -> ErasedPlanArg<'_> {
        scalar_arg(*self)
    }

    fn erase_arg(&self) -> (r: ErasedPlanArg<'_>) {
        erase_scalar(*self)
    }
}

/// A tuple with one argument per element of `P`, in order.
pub trait PlanArgs<P> {
    /// How many arguments the tuple has.
    spec fn arity() -> nat;

    /// The arguments, in order.
    spec fn erased(&self) -> Seq<ErasedPlanArg<'_>>;

    /// Every tuple of the type has as many arguments.
    proof fn has_arity(&self)
        ensures
            self.erased().len() == Self::arity(),
    ;

    /// The arguments, in order.
    fn erase(&self) -> (r: Vec<ErasedPlanArg<'_>>)
        ensures
            r@ == self.erased(),
    ;
}

impl PlanArgs<()> for () {
    open spec fn arity() -> nat {
        0
    }

    open spec fn erased(&self) -> Seq<ErasedPlanArg<'_>> {
        Seq::empty()
    }

    proof fn has_arity(&self) {
    }

    fn erase(&self) -> (r: Vec<ErasedPlanArg<'_>>) {
        let out: Vec<ErasedPlanArg<'_>> = Vec::new();
        assert(out@ =~= self.erased());
        out
    }
}

/// Calls a function with the elements of a tuple as its arguments.
pub trait SpreadArgs<F, R>: Sized {
    /// The function accepts the elements.
    spec fn spreads(self, f: F) -> bool;

    /// The function returns `r` for the elements.
    spec fn spreads_to(self, f: F, r: R) -> bool;

    /// Calls the function.
    fn spread(self, f: F) -> (r: R)
        requires
            self.spreads(f),
        ensures
            self.spreads_to(f, r),
    ;
}

impl<F: FnOnce() -> R, R> SpreadArgs<F, R> for () {
    open spec fn spreads(self, f: F) -> bool {
        f.requires(())
    }

    open spec fn spreads_to(self, f: F, r: R) -> bool {
        f.ensures((), r)
    }

    fn spread(self, f: F) -> (r: R) {
        f()
    }
}

impl<P0, A0: PlanArg<P0>> PlanArgs<(P0,)> for (A0,) {
    open spec fn arity() -> nat {
        1
    }

    open spec fn erased(&self) -> Seq<ErasedPlanArg<'_>> {
        seq![self.0.erased_arg()]
    }

    proof fn has_arity(&self) {
    }

    fn erase(&self) -> (r: Vec<ErasedPlanArg<'_>>) {
        let mut out: Vec<ErasedPlanArg<'_>> = Vec::new();
        out.push(self.0.erase_arg());
        assert(out@ =~= self.erased());
        out
    }
}

impl<F: FnOnce(A0) -> R, R, A0> SpreadArgs<F, R> for (A0,) {
    open spec fn spreads(self, f: F) -> bool {
        f.requires(self)
    }

    open spec fn spreads_to(self, f: F, r: R) -> bool {
        f.ensures(self, r)
    }

    fn spread(self, f: F) -> (r: R) {
        f(self.0)
    }
}

impl<P0, P1, A0: PlanArg<P0>, A1: PlanArg<P1>> PlanArgs<(P0, P1)> for (A0, A1) {
    open spec fn arity() -> nat {
        2
    }

    open spec fn erased(&self) -> Seq<ErasedPlanArg<'_>> {
        seq![self.0.erased_arg(), self.1.erased_arg()]
    }

    proof fn has_arity(&self) {
    }

    fn erase(&self) -> (r: Vec<ErasedPlanArg<'_>>) {
        let mut out: Vec<ErasedPlanArg<'_>> = Vec::new();
        out.push(self.0.erase_arg());
        out.push(self.1.erase_arg());
        assert(out@ =~= self.erased());
        out
    }
}

impl<F: FnOnce(A0, A1) -> R, R, A0, A1> SpreadArgs<F, R> for (A0, A1) {
    open spec fn spreads(self, f: F) -> bool {
        f.requires(self)
    }

    open spec fn spreads_to(self, f: F, r: R) -> bool {
        f.ensures(self, r)
    }

    fn spread(self, f: F) -> (r: R) {
        f(self.0, self.1)
    }
}

impl<P0, P1, P2, A0: PlanArg<P0>, A1: PlanArg<P1>, A2: PlanArg<P2>> PlanArgs<(P0, P1, P2)> for (A0, A1, A2) {
    open spec fn arity() -> nat {
        3
    }

    open spec fn erased(&self) -> Seq<ErasedPlanArg<'_>> {
        seq![self.0.erased_arg(), self.1.erased_arg(), self.2.erased_arg()]
    }

    proof fn has_arity(&self) {
    }

    fn erase(&self) -> (r: Vec<ErasedPlanArg<'_>>) {
        let mut out: Vec<ErasedPlanArg<'_>> = Vec::new();
        out.push(self.0.erase_arg());
        out.push(self.1.erase_arg());
        out.push(self.2.erase_arg());
        assert(out@ =~= self.erased());
        out
    }
}

impl<F: FnOnce(A0, A1, A2) -> R, R, A0, A1, A2> SpreadArgs<F, R> for (A0, A1, A2) {
    open spec fn spreads(self, f: F) -> bool {
        f.requires(self)
    }

    open spec fn spreads_to(self, f: F, r: R) -> bool {
        f.ensures(self, r)
    }

    fn spread(self, f: F) -> (r: R) {
        f(self.0, self.1, self.2)
    }
}

impl<P0, P1, P2, P3, A0: PlanArg<P0>, A1: PlanArg<P1>, A2: PlanArg<P2>, A3: PlanArg<P3>> PlanArgs<(P0, P1, P2, P3)> for (A0, A1, A2, A3) {
    open spec fn arity() -> nat {
        4
    }

    open spec fn erased(&self) -> Seq<ErasedPlanArg<'_>> {
        seq![self.0.erased_arg(), self.1.erased_arg(), self.2.erased_arg(), self.3.erased_arg()]
    }

    proof fn has_arity(&self) {
    }

    fn erase(&self) -> (r: Vec<ErasedPlanArg<'_>>) {
        let mut out: Vec<ErasedPlanArg<'_>> = Vec::new();
        out.push(self.0.erase_arg());
        out.push(self.1.erase_arg());
        out.push(self.2.erase_arg());
        out.push(self.3.erase_arg());
        assert(out@ =~= self.erased());
        out
    }
}

impl<F: FnOnce(A0, A1, A2, A3) -> R, R, A0, A1, A2, A3> SpreadArgs<F, R> for (A0, A1, A2, A3) {
    open spec fn spreads(self, f: F) -> bool {
        f.requires(self)
    }

    open spec fn spreads_to(self, f: F, r: R) -> bool {
        f.ensures(self, r)
    }

    fn spread(self, f: F) -> (r: R) {
        f(self.0, self.1, self.2, self.3)
    }
}

impl<P0, P1, P2, P3, P4, A0: PlanArg<P0>, A1: PlanArg<P1>, A2: PlanArg<P2>, A3: PlanArg<P3>, A4: PlanArg<P4>> PlanArgs<(P0, P1, P2, P3, P4)> for (A0, A1, A2, A3, A4) {
    open spec fn arity() -> nat {
        5
    }

    open spec fn erased(&self) -> Seq<ErasedPlanArg<'_>> {
        seq![self.0.erased_arg(), self.1.erased_arg(), self.2.erased_arg(), self.3.erased_arg(), self.4.erased_arg()]
    }

    proof fn has_arity(&self) {
    }

    fn erase(&self) -> (r: Vec<ErasedPlanArg<'_>>) {
        let mut out: Vec<ErasedPlanArg<'_>> = Vec::new();
        out.push(self.0.erase_arg());
        out.push(self.1.erase_arg());
        out.push(self.2.erase_arg());
        out.push(self.3.erase_arg());
        out.push(self.4.erase_arg());
        assert(out@ =~= self.erased());
        out
    }
}

impl<F: FnOnce(A0, A1, A2, A3, A4) -> R, R, A0, A1, A2, A3, A4> SpreadArgs<F, R> for (A0, A1, A2, A3, A4) {
    open spec fn spreads(self, f: F) -> bool {
        f.requires(self)
    }

    open spec fn spreads_to(self, f: F, r: R) -> bool {
        f.ensures(self, r)
    }

    fn spread(self, f: F) -> (r: R) {
        f(self.0, self.1, self.2, self.3, self.4)
    }
}

impl<P0, P1, P2, P3, P4, P5, A0: PlanArg<P0>, A1: PlanArg<P1>, A2: PlanArg<P2>, A3: PlanArg<P3>, A4: PlanArg<P4>, A5: PlanArg<P5>> PlanArgs<(P0, P1, P2, P3, P4, P5)> for (A0, A1, A2, A3, A4, A5) {
    open spec fn arity() -> nat {
        6
    }

    open spec fn erased(&self) -> Seq<ErasedPlanArg<'_>> {
        seq![self.0.erased_arg(), self.1.erased_arg(), self.2.erased_arg(), self.3.erased_arg(), self.4.erased_arg(), self.5.erased_arg()]
    }

    proof fn has_arity(&self) {
    }

    fn erase(&self) -> (r: Vec<ErasedPlanArg<'_>>) {
        let mut out: Vec<ErasedPlanArg<'_>> = Vec::new();
        out.push(self.0.erase_arg());
        out.push(self.1.erase_arg());
        out.push(self.2.erase_arg());
        out.push(self.3.erase_arg());
        out.push(self.4.erase_arg());
        out.push(self.5.erase_arg());
        assert(out@ =~= self.erased());
        out
    }
}

impl<F: FnOnce(A0, A1, A2, A3, A4, A5) -> R, R, A0, A1, A2, A3, A4, A5> SpreadArgs<F, R> for (A0, A1, A2, A3, A4, A5) {
    open spec fn spreads(self, f: F) -> bool {
        f.requires(self)
    }

    open spec fn spreads_to(self, f: F, r: R) -> bool {
        f.ensures(self, r)
    }

    fn spread(self, f: F) -> (r: R) {
        f(self.0, self.1, self.2, self.3, self.4, self.5)
    }
}

impl<P0, P1, P2, P3, P4, P5, P6, A0: PlanArg<P0>, A1: PlanArg<P1>, A2: PlanArg<P2>, A3: PlanArg<P3>, A4: PlanArg<P4>, A5: PlanArg<P5>, A6: PlanArg<P6>> PlanArgs<(P0, P1, P2, P3, P4, P5, P6)> for (A0, A1, A2, A3, A4, A5, A6) {
    open spec fn arity() -> nat {
        7
    }

    open spec fn erased(&self) -> Seq<ErasedPlanArg<'_>> {
        seq![self.0.erased_arg(), self.1.erased_arg(), self.2.erased_arg(), self.3.erased_arg(), self.4.erased_arg(), self.5.erased_arg(), self.6.erased_arg()]
    }

    proof fn has_arity(&self) {
    }

    fn erase(&self) -> (r: Vec<ErasedPlanArg<'_>>) {
        let mut out: Vec<ErasedPlanArg<'_>> = Vec::new();
        out.push(self.0.erase_arg());
        out.push(self.1.erase_arg());
        out.push(self.2.erase_arg());
        out.push(self.3.erase_arg());
        out.push(self.4.erase_arg());
        out.push(self.5.erase_arg());
        out.push(self.6.erase_arg());
        assert(out@ =~= self.erased());
        out
    }
}

impl<F: FnOnce(A0, A1, A2, A3, A4, A5, A6) -> R, R, A0, A1, A2, A3, A4, A5, A6> SpreadArgs<F, R> for (A0, A1, A2, A3, A4, A5, A6) {
    open spec fn spreads(self, f: F) -> bool {
        f.requires(self)
    }

    open spec fn spreads_to(self, f: F, r: R) -> bool {
        f.ensures(self, r)
    }

    fn spread(self, f: F) -> (r: R) {
        f(self.0, self.1, self.2, self.3, self.4, self.5, self.6)
    }
}

impl<P0, P1, P2, P3, P4, P5, P6, P7, A0: PlanArg<P0>, A1: PlanArg<P1>, A2: PlanArg<P2>, A3: PlanArg<P3>, A4: PlanArg<P4>, A5: PlanArg<P5>, A6: PlanArg<P6>, A7: PlanArg<P7>> PlanArgs<(P0, P1, P2, P3, P4, P5, P6, P7)> for (A0, A1, A2, A3, A4, A5, A6, A7) {
    open spec fn arity() -> nat {
        8
    }

    open spec fn erased(&self) -> Seq<ErasedPlanArg<'_>> {
        seq![self.0.erased_arg(), self.1.erased_arg(), self.2.erased_arg(), self.3.erased_arg(), self.4.erased_arg(), self.5.erased_arg(), self.6.erased_arg(), self.7.erased_arg()]
    }

    proof fn has_arity(&self) {
    }

    fn erase(&self) -> (r: Vec<ErasedPlanArg<'_>>) {
        let mut out: Vec<ErasedPlanArg<'_>> = Vec::new();
        out.push(self.0.erase_arg());
        out.push(self.1.erase_arg());
        out.push(self.2.erase_arg());
        out.push(self.3.erase_arg());
        out.push(self.4.erase_arg());
        out.push(self.5.erase_arg());
        out.push(self.6.erase_arg());
        out.push(self.7.erase_arg());
        assert(out@ =~= self.erased());
        out
    }
}

impl<F: FnOnce(A0, A1, A2, A3, A4, A5, A6, A7) -> R, R, A0, A1, A2, A3, A4, A5, A6, A7> SpreadArgs<F, R> for (A0, A1, A2, A3, A4, A5, A6, A7) {
    open spec fn spreads(self, f: F) -> bool {
        f.requires(self)
    }

    open spec fn spreads_to(self, f: F, r: R) -> bool {
        f.ensures(self, r)
    }

    fn spread(self, f: F) -> (r: R) {
        f(self.0, self.1, self.2, self.3, self.4, self.5, self.6, self.7)
    }
}

impl<P0, P1, P2, P3, P4, P5, P6, P7, P8, A0: PlanArg<P0>, A1: PlanArg<P1>, A2: PlanArg<P2>, A3: PlanArg<P3>, A4: PlanArg<P4>, A5: PlanArg<P5>, A6: PlanArg<P6>, A7: PlanArg<P7>, A8: PlanArg<P8>> PlanArgs<(P0, P1, P2, P3, P4, P5, P6, P7, P8)> for (A0, A1, A2, A3, A4, A5, A6, A7, A8) {
    open spec fn arity() -> nat {
        9
    }

    open spec fn erased(&self) -> Seq<ErasedPlanArg<'_>> {
        seq![self.0.erased_arg(), self.1.erased_arg(), self.2.erased_arg(), self.3.erased_arg(), self.4.erased_arg(), self.5.erased_arg(), self.6.erased_arg(), self.7.erased_arg(), self.8.erased_arg()]
    }

    proof fn has_arity(&self) {
    }

    fn erase(&self) -> (r: Vec<ErasedPlanArg<'_>>) {
        let mut out: Vec<ErasedPlanArg<'_>> = Vec::new();
        out.push(self.0.erase_arg());
        out.push(self.1.erase_arg());
        out.push(self.2.erase_arg());
        out.push(self.3.erase_arg());
        out.push(self.4.erase_arg());
        out.push(self.5.erase_arg());
        out.push(self.6.erase_arg());
        out.push(self.7.erase_arg());
        out.push(self.8.erase_arg());
        assert(out@ =~= self.erased());
        out
    }
}

impl<F: FnOnce(A0, A1, A2, A3, A4, A5, A6, A7, A8) -> R, R, A0, A1, A2, A3, A4, A5, A6, A7, A8> SpreadArgs<F, R> for (A0, A1, A2, A3, A4, A5, A6, A7, A8) {
    open spec fn spreads(self, f: F) -> bool {
        f.requires(self)
    }

    open spec fn spreads_to(self, f: F, r: R) -> bool {
        f.ensures(self, r)
    }

    fn spread(self, f: F) -> (r: R) {
        f(self.0, self.1, self.2, self.3, self.4, self.5, self.6, self.7, self.8)
    }
}

impl<P0, P1, P2, P3, P4, P5, P6, P7, P8, P9, A0: PlanArg<P0>, A1: PlanArg<P1>, A2: PlanArg<P2>, A3: PlanArg<P3>, A4: PlanArg<P4>, A5: PlanArg<P5>, A6: PlanArg<P6>, A7: PlanArg<P7>, A8: PlanArg<P8>, A9: PlanArg<P9>> PlanArgs<(P0, P1, P2, P3, P4, P5, P6, P7, P8, P9)> for (A0, A1, A2, A3, A4, A5, A6, A7, A8, A9) {
    open spec fn arity() -> nat {
        10
    }

    open spec fn erased(&self) -> Seq<ErasedPlanArg<'_>> {
        seq![self.0.erased_arg(), self.1.erased_arg(), self.2.erased_arg(), self.3.erased_arg(), self.4.erased_arg(), self.5.erased_arg(), self.6.erased_arg(), self.7.erased_arg(), self.8.erased_arg(), self.9.erased_arg()]
    }

    proof fn has_arity(&self) {
    }

    fn erase(&self) -> (r: Vec<ErasedPlanArg<'_>>) {
        let mut out: Vec<ErasedPlanArg<'_>> = Vec::new();
        out.push(self.0.erase_arg());
        out.push(self.1.erase_arg());
        out.push(self.2.erase_arg());
        out.push(self.3.erase_arg());
        out.push(self.4.erase_arg());
        out.push(self.5.erase_arg());
        out.push(self.6.erase_arg());
        out.push(self.7.erase_arg());
        out.push(self.8.erase_arg());
        out.push(self.9.erase_arg());
        assert(out@ =~= self.erased());
        out
    }
}

impl<F: FnOnce(A0, A1, A2, A3, A4, A5, A6, A7, A8, A9) -> R, R, A0, A1, A2, A3, A4, A5, A6, A7, A8, A9> SpreadArgs<F, R> for (A0, A1, A2, A3, A4, A5, A6, A7, A8, A9) {
    open spec fn spreads(self, f: F) -> bool {
        f.requires(self)
    }

    open spec fn spreads_to(self, f: F, r: R) -> bool {
        f.ensures(self, r)
    }

    fn spread(self, f: F) -> (r: R) {
        f(self.0, self.1, self.2, self.3, self.4, self.5, self.6, self.7, self.8, self.9)
    }
}

impl<P0, P1, P2, P3, P4, P5, P6, P7, P8, P9, P10, A0: PlanArg<P0>, A1: PlanArg<P1>, A2: PlanArg<P2>, A3: PlanArg<P3>, A4: PlanArg<P4>, A5: PlanArg<P5>, A6: PlanArg<P6>, A7: PlanArg<P7>, A8: PlanArg<P8>, A9: PlanArg<P9>, A10: PlanArg<P10>> PlanArgs<(P0, P1, P2, P3, P4, P5, P6, P7, P8, P9, P10)> for (A0, A1, A2, A3, A4, A5, A6, A7, A8, A9, A10) {
    open spec fn arity() -> nat {
        11
    }

    open spec fn erased(&self) -> Seq<ErasedPlanArg<'_>> {
        seq![self.0.erased_arg(), self.1.erased_arg(), self.2.erased_arg(), self.3.erased_arg(), self.4.erased_arg(), self.5.erased_arg(), self.6.erased_arg(), self.7.erased_arg(), self.8.erased_arg(), self.9.erased_arg(), self.10.erased_arg()]
    }

    proof fn has_arity(&self) {
    }

    fn erase(&self) -> (r: Vec<ErasedPlanArg<'_>>) {
        let mut out: Vec<ErasedPlanArg<'_>> = Vec::new();
        out.push(self.0.erase_arg());
        out.push(self.1.erase_arg());
        out.push(self.2.erase_arg());
        out.push(self.3.erase_arg());
        out.push(self.4.erase_arg());
        out.push(self.5.erase_arg());
        out.push(self.6.erase_arg());
        out.push(self.7.erase_arg());
        out.push(self.8.erase_arg());
        out.push(self.9.erase_arg());
        out.push(self.10.erase_arg());
        assert(out@ =~= self.erased());
        out
    }
}

impl<F: FnOnce(A0, A1, A2, A3, A4, A5, A6, A7, A8, A9, A10) -> R, R, A0, A1, A2, A3, A4, A5, A6, A7, A8, A9, A10> SpreadArgs<F, R> for (A0, A1, A2, A3, A4, A5, A6, A7, A8, A9, A10) {
    open spec fn spreads(self, f: F) -> bool {
        f.requires(self)
    }

    open spec fn spreads_to(self, f: F, r: R) -> bool {
        f.ensures(self, r)
    }

    fn spread(self, f: F) -> (r: R) {
        f(self.0, self.1, self.2, self.3, self.4, self.5, self.6, self.7, self.8, self.9, self.10)
    }
}

impl<P0, P1, P2, P3, P4, P5, P6, P7, P8, P9, P10, P11, A0: PlanArg<P0>, A1: PlanArg<P1>, A2: PlanArg<P2>, A3: PlanArg<P3>, A4: PlanArg<P4>, A5: PlanArg<P5>, A6: PlanArg<P6>, A7: PlanArg<P7>, A8: PlanArg<P8>, A9: PlanArg<P9>, A10: PlanArg<P10>, A11: PlanArg<P11>> PlanArgs<(P0, P1, P2, P3, P4, P5, P6, P7, P8, P9, P10, P11)> for (A0, A1, A2, A3, A4, A5, A6, A7, A8, A9, A10, A11) {
    open spec fn arity() -> nat {
        12
    }

    open spec fn erased(&self) -> Seq<ErasedPlanArg<'_>> {
        seq![self.0.erased_arg(), self.1.erased_arg(), self.2.erased_arg(), self.3.erased_arg(), self.4.erased_arg(), self.5.erased_arg(), self.6.erased_arg(), self.7.erased_arg(), self.8.erased_arg(), self.9.erased_arg(), self.10.erased_arg(), self.11.erased_arg()]
    }

    proof fn has_arity(&self) {
    }

    fn erase(&self) -> (r: Vec<ErasedPlanArg<'_>>) {
        let mut out: Vec<ErasedPlanArg<'_>> = Vec::new();
        out.push(self.0.erase_arg());
        out.push(self.1.erase_arg());
        out.push(self.2.erase_arg());
        out.push(self.3.erase_arg());
        out.push(self.4.erase_arg());
        out.push(self.5.erase_arg());
        out.push(self.6.erase_arg());
        out.push(self.7.erase_arg());
        out.push(self.8.erase_arg());
        out.push(self.9.erase_arg());
        out.push(self.10.erase_arg());
        out.push(self.11.erase_arg());
        assert(out@ =~= self.erased());
        out
    }
}

impl<F: FnOnce(A0, A1, A2, A3, A4, A5, A6, A7, A8, A9, A10, A11) -> R, R, A0, A1, A2, A3, A4, A5, A6, A7, A8, A9, A10, A11> SpreadArgs<F, R> for (A0, A1, A2, A3, A4, A5, A6, A7, A8, A9, A10, A11) {
    open spec fn spreads(self, f: F) -> bool {
        f.requires(self)
    }

    open spec fn spreads_to(self, f: F, r: R) -> bool {
        f.ensures(self, r)
    }

    fn spread(self, f: F) -> (r: R) {
        f(self.0, self.1, self.2, self.3, self.4, self.5, self.6, self.7, self.8, self.9, self.10, self.11)
    }
}

/// One argument is erased in order.
pub proof fn one_argument_is_erased_in_order<P0, A0: PlanArg<P0>>(args: (A0,))
    ensures
        <(A0,) as PlanArgs<(P0,)>>::arity() == 1,
        <(A0,) as PlanArgs<(P0,)>>::erased(&args).len() == 1,
        <(A0,) as PlanArgs<(P0,)>>::erased(&args)[0] == args.0.erased_arg(),
{
}

/// Two arguments are erased in order.
pub proof fn two_arguments_are_erased_in_order<P0, P1, A0: PlanArg<P0>, A1: PlanArg<P1>>(args: (A0, A1))
    ensures
        <(A0, A1) as PlanArgs<(P0, P1)>>::arity() == 2,
        <(A0, A1) as PlanArgs<(P0, P1)>>::erased(&args).len() == 2,
        <(A0, A1) as PlanArgs<(P0, P1)>>::erased(&args)[0] == args.0.erased_arg(),
        <(A0, A1) as PlanArgs<(P0, P1)>>::erased(&args)[1] == args.1.erased_arg(),
{
}

/// Three arguments are erased in order.
pub proof fn three_arguments_are_erased_in_order<P0, P1, P2, A0: PlanArg<P0>, A1: PlanArg<P1>, A2: PlanArg<P2>>(args: (A0, A1, A2))
    ensures
        <(A0, A1, A2) as PlanArgs<(P0, P1, P2)>>::arity() == 3,
        <(A0, A1, A2) as PlanArgs<(P0, P1, P2)>>::erased(&args).len() == 3,
        <(A0, A1, A2) as PlanArgs<(P0, P1, P2)>>::erased(&args)[0] == args.0.erased_arg(),
        <(A0, A1, A2) as PlanArgs<(P0, P1, P2)>>::erased(&args)[1] == args.1.erased_arg(),
        <(A0, A1, A2) as PlanArgs<(P0, P1, P2)>>::erased(&args)[2] == args.2.erased_arg(),
{
}

/// Four arguments are erased in order.
pub proof fn four_arguments_are_erased_in_order<P0, P1, P2, P3, A0: PlanArg<P0>, A1: PlanArg<P1>, A2: PlanArg<P2>, A3: PlanArg<P3>>(args: (A0, A1, A2, A3))
    ensures
        <(A0, A1, A2, A3) as PlanArgs<(P0, P1, P2, P3)>>::arity() == 4,
        <(A0, A1, A2, A3) as PlanArgs<(P0, P1, P2, P3)>>::erased(&args).len() == 4,
        <(A0, A1, A2, A3) as PlanArgs<(P0, P1, P2, P3)>>::erased(&args)[0] == args.0.erased_arg(),
        <(A0, A1, A2, A3) as PlanArgs<(P0, P1, P2, P3)>>::erased(&args)[1] == args.1.erased_arg(),
        <(A0, A1, A2, A3) as PlanArgs<(P0, P1, P2, P3)>>::erased(&args)[2] == args.2.erased_arg(),
        <(A0, A1, A2, A3) as PlanArgs<(P0, P1, P2, P3)>>::erased(&args)[3] == args.3.erased_arg(),
{
}

/// Five arguments are erased in order.
pub proof fn five_arguments_are_erased_in_order<P0, P1, P2, P3, P4, A0: PlanArg<P0>, A1: PlanArg<P1>, A2: PlanArg<P2>, A3: PlanArg<P3>, A4: PlanArg<P4>>(args: (A0, A1, A2, A3, A4))
    ensures
        <(A0, A1, A2, A3, A4) as PlanArgs<(P0, P1, P2, P3, P4)>>::arity() == 5,
        <(A0, A1, A2, A3, A4) as PlanArgs<(P0, P1, P2, P3, P4)>>::erased(&args).len() == 5,
        <(A0, A1, A2, A3, A4) as PlanArgs<(P0, P1, P2, P3, P4)>>::erased(&args)[0] == args.0.erased_arg(),
        <(A0, A1, A2, A3, A4) as PlanArgs<(P0, P1, P2, P3, P4)>>::erased(&args)[1] == args.1.erased_arg(),
        <(A0, A1, A2, A3, A4) as PlanArgs<(P0, P1, P2, P3, P4)>>::erased(&args)[2] == args.2.erased_arg(),
        <(A0, A1, A2, A3, A4) as PlanArgs<(P0, P1, P2, P3, P4)>>::erased(&args)[3] == args.3.erased_arg(),
        <(A0, A1, A2, A3, A4) as PlanArgs<(P0, P1, P2, P3, P4)>>::erased(&args)[4] == args.4.erased_arg(),
{
}

/// Six arguments are erased in order.
pub proof fn six_arguments_are_erased_in_order<P0, P1, P2, P3, P4, P5, A0: PlanArg<P0>, A1: PlanArg<P1>, A2: PlanArg<P2>, A3: PlanArg<P3>, A4: PlanArg<P4>, A5: PlanArg<P5>>(args: (A0, A1, A2, A3, A4, A5))
    ensures
        <(A0, A1, A2, A3, A4, A5) as PlanArgs<(P0, P1, P2, P3, P4, P5)>>::arity() == 6,
        <(A0, A1, A2, A3, A4, A5) as PlanArgs<(P0, P1, P2, P3, P4, P5)>>::erased(&args).len() == 6,
        <(A0, A1, A2, A3, A4, A5) as PlanArgs<(P0, P1, P2, P3, P4, P5)>>::erased(&args)[0] == args.0.erased_arg(),
        <(A0, A1, A2, A3, A4, A5) as PlanArgs<(P0, P1, P2, P3, P4, P5)>>::erased(&args)[1] == args.1.erased_arg(),
        <(A0, A1, A2, A3, A4, A5) as PlanArgs<(P0, P1, P2, P3, P4, P5)>>::erased(&args)[2] == args.2.erased_arg(),
        <(A0, A1, A2, A3, A4, A5) as PlanArgs<(P0, P1, P2, P3, P4, P5)>>::erased(&args)[3] == args.3.erased_arg(),
        <(A0, A1, A2, A3, A4, A5) as PlanArgs<(P0, P1, P2, P3, P4, P5)>>::erased(&args)[4] == args.4.erased_arg(),
        <(A0, A1, A2, A3, A4, A5) as PlanArgs<(P0, P1, P2, P3, P4, P5)>>::erased(&args)[5] == args.5.erased_arg(),
{
}

/// Seven arguments are erased in order.
pub proof fn seven_arguments_are_erased_in_order<P0, P1, P2, P3, P4, P5, P6, A0: PlanArg<P0>, A1: PlanArg<P1>, A2: PlanArg<P2>, A3: PlanArg<P3>, A4: PlanArg<P4>, A5: PlanArg<P5>, A6: PlanArg<P6>>(args: (A0, A1, A2, A3, A4, A5, A6))
    ensures
        <(A0, A1, A2, A3, A4, A5, A6) as PlanArgs<(P0, P1, P2, P3, P4, P5, P6)>>::arity() == 7,
        <(A0, A1, A2, A3, A4, A5, A6) as PlanArgs<(P0, P1, P2, P3, P4, P5, P6)>>::erased(&args).len() == 7,
        <(A0, A1, A2, A3, A4, A5, A6) as PlanArgs<(P0, P1, P2, P3, P4, P5, P6)>>::erased(&args)[0] == args.0.erased_arg(),
        <(A0, A1, A2, A3, A4, A5, A6) as PlanArgs<(P0, P1, P2, P3, P4, P5, P6)>>::erased(&args)[1] == args.1.erased_arg(),
        <(A0, A1, A2, A3, A4, A5, A6) as PlanArgs<(P0, P1, P2, P3, P4, P5, P6)>>::erased(&args)[2] == args.2.erased_arg(),
        <(A0, A1, A2, A3, A4, A5, A6) as PlanArgs<(P0, P1, P2, P3, P4, P5, P6)>>::erased(&args)[3] == args.3.erased_arg(),
        <(A0, A1, A2, A3, A4, A5, A6) as PlanArgs<(P0, P1, P2, P3, P4, P5, P6)>>::erased(&args)[4] == args.4.erased_arg(),
        <(A0, A1, A2, A3, A4, A5, A6) as PlanArgs<(P0, P1, P2, P3, P4, P5, P6)>>::erased(&args)[5] == args.5.erased_arg(),
        <(A0, A1, A2, A3, A4, A5, A6) as PlanArgs<(P0, P1, P2, P3, P4, P5, P6)>>::erased(&args)[6] == args.6.erased_arg(),
{
}

/// Eight arguments are erased in order.
pub proof fn eight_arguments_are_erased_in_order<P0, P1, P2, P3, P4, P5, P6, P7, A0: PlanArg<P0>, A1: PlanArg<P1>, A2: PlanArg<P2>, A3: PlanArg<P3>, A4: PlanArg<P4>, A5: PlanArg<P5>, A6: PlanArg<P6>, A7: PlanArg<P7>>(args: (A0, A1, A2, A3, A4, A5, A6, A7))
    ensures
        <(A0, A1, A2, A3, A4, A5, A6, A7) as PlanArgs<(P0, P1, P2, P3, P4, P5, P6, P7)>>::arity() == 8,
        <(A0, A1, A2, A3, A4, A5, A6, A7) as PlanArgs<(P0, P1, P2, P3, P4, P5, P6, P7)>>::erased(&args).len() == 8,
        <(A0, A1, A2, A3, A4, A5, A6, A7) as PlanArgs<(P0, P1, P2, P3, P4, P5, P6, P7)>>::erased(&args)[0] == args.0.erased_arg(),
        <(A0, A1, A2, A3, A4, A5, A6, A7) as PlanArgs<(P0, P1, P2, P3, P4, P5, P6, P7)>>::erased(&args)[1] == args.1.erased_arg(),
        <(A0, A1, A2, A3, A4, A5, A6, A7) as PlanArgs<(P0, P1, P2, P3, P4, P5, P6, P7)>>::erased(&args)[2] == args.2.erased_arg(),
        <(A0, A1, A2, A3, A4, A5, A6, A7) as PlanArgs<(P0, P1, P2, P3, P4, P5, P6, P7)>>::erased(&args)[3] == args.3.erased_arg(),
        <(A0, A1, A2, A3, A4, A5, A6, A7) as PlanArgs<(P0, P1, P2, P3, P4, P5, P6, P7)>>::erased(&args)[4] == args.4.erased_arg(),
        <(A0, A1, A2, A3, A4, A5, A6, A7) as PlanArgs<(P0, P1, P2, P3, P4, P5, P6, P7)>>::erased(&args)[5] == args.5.erased_arg(),
        <(A0, A1, A2, A3, A4, A5, A6, A7) as PlanArgs<(P0, P1, P2, P3, P4, P5, P6, P7)>>::erased(&args)[6] == args.6.erased_arg(),
        <(A0, A1, A2, A3, A4, A5, A6, A7) as PlanArgs<(P0, P1, P2, P3, P4, P5, P6, P7)>>::erased(&args)[7] == args.7.erased_arg(),
{
}

/// Nine arguments are erased in order.
pub proof fn nine_arguments_are_erased_in_order<P0, P1, P2, P3, P4, P5, P6, P7, P8, A0: PlanArg<P0>, A1: PlanArg<P1>, A2: PlanArg<P2>, A3: PlanArg<P3>, A4: PlanArg<P4>, A5: PlanArg<P5>, A6: PlanArg<P6>, A7: PlanArg<P7>, A8: PlanArg<P8>>(args: (A0, A1, A2, A3, A4, A5, A6, A7, A8))
    ensures
        <(A0, A1, A2, A3, A4, A5, A6, A7, A8) as PlanArgs<(P0, P1, P2, P3, P4, P5, P6, P7, P8)>>::arity() == 9,
        <(A0, A1, A2, A3, A4, A5, A6, A7, A8) as PlanArgs<(P0, P1, P2, P3, P4, P5, P6, P7, P8)>>::erased(&args).len() == 9,
        <(A0, A1, A2, A3, A4, A5, A6, A7, A8) as PlanArgs<(P0, P1, P2, P3, P4, P5, P6, P7, P8)>>::erased(&args)[0] == args.0.erased_arg(),
        <(A0, A1, A2, A3, A4, A5, A6, A7, A8) as PlanArgs<(P0, P1, P2, P3, P4, P5, P6, P7, P8)>>::erased(&args)[1] == args.1.erased_arg(),
        <(A0, A1, A2, A3, A4, A5, A6, A7, A8) as PlanArgs<(P0, P1, P2, P3, P4, P5, P6, P7, P8)>>::erased(&args)[2] == args.2.erased_arg(),
        <(A0, A1, A2, A3, A4, A5, A6, A7, A8) as PlanArgs<(P0, P1, P2, P3, P4, P5, P6, P7, P8)>>::erased(&args)[3] == args.3.erased_arg(),
        <(A0, A1, A2, A3, A4, A5, A6, A7, A8) as PlanArgs<(P0, P1, P2, P3, P4, P5, P6, P7, P8)>>::erased(&args)[4] == args.4.erased_arg(),
        <(A0, A1, A2, A3, A4, A5, A6, A7, A8) as PlanArgs<(P0, P1, P2, P3, P4, P5, P6, P7, P8)>>::erased(&args)[5] == args.5.erased_arg(),
        <(A0, A1, A2, A3, A4, A5, A6, A7, A8) as PlanArgs<(P0, P1, P2, P3, P4, P5, P6, P7, P8)>>::erased(&args)[6] == args.6.erased_arg(),
        <(A0, A1, A2, A3, A4, A5, A6, A7, A8) as PlanArgs<(P0, P1, P2, P3, P4, P5, P6, P7, P8)>>::erased(&args)[7] == args.7.erased_arg(),
        <(A0, A1, A2, A3, A4, A5, A6, A7, A8) as PlanArgs<(P0, P1, P2, P3, P4, P5, P6, P7, P8)>>::erased(&args)[8] == args.8.erased_arg(),
{
}

/// Ten arguments are erased in order.
pub proof fn ten_arguments_are_erased_in_order<P0, P1, P2, P3, P4, P5, P6, P7, P8, P9, A0: PlanArg<P0>, A1: PlanArg<P1>, A2: PlanArg<P2>, A3: PlanArg<P3>, A4: PlanArg<P4>, A5: PlanArg<P5>, A6: PlanArg<P6>, A7: PlanArg<P7>, A8: PlanArg<P8>, A9: PlanArg<P9>>(args: (A0, A1, A2, A3, A4, A5, A6, A7, A8, A9))
    ensures
        <(A0, A1, A2, A3, A4, A5, A6, A7, A8, A9) as PlanArgs<(P0, P1, P2, P3, P4, P5, P6, P7, P8, P9)>>::arity() == 10,
        <(A0, A1, A2, A3, A4, A5, A6, A7, A8, A9) as PlanArgs<(P0, P1, P2, P3, P4, P5, P6, P7, P8, P9)>>::erased(&args).len() == 10,
        <(A0, A1, A2, A3, A4, A5, A6, A7, A8, A9) as PlanArgs<(P0, P1, P2, P3, P4, P5, P6, P7, P8, P9)>>::erased(&args)[0] == args.0.erased_arg(),
        <(A0, A1, A2, A3, A4, A5, A6, A7, A8, A9) as PlanArgs<(P0, P1, P2, P3, P4, P5, P6, P7, P8, P9)>>::erased(&args)[1] == args.1.erased_arg(),
        <(A0, A1, A2, A3, A4, A5, A6, A7, A8, A9) as PlanArgs<(P0, P1, P2, P3, P4, P5, P6, P7, P8, P9)>>::erased(&args)[2] == args.2.erased_arg(),
        <(A0, A1, A2, A3, A4, A5, A6, A7, A8, A9) as PlanArgs<(P0, P1, P2, P3, P4, P5, P6, P7, P8, P9)>>::erased(&args)[3] == args.3.erased_arg(),
        <(A0, A1, A2, A3, A4, A5, A6, A7, A8, A9) as PlanArgs<(P0, P1, P2, P3, P4, P5, P6, P7, P8, P9)>>::erased(&args)[4] == args.4.erased_arg(),
        <(A0, A1, A2, A3, A4, A5, A6, A7, A8, A9) as PlanArgs<(P0, P1, P2, P3, P4, P5, P6, P7, P8, P9)>>::erased(&args)[5] == args.5.erased_arg(),
        <(A0, A1, A2, A3, A4, A5, A6, A7, A8, A9) as PlanArgs<(P0, P1, P2, P3, P4, P5, P6, P7, P8, P9)>>::erased(&args)[6] == args.6.erased_arg(),
        <(A0, A1, A2, A3, A4, A5, A6, A7, A8, A9) as PlanArgs<(P0, P1, P2, P3, P4, P5, P6, P7, P8, P9)>>::erased(&args)[7] == args.7.erased_arg(),
        <(A0, A1, A2, A3, A4, A5, A6, A7, A8, A9) as PlanArgs<(P0, P1, P2, P3, P4, P5, P6, P7, P8, P9)>>::erased(&args)[8] == args.8.erased_arg(),
        <(A0, A1, A2, A3, A4, A5, A6, A7, A8, A9) as PlanArgs<(P0, P1, P2, P3, P4, P5, P6, P7, P8, P9)>>::erased(&args)[9] == args.9.erased_arg(),
{
}

/// Eleven arguments are erased in order.
pub proof fn eleven_arguments_are_erased_in_order<P0, P1, P2, P3, P4, P5, P6, P7, P8, P9, P10, A0: PlanArg<P0>, A1: PlanArg<P1>, A2: PlanArg<P2>, A3: PlanArg<P3>, A4: PlanArg<P4>, A5: PlanArg<P5>, A6: PlanArg<P6>, A7: PlanArg<P7>, A8: PlanArg<P8>, A9: PlanArg<P9>, A10: PlanArg<P10>>(args: (A0, A1, A2, A3, A4, A5, A6, A7, A8, A9, A10))
    ensures
        <(A0, A1, A2, A3, A4, A5, A6, A7, A8, A9, A10) as PlanArgs<(P0, P1, P2, P3, P4, P5, P6, P7, P8, P9, P10)>>::arity() == 11,
        <(A0, A1, A2, A3, A4, A5, A6, A7, A8, A9, A10) as PlanArgs<(P0, P1, P2, P3, P4, P5, P6, P7, P8, P9, P10)>>::erased(&args).len() == 11,
        <(A0, A1, A2, A3, A4, A5, A6, A7, A8, A9, A10) as PlanArgs<(P0, P1, P2, P3, P4, P5, P6, P7, P8, P9, P10)>>::erased(&args)[0] == args.0.erased_arg(),
        <(A0, A1, A2, A3, A4, A5, A6, A7, A8, A9, A10) as PlanArgs<(P0, P1, P2, P3, P4, P5, P6, P7, P8, P9, P10)>>::erased(&args)[1] == args.1.erased_arg(),
        <(A0, A1, A2, A3, A4, A5, A6, A7, A8, A9, A10) as PlanArgs<(P0, P1, P2, P3, P4, P5, P6, P7, P8, P9, P10)>>::erased(&args)[2] == args.2.erased_arg(),
        <(A0, A1, A2, A3, A4, A5, A6, A7, A8, A9, A10) as PlanArgs<(P0, P1, P2, P3, P4, P5, P6, P7, P8, P9, P10)>>::erased(&args)[3] == args.3.erased_arg(),
        <(A0, A1, A2, A3, A4, A5, A6, A7, A8, A9, A10) as PlanArgs<(P0, P1, P2, P3, P4, P5, P6, P7, P8, P9, P10)>>::erased(&args)[4] == args.4.erased_arg(),
        <(A0, A1, A2, A3, A4, A5, A6, A7, A8, A9, A10) as PlanArgs<(P0, P1, P2, P3, P4, P5, P6, P7, P8, P9, P10)>>::erased(&args)[5] == args.5.erased_arg(),
        <(A0, A1, A2, A3, A4, A5, A6, A7, A8, A9, A10) as PlanArgs<(P0, P1, P2, P3, P4, P5, P6, P7, P8, P9, P10)>>::erased(&args)[6] == args.6.erased_arg(),
        <(A0, A1, A2, A3, A4, A5, A6, A7, A8, A9, A10) as PlanArgs<(P0, P1, P2, P3, P4, P5, P6, P7, P8, P9, P10)>>::erased(&args)[7] == args.7.erased_arg(),
        <(A0, A1, A2, A3, A4, A5, A6, A7, A8, A9, A10) as PlanArgs<(P0, P1, P2, P3, P4, P5, P6, P7, P8, P9, P10)>>::erased(&args)[8] == args.8.erased_arg(),
        <(A0, A1, A2, A3, A4, A5, A6, A7, A8, A9, A10) as PlanArgs<(P0, P1, P2, P3, P4, P5, P6, P7, P8, P9, P10)>>::erased(&args)[9] == args.9.erased_arg(),
        <(A0, A1, A2, A3, A4, A5, A6, A7, A8, A9, A10) as PlanArgs<(P0, P1, P2, P3, P4, P5, P6, P7, P8, P9, P10)>>::erased(&args)[10] == args.10.erased_arg(),
{
}

/// Twelve arguments are erased in order.
pub proof fn twelve_arguments_are_erased_in_order<P0, P1, P2, P3, P4, P5, P6, P7, P8, P9, P10, P11, A0: PlanArg<P0>, A1: PlanArg<P1>, A2: PlanArg<P2>, A3: PlanArg<P3>, A4: PlanArg<P4>, A5: PlanArg<P5>, A6: PlanArg<P6>, A7: PlanArg<P7>, A8: PlanArg<P8>, A9: PlanArg<P9>, A10: PlanArg<P10>, A11: PlanArg<P11>>(args: (A0, A1, A2, A3, A4, A5, A6, A7, A8, A9, A10, A11))
    ensures
        <(A0, A1, A2, A3, A4, A5, A6, A7, A8, A9, A10, A11) as PlanArgs<(P0, P1, P2, P3, P4, P5, P6, P7, P8, P9, P10, P11)>>::arity() == 12,
        <(A0, A1, A2, A3, A4, A5, A6, A7, A8, A9, A10, A11) as PlanArgs<(P0, P1, P2, P3, P4, P5, P6, P7, P8, P9, P10, P11)>>::erased(&args).len() == 12,
        <(A0, A1, A2, A3, A4, A5, A6, A7, A8, A9, A10, A11) as PlanArgs<(P0, P1, P2, P3, P4, P5, P6, P7, P8, P9, P10, P11)>>::erased(&args)[0] == args.0.erased_arg(),
        <(A0, A1, A2, A3, A4, A5, A6, A7, A8, A9, A10, A11) as PlanArgs<(P0, P1, P2, P3, P4, P5, P6, P7, P8, P9, P10, P11)>>::erased(&args)[1] == args.1.erased_arg(),
        <(A0, A1, A2, A3, A4, A5, A6, A7, A8, A9, A10, A11) as PlanArgs<(P0, P1, P2, P3, P4, P5, P6, P7, P8, P9, P10, P11)>>::erased(&args)[2] == args.2.erased_arg(),
        <(A0, A1, A2, A3, A4, A5, A6, A7, A8, A9, A10, A11) as PlanArgs<(P0, P1, P2, P3, P4, P5, P6, P7, P8, P9, P10, P11)>>::erased(&args)[3] == args.3.erased_arg(),
        <(A0, A1, A2, A3, A4, A5, A6, A7, A8, A9, A10, A11) as PlanArgs<(P0, P1, P2, P3, P4, P5, P6, P7, P8, P9, P10, P11)>>::erased(&args)[4] == args.4.erased_arg(),
        <(A0, A1, A2, A3, A4, A5, A6, A7, A8, A9, A10, A11) as PlanArgs<(P0, P1, P2, P3, P4, P5, P6, P7, P8, P9, P10, P11)>>::erased(&args)[5] == args.5.erased_arg(),
        <(A0, A1, A2, A3, A4, A5, A6, A7, A8, A9, A10, A11) as PlanArgs<(P0, P1, P2, P3, P4, P5, P6, P7, P8, P9, P10, P11)>>::erased(&args)[6] == args.6.erased_arg(),
        <(A0, A1, A2, A3, A4, A5, A6, A7, A8, A9, A10, A11) as PlanArgs<(P0, P1, P2, P3, P4, P5, P6, P7, P8, P9, P10, P11)>>::erased(&args)[7] == args.7.erased_arg(),
        <(A0, A1, A2, A3, A4, A5, A6, A7, A8, A9, A10, A11) as PlanArgs<(P0, P1, P2, P3, P4, P5, P6, P7, P8, P9, P10, P11)>>::erased(&args)[8] == args.8.erased_arg(),
        <(A0, A1, A2, A3, A4, A5, A6, A7, A8, A9, A10, A11) as PlanArgs<(P0, P1, P2, P3, P4, P5, P6, P7, P8, P9, P10, P11)>>::erased(&args)[9] == args.9.erased_arg(),
        <(A0, A1, A2, A3, A4, A5, A6, A7, A8, A9, A10, A11) as PlanArgs<(P0, P1, P2, P3, P4, P5, P6, P7, P8, P9, P10, P11)>>::erased(&args)[10] == args.10.erased_arg(),
        <(A0, A1, A2, A3, A4, A5, A6, A7, A8, A9, A10, A11) as PlanArgs<(P0, P1, P2, P3, P4, P5, P6, P7, P8, P9, P10, P11)>>::erased(&args)[11] == args.11.erased_arg(),
{
}

/// A scalar argument has the type, hint and value of the scalar, and accesses no memory.
pub proof fn a_scalar_argument_is_its_value<'a, T: PlanScalar>(value: T)
    ensures
        scalar_arg::<T>(value).key@ == KeyModel::Scalar(value.dtype_spec()),
        scalar_arg::<T>(value).hint == scalar::hint_of(value.dtype_spec(), value.slot()),
        scalar_arg::<T>(value).slot == value.slot(),
        scalar_arg::<T>(value).access is None,
{
}

/// Every scalar stands for a parameter of its own type and for one of any type, as
/// itself.
pub proof fn scalars_are_erased_as_themselves<K: FloatKind>(
    a: u8,
    b: u16,
    c: u32,
    d: u64,
    e: i8,
    f: i16,
    g: i32,
    h: i64,
    i: bool,
    x: Float<K>,
)
    ensures
        <u8 as PlanArg<AnyScalar>>::erased_arg(&a) == scalar_arg(a),
        <u8 as PlanArg<Scalar<u8>>>::erased_arg(&a) == scalar_arg(a),
        <u16 as PlanArg<AnyScalar>>::erased_arg(&b) == scalar_arg(b),
        <u16 as PlanArg<Scalar<u16>>>::erased_arg(&b) == scalar_arg(b),
        <u32 as PlanArg<AnyScalar>>::erased_arg(&c) == scalar_arg(c),
        <u32 as PlanArg<Scalar<u32>>>::erased_arg(&c) == scalar_arg(c),
        <u64 as PlanArg<AnyScalar>>::erased_arg(&d) == scalar_arg(d),
        <u64 as PlanArg<Scalar<u64>>>::erased_arg(&d) == scalar_arg(d),
        <i8 as PlanArg<AnyScalar>>::erased_arg(&e) == scalar_arg(e),
        <i8 as PlanArg<Scalar<i8>>>::erased_arg(&e) == scalar_arg(e),
        <i16 as PlanArg<AnyScalar>>::erased_arg(&f) == scalar_arg(f),
        <i16 as PlanArg<Scalar<i16>>>::erased_arg(&f) == scalar_arg(f),
        <i32 as PlanArg<AnyScalar>>::erased_arg(&g) == scalar_arg(g),
        <i32 as PlanArg<Scalar<i32>>>::erased_arg(&g) == scalar_arg(g),
        <i64 as PlanArg<AnyScalar>>::erased_arg(&h) == scalar_arg(h),
        <i64 as PlanArg<Scalar<i64>>>::erased_arg(&h) == scalar_arg(h),
        <bool as PlanArg<AnyScalar>>::erased_arg(&i) == scalar_arg(i),
        <bool as PlanArg<Scalar<bool>>>::erased_arg(&i) == scalar_arg(i),
        <Float<K> as PlanArg<AnyScalar>>::erased_arg(&x) == scalar_arg(x),
        <Float<K> as PlanArg<Scalar<Float<K>>>>::erased_arg(&x) == scalar_arg(x),
{
}

/// A tensor argument is erased as the argument it holds.
pub proof fn tensors_are_erased_as_themselves<'a>(input: InputArg<'a>, output: OutputArg<'a>)
    ensures
        input.erased_arg() == input.arg(),
        output.erased_arg() == output.arg(),
{
}

} // verus!
