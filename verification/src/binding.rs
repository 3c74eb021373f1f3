//! Kernel argument bindings: how tensor inputs and partitioned outputs are
//! pushed to a launch, and the launch grid they ask for.
use std::sync::Arc;
use vstd::prelude::*;

use crate::dtype::{SpecializationBits, SpecializationModel};
use crate::error::TensorError;
use crate::launch::AsyncKernelLaunch;
use crate::partition;
use crate::partition::{GridBound, MappedLaunchPartition, Partition, PartitionObject};
use crate::plan::argument::TensorArg;
use crate::plan::layout::{ArgLayout, LayoutModel, PartitionModel, TensorModel, UnsupportedParam};
use crate::scalar;
use crate::shape;
use crate::storage::Allocation;
use crate::tensor;
use crate::tensor::{Tensor, TensorView};

verus! {

/// The argument slots of a list of `i32`.
pub open spec fn i32_slots(s: Seq<i32>) -> Seq<u128> {
    s.map_values(|x: i32| scalar::twos_complement(x as int, 0x1_0000_0000))
}

/// The arguments of a tensor input: pointer, shape, strides.
pub open spec fn input_args(ptr: u64, dims: Seq<i32>, strides: Seq<i32>) -> Seq<u128> {
    seq![ptr as u128] + i32_slots(dims) + i32_slots(strides)
}

/// The arguments of a partitioned output: those of the tensor, then the
/// partition's shape and strides.
pub open spec fn output_args(ptr: u64, p: Partition<Tensor>) -> Seq<u128> {
    input_args(ptr, p.object.dims(), p.object.steps()) + i32_slots(
        tensor::as_i32_dims(p.partition_shape@),
    ) + i32_slots(tensor::as_i32_dims(p.partition_strides@))
}

/// The launch grid of a partition under an optional map of shape and tile-block
/// count.
pub open spec fn output_grid(
    p: Partition<Tensor>,
    mapping: Option<(Seq<usize>, u32)>,
    r: Result<(u32, u32, u32), TensorError>,
) -> bool {
    match mapping {
        None => shape::grid_result(p.object.dims(), p.partition_shape@, r),
        Some((map_shape, blocks)) => exists|g: Result<(u32, u32, u32), TensorError>| #[trigger]
            shape::grid_result(p.object.dims(), p.partition_shape@, g) && match g {
                Ok(grid) => r == partition::mapped_grid(map_shape, grid, blocks),
                Err(e) => r == Err::<(u32, u32, u32), TensorError>(e),
            },
    }
}

/// The bound that a launch grid sets: an upper bound for a prefix partition, an
/// exact grid for any other binding.
pub open spec fn bound_of(
    prefix: bool,
    g: Result<(u32, u32, u32), TensorError>,
    r: Result<GridBound, TensorError>,
) -> bool {
    match g {
        Ok(grid) => r == Ok::<GridBound, TensorError>(
            if prefix {
                GridBound::AtMost(grid)
            } else {
                GridBound::Exact(grid)
            },
        ),
        Err(e) => r == Err::<GridBound, TensorError>(e),
    }
}

/// A list of `usize` as `i32`.
fn usize_as_i32(items: &[usize]) -> (r: Vec<i32>)
    ensures
        r@ == tensor::as_i32_dims(items@),
{
    let mut out: Vec<i32> = Vec::new();
    let mut i: usize = 0;
    while i < items.len()
        invariant
            i <= items.len(),
            out@ == tensor::as_i32_dims(items@.take(i as int)),
        decreases items.len() - i,
    {
        let d = #[verifier::truncate] (items[i] as i32);
        out.push(d);
        assert(tensor::as_i32_dims(items@.take(i + 1)) =~= tensor::as_i32_dims(
            items@.take(i as int),
        ).push(d));
        i += 1;
    }
    assert(items@.take(i as int) =~= items@);
    out
}

/// Pushes each item as an argument.
fn push_i32_args<F>(launcher: &mut AsyncKernelLaunch<F>, items: &[i32])
    ensures
        final(launcher).function() == old(launcher).function(),
        final(launcher).config() == old(launcher).config(),
        final(launcher).dependent() == old(launcher).dependent(),
        final(launcher).arguments() == old(launcher).arguments() + i32_slots(items@),
{
    let ghost start = launcher.arguments();
    let mut i: usize = 0;
    while i < items.len()
        invariant
            i <= items.len(),
            launcher.function() == old(launcher).function(),
            launcher.config() == old(launcher).config(),
            launcher.dependent() == old(launcher).dependent(),
            launcher.arguments() == start + i32_slots(items@.take(i as int)),
        decreases items.len() - i,
    {
        launcher.push_arg(items[i]);
        assert(items@.take(i + 1) =~= items@.take(i as int).push(items@[i as int]));
        assert(i32_slots(items@.take(i + 1)) =~= i32_slots(items@.take(i as int)).push(
            scalar::twos_complement(items@[i as int] as int, 0x1_0000_0000),
        ));
        assert(launcher.arguments() =~= start + i32_slots(items@.take(i + 1)));
        i += 1;
    }
    assert(items@.take(i as int) =~= items@);
}

/// Pushes the pointer, shape and strides of a tensor argument.
fn push_tensor_args<F>(
    launcher: &mut AsyncKernelLaunch<F>,
    ptr: u64,
    dims: &[i32],
    strides: &[i32],
)
    ensures
        final(launcher).function() == old(launcher).function(),
        final(launcher).config() == old(launcher).config(),
        final(launcher).dependent() == old(launcher).dependent(),
        final(launcher).arguments() == old(launcher).arguments() + input_args(
            ptr,
            dims@,
            strides@,
        ),
{
    launcher.push_device_ptr(ptr);
    push_i32_args(launcher, dims);
    push_i32_args(launcher, strides);
    assert(launcher.arguments() =~= old(launcher).arguments() + input_args(ptr, dims@, strides@));
}

/// How a partitioned output is bound to a launch.
pub trait KernelOutputStored {
    /// The partition that the kernel writes.
    spec fn output(&self) -> Partition<Tensor>;

    /// The map shape and tile-block count of a mapped partition.
    spec fn mapping(&self) -> Option<(Seq<usize>, u32)>;

    /// Pushes the output's arguments: pointer, shape, strides, partition shape
    /// and partition strides.
    fn push_kernel_args<F>(&self, launcher: &mut AsyncKernelLaunch<F>)
        requires
            self.output().object.backing() is Device,
        ensures
            final(launcher).function() == old(launcher).function(),
            final(launcher).config() == old(launcher).config(),
            final(launcher).dependent() == old(launcher).dependent(),
            final(launcher).arguments() == old(launcher).arguments() + output_args(
                self.output().object.backing()->ptr,
                self.output(),
            ),
    ;

    /// The launch grid of the binding.
    fn grid(&self) -> (r: Result<(u32, u32, u32), TensorError>)
        ensures
            output_grid(self.output(), self.mapping(), r),
    ;

    /// The binding's launch-grid constraint: exact coverage unless the partition
    /// opted into a prefix.
    fn grid_bound(&self) -> (r: Result<GridBound, TensorError>)
        ensures
            exists|g: Result<(u32, u32, u32), TensorError>| #[trigger]
                output_grid(self.output(), self.mapping(), g) && bound_of(
                    self.mapping() is None && self.output().prefix_coverage,
                    g,
                    r,
                ),
    ;

    /// The map shape as the kernel gets it.
    fn map_shape_as_i32(&self) -> (r: Option<Vec<i32>>)
        ensures
            match self.mapping() {
                Some((map_shape, _)) => r matches Some(v) && v@ == tensor::as_i32_dims(map_shape),
                None => r is None,
            },
    ;

    /// The name of the element type.
    fn dtype_str(&self) -> (r: &'static str)
        ensures
            r@ == self.output().object.elem().name(),
    ;

    /// The partition shape as the kernel gets it.
    fn partition_shape_as_i32(&self) -> (r: Vec<i32>)
        ensures
            r@ == tensor::as_i32_dims(self.output().partition_shape@),
    ;

    /// The tensor's shape.
    fn shape_as_i32(&self) -> (r: Vec<i32>)
        ensures
            r@ == self.output().object.dims(),
    ;

    /// The layout that a launch plan records of the binding, whose tensor is
    /// specialized on `spec`. A mapped partition is refused.
    fn plan_layout(&self, spec: &SpecializationBits) -> (r: Result<ArgLayout, UnsupportedParam>)
        ensures
            match self.mapping() {
                None => r matches Ok(layout) && layout@ == LayoutModel::Tensor(
                    output_layout(self.output(), spec@),
                ),
                Some(_) => r matches Err(what) && what.0@ == "mapped partition output"@,
            },
    ;
}

/// The layout of a partitioned output.
pub open spec fn output_layout(p: Partition<Tensor>, spec: SpecializationModel) -> TensorModel {
    TensorModel {
        dtype: p.object.elem(),
        device_id: p.object.backing().device() as usize,
        shape: p.object.dims(),
        strides: p.object.steps(),
        spec,
        partition: Some(
            PartitionModel {
                shape: p.partition_shape@,
                strides: p.partition_strides@,
                prefix_coverage: p.prefix_coverage,
            },
        ),
    }
}

impl<O: PartitionObject> KernelOutputStored for Partition<O> {
    open spec fn output(&self) -> Partition<Tensor> {
        self.owned()
    }

    open spec fn mapping(&self) -> Option<(Seq<usize>, u32)> {
        None
    }

    fn push_kernel_args<F>(&self, launcher: &mut AsyncKernelLaunch<F>) {
        let tensor = self.object.as_tensor();
        let ptr: u64 = match tensor.cu_deviceptr() {
            Some(ptr) => ptr,
            None => 0,
        };
        push_tensor_args(launcher, ptr, tensor.shape(), tensor.strides());
        let tile = usize_as_i32(self.partition_shape.as_slice());
        push_i32_args(launcher, tile.as_slice());
        let steps = usize_as_i32(self.partition_strides.as_slice());
        push_i32_args(launcher, steps.as_slice());
        assert(launcher.arguments() =~= old(launcher).arguments() + output_args(
            self.output().object.backing()->ptr,
            self.output(),
        ));
    }

    fn grid(&self) -> (r: Result<(u32, u32, u32), TensorError>) {
        shape::partition_launch_grid(self.object.as_tensor().shape(), self.partition_shape.as_slice())
    }

    fn grid_bound(&self) -> (r: Result<GridBound, TensorError>) {
        let g = shape::partition_launch_grid(self.object.as_tensor().shape(), self.partition_shape.as_slice());
        let ghost grid_of = g;
        assert(output_grid(self.output(), self.mapping(), grid_of));
        match g {
            Ok(grid) => Ok(
                if self.prefix_coverage {
                    GridBound::AtMost(grid)
                } else {
                    GridBound::Exact(grid)
                },
            ),
            Err(e) => Err(e),
        }
    }

    fn map_shape_as_i32(&self) -> (r: Option<Vec<i32>>) {
        None
    }

    fn dtype_str(&self) -> (r: &'static str) {
        self.object.as_tensor().dtype().as_str()
    }

    fn partition_shape_as_i32(&self) -> (r: Vec<i32>) {
        usize_as_i32(self.partition_shape.as_slice())
    }

    fn shape_as_i32(&self) -> (r: Vec<i32>) {
        shape::copy_i32(self.object.as_tensor().shape())
    }

    fn plan_layout(&self, spec: &SpecializationBits) -> (r: Result<ArgLayout, UnsupportedParam>) {
        Ok(TensorArg::output(self, spec).tensor_layout())
    }
}

impl<O: PartitionObject> KernelOutputStored for MappedLaunchPartition<Partition<O>> {
    open spec fn output(&self) -> Partition<Tensor> {
        self.partition.owned()
    }

    open spec fn mapping(&self) -> Option<(Seq<usize>, u32)> {
        Some((self.map_shape@, self.num_tile_blocks))
    }

    fn push_kernel_args<F>(&self, launcher: &mut AsyncKernelLaunch<F>) {
        self.partition.push_kernel_args(launcher);
    }

    fn grid(&self) -> (r: Result<(u32, u32, u32), TensorError>) {
        let g = shape::partition_launch_grid(
            self.partition.object.as_tensor().shape(),
            self.partition.partition_shape.as_slice(),
        );
        let ghost logical = g;
        assert(shape::grid_result(
            self.output().object.dims(),
            self.output().partition_shape@,
            logical,
        ));
        match g {
            Ok(grid) => self.validate(grid, self.num_tile_blocks),
            Err(e) => Err(e),
        }
    }

    fn grid_bound(&self) -> (r: Result<GridBound, TensorError>) {
        let g = self.grid();
        let ghost grid_of = g;
        assert(output_grid(self.output(), self.mapping(), grid_of));
        match g {
            Ok(grid) => Ok(GridBound::Exact(grid)),
            Err(e) => Err(e),
        }
    }

    fn map_shape_as_i32(&self) -> (r: Option<Vec<i32>>) {
        Some(usize_as_i32(self.map_shape.as_slice()))
    }

    fn dtype_str(&self) -> (r: &'static str) {
        self.partition.object.as_tensor().dtype().as_str()
    }

    fn partition_shape_as_i32(&self) -> (r: Vec<i32>) {
        usize_as_i32(self.partition.partition_shape.as_slice())
    }

    fn shape_as_i32(&self) -> (r: Vec<i32>) {
        shape::copy_i32(self.partition.object.as_tensor().shape())
    }

    fn plan_layout(&self, _spec: &SpecializationBits) -> (r: Result<ArgLayout, UnsupportedParam>) {
        Err(UnsupportedParam("mapped partition output"))
    }
}

/// How an output argument is stored during execution, and recovered afterwards:
/// a partition comes back as it was, a mapped one without its map.
pub trait KernelOutput: Sized {
    type Stored: KernelOutputStored;

    type Returned;

    /// The stored form of the argument.
    spec fn stored(self) -> Self::Stored;

    /// What comes back of a stored argument.
    spec fn returned(stored: Self::Stored) -> Self::Returned;

    fn prepare(self) -> (r: Self::Stored)
        ensures
            r == self.stored(),
    ;

    fn recover(stored: Self::Stored) -> (r: Self::Returned)
        ensures
            r == Self::returned(stored),
    ;
}

impl<O: PartitionObject> KernelOutput for Partition<O> {
    type Stored = Partition<O>;

    type Returned = Partition<O>;

    open spec fn stored(self) -> Partition<O> {
        self
    }

    open spec fn returned(stored: Partition<O>) -> Partition<O> {
        stored
    }

    fn prepare(self) -> (r: Partition<O>) {
        self
    }

    fn recover(stored: Partition<O>) -> (r: Partition<O>) {
        stored
    }
}

impl<O: PartitionObject> KernelOutput for MappedLaunchPartition<Partition<O>> {
    type Stored = MappedLaunchPartition<Partition<O>>;

    type Returned = Partition<O>;

    open spec fn stored(self) -> MappedLaunchPartition<Partition<O>> {
        self
    }

    open spec fn returned(stored: MappedLaunchPartition<Partition<O>>) -> Partition<O> {
        stored.partition
    }

    fn prepare(self) -> (r: MappedLaunchPartition<Partition<O>>) {
        self
    }

    fn recover(stored: MappedLaunchPartition<Partition<O>>) -> (r: Partition<O>) {
        stored.partition
    }
}

/// How a tensor input is bound to a launch.
pub trait KernelInputStored {
    /// The tensor that owns the storage.
    spec fn owner(&self) -> Tensor;

    /// The pointer the kernel receives, where there is device memory.
    spec fn pointer(&self) -> Option<u64>;

    spec fn input_dims(&self) -> Seq<i32>;

    spec fn input_steps(&self) -> Seq<i32>;

    /// Pushes the input's arguments: pointer, shape and strides.
    fn push_kernel_args<F>(&self, launcher: &mut AsyncKernelLaunch<F>)
        requires
            self.pointer() is Some,
        ensures
            final(launcher).function() == old(launcher).function(),
            final(launcher).config() == old(launcher).config(),
            final(launcher).dependent() == old(launcher).dependent(),
            final(launcher).arguments() == old(launcher).arguments() + input_args(
                self.pointer()->0,
                self.input_dims(),
                self.input_steps(),
            ),
    ;

    /// The input's shape.
    fn shape(&self) -> (r: &[i32])
        ensures
            r@ == self.input_dims(),
    ;

    /// The input's strides.
    fn strides(&self) -> (r: &[i32])
        ensures
            r@ == self.input_steps(),
    ;

    /// The name of the element type.
    fn dtype_str(&self) -> (r: &'static str)
        ensures
            r@ == self.owner().elem().name(),
    ;

    /// The layout that a launch plan records of the input, which is specialized
    /// on `spec`.
    fn plan_layout(&self, spec: &SpecializationBits) -> (r: Result<ArgLayout, UnsupportedParam>)
        ensures
            r matches Ok(layout) && layout@ == LayoutModel::Tensor(
                input_layout(self.owner(), self.input_dims(), self.input_steps(), spec@),
            ),
    ;
}

/// The layout of a tensor input.
pub open spec fn input_layout(
    owner: Tensor,
    dims: Seq<i32>,
    strides: Seq<i32>,
    spec: SpecializationModel,
) -> TensorModel {
    TensorModel {
        dtype: owner.elem(),
        device_id: owner.backing().device() as usize,
        shape: dims,
        strides,
        spec,
        partition: None,
    }
}

impl KernelInputStored for Tensor {
    open spec fn owner(&self) -> Tensor {
        *self
    }

    open spec fn pointer(&self) -> Option<u64> {
        match self.backing() {
            Allocation::Device { ptr, .. } => Some(ptr),
            Allocation::Meta { .. } => None,
        }
    }

    open spec fn input_dims(&self) -> Seq<i32> {
        self.dims()
    }

    open spec fn input_steps(&self) -> Seq<i32> {
        self.steps()
    }

    fn push_kernel_args<F>(&self, launcher: &mut AsyncKernelLaunch<F>) {
        let ptr: u64 = match self.cu_deviceptr() {
            Some(ptr) => ptr,
            None => 0,
        };
        push_tensor_args(launcher, ptr, Tensor::shape(self), Tensor::strides(self));
    }

    fn shape(&self) -> (r: &[i32]) {
        Tensor::shape(self)
    }

    fn strides(&self) -> (r: &[i32]) {
        Tensor::strides(self)
    }

    fn dtype_str(&self) -> (r: &'static str) {
        self.dtype().as_str()
    }

    fn plan_layout(&self, spec: &SpecializationBits) -> (r: Result<ArgLayout, UnsupportedParam>) {
        Ok(TensorArg::input(self, spec).tensor_layout())
    }
}

impl<'a> KernelInputStored for TensorView<'a> {
    open spec fn owner(&self) -> Tensor {
        self.source()
    }

    open spec fn pointer(&self) -> Option<u64> {
        match self.source().backing() {
            Allocation::Device { ptr, .. } => if ptr + self.offset() <= u64::MAX {
                Some((ptr + self.offset()) as u64)
            } else {
                None
            },
            Allocation::Meta { .. } => None,
        }
    }

    open spec fn input_dims(&self) -> Seq<i32> {
        self.dims()
    }

    open spec fn input_steps(&self) -> Seq<i32> {
        self.steps()
    }

    fn push_kernel_args<F>(&self, launcher: &mut AsyncKernelLaunch<F>) {
        let ptr: u64 = match self.device_ptr() {
            Some(ptr) => ptr,
            None => 0,
        };
        push_tensor_args(launcher, ptr, TensorView::shape(self), TensorView::strides(self));
    }

    fn shape(&self) -> (r: &[i32]) {
        TensorView::shape(self)
    }

    fn strides(&self) -> (r: &[i32]) {
        TensorView::strides(self)
    }

    fn dtype_str(&self) -> (r: &'static str) {
        self.base().dtype().as_str()
    }

    fn plan_layout(&self, spec: &SpecializationBits) -> (r: Result<ArgLayout, UnsupportedParam>) {
        Ok(TensorArg::view(self, spec).tensor_layout())
    }
}

/// How an input argument is stored during execution, and recovered afterwards:
/// an owned tensor is shared meanwhile, any other input stays what it is.
pub trait KernelInput: Sized {
    type Stored;

    type Returned;

    /// The stored form of the argument.
    spec fn stored(self) -> Self::Stored;

    /// What comes back of a stored argument.
    spec fn comes_back(stored: Self::Stored, returned: Self::Returned) -> bool;

    fn prepare(self) -> (r: Self::Stored)
        ensures
            r == self.stored(),
    ;

    fn recover(stored: Self::Stored) -> (r: Self::Returned)
        ensures
            Self::comes_back(stored, r),
    ;
}

impl KernelInput for Tensor {
    type Stored = Arc<Tensor>;

    /// The tensor, or the handle where it has other owners.
    type Returned = Result<Tensor, Arc<Tensor>>;

    open spec fn stored(self) -> Arc<Tensor> {
        Arc::new(self)
    }

    open spec fn comes_back(stored: Arc<Tensor>, returned: Result<Tensor, Arc<Tensor>>) -> bool {
        match returned {
            Ok(tensor) => tensor == *stored,
            Err(handle) => handle == stored,
        }
    }

    fn prepare(self) -> (r: Arc<Tensor>) {
        Arc::new(self)
    }

    fn recover(stored: Arc<Tensor>) -> (r: Result<Tensor, Arc<Tensor>>) {
        partition::try_unwrap(stored)
    }
}

impl KernelInput for Arc<Tensor> {
    type Stored = Arc<Tensor>;

    type Returned = Arc<Tensor>;

    open spec fn stored(self) -> Arc<Tensor> {
        self
    }

    open spec fn comes_back(stored: Arc<Tensor>, returned: Arc<Tensor>) -> bool {
        returned == stored
    }

    fn prepare(self) -> (r: Arc<Tensor>) {
        self
    }

    fn recover(stored: Arc<Tensor>) -> (r: Arc<Tensor>) {
        stored
    }
}

impl<'a> KernelInput for &'a Tensor {
    type Stored = &'a Tensor;

    type Returned = &'a Tensor;

    open spec fn stored(self) -> &'a Tensor {
        self
    }

    open spec fn comes_back(stored: &'a Tensor, returned: &'a Tensor) -> bool {
        returned == stored
    }

    fn prepare(self) -> (r: &'a Tensor) {
        self
    }

    fn recover(stored: &'a Tensor) -> (r: &'a Tensor) {
        stored
    }
}

impl<'a> KernelInput for &'a TensorView<'a> {
    type Stored = &'a TensorView<'a>;

    type Returned = &'a TensorView<'a>;

    open spec fn stored(self) -> &'a TensorView<'a> {
        self
    }

    open spec fn comes_back(stored: &'a TensorView<'a>, returned: &'a TensorView<'a>) -> bool {
        returned == stored
    }

    fn prepare(self) -> (r: &'a TensorView<'a>) {
        self
    }

    fn recover(stored: &'a TensorView<'a>) -> (r: &'a TensorView<'a>) {
        stored
    }
}

/// The arguments of an input are its pointer, its dimensions and its strides, in order,
/// negative ones stored modulo 2^32.
pub proof fn an_input_passes_pointer_dimensions_and_strides(
    ptr: u64,
    dims: Seq<i32>,
    strides: Seq<i32>,
)
    ensures
        input_args(ptr, dims, strides).len() == 1 + dims.len() + strides.len(),
        input_args(ptr, dims, strides)[0] == ptr,
        forall|i: int|
            0 <= i < dims.len() ==> input_args(ptr, dims, strides)[1 + i] == if #[trigger] dims[i]
                < 0 {
                dims[i] + 0x1_0000_0000
            } else {
                dims[i] as int
            },
        forall|i: int|
            0 <= i < strides.len() ==> input_args(ptr, dims, strides)[1 + dims.len() + i]
                == if #[trigger] strides[i] < 0 {
                strides[i] + 0x1_0000_0000
            } else {
                strides[i] as int
            },
{
    let all = input_args(ptr, dims, strides);
    assert forall|i: int| 0 <= i < dims.len() implies all[1 + i] == if #[trigger] dims[i] < 0 {
        dims[i] + 0x1_0000_0000
    } else {
        dims[i] as int
    } by {
        assert(all[1 + i] == i32_slots(dims)[i]);
    }
    assert forall|i: int| 0 <= i < strides.len() implies all[1 + dims.len() + i]
        == if #[trigger] strides[i] < 0 {
        strides[i] + 0x1_0000_0000
    } else {
        strides[i] as int
    } by {
        assert(all[1 + dims.len() + i] == i32_slots(strides)[i]);
    }
}

/// The arguments of an output are those of its tensor, then the tile's dimensions and
/// strides.
pub proof fn an_output_passes_its_tensor_and_its_tile(ptr: u64, p: Partition<Tensor>)
    ensures
        ({
            let tensor = input_args(ptr, p.object.dims(), p.object.steps());
            let all = output_args(ptr, p);
            &&& all.len() == tensor.len() + p.partition_shape@.len() + p.partition_strides@.len()
            &&& forall|i: int| 0 <= i < tensor.len() ==> #[trigger] all[i] == tensor[i]
            &&& forall|i: int|
                0 <= i < p.partition_shape@.len() && #[trigger] p.partition_shape@[i] <= 0x7FFF_FFFF
                    ==> all[tensor.len() + i] == p.partition_shape@[i]
            &&& forall|i: int|
                0 <= i < p.partition_strides@.len() && #[trigger] p.partition_strides@[i]
                    <= 0x7FFF_FFFF ==> all[tensor.len() + p.partition_shape@.len() + i]
                    == p.partition_strides@[i]
        }),
{
    let tensor = input_args(ptr, p.object.dims(), p.object.steps());
    let all = output_args(ptr, p);
    let (a, b) = (
        i32_slots(tensor::as_i32_dims(p.partition_shape@)),
        i32_slots(tensor::as_i32_dims(p.partition_strides@)),
    );
    assert forall|i: int|
        0 <= i < p.partition_shape@.len() && #[trigger] p.partition_shape@[i]
            <= 0x7FFF_FFFF implies all[tensor.len() + i] == p.partition_shape@[i] by {
        assert(all[tensor.len() + i] == a[i]);
    }
    assert forall|i: int|
        0 <= i < p.partition_strides@.len() && #[trigger] p.partition_strides@[i]
            <= 0x7FFF_FFFF implies all[tensor.len() + p.partition_shape@.len() + i]
        == p.partition_strides@[i] by {
        assert(all[tensor.len() + p.partition_shape@.len() + i] == b[i]);
    }
}

/// The recorded layout of an output holds its tensor's and its partition's metadata.
pub proof fn an_outputs_layout_records_its_partition(p: Partition<Tensor>, spec: SpecializationModel)
    requires
        p.object.backing().device() <= usize::MAX,
    ensures
        ({
            let m = output_layout(p, spec);
            &&& m.dtype == p.object.elem()
            &&& m.device_id == p.object.backing().device()
            &&& m.shape == p.object.dims() && m.strides == p.object.steps()
            &&& m.spec == spec
            &&& m.partition is Some
            &&& m.partition->Some_0.shape == p.partition_shape@
            &&& m.partition->Some_0.strides == p.partition_strides@
            &&& m.partition->Some_0.prefix_coverage == p.prefix_coverage
        }),
{
}

/// The recorded layout of an input holds its metadata and no partition.
pub proof fn an_inputs_layout_records_no_partition(
    owner: Tensor,
    dims: Seq<i32>,
    strides: Seq<i32>,
    spec: SpecializationModel,
)
    requires
        owner.backing().device() <= usize::MAX,
    ensures
        ({
            let m = input_layout(owner, dims, strides, spec);
            &&& m.dtype == owner.elem()
            &&& m.device_id == owner.backing().device()
            &&& m.shape == dims && m.strides == strides
            &&& m.spec == spec
            &&& m.partition is None
        }),
{
}

/// A kernel receives the pointer of a tensor's memory, moved by the offset of a view;
/// metadata has none.
pub proof fn a_kernel_receives_the_memorys_pointer(tensor: Tensor, view: TensorView<'_>)
    requires
        view.wf(),
    ensures
        tensor.pointer() is Some <==> tensor.backing() is Device,
        tensor.backing() is Device ==> tensor.pointer()->Some_0 == tensor.backing()->ptr,
        view.pointer() is Some <==> view.source().backing() is Device,
        view.source().backing() is Device ==> view.pointer()->Some_0 == view.source().backing()->ptr
            + view.offset(),
        tensor.owner() == tensor && view.owner() == view.source(),
        tensor.input_dims() == tensor.dims() && tensor.input_steps() == tensor.steps(),
        view.input_dims() == view.dims() && view.input_steps() == view.steps(),
{
}

/// A mapped output launches what its map makes of the partition's own grid.
pub proof fn a_mapped_output_maps_the_partitions_grid(
    p: Partition<Tensor>,
    map_shape: Seq<usize>,
    blocks: u32,
    grid: (u32, u32, u32),
    r: Result<(u32, u32, u32), TensorError>,
)
    requires
        shape::grid_result(p.object.dims(), p.partition_shape@, Ok(grid)),
        output_grid(p, Some((map_shape, blocks)), r),
    ensures
        r == partition::mapped_grid(map_shape, grid, blocks),
{
}

/// Inputs and outputs are stored and come back as they are; a mapped output comes back
/// as its partition.
pub proof fn bound_arguments_come_back<O: PartitionObject>(
    p: Partition<O>,
    m: MappedLaunchPartition<Partition<O>>,
    tensor: Tensor,
    shared: Arc<Tensor>,
    back: Arc<Tensor>,
)
    ensures
        p.stored() == p,
        <Partition<O> as KernelOutput>::returned(p) == p,
        m.stored() == m,
        <MappedLaunchPartition<Partition<O>> as KernelOutput>::returned(m) == m.partition,
        *KernelInput::stored(tensor) == tensor,
        KernelInput::stored(shared) == shared,
        <Tensor as KernelInput>::comes_back(shared, Ok(tensor)) <==> tensor == *shared,
        <Arc<Tensor> as KernelInput>::comes_back(shared, back) <==> back == shared,
{
}

/// A partition is bound without a map; a mapped one with its own map and tile blocks.
pub proof fn only_a_mapped_output_has_a_map<O: PartitionObject>(
    p: Partition<O>,
    m: MappedLaunchPartition<Partition<O>>,
)
    ensures
        p.output() == p.owned(),
        p.mapping() is None,
        m.output() == m.partition.owned(),
        m.mapping() == Some((m.map_shape@, m.num_tile_blocks)),
{
}

} // verus!
