//! Errors of tensor metadata, partitioning, storage access, launches and launch
//! plans, with the text they are reported with.
use vstd::prelude::*;

use crate::text;

verus! {

/// Why tensor metadata, a view, a partition or a mapped partition is refused.
#[derive(Debug, PartialEq, Eq)]
pub enum TensorError {
    /// The map shape is not of rank 1 through 3.
    MapRank,
    /// Every map axis is owned.
    NoStreamedAxis,
    /// A mapped axis of the logical partition grid is 0.
    EmptyPartitionGrid,
    /// An axis of the logical grid beyond the map rank is not 1.
    MapRankMismatch,
    /// The streamed tile count leaves `u32`.
    PartitionGridTooLarge,
    /// No tile blocks were asked for.
    ZeroTileBlocks,
    /// More tile blocks than streamed tiles.
    TooManyTileBlocks,
    /// A product of dimensions leaves `usize`.
    ShapeOverflow,
    /// The byte size leaves `usize`.
    ByteSizeOverflow,
    /// A dimension is negative.
    NegativeDimension,
    /// A dimension of a partitioned tensor is not positive.
    NonPositiveShape { shape: Vec<i32> },
    /// The partition rank differs from the tensor rank.
    PartitionRank { partition_shape: Vec<usize>, shape: Vec<i32> },
    /// A partition dimension is 0.
    ZeroPartitionDimension { partition_shape: Vec<usize> },
    /// A partition dimension leaves `u32`.
    PartitionDimensionTooLarge { dimension: usize },
    /// A partitioned tensor is not of rank 1 through 3.
    PartitionedRank,
    /// A zero-copy view of a layout that is not row-major contiguous.
    NonContiguousView { shape: Vec<i32>, strides: Vec<i32> },
    /// A view shape with another byte size.
    ViewSize { target: Vec<usize>, shape: Vec<i32> },
    /// A dimension of a view that leaves `i32`.
    DimensionTooLarge { dimension: usize },
    /// A zero-copy reinterpretation of a layout that is not contiguous.
    NonContiguousReinterpret,
    /// A reinterpretation with another byte size.
    ReinterpretSize,
    /// A reinterpretation whose type needs a stricter alignment.
    ReinterpretAlignment,
    /// A slice with more ranges than axes.
    SliceRank,
    /// A slice range that is reversed or reaches past its axis.
    SliceBounds,
    /// A shared tensor handle.
    MultipleOwners,
    /// A handle that is not the only one, where it is to be partitioned.
    SharedHandle,
    /// Storage shared with other tensors or views.
    SharedStorage,
    /// A mutable partition of storage shared with other tensors or views.
    SharedPartition,
    /// Shape and strides of different ranks.
    StrideRank,
    /// A negative stride, where the addressed bytes must be bounded.
    NegativeStride,
    /// The addressable extent leaves `usize`.
    ExtentOverflow,
    /// The logical byte size differs from that of the storage.
    StorageSize,
    /// A foreign allocation that the addressable extent overruns.
    ForeignExtent { len_bytes: usize, extent_bytes: usize },
}

impl TensorError {
    /// The text the error is reported with.
    pub open spec fn text(self) -> Seq<char> {
        match self {
            TensorError::MapRank => "mapped partitions require a rank-1 through rank-3 map shape."@,
            TensorError::NoStreamedAxis =>
                "mapped partition requires at least one streamed (non-OWNED) map axis."@,
            TensorError::EmptyPartitionGrid =>
                "mapped partition requires a non-empty logical partition grid."@,
            TensorError::MapRankMismatch =>
                "mapped partition map rank must match the logical partition grid rank."@,
            TensorError::PartitionGridTooLarge => "mapped partition logical grid is too large"@,
            TensorError::ZeroTileBlocks => "mapped partition requires num_tile_blocks > 0."@,
            TensorError::TooManyTileBlocks =>
                "mapped partition num_tile_blocks cannot exceed the streamed logical tile count."@,
            TensorError::ShapeOverflow => "Tensor shape overflowed usize."@,
            TensorError::ByteSizeOverflow => "Tensor byte size overflowed usize."@,
            TensorError::NegativeDimension => "Tensor shape contains negative dimension."@,
            TensorError::NonPositiveShape { shape } => "Shape dimensions must be positive, got "@
                + text::list_text(text::ints_of_i32(shape@)) + "."@,
            TensorError::PartitionRank { partition_shape, shape } => "Partition rank "@
                + text::decimal(partition_shape@.len()) + " does not match tensor rank "@
                + text::decimal(shape@.len()) + " (partition shape "@ + text::list_text(
                text::ints_of_usize(partition_shape@),
            ) + ", tensor shape "@ + text::list_text(text::ints_of_i32(shape@)) + ")."@,
            TensorError::ZeroPartitionDimension { partition_shape } =>
                "Partition dimensions must be positive, got "@ + text::list_text(
                text::ints_of_usize(partition_shape@),
            ) + "."@,
            TensorError::PartitionDimensionTooLarge { dimension } => "Partition dimension "@
                + text::decimal(dimension as nat) + " exceeds u32::MAX."@,
            TensorError::DimensionTooLarge { dimension } => "Tensor dimension "@ + text::decimal(
                dimension as nat,
            ) + " exceeds i32::MAX."@,
            TensorError::PartitionedRank => "Mutable tensor must be at most rank 3."@,
            TensorError::NonContiguousView { shape, strides } =>
                "Zero-copy tensor views require contiguous storage (shape "@ + text::list_text(
                text::ints_of_i32(shape@),
            ) + ", strides "@ + text::list_text(text::ints_of_i32(strides@)) + ")."@,
            TensorError::ViewSize { target, shape } => "View shape must preserve tensor size: "@
                + text::list_text(text::ints_of_usize(target@))
                + " does not have the same number of elements as "@ + text::list_text(
                text::ints_of_i32(shape@),
            ) + "."@,
            TensorError::NonContiguousReinterpret =>
                "Zero-copy reinterpret requires contiguous storage."@,
            TensorError::ReinterpretSize => "Reinterpret shape must preserve total byte size."@,
            TensorError::ReinterpretAlignment =>
                "Tensor storage alignment is incompatible with reinterpret target type."@,
            TensorError::SliceRank => "slice: more ranges than axes."@,
            TensorError::SliceBounds => "slice: range out of bounds."@,
            TensorError::MultipleOwners => "try_partition: Arc<Tensor> has multiple owners"@,
            TensorError::SharedHandle => "Failed to convert Arc to Partition."@,
            TensorError::SharedStorage =>
                "try_partition: tensor storage is shared with other tensors or views"@,
            TensorError::SharedPartition =>
                "Cannot create mutable partition from shared tensor storage."@,
            TensorError::StrideRank => "Tensor shape/stride rank mismatch."@,
            TensorError::NegativeStride =>
                "from_foreign requires non-negative strides; use borrow_raw_parts for negative-stride views."@,
            TensorError::ExtentOverflow => "Tensor addressable extent overflowed usize."@,
            TensorError::StorageSize => "Tensor logical byte size must match storage byte size."@,
            TensorError::ForeignExtent { len_bytes, extent_bytes } => "foreign allocation ("@
                + text::decimal(len_bytes as nat)
                + " bytes) is smaller than the tensor's addressable extent ("@ + text::decimal(
                extent_bytes as nat,
            ) + " bytes for the given shape/strides)"@,
        }
    }

    /// The text of an error that carries no values.
    fn fixed_text(&self) -> (r: &'static str)
        ensures
            !(self is NonPositiveShape || self is PartitionRank || self is ZeroPartitionDimension
                || self is PartitionDimensionTooLarge || self is DimensionTooLarge || self is NonContiguousView
                || self is ViewSize || self is ForeignExtent) ==> r@ == self.text(),
    {
        match self {
            TensorError::MapRank => "mapped partitions require a rank-1 through rank-3 map shape.",
            TensorError::NoStreamedAxis =>
                "mapped partition requires at least one streamed (non-OWNED) map axis.",
            TensorError::EmptyPartitionGrid =>
                "mapped partition requires a non-empty logical partition grid.",
            TensorError::MapRankMismatch =>
                "mapped partition map rank must match the logical partition grid rank.",
            TensorError::PartitionGridTooLarge => "mapped partition logical grid is too large",
            TensorError::ZeroTileBlocks => "mapped partition requires num_tile_blocks > 0.",
            TensorError::TooManyTileBlocks =>
                "mapped partition num_tile_blocks cannot exceed the streamed logical tile count.",
            TensorError::ShapeOverflow => "Tensor shape overflowed usize.",
            TensorError::ByteSizeOverflow => "Tensor byte size overflowed usize.",
            TensorError::NegativeDimension => "Tensor shape contains negative dimension.",
            TensorError::PartitionedRank => "Mutable tensor must be at most rank 3.",
            TensorError::NonContiguousReinterpret =>
                "Zero-copy reinterpret requires contiguous storage.",
            TensorError::ReinterpretSize => "Reinterpret shape must preserve total byte size.",
            TensorError::ReinterpretAlignment =>
                "Tensor storage alignment is incompatible with reinterpret target type.",
            TensorError::SliceRank => "slice: more ranges than axes.",
            TensorError::SliceBounds => "slice: range out of bounds.",
            TensorError::MultipleOwners => "try_partition: Arc<Tensor> has multiple owners",
            TensorError::SharedHandle => "Failed to convert Arc to Partition.",
            TensorError::SharedStorage =>
                "try_partition: tensor storage is shared with other tensors or views",
            TensorError::SharedPartition =>
                "Cannot create mutable partition from shared tensor storage.",
            TensorError::StrideRank => "Tensor shape/stride rank mismatch.",
            TensorError::NegativeStride =>
                "from_foreign requires non-negative strides; use borrow_raw_parts for negative-stride views.",
            TensorError::ExtentOverflow => "Tensor addressable extent overflowed usize.",
            TensorError::StorageSize => "Tensor logical byte size must match storage byte size.",
            _ => "",
        }
    }

    /// The text the error is reported with.
    pub fn to_string(&self) -> (r: String)
        ensures
            r@ == self.text(),
    {
        let mut out = String::new();
        match self {
            TensorError::NonPositiveShape { shape } => {
                out.append("Shape dimensions must be positive, got ");
                text::push_i32_list(&mut out, shape.as_slice());
                out.append(".");
            },
            TensorError::PartitionRank { partition_shape, shape } => {
                out.append("Partition rank ");
                text::push_u64(&mut out, partition_shape.len() as u64);
                out.append(" does not match tensor rank ");
                text::push_u64(&mut out, shape.len() as u64);
                out.append(" (partition shape ");
                text::push_usize_list(&mut out, partition_shape.as_slice());
                out.append(", tensor shape ");
                text::push_i32_list(&mut out, shape.as_slice());
                out.append(").");
            },
            TensorError::ZeroPartitionDimension { partition_shape } => {
                out.append("Partition dimensions must be positive, got ");
                text::push_usize_list(&mut out, partition_shape.as_slice());
                out.append(".");
            },
            TensorError::PartitionDimensionTooLarge { dimension } => {
                out.append("Partition dimension ");
                text::push_u64(&mut out, *dimension as u64);
                out.append(" exceeds u32::MAX.");
            },
            TensorError::DimensionTooLarge { dimension } => {
                out.append("Tensor dimension ");
                text::push_u64(&mut out, *dimension as u64);
                out.append(" exceeds i32::MAX.");
            },
            TensorError::NonContiguousView { shape, strides } => {
                out.append("Zero-copy tensor views require contiguous storage (shape ");
                text::push_i32_list(&mut out, shape.as_slice());
                out.append(", strides ");
                text::push_i32_list(&mut out, strides.as_slice());
                out.append(").");
            },
            TensorError::ViewSize { target, shape } => {
                out.append("View shape must preserve tensor size: ");
                text::push_usize_list(&mut out, target.as_slice());
                out.append(" does not have the same number of elements as ");
                text::push_i32_list(&mut out, shape.as_slice());
                out.append(".");
            },
            TensorError::ForeignExtent { len_bytes, extent_bytes } => {
                out.append("foreign allocation (");
                text::push_u64(&mut out, *len_bytes as u64);
                out.append(" bytes) is smaller than the tensor's addressable extent (");
                text::push_u64(&mut out, *extent_bytes as u64);
                out.append(" bytes for the given shape/strides)");
            },
            _ => {
                out.append(self.fixed_text());
            },
        }
        assert(out@ =~= self.text());
        out
    }
}

/// Why a launch is refused on account of what it was given.
#[derive(Debug, PartialEq, Eq)]
pub enum LaunchFault {
    /// A launch without a grid and block configuration.
    NoLaunchConfig,
    /// Programmatic dependent launch on a device that lacks it.
    DependentLaunchTarget { architecture: String },
    /// A launch check that reads what a replay can change.
    UnpinnedCheck { cause: String },
    /// A parameter that launch plans cannot record.
    UnsupportedParam { index: usize, what: String },
    /// An argument of another layout than the plan's.
    LayoutMismatch { index: usize, layout: String },
    /// A raw launch with another number of arguments.
    ArgumentCount { expected: usize, given: usize },
    /// A stream on another device than the plan's.
    PlanDevice { plan: usize, stream: usize },
    /// A raw argument that the plan's layout does not admit.
    RawArgument { index: usize, arg: String, layout: String },
    /// A launcher that resolved no launch.
    NothingCaptured,
    /// A launcher closure that did not pass an argument through.
    ChangedArgument { index: usize },
}

impl LaunchFault {
    /// The text the fault is reported with.
    pub open spec fn text(self) -> Seq<char> {
        match self {
            LaunchFault::NoLaunchConfig => "Await called before launching the kernel."@,
            LaunchFault::DependentLaunchTarget { architecture } => "programmatic dependent launch requires sm_90 or newer; target "@ + architecture@,
            LaunchFault::UnpinnedCheck { cause } => "launch plans do not support this kernel: a launch check depends on more than argument layouts and the grid ("@ + cause@ + ")"@,
            LaunchFault::UnsupportedParam { index, what } => "launch plans do not support parameter "@ + text::decimal(index as nat) + " ("@ + what@ + ")"@,
            LaunchFault::LayoutMismatch { index, layout } => "argument "@ + text::decimal(index as nat) + " does not match the layout the plan was built for: "@ + layout@,
            LaunchFault::ArgumentCount { expected, given } => "launch plan takes "@ + text::decimal(expected as nat) + " arguments, got "@ + text::decimal(given as nat),
            LaunchFault::PlanDevice { plan, stream } => "launch plan was built for device "@ + text::decimal(plan as nat) + ", the stream is on device "@ + text::decimal(stream as nat),
            LaunchFault::RawArgument { index, arg, layout } => "raw argument "@ + text::decimal(index as nat) + " ("@ + arg@ + ") does not satisfy the plan's layout "@ + layout@,
            LaunchFault::NothingCaptured => "the launcher finished without resolving a launch"@,
            LaunchFault::ChangedArgument { index } => "the launcher closure changed argument "@ + text::decimal(index as nat) + "; it must pass the arguments through unchanged and in order, as `|(a, b)| kernel(a, b)`"@,
        }
    }

    /// The text the fault is reported with.
    pub fn to_string(&self) -> (r: String)
        ensures
            r@ == self.text(),
    {
        let mut out = String::new();
        match self {
            LaunchFault::NoLaunchConfig => {
                out.append("Await called before launching the kernel.");
            },
            LaunchFault::DependentLaunchTarget { architecture } => {
                out.append("programmatic dependent launch requires sm_90 or newer; target ");
                out.append(architecture.as_str());
            },
            LaunchFault::UnpinnedCheck { cause } => {
                out.append("launch plans do not support this kernel: a launch check depends on more than argument layouts and the grid (");
                out.append(cause.as_str());
                out.append(")");
            },
            LaunchFault::UnsupportedParam { index, what } => {
                out.append("launch plans do not support parameter ");
                text::push_u64(&mut out, *index as u64);
                out.append(" (");
                out.append(what.as_str());
                out.append(")");
            },
            LaunchFault::LayoutMismatch { index, layout } => {
                out.append("argument ");
                text::push_u64(&mut out, *index as u64);
                out.append(" does not match the layout the plan was built for: ");
                out.append(layout.as_str());
            },
            LaunchFault::ArgumentCount { expected, given } => {
                out.append("launch plan takes ");
                text::push_u64(&mut out, *expected as u64);
                out.append(" arguments, got ");
                text::push_u64(&mut out, *given as u64);
            },
            LaunchFault::PlanDevice { plan, stream } => {
                out.append("launch plan was built for device ");
                text::push_u64(&mut out, *plan as u64);
                out.append(", the stream is on device ");
                text::push_u64(&mut out, *stream as u64);
            },
            LaunchFault::RawArgument { index, arg, layout } => {
                out.append("raw argument ");
                text::push_u64(&mut out, *index as u64);
                out.append(" (");
                out.append(arg.as_str());
                out.append(") does not satisfy the plan's layout ");
                out.append(layout.as_str());
            },
            LaunchFault::NothingCaptured => {
                out.append("the launcher finished without resolving a launch");
            },
            LaunchFault::ChangedArgument { index } => {
                out.append("the launcher closure changed argument ");
                text::push_u64(&mut out, *index as u64);
                out.append("; it must pass the arguments through unchanged and in order, as `|(a, b)| kernel(a, b)`");
            },
        }
        assert(out@ =~= self.text());
        out
    }
}

/// Why a launch is refused on account of how it was put together.
#[derive(Debug, PartialEq, Eq)]
pub enum InternalFault {
    /// A tensor used on a stream of another device.
    DifferentDevices,
    /// An access that conflicts with one in flight on another stream.
    ConflictingAccess,
    /// A planned launch without a launch configuration.
    PlanWithoutConfig,
    /// An argument outside the value slots.
    ArgumentSlot { offset: usize, slots: usize },
    /// Another number of parameter starts than of parameters.
    ParamStarts { starts: usize, params: usize },
    /// Arguments before the first parameter.
    OutsideParams,
    /// A parameter whose span disagrees with its layout.
    ParamSpan { index: usize, start: usize, end: usize, count: usize },
    /// A parameter without a first argument.
    NoArgument { start: usize, index: usize },
    /// A plan finished as a plan of another kernel.
    WrongKernel { plan: String, kernel: String },
    /// A plan that needs an unsafe launch, finished as a safe one.
    NeedsUnsafeLaunch { kernel: String },
}

impl InternalFault {
    /// The text the fault is reported with.
    pub open spec fn text(self) -> Seq<char> {
        match self {
            InternalFault::DifferentDevices => "tensor and execution stream are on different devices"@,
            InternalFault::ConflictingAccess => "tensor has a conflicting in-flight access on another stream; await its operation before reusing it"@,
            InternalFault::PlanWithoutConfig => "planned launch has no launch config"@,
            InternalFault::ArgumentSlot { offset, slots } => "planned launch has an argument at slot "@ + text::decimal(offset as nat) + " of "@ + text::decimal(slots as nat),
            InternalFault::ParamStarts { starts, params } => "planned launch recorded "@ + text::decimal(starts as nat) + " parameter starts for "@ + text::decimal(params as nat) + " parameters"@,
            InternalFault::OutsideParams => "planned launch has arguments outside every parameter"@,
            InternalFault::ParamSpan { index, start, end, count } => "planned launch marshalled parameter "@ + text::decimal(index as nat) + " as arguments "@ + text::decimal(start as nat) + ".."@ + text::decimal(end as nat) + "; its layout accounts for "@ + text::decimal(count as nat),
            InternalFault::NoArgument { start, index } => "planned launch has no argument "@ + text::decimal(start as nat) + " for parameter "@ + text::decimal(index as nat),
            InternalFault::WrongKernel { plan, kernel } => "a plan of `"@ + plan@ + "` was finished as a plan of `"@ + kernel@ + "`"@,
            InternalFault::NeedsUnsafeLaunch { kernel } => "a plan of `"@ + kernel@ + "` needs an unsafe launch but was built as `Safe`"@,
        }
    }

    /// The text the fault is reported with.
    pub fn to_string(&self) -> (r: String)
        ensures
            r@ == self.text(),
    {
        let mut out = String::new();
        match self {
            InternalFault::DifferentDevices => {
                out.append("tensor and execution stream are on different devices");
            },
            InternalFault::ConflictingAccess => {
                out.append("tensor has a conflicting in-flight access on another stream; await its operation before reusing it");
            },
            InternalFault::PlanWithoutConfig => {
                out.append("planned launch has no launch config");
            },
            InternalFault::ArgumentSlot { offset, slots } => {
                out.append("planned launch has an argument at slot ");
                text::push_u64(&mut out, *offset as u64);
                out.append(" of ");
                text::push_u64(&mut out, *slots as u64);
            },
            InternalFault::ParamStarts { starts, params } => {
                out.append("planned launch recorded ");
                text::push_u64(&mut out, *starts as u64);
                out.append(" parameter starts for ");
                text::push_u64(&mut out, *params as u64);
                out.append(" parameters");
            },
            InternalFault::OutsideParams => {
                out.append("planned launch has arguments outside every parameter");
            },
            InternalFault::ParamSpan { index, start, end, count } => {
                out.append("planned launch marshalled parameter ");
                text::push_u64(&mut out, *index as u64);
                out.append(" as arguments ");
                text::push_u64(&mut out, *start as u64);
                out.append("..");
                text::push_u64(&mut out, *end as u64);
                out.append("; its layout accounts for ");
                text::push_u64(&mut out, *count as u64);
            },
            InternalFault::NoArgument { start, index } => {
                out.append("planned launch has no argument ");
                text::push_u64(&mut out, *start as u64);
                out.append(" for parameter ");
                text::push_u64(&mut out, *index as u64);
            },
            InternalFault::WrongKernel { plan, kernel } => {
                out.append("a plan of `");
                out.append(plan.as_str());
                out.append("` was finished as a plan of `");
                out.append(kernel.as_str());
                out.append("`");
            },
            InternalFault::NeedsUnsafeLaunch { kernel } => {
                out.append("a plan of `");
                out.append(kernel.as_str());
                out.append("` needs an unsafe launch but was built as `Safe`");
            },
        }
        assert(out@ =~= self.text());
        out
    }
}

/// Why device work is refused.
#[derive(Debug, PartialEq, Eq)]
pub enum DeviceError {
    Launch(LaunchFault),
    Internal(InternalFault),
}

impl DeviceError {
    /// The text the error is reported with.
    pub open spec fn text(self) -> Seq<char> {
        match self {
            DeviceError::Launch(fault) => fault.text(),
            DeviceError::Internal(fault) => fault.text(),
        }
    }

    /// The text the error is reported with.
    pub fn to_string(&self) -> (r: String)
        ensures
            r@ == self.text(),
    {
        match self {
            DeviceError::Launch(fault) => fault.to_string(),
            DeviceError::Internal(fault) => fault.to_string(),
        }
    }
}

/// A refused shape is reported with the shapes it is about: the partition's before the
/// tensor's, the shape before the strides, the wanted before the given.
pub proof fn tensor_errors_name_their_shapes_in_order(
    tile: Vec<usize>,
    shape: Vec<i32>,
    strides: Vec<i32>,
    a: usize,
    b: usize,
)
    ensures
        ({
            let tiles = text::list_text(text::ints_of_usize(tile@));
            let dims = text::list_text(text::ints_of_i32(shape@));
            let steps = text::list_text(text::ints_of_i32(strides@));
            &&& (TensorError::PartitionRank { partition_shape: tile, shape }).text()
                == "Partition rank "@ + text::decimal(tile@.len()) + " does not match tensor rank "@
                + text::decimal(shape@.len()) + " (partition shape "@ + tiles + ", tensor shape "@
                + dims + ")."@
            &&& (TensorError::NonContiguousView { shape, strides }).text()
                == "Zero-copy tensor views require contiguous storage (shape "@ + dims
                + ", strides "@ + steps + ")."@
            &&& (TensorError::ViewSize { target: tile, shape }).text()
                == "View shape must preserve tensor size: "@ + tiles
                + " does not have the same number of elements as "@ + dims + "."@
            &&& (TensorError::ForeignExtent { len_bytes: a, extent_bytes: b }).text()
                == "foreign allocation ("@ + text::decimal(a as nat)
                + " bytes) is smaller than the tensor's addressable extent ("@ + text::decimal(
                b as nat,
            ) + " bytes for the given shape/strides)"@
        }),
{
}

/// A refused launch is reported with what it is about: the argument's position before
/// what is wrong with it, what the plan has before what it was given.
pub proof fn launch_faults_name_the_plans_side_first(a: usize, b: usize, x: String, y: String)
    ensures
        (LaunchFault::UnsupportedParam { index: a, what: x }).text()
            == "launch plans do not support parameter "@ + text::decimal(a as nat) + " ("@ + x@
            + ")"@,
        (LaunchFault::LayoutMismatch { index: a, layout: x }).text() == "argument "@
            + text::decimal(a as nat) + " does not match the layout the plan was built for: "@ + x@,
        (LaunchFault::ArgumentCount { expected: a, given: b }).text() == "launch plan takes "@
            + text::decimal(a as nat) + " arguments, got "@ + text::decimal(b as nat),
        (LaunchFault::PlanDevice { plan: a, stream: b }).text()
            == "launch plan was built for device "@ + text::decimal(a as nat)
            + ", the stream is on device "@ + text::decimal(b as nat),
        (LaunchFault::RawArgument { index: a, arg: x, layout: y }).text() == "raw argument "@
            + text::decimal(a as nat) + " ("@ + x@ + ") does not satisfy the plan's layout "@ + y@,
{
}

/// An inconsistent capture is reported with the numbers that disagree, in order.
pub proof fn internal_faults_name_what_disagrees(
    a: usize,
    b: usize,
    c: usize,
    d: usize,
    x: String,
    y: String,
)
    ensures
        (InternalFault::ArgumentSlot { offset: a, slots: b }).text()
            == "planned launch has an argument at slot "@ + text::decimal(a as nat) + " of "@
            + text::decimal(b as nat),
        (InternalFault::ParamStarts { starts: a, params: b }).text() == "planned launch recorded "@
            + text::decimal(a as nat) + " parameter starts for "@ + text::decimal(b as nat)
            + " parameters"@,
        (InternalFault::ParamSpan { index: a, start: b, end: c, count: d }).text()
            == "planned launch marshalled parameter "@ + text::decimal(a as nat)
            + " as arguments "@ + text::decimal(b as nat) + ".."@ + text::decimal(c as nat)
            + "; its layout accounts for "@ + text::decimal(d as nat),
        (InternalFault::NoArgument { start: a, index: b }).text()
            == "planned launch has no argument "@ + text::decimal(a as nat) + " for parameter "@
            + text::decimal(b as nat),
        (InternalFault::WrongKernel { plan: x, kernel: y }).text() == "a plan of `"@ + x@
            + "` was finished as a plan of `"@ + y@ + "`"@,
{
}

/// A device error reads as the fault it holds.
pub proof fn device_errors_read_as_their_faults(f: LaunchFault, g: InternalFault)
    ensures
        DeviceError::Launch(f).text() == f.text(),
        DeviceError::Internal(g).text() == g.text(),
{
}

/// A refusal without values reads as one sentence each.
pub proof fn refusals_without_values_read_as_sentences()
    ensures
        TensorError::MapRank.text() == "mapped partitions require a rank-1 through rank-3 map shape."@,
        TensorError::NoStreamedAxis.text() == "mapped partition requires at least one streamed (non-OWNED) map axis."@,
        TensorError::EmptyPartitionGrid.text() == "mapped partition requires a non-empty logical partition grid."@,
        TensorError::MapRankMismatch.text() == "mapped partition map rank must match the logical partition grid rank."@,
        TensorError::PartitionGridTooLarge.text() == "mapped partition logical grid is too large"@,
        TensorError::ZeroTileBlocks.text() == "mapped partition requires num_tile_blocks > 0."@,
        TensorError::TooManyTileBlocks.text() == "mapped partition num_tile_blocks cannot exceed the streamed logical tile count."@,
        TensorError::ShapeOverflow.text() == "Tensor shape overflowed usize."@,
        TensorError::ByteSizeOverflow.text() == "Tensor byte size overflowed usize."@,
        TensorError::NegativeDimension.text() == "Tensor shape contains negative dimension."@,
        TensorError::PartitionedRank.text() == "Mutable tensor must be at most rank 3."@,
        TensorError::NonContiguousReinterpret.text() == "Zero-copy reinterpret requires contiguous storage."@,
        TensorError::ReinterpretSize.text() == "Reinterpret shape must preserve total byte size."@,
        TensorError::ReinterpretAlignment.text() == "Tensor storage alignment is incompatible with reinterpret target type."@,
        TensorError::SliceRank.text() == "slice: more ranges than axes."@,
        TensorError::SliceBounds.text() == "slice: range out of bounds."@,
        TensorError::MultipleOwners.text() == "try_partition: Arc<Tensor> has multiple owners"@,
        TensorError::SharedHandle.text() == "Failed to convert Arc to Partition."@,
        TensorError::SharedStorage.text() == "try_partition: tensor storage is shared with other tensors or views"@,
        TensorError::SharedPartition.text() == "Cannot create mutable partition from shared tensor storage."@,
        TensorError::StrideRank.text() == "Tensor shape/stride rank mismatch."@,
        TensorError::NegativeStride.text() == "from_foreign requires non-negative strides; use borrow_raw_parts for negative-stride views."@,
        TensorError::ExtentOverflow.text() == "Tensor addressable extent overflowed usize."@,
        TensorError::StorageSize.text() == "Tensor logical byte size must match storage byte size."@,
        LaunchFault::NoLaunchConfig.text() == "Await called before launching the kernel."@,
        LaunchFault::NothingCaptured.text() == "the launcher finished without resolving a launch"@,
        InternalFault::DifferentDevices.text() == "tensor and execution stream are on different devices"@,
        InternalFault::ConflictingAccess.text() == "tensor has a conflicting in-flight access on another stream; await its operation before reusing it"@,
        InternalFault::PlanWithoutConfig.text() == "planned launch has no launch config"@,
        InternalFault::OutsideParams.text() == "planned launch has arguments outside every parameter"@,
{
}

/// A refusal with one value names it inside its sentence.
pub proof fn refusals_with_one_value_name_it(
    shape: Vec<i32>,
    tile: Vec<usize>,
    n: usize,
    x: String,
)
    ensures
        (TensorError::NonPositiveShape { shape }).text() == "Shape dimensions must be positive, got "@
            + text::list_text(text::ints_of_i32(shape@)) + "."@,
        (TensorError::ZeroPartitionDimension { partition_shape: tile }).text()
            == "Partition dimensions must be positive, got "@ + text::list_text(
            text::ints_of_usize(tile@),
        ) + "."@,
        (TensorError::PartitionDimensionTooLarge { dimension: n }).text() == "Partition dimension "@
            + text::decimal(n as nat) + " exceeds u32::MAX."@,
        (TensorError::DimensionTooLarge { dimension: n }).text() == "Tensor dimension "@
            + text::decimal(n as nat) + " exceeds i32::MAX."@,
        (LaunchFault::DependentLaunchTarget { architecture: x }).text() == "programmatic dependent launch requires sm_90 or newer; target "@ + x@,
        (LaunchFault::UnpinnedCheck { cause: x }).text() == "launch plans do not support this kernel: a launch check depends on more than argument layouts and the grid ("@ + x@ + ")"@,
        (LaunchFault::ChangedArgument { index: n }).text() == "the launcher closure changed argument "@ + text::decimal(n as nat) + "; it must pass the arguments through unchanged and in order, as `|(a, b)| kernel(a, b)`"@,
        (InternalFault::NeedsUnsafeLaunch { kernel: x }).text() == "a plan of `"@ + x@
            + "` needs an unsafe launch but was built as `Safe`"@,
{
}

} // verus!
