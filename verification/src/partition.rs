//! Partitions of tensors into tiles, and their launch grids.
use std::sync::Arc;
use vstd::prelude::*;

use crate::dtype::DTypeId;
use crate::error::TensorError;
use crate::shape;
use crate::storage::{Allocation, Storage};
use crate::tensor::Tensor;
use crate::text;

verus! {

/// A partitioned view of a value: tiles of `partition_shape`, one per tile block.
///
/// Tile blocks get disjoint regions, so a partition gives a kernel mutable
/// access in parallel.
#[derive(Debug)]
pub struct Partition<T> {
    pub object: T,
    pub partition_shape: Vec<usize>,
    pub partition_strides: Vec<usize>,
    /// The launch grid may be a per-axis prefix of the block grid instead of
    /// equal to it. Launched blocks embed identically; blocks beyond the launch
    /// grid keep their prior contents.
    pub prefix_coverage: bool,
}

/// Map-shape sentinel marking an owned axis: one that the work-item stream does
/// not traverse, because each stream item owns its full extent.
pub const OWNED: usize = 0;

/// A mapped partition launch argument: the logical partition grid is traversed
/// by `num_tile_blocks` physical tile blocks.
#[derive(Debug)]
pub struct MappedLaunchPartition<P> {
    pub partition: P,
    pub map_shape: Vec<usize>,
    pub num_tile_blocks: u32,
}

/// The axes of a grid.
pub open spec fn axis(grid: (u32, u32, u32), i: int) -> u32 {
    if i == 0 {
        grid.0
    } else if i == 1 {
        grid.1
    } else {
        grid.2
    }
}

fn axis_of(grid: (u32, u32, u32), i: usize) -> (r: u32)
    requires
        i < 3,
    ensures
        r == axis(grid, i as int),
{
    if i == 0 {
        grid.0
    } else if i == 1 {
        grid.1
    } else {
        grid.2
    }
}

/// The number of tiles that the stream traverses: the product of the grid axes
/// that are not owned.
pub open spec fn streamed_tiles(map_shape: Seq<usize>, grid: (u32, u32, u32), n: int) -> int
    decreases n,
{
    if n <= 0 {
        1
    } else if map_shape[n - 1] == OWNED {
        streamed_tiles(map_shape, grid, n - 1)
    } else {
        streamed_tiles(map_shape, grid, n - 1) * axis(grid, n - 1)
    }
}

/// A mapped axis of the grid has no tiles.
pub open spec fn has_empty_axis(grid: (u32, u32, u32), rank: int) -> bool {
    exists|i: int| 0 <= i < rank && #[trigger] axis(grid, i) == 0
}

/// An axis beyond the map rank has more or fewer than one tile.
pub open spec fn exceeds_rank(grid: (u32, u32, u32), rank: int) -> bool {
    exists|i: int| rank <= i < 3 && #[trigger] axis(grid, i) != 1
}

/// Every map axis is owned.
pub open spec fn all_owned(map_shape: Seq<usize>) -> bool {
    forall|i: int| 0 <= i < map_shape.len() ==> #[trigger] map_shape[i] == OWNED
}

/// The launch grid of a mapped partition: the first refusal that applies, in
/// order, or `(num_tile_blocks, 1, 1)`.
pub open spec fn mapped_grid(
    map_shape: Seq<usize>,
    grid: (u32, u32, u32),
    num_tile_blocks: u32,
) -> Result<(u32, u32, u32), TensorError> {
    let rank = map_shape.len() as int;
    let streamed = streamed_tiles(map_shape, grid, rank);
    if rank == 0 || rank > 3 {
        Err(TensorError::MapRank)
    } else if all_owned(map_shape) {
        Err(TensorError::NoStreamedAxis)
    } else if has_empty_axis(grid, rank) {
        Err(TensorError::EmptyPartitionGrid)
    } else if exceeds_rank(grid, rank) {
        Err(TensorError::MapRankMismatch)
    } else if streamed > u32::MAX {
        Err(TensorError::PartitionGridTooLarge)
    } else if num_tile_blocks == 0 {
        Err(TensorError::ZeroTileBlocks)
    } else if num_tile_blocks > streamed {
        Err(TensorError::TooManyTileBlocks)
    } else {
        Ok((num_tile_blocks, 1, 1))
    }
}

proof fn lemma_streamed_grows(map_shape: Seq<usize>, grid: (u32, u32, u32), m: int, n: int)
    requires
        0 <= m <= n <= map_shape.len(),
        map_shape.len() <= 3,
        !has_empty_axis(grid, map_shape.len() as int),
    ensures
        1 <= streamed_tiles(map_shape, grid, m) <= streamed_tiles(map_shape, grid, n),
    decreases n,
{
    if m < n {
        lemma_streamed_grows(map_shape, grid, m, n - 1);
        assert(axis(grid, n - 1) != 0);
        let (p, a) = (streamed_tiles(map_shape, grid, n - 1), axis(grid, n - 1) as int);
        assert(p <= p * a) by (nonlinear_arith)
            requires
                p >= 1,
                a >= 1,
        ;
    } else if m > 0 {
        lemma_streamed_grows(map_shape, grid, m - 1, m - 1);
        assert(axis(grid, m - 1) != 0);
        let (p, a) = (streamed_tiles(map_shape, grid, m - 1), axis(grid, m - 1) as int);
        assert(1 <= p * a) by (nonlinear_arith)
            requires
                p >= 1,
                a >= 1,
        ;
    }
}

impl<P> MappedLaunchPartition<P> {
    /// Checks that `num_tile_blocks` tile blocks can traverse the logical
    /// partition grid, and returns the physical launch grid.
    pub fn validate(&self, partition_grid: (u32, u32, u32), num_tile_blocks: u32) -> (r: Result<
        (u32, u32, u32),
        TensorError,
    >)
        ensures
            r == mapped_grid(self.map_shape@, partition_grid, num_tile_blocks),
    {
        let ghost map = self.map_shape@;
        let rank = self.map_shape.len();
        if rank == 0 || rank > 3 {
            return Err(TensorError::MapRank);
        }
        let mut streams = false;
        let mut i: usize = 0;
        while i < rank
            invariant
                map == self.map_shape@,
                rank == map.len(),
                i <= rank,
                streams == !(forall|k: int| 0 <= k < i ==> #[trigger] map[k] == OWNED),
            decreases rank - i,
        {
            if self.map_shape[i] != OWNED {
                streams = true;
                assert(map[i as int] != OWNED);
            }
            i += 1;
        }
        if !streams {
            return Err(TensorError::NoStreamedAxis);
        }
        let mut j: usize = 0;
        while j < rank
            invariant
                map == self.map_shape@,
                rank == map.len(),
                1 <= rank <= 3,
                !all_owned(map),
                j <= rank,
                forall|k: int| 0 <= k < j ==> #[trigger] axis(partition_grid, k) != 0,
            decreases rank - j,
        {
            if axis_of(partition_grid, j) == 0 {
                assert(has_empty_axis(partition_grid, rank as int));
                return Err(TensorError::EmptyPartitionGrid);
            }
            j += 1;
        }
        let mut k: usize = rank;
        while k < 3
            invariant
                map == self.map_shape@,
                rank == map.len(),
                1 <= rank <= 3,
                !all_owned(map),
                !has_empty_axis(partition_grid, rank as int),
                rank <= k <= 3,
                forall|l: int| rank <= l < k ==> #[trigger] axis(partition_grid, l) == 1,
            decreases 3 - k,
        {
            if axis_of(partition_grid, k) != 1 {
                assert(exceeds_rank(partition_grid, rank as int));
                return Err(TensorError::MapRankMismatch);
            }
            k += 1;
        }
        let mut streamed: u32 = 1;
        let mut n: usize = 0;
        while n < rank
            invariant
                map == self.map_shape@,
                rank == map.len(),
                1 <= rank <= 3,
                n <= rank,
                !all_owned(map),
                !has_empty_axis(partition_grid, rank as int),
                !exceeds_rank(partition_grid, rank as int),
                streamed == streamed_tiles(map, partition_grid, n as int),
            decreases rank - n,
        {
            if self.map_shape[n] != OWNED {
                match streamed.checked_mul(axis_of(partition_grid, n)) {
                    Some(total) => {
                        streamed = total;
                    },
                    None => {
                        proof {
                            lemma_streamed_grows(map, partition_grid, n + 1, rank as int);
                        }
                        return Err(TensorError::PartitionGridTooLarge);
                    },
                }
            }
            n += 1;
        }
        if num_tile_blocks == 0 {
            return Err(TensorError::ZeroTileBlocks);
        }
        if num_tile_blocks > streamed {
            return Err(TensorError::TooManyTileBlocks);
        }
        Ok((num_tile_blocks, 1, 1))
    }
}

/// A mapped launch never has more tile blocks than streamed tiles, and at least
/// one: every launched block has work.
pub proof fn every_mapped_block_has_a_tile(
    map_shape: Seq<usize>,
    grid: (u32, u32, u32),
    num_tile_blocks: u32,
)
    requires
        mapped_grid(map_shape, grid, num_tile_blocks) is Ok,
    ensures
        mapped_grid(map_shape, grid, num_tile_blocks)->Ok_0 == (num_tile_blocks, 1u32, 1u32),
        1 <= num_tile_blocks <= streamed_tiles(map_shape, grid, map_shape.len() as int),
{
}

/// An array as a list.
fn array_to_vec<const RANK: usize>(items: [usize; RANK]) -> (r: Vec<usize>)
    ensures
        r@ == items@,
{
    let mut out: Vec<usize> = Vec::new();
    let mut i: usize = 0;
    while i < RANK
        invariant
            i <= RANK,
            items@.len() == RANK,
            out@ == items@.take(i as int),
        decreases RANK - i,
    {
        out.push(items[i]);
        assert(items@.take(i + 1) =~= items@.take(i as int).push(items@[i as int]));
        i += 1;
    }
    assert(items@.take(i as int) =~= items@);
    out
}

impl<T> Partition<T> {
    /// Opts this binding into partial coverage.
    pub fn prefix(self) -> (r: Partition<T>)
        ensures
            r.object == self.object,
            r.partition_shape == self.partition_shape,
            r.partition_strides == self.partition_strides,
            r.prefix_coverage,
    {
        Partition {
            object: self.object,
            partition_shape: self.partition_shape,
            partition_strides: self.partition_strides,
            prefix_coverage: true,
        }
    }

    /// Unwraps the partition to retrieve the underlying object.
    pub fn unpartition(self) -> (r: T)
        ensures
            r == self.object,
    {
        self.object
    }

    /// Attaches a host-side partition map. A prefix partition cannot be mapped:
    /// a mapped schedule covers its full index space by construction.
    pub fn map<const RANK: usize>(self, map_shape: [usize; RANK], num_tile_blocks: u32) -> (r:
        MappedLaunchPartition<Self>)
        requires
            !self.prefix_coverage,
        ensures
            r.partition == self,
            r.map_shape@ == map_shape@,
            r.num_tile_blocks == num_tile_blocks,
    {
        MappedLaunchPartition {
            partition: self,
            map_shape: array_to_vec(map_shape),
            num_tile_blocks,
        }
    }
}

/// A handle to the underlying object, without the partition.
impl<T> From<Partition<T>> for Arc<T> {
    fn from(val: Partition<T>) -> (r: Arc<T>) {
        Arc::new(val.unpartition())
    }
}

impl<T> vstd::std_specs::convert::FromSpecImpl<Partition<T>> for Arc<T> {
    open spec fn obeys_from_spec() -> bool {
        true
    }

    open spec fn from_spec(val: Partition<T>) -> Arc<T> {
        Arc::new(val.object)
    }
}

/// Strides as `usize`.
pub open spec fn as_usize_strides(strides: Seq<i32>) -> Seq<usize> {
    strides.map_values(|s: i32| s as usize)
}

fn to_usize_strides(strides: &[i32]) -> (r: Vec<usize>)
    ensures
        r@ == as_usize_strides(strides@),
{
    let mut out: Vec<usize> = Vec::new();
    let mut i: usize = 0;
    while i < strides.len()
        invariant
            i <= strides.len(),
            out@ == as_usize_strides(strides@.take(i as int)),
        decreases strides.len() - i,
    {
        let s = #[verifier::truncate] (strides[i] as usize);
        out.push(s);
        assert(as_usize_strides(strides@.take(i + 1)) =~= as_usize_strides(
            strides@.take(i as int),
        ).push(s));
        i += 1;
    }
    assert(strides@.take(i as int) =~= strides@);
    out
}

/// One tensor alone uses the storage, of which `handles` handles exist: each
/// access in flight holds one of its own.
pub open spec fn unshared(storage: Storage, handles: usize) -> bool {
    handles == 1 + storage.in_flight().len()
}

/// `p` partitions `object` into tiles of `partition_shape`.
pub open spec fn partitions<T>(
    p: Partition<T>,
    object: T,
    partition_shape: Seq<usize>,
    strides: Seq<usize>,
    prefix: bool,
) -> bool {
    &&& p.object == object
    &&& p.partition_shape@ == partition_shape
    &&& p.partition_strides@ == strides
    &&& p.prefix_coverage == prefix
}

/// Enables partitioning a value into tiles, which a kernel then writes. The
/// value's storage comes with how many handles to it exist: where another tensor
/// or view shares it, partitioning is refused, for a launch could read through
/// that one what the partition writes.
pub trait IntoPartition: Sized {
    /// The strides that a partition of the value carries.
    spec fn tile_strides(self) -> Seq<usize>;

    /// What backs the value.
    spec fn stored_in(self) -> Allocation;

    /// Partitions this value into tiles of the given shape.
    fn partition<const RANK: usize>(
        self,
        storage: &Storage,
        handles: usize,
        partition_shape: [usize; RANK],
    ) -> (r: Result<Partition<Self>, TensorError>)
        requires
            storage.backing() == self.stored_in(),
        ensures
            if unshared(*storage, handles) {
                r matches Ok(p) && partitions(
                    p,
                    self,
                    partition_shape@,
                    self.tile_strides(),
                    false,
                )
            } else {
                r == Err::<Partition<Self>, TensorError>(TensorError::SharedPartition)
            },
    ;

    /// Partitions with partial coverage: the launch grid may be a per-axis
    /// prefix of the block grid.
    fn partition_prefix<const RANK: usize>(
        self,
        storage: &Storage,
        handles: usize,
        partition_shape: [usize; RANK],
    ) -> (r: Result<Partition<Self>, TensorError>)
        requires
            storage.backing() == self.stored_in(),
        ensures
            if unshared(*storage, handles) {
                r matches Ok(p) && partitions(
                    p,
                    self,
                    partition_shape@,
                    self.tile_strides(),
                    true,
                )
            } else {
                r == Err::<Partition<Self>, TensorError>(TensorError::SharedPartition)
            },
    {
        match self.partition(storage, handles, partition_shape) {
            Ok(p) => Ok(p.prefix()),
            Err(e) => Err(e),
        }
    }
}

/// The partition of a tensor whose storage is not shared.
fn tiles<const RANK: usize>(tensor: Tensor, partition_shape: [usize; RANK]) -> (r: Partition<
    Tensor,
>)
    ensures
        partitions(r, tensor, partition_shape@, as_usize_strides(tensor.steps()), false),
{
    let partition_strides = to_usize_strides(tensor.strides());
    Partition {
        object: tensor,
        partition_shape: array_to_vec(partition_shape),
        partition_strides,
        prefix_coverage: false,
    }
}

impl IntoPartition for Tensor {
    open spec fn tile_strides(self) -> Seq<usize> {
        as_usize_strides(self.steps())
    }

    open spec fn stored_in(self) -> Allocation {
        self.backing()
    }

    fn partition<const RANK: usize>(
        self,
        storage: &Storage,
        handles: usize,
        partition_shape: [usize; RANK],
    ) -> (r: Result<Partition<Tensor>, TensorError>) {
        match storage.check_unique(handles) {
            Ok(()) => Ok(tiles(self, partition_shape)),
            Err(e) => Err(e),
        }
    }
}

/// A tensor that a partition owns or mutably borrows.
pub trait PartitionObject {
    /// The tensor.
    spec fn tensor(&self) -> Tensor;

    /// The tensor.
    fn as_tensor(&self) -> (r: &Tensor)
        ensures
            *r == self.tensor(),
    ;
}

impl PartitionObject for Tensor {
    open spec fn tensor(&self) -> Tensor {
        *self
    }

    fn as_tensor(&self) -> (r: &Tensor) {
        self
    }
}

impl<'a> PartitionObject for &'a mut Tensor {
    open spec fn tensor(&self) -> Tensor {
        **self
    }

    fn as_tensor(&self) -> (r: &Tensor) {
        &**self
    }
}

impl<O: PartitionObject> Partition<O> {
    /// The partition, as one that owns its tensor.
    pub open spec fn owned(self) -> Partition<Tensor> {
        Partition {
            object: self.object.tensor(),
            partition_shape: self.partition_shape,
            partition_strides: self.partition_strides,
            prefix_coverage: self.prefix_coverage,
        }
    }

    /// The name of the element type.
    pub fn dtype_str(&self) -> (r: &'static str)
        ensures
            r@ == self.object.tensor().elem().name(),
    {
        self.object.as_tensor().dtype().as_str()
    }

    /// The launch grid: per axis the ceiling division of the tensor's extent by
    /// the tile. Refused for a rank beyond 3, a dimension that is not positive,
    /// a zero tile or a tile of another rank.
    pub fn grid(&self) -> (r: Result<(u32, u32, u32), TensorError>)
        ensures
            shape::grid_result(self.object.tensor().dims(), self.partition_shape@, r),
    {
        shape::partition_launch_grid(
            self.object.as_tensor().shape(),
            self.partition_shape.as_slice(),
        )
    }
}

/// Partitions a mutably borrowed tensor. The partition borrows the tensor, which
/// has the kernel's output once the borrow ends. A mutable borrow makes this
/// handle exclusive, not the storage: it is refused as for an owned tensor.
pub trait PartitionMut<'a> {
    /// The tensor that is borrowed.
    spec fn borrowed(self) -> &'a mut Tensor;

    /// Partitions the tensor into tiles of the given shape.
    fn partition<const RANK: usize>(
        self,
        storage: &Storage,
        handles: usize,
        partition_shape: [usize; RANK],
    ) -> (r: Result<Partition<&'a mut Tensor>, TensorError>)
        requires
            storage.backing() == self.borrowed().backing(),
        ensures
            if unshared(*storage, handles) {
                &&& r is Ok
                &&& *r->Ok_0.object == *self.borrowed()
                &&& *final(r->Ok_0.object) == *final(self.borrowed())
                &&& r->Ok_0.partition_shape@ == partition_shape@
                &&& r->Ok_0.partition_strides@ == as_usize_strides(self.borrowed().steps())
                &&& !r->Ok_0.prefix_coverage
            } else {
                &&& r is Err
                &&& r->Err_0 == TensorError::SharedPartition
                &&& *final(self.borrowed()) == *self.borrowed()
            },
    ;

    /// Partitions with partial coverage: the launch grid may be a per-axis
    /// prefix of the block grid.
    fn partition_prefix<const RANK: usize>(
        self,
        storage: &Storage,
        handles: usize,
        partition_shape: [usize; RANK],
    ) -> (r: Result<Partition<&'a mut Tensor>, TensorError>) where Self: Sized
        requires
            storage.backing() == self.borrowed().backing(),
        ensures
            if unshared(*storage, handles) {
                &&& r is Ok
                &&& *r->Ok_0.object == *self.borrowed()
                &&& *final(r->Ok_0.object) == *final(self.borrowed())
                &&& r->Ok_0.partition_shape@ == partition_shape@
                &&& r->Ok_0.partition_strides@ == as_usize_strides(self.borrowed().steps())
                &&& r->Ok_0.prefix_coverage
            } else {
                &&& r is Err
                &&& r->Err_0 == TensorError::SharedPartition
                &&& *final(self.borrowed()) == *self.borrowed()
            },
    {
        match self.partition(storage, handles, partition_shape) {
            Ok(p) => Ok(p.prefix()),
            Err(e) => Err(e),
        }
    }
}

impl<'a> PartitionMut<'a> for &'a mut Tensor {
    open spec fn borrowed(self) -> &'a mut Tensor {
        self
    }

    fn partition<const RANK: usize>(
        self,
        storage: &Storage,
        handles: usize,
        partition_shape: [usize; RANK],
    ) -> (r: Result<Partition<&'a mut Tensor>, TensorError>) {
        match storage.check_unique(handles) {
            Ok(()) => {
                let partition_strides = to_usize_strides(self.strides());
                Ok(
                    Partition {
                        object: self,
                        partition_shape: array_to_vec(partition_shape),
                        partition_strides,
                        prefix_coverage: false,
                    },
                )
            },
            Err(e) => Err(e),
        }
    }
}

/// `std::sync::Arc::try_unwrap`: the value of a handle that is the only one, the
/// handle itself otherwise. Which of the two is not said: it depends on how many
/// handles exist.
#[verifier::external_body]
pub(crate) fn try_unwrap<T>(handle: Arc<T>) -> (r: Result<T, Arc<T>>)
    ensures
        match r {
            Ok(value) => value == *handle,
            Err(same) => same == handle,
        },
{
    Arc::try_unwrap(handle)
}

/// Enables partitioning a value behind a handle, which is consumed.
pub trait IntoPartitionArc: Sized {
    /// The strides that a partition of the value carries.
    spec fn shared_strides(self) -> Seq<usize>;

    /// What backs the value.
    spec fn shared_storage(self) -> Allocation;

    /// Partitions the value into tiles of the given shape. Refused where the
    /// handle is not the only one, or as for an owned value.
    fn partition<const RANK: usize>(
        self: Arc<Self>,
        storage: &Storage,
        handles: usize,
        partition_shape: [usize; RANK],
    ) -> (r: Result<Partition<Self>, TensorError>)
        requires
            storage.backing() == (*self).shared_storage(),
        ensures
            match r {
                Ok(p) => unshared(*storage, handles) && partitions(
                    p,
                    *self,
                    partition_shape@,
                    (*self).shared_strides(),
                    false,
                ),
                Err(e) => e == TensorError::SharedHandle || (e == TensorError::SharedPartition
                    && !unshared(*storage, handles)),
            },
    ;
}

impl IntoPartitionArc for Tensor {
    open spec fn shared_strides(self) -> Seq<usize> {
        as_usize_strides(self.steps())
    }

    open spec fn shared_storage(self) -> Allocation {
        self.backing()
    }

    fn partition<const RANK: usize>(
        self: Arc<Self>,
        storage: &Storage,
        handles: usize,
        partition_shape: [usize; RANK],
    ) -> (r: Result<Partition<Tensor>, TensorError>) {
        match try_unwrap(self) {
            Ok(tensor) => IntoPartition::partition(tensor, storage, handles, partition_shape),
            Err(_) => Err(TensorError::SharedHandle),
        }
    }
}

/// Partitions a tensor taken out of a shared handle: refused where other tensors
/// or views share the storage, of which `handles` handles exist.
pub fn partition_unshared<const RANK: usize>(
    tensor: Tensor,
    storage: &Storage,
    handles: usize,
    partition_shape: [usize; RANK],
) -> (r: Result<Partition<Tensor>, TensorError>)
    requires
        storage.backing() == tensor.backing(),
    ensures
        if unshared(*storage, handles) {
            r matches Ok(p) && partitions(
                p,
                tensor,
                partition_shape@,
                as_usize_strides(tensor.steps()),
                false,
            )
        } else {
            r == Err::<Partition<Tensor>, TensorError>(TensorError::SharedStorage)
        },
{
    if !storage.is_unique(handles) {
        return Err(TensorError::SharedStorage);
    }
    Ok(tiles(tensor, partition_shape))
}

/// Partitioning a shared handle by consuming sole ownership.
pub trait TryPartition: Sized {
    /// The tensor behind the handle.
    spec fn shared(self) -> Tensor;

    /// Partitions the tensor. Refused where the handle has other owners, or
    /// where other tensors or views share the storage, of which `handles`
    /// handles exist.
    fn try_partition<const RANK: usize>(
        self,
        storage: &Storage,
        handles: usize,
        partition_shape: [usize; RANK],
    ) -> (r: Result<Partition<Tensor>, TensorError>)
        requires
            storage.backing() == self.shared().backing(),
        ensures
            match r {
                Ok(p) => unshared(*storage, handles) && partitions(
                    p,
                    self.shared(),
                    partition_shape@,
                    as_usize_strides(self.shared().steps()),
                    false,
                ),
                Err(e) => e == TensorError::MultipleOwners || (e == TensorError::SharedStorage
                    && !unshared(*storage, handles)),
            },
    ;
}

impl TryPartition for Arc<Tensor> {
    open spec fn shared(self) -> Tensor {
        *self
    }

    fn try_partition<const RANK: usize>(
        self,
        storage: &Storage,
        handles: usize,
        partition_shape: [usize; RANK],
    ) -> (r: Result<Partition<Tensor>, TensorError>) {
        match try_unwrap(self) {
            Ok(tensor) => partition_unshared(tensor, storage, handles, partition_shape),
            Err(_) => Err(TensorError::MultipleOwners),
        }
    }
}

impl Partition<Tensor> {
    /// The total size of the tensor in bytes.
    pub fn num_bytes(&self) -> (r: usize)
        ensures
            r == shape::product(text::ints_of_i32(self.object.dims())) * self.object.elem_size(),
    {
        self.object.num_bytes()
    }

    /// The size of the tensor in megabytes (base 10).
    pub fn num_mb(&self) -> (r: usize)
        ensures
            r == (shape::product(text::ints_of_i32(self.object.dims())) * self.object.elem_size())
                / 1_000_000,
    {
        self.num_bytes() / 1_000_000
    }

    /// The size of the tensor in gigabytes (base 10).
    pub fn num_gb(&self) -> (r: usize)
        ensures
            r == (shape::product(text::ints_of_i32(self.object.dims())) * self.object.elem_size())
                / 1_000_000_000,
    {
        self.num_bytes() / 1_000_000_000
    }

    /// The element type.
    pub fn dtype(&self) -> (r: DTypeId)
        ensures
            r == self.object.elem(),
    {
        self.object.dtype()
    }

}

/// A partition binding's constraint on the launch grid.
#[derive(Debug, Clone, Copy, PartialEq, Eq)]
pub enum GridBound {
    /// The launch grid equals this per axis.
    Exact((u32, u32, u32)),
    /// The launch grid may be a per-axis prefix of this.
    AtMost((u32, u32, u32)),
}

impl GridBound {
    /// The launch grid meets the bound.
    pub open spec fn admits(self, launch: (u32, u32, u32)) -> bool {
        match self {
            GridBound::Exact(grid) => launch == grid,
            GridBound::AtMost(grid) => launch.0 <= grid.0 && launch.1 <= grid.1 && launch.2
                <= grid.2,
        }
    }
}

/// A block of an admitted launch is a block of the partition's own grid: a prefix
/// embeds identically, and a launch never exceeds the grid.
pub proof fn launched_blocks_are_blocks_of_the_grid(
    bound: GridBound,
    launch: (u32, u32, u32),
    block: (u32, u32, u32),
)
    requires
        bound.admits(launch),
        block.0 < launch.0 && block.1 < launch.1 && block.2 < launch.2,
    ensures
        ({
            let grid = match bound {
                GridBound::Exact(g) => g,
                GridBound::AtMost(g) => g,
            };
            block.0 < grid.0 && block.1 < grid.1 && block.2 < grid.2
        }),
{
}

/// `index` lies in the tile of `block`.
pub open spec fn in_block(index: Seq<int>, block: Seq<int>, tile: Seq<usize>) -> bool {
    forall|k: int|
        0 <= k < index.len() ==> #[trigger] shape::in_tile(index[k], block[k], tile[k] as int)
}

/// Different blocks of a partitioned row-major tensor write different elements:
/// no two tiles overlap in memory.
pub proof fn different_blocks_write_apart(
    dims: Seq<i32>,
    strides: Seq<i32>,
    tile: Seq<usize>,
    b: Seq<int>,
    c: Seq<int>,
    x: Seq<int>,
    y: Seq<int>,
)
    requires
        shape::row_major_fits(dims, strides),
        tile.len() == dims.len(),
        !tile.contains(0),
        b.len() == dims.len(),
        c.len() == dims.len(),
        b != c,
        shape::in_shape(x, dims),
        shape::in_shape(y, dims),
        in_block(x, b, tile),
        in_block(y, c, tile),
    ensures
        shape::offset_of(x, strides) != shape::offset_of(y, strides),
{
    if x == y {
        assert forall|k: int| 0 <= k < dims.len() implies b[k] == c[k] by {
            assert(shape::in_tile(x[k], b[k], tile[k] as int));
            assert(shape::in_tile(y[k], c[k], tile[k] as int));
            assert(tile[k] != 0);
            assert(0 <= x[k] < dims[k]);
            shape::tiles_cover_an_axis_once(dims[k] as int, tile[k] as int);
        }
        assert(b =~= c);
    }
    shape::different_elements_lie_apart(x, y, dims, strides);
}

/// The tiles that a mapped launch streams are those of the axes that are not owned:
/// their number is the product of the extents of these axes, up to three.
pub proof fn streamed_tiles_multiply_over_unowned_axes(map_shape: Seq<usize>, a: u32, b: u32, c: u32)
    requires
        1 <= map_shape.len() <= 3,
    ensures
        ({
            let x = if map_shape[0] != 0 { a as int } else { 1 };
            let y = if map_shape.len() >= 2 && map_shape[1] != 0 { b as int } else { 1 };
            let z = if map_shape.len() >= 3 && map_shape[2] != 0 { c as int } else { 1 };
            streamed_tiles(map_shape, (a, b, c), map_shape.len() as int) == x * y * z
        }),
{
    reveal_with_fuel(streamed_tiles, 4);
    let x = if map_shape[0] != 0 { a as int } else { 1 };
    let y = if map_shape.len() >= 2 && map_shape[1] != 0 { b as int } else { 1 };
    let z = if map_shape.len() >= 3 && map_shape[2] != 0 { c as int } else { 1 };
    assert(1 * x == x && x * 1 == x && (x * y) * 1 == x * y) by (nonlinear_arith);
    assert(streamed_tiles(map_shape, (a, b, c), 1) == x);
    if map_shape.len() >= 2 {
        assert(streamed_tiles(map_shape, (a, b, c), 2) == x * y);
    }
}

/// A mapped launch over a grid whose axes beyond the map have one tile is accepted
/// for every number of tile blocks from 1 to the number of streamed tiles, and for no
/// other; it launches that many blocks on the first axis.
pub proof fn mapped_launches_take_up_to_one_block_per_streamed_tile(
    map_shape: Seq<usize>,
    a: u32,
    b: u32,
    c: u32,
    blocks: u32,
)
    requires
        1 <= map_shape.len() <= 3,
        a >= 1 && b >= 1 && c >= 1,
        map_shape.len() < 2 ==> b == 1,
        map_shape.len() < 3 ==> c == 1,
        map_shape[0] != 0 || (map_shape.len() >= 2 && map_shape[1] != 0) || (map_shape.len() >= 3
            && map_shape[2] != 0),
    ensures
        ({
            let x = if map_shape[0] != 0 { a as int } else { 1 };
            let y = if map_shape.len() >= 2 && map_shape[1] != 0 { b as int } else { 1 };
            let z = if map_shape.len() >= 3 && map_shape[2] != 0 { c as int } else { 1 };
            let tiles = x * y * z;
            let r = mapped_grid(map_shape, (a, b, c), blocks);
            &&& (r is Ok <==> tiles <= u32::MAX && 1 <= blocks <= tiles)
            &&& (r matches Ok(grid) ==> grid == (blocks, 1u32, 1u32))
            &&& (tiles > u32::MAX ==> r == Err::<(u32, u32, u32), TensorError>(
                TensorError::PartitionGridTooLarge,
            ))
            &&& (tiles <= u32::MAX && blocks == 0 ==> r == Err::<(u32, u32, u32), TensorError>(
                TensorError::ZeroTileBlocks,
            ))
            &&& (tiles <= u32::MAX && blocks > tiles ==> r == Err::<(u32, u32, u32), TensorError>(
                TensorError::TooManyTileBlocks,
            ))
        }),
{
    streamed_tiles_multiply_over_unowned_axes(map_shape, a, b, c);
    let grid = (a, b, c);
    assert(axis(grid, 0) == a && axis(grid, 1) == b && axis(grid, 2) == c);
    assert(!has_empty_axis(grid, map_shape.len() as int)) by {
        assert forall|i: int| 0 <= i < map_shape.len() implies #[trigger] axis(grid, i) != 0 by {}
    }
    assert(!exceeds_rank(grid, map_shape.len() as int)) by {
        assert forall|i: int| map_shape.len() <= i < 3 implies #[trigger] axis(grid, i) == 1 by {}
    }
    assert(!all_owned(map_shape)) by {
        if all_owned(map_shape) {
            assert(map_shape[0] == OWNED);
            if map_shape.len() >= 2 {
                assert(map_shape[1] == OWNED);
            }
            if map_shape.len() >= 3 {
                assert(map_shape[2] == OWNED);
            }
        }
    }
}

/// A map is refused for its rank before all else, then where every axis is owned,
/// then where a mapped axis of the grid is empty, then where the grid has more than
/// one tile, or none, on an axis beyond the map.
pub proof fn maps_are_refused_in_order(map_shape: Seq<usize>, a: u32, b: u32, c: u32, blocks: u32)
    ensures
        ({
            let r = mapped_grid(map_shape, (a, b, c), blocks);
            let n = map_shape.len();
            let owned = forall|i: int| 0 <= i < n ==> #[trigger] map_shape[i] == 0;
            let empty = a == 0 || (n >= 2 && b == 0) || (n >= 3 && c == 0);
            let beyond = (n < 2 && b != 1) || (n < 3 && c != 1);
            if n == 0 || n > 3 {
                r == Err::<(u32, u32, u32), TensorError>(TensorError::MapRank)
            } else if owned {
                r == Err::<(u32, u32, u32), TensorError>(TensorError::NoStreamedAxis)
            } else if empty {
                r == Err::<(u32, u32, u32), TensorError>(TensorError::EmptyPartitionGrid)
            } else {
                beyond <==> r == Err::<(u32, u32, u32), TensorError>(TensorError::MapRankMismatch)
            }
        }),
{
    let grid = (a, b, c);
    let n = map_shape.len() as int;
    assert(axis(grid, 0) == a && axis(grid, 1) == b && axis(grid, 2) == c);
    if 1 <= n <= 3 {
        if has_empty_axis(grid, n) {
            let i = choose|i: int| 0 <= i < n && #[trigger] axis(grid, i) == 0;
            assert(i == 0 || i == 1 || i == 2);
        }
        if exceeds_rank(grid, n) {
            let i = choose|i: int| n <= i < 3 && #[trigger] axis(grid, i) != 1;
            assert(i == 1 || i == 2);
        }
    }
}

/// A prefix partition admits every launch grid up to its own on each axis, any other
/// partition its own alone; a partition without a grid sets no bound.
pub proof fn a_prefix_admits_every_smaller_launch(
    prefix: bool,
    grid: (u32, u32, u32),
    launch: (u32, u32, u32),
    e: TensorError,
    r: Result<GridBound, TensorError>,
)
    ensures
        crate::binding::bound_of(prefix, Ok(grid), r) ==> (r matches Ok(bound) && (bound.admits(
            launch,
        ) <==> if prefix {
            launch.0 <= grid.0 && launch.1 <= grid.1 && launch.2 <= grid.2
        } else {
            launch.0 == grid.0 && launch.1 == grid.1 && launch.2 == grid.2
        })),
        crate::binding::bound_of(prefix, Err(e), r) ==> r == Err::<GridBound, TensorError>(e),
        crate::binding::bound_of(prefix, Ok(grid), r) ==> (r->Ok_0 is AtMost <==> prefix),
{
}

/// An output without a map launches the grid of its partition, a mapped one its tile
/// blocks on the first axis, and a mapped one is refused wherever its partition is.
pub proof fn an_output_launches_its_partition_or_its_blocks(
    p: Partition<Tensor>,
    map_shape: Seq<usize>,
    blocks: u32,
    r: Result<(u32, u32, u32), TensorError>,
    e: TensorError,
)
    ensures
        crate::binding::output_grid(p, None, r) <==> shape::grid_result(
            p.object.dims(),
            p.partition_shape@,
            r,
        ),
        crate::binding::output_grid(p, Some((map_shape, blocks)), r) && r is Ok ==> r->Ok_0 == (
            blocks,
            1u32,
            1u32,
        ) && blocks >= 1,
        crate::binding::output_grid(p, Some((map_shape, blocks)), r) && r is Ok ==> exists|
            grid: (u32, u32, u32),
        | #[trigger]
            shape::grid_result(p.object.dims(), p.partition_shape@, Ok(grid)) && mapped_grid(
                map_shape,
                grid,
                blocks,
            ) is Ok,
{
    if crate::binding::output_grid(p, Some((map_shape, blocks)), r) && r is Ok {
        let g = choose|g: Result<(u32, u32, u32), TensorError>| #[trigger]
            shape::grid_result(p.object.dims(), p.partition_shape@, g) && match g {
                Ok(grid) => r == mapped_grid(map_shape, grid, blocks),
                Err(e) => r == Err::<(u32, u32, u32), TensorError>(e),
            };
        assert(g is Ok);
        assert(shape::grid_result(p.object.dims(), p.partition_shape@, Ok(g->Ok_0)));
    }
}

/// Storage is unshared when each handle but one belongs to an access in flight, and a
/// partition holds what it was made of.
pub proof fn a_partition_holds_what_it_was_made_of<T>(
    storage: Storage,
    handles: usize,
    p: Partition<T>,
    object: T,
    tile: Seq<usize>,
    strides: Seq<usize>,
    prefix: bool,
    signed: Seq<i32>,
)
    ensures
        unshared(storage, handles) <==> handles == storage.in_flight().len() + 1,
        partitions(p, object, tile, strides, prefix) <==> p.object == object && p.partition_shape@
            == tile && p.partition_strides@ == strides && p.prefix_coverage == prefix,
        as_usize_strides(signed).len() == signed.len(),
        forall|i: int|
            0 <= i < signed.len() && signed[i] >= 0 ==> #[trigger] as_usize_strides(signed)[i]
                == signed[i],
{
}

/// A partition is over its own tensor: one that borrows its tensor launches as one that
/// owns it, and giving up the partition gives the tensor back.
pub proof fn a_partition_is_over_its_own_tensor<O: PartitionObject>(
    p: Partition<O>,
    tensor: Tensor,
    shared: Arc<Tensor>,
    q: Partition<Tensor>,
)
    ensures
        p.owned().object == p.object.tensor(),
        p.owned().partition_shape@ == p.partition_shape@,
        p.owned().partition_strides@ == p.partition_strides@,
        p.owned().prefix_coverage == p.prefix_coverage,
        tensor.tensor() == tensor,
        tensor.tile_strides() == as_usize_strides(tensor.steps()),
        tensor.stored_in() == tensor.backing(),
        tensor.shared_strides() == as_usize_strides(tensor.steps()),
        tensor.shared_storage() == tensor.backing(),
        shared.shared() == *shared,
        <Arc<Tensor> as vstd::std_specs::convert::FromSpec<Partition<Tensor>>>::from_spec(q)
            == Arc::new(q.object),
{
}

/// A launch of as many blocks on every axis is admitted by an exact bound only where it
/// is the bound, and by an upper bound wherever it is not above it.
pub proof fn a_bound_admits_launches_up_to_it(grid: (u32, u32, u32), launch: (u32, u32, u32))
    ensures
        GridBound::Exact(grid).admits(launch) <==> launch == grid,
        GridBound::AtMost(grid).admits(launch) <==> launch.0 <= grid.0 && launch.1 <= grid.1
            && launch.2 <= grid.2,
{
}

/// A stride as `usize` keeps all of its bits: a negative one becomes larger than any
/// that is not, and is told from every other.
pub proof fn negative_strides_keep_their_bits(signed: Seq<i32>, i: int)
    requires
        0 <= i < signed.len(),
    ensures
        as_usize_strides(signed)[i] as i32 == signed[i],
        signed[i] < 0 ==> as_usize_strides(signed)[i] > 0x7FFF_FFFF,
{
    let s = signed[i];
    assert((s as usize) as i32 == s) by (bit_vector);
    assert(s < 0 ==> (s as usize) > 0x7FFF_FFFF) by (bit_vector);
}

} // verus!
