use cutile::binding::{KernelInputStored, KernelOutputStored};
use cutile::device_vec::{pointer_table, DeviceVec};
use cutile::dtype::DTypeId;
use cutile::error::TensorError;
use cutile::launch::AsyncKernelLaunch;
use cutile::partition::{GridBound, IntoPartition, IntoPartitionArc, MappedLaunchPartition};
use cutile::partition::{Partition, PartitionMut, TryPartition, OWNED};
use cutile::shape::{addressable_bytes, addressable_bytes_of, contiguous_strides};
use cutile::shape::{checked_num_bytes, checked_num_bytes_i32, checked_num_elements};
use cutile::shape::{checked_num_elements_i32, partition_launch_grid, validate_view_shape_for};
use cutile::storage::{AccessContext, AccessIds, Allocation, Storage, StorageLease};
use cutile::storage::META_SPEC_PTR;
use cutile::tensor::{check_foreign, check_metadata, Reshape, Tensor};
use std::sync::{Arc, Mutex};

#[test]
fn addressable_bytes_accounts_for_strides() {
    // Contiguous 4-element f32: extent == logical size.
    assert_eq!(addressable_bytes::<f32>(&[4], &[1]), 4 * 4);
    // Strided: last element at offset (4-1)*10 = 30, extent 31 elements.
    assert_eq!(addressable_bytes::<f32>(&[4], &[10]), 31 * 4);
    // Empty shape addresses nothing.
    assert_eq!(addressable_bytes::<f32>(&[0], &[1]), 0);
}

#[test]
fn from_foreign_accepts_allocation_covering_strided_extent() {
    // 4 elements at stride 10 need 31 f32 = 124 bytes.
    assert!(check_foreign(&[4], &[10], 4, 124).is_ok());
    let t = Tensor::from_foreign(16, 124, 0, DTypeId::F32, vec![4], vec![10]);
    assert_eq!(t.strides(), &[10]);
    assert_eq!(t.num_bytes(), 16);
}

#[test]
fn strides_overrunning_a_foreign_allocation_are_refused() {
    // Logical size is 16 bytes, but stride 10 addresses 124 bytes.
    let err = check_foreign(&[4], &[10], 4, 16).unwrap_err();
    assert_eq!(err, TensorError::ForeignExtent { len_bytes: 16, extent_bytes: 124 });
    assert!(err.to_string().contains("addressable extent"));
    assert_eq!(
        err.to_string(),
        "foreign allocation (16 bytes) is smaller than the tensor's addressable extent \
         (124 bytes for the given shape/strides)"
    );
}

#[test]
fn an_extent_overflow_is_refused_instead_of_wrapping() {
    let max = i32::MAX;
    let err = addressable_bytes_of(&[max, max], &[max, max], 4).unwrap_err();
    assert_eq!(err, TensorError::ExtentOverflow);
    assert!(err.to_string().contains("addressable extent overflowed"));
    assert_eq!(addressable_bytes_of(&[2], &[-1], 4), Err(TensorError::NegativeStride));
    assert_eq!(addressable_bytes_of(&[2, 2], &[1], 4), Err(TensorError::StrideRank));
}

// Metadata-only tensor for the view/reshape validation tests.
fn meta_f32(shape: &[i32]) -> Tensor {
    Tensor::from_meta(DTypeId::F32, shape.to_vec(), 0)
}

fn storage_of(tensor: &Tensor) -> Storage {
    Storage::new(tensor.allocation())
}

/// The partition of a tensor that alone holds its storage.
fn owned<const RANK: usize>(tensor: Tensor, shape: [usize; RANK]) -> Partition<Tensor> {
    let storage = storage_of(&tensor);
    IntoPartition::partition(tensor, &storage, 1, shape).unwrap()
}

/// The partition of a borrowed tensor that alone holds its storage.
fn borrowed<const RANK: usize>(
    tensor: &mut Tensor,
    shape: [usize; RANK],
) -> Partition<&mut Tensor> {
    let storage = storage_of(tensor);
    PartitionMut::partition(tensor, &storage, 1, shape).unwrap()
}

/// A lease as a launch holds it: with a handle to its storage.
struct HeldLease {
    storage: Arc<Mutex<Storage>>,
    lease: StorageLease,
}

#[test]
fn forgotten_storage_lease_keeps_allocation_and_access_exclusion() {
    let mut ids = AccessIds::new();
    let tensor = meta_f32(&[8]);
    let storage = Arc::new(Mutex::new(storage_of(&tensor)));
    let weak = Arc::downgrade(&storage);
    let lease = storage.lock().unwrap().acquire(&mut ids, 1, true, false).unwrap();
    let held = HeldLease { storage: Arc::clone(&storage), lease };
    assert!(held.lease.write);
    std::mem::forget(held);
    assert!(storage.lock().unwrap().acquire(&mut ids, 2, false, false).is_err());
    assert!(storage.lock().unwrap().acquire(&mut ids, 2, true, false).is_err());
    drop((tensor, storage));
    let kept = weak.upgrade();
    assert!(kept.is_some());
    // What is kept still excludes the other stream.
    assert!(kept.unwrap().lock().unwrap().acquire(&mut ids, 2, false, false).is_err());
}

#[test]
fn storage_leases_allow_reads_and_ordered_same_stream_writes() {
    let mut ids = AccessIds::new();
    let tensor = meta_f32(&[8]);
    let mut storage = storage_of(&tensor);
    let read1 = storage.acquire(&mut ids, 1, false, false).unwrap();
    let read2 = storage.acquire(&mut ids, 2, false, false).unwrap();
    assert!(storage.acquire(&mut ids, 1, true, false).is_err());
    storage.release_access(read2.id);
    let write = storage.acquire(&mut ids, 1, true, false).unwrap();
    assert!(storage.acquire(&mut ids, 2, false, false).is_err());
    storage.release_access(read1.id);
    storage.release_access(write.id);
    assert!(storage.acquire(&mut ids, 2, true, false).is_ok());
}

#[test]
fn internal_storage_leases_do_not_hide_user_aliases() {
    let mut ids = AccessIds::new();
    let mut tensor = meta_f32(&[8]);
    let mut storage = storage_of(&tensor);
    let lease = storage.acquire(&mut ids, 1, true, false).unwrap();
    // The tensor's handle and the lease's.
    assert!(storage.is_unique(2));
    drop(PartitionMut::partition(&mut tensor, &storage, 2, [4]).unwrap());
    // An alias beside them.
    assert!(!storage.is_unique(3));
    assert!(PartitionMut::partition(&mut tensor, &storage, 3, [4]).is_err());
    storage.release_access(lease.id);
    assert!(!storage.is_unique(2));
    assert!(storage.is_unique(1));
    assert!(!storage.is_unique(0));
}

/// One source of ids numbers the accesses of every storage: none is given twice,
/// so that a stale release on one storage ends no access on another.
#[test]
fn access_ids_are_never_issued_twice() {
    let mut ids = AccessIds::new();
    assert!(ids.can_issue());
    let mut first = storage_of(&meta_f32(&[8]));
    let mut second = storage_of(&meta_f32(&[8]));
    let a = first.acquire(&mut ids, 1, true, false).unwrap();
    let b = second.acquire(&mut ids, 1, true, false).unwrap();
    let c = first.acquire(&mut ids, 1, true, false).unwrap();
    assert!(a.id != b.id && b.id != c.id && a.id != c.id);
    // `b` is no access of the first storage.
    first.release_access(b.id);
    assert!(first.is_unique(3));
    first.release_access(a.id);
    first.release_access(a.id);
    assert!(first.is_unique(2));
    assert!(second.is_unique(2));
    let d = first.register_access(&mut ids, 1, false, false).unwrap();
    assert!(d > c.id);
}

#[test]
fn recording_keeps_storage_without_claiming_executed_access() {
    let mut ids = AccessIds::new();
    let tensor = meta_f32(&[8]);
    let mut storage = storage_of(&tensor);
    let recorded = storage.acquire(&mut ids, 1, true, true).unwrap();
    assert!(recorded.recorded);
    let first = storage.acquire(&mut ids, 2, true, false).unwrap();
    storage.release_access(first.id);
    let executing = storage.acquire(&mut ids, 2, true, false).unwrap();
    assert!(storage.acquire(&mut ids, 1, true, false).is_err());
    storage.release_access(executing.id);
    assert!(storage.acquire(&mut ids, 1, true, false).is_ok());
}

#[test]
fn retaining_refuses_another_device_first() {
    let mut ids = AccessIds::new();
    let mut storage = Storage::new(Allocation::Device { ptr: 64, len_bytes: 32, device_id: 1 });
    let here = AccessContext { device_id: 1, stream: 5, recording: false };
    let elsewhere = AccessContext { device_id: 0, stream: 5, recording: false };
    let err = storage.retain(elsewhere, &mut ids, true).unwrap_err();
    assert_eq!(err.to_string(), "tensor and execution stream are on different devices");
    let lease = storage.retain(here, &mut ids, true).unwrap();
    assert_eq!((lease.write, lease.recorded), (true, false));
    let other_stream = AccessContext { stream: 6, ..here };
    let err = storage.retain(other_stream, &mut ids, false).unwrap_err();
    assert_eq!(
        err.to_string(),
        "tensor has a conflicting in-flight access on another stream; await its operation \
         before reusing it"
    );
    assert_eq!(storage.len_bytes(), 32);
    assert_eq!(storage.device_id(), 1);
    // A stale id releases nothing.
    storage.release_access(lease.id + 1);
    assert!(storage.is_unique(2));
}

#[test]
fn allocations_without_memory_have_a_sentinel_address_only() {
    let meta = Allocation::Meta { len_bytes: 8, device_id: 3 };
    assert_eq!(meta.spec_ptr(), META_SPEC_PTR);
    assert_eq!(meta.cu_deviceptr(), None);
    assert_eq!(meta.device_id(), 3);
    let device = Allocation::Device { ptr: 0x500, len_bytes: 8, device_id: 3 };
    assert_eq!(device.spec_ptr(), 0x500);
    assert_eq!(device.cu_deviceptr(), Some(0x500));
}

#[test]
fn reshape_and_view_accept_same_size_contiguous_shapes() {
    let t = meta_f32(&[8]);
    assert!(t.view(&[2, 4]).is_ok());
    assert!(t.view(&[2, 4]).unwrap().view(&[4, 2]).is_ok());
    let t = t.reshape(&[2, 2, 2]).unwrap();
    assert_eq!(t.shape(), &[2, 2, 2]);
    assert!(t.is_contiguous());
}

#[test]
fn reshape_and_view_reject_element_count_mismatch() {
    assert!(meta_f32(&[8]).reshape(&[3, 3]).is_err());
    assert!(meta_f32(&[8]).view(&[5]).is_err());
    assert!(meta_f32(&[8]).view(&[2, 4]).unwrap().view(&[3]).is_err());
}

#[test]
fn reshape_and_view_reject_shapes_whose_i32_product_wraps() {
    // Every dimension fits an i32, but the i32 product wraps to exactly 8:
    // (2^30 + 1) * 8 = 2^33 + 8 = 8 (mod 2^32).
    let wrapping = [(1usize << 30) + 1, 8];
    // A single dimension above i32::MAX truncates to 8 under `as i32`.
    let truncating = [(1usize << 32) + 8];
    let t = meta_f32(&[8]);
    for bad in [&wrapping[..], &truncating[..]] {
        assert!(t.view(bad).is_err(), "view accepted {bad:?}");
        assert!(
            t.view(&[2, 4]).unwrap().view(bad).is_err(),
            "TensorView::view accepted {bad:?}"
        );
    }
    assert!(meta_f32(&[8]).reshape(&wrapping).is_err());
    assert!(meta_f32(&[8]).reshape(&truncating).is_err());
}

/// With a dimension of 0 the element counts agree whatever the others are: one
/// that no `i32` holds is refused by itself.
#[test]
fn dimensions_beyond_i32_are_refused() {
    let too_large = (1usize << 32) + 8;
    let refused = TensorError::DimensionTooLarge { dimension: too_large };
    assert_eq!(refused.to_string(), "Tensor dimension 4294967304 exceeds i32::MAX.");
    let t = meta_f32(&[0]);
    assert_eq!(t.view(&[0, too_large]).err().as_ref(), Some(&refused));
    let view = t.view(&[0, 3]).unwrap();
    assert_eq!(view.view(&[0, too_large]).err().as_ref(), Some(&refused));
    assert!(matches!(
        t.reshape(&[0, too_large]),
        Err(TensorError::DimensionTooLarge { dimension }) if dimension == too_large
    ));
    let largest = i32::MAX as usize;
    assert_eq!(meta_f32(&[0]).reshape(&[0, largest]).unwrap().shape(), &[0, i32::MAX]);
}

#[test]
fn launch_grid_is_the_ceiling_division() {
    assert_eq!(owned(meta_f32(&[256]), [64]).grid().unwrap(), (4, 1, 1));
    // Partial edge tiles launch a block: 100 / 32 rounds up to 4.
    assert_eq!(
        owned(meta_f32(&[100, 256]), [32, 64]).grid().unwrap(),
        (4, 4, 1)
    );
    let mut t = meta_f32(&[8, 8, 8]);
    assert_eq!(
        KernelOutputStored::grid(&borrowed(&mut t, [4, 8, 3])).unwrap(),
        (2, 1, 3)
    );
}

#[test]
fn launch_grid_rejects_zero_partition_dimension_and_rank_mismatch() {
    let err = owned(meta_f32(&[16]), [0]).grid().unwrap_err();
    assert!(err.to_string().contains("Partition dimensions"), "{}", err.to_string());
    let err = owned(meta_f32(&[16, 16]), [8, 0]).grid().unwrap_err();
    assert!(err.to_string().contains("Partition dimensions"), "{}", err.to_string());
    let err = owned(meta_f32(&[16, 16]), [8]).grid().unwrap_err();
    assert!(err.to_string().contains("rank"), "{}", err.to_string());
    // The same checks hold on the launcher-facing path.
    let mut t = meta_f32(&[16]);
    assert!(KernelOutputStored::grid(&borrowed(&mut t, [0])).is_err());
    assert!(owned(meta_f32(&[2, 2, 2, 2]), [1, 1, 1, 1]).grid().is_err());
}

#[test]
fn borrowed_mutable_partition_requires_unique_storage() {
    let mut ids = AccessIds::new();
    let mut t = meta_f32(&[8]);
    let mut storage = storage_of(&t);
    assert_eq!(PartitionMut::partition(&mut t, &storage, 1, [8]).unwrap().grid(), Ok((1, 1, 1)));
    let _alias = t.into_shared_alias();
    let err = PartitionMut::partition(&mut t, &storage, 2, [8])
        .err()
        .expect("a &mut partition over shared storage must be rejected");
    assert_eq!(
        err.to_string(),
        "Cannot create mutable partition from shared tensor storage."
    );
    let err = PartitionMut::partition_prefix(&mut t, &storage, 2, [8]).err().unwrap();
    assert_eq!(err, TensorError::SharedPartition);
    assert_eq!(storage.check_unique(2), Err(TensorError::SharedPartition));
    // A lease of an access in flight holds a handle of its own.
    storage.register_access(&mut ids, 1, true, false).unwrap();
    assert!(PartitionMut::partition(&mut t, &storage, 2, [8]).is_ok());
    assert!(PartitionMut::partition(&mut t, &storage, 1, [8]).is_err());
    // An owned tensor is refused alike.
    let other = meta_f32(&[8]);
    let shared = storage_of(&other);
    assert!(matches!(
        IntoPartition::partition(other, &shared, 2, [8]),
        Err(TensorError::SharedPartition)
    ));
}

#[test]
fn try_partition_returns_err_for_shared_storage() {
    let t = Arc::new(meta_f32(&[8]));
    let storage = storage_of(&t);
    // A second handle aliases the storage.
    let err = t.try_partition(&storage, 2, [8]).unwrap_err();
    assert!(err.to_string().contains("shared"), "{}", err.to_string());
    // Unique storage partitions fine.
    assert!(Arc::new(meta_f32(&[8])).try_partition(&storage, 1, [8]).is_ok());
    let shared = Arc::new(meta_f32(&[8]));
    let other = Arc::clone(&shared);
    let err = shared.try_partition(&storage, 1, [8]).unwrap_err();
    assert_eq!(other.shape(), &[8]);
    assert_eq!(err.to_string(), "try_partition: Arc<Tensor> has multiple owners");
}

#[test]
fn reshape_and_view_reject_non_contiguous_source() {
    // 4 elements at stride 2 address 7 f32 = 28 bytes; the tensor is not
    // contiguous, so a contiguous-stride view would read other elements.
    let strided = Tensor::from_foreign(16, 28, 0, DTypeId::F32, vec![4], vec![2]);
    assert!(!strided.is_contiguous());
    assert!(strided.view(&[2, 2]).is_err());
    assert!(strided.reshape(&[2, 2]).is_err());
}

#[test]
fn swizzle_accepts_tile_block_count() {
    let partition = MappedLaunchPartition {
        partition: (),
        map_shape: vec![4, 1],
        num_tile_blocks: 3,
    };
    let launch_grid = partition.validate((2, 3, 1), 3).unwrap();
    assert_eq!(launch_grid, (3, 1, 1));
}

#[test]
fn swizzle_rejects_tile_block_count_larger_than_logical_grid() {
    let partition = MappedLaunchPartition {
        partition: (),
        map_shape: vec![4, 1],
        num_tile_blocks: 7,
    };
    let err = partition.validate((2, 3, 1), 7).unwrap_err();
    assert!(err
        .to_string()
        .contains("num_tile_blocks cannot exceed the streamed logical tile count"));
}

#[test]
fn owned_axis_excluded_from_streamed_tile_count() {
    // Axis 1 is OWNED: only the 2-tile axis 0 is streamed, so
    // num_tile_blocks is capped at 2 rather than 2*3.
    let partition = MappedLaunchPartition {
        partition: (),
        map_shape: vec![1, OWNED],
        num_tile_blocks: 2,
    };
    let launch_grid = partition.validate((2, 3, 1), 2).unwrap();
    assert_eq!(launch_grid, (2, 1, 1));

    let partition = MappedLaunchPartition {
        partition: (),
        map_shape: vec![1, OWNED],
        num_tile_blocks: 3,
    };
    let err = partition.validate((2, 3, 1), 3).unwrap_err();
    assert!(err
        .to_string()
        .contains("num_tile_blocks cannot exceed the streamed logical tile count"));
}

#[test]
fn owned_axis_rejects_all_owned_map() {
    let partition = MappedLaunchPartition {
        partition: (),
        map_shape: vec![OWNED, OWNED],
        num_tile_blocks: 1,
    };
    let err = partition.validate((2, 3, 1), 1).unwrap_err();
    assert!(err
        .to_string()
        .contains("at least one streamed (non-OWNED) map axis"));
}

#[test]
fn owned_axis_accepts_leading_owned() {
    // Owned axes may sit at any position: axis 0 owned, axis 1 streamed.
    let partition = MappedLaunchPartition {
        partition: (),
        map_shape: vec![OWNED, 1],
        num_tile_blocks: 3,
    };
    let launch_grid = partition.validate((2, 3, 1), 3).unwrap();
    assert_eq!(launch_grid, (3, 1, 1));
}

#[test]
fn swizzle_rejects_zero_tile_blocks() {
    let partition = MappedLaunchPartition {
        partition: (),
        map_shape: vec![4, 1],
        num_tile_blocks: 0,
    };
    let err = partition.validate((2, 3, 1), 0).unwrap_err();
    assert!(err.to_string().contains("num_tile_blocks > 0"));
}

#[test]
fn swizzle_rejects_grid_rank_above_map_rank() {
    let partition = MappedLaunchPartition {
        partition: (),
        map_shape: vec![4, 1],
        num_tile_blocks: 3,
    };
    let err = partition.validate((2, 3, 4), 3).unwrap_err();
    assert!(err
        .to_string()
        .contains("map rank must match the logical partition grid rank"));
}

#[test]
fn swizzle_accepts_rank1_map() {
    let partition = MappedLaunchPartition {
        partition: (),
        map_shape: vec![1],
        num_tile_blocks: 4,
    };
    let launch_grid = partition.validate((8, 1, 1), 4).unwrap();
    assert_eq!(launch_grid, (4, 1, 1));
}

#[test]
fn swizzle_accepts_rank3_map() {
    let partition = MappedLaunchPartition {
        partition: (),
        map_shape: vec![1, 4, 1],
        num_tile_blocks: 6,
    };
    let launch_grid = partition.validate((2, 3, 4), 6).unwrap();
    assert_eq!(launch_grid, (6, 1, 1));
}

#[test]
fn swizzle_rejects_rank1_map_with_2d_grid() {
    let partition = MappedLaunchPartition {
        partition: (),
        map_shape: vec![1],
        num_tile_blocks: 2,
    };
    let err = partition.validate((2, 3, 1), 2).unwrap_err();
    assert!(err
        .to_string()
        .contains("map rank must match the logical partition grid rank"));
}

#[test]
fn swizzle_rejects_map_rank_above_3() {
    let partition = MappedLaunchPartition {
        partition: (),
        map_shape: vec![1, 1, 1, 1],
        num_tile_blocks: 2,
    };
    let err = partition.validate((2, 3, 4), 2).unwrap_err();
    assert!(err.to_string().contains("rank-1 through rank-3 map shape"));
}

#[test]
fn a_grid_that_leaves_u32_is_too_large() {
    let partition = MappedLaunchPartition { partition: (), map_shape: vec![1, 1], num_tile_blocks: 1 };
    let err = partition.validate((u32::MAX, 2, 1), 1).unwrap_err();
    assert_eq!(err.to_string(), "mapped partition logical grid is too large");
    let err = partition.validate((0, 2, 1), 1).unwrap_err();
    assert_eq!(err.to_string(), "mapped partition requires a non-empty logical partition grid.");
    let none = MappedLaunchPartition { partition: (), map_shape: vec![], num_tile_blocks: 1 };
    assert_eq!(none.validate((1, 1, 1), 1), Err(TensorError::MapRank));
}

#[test]
fn element_and_byte_counts_are_checked() {
    assert_eq!(checked_num_elements(&[3, 4]), Ok(12));
    assert_eq!(checked_num_elements(&[]), Ok(1));
    assert_eq!(checked_num_elements(&[usize::MAX, 2, 0]), Err(TensorError::ShapeOverflow));
    assert_eq!(checked_num_elements_i32(&[3, -1]), Err(TensorError::NegativeDimension));
    assert_eq!(checked_num_bytes::<f64>(&[3, 2]), Ok(48));
    assert_eq!(checked_num_bytes::<f64>(&[usize::MAX]), Err(TensorError::ByteSizeOverflow));
    assert_eq!(checked_num_bytes_i32::<u16>(&[5]), Ok(10));
    assert_eq!(
        TensorError::NegativeDimension.to_string(),
        "Tensor shape contains negative dimension."
    );
    assert_eq!(TensorError::ShapeOverflow.to_string(), "Tensor shape overflowed usize.");
    assert_eq!(TensorError::ByteSizeOverflow.to_string(), "Tensor byte size overflowed usize.");
}

#[test]
fn strides_are_row_major() {
    assert_eq!(contiguous_strides(&[3, 4]), vec![4, 1]);
    assert_eq!(contiguous_strides(&[2, 3, 4]), vec![12, 4, 1]);
    assert_eq!(contiguous_strides(&[]), Vec::<i32>::new());
    // The product that no stride holds may leave i32.
    assert_eq!(contiguous_strides(&[65536, 65536]), vec![65536, 1]);
}

#[test]
fn grid_errors_name_what_they_refuse() {
    let err = partition_launch_grid(&[4, -1], &[2, 2]).unwrap_err();
    assert_eq!(err.to_string(), "Shape dimensions must be positive, got [4, -1].");
    let err = partition_launch_grid(&[4], &[2, 10]).unwrap_err();
    assert_eq!(
        err.to_string(),
        "Partition rank 2 does not match tensor rank 1 (partition shape [2, 10], tensor shape [4])."
    );
    let err = partition_launch_grid(&[4, 4], &[2, 0]).unwrap_err();
    assert_eq!(err.to_string(), "Partition dimensions must be positive, got [2, 0].");
    let err = partition_launch_grid(&[4, 4], &[2, 1 << 33]).unwrap_err();
    assert_eq!(err.to_string(), "Partition dimension 8589934592 exceeds u32::MAX.");
    let err = partition_launch_grid(&[], &[]).unwrap_err();
    assert_eq!(err.to_string(), "Mutable tensor must be at most rank 3.");
    assert_eq!(partition_launch_grid(&[i32::MAX], &[1]), Ok((i32::MAX as u32, 1, 1)));
    assert_eq!(partition_launch_grid(&[5], &[u32::MAX as usize]), Ok((1, 1, 1)));
}

#[test]
fn view_errors_name_what_they_refuse() {
    let err = validate_view_shape_for::<f32>(&[4], &[2], &[2, 2]).unwrap_err();
    assert_eq!(
        err.to_string(),
        "Zero-copy tensor views require contiguous storage (shape [4], strides [2])."
    );
    let err = validate_view_shape_for::<f32>(&[4], &[1], &[3]).unwrap_err();
    assert_eq!(
        err.to_string(),
        "View shape must preserve tensor size: [3] does not have the same number of elements as [4]."
    );
    assert_eq!(
        validate_view_shape_for::<f32>(&[4], &[1], &[usize::MAX, 2]),
        Err(TensorError::ShapeOverflow)
    );
}

#[test]
fn a_view_keeps_its_source_and_a_slice_moves_its_start() {
    let t = Tensor::from_raw_parts(0x1000, 96, 2, DTypeId::F32, vec![4, 6], vec![6, 1]);
    let v = t.view(&[2, 12]).unwrap();
    assert_eq!((v.shape(), v.strides(), v.offset_bytes()), (&[2, 12][..], &[12, 1][..], 0));
    assert_eq!(v.size(), 24);
    let s = t.slice(&[1..3, 2..5]).unwrap();
    assert_eq!((s.shape(), s.strides()), (&[2, 3][..], &[6, 1][..]));
    // Element (1, 2) is 8 elements in.
    assert_eq!(s.offset_bytes(), 32);
    assert_eq!(s.device_ptr(), Some(0x1020));
    assert_eq!(s.spec_inputs().ptr, 0x1020);
    assert_eq!(s.size(), 6);
    // A slice of a slice adds up.
    let u = s.slice(&[1..2]).unwrap();
    assert_eq!((u.shape(), u.offset_bytes()), (&[1, 3][..], 56));
    assert_eq!(u.spec_inputs().ptr, 0x1038);
    // A slice is no longer contiguous.
    assert!(s.view(&[6]).is_err());
    assert_eq!(u.base().device_id(), 2);
}

#[test]
fn slices_out_of_bounds_are_refused() {
    let t = meta_f32(&[4, 6]);
    let err = t.slice(&[0..1, 0..1, 0..1]).unwrap_err();
    assert_eq!(err.to_string(), "slice: more ranges than axes.");
    let err = t.slice(&[0..5]).unwrap_err();
    assert_eq!(err.to_string(), "slice: range out of bounds.");
    assert_eq!(t.slice(&[0..4, 6..7]).unwrap_err(), TensorError::SliceBounds);
    let reversed = std::ops::Range { start: 3, end: 2 };
    assert_eq!(t.slice(&[reversed]).unwrap_err(), TensorError::SliceBounds);
    // An empty slice at the end is in bounds.
    let e = t.slice(&[4..4]).unwrap();
    assert_eq!((e.shape(), e.size(), e.offset_bytes()), (&[0, 6][..], 0, 96));
    assert!(t.can_slice(&[0..4]));
    assert!(!Tensor::borrow_raw_parts(u64::MAX - 8, 0, DTypeId::F32, vec![4], vec![1])
        .can_slice(&[3..4]));
}

#[test]
fn reinterpretation_keeps_bytes_and_alignment() {
    let t = Tensor::from_raw_parts(0x1000, 16, 0, DTypeId::F32, vec![4], vec![1]);
    let u = t.reinterpret(DTypeId::U8, &[4, 4]).unwrap();
    assert_eq!((u.dtype(), u.shape(), u.strides()), (DTypeId::U8, &[4, 4][..], &[4, 1][..]));
    assert_eq!(u.num_bytes(), t.num_bytes());
    let err = t.reinterpret(DTypeId::U8, &[4]).unwrap_err();
    assert_eq!(err.to_string(), "Reinterpret shape must preserve total byte size.");
    let odd = Tensor::from_raw_parts(0x1004, 16, 0, DTypeId::F32, vec![4], vec![1]);
    let err = odd.reinterpret(DTypeId::F64, &[2]).unwrap_err();
    assert_eq!(
        err.to_string(),
        "Tensor storage alignment is incompatible with reinterpret target type."
    );
    let strided = Tensor::from_foreign(16, 28, 0, DTypeId::F32, vec![4], vec![2]);
    let err = strided.reinterpret(DTypeId::U8, &[16]).unwrap_err();
    assert_eq!(err.to_string(), "Zero-copy reinterpret requires contiguous storage.");
}

#[test]
fn a_shared_tensor_is_reshaped_into_a_new_handle() {
    let t = Arc::new(meta_f32(&[6]));
    let r = (&t).reshape(&[2, 3]).unwrap();
    assert_eq!(r.shape(), &[2, 3]);
    assert_eq!(t.shape(), &[6]);
    assert_eq!(r.allocation(), t.allocation());
}

#[test]
fn metadata_is_checked_against_the_storage() {
    assert!(check_metadata(&[2, 3], &[3, 1], 4, 24).is_ok());
    assert_eq!(check_metadata(&[2, 3], &[1], 4, 24), Err(TensorError::StrideRank));
    assert_eq!(check_metadata(&[2, 3], &[3, 1], 4, 20), Err(TensorError::StorageSize));
    assert_eq!(
        TensorError::StorageSize.to_string(),
        "Tensor logical byte size must match storage byte size."
    );
    assert_eq!(TensorError::StrideRank.to_string(), "Tensor shape/stride rank mismatch.");
}

#[test]
fn sizes_of_a_partitioned_tensor() {
    let p = owned(meta_f32(&[1000, 500]), [10, 10]);
    assert_eq!(p.num_bytes(), 2_000_000);
    assert_eq!(p.num_mb(), 2);
    assert_eq!(p.num_gb(), 0);
    assert_eq!(p.dtype(), DTypeId::F32);
    assert_eq!(p.dtype_str(), "f32");
    assert_eq!(p.partition_strides, vec![500, 1]);
    assert!(!p.prefix_coverage);
    assert_eq!(p.unpartition().shape(), &[1000, 500]);
}

#[test]
fn a_prefix_partition_bounds_the_grid_from_above() {
    let exact = owned(meta_f32(&[100]), [32]);
    assert_eq!(exact.grid_bound().unwrap(), GridBound::Exact((4, 1, 1)));
    let tensor = meta_f32(&[100]);
    let storage = storage_of(&tensor);
    let prefix = IntoPartition::partition_prefix(tensor, &storage, 1, [32]).unwrap();
    assert!(prefix.prefix_coverage);
    assert_eq!(prefix.grid_bound().unwrap(), GridBound::AtMost((4, 1, 1)));
    assert!(owned(meta_f32(&[100]), [0]).grid_bound().is_err());
}

#[test]
fn a_mapped_partition_launches_its_tile_blocks() {
    let z = owned(meta_f32(&[128, 256]), [32, 64]).map([4, 1], 8);
    assert_eq!(KernelOutputStored::grid(&z).unwrap(), (8, 1, 1));
    assert_eq!(z.grid_bound().unwrap(), GridBound::Exact((8, 1, 1)));
    assert_eq!(z.map_shape_as_i32(), Some(vec![4, 1]));
    assert_eq!(z.partition_shape_as_i32(), vec![32, 64]);
    assert_eq!(z.shape_as_i32(), vec![128, 256]);
    assert_eq!(z.dtype_str(), "f32");
    let too_many = owned(meta_f32(&[128, 256]), [32, 64]).map([4, OWNED], 8);
    assert_eq!(KernelOutputStored::grid(&too_many), Err(TensorError::TooManyTileBlocks));
    let plain = owned(meta_f32(&[4]), [2]);
    assert_eq!(plain.map_shape_as_i32(), None);
}

#[test]
fn bindings_push_pointer_shape_strides_and_partition() {
    let t = Tensor::from_raw_parts(0x2000, 96, 0, DTypeId::F32, vec![4, 6], vec![6, 1]);
    let mut launch = AsyncKernelLaunch::new(());
    t.slice(&[1..2]).unwrap().push_kernel_args(&mut launch);
    assert_eq!(launch.arg_count(), 5);
    t.push_kernel_args(&mut launch);
    let p = owned(t, [2, 3]);
    p.push_kernel_args(&mut launch);
    let parts = launch.into_parts();
    let view = [0x2018, 1, 6, 6, 1];
    let whole = [0x2000, 4, 6, 6, 1];
    let output = [0x2000, 4, 6, 6, 1, 2, 3, 6, 1];
    assert_eq!(parts.values, [&view[..], &whole[..], &output[..]].concat());
}

#[test]
fn specialization_inputs_follow_the_metadata() {
    let t = meta_f32(&[2, 3]);
    let inputs = t.spec_inputs();
    assert_eq!(inputs.ptr, META_SPEC_PTR);
    assert_eq!((inputs.shape, inputs.strides, inputs.elem_size), (vec![2, 3], vec![3, 1], 4));
    assert_eq!(t.view(&[6]).unwrap().spec_inputs().ptr, META_SPEC_PTR);
    assert_eq!(t.cu_deviceptr(), None);
    assert_eq!(t.storage_num_bytes(), 24);
    assert_eq!(t.size(), 6);
}

fn device_i32(ptr: u64) -> Tensor {
    Tensor::from_raw_parts(ptr, 16, 0, DTypeId::I32, vec![4], vec![1])
}

#[test]
fn vectors_of_tensors_hold_their_pointers_in_order() {
    let tensors = vec![device_i32(0x1000), device_i32(u64::MAX - 15)];
    assert_eq!(pointer_table(&tensors), Some(vec![0x1000, -16]));
    assert_eq!(pointer_table(&vec![device_i32(0x1000), meta_f32(&[8])]), None);
    assert_eq!(pointer_table(&vec![]), Some(vec![]));

    let table = Tensor::from_raw_parts(0x5000, 16, 0, DTypeId::I64, vec![1, 2], vec![2, 1]);
    let v = DeviceVec::from(tensors, table);
    assert_eq!((v.len(), v.is_empty()), (2, false));
    assert_eq!(v.inner().shape(), &[2]);
    assert_eq!(v.inner().strides(), &[1]);
    assert_eq!(v.inner().cu_deviceptr(), Some(0x5000));
    assert_eq!(v.index(1).cu_deviceptr(), Some(u64::MAX - 15));

    let held = Arc::clone(v.index(1));
    let mut rest = v.into_iter();
    assert_eq!(rest.next().unwrap().unwrap().cu_deviceptr(), Some(0x1000));
    // Another handle keeps the second tensor shared.
    let shared = rest.next().unwrap().unwrap_err();
    assert!(Arc::ptr_eq(&shared, &held));
    assert!(rest.next().is_none());
}

#[test]
fn a_shared_alias_has_the_storage_and_metadata_of_its_tensor() {
    let t = device_i32(0x2000);
    let alias = t.into_shared_alias();
    assert_eq!(alias.cu_deviceptr(), t.cu_deviceptr());
    assert_eq!((alias.shape(), alias.strides()), (t.shape(), t.strides()));
    assert_eq!(alias.dtype(), DTypeId::I32);
}

/// A borrowed partition binds as an owned one does, and leaves the tensor to its
/// owner.
#[test]
fn borrowed_partitions_bind_as_owned_ones() {
    let mut t = Tensor::from_raw_parts(0x4000, 100, 0, DTypeId::U8, vec![10, 10], vec![10, 1]);
    let args = |p: &dyn Fn(&mut AsyncKernelLaunch<()>)| {
        let mut launch = AsyncKernelLaunch::new(());
        p(&mut launch);
        launch.into_parts().values
    };
    let pushed = {
        let p = borrowed(&mut t, [4, 5]);
        assert_eq!(p.partition_strides, vec![10, 1]);
        assert_eq!(p.grid(), Ok((3, 2, 1)));
        assert_eq!(p.dtype_str(), "u8");
        assert_eq!(p.grid_bound(), Ok(GridBound::Exact((3, 2, 1))));
        args(&|l| p.push_kernel_args(l))
    };
    {
        let storage = storage_of(&t);
        let p = PartitionMut::partition_prefix(&mut t, &storage, 1, [4, 5]).unwrap();
        assert_eq!(p.grid_bound(), Ok(GridBound::AtMost((3, 2, 1))));
    }
    {
        let mapped = borrowed(&mut t, [4, 5]).map([1, 1], 6);
        assert_eq!(KernelOutputStored::grid(&mapped), Ok((6, 1, 1)));
        assert_eq!(args(&|l| mapped.push_kernel_args(l)), pushed);
    }
    let whole = owned(t, [4, 5]);
    assert_eq!(args(&|l| whole.push_kernel_args(l)), pushed);
    assert_eq!(pushed, vec![0x4000, 10, 10, 10, 1, 4, 5, 10, 1]);
}

#[test]
fn a_handle_is_partitioned_only_by_its_sole_owner() {
    let t = Arc::new(meta_f32(&[8]));
    let storage = storage_of(&t);
    let other = Arc::clone(&t);
    let err = IntoPartitionArc::partition(t, &storage, 1, [4]).err().unwrap();
    assert_eq!(err, TensorError::SharedHandle);
    assert_eq!(err.to_string(), "Failed to convert Arc to Partition.");
    // The sole handle of storage that an alias shares.
    let alone = Arc::new(meta_f32(&[8]));
    let err = IntoPartitionArc::partition(alone, &storage, 2, [4]).err().unwrap();
    assert_eq!(err, TensorError::SharedPartition);
    let p = IntoPartitionArc::partition(other, &storage, 1, [4]).unwrap();
    assert_eq!(p.grid(), Ok((2, 1, 1)));
    assert!(!p.prefix_coverage);
    let handle: Arc<Tensor> = p.into();
    assert_eq!(handle.shape(), &[8]);
}
