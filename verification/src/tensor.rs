//! Tensor metadata, views and slices.
//!
//! A [`Tensor`] pairs an allocation with a dtype, a shape and strides; views and
//! slices give other metadata over the same bytes without copying.
use std::ops::Range;
use std::sync::Arc;
use vstd::prelude::*;

use crate::dtype::DTypeId;
use crate::error::TensorError;
use crate::shape;
use crate::storage::Allocation;
use crate::text;

verus! {

/// What the specialization of a tensor argument is computed from.
#[derive(Debug, PartialEq, Eq)]
pub struct SpecInputs {
    pub ptr: u64,
    pub shape: Vec<i32>,
    pub strides: Vec<i32>,
    pub elem_size: i32,
}

/// A multi-dimensional array over an allocation.
#[derive(Debug)]
pub struct Tensor {
    allocation: Allocation,
    dtype: DTypeId,
    shape: Vec<i32>,
    strides: Vec<i32>,
}

/// Shape and strides have one rank and the logical byte size is that of the
/// storage.
pub open spec fn valid_metadata(
    dims: Seq<i32>,
    strides: Seq<i32>,
    size: int,
    storage_bytes: int,
) -> bool {
    &&& dims.len() == strides.len()
    &&& shape::byte_count(text::ints_of_i32(dims), size) == Ok::<int, TensorError>(storage_bytes)
}

/// The dimensions of `target` as `i32`.
pub open spec fn as_i32_dims(target: Seq<usize>) -> Seq<i32> {
    target.map_values(|x: usize| x as i32)
}

proof fn lemma_dims_fit(target: Seq<usize>)
    requires
        shape::dims_fit(target),
    ensures
        text::ints_of_i32(as_i32_dims(target)) == text::ints_of_usize(target),
{
    assert forall|i: int| 0 <= i < target.len() implies #[trigger] text::ints_of_i32(
        as_i32_dims(target),
    )[i] == text::ints_of_usize(target)[i] by {
        assert(target[i] <= i32::MAX);
    }
    assert(text::ints_of_i32(as_i32_dims(target)) =~= text::ints_of_usize(target));
}

fn to_i32_dims(target: &[usize]) -> (r: Vec<i32>)
    ensures
        r@ == as_i32_dims(target@),
{
    let mut out: Vec<i32> = Vec::new();
    let mut i: usize = 0;
    while i < target.len()
        invariant
            i <= target.len(),
            out@ == as_i32_dims(target@.take(i as int)),
        decreases target.len() - i,
    {
        let d = #[verifier::truncate] (target[i] as i32);
        out.push(d);
        assert(as_i32_dims(target@.take(i + 1)) =~= as_i32_dims(target@.take(i as int)).push(d));
        i += 1;
    }
    assert(target@.take(i as int) =~= target@);
    out
}

/// Whether metadata is consistent with storage of `storage_bytes`: ranks agree,
/// no dimension is negative, and the byte sizes are equal.
pub fn check_metadata(
    dims: &[i32],
    strides: &[i32],
    size: usize,
    storage_bytes: usize,
) -> (r: Result<(), TensorError>)
    ensures
        r is Ok <==> valid_metadata(dims@, strides@, size as int, storage_bytes as int),
        dims@.len() != strides@.len() ==> r == Err::<(), TensorError>(TensorError::StrideRank),
        dims@.len() == strides@.len() ==> match shape::byte_count(
            text::ints_of_i32(dims@),
            size as int,
        ) {
            Err(e) => r == Err::<(), TensorError>(e),
            Ok(n) => n != storage_bytes ==> r == Err::<(), TensorError>(TensorError::StorageSize),
        },
{
    if dims.len() != strides.len() {
        return Err(TensorError::StrideRank);
    }
    match shape::num_bytes_of_i32(dims, size) {
        Err(e) => Err(e),
        Ok(n) => if n == storage_bytes {
            Ok(())
        } else {
            Err(TensorError::StorageSize)
        },
    }
}

/// Whether a foreign allocation of `owner_bytes` can back metadata: the shape is
/// counted, the addressable extent exists and the owner covers it.
pub fn check_foreign(dims: &[i32], strides: &[i32], size: usize, owner_bytes: usize) -> (r: Result<
    (),
    TensorError,
>)
    ensures
        r is Ok <==> foreign_covers(dims@, strides@, size as int, owner_bytes as int),
        match shape::byte_count(text::ints_of_i32(dims@), size as int) {
            Err(e) => r == Err::<(), TensorError>(e),
            Ok(_) => match shape::addressable(dims@, strides@, size as int) {
                Err(e) => r == Err::<(), TensorError>(e),
                Ok(extent) => owner_bytes < extent ==> r == Err::<(), TensorError>(
                    TensorError::ForeignExtent {
                        len_bytes: owner_bytes,
                        extent_bytes: extent as usize,
                    },
                ),
            },
        },
{
    match shape::num_bytes_of_i32(dims, size) {
        Err(e) => {
            return Err(e);
        },
        Ok(_) => {},
    }
    match shape::addressable_bytes_of(dims, strides, size) {
        Err(e) => Err(e),
        Ok(extent) => if owner_bytes >= extent {
            Ok(())
        } else {
            Err(TensorError::ForeignExtent { len_bytes: owner_bytes, extent_bytes: extent })
        },
    }
}

/// A foreign allocation of `owner_bytes` covers every byte the metadata
/// addresses.
pub open spec fn foreign_covers(
    dims: Seq<i32>,
    strides: Seq<i32>,
    size: int,
    owner_bytes: int,
) -> bool {
    &&& shape::byte_count(text::ints_of_i32(dims), size) is Ok
    &&& shape::addressable(dims, strides, size) is Ok
    &&& owner_bytes >= shape::addressable(dims, strides, size)->Ok_0
}

impl Tensor {
    /// What backs the tensor.
    pub closed spec fn backing(self) -> Allocation {
        self.allocation
    }

    pub closed spec fn elem(self) -> DTypeId {
        self.dtype
    }

    pub closed spec fn dims(self) -> Seq<i32> {
        self.shape@
    }

    pub closed spec fn steps(self) -> Seq<i32> {
        self.strides@
    }

    /// The size of an element in bytes.
    pub open spec fn elem_size(self) -> int {
        self.elem().size_spec() as int
    }

    /// The metadata describes the storage.
    pub open spec fn wf(self) -> bool {
        valid_metadata(self.dims(), self.steps(), self.elem_size(), self.backing().bytes())
    }

    #[verifier::type_invariant]
    spec fn valid(self) -> bool {
        self.wf()
    }

    /// The layout is row-major contiguous.
    pub open spec fn contiguous(self) -> bool {
        self.steps() == shape::row_major(text::ints_of_i32(self.dims()))
    }

    /// The same storage and element type.
    pub open spec fn shares_storage(self, other: Tensor) -> bool {
        self.backing() == other.backing() && self.elem() == other.elem()
    }

    /// A view of shape `target` is legal: the layout is contiguous and the byte
    /// size is kept.
    pub open spec fn admits_view(self, target: Seq<usize>) -> bool {
        shape::view_result(self.dims(), self.steps(), target, self.elem_size(), Ok(()))
    }

    /// A view of shape `target` is refused with `e`.
    pub open spec fn refuses_view(self, target: Seq<usize>, e: TensorError) -> bool {
        shape::view_result(self.dims(), self.steps(), target, self.elem_size(), Err(e))
    }

    /// A tensor over an allocation whose size the metadata accounts for.
    pub fn from_device_buffer(
        allocation: Allocation,
        dtype: DTypeId,
        shape: Vec<i32>,
        strides: Vec<i32>,
    ) -> (r: Tensor)
        requires
            valid_metadata(shape@, strides@, dtype.size_spec() as int, allocation.bytes()),
        ensures
            r.wf(),
            r.backing() == allocation,
            r.elem() == dtype,
            r.dims() == shape@,
            r.steps() == strides@,
    {
        Tensor { allocation, dtype, shape, strides }
    }

    /// A tensor over the raw parts of a device allocation.
    pub fn from_raw_parts(
        dptr: u64,
        len_bytes: usize,
        device_id: usize,
        dtype: DTypeId,
        shape: Vec<i32>,
        strides: Vec<i32>,
    ) -> (r: Tensor)
        requires
            valid_metadata(shape@, strides@, dtype.size_spec() as int, len_bytes as int),
        ensures
            r.wf(),
            r.backing() == (Allocation::Device { ptr: dptr, len_bytes, device_id }),
            r.elem() == dtype,
            r.dims() == shape@,
            r.steps() == strides@,
    {
        Tensor::from_device_buffer(
            Allocation::Device { ptr: dptr, len_bytes, device_id },
            dtype,
            shape,
            strides,
        )
    }

    /// A tensor over a borrowed device pointer; the byte length follows from the
    /// shape.
    pub fn borrow_raw_parts(
        dptr: u64,
        device_id: usize,
        dtype: DTypeId,
        shape: Vec<i32>,
        strides: Vec<i32>,
    ) -> (r: Tensor)
        requires
            shape@.len() == strides@.len(),
            shape::byte_count(text::ints_of_i32(shape@), dtype.size_spec() as int) is Ok,
        ensures
            r.wf(),
            r.backing() matches Allocation::Device { ptr, device_id: d, .. } && ptr == dptr && d
                == device_id,
            r.elem() == dtype,
            r.dims() == shape@,
            r.steps() == strides@,
    {
        let len_bytes: usize = match shape::num_bytes_of_i32(shape.as_slice(), dtype.size()) {
            Ok(n) => n,
            Err(_) => 0,
        };
        Tensor::from_raw_parts(dptr, len_bytes, device_id, dtype, shape, strides)
    }

    /// A tensor over memory of a foreign owner that covers the addressable
    /// extent of the metadata.
    pub fn from_foreign(
        owner_ptr: u64,
        owner_bytes: usize,
        device_id: usize,
        dtype: DTypeId,
        shape: Vec<i32>,
        strides: Vec<i32>,
    ) -> (r: Tensor)
        requires
            foreign_covers(shape@, strides@, dtype.size_spec() as int, owner_bytes as int),
        ensures
            r.wf(),
            r.backing() matches Allocation::Device { ptr, device_id: d, .. } && ptr == owner_ptr
                && d == device_id,
            r.elem() == dtype,
            r.dims() == shape@,
            r.steps() == strides@,
    {
        Tensor::borrow_raw_parts(owner_ptr, device_id, dtype, shape, strides)
    }

    /// A metadata-only tensor with contiguous strides.
    pub fn from_meta(dtype: DTypeId, shape: Vec<i32>, device_id: usize) -> (r: Tensor)
        requires
            shape::byte_count(text::ints_of_i32(shape@), dtype.size_spec() as int) is Ok,
        ensures
            r.wf(),
            r.contiguous(),
            r.backing() matches Allocation::Meta { device_id: d, .. } && d == device_id,
            r.elem() == dtype,
            r.dims() == shape@,
    {
        let strides = shape::contiguous_strides(shape.as_slice());
        let len_bytes: usize = match shape::num_bytes_of_i32(shape.as_slice(), dtype.size()) {
            Ok(n) => n,
            Err(_) => 0,
        };
        Tensor { allocation: Allocation::Meta { len_bytes, device_id }, dtype, shape, strides }
    }

    /// The byte length of the backing allocation.
    pub fn storage_num_bytes(&self) -> (r: usize)
        ensures
            r == self.backing().bytes(),
    {
        self.allocation.len_bytes()
    }

    /// The total number of elements.
    pub fn size(&self) -> (r: usize)
        ensures
            r == shape::product(text::ints_of_i32(self.dims())),
    {
        proof {
            use_type_invariant(self);
            shape::element_count_is_the_product(text::ints_of_i32(self.dims()));
        }
        match shape::checked_num_elements_i32(self.shape.as_slice()) {
            Ok(n) => n,
            Err(_) => 0,
        }
    }

    /// The total size in bytes, which is that of the storage.
    pub fn num_bytes(&self) -> (r: usize)
        ensures
            r == shape::product(text::ints_of_i32(self.dims())) * self.elem_size(),
            r == self.backing().bytes(),
    {
        proof {
            use_type_invariant(self);
            shape::element_count_is_the_product(text::ints_of_i32(self.dims()));
        }
        match shape::num_bytes_of_i32(self.shape.as_slice(), self.dtype.size()) {
            Ok(n) => n,
            Err(_) => 0,
        }
    }

    /// Whether the metadata describes a contiguous row-major layout.
    pub fn is_contiguous(&self) -> (r: bool)
        ensures
            r == self.contiguous(),
    {
        let expected = shape::contiguous_strides(self.shape.as_slice());
        shape::same_i32(self.strides.as_slice(), expected.as_slice())
    }

    /// The element type.
    pub fn dtype(&self) -> (r: DTypeId)
        ensures
            r == self.elem(),
    {
        self.dtype
    }

    /// The device that owns the storage.
    pub fn device_id(&self) -> (r: usize)
        ensures
            r == self.backing().device(),
    {
        self.allocation.device_id()
    }

    /// The device pointer, which a metadata-only tensor does not have.
    pub fn cu_deviceptr(&self) -> (r: Option<u64>)
        ensures
            r is Some <==> self.backing() is Device,
            self.backing() matches Allocation::Device { ptr, .. } ==> r == Some(ptr),
    {
        self.allocation.cu_deviceptr()
    }

    /// The allocation behind the tensor.
    pub fn allocation(&self) -> (r: Allocation)
        ensures
            r == self.backing(),
    {
        self.allocation
    }

    /// The tensor's shape.
    pub fn shape(&self) -> (r: &[i32])
        ensures
            r@ == self.dims(),
    {
        self.shape.as_slice()
    }

    /// The tensor's strides.
    pub fn strides(&self) -> (r: &[i32])
        ensures
            r@ == self.steps(),
    {
        self.strides.as_slice()
    }

    /// What the tensor's specialization is computed from.
    pub fn spec_inputs(&self) -> (r: SpecInputs)
        ensures
            r.ptr == self.backing().spec_address(),
            r.shape@ == self.dims(),
            r.strides@ == self.steps(),
            r.elem_size == self.elem_size(),
    {
        SpecInputs {
            ptr: self.allocation.spec_ptr(),
            shape: shape::copy_i32(self.shape.as_slice()),
            strides: shape::copy_i32(self.strides.as_slice()),
            elem_size: self.dtype.size() as i32,
        }
    }

    /// Whether a zero-copy view of `shape` keeps the byte size of a contiguous
    /// layout.
    pub fn validate_view_shape(&self, shape: &[usize]) -> (r: Result<(), TensorError>)
        ensures
            shape::view_result(self.dims(), self.steps(), shape@, self.elem_size(), r),
    {
        shape::validate_view_shape_of(
            self.shape.as_slice(),
            self.strides.as_slice(),
            shape,
            self.dtype.size(),
        )
    }

    /// What [`validate_reinterpret_shape`](Self::validate_reinterpret_shape)
    /// returns: the first refusal that applies, in order.
    pub open spec fn reinterpret_result(
        self,
        dtype: DTypeId,
        target: Seq<usize>,
        r: Result<(), TensorError>,
    ) -> bool {
        let bytes = shape::byte_count(text::ints_of_usize(target), dtype.size_spec() as int);
        if !self.contiguous() {
            r == Err::<(), TensorError>(TensorError::NonContiguousReinterpret)
        } else if bytes is Err {
            r == Err::<(), TensorError>(bytes->Err_0)
        } else if bytes->Ok_0 != self.backing().bytes() {
            r == Err::<(), TensorError>(TensorError::ReinterpretSize)
        } else if self.backing().spec_address() as int % dtype.size_spec() as int != 0 {
            r == Err::<(), TensorError>(TensorError::ReinterpretAlignment)
        } else {
            shape::dims_result(target, r)
        }
    }

    /// Whether the tensor's bytes can be read as `dtype` in `shape`: a contiguous
    /// layout, the same byte size, a storage address aligned for the type, and
    /// dimensions that fit the metadata.
    pub fn validate_reinterpret_shape(&self, dtype: DTypeId, shape: &[usize]) -> (r: Result<
        (),
        TensorError,
    >)
        ensures
            self.reinterpret_result(dtype, shape@, r),
    {
        proof {
            use_type_invariant(self);
        }
        if !self.is_contiguous() {
            return Err(TensorError::NonContiguousReinterpret);
        }
        let target_bytes = match shape::num_bytes_of(shape, dtype.size()) {
            Ok(n) => n,
            Err(e) => {
                return Err(e);
            },
        };
        if target_bytes != self.num_bytes() {
            return Err(TensorError::ReinterpretSize);
        }
        let alignment = dtype.size() as u64;
        if alignment > 1 && self.allocation.spec_ptr() % alignment != 0 {
            return Err(TensorError::ReinterpretAlignment);
        }
        shape::check_dims(shape)
    }

    /// Another handle to the same storage, with the same metadata. The caller sees
    /// to it that only one of the two is written at a time.
    pub fn into_shared_alias(&self) -> (r: Arc<Tensor>)
        ensures
            r.wf(),
            r.backing() == self.backing(),
            r.elem() == self.elem(),
            r.dims() == self.dims(),
            r.steps() == self.steps(),
    {
        proof {
            use_type_invariant(self);
        }
        Arc::new(
            Tensor {
                allocation: self.allocation,
                dtype: self.dtype,
                shape: shape::copy_i32(self.shape.as_slice()),
                strides: shape::copy_i32(self.strides.as_slice()),
            },
        )
    }

    /// The tensor with another shape and contiguous strides. The caller has made
    /// sure that the shape describes the storage.
    pub fn reshape_unchecked(self, shape: &[usize]) -> (r: Tensor)
        requires
            shape::dims_fit(shape@),
            shape::byte_count(text::ints_of_usize(shape@), self.elem_size()) == Ok::<
                int,
                TensorError,
            >(self.backing().bytes()),
        ensures
            r.wf(),
            r.shares_storage(self),
            r.dims() == as_i32_dims(shape@),
            r.contiguous(),
    {
        let dims = to_i32_dims(shape);
        let strides = shape::contiguous_strides(dims.as_slice());
        proof {
            lemma_dims_fit(shape@);
        }
        Tensor { allocation: self.allocation, dtype: self.dtype, shape: dims, strides }
    }

    /// A tensor that shares this one's storage under another shape.
    pub fn reshape_shared(&self, shape: &[usize]) -> (r: Result<Arc<Tensor>, TensorError>)
        ensures
            match r {
                Ok(t) => reshaped(*self, shape@, *t),
                Err(e) => self.refuses_view(shape@, e),
            },
    {
        proof {
            use_type_invariant(self);
        }
        match self.validate_view_shape(shape) {
            Ok(()) => {
                let dims = to_i32_dims(shape);
                let strides = shape::contiguous_strides(dims.as_slice());
                proof {
                    lemma_dims_fit(shape@);
                }
                Ok(
                    Arc::new(
                        Tensor {
                            allocation: self.allocation,
                            dtype: self.dtype,
                            shape: dims,
                            strides,
                        },
                    ),
                )
            },
            Err(e) => Err(e),
        }
    }

    /// Reads the tensor's bytes as another type with a new shape, without a copy.
    pub fn reinterpret(&self, dtype: DTypeId, shape: &[usize]) -> (r: Result<
        Arc<Tensor>,
        TensorError,
    >)
        ensures
            match r {
                Ok(t) => {
                    &&& self.reinterpret_result(dtype, shape@, Ok(()))
                    &&& t.backing() == self.backing()
                    &&& t.elem() == dtype
                    &&& t.dims() == as_i32_dims(shape@)
                    &&& t.contiguous()
                    &&& t.wf()
                },
                Err(e) => self.reinterpret_result(dtype, shape@, Err(e)),
            },
    {
        match self.validate_reinterpret_shape(dtype, shape) {
            Ok(()) => {
                let dims = to_i32_dims(shape);
                let strides = shape::contiguous_strides(dims.as_slice());
                proof {
                    lemma_dims_fit(shape@);
                }
                Ok(Arc::new(Tensor { allocation: self.allocation, dtype, shape: dims, strides }))
            },
            Err(e) => Err(e),
        }
    }
}

/// `t` is `source` under the shape `target`, where the view is legal.
pub open spec fn reshaped(source: Tensor, target: Seq<usize>, t: Tensor) -> bool {
    &&& source.admits_view(target)
    &&& t.shares_storage(source)
    &&& t.dims() == as_i32_dims(target)
    &&& t.contiguous()
    &&& t.wf()
}

/// Reshape a tensor, or a shared tensor, to a new shape.
pub trait Reshape {
    type Output;

    fn reshape(self, shape: &[usize]) -> Result<Self::Output, TensorError> where Self: Sized;
}

impl Reshape for Tensor {
    type Output = Tensor;

    /// Consumes the tensor and returns it under the new shape.
    fn reshape(self, shape: &[usize]) -> (r: Result<Tensor, TensorError>)
        ensures
            match r {
                Ok(t) => reshaped(self, shape@, t),
                Err(e) => self.refuses_view(shape@, e),
            },
    {
        proof {
            use_type_invariant(&self);
        }
        match self.validate_view_shape(shape) {
            Ok(()) => Ok(self.reshape_unchecked(shape)),
            Err(e) => Err(e),
        }
    }
}

impl Reshape for &Arc<Tensor> {
    type Output = Arc<Tensor>;

    /// A new handle that shares the storage.
    fn reshape(self, shape: &[usize]) -> (r: Result<Arc<Tensor>, TensorError>)
        ensures
            match r {
                Ok(t) => reshaped(**self, shape@, *t),
                Err(e) => (**self).refuses_view(shape@, e),
            },
    {
        self.reshape_shared(shape)
    }
}

/// A borrowed view of a tensor: other metadata over the same bytes, from an
/// offset on.
#[derive(Debug)]
pub struct TensorView<'a> {
    base: &'a Tensor,
    offset_bytes: usize,
    shape: Vec<i32>,
    strides: Vec<i32>,
    spec_ptr: u64,
}

/// The ranges select a part of each axis they name.
pub open spec fn ranges_valid(dims: Seq<i32>, ranges: Seq<Range<usize>>) -> bool {
    forall|i: int| 0 <= i < ranges.len() ==> range_valid(dims, ranges, i)
}

/// Range `i` is ordered and ends within its axis.
pub open spec fn range_valid(dims: Seq<i32>, ranges: Seq<Range<usize>>, i: int) -> bool {
    ranges[i].start <= ranges[i].end <= dims[i]
}

/// The element offset of the first `n` ranges: the sum of `start * stride`.
pub open spec fn start_offset(strides: Seq<i32>, ranges: Seq<Range<usize>>, n: int) -> int
    decreases n,
{
    if n <= 0 {
        0
    } else {
        start_offset(strides, ranges, n - 1) + ranges[n - 1].start * strides[n - 1]
    }
}

/// The shape after slicing: the length of the range on the sliced axes, the
/// dimension on the others.
pub open spec fn sliced_dims(dims: Seq<i32>, ranges: Seq<Range<usize>>) -> Seq<i32> {
    Seq::new(
        dims.len(),
        |i: int|
            if i < ranges.len() {
                (ranges[i].end - ranges[i].start) as i32
            } else {
                dims[i]
            },
    )
}

/// The ranges up to and with `n` are valid.
pub open spec fn valid_through(dims: Seq<i32>, ranges: Seq<Range<usize>>, n: int) -> bool {
    forall|i: int| 0 <= i <= n ==> range_valid(dims, ranges, i)
}

/// The stride of axis `n` is not negative where its start is not 0, and the
/// offset through that axis fits.
pub open spec fn axis_fits(strides: Seq<i32>, ranges: Seq<Range<usize>>, n: int) -> bool {
    &&& ranges[n].start == 0 || strides[n] >= 0
    &&& start_offset(strides, ranges, n + 1) <= usize::MAX
}

/// Slicing stays within `usize` and `u64`: on each axis up to the first invalid
/// range the stride is not negative where the start is not 0, and the offsets,
/// in elements and in bytes, from `base_offset` and from `base_ptr`, fit.
pub open spec fn slice_fits(
    dims: Seq<i32>,
    strides: Seq<i32>,
    ranges: Seq<Range<usize>>,
    size: int,
    base_offset: int,
    base_ptr: int,
) -> bool {
    ranges.len() <= dims.len() ==> {
        &&& forall|n: int|
            0 <= n < ranges.len() && valid_through(dims, ranges, n) ==> #[trigger] axis_fits(
                strides,
                ranges,
                n,
            )
        &&& ranges_valid(dims, ranges) ==> {
            let bytes = base_offset + start_offset(strides, ranges, ranges.len() as int) * size;
            bytes <= usize::MAX && base_ptr + bytes <= u64::MAX
        }
    }
}

/// What a slice computes: the element offset of its first element and its shape.
fn slice_parts(dims: &[i32], strides: &[i32], ranges: &[Range<usize>], size: usize, base_offset: usize, base_ptr: u64) -> (r: Result<
    (usize, Vec<i32>),
    TensorError,
>)
    requires
        dims@.len() == strides@.len(),
        forall|i: int| 0 <= i < dims@.len() ==> #[trigger] dims@[i] >= 0,
        slice_fits(
            dims@,
            strides@,
            ranges@,
            size as int,
            base_offset as int,
            base_ptr as int,
        ),
    ensures
        if ranges@.len() > dims@.len() {
            r == Err::<(usize, Vec<i32>), TensorError>(TensorError::SliceRank)
        } else if !ranges_valid(dims@, ranges@) {
            r == Err::<(usize, Vec<i32>), TensorError>(TensorError::SliceBounds)
        } else {
            r matches Ok((offset, shape)) && offset == start_offset(
                strides@,
                ranges@,
                ranges@.len() as int,
            ) && shape@ == sliced_dims(dims@, ranges@)
        },
{
    if ranges.len() > dims.len() {
        return Err(TensorError::SliceRank);
    }
    let mut offset: usize = 0;
    let mut new_shape = shape::copy_i32(dims);
    let mut axis: usize = 0;
    while axis < ranges.len()
        invariant
            axis <= ranges@.len() <= dims@.len(),
            dims@.len() == strides@.len(),
            new_shape@.len() == dims@.len(),
            forall|i: int| 0 <= i < dims@.len() ==> #[trigger] dims@[i] >= 0,
            slice_fits(
                dims@,
                strides@,
                ranges@,
                size as int,
                base_offset as int,
                base_ptr as int,
            ),
            forall|i: int| 0 <= i < axis ==> range_valid(dims@, ranges@, i),
            offset == start_offset(strides@, ranges@, axis as int),
            forall|i: int|
                0 <= i < axis ==> #[trigger] new_shape@[i] == sliced_dims(dims@, ranges@)[i],
            forall|i: int| axis <= i < dims@.len() ==> #[trigger] new_shape@[i] == dims@[i],
        decreases ranges.len() - axis,
    {
        let start = ranges[axis].start;
        let end = ranges[axis].end;
        assert(dims@[axis as int] >= 0);
        if start > end || end > dims[axis] as usize {
            assert(!range_valid(dims@, ranges@, axis as int));
            return Err(TensorError::SliceBounds);
        }
        assert(range_valid(dims@, ranges@, axis as int));
        proof {
            let n = axis as int;
            assert(valid_through(dims@, ranges@, n));
            assert(axis_fits(strides@, ranges@, n));
            let (a, t) = (start as int, strides@[n] as int);
            if start == 0 {
                assert(a * t == 0) by (nonlinear_arith)
                    requires
                        a == 0,
                ;
            }
            assert(a * t >= 0) by (nonlinear_arith)
                requires
                    a >= 0,
                    a == 0 || t >= 0,
            ;
        }
        if start > 0 {
            offset = offset + start * (strides[axis] as usize);
        }
        new_shape.set(axis, (end - start) as i32);
        axis += 1;
    }
    assert(new_shape@ =~= sliced_dims(dims@, ranges@));
    Ok((offset, new_shape))
}

/// Whether slicing stays within `usize` and `u64`.
fn slice_in_range(dims: &[i32], strides: &[i32], ranges: &[Range<usize>], size: usize, base_offset: usize, base_ptr: u64) -> (r: bool)
    requires
        dims@.len() == strides@.len(),
        forall|i: int| 0 <= i < dims@.len() ==> #[trigger] dims@[i] >= 0,
    ensures
        r == slice_fits(
            dims@,
            strides@,
            ranges@,
            size as int,
            base_offset as int,
            base_ptr as int,
        ),
{
    if ranges.len() > dims.len() {
        return true;
    }
    let mut offset: usize = 0;
    let mut axis: usize = 0;
    while axis < ranges.len()
        invariant
            axis <= ranges@.len() <= dims@.len(),
            dims@.len() == strides@.len(),
            forall|i: int| 0 <= i < dims@.len() ==> #[trigger] dims@[i] >= 0,
            forall|i: int| 0 <= i < axis ==> range_valid(dims@, ranges@, i),
            forall|n: int| 0 <= n < axis ==> #[trigger] axis_fits(strides@, ranges@, n),
            offset == start_offset(strides@, ranges@, axis as int),
        decreases ranges.len() - axis,
    {
        let start = ranges[axis].start;
        let end = ranges[axis].end;
        assert(dims@[axis as int] >= 0);
        if start > end || end > dims[axis] as usize {
            assert(!range_valid(dims@, ranges@, axis as int));
            assert forall|n: int|
                0 <= n < ranges@.len() && valid_through(dims@, ranges@, n) implies #[trigger] axis_fits(
                strides@,
                ranges@,
                n,
            ) by {
                if n >= axis {
                    assert(range_valid(dims@, ranges@, axis as int));
                }
            }
            return true;
        }
        assert(range_valid(dims@, ranges@, axis as int));
        let ghost n = axis as int;
        let next: Option<usize> = if start == 0 {
            Some(offset)
        } else if strides[axis] < 0 {
            None
        } else {
            match start.checked_mul(strides[axis] as usize) {
                Some(step) => offset.checked_add(step),
                None => None,
            }
        };
        proof {
            let (a, t) = (start as int, strides@[n] as int);
            if t >= 0 {
                assert(a * t >= 0) by (nonlinear_arith)
                    requires
                        a >= 0,
                        t >= 0,
                ;
            }
            if start == 0 {
                assert(a * t == 0) by (nonlinear_arith)
                    requires
                        a == 0,
                ;
            }
            lemma_start_offset_nonnegative(strides@, ranges@, n);
        }
        match next {
            Some(sum) => {
                offset = sum;
            },
            None => {
                assert(valid_through(dims@, ranges@, n));
                assert(!axis_fits(strides@, ranges@, n));
                return false;
            },
        }
        axis += 1;
    }
    proof {
        lemma_start_offset_nonnegative(strides@, ranges@, ranges@.len() as int);
        assert(ranges_valid(dims@, ranges@));
    }
    let bytes = match offset.checked_mul(size) {
        Some(scaled) => base_offset.checked_add(scaled),
        None => None,
    };
    match bytes {
        Some(b) => match base_ptr.checked_add(b as u64) {
            Some(_) => true,
            None => false,
        },
        None => false,
    }
}

proof fn lemma_start_offset_nonnegative(strides: Seq<i32>, ranges: Seq<Range<usize>>, n: int)
    requires
        0 <= n <= ranges.len(),
        forall|k: int| 0 <= k < n ==> #[trigger] axis_fits(strides, ranges, k),
    ensures
        start_offset(strides, ranges, n) >= 0,
    decreases n,
{
    if n > 0 {
        lemma_start_offset_nonnegative(strides, ranges, n - 1);
        assert(axis_fits(strides, ranges, n - 1));
        let (a, t) = (ranges[n - 1].start as int, strides[n - 1] as int);
        assert(a * t >= 0) by (nonlinear_arith)
            requires
                a >= 0,
                a == 0 || t >= 0,
        ;
    }
}

/// A counted shape stays counted where no dimension grows.
proof fn lemma_smaller_counts(small: Seq<int>, large: Seq<int>, n: int)
    requires
        small.len() == large.len(),
        0 <= n <= small.len(),
        forall|i: int| 0 <= i < small.len() ==> 0 <= #[trigger] small[i] <= large[i],
        shape::count_prefix(large, n) is Ok,
    ensures
        shape::count_prefix(small, n) is Ok,
        0 <= shape::count_prefix(small, n)->Ok_0 <= shape::count_prefix(large, n)->Ok_0,
    decreases n,
{
    if n > 0 {
        lemma_smaller_counts(small, large, n - 1);
        let (a, b) = (
            shape::count_prefix(small, n - 1)->Ok_0,
            shape::count_prefix(large, n - 1)->Ok_0,
        );
        let (x, y) = (small[n - 1], large[n - 1]);
        assert(0 <= a * x <= b * y) by (nonlinear_arith)
            requires
                0 <= a <= b,
                0 <= x <= y,
        ;
    }
}

impl<'a> TensorView<'a> {
    pub closed spec fn source(self) -> Tensor {
        *self.base
    }

    /// The byte offset of the view's first element.
    pub closed spec fn offset(self) -> int {
        self.offset_bytes as int
    }

    pub closed spec fn dims(self) -> Seq<i32> {
        self.shape@
    }

    pub closed spec fn steps(self) -> Seq<i32> {
        self.strides@
    }

    /// The address the view's specialization is computed from.
    pub closed spec fn spec_address(self) -> u64 {
        self.spec_ptr
    }

    /// Ranks agree, the shape is counted, and the first element has an address.
    pub open spec fn wf(self) -> bool {
        &&& self.source().wf()
        &&& self.dims().len() == self.steps().len()
        &&& shape::element_count(text::ints_of_i32(self.dims())) is Ok
        &&& 0 <= self.offset()
        &&& self.source().backing().spec_address() + self.offset() <= u64::MAX
    }

    #[verifier::type_invariant]
    spec fn valid(self) -> bool {
        self.wf()
    }

    /// A view of shape `target` over this view is legal.
    pub open spec fn admits_view(self, target: Seq<usize>) -> bool {
        shape::view_result(self.dims(), self.steps(), target, self.source().elem_size(), Ok(()))
    }

    /// A view of shape `target` over this view is refused with `e`.
    pub open spec fn refuses_view(self, target: Seq<usize>, e: TensorError) -> bool {
        shape::view_result(self.dims(), self.steps(), target, self.source().elem_size(), Err(e))
    }

    /// `self` is a contiguous view of `base` under `target`, from `offset` on.
    pub open spec fn is_view(self, base: Tensor, offset: int, target: Seq<usize>) -> bool {
        &&& self.source() == base
        &&& self.offset() == offset
        &&& self.dims() == as_i32_dims(target)
        &&& self.steps() == shape::row_major(text::ints_of_i32(self.dims()))
        &&& self.spec_address() == base.backing().spec_address()
        &&& self.wf()
    }

    /// `self` is the slice by `ranges` of metadata over `base`, from `offset` on.
    pub open spec fn is_slice(
        self,
        base: Tensor,
        offset: int,
        dims: Seq<i32>,
        strides: Seq<i32>,
        ranges: Seq<Range<usize>>,
    ) -> bool {
        &&& self.source() == base
        &&& self.offset() == offset + start_offset(strides, ranges, ranges.len() as int)
            * base.elem_size()
        &&& self.dims() == sliced_dims(dims, ranges)
        &&& self.steps() == strides
        &&& self.spec_address() == base.backing().spec_address() + self.offset()
        &&& self.wf()
    }

    /// The view's shape.
    pub fn shape(&self) -> (r: &[i32])
        ensures
            r@ == self.dims(),
    {
        self.shape.as_slice()
    }

    /// The view's strides.
    pub fn strides(&self) -> (r: &[i32])
        ensures
            r@ == self.steps(),
    {
        self.strides.as_slice()
    }

    /// The tensor that owns the storage.
    pub fn base(&self) -> (r: &Tensor)
        ensures
            *r == self.source(),
    {
        self.base
    }

    /// The byte offset of the view's first element.
    pub fn offset_bytes(&self) -> (r: usize)
        ensures
            r == self.offset(),
    {
        self.offset_bytes
    }

    /// What the view's specialization is computed from.
    pub fn spec_inputs(&self) -> (r: SpecInputs)
        ensures
            r.ptr == self.spec_address(),
            r.shape@ == self.dims(),
            r.strides@ == self.steps(),
            r.elem_size == self.source().elem_size(),
    {
        SpecInputs {
            ptr: self.spec_ptr,
            shape: shape::copy_i32(self.shape.as_slice()),
            strides: shape::copy_i32(self.strides.as_slice()),
            elem_size: self.base.dtype.size() as i32,
        }
    }

    /// The number of elements in the view.
    pub fn size(&self) -> (r: usize)
        ensures
            r == shape::product(text::ints_of_i32(self.dims())),
    {
        proof {
            use_type_invariant(self);
            shape::element_count_is_the_product(text::ints_of_i32(self.dims()));
        }
        match shape::checked_num_elements_i32(self.shape.as_slice()) {
            Ok(n) => n,
            Err(_) => 0,
        }
    }

    /// The pointer the kernel receives: the storage's, plus the view's offset.
    pub fn device_ptr(&self) -> (r: Option<u64>)
        ensures
            r is Some <==> self.source().backing() is Device,
            self.source().backing() matches Allocation::Device { ptr, .. } ==> ptr + self.offset()
                <= u64::MAX && r == Some((ptr + self.offset()) as u64),
    {
        proof {
            use_type_invariant(self);
        }
        match self.base.cu_deviceptr() {
            Some(ptr) => Some(ptr + self.offset_bytes as u64),
            None => None,
        }
    }

    /// Re-view with a different shape.
    pub fn view(&self, shape: &[usize]) -> (r: Result<TensorView<'a>, TensorError>)
        ensures
            match r {
                Ok(v) => self.admits_view(shape@) && v.is_view(
                    self.source(),
                    self.offset(),
                    shape@,
                ),
                Err(e) => self.refuses_view(shape@, e),
            },
    {
        match shape::validate_view_shape_of(
            self.shape.as_slice(),
            self.strides.as_slice(),
            shape,
            self.base.dtype.size(),
        ) {
            Ok(()) => {
                let dims = to_i32_dims(shape);
                let strides = shape::contiguous_strides(dims.as_slice());
                proof {
                    use_type_invariant(self);
                    lemma_dims_fit(shape@);
                }
                Ok(
                    TensorView {
                        base: self.base,
                        offset_bytes: self.offset_bytes,
                        shape: dims,
                        strides,
                        spec_ptr: self.base.allocation.spec_ptr(),
                    },
                )
            },
            Err(e) => Err(e),
        }
    }

    /// Slicing by `ranges` stays within machine integers.
    pub open spec fn slice_fits(self, ranges: Seq<Range<usize>>) -> bool {
        slice_fits(
            self.dims(),
            self.steps(),
            ranges,
            self.source().elem_size(),
            self.offset(),
            self.source().backing().spec_address() as int,
        )
    }

    /// Whether slicing by `ranges` stays within machine integers.
    pub fn can_slice(&self, ranges: &[Range<usize>]) -> (r: bool)
        ensures
            r == self.slice_fits(ranges@),
    {
        proof {
            use_type_invariant(self);
            lemma_counted_dims(self.dims());
        }
        slice_in_range(
            self.shape.as_slice(),
            self.strides.as_slice(),
            ranges,
            self.base.dtype.size(),
            self.offset_bytes,
            self.base.allocation.spec_ptr(),
        )
    }

    /// Slices the view along its leading axes. Trailing axes are left unsliced
    /// and strides are kept.
    pub fn slice(&self, ranges: &[Range<usize>]) -> (r: Result<TensorView<'a>, TensorError>)
        requires
            self.slice_fits(ranges@),
        ensures
            if ranges@.len() > self.dims().len() {
                r == Err::<TensorView<'a>, TensorError>(TensorError::SliceRank)
            } else if !ranges_valid(self.dims(), ranges@) {
                r == Err::<TensorView<'a>, TensorError>(TensorError::SliceBounds)
            } else {
                r matches Ok(v) && v.is_slice(
                    self.source(),
                    self.offset(),
                    self.dims(),
                    self.steps(),
                    ranges@,
                )
            },
    {
        proof {
            use_type_invariant(self);
            lemma_counted_dims(self.dims());
        }
        let size = self.base.dtype.size();
        match slice_parts(
            self.shape.as_slice(),
            self.strides.as_slice(),
            ranges,
            size,
            self.offset_bytes,
            self.base.allocation.spec_ptr(),
        ) {
            Ok((offset, dims)) => {
                proof {
                    lemma_sliced_counts(self.dims(), ranges@);
                    lemma_scaled_offset(offset as int, size as int);
                }
                let offset_bytes = self.offset_bytes + offset * size;
                Ok(
                    TensorView {
                        base: self.base,
                        offset_bytes,
                        shape: dims,
                        strides: shape::copy_i32(self.strides.as_slice()),
                        spec_ptr: self.base.allocation.spec_ptr() + offset_bytes as u64,
                    },
                )
            },
            Err(e) => Err(e),
        }
    }
}

proof fn lemma_scaled_offset(offset: int, size: int)
    requires
        offset >= 0,
        size >= 1,
    ensures
        0 <= offset * size,
        offset <= offset * size,
{
    assert(0 <= offset * size && offset <= offset * size) by (nonlinear_arith)
        requires
            offset >= 0,
            size >= 1,
    ;
}

/// No dimension of a counted shape is negative.
proof fn lemma_counted_dims(dims: Seq<i32>)
    requires
        shape::element_count(text::ints_of_i32(dims)) is Ok,
    ensures
        forall|i: int| 0 <= i < dims.len() ==> #[trigger] dims[i] >= 0,
{
    shape::element_count_is_the_product(text::ints_of_i32(dims));
    assert forall|i: int| 0 <= i < dims.len() implies #[trigger] dims[i] >= 0 by {
        assert(text::ints_of_i32(dims)[i] >= 0);
    }
}

/// A slice of a counted shape is counted.
proof fn lemma_sliced_counts(dims: Seq<i32>, ranges: Seq<Range<usize>>)
    requires
        shape::element_count(text::ints_of_i32(dims)) is Ok,
        ranges.len() <= dims.len(),
        ranges_valid(dims, ranges),
    ensures
        shape::element_count(text::ints_of_i32(sliced_dims(dims, ranges))) is Ok,
{
    let small = text::ints_of_i32(sliced_dims(dims, ranges));
    let large = text::ints_of_i32(dims);
    lemma_counted_dims(dims);
    assert forall|i: int| 0 <= i < small.len() implies 0 <= #[trigger] small[i] <= large[i] by {
        assert(dims[i] >= 0);
        if i < ranges.len() {
            assert(range_valid(dims, ranges, i));
        }
    }
    lemma_smaller_counts(small, large, small.len() as int);
}

impl Tensor {
    /// A borrowed view with a different shape; no allocation or copy.
    pub fn view(&self, shape: &[usize]) -> (r: Result<TensorView<'_>, TensorError>)
        ensures
            match r {
                Ok(v) => self.admits_view(shape@) && v.is_view(*self, 0, shape@),
                Err(e) => self.refuses_view(shape@, e),
            },
    {
        match self.validate_view_shape(shape) {
            Ok(()) => {
                let dims = to_i32_dims(shape);
                let strides = shape::contiguous_strides(dims.as_slice());
                proof {
                    use_type_invariant(self);
                    lemma_dims_fit(shape@);
                }
                Ok(
                    TensorView {
                        base: self,
                        offset_bytes: 0,
                        shape: dims,
                        strides,
                        spec_ptr: self.allocation.spec_ptr(),
                    },
                )
            },
            Err(e) => Err(e),
        }
    }

    /// Slicing by `ranges` stays within machine integers.
    pub open spec fn slice_fits(self, ranges: Seq<Range<usize>>) -> bool {
        slice_fits(
            self.dims(),
            self.steps(),
            ranges,
            self.elem_size(),
            0,
            self.backing().spec_address() as int,
        )
    }

    /// Whether slicing by `ranges` stays within machine integers.
    pub fn can_slice(&self, ranges: &[Range<usize>]) -> (r: bool)
        ensures
            r == self.slice_fits(ranges@),
    {
        proof {
            use_type_invariant(self);
            lemma_counted_dims(self.dims());
        }
        slice_in_range(
            self.shape.as_slice(),
            self.strides.as_slice(),
            ranges,
            self.dtype.size(),
            0,
            self.allocation.spec_ptr(),
        )
    }

    /// Slices the tensor along its leading axes. Strides are kept; no copy.
    pub fn slice(&self, ranges: &[Range<usize>]) -> (r: Result<TensorView<'_>, TensorError>)
        requires
            self.slice_fits(ranges@),
        ensures
            if ranges@.len() > self.dims().len() {
                r == Err::<TensorView<'_>, TensorError>(TensorError::SliceRank)
            } else if !ranges_valid(self.dims(), ranges@) {
                r == Err::<TensorView<'_>, TensorError>(TensorError::SliceBounds)
            } else {
                r matches Ok(v) && v.is_slice(*self, 0, self.dims(), self.steps(), ranges@)
            },
    {
        proof {
            use_type_invariant(self);
            lemma_counted_dims(self.dims());
        }
        let size = self.dtype.size();
        match slice_parts(
            self.shape.as_slice(),
            self.strides.as_slice(),
            ranges,
            size,
            0,
            self.allocation.spec_ptr(),
        ) {
            Ok((offset, dims)) => {
                proof {
                    lemma_sliced_counts(self.dims(), ranges@);
                    lemma_scaled_offset(offset as int, size as int);
                }
                let offset_bytes = offset * size;
                Ok(
                    TensorView {
                        base: self,
                        offset_bytes,
                        shape: dims,
                        strides: shape::copy_i32(self.strides.as_slice()),
                        spec_ptr: self.allocation.spec_ptr() + offset_bytes as u64,
                    },
                )
            },
            Err(e) => Err(e),
        }
    }
}

/// A legal view describes as many elements as its source.
pub proof fn a_view_keeps_the_element_count(source: Tensor, target: Seq<usize>)
    requires
        source.wf(),
        source.admits_view(target),
    ensures
        shape::product(text::ints_of_usize(target)) == shape::product(
            text::ints_of_i32(source.dims()),
        ),
{
    let (t, s) = (text::ints_of_usize(target), text::ints_of_i32(source.dims()));
    shape::element_count_is_the_product(t);
    shape::element_count_is_the_product(s);
    let (a, b, size) = (shape::product(t), shape::product(s), source.elem_size());
    assert(a == b) by (nonlinear_arith)
        requires
            a * size == b * size,
            size >= 1,
    ;
}

/// The start of each axis of a slice: that of its range, 0 on the others.
pub open spec fn slice_starts(rank: nat, ranges: Seq<Range<usize>>) -> Seq<int> {
    Seq::new(
        rank,
        |i: int|
            if i < ranges.len() {
                ranges[i].start as int
            } else {
                0
            },
    )
}

/// An index of a slice, moved by the starts of its ranges, is an index of the
/// source, and addresses the same element there: slicing selects elements and
/// copies none.
pub proof fn a_slice_addresses_source_elements(
    index: Seq<int>,
    dims: Seq<i32>,
    strides: Seq<i32>,
    ranges: Seq<Range<usize>>,
)
    requires
        dims.len() == strides.len(),
        ranges.len() <= dims.len(),
        ranges_valid(dims, ranges),
        shape::in_shape(index, sliced_dims(dims, ranges)),
    ensures
        ({
            let starts = slice_starts(dims.len(), ranges);
            let moved = Seq::new(dims.len(), |i: int| index[i] + starts[i]);
            &&& shape::in_shape(moved, dims)
            &&& shape::offset_of(moved, strides) == start_offset(
                strides,
                ranges,
                ranges.len() as int,
            ) + shape::offset_of(index, strides)
        }),
{
    let starts = slice_starts(dims.len(), ranges);
    let moved = Seq::new(dims.len(), |i: int| index[i] + starts[i]);
    assert forall|i: int| 0 <= i < dims.len() implies 0 <= #[trigger] moved[i] < dims[i] by {
        assert(0 <= index[i] < sliced_dims(dims, ranges)[i]);
        if i < ranges.len() {
            assert(range_valid(dims, ranges, i));
        }
    }
    lemma_moved_offset(index, moved, strides, ranges, dims.len() as int);
    assert(index.take(dims.len() as int) =~= index);
    assert(moved.take(dims.len() as int) =~= moved);
}

proof fn lemma_moved_offset(
    index: Seq<int>,
    moved: Seq<int>,
    strides: Seq<i32>,
    ranges: Seq<Range<usize>>,
    n: int,
)
    requires
        0 <= n <= index.len(),
        index.len() == strides.len(),
        moved.len() == index.len(),
        ranges.len() <= index.len(),
        forall|i: int|
            0 <= i < index.len() ==> #[trigger] moved[i] == index[i] + slice_starts(
                index.len(),
                ranges,
            )[i],
    ensures
        shape::offset_of(moved.take(n), strides) == start_offset(
            strides,
            ranges,
            if n < ranges.len() {
                n
            } else {
                ranges.len() as int
            },
        ) + shape::offset_of(index.take(n), strides),
    decreases n,
{
    if n > 0 {
        lemma_moved_offset(index, moved, strides, ranges, n - 1);
        assert(index.take(n).drop_last() =~= index.take(n - 1));
        assert(moved.take(n).drop_last() =~= moved.take(n - 1));
        let (x, a, t) = (
            index[n - 1],
            slice_starts(index.len(), ranges)[n - 1],
            strides[n - 1] as int,
        );
        assert(moved[n - 1] == x + a);
        assert((x + a) * t == x * t + a * t) by (nonlinear_arith);
        if n > ranges.len() {
            assert(a * t == 0) by (nonlinear_arith)
                requires
                    a == 0,
            ;
        }
    } else {
        assert(index.take(0) =~= Seq::empty());
        assert(moved.take(0) =~= Seq::empty());
    }
}

/// Metadata describes storage exactly when each dimension has a stride, the shape can
/// be counted, and its elements take up all of the storage.
pub proof fn metadata_accounts_for_all_bytes(
    dims: Seq<i32>,
    strides: Seq<i32>,
    size: int,
    storage_bytes: int,
)
    requires
        storage_bytes <= usize::MAX,
    ensures
        valid_metadata(dims, strides, size, storage_bytes) <==> dims.len() == strides.len()
            && shape::element_count(text::ints_of_i32(dims)) is Ok && shape::element_count(
            text::ints_of_i32(dims),
        )->Ok_0 * size == storage_bytes,
{
}

/// Dimensions that fit `i32` are kept.
pub proof fn small_dimensions_are_kept(target: Seq<usize>)
    ensures
        as_i32_dims(target).len() == target.len(),
        forall|i: int|
            0 <= i < target.len() && target[i] <= 0x7FFF_FFFF ==> #[trigger] as_i32_dims(target)[i]
                == target[i],
{
}

/// A foreign owner covers metadata exactly when the shape can be counted in bytes, its
/// extent exists, and is no longer than the owner; every element then lies inside it.
pub proof fn a_covering_owner_holds_every_element(
    dims: Seq<i32>,
    strides: Seq<i32>,
    size: int,
    owner_bytes: int,
    index: Seq<int>,
)
    requires
        size >= 1,
    ensures
        foreign_covers(dims, strides, size, owner_bytes) <==> (shape::byte_count(
            text::ints_of_i32(dims),
            size,
        ) is Ok && shape::addressable(dims, strides, size) is Ok && shape::addressable(
            dims,
            strides,
            size,
        )->Ok_0 <= owner_bytes),
        foreign_covers(dims, strides, size, owner_bytes) && shape::in_shape(index, dims) ==> 0
            <= shape::offset_of(index, strides) * size && (shape::offset_of(index, strides) + 1)
            * size <= owner_bytes,
{
    if foreign_covers(dims, strides, size, owner_bytes) && shape::in_shape(index, dims) {
        shape::elements_lie_in_the_extent(index, dims, strides, size);
    }
}

/// Bytes can be read as another type exactly when the layout is contiguous, the new
/// shape has the same number of bytes, the storage is aligned for the type, and every
/// dimension fits `i32`; a refusal says which of these fails.
pub proof fn bytes_are_reread_where_size_and_alignment_agree(
    tensor: Tensor,
    dtype: DTypeId,
    target: Seq<usize>,
    r: Result<(), TensorError>,
)
    requires
        tensor.reinterpret_result(dtype, target, r),
    ensures
        r is Ok <==> {
            &&& tensor.steps() == shape::row_major(text::ints_of_i32(tensor.dims()))
            &&& shape::byte_count(text::ints_of_usize(target), dtype.size_spec() as int) == Ok::<
                int,
                TensorError,
            >(tensor.backing().bytes())
            &&& tensor.backing().spec_address() as int % dtype.size_spec() as int == 0
            &&& forall|i: int| 0 <= i < target.len() ==> #[trigger] target[i] <= 0x7FFF_FFFF
        },
        r == Err::<(), TensorError>(TensorError::NonContiguousReinterpret) <==> tensor.steps()
            != shape::row_major(text::ints_of_i32(tensor.dims())),
        r == Err::<(), TensorError>(TensorError::ReinterpretSize) ==> shape::byte_count(
            text::ints_of_usize(target),
            dtype.size_spec() as int,
        ) != Ok::<int, TensorError>(tensor.backing().bytes()),
        r == Err::<(), TensorError>(TensorError::ReinterpretAlignment) ==> shape::byte_count(
            text::ints_of_usize(target),
            dtype.size_spec() as int,
        ) == Ok::<int, TensorError>(tensor.backing().bytes())
            && tensor.backing().spec_address() as int % dtype.size_spec() as int != 0,
        r matches Err(TensorError::DimensionTooLarge { dimension }) ==> dimension > 0x7FFF_FFFF
            && target.contains(dimension),
{
    shape::counting_fails_in_two_ways(text::ints_of_usize(target));
    if r is Err && r->Err_0 is DimensionTooLarge {
        let i = choose|i: int| #[trigger]
            shape::first_too_large(target, i) && r->Err_0 == (TensorError::DimensionTooLarge {
                dimension: target[i],
            });
        assert(target[i] == r->Err_0->DimensionTooLarge_dimension);
    }
}

/// Ranges are valid exactly when each is ordered and ends inside its axis.
pub proof fn ranges_stay_inside_their_axes(dims: Seq<i32>, ranges: Seq<Range<usize>>)
    ensures
        ranges_valid(dims, ranges) <==> forall|i: int|
            0 <= i < ranges.len() ==> (#[trigger] ranges[i]).start <= ranges[i].end
                && ranges[i].end <= dims[i],
{
    if ranges_valid(dims, ranges) {
        assert forall|i: int| 0 <= i < ranges.len() implies (#[trigger] ranges[i]).start
            <= ranges[i].end && ranges[i].end <= dims[i] by {
            assert(range_valid(dims, ranges, i));
        }
    }
    if forall|i: int|
        0 <= i < ranges.len() ==> (#[trigger] ranges[i]).start <= ranges[i].end && ranges[i].end
            <= dims[i] {
        assert forall|i: int| 0 <= i < ranges.len() implies range_valid(dims, ranges, i) by {
            assert(ranges[i].start <= ranges[i].end);
        }
    }
}

/// A slice keeps as many elements of a sliced axis as its range is long, and all of
/// the others.
pub proof fn a_slice_is_as_long_as_its_ranges(dims: Seq<i32>, ranges: Seq<Range<usize>>, i: int)
    requires
        ranges.len() <= dims.len(),
        ranges_valid(dims, ranges),
        0 <= i < dims.len(),
    ensures
        sliced_dims(dims, ranges).len() == dims.len(),
        i < ranges.len() ==> sliced_dims(dims, ranges)[i] == ranges[i].end - ranges[i].start,
        i >= ranges.len() ==> sliced_dims(dims, ranges)[i] == dims[i],
{
    if i < ranges.len() {
        assert(range_valid(dims, ranges, i));
    }
}

/// A slice starts where its ranges do: let `offsets` add up `start * stride` over the
/// leading axes.
pub proof fn a_slice_starts_where_its_ranges_do(
    strides: Seq<i32>,
    ranges: Seq<Range<usize>>,
    offsets: Seq<int>,
    n: int,
)
    requires
        0 <= n <= ranges.len(),
        offsets.len() == ranges.len() + 1,
        offsets[0] == 0,
        forall|k: int|
            0 <= k < ranges.len() ==> offsets[k + 1] == offsets[k] + (#[trigger] ranges[k]).start
                * strides[k],
    ensures
        start_offset(strides, ranges, n) == offsets[n],
    decreases n,
{
    if n > 0 {
        a_slice_starts_where_its_ranges_do(strides, ranges, offsets, n - 1);
        assert(offsets[(n - 1) + 1] == offsets[n - 1] + ranges[n - 1].start * strides[n - 1]);
    }
}

/// A slice by valid ranges stays within machine integers exactly when no sliced axis
/// that starts beyond 0 has a negative stride, and no offset, in elements, in bytes or
/// from the base address, is too large. More ranges than axes are no obstacle: they are
/// refused.
pub proof fn a_slice_fits_where_its_offsets_do(
    dims: Seq<i32>,
    strides: Seq<i32>,
    ranges: Seq<Range<usize>>,
    size: int,
    base_offset: int,
    base_ptr: int,
    offsets: Seq<int>,
)
    requires
        ranges_valid(dims, ranges),
        offsets.len() == ranges.len() + 1,
        offsets[0] == 0,
        forall|k: int|
            0 <= k < ranges.len() ==> offsets[k + 1] == offsets[k] + (#[trigger] ranges[k]).start
                * strides[k],
    ensures
        ranges.len() > dims.len() ==> slice_fits(dims, strides, ranges, size, base_offset, base_ptr),
        ranges.len() <= dims.len() ==> (slice_fits(
            dims,
            strides,
            ranges,
            size,
            base_offset,
            base_ptr,
        ) <==> {
            &&& forall|k: int|
                0 <= k < ranges.len() ==> ((#[trigger] ranges[k]).start == 0 || strides[k] >= 0)
                    && offsets[k + 1] <= usize::MAX
            &&& base_offset + offsets.last() * size <= usize::MAX
            &&& base_ptr + (base_offset + offsets.last() * size) <= u64::MAX
        }),
{
    a_slice_starts_where_its_ranges_do(strides, ranges, offsets, ranges.len() as int);
    if ranges.len() <= dims.len() {
        if slice_fits(dims, strides, ranges, size, base_offset, base_ptr) {
            assert forall|k: int| 0 <= k < ranges.len() implies ((#[trigger] ranges[k]).start == 0
                || strides[k] >= 0) && offsets[k + 1] <= usize::MAX by {
                assert(valid_through(dims, ranges, k));
                assert(axis_fits(strides, ranges, k));
                a_slice_starts_where_its_ranges_do(strides, ranges, offsets, k + 1);
            }
        }
        if forall|k: int|
            0 <= k < ranges.len() ==> ((#[trigger] ranges[k]).start == 0 || strides[k] >= 0)
                && offsets[k + 1] <= usize::MAX {
            assert forall|n: int|
                0 <= n < ranges.len() && valid_through(dims, ranges, n) implies #[trigger] axis_fits(
                strides,
                ranges,
                n,
            ) by {
                assert(ranges[n].start == 0 || strides[n] >= 0);
                a_slice_starts_where_its_ranges_do(strides, ranges, offsets, n + 1);
            }
        }
    }
}

/// Where a range is invalid the axes from the first such one on do not matter: slicing
/// fits exactly when the axes before it do.
pub proof fn only_axes_before_an_invalid_range_must_fit(
    dims: Seq<i32>,
    strides: Seq<i32>,
    ranges: Seq<Range<usize>>,
    size: int,
    base_offset: int,
    base_ptr: int,
    p: int,
)
    requires
        0 <= p < ranges.len() <= dims.len(),
        !(ranges[p].start <= ranges[p].end <= dims[p]),
        forall|i: int|
            0 <= i < p ==> (#[trigger] ranges[i]).start <= ranges[i].end && ranges[i].end <= dims[i],
    ensures
        slice_fits(dims, strides, ranges, size, base_offset, base_ptr) <==> forall|n: int|
            0 <= n < p ==> ((#[trigger] ranges[n]).start == 0 || strides[n] >= 0) && start_offset(
                strides,
                ranges,
                n + 1,
            ) <= usize::MAX,
{
    assert(!range_valid(dims, ranges, p));
    assert(!ranges_valid(dims, ranges));
    assert forall|n: int| 0 <= n < p implies valid_through(dims, ranges, n) by {
        assert forall|i: int| 0 <= i <= n implies range_valid(dims, ranges, i) by {
            assert(ranges[i].start <= ranges[i].end);
        }
    }
    if slice_fits(dims, strides, ranges, size, base_offset, base_ptr) {
        assert forall|n: int| 0 <= n < p implies ((#[trigger] ranges[n]).start == 0 || strides[n]
            >= 0) && start_offset(strides, ranges, n + 1) <= usize::MAX by {
            assert(valid_through(dims, ranges, n));
            assert(axis_fits(strides, ranges, n));
        }
    }
    if forall|n: int|
        0 <= n < p ==> ((#[trigger] ranges[n]).start == 0 || strides[n] >= 0) && start_offset(
            strides,
            ranges,
            n + 1,
        ) <= usize::MAX {
        assert forall|n: int|
            0 <= n < ranges.len() && valid_through(dims, ranges, n) implies #[trigger] axis_fits(
            strides,
            ranges,
            n,
        ) by {
            if n >= p {
                assert(range_valid(dims, ranges, p));
            }
            assert(ranges[n].start == 0 || strides[n] >= 0);
        }
    }
}

/// A slice addresses the bytes of its source: the element at an index lies where the
/// source has it at the index moved by the starts of the ranges.
pub proof fn a_slice_reads_the_bytes_of_its_source(
    view: TensorView<'_>,
    base: Tensor,
    offset: int,
    dims: Seq<i32>,
    strides: Seq<i32>,
    ranges: Seq<Range<usize>>,
    index: Seq<int>,
    moved: Seq<int>,
)
    requires
        view.is_slice(base, offset, dims, strides, ranges),
        dims.len() == strides.len(),
        ranges.len() <= dims.len(),
        ranges_valid(dims, ranges),
        shape::in_shape(index, view.dims()),
        moved.len() == index.len(),
        forall|i: int|
            0 <= i < index.len() ==> #[trigger] moved[i] == if i < ranges.len() {
                index[i] + ranges[i].start
            } else {
                index[i]
            },
    ensures
        view.source() == base,
        view.steps() == strides,
        view.spec_address() == base.backing().spec_address() + view.offset(),
        shape::in_shape(moved, dims),
        view.offset() + shape::offset_of(index, view.steps()) * base.elem_size() == offset
            + shape::offset_of(moved, strides) * base.elem_size(),
{
    a_slice_addresses_source_elements(index, dims, strides, ranges);
    let starts = slice_starts(dims.len(), ranges);
    let shifted = Seq::new(dims.len(), |i: int| index[i] + starts[i]);
    assert(shifted =~= moved);
    let (a, b, size) = (
        start_offset(strides, ranges, ranges.len() as int),
        shape::offset_of(index, strides),
        base.elem_size(),
    );
    assert((a + b) * size == a * size + b * size) by (nonlinear_arith);
}

/// A view is its base from the offset on, under the new dimensions with contiguous
/// strides; it is specialized as the base is.
pub proof fn a_view_has_the_new_dimensions(
    view: TensorView<'_>,
    base: Tensor,
    offset: int,
    target: Seq<usize>,
    i: int,
)
    requires
        view.is_view(base, offset, target),
        0 <= i < target.len(),
        target[i] <= 0x7FFF_FFFF,
    ensures
        view.source() == base,
        view.offset() == offset,
        view.dims().len() == target.len(),
        view.dims()[i] == target[i],
        view.steps() == shape::row_major(text::ints_of_i32(view.dims())),
        view.spec_address() == base.backing().spec_address(),
{
}

/// A reshaped tensor has the new dimensions, contiguous, over the same storage with
/// the same element type.
pub proof fn a_reshaped_tensor_shares_the_storage(
    source: Tensor,
    target: Seq<usize>,
    t: Tensor,
    i: int,
)
    requires
        reshaped(source, target, t),
        0 <= i < target.len(),
    ensures
        t.backing() == source.backing(),
        t.elem() == source.elem(),
        t.dims().len() == target.len(),
        t.dims()[i] == target[i],
        t.steps() == shape::row_major(text::ints_of_i32(t.dims())),
        source.steps() == shape::row_major(text::ints_of_i32(source.dims())),
        shape::byte_count(text::ints_of_usize(target), t.elem().size_spec() as int)
            == shape::byte_count(text::ints_of_i32(source.dims()), t.elem().size_spec() as int),
{
    assert(target[i] <= i32::MAX);
}

/// Tensors and views admit and refuse shapes by their own layout and element size.
pub proof fn a_view_is_judged_by_the_layout(
    tensor: Tensor,
    view: TensorView<'_>,
    target: Seq<usize>,
    e: TensorError,
)
    ensures
        tensor.admits_view(target) <==> shape::view_result(
            tensor.dims(),
            tensor.steps(),
            target,
            tensor.elem().size_spec() as int,
            Ok(()),
        ),
        tensor.refuses_view(target, e) <==> shape::view_result(
            tensor.dims(),
            tensor.steps(),
            target,
            tensor.elem().size_spec() as int,
            Err(e),
        ),
        view.admits_view(target) <==> shape::view_result(
            view.dims(),
            view.steps(),
            target,
            view.source().elem().size_spec() as int,
            Ok(()),
        ),
        view.refuses_view(target, e) <==> shape::view_result(
            view.dims(),
            view.steps(),
            target,
            view.source().elem().size_spec() as int,
            Err(e),
        ),
{
}

/// A tensor is well formed exactly when each dimension has a stride and its elements
/// take up all of its storage; a view when it lies over such a tensor, each dimension has
/// a stride, its shape can be counted, and its first element has an address.
pub proof fn well_formed_metadata_describes_the_storage(tensor: Tensor, view: TensorView<'_>)
    requires
        tensor.backing().bytes() <= usize::MAX,
    ensures
        tensor.wf() <==> tensor.dims().len() == tensor.steps().len() && shape::element_count(
            text::ints_of_i32(tensor.dims()),
        ) is Ok && shape::element_count(text::ints_of_i32(tensor.dims()))->Ok_0
            * tensor.elem().size_spec() == tensor.backing().bytes(),
        view.wf() <==> view.source().wf() && view.dims().len() == view.steps().len()
            && shape::element_count(text::ints_of_i32(view.dims())) is Ok && 0 <= view.offset()
            && view.source().backing().spec_address() + view.offset() <= u64::MAX,
        tensor.contiguous() <==> tensor.steps() == shape::row_major(
            text::ints_of_i32(tensor.dims()),
        ),
        tensor.shares_storage(view.source()) <==> tensor.backing() == view.source().backing()
            && tensor.elem() == view.source().elem(),
{
}

/// A reinterpretation is refused for the first reason that applies: a layout that is not
/// contiguous, a shape that cannot be counted in bytes, another size, a stricter
/// alignment, and then a dimension beyond `i32`.
pub proof fn reinterpretations_are_refused_in_order(
    tensor: Tensor,
    dtype: DTypeId,
    target: Seq<usize>,
    r: Result<(), TensorError>,
)
    requires
        tensor.reinterpret_result(dtype, target, r),
    ensures
        ({
            let bytes = shape::byte_count(text::ints_of_usize(target), dtype.size_spec() as int);
            let plain = tensor.steps() == shape::row_major(text::ints_of_i32(tensor.dims()));
            let sized = plain && bytes is Ok && bytes->Ok_0 == tensor.backing().bytes();
            let aligned = tensor.backing().spec_address() as int % dtype.size_spec() as int == 0;
            &&& !plain ==> r == Err::<(), TensorError>(TensorError::NonContiguousReinterpret)
            &&& plain && bytes is Err ==> r == Err::<(), TensorError>(bytes->Err_0)
            &&& plain && bytes is Ok && !sized ==> r == Err::<(), TensorError>(
                TensorError::ReinterpretSize,
            )
            &&& sized && !aligned ==> r == Err::<(), TensorError>(TensorError::ReinterpretAlignment)
            &&& sized && aligned && r is Err ==> r->Err_0 is DimensionTooLarge
        }),
{
}

/// Dimensions beyond `i32` keep their low 32 bits.
pub proof fn large_dimensions_keep_their_low_bits(target: Seq<usize>, i: int)
    requires
        0 <= i < target.len(),
    ensures
        as_i32_dims(target)[i] as u32 == target[i] as u32,
{
    let x = target[i];
    assert((x as i32) as u32 == x as u32) by (bit_vector);
}

} // verus!
