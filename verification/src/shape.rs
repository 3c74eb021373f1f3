//! Shape arithmetic: element counts, row-major strides, addressable extents and
//! the launch grid of a partition.
use vstd::prelude::*;
use vstd::wrapping::i32_specs;

use crate::error::TensorError;
use crate::text;

verus! {

/// The product of a list of integers; 1 where the list is empty.
pub open spec fn product(s: Seq<int>) -> int
    decreases s.len(),
{
    if s.len() == 0 {
        1
    } else {
        product(s.drop_last()) * s.last()
    }
}

/// The element count of the first `n` dimensions, multiplied up one at a time:
/// a negative dimension or a product beyond `usize` stops it.
pub open spec fn count_prefix(dims: Seq<int>, n: int) -> Result<int, TensorError>
    decreases n,
{
    if n <= 0 {
        Ok(1)
    } else {
        match count_prefix(dims, n - 1) {
            Ok(count) => if dims[n - 1] < 0 {
                Err(TensorError::NegativeDimension)
            } else if count * dims[n - 1] > usize::MAX {
                Err(TensorError::ShapeOverflow)
            } else {
                Ok(count * dims[n - 1])
            },
            Err(e) => Err(e),
        }
    }
}

/// The element count of a shape.
pub open spec fn element_count(dims: Seq<int>) -> Result<int, TensorError> {
    count_prefix(dims, dims.len() as int)
}

/// The byte size of a shape with elements of `size` bytes.
pub open spec fn byte_count(dims: Seq<int>, size: int) -> Result<int, TensorError> {
    match element_count(dims) {
        Ok(count) => if count * size > usize::MAX {
            Err(TensorError::ByteSizeOverflow)
        } else {
            Ok(count * size)
        },
        Err(e) => Err(e),
    }
}

/// Row-major strides: the stride of an axis is the product of the dimensions
/// after it, wrapped into `i32`.
pub open spec fn row_major(dims: Seq<int>) -> Seq<i32> {
    Seq::new(dims.len(), |i: int| i32_specs::signed_crop(product(dims.skip(i + 1))))
}

/// Row-major strides of a shape, each of which fits `i32`.
pub open spec fn row_major_fits(shape: Seq<i32>, strides: Seq<i32>) -> bool {
    &&& strides == row_major(text::ints_of_i32(shape))
    &&& forall|i: int|
        0 <= i < shape.len() ==> #[trigger] product(text::ints_of_i32(shape).skip(i + 1))
            <= i32::MAX
}

/// `ceil(a / b)` for a positive `b`.
pub open spec fn ceil_div(a: int, b: int) -> int {
    (a + b - 1) / b
}

/// The same integer, as a result and as an error.
pub open spec fn agrees(r: Result<usize, TensorError>, s: Result<int, TensorError>) -> bool {
    match (r, s) {
        (Ok(x), Ok(y)) => x == y,
        (Err(e), Err(f)) => e == f,
        _ => false,
    }
}

proof fn lemma_product_front(s: Seq<int>)
    requires
        s.len() > 0,
    ensures
        product(s) == s[0] * product(s.skip(1)),
    decreases s.len(),
{
    if s.len() == 1 {
        assert(s.drop_last() =~= Seq::empty());
        assert(s.skip(1) =~= Seq::empty());
        assert(product(s.drop_last()) == 1);
    } else {
        lemma_product_front(s.drop_last());
        assert(s.skip(1).drop_last() =~= s.drop_last().skip(1));
        assert(s.skip(1).last() == s.last());
        let (a, b, c) = (s[0], product(s.drop_last().skip(1)), s.last());
        assert((a * b) * c == a * (b * c)) by (nonlinear_arith);
    }
}

/// Cropping twice is cropping once.
proof fn lemma_crop_mul(p: int, d: int)
    ensures
        i32_specs::signed_crop(i32_specs::signed_crop(p) * d) == i32_specs::signed_crop(p * d),
{
    let m = 0x1_0000_0000int;
    let c = i32_specs::signed_crop(p) as int;
    vstd::arithmetic::div_mod::lemma_mod_bound(p, m);
    assert(c % m == p % m) by {
        vstd::arithmetic::div_mod::lemma_mod_twice(p, m);
        vstd::arithmetic::div_mod::lemma_mod_sub_multiples_vanish(p % m, m);
    }
    vstd::arithmetic::div_mod::lemma_mul_mod_noop_left(c, d, m);
    vstd::arithmetic::div_mod::lemma_mul_mod_noop_left(p, d, m);
}

/// Cropping keeps what `i32` holds.
proof fn lemma_crop_small(x: int)
    requires
        i32::MIN <= x <= i32::MAX,
    ensures
        i32_specs::signed_crop(x) == x,
{
    let m = 0x1_0000_0000int;
    if x >= 0 {
        vstd::arithmetic::div_mod::lemma_small_mod(x as nat, m as nat);
    } else {
        vstd::arithmetic::div_mod::lemma_mod_add_multiples_vanish(x, m);
        vstd::arithmetic::div_mod::lemma_small_mod((x + m) as nat, m as nat);
    }
}

proof fn lemma_count_product(dims: Seq<int>, n: int)
    requires
        0 <= n <= dims.len(),
        count_prefix(dims, n) is Ok,
    ensures
        count_prefix(dims, n) == Ok::<int, TensorError>(product(dims.take(n))),
        product(dims.take(n)) >= 0,
    decreases n,
{
    if n > 0 {
        lemma_count_product(dims, n - 1);
        assert(dims.take(n).drop_last() =~= dims.take(n - 1));
        let (p, d) = (product(dims.take(n - 1)), dims[n - 1]);
        assert(p * d >= 0) by (nonlinear_arith)
            requires
                p >= 0,
                d >= 0,
        ;
    }
}

/// A counted shape holds the product of its dimensions, and none is negative.
pub proof fn element_count_is_the_product(dims: Seq<int>)
    requires
        element_count(dims) is Ok,
    ensures
        element_count(dims) == Ok::<int, TensorError>(product(dims)),
        0 <= product(dims) <= usize::MAX,
        forall|i: int| 0 <= i < dims.len() ==> #[trigger] dims[i] >= 0,
{
    lemma_count_product(dims, dims.len() as int);
    assert(dims.take(dims.len() as int) =~= dims);
    lemma_counted_dims(dims, dims.len() as int);
    if dims.len() > 0 {
        assert(product(dims) <= usize::MAX);
    }
}

proof fn lemma_counted_dims(dims: Seq<int>, n: int)
    requires
        0 <= n <= dims.len(),
        count_prefix(dims, n) is Ok,
    ensures
        forall|i: int| 0 <= i < n ==> #[trigger] dims[i] >= 0,
    decreases n,
{
    if n > 0 {
        lemma_counted_dims(dims, n - 1);
    }
}

proof fn lemma_count_none(dims: Seq<int>, m: int, n: int)
    requires
        0 <= m <= n,
        count_prefix(dims, m) is Err,
    ensures
        count_prefix(dims, n) == count_prefix(dims, m),
    decreases n,
{
    if m < n {
        lemma_count_none(dims, m, n - 1);
    }
}

/// Whether two lists of `i32` are equal.
pub fn same_i32(a: &[i32], b: &[i32]) -> (r: bool)
    ensures
        r == (a@ == b@),
{
    if a.len() != b.len() {
        return false;
    }
    let mut i: usize = 0;
    while i < a.len()
        invariant
            i <= a.len(),
            a.len() == b.len(),
            forall|k: int| 0 <= k < i ==> a@[k] == b@[k],
        decreases a.len() - i,
    {
        if a[i] != b[i] {
            return false;
        }
        i += 1;
    }
    assert(a@ =~= b@);
    true
}

/// A copy of a list of `i32`.
pub fn copy_i32(s: &[i32]) -> (r: Vec<i32>)
    ensures
        r@ == s@,
{
    let mut out: Vec<i32> = Vec::new();
    let mut i: usize = 0;
    while i < s.len()
        invariant
            i <= s.len(),
            out@ == s@.take(i as int),
        decreases s.len() - i,
    {
        out.push(s[i]);
        assert(s@.take(i + 1) =~= s@.take(i as int).push(s@[i as int]));
        i += 1;
    }
    assert(s@.take(i as int) =~= s@);
    out
}

/// A copy of a list of `usize`.
pub fn copy_usize(s: &[usize]) -> (r: Vec<usize>)
    ensures
        r@ == s@,
{
    let mut out: Vec<usize> = Vec::new();
    let mut i: usize = 0;
    while i < s.len()
        invariant
            i <= s.len(),
            out@ == s@.take(i as int),
        decreases s.len() - i,
    {
        out.push(s[i]);
        assert(s@.take(i + 1) =~= s@.take(i as int).push(s@[i as int]));
        i += 1;
    }
    assert(s@.take(i as int) =~= s@);
    out
}

/// Row-major contiguous strides for a shape. Products beyond `i32` wrap.
pub fn contiguous_strides(shape: &[i32]) -> (r: Vec<i32>)
    ensures
        r@ == row_major(text::ints_of_i32(shape@)),
{
    let ghost dims = text::ints_of_i32(shape@);
    let n = shape.len();
    let mut strides: Vec<i32> = Vec::new();
    let mut k: usize = 0;
    while k < n
        invariant
            k <= n,
            strides@.len() == k,
        decreases n - k,
    {
        strides.push(0);
        k += 1;
    }
    let mut stride: i32 = 1;
    let mut i: usize = n;
    proof {
        assert(dims.skip(n as int) =~= Seq::empty());
        assert(product(dims.skip(n as int)) == 1);
        lemma_crop_small(1);
    }
    while i > 0
        invariant
            n == shape@.len(),
            dims == text::ints_of_i32(shape@),
            i <= n,
            strides@.len() == n,
            stride == i32_specs::signed_crop(product(dims.skip(i as int))),
            forall|j: int| i <= j < n ==> #[trigger] strides@[j] == row_major(dims)[j],
        decreases i,
    {
        i -= 1;
        strides.set(i, stride);
        proof {
            let s = dims.skip(i as int);
            lemma_product_front(s);
            assert(s.skip(1) =~= dims.skip(i + 1));
            lemma_crop_mul(product(dims.skip(i + 1)), dims[i as int]);
            assert(s[0] == dims[i as int]);
            let (p, d) = (product(dims.skip(i + 1)), dims[i as int]);
            assert(d * p == p * d) by (nonlinear_arith);
        }
        stride = stride.wrapping_mul(shape[i]);
    }
    assert(strides@ =~= row_major(dims));
    strides
}

/// The logical element count of a shape, overflow-checked.
pub fn checked_num_elements(shape: &[usize]) -> (r: Result<usize, TensorError>)
    ensures
        agrees(r, element_count(text::ints_of_usize(shape@))),
{
    let ghost dims = text::ints_of_usize(shape@);
    let mut count: usize = 1;
    let mut i: usize = 0;
    while i < shape.len()
        invariant
            i <= shape.len(),
            dims == text::ints_of_usize(shape@),
            count_prefix(dims, i as int) == Ok::<int, TensorError>(count as int),
        decreases shape.len() - i,
    {
        match count.checked_mul(shape[i]) {
            Some(next) => {
                count = next;
            },
            None => {
                proof {
                    assert(count_prefix(dims, i + 1) == Err::<int, TensorError>(
                        TensorError::ShapeOverflow,
                    ));
                    lemma_count_none(dims, i + 1, dims.len() as int);
                }
                return Err(TensorError::ShapeOverflow);
            },
        }
        i += 1;
    }
    Ok(count)
}

/// The element count of an `i32` shape, rejecting negative dimensions.
pub fn checked_num_elements_i32(shape: &[i32]) -> (r: Result<usize, TensorError>)
    ensures
        agrees(r, element_count(text::ints_of_i32(shape@))),
{
    let ghost dims = text::ints_of_i32(shape@);
    let mut count: usize = 1;
    let mut i: usize = 0;
    while i < shape.len()
        invariant
            i <= shape.len(),
            dims == text::ints_of_i32(shape@),
            count_prefix(dims, i as int) == Ok::<int, TensorError>(count as int),
        decreases shape.len() - i,
    {
        let fault = if shape[i] < 0 {
            Some(TensorError::NegativeDimension)
        } else {
            match count.checked_mul(shape[i] as usize) {
                Some(next) => {
                    count = next;
                    None
                },
                None => Some(TensorError::ShapeOverflow),
            }
        };
        if let Some(e) = fault {
            proof {
                assert(count_prefix(dims, i + 1) == Err::<int, TensorError>(e));
                lemma_count_none(dims, i + 1, dims.len() as int);
            }
            return Err(e);
        }
        i += 1;
    }
    Ok(count)
}

/// The byte size of a counted shape, overflow-checked.
fn checked_bytes(count: Result<usize, TensorError>, size: usize) -> (r: Result<usize, TensorError>)
    ensures
        match count {
            Ok(n) => if n * size > usize::MAX {
                r == Err::<usize, TensorError>(TensorError::ByteSizeOverflow)
            } else {
                r == Ok::<usize, TensorError>((n * size) as usize)
            },
            Err(e) => r == Err::<usize, TensorError>(e),
        },
{
    match count {
        Ok(n) => match n.checked_mul(size) {
            Some(bytes) => Ok(bytes),
            None => Err(TensorError::ByteSizeOverflow),
        },
        Err(e) => Err(e),
    }
}

/// The byte size of `shape` with elements of `size` bytes.
pub fn num_bytes_of(shape: &[usize], size: usize) -> (r: Result<usize, TensorError>)
    ensures
        agrees(r, byte_count(text::ints_of_usize(shape@), size as int)),
{
    let count = checked_num_elements(shape);
    checked_bytes(count, size)
}

/// The byte size of an `i32` shape with elements of `size` bytes.
pub fn num_bytes_of_i32(shape: &[i32], size: usize) -> (r: Result<usize, TensorError>)
    ensures
        agrees(r, byte_count(text::ints_of_i32(shape@), size as int)),
{
    let count = checked_num_elements_i32(shape);
    checked_bytes(count, size)
}

/// The byte size of a shape with elements of type `T`, overflow-checked.
pub fn checked_num_bytes<T>(shape: &[usize]) -> (r: Result<usize, TensorError>)
    ensures
        agrees(r, byte_count(text::ints_of_usize(shape@), vstd::layout::size_of::<T>() as int)),
{
    num_bytes_of(shape, core::mem::size_of::<T>())
}

/// The byte size of an `i32` shape with elements of type `T`.
pub fn checked_num_bytes_i32<T>(shape: &[i32]) -> (r: Result<usize, TensorError>)
    ensures
        agrees(r, byte_count(text::ints_of_i32(shape@), vstd::layout::size_of::<T>() as int)),
{
    num_bytes_of_i32(shape, core::mem::size_of::<T>())
}

/// Every dimension is positive.
pub open spec fn all_positive(shape: Seq<i32>) -> bool {
    forall|i: int| 0 <= i < shape.len() ==> #[trigger] shape[i] > 0
}

/// The number of tiles along an axis.
pub open spec fn axis_tiles(shape: Seq<i32>, partition_shape: Seq<usize>, i: int) -> int {
    ceil_div(shape[i] as int, partition_shape[i] as int)
}

/// The launch grid of a partition: per axis the ceiling division of the extent
/// by the tile, 1 on the axes beyond the rank.
pub open spec fn grid_axis(shape: Seq<i32>, partition_shape: Seq<usize>, i: int) -> int {
    if i < shape.len() {
        axis_tiles(shape, partition_shape, i)
    } else {
        1
    }
}

/// The first axis below `n` whose tile leaves `u32`, `n` where there is none.
pub open spec fn first_large(partition_shape: Seq<usize>, i: int, n: int) -> int
    decreases n - i,
{
    if i >= n {
        n
    } else if partition_shape[i] > u32::MAX {
        i
    } else {
        first_large(partition_shape, i + 1, n)
    }
}

/// What [`partition_launch_grid`] returns: the first refusal that applies, in
/// order, or the grid.
pub open spec fn grid_result(
    shape: Seq<i32>,
    partition_shape: Seq<usize>,
    r: Result<(u32, u32, u32), TensorError>,
) -> bool {
    if !all_positive(shape) {
        r matches Err(TensorError::NonPositiveShape { shape: s }) && s@ == shape
    } else if partition_shape.len() != shape.len() {
        r matches Err(TensorError::PartitionRank { partition_shape: p, shape: s }) && p@
            == partition_shape && s@ == shape
    } else if partition_shape.contains(0) {
        r matches Err(TensorError::ZeroPartitionDimension { partition_shape: p }) && p@
            == partition_shape
    } else if shape.len() == 0 || shape.len() > 3 {
        r == Err::<(u32, u32, u32), TensorError>(TensorError::PartitionedRank)
    } else {
        let k = first_large(partition_shape, 0, shape.len() as int);
        if k < shape.len() {
            r == Err::<(u32, u32, u32), TensorError>(
                TensorError::PartitionDimensionTooLarge { dimension: partition_shape[k] },
            )
        } else {
            r matches Ok(grid) && grid.0 == grid_axis(shape, partition_shape, 0) && grid.1
                == grid_axis(shape, partition_shape, 1) && grid.2 == grid_axis(
                shape,
                partition_shape,
                2,
            )
        }
    }
}

proof fn lemma_ceil_div(a: int, b: int)
    requires
        a >= 1,
        b >= 1,
    ensures
        ceil_div(a, b) == (a - 1) / b + 1,
        1 <= ceil_div(a, b) <= a,
{
    vstd::arithmetic::div_mod::lemma_div_plus_one(a - 1, b);
    vstd::arithmetic::div_mod::lemma_div_nonincreasing(a - 1, b);
    vstd::arithmetic::div_mod::lemma_div_pos_is_pos(a - 1, b);
}

/// The tile count of axis `i`, or the refusal of a tile beyond `u32`.
fn axis_grid(shape: &[i32], partition_shape: &[usize], i: usize) -> (r: Result<u32, TensorError>)
    requires
        i < shape@.len(),
        shape@.len() == partition_shape@.len(),
        shape@[i as int] > 0,
        partition_shape@[i as int] > 0,
    ensures
        if partition_shape@[i as int] > u32::MAX {
            r == Err::<u32, TensorError>(
                TensorError::PartitionDimensionTooLarge { dimension: partition_shape@[i as int] },
            )
        } else {
            r matches Ok(n) && n == axis_tiles(shape@, partition_shape@, i as int)
        },
{
    let extent = shape[i] as u32;
    if partition_shape[i] > 4294967295 {
        return Err(TensorError::PartitionDimensionTooLarge { dimension: partition_shape[i] });
    }
    let tile = partition_shape[i] as u32;
    proof {
        lemma_ceil_div(extent as int, tile as int);
    }
    Ok((extent - 1) / tile + 1)
}

/// The launch grid of a partition binding: the ceiling division of every tensor
/// axis by the matching partition axis, so that a partial edge tile still gets
/// a block.
pub fn partition_launch_grid(shape: &[i32], partition_shape: &[usize]) -> (r: Result<
    (u32, u32, u32),
    TensorError,
>)
    ensures
        grid_result(shape@, partition_shape@, r),
{
    let mut i: usize = 0;
    while i < shape.len()
        invariant
            i <= shape.len(),
            forall|k: int| 0 <= k < i ==> #[trigger] shape@[k] > 0,
        decreases shape.len() - i,
    {
        if shape[i] <= 0 {
            return Err(TensorError::NonPositiveShape { shape: copy_i32(shape) });
        }
        i += 1;
    }
    if partition_shape.len() != shape.len() {
        return Err(
            TensorError::PartitionRank {
                partition_shape: copy_usize(partition_shape),
                shape: copy_i32(shape),
            },
        );
    }
    let mut j: usize = 0;
    while j < partition_shape.len()
        invariant
            j <= partition_shape.len(),
            partition_shape.len() == shape.len(),
            all_positive(shape@),
            forall|k: int| 0 <= k < j ==> #[trigger] partition_shape@[k] != 0,
        decreases partition_shape.len() - j,
    {
        if partition_shape[j] == 0 {
            return Err(
                TensorError::ZeroPartitionDimension {
                    partition_shape: copy_usize(partition_shape),
                },
            );
        }
        j += 1;
    }
    let rank = shape.len();
    if rank == 0 || rank > 3 {
        return Err(TensorError::PartitionedRank);
    }
    proof {
        reveal_with_fuel(first_large, 4);
    }
    let mut grid: (u32, u32, u32) = (1, 1, 1);
    match axis_grid(shape, partition_shape, 0) {
        Ok(n) => {
            grid.0 = n;
        },
        Err(e) => {
            return Err(e);
        },
    }
    if rank >= 2 {
        match axis_grid(shape, partition_shape, 1) {
            Ok(n) => {
                grid.1 = n;
            },
            Err(e) => {
                return Err(e);
            },
        }
    }
    if rank >= 3 {
        match axis_grid(shape, partition_shape, 2) {
            Ok(n) => {
                grid.2 = n;
            },
            Err(e) => {
                return Err(e);
            },
        }
    }
    Ok(grid)
}

/// What [`validate_view_shape_for`] returns: the first refusal that applies, in
/// order.
pub open spec fn view_result(
    shape: Seq<i32>,
    strides: Seq<i32>,
    target: Seq<usize>,
    size: int,
    r: Result<(), TensorError>,
) -> bool {
    let target_bytes = byte_count(text::ints_of_usize(target), size);
    let current_bytes = byte_count(text::ints_of_i32(shape), size);
    if strides != row_major(text::ints_of_i32(shape)) {
        r matches Err(TensorError::NonContiguousView { shape: s, strides: t }) && s@ == shape && t@
            == strides
    } else if target_bytes is Err {
        r == Err::<(), TensorError>(target_bytes->Err_0)
    } else if current_bytes is Err {
        r == Err::<(), TensorError>(current_bytes->Err_0)
    } else if target_bytes != current_bytes {
        r matches Err(TensorError::ViewSize { target: t, shape: s }) && t@ == target && s@ == shape
    } else {
        dims_result(target, r)
    }
}

/// Every dimension of `target` fits `i32`, in which metadata is kept.
pub open spec fn dims_fit(target: Seq<usize>) -> bool {
    forall|i: int| 0 <= i < target.len() ==> #[trigger] target[i] <= i32::MAX
}

/// `i` is the first dimension of `target` beyond `i32`.
pub open spec fn first_too_large(target: Seq<usize>, i: int) -> bool {
    &&& 0 <= i < target.len()
    &&& target[i] > i32::MAX
    &&& forall|k: int| 0 <= k < i ==> #[trigger] target[k] <= i32::MAX
}

/// What [`check_dims`] returns: the first dimension beyond `i32` is refused.
pub open spec fn dims_result(target: Seq<usize>, r: Result<(), TensorError>) -> bool {
    match r {
        Ok(()) => dims_fit(target),
        Err(e) => exists|i: int| #[trigger]
            first_too_large(target, i) && e == (TensorError::DimensionTooLarge {
                dimension: target[i],
            }),
    }
}

/// Whether every dimension fits `i32`: one that does not would describe other
/// elements once it is cut to `i32`.
pub fn check_dims(target: &[usize]) -> (r: Result<(), TensorError>)
    ensures
        dims_result(target@, r),
{
    let mut i: usize = 0;
    while i < target.len()
        invariant
            i <= target.len(),
            forall|k: int| 0 <= k < i ==> #[trigger] target@[k] <= i32::MAX,
        decreases target.len() - i,
    {
        if target[i] > 0x7FFF_FFFF {
            assert(first_too_large(target@, i as int));
            return Err(TensorError::DimensionTooLarge { dimension: target[i] });
        }
        i += 1;
    }
    Ok(())
}

/// Whether `target` is a legal zero-copy reinterpretation of a tensor or view
/// with metadata `(shape, strides)` and elements of `size` bytes: the source is
/// row-major contiguous, both sides have the same byte size, and every dimension
/// of the target fits the metadata.
pub fn validate_view_shape_of(
    shape: &[i32],
    strides: &[i32],
    target: &[usize],
    size: usize,
) -> (r: Result<(), TensorError>)
    ensures
        view_result(shape@, strides@, target@, size as int, r),
{
    let expected = contiguous_strides(shape);
    if !same_i32(strides, expected.as_slice()) {
        return Err(
            TensorError::NonContiguousView { shape: copy_i32(shape), strides: copy_i32(strides) },
        );
    }
    let target_bytes = match num_bytes_of(target, size) {
        Ok(n) => n,
        Err(e) => {
            return Err(e);
        },
    };
    let current_bytes = match num_bytes_of_i32(shape, size) {
        Ok(n) => n,
        Err(e) => {
            return Err(e);
        },
    };
    if target_bytes != current_bytes {
        return Err(TensorError::ViewSize { target: copy_usize(target), shape: copy_i32(shape) });
    }
    check_dims(target)
}

/// [`validate_view_shape_of`] for elements of type `T`.
pub fn validate_view_shape_for<T>(shape: &[i32], strides: &[i32], target: &[usize]) -> (r: Result<
    (),
    TensorError,
>)
    ensures
        view_result(shape@, strides@, target@, vstd::layout::size_of::<T>() as int, r),
{
    validate_view_shape_of(shape, strides, target, core::mem::size_of::<T>())
}

/// The largest element offset over the first `n` axes: the sum of
/// `(dim - 1) * stride`. A negative stride or a sum beyond `usize` stops it.
pub open spec fn extent_prefix(shape: Seq<i32>, strides: Seq<i32>, n: int) -> Result<
    int,
    TensorError,
>
    decreases n,
{
    if n <= 0 {
        Ok(0)
    } else {
        match extent_prefix(shape, strides, n - 1) {
            Ok(offset) => if strides[n - 1] < 0 {
                Err(TensorError::NegativeStride)
            } else if offset + (shape[n - 1] - 1) * strides[n - 1] > usize::MAX {
                Err(TensorError::ExtentOverflow)
            } else {
                Ok(offset + (shape[n - 1] - 1) * strides[n - 1])
            },
            Err(e) => Err(e),
        }
    }
}

/// The bytes that the elements of `(shape, strides)` span from the base
/// pointer: `(1 + sum((shape[i] - 1) * strides[i])) * size`, 0 for a shape with
/// no elements.
pub open spec fn addressable(shape: Seq<i32>, strides: Seq<i32>, size: int) -> Result<
    int,
    TensorError,
> {
    if shape.len() != strides.len() {
        Err(TensorError::StrideRank)
    } else if !all_positive(shape) {
        Ok(0)
    } else {
        match extent_prefix(shape, strides, shape.len() as int) {
            Ok(offset) => if offset + 1 > usize::MAX || (offset + 1) * size > usize::MAX {
                Err(TensorError::ExtentOverflow)
            } else {
                Ok((offset + 1) * size)
            },
            Err(e) => Err(e),
        }
    }
}

proof fn lemma_extent_stops(shape: Seq<i32>, strides: Seq<i32>, m: int, n: int)
    requires
        0 <= m <= n,
        extent_prefix(shape, strides, m) is Err,
    ensures
        extent_prefix(shape, strides, n) == extent_prefix(shape, strides, m),
    decreases n,
{
    if m < n {
        lemma_extent_stops(shape, strides, m, n - 1);
    }
}

/// The addressable extent of elements of `size` bytes, or why it has none.
pub fn addressable_bytes_of(shape: &[i32], strides: &[i32], size: usize) -> (r: Result<
    usize,
    TensorError,
>)
    ensures
        agrees(r, addressable(shape@, strides@, size as int)),
{
    if shape.len() != strides.len() {
        return Err(TensorError::StrideRank);
    }
    let mut i: usize = 0;
    while i < shape.len()
        invariant
            i <= shape.len(),
            shape.len() == strides.len(),
            forall|k: int| 0 <= k < i ==> #[trigger] shape@[k] > 0,
        decreases shape.len() - i,
    {
        if shape[i] <= 0 {
            return Ok(0);
        }
        i += 1;
    }
    let mut offset: usize = 0;
    let mut j: usize = 0;
    while j < shape.len()
        invariant
            j <= shape.len(),
            shape.len() == strides.len(),
            all_positive(shape@),
            extent_prefix(shape@, strides@, j as int) == Ok::<int, TensorError>(offset as int),
        decreases shape.len() - j,
    {
        let fault = if strides[j] < 0 {
            Some(TensorError::NegativeStride)
        } else {
            proof {
                let (d, t) = (shape@[j as int] - 1, strides@[j as int] as int);
                assert(d * t >= 0) by (nonlinear_arith)
                    requires
                        d >= 0,
                        t >= 0,
                ;
            }
            let next = match (shape[j] as usize - 1).checked_mul(strides[j] as usize) {
                Some(step) => offset.checked_add(step),
                None => None,
            };
            match next {
                Some(sum) => {
                    offset = sum;
                    None
                },
                None => Some(TensorError::ExtentOverflow),
            }
        };
        if let Some(e) = fault {
            proof {
                assert(extent_prefix(shape@, strides@, j + 1) == Err::<int, TensorError>(e));
                lemma_extent_stops(shape@, strides@, j + 1, shape@.len() as int);
            }
            return Err(e);
        }
        j += 1;
    }
    let bytes = match offset.checked_add(1) {
        Some(count) => count.checked_mul(size),
        None => None,
    };
    match bytes {
        Some(n) => Ok(n),
        None => Err(TensorError::ExtentOverflow),
    }
}

/// The largest byte extent any element of `(shape, strides)` addresses from the
/// base pointer, for elements of type `T`. Strides can push it beyond the
/// logical byte size, so it is what a backing allocation has to cover.
pub fn addressable_bytes<T>(shape: &[i32], strides: &[i32]) -> (r: usize)
    requires
        addressable(shape@, strides@, vstd::layout::size_of::<T>() as int) is Ok,
    ensures
        addressable(shape@, strides@, vstd::layout::size_of::<T>() as int) == Ok::<
            int,
            TensorError,
        >(r as int),
{
    match addressable_bytes_of(shape, strides, core::mem::size_of::<T>()) {
        Ok(n) => n,
        Err(_) => 0,
    }
}

/// The element offset of an index vector: the sum of `index * stride`.
pub open spec fn offset_of(index: Seq<int>, strides: Seq<i32>) -> int
    decreases index.len(),
{
    if index.len() == 0 {
        0
    } else {
        offset_of(index.drop_last(), strides) + index.last() * strides[index.len() - 1]
    }
}

/// `index` addresses an element of `shape`.
pub open spec fn in_shape(index: Seq<int>, shape: Seq<i32>) -> bool {
    index.len() == shape.len() && forall|i: int|
        0 <= i < shape.len() ==> 0 <= #[trigger] index[i] < shape[i]
}

proof fn lemma_offset_bound(index: Seq<int>, shape: Seq<i32>, strides: Seq<i32>, n: int)
    requires
        in_shape(index, shape),
        shape.len() == strides.len(),
        0 <= n <= shape.len(),
        extent_prefix(shape, strides, n) is Ok,
    ensures
        0 <= offset_of(index.take(n), strides) <= extent_prefix(shape, strides, n)->Ok_0,
    decreases n,
{
    if n > 0 {
        lemma_offset_bound(index, shape, strides, n - 1);
        assert(index.take(n).drop_last() =~= index.take(n - 1));
        let (x, d, t) = (index[n - 1], shape[n - 1] as int, strides[n - 1] as int);
        assert(0 <= x * t <= (d - 1) * t) by (nonlinear_arith)
            requires
                0 <= x < d,
                t >= 0,
        ;
    }
}

/// Every element of a layout lies inside its addressable extent.
pub proof fn every_element_lies_in_the_extent(
    index: Seq<int>,
    shape: Seq<i32>,
    strides: Seq<i32>,
    size: int,
)
    requires
        in_shape(index, shape),
        size >= 0,
        addressable(shape, strides, size) is Ok,
    ensures
        0 <= offset_of(index, strides) * size,
        offset_of(index, strides) * size + size <= addressable(shape, strides, size)->Ok_0,
{
    assert(all_positive(shape)) by {
        assert forall|i: int| 0 <= i < shape.len() implies #[trigger] shape[i] > 0 by {
            assert(0 <= index[i] < shape[i]);
        }
    }
    lemma_offset_bound(index, shape, strides, shape.len() as int);
    assert(index.take(shape.len() as int) =~= index);
    let (o, m) = (offset_of(index, strides), extent_prefix(shape, strides, shape.len() as int)->Ok_0);
    assert(0 <= o * size && o * size + size <= (m + 1) * size) by (nonlinear_arith)
        requires
            0 <= o <= m,
            size >= 0,
    ;
}

/// The last element of a layout ends where its addressable extent does.
pub proof fn the_last_element_ends_the_extent(shape: Seq<i32>, strides: Seq<i32>, size: int)
    requires
        all_positive(shape),
        addressable(shape, strides, size) is Ok,
    ensures
        ({
            let last = Seq::new(shape.len(), |i: int| shape[i] - 1);
            in_shape(last, shape) && (offset_of(last, strides) + 1) * size == addressable(
                shape,
                strides,
                size,
            )->Ok_0
        }),
{
    let last = Seq::new(shape.len(), |i: int| shape[i] - 1);
    assert forall|i: int| 0 <= i < shape.len() implies 0 <= #[trigger] last[i] < shape[i] by {
        assert(shape[i] > 0);
    }
    lemma_last_offset(last, shape, strides, shape.len() as int);
    assert(last.take(shape.len() as int) =~= last);
}

proof fn lemma_last_offset(last: Seq<int>, shape: Seq<i32>, strides: Seq<i32>, n: int)
    requires
        last.len() == shape.len(),
        shape.len() == strides.len(),
        forall|i: int| 0 <= i < shape.len() ==> #[trigger] last[i] == shape[i] - 1,
        0 <= n <= shape.len(),
        extent_prefix(shape, strides, n) is Ok,
    ensures
        offset_of(last.take(n), strides) == extent_prefix(shape, strides, n)->Ok_0,
    decreases n,
{
    if n > 0 {
        lemma_last_offset(last, shape, strides, n - 1);
        assert(last.take(n).drop_last() =~= last.take(n - 1));
        assert(last[n - 1] == shape[n - 1] - 1);
    }
}

/// A row-major layout of positive dimensions, whose strides fit `i32`, spans
/// exactly its logical byte size.
pub proof fn contiguous_extent_is_the_logical_size(
    shape: Seq<i32>,
    strides: Seq<i32>,
    size: int,
)
    requires
        all_positive(shape),
        size >= 1,
        row_major_fits(shape, strides),
        byte_count(text::ints_of_i32(shape), size) is Ok,
    ensures
        addressable(shape, strides, size) == byte_count(text::ints_of_i32(shape), size),
{
    let dims = text::ints_of_i32(shape);
    element_count_is_the_product(dims);
    lemma_row_major_extent(shape, strides, shape.len() as int);
    assert(dims.skip(0) =~= dims);
    assert(dims.skip(shape.len() as int) =~= Seq::empty());
    let (p, s) = (product(dims), size);
    assert(p <= p * s) by (nonlinear_arith)
        requires
            p >= 0,
            s >= 1,
    ;
}

proof fn lemma_suffix_positive(dims: Seq<int>, i: int)
    requires
        0 <= i <= dims.len(),
        forall|k: int| 0 <= k < dims.len() ==> #[trigger] dims[k] > 0,
    ensures
        product(dims.skip(i)) >= 1,
        i < dims.len() ==> product(dims.skip(i)) == dims[i] * product(dims.skip(i + 1)),
    decreases dims.len() - i,
{
    if i < dims.len() {
        lemma_suffix_positive(dims, i + 1);
        lemma_product_front(dims.skip(i));
        assert(dims.skip(i).skip(1) =~= dims.skip(i + 1));
        let (d, p) = (dims[i], product(dims.skip(i + 1)));
        assert(d * p >= 1) by (nonlinear_arith)
            requires
                d >= 1,
                p >= 1,
        ;
    } else {
        assert(dims.skip(i) =~= Seq::empty());
    }
}

/// Telescoping: the extent of the first `n` axes of a row-major layout is the
/// full product less that of the axes from `n` on.
proof fn lemma_row_major_extent(shape: Seq<i32>, strides: Seq<i32>, n: int)
    requires
        all_positive(shape),
        row_major_fits(shape, strides),
        0 <= n <= shape.len(),
        product(text::ints_of_i32(shape)) <= usize::MAX,
    ensures
        extent_prefix(shape, strides, n) == Ok::<int, TensorError>(
            product(text::ints_of_i32(shape)) - product(text::ints_of_i32(shape).skip(n)),
        ),
    decreases n,
{
    let dims = text::ints_of_i32(shape);
    assert(dims.skip(0) =~= dims);
    assert forall|k: int| 0 <= k < dims.len() implies #[trigger] dims[k] > 0 by {
        assert(shape[k] > 0);
    }
    lemma_suffix_positive(dims, n);
    if n > 0 {
        lemma_row_major_extent(shape, strides, n - 1);
        lemma_suffix_positive(dims, n - 1);
        let (d, p) = (dims[n - 1], product(dims.skip(n)));
        assert(product(dims.skip((n - 1) + 1)) <= i32::MAX);
        lemma_crop_small(p);
        assert(strides[n - 1] == p);
        assert((d - 1) * p == d * p - p) by (nonlinear_arith);
    }
}

/// The offset that the axes from `n` on contribute.
spec fn suffix_offset(index: Seq<int>, strides: Seq<i32>, n: int) -> int
    decreases index.len() - n,
{
    if n >= index.len() {
        0
    } else {
        index[n] * strides[n] + suffix_offset(index, strides, n + 1)
    }
}

proof fn lemma_split_offset(index: Seq<int>, strides: Seq<i32>, n: int)
    requires
        0 <= n <= index.len(),
    ensures
        offset_of(index, strides) == offset_of(index.take(n), strides) + suffix_offset(
            index,
            strides,
            n,
        ),
    decreases index.len() - n,
{
    if n == index.len() {
        assert(index.take(n) =~= index);
    } else {
        lemma_split_offset(index, strides, n + 1);
        assert(index.take(n + 1).drop_last() =~= index.take(n));
    }
}

/// The axes from `n` on of a row-major layout contribute less than the stride of
/// the axis before them.
proof fn lemma_suffix_bound(index: Seq<int>, shape: Seq<i32>, strides: Seq<i32>, n: int)
    requires
        in_shape(index, shape),
        row_major_fits(shape, strides),
        0 <= n <= shape.len(),
    ensures
        0 <= suffix_offset(index, strides, n) < product(text::ints_of_i32(shape).skip(n)),
    decreases shape.len() - n,
{
    let dims = text::ints_of_i32(shape);
    assert forall|k: int| 0 <= k < dims.len() implies #[trigger] dims[k] > 0 by {
        assert(0 <= index[k] < shape[k]);
    }
    lemma_suffix_positive(dims, n);
    if n < shape.len() {
        lemma_suffix_bound(index, shape, strides, n + 1);
        lemma_suffix_positive(dims, n + 1);
        let (x, d, p) = (index[n], dims[n], product(dims.skip(n + 1)));
        assert(product(dims.skip(n + 1)) <= i32::MAX);
        lemma_crop_small(p);
        assert(strides[n] == p);
        assert(0 <= x < d);
        assert(0 <= x * p && x * p + p <= d * p) by (nonlinear_arith)
            requires
                0 <= x < d,
                p >= 1,
        ;
    }
}

/// Different elements of a row-major layout, whose strides fit `i32`, lie at
/// different offsets.
pub proof fn different_elements_lie_apart(
    x: Seq<int>,
    y: Seq<int>,
    shape: Seq<i32>,
    strides: Seq<i32>,
)
    requires
        in_shape(x, shape),
        in_shape(y, shape),
        row_major_fits(shape, strides),
        x != y,
    ensures
        offset_of(x, strides) != offset_of(y, strides),
{
    let k = lemma_first_difference(x, y, 0);
    let dims = text::ints_of_i32(shape);
    lemma_split_offset(x, strides, k);
    lemma_split_offset(y, strides, k);
    assert(x.take(k) =~= y.take(k));
    lemma_suffix_bound(x, shape, strides, k + 1);
    lemma_suffix_bound(y, shape, strides, k + 1);
    let p = product(dims.skip(k + 1));
    assert(product(dims.skip(k + 1)) <= i32::MAX);
    lemma_crop_small(p);
    assert(strides[k] == p);
    let (a, b) = (x[k], y[k]);
    let (s, t) = (suffix_offset(x, strides, k + 1), suffix_offset(y, strides, k + 1));
    assert(a * p + s != b * p + t) by (nonlinear_arith)
        requires
            a != b,
            0 <= s < p,
            0 <= t < p,
    ;
}

/// The first place from `n` on where two lists differ.
proof fn lemma_first_difference(x: Seq<int>, y: Seq<int>, n: int) -> (k: int)
    requires
        x.len() == y.len(),
        x != y,
        0 <= n <= x.len(),
        forall|i: int| 0 <= i < n ==> #[trigger] x[i] == y[i],
    ensures
        0 <= k < x.len(),
        x[k] != y[k],
        forall|i: int| 0 <= i < k ==> #[trigger] x[i] == y[i],
    decreases x.len() - n,
{
    if n == x.len() {
        assert(x =~= y);
        n
    } else if x[n] != y[n] {
        n
    } else {
        lemma_first_difference(x, y, n + 1)
    }
}

/// Tiles of one size cover an axis and are disjoint: each index of the axis lies
/// in exactly one tile, that tile is one of the grid's, and the last tile of
/// the grid is not empty.
pub proof fn tiles_cover_an_axis_once(extent: int, tile: int)
    requires
        extent >= 1,
        tile >= 1,
    ensures
        forall|x: int, t: int|
            0 <= x < extent ==> (#[trigger] in_tile(x, t, tile) <==> t == x / tile),
        forall|x: int| 0 <= x < extent ==> 0 <= #[trigger] (x / tile) < ceil_div(extent, tile),
        (ceil_div(extent, tile) - 1) * tile < extent <= ceil_div(extent, tile) * tile,
{
    let n = ceil_div(extent, tile);
    lemma_ceil_div(extent, tile);
    vstd::arithmetic::div_mod::lemma_fundamental_div_mod(extent - 1, tile);
    vstd::arithmetic::div_mod::lemma_mod_bound(extent - 1, tile);
    let (q, r) = ((extent - 1) / tile, (extent - 1) % tile);
    assert((n - 1) * tile < extent && extent <= n * tile) by (nonlinear_arith)
        requires
            extent - 1 == tile * q + r,
            0 <= r < tile,
            n == q + 1,
    ;
    assert forall|x: int, t: int| 0 <= x < extent implies (#[trigger] in_tile(x, t, tile) <==> t == x
        / tile) by {
        vstd::arithmetic::div_mod::lemma_fundamental_div_mod(x, tile);
        vstd::arithmetic::div_mod::lemma_mod_bound(x, tile);
        let (qx, rx) = (x / tile, x % tile);
        if t == qx {
            assert(t * tile <= x && x < (t + 1) * tile) by (nonlinear_arith)
                requires
                    x == tile * qx + rx,
                    0 <= rx < tile,
                    t == qx,
            ;
        }
        if in_tile(x, t, tile) {
            assert(t == qx) by (nonlinear_arith)
                requires
                    x == tile * qx + rx,
                    0 <= rx < tile,
                    t * tile <= x,
                    x < (t + 1) * tile,
            ;
        }
    }
    assert forall|x: int| 0 <= x < extent implies 0 <= #[trigger] (x / tile) < n by {
        vstd::arithmetic::div_mod::lemma_div_is_ordered(x, extent - 1, tile);
        vstd::arithmetic::div_mod::lemma_div_pos_is_pos(x, tile);
    }
}

/// Index `x` of an axis lies in tile `t`.
pub open spec fn in_tile(x: int, t: int, tile: int) -> bool {
    t * tile <= x < (t + 1) * tile
}

/// Counting elements is complete. Let `products` be the products of the leading
/// dimensions: the count succeeds exactly when no dimension is negative and no
/// product leaves `usize`, and is then the last product. The first dimension at fault
/// decides the refusal.
pub proof fn element_counts_are_complete(dims: Seq<int>, products: Seq<int>)
    requires
        products.len() == dims.len() + 1,
        products[0] == 1,
        forall|k: int| 0 <= k < dims.len() ==> #[trigger] products[k + 1] == products[k] * dims[k],
    ensures
        element_count(dims) is Ok <==> forall|k: int|
            0 <= k < dims.len() ==> #[trigger] dims[k] >= 0 && products[k + 1] <= usize::MAX,
        element_count(dims) matches Ok(count) ==> count == products.last(),
        forall|k: int|
            0 <= k < dims.len() && #[trigger] dims[k] < 0 && (forall|j: int|
                0 <= j < k ==> #[trigger] dims[j] >= 0 && products[j + 1] <= usize::MAX)
                ==> element_count(dims) == Err::<int, TensorError>(TensorError::NegativeDimension),
        forall|k: int|
            0 <= k < dims.len() && #[trigger] dims[k] >= 0 && products[k + 1] > usize::MAX && (
            forall|j: int|
                0 <= j < k ==> #[trigger] dims[j] >= 0 && products[j + 1] <= usize::MAX)
                ==> element_count(dims) == Err::<int, TensorError>(TensorError::ShapeOverflow),
{
    lemma_count_complete(dims, products, dims.len() as int);
    assert forall|k: int|
        0 <= k < dims.len() && #[trigger] dims[k] < 0 && (forall|j: int|
            0 <= j < k ==> #[trigger] dims[j] >= 0 && products[j + 1] <= usize::MAX) implies element_count(
        dims,
    ) == Err::<int, TensorError>(TensorError::NegativeDimension) by {
        lemma_count_complete(dims, products, k);
        lemma_count_none(dims, k + 1, dims.len() as int);
    }
    assert forall|k: int|
        0 <= k < dims.len() && #[trigger] dims[k] >= 0 && products[k + 1] > usize::MAX && (forall|
            j: int,
        |
            0 <= j < k ==> #[trigger] dims[j] >= 0 && products[j + 1] <= usize::MAX) implies element_count(
        dims,
    ) == Err::<int, TensorError>(TensorError::ShapeOverflow) by {
        lemma_count_complete(dims, products, k);
        assert(products[k + 1] == products[k] * dims[k]);
        lemma_count_none(dims, k + 1, dims.len() as int);
    }
}

proof fn lemma_count_complete(dims: Seq<int>, products: Seq<int>, n: int)
    requires
        0 <= n <= dims.len(),
        products.len() == dims.len() + 1,
        products[0] == 1,
        forall|k: int| 0 <= k < dims.len() ==> #[trigger] products[k + 1] == products[k] * dims[k],
    ensures
        count_prefix(dims, n) is Ok <==> forall|k: int|
            0 <= k < n ==> #[trigger] dims[k] >= 0 && products[k + 1] <= usize::MAX,
        count_prefix(dims, n) matches Ok(count) ==> count == products[n],
    decreases n,
{
    if n > 0 {
        lemma_count_complete(dims, products, n - 1);
        assert(products[(n - 1) + 1] == products[n - 1] * dims[n - 1]);
        if count_prefix(dims, n) is Ok {
            assert forall|k: int| 0 <= k < n implies #[trigger] dims[k] >= 0 && products[k + 1]
                <= usize::MAX by {}
        }
    }
}

/// A byte size is the element count times the element size: it is formed exactly
/// where the count is and the product fits `usize`.
pub proof fn byte_sizes_scale_element_counts(dims: Seq<int>, size: int)
    ensures
        byte_count(dims, size) is Ok <==> element_count(dims) is Ok && element_count(dims)->Ok_0
            * size <= usize::MAX,
        byte_count(dims, size) matches Ok(bytes) ==> bytes == element_count(dims)->Ok_0 * size,
        element_count(dims) is Err ==> byte_count(dims, size) == element_count(dims),
        element_count(dims) is Ok && byte_count(dims, size) is Err ==> byte_count(dims, size)->Err_0
            == TensorError::ByteSizeOverflow,
{
}

/// A result agrees with an integer when both succeed with it, or both fail alike.
pub proof fn agreeing_results_are_equal(r: Result<usize, TensorError>, s: Result<int, TensorError>)
    ensures
        agrees(r, s) <==> ((r is Ok <==> s is Ok) && (r is Ok ==> r->Ok_0 == s->Ok_0) && (r is Err
            ==> r->Err_0 == s->Err_0)),
{
}

/// Row-major strides count the elements that one step along an axis skips: the last
/// is 1, and each other is the next one times the dimension it belongs to. A shape
/// whose strides fit `i32` has them exactly.
pub proof fn row_major_strides_step_over_later_axes(shape: Seq<i32>, i: int)
    requires
        0 <= i < shape.len(),
        forall|k: int|
            0 <= k < shape.len() ==> 0 <= #[trigger] product(text::ints_of_i32(shape).skip(k + 1))
                <= i32::MAX,
    ensures
        row_major(text::ints_of_i32(shape)).len() == shape.len(),
        i == shape.len() - 1 ==> row_major(text::ints_of_i32(shape))[i] == 1,
        i < shape.len() - 1 ==> row_major(text::ints_of_i32(shape))[i] == row_major(
            text::ints_of_i32(shape),
        )[i + 1] * shape[i + 1],
{
    let dims = text::ints_of_i32(shape);
    let p = product(dims.skip(i + 1));
    lemma_crop_small(p);
    if i == shape.len() - 1 {
        assert(dims.skip(i + 1) =~= Seq::empty());
        reveal_with_fuel(product, 1);
    } else {
        let rest = dims.skip(i + 1);
        lemma_product_front(rest);
        assert(rest.skip(1) =~= dims.skip(i + 2));
        assert(rest[0] == shape[i + 1]);
        let q = product(dims.skip((i + 1) + 1));
        lemma_crop_small(q);
        assert(shape[i + 1] * q == q * shape[i + 1]) by (nonlinear_arith);
    }
}

/// A launch grid covers each axis with whole tiles and no tile too many: the tiles
/// reach the extent, and one fewer does not. Axes beyond the rank have one block.
/// Exactly the shapes of rank 1 to 3 with positive dimensions, and tiles of that rank
/// whose dimensions are positive and fit `u32`, have a grid.
pub proof fn launch_grids_cover_each_axis(
    shape: Seq<i32>,
    tile: Seq<usize>,
    r: Result<(u32, u32, u32), TensorError>,
)
    requires
        grid_result(shape, tile, r),
    ensures
        r is Ok <==> 1 <= shape.len() <= 3 && tile.len() == shape.len() && forall|i: int|
            0 <= i < shape.len() ==> (#[trigger] shape[i]) > 0 && 0 < tile[i] <= u32::MAX,
        r matches Ok(grid) ==> {
            &&& tile[0] * (grid.0 - 1) < shape[0] <= tile[0] * grid.0
            &&& if shape.len() >= 2 {
                tile[1] * (grid.1 - 1) < shape[1] <= tile[1] * grid.1
            } else {
                grid.1 == 1
            }
            &&& if shape.len() >= 3 {
                tile[2] * (grid.2 - 1) < shape[2] <= tile[2] * grid.2
            } else {
                grid.2 == 1
            }
        },
{
    let n = shape.len() as int;
    if all_positive(shape) && tile.len() == shape.len() && !tile.contains(0) && 1 <= n <= 3 {
        lemma_first_large(tile, 0, n);
        let k = first_large(tile, 0, n);
        assert forall|i: int| 0 <= i < n implies tile[i] > 0 by {
            if tile[i] == 0 {
                assert(tile.contains(0));
            }
        }
        if k < n {
            assert(tile[k] > u32::MAX);
            assert(shape[k] > 0);
        } else {
            lemma_ceil_covers(shape[0] as int, tile[0] as int);
            if n >= 2 {
                lemma_ceil_covers(shape[1] as int, tile[1] as int);
            }
            if n >= 3 {
                lemma_ceil_covers(shape[2] as int, tile[2] as int);
            }
            assert forall|i: int| 0 <= i < n implies (#[trigger] shape[i]) > 0 && 0 < tile[i]
                <= u32::MAX by {
                assert(shape[i] > 0);
            }
        }
    } else if tile.len() == shape.len() && 1 <= n <= 3 {
        if !all_positive(shape) {
            let i = choose|i: int| 0 <= i < n && !(#[trigger] shape[i] > 0);
            assert(shape[i] <= 0);
        } else {
            let i = choose|i: int| 0 <= i < tile.len() && tile[i] == 0;
            assert(shape[i] > 0);
        }
    }
}

proof fn lemma_first_large(tile: Seq<usize>, i: int, n: int)
    requires
        0 <= i <= n <= tile.len(),
    ensures
        i <= first_large(tile, i, n) <= n,
        first_large(tile, i, n) < n ==> tile[first_large(tile, i, n)] > u32::MAX,
        forall|k: int| i <= k < first_large(tile, i, n) ==> #[trigger] tile[k] <= u32::MAX,
    decreases n - i,
{
    if i < n && tile[i] <= u32::MAX {
        lemma_first_large(tile, i + 1, n);
    }
}

proof fn lemma_ceil_covers(a: int, b: int)
    requires
        a >= 1,
        b >= 1,
    ensures
        b * (ceil_div(a, b) - 1) < a <= b * ceil_div(a, b),
{
    let x = a + b - 1;
    vstd::arithmetic::div_mod::lemma_fundamental_div_mod(x, b);
    vstd::arithmetic::div_mod::lemma_mod_bound(x, b);
    let q = x / b;
    assert(b * (q - 1) == b * q - b) by (nonlinear_arith);
}

/// A grid is refused for the first reason that applies: a dimension that is not
/// positive, another rank, a tile dimension of 0, a rank beyond three or of 0, and the
/// first tile dimension that leaves `u32`.
pub proof fn grids_are_refused_in_order(
    shape: Seq<i32>,
    tile: Seq<usize>,
    r: Result<(u32, u32, u32), TensorError>,
)
    requires
        grid_result(shape, tile, r),
    ensures
        ({
            let positive = forall|i: int| 0 <= i < shape.len() ==> #[trigger] shape[i] > 0;
            let whole = forall|i: int| 0 <= i < tile.len() ==> #[trigger] tile[i] != 0;
            &&& (r matches Err(TensorError::NonPositiveShape { shape: s }) && s@ == shape)
                <==> !positive
            &&& (r matches Err(TensorError::PartitionRank { partition_shape: p, shape: s }) && p@
                == tile && s@ == shape) <==> positive && tile.len() != shape.len()
            &&& (r matches Err(TensorError::ZeroPartitionDimension { partition_shape: p }) && p@
                == tile) <==> positive && tile.len() == shape.len() && !whole
            &&& r == Err::<(u32, u32, u32), TensorError>(TensorError::PartitionedRank) <==> positive
                && tile.len() == shape.len() && whole && (shape.len() == 0 || shape.len() > 3)
            &&& (r matches Err(TensorError::PartitionDimensionTooLarge { dimension }) ==> exists|
                k: int,
            |
                0 <= k < tile.len() && #[trigger] tile[k] == dimension && dimension > u32::MAX
                    && forall|j: int| 0 <= j < k ==> #[trigger] tile[j] <= u32::MAX)
        }),
{
    assert(tile.contains(0) <==> exists|i: int| 0 <= i < tile.len() && #[trigger] tile[i] == 0);
    if r is Err {
        if r->Err_0 is PartitionDimensionTooLarge {
            lemma_first_large(tile, 0, shape.len() as int);
            let k = first_large(tile, 0, shape.len() as int);
            assert(tile[k] == r->Err_0->PartitionDimensionTooLarge_dimension);
        }
    }
}

/// A shape is a legal view exactly when the source is row-major contiguous, both sides
/// have one byte size, and every dimension of the target fits `i32`.
pub proof fn a_view_needs_contiguity_and_equal_size(
    shape: Seq<i32>,
    strides: Seq<i32>,
    target: Seq<usize>,
    size: int,
    e: TensorError,
)
    ensures
        view_result(shape, strides, target, size, Ok(())) <==> {
            &&& strides == row_major(text::ints_of_i32(shape))
            &&& byte_count(text::ints_of_i32(shape), size) is Ok
            &&& byte_count(text::ints_of_usize(target), size) == byte_count(
                text::ints_of_i32(shape),
                size,
            )
            &&& forall|i: int| 0 <= i < target.len() ==> #[trigger] target[i] <= 0x7FFF_FFFF
        },
        !(view_result(shape, strides, target, size, Ok(())) && view_result(
            shape,
            strides,
            target,
            size,
            Err(e),
        )),
        view_result(shape, strides, target, size, Err(e)) ==> match e {
            TensorError::NonContiguousView { .. } => strides != row_major(text::ints_of_i32(shape)),
            TensorError::ViewSize { .. } => byte_count(text::ints_of_usize(target), size)
                != byte_count(text::ints_of_i32(shape), size),
            TensorError::DimensionTooLarge { dimension } => dimension > 0x7FFF_FFFF && exists|
                i: int,
            |
                0 <= i < target.len() && #[trigger] target[i] == dimension && forall|j: int|
                    0 <= j < i ==> #[trigger] target[j] <= 0x7FFF_FFFF,
            _ => byte_count(text::ints_of_usize(target), size) is Err || byte_count(
                text::ints_of_i32(shape),
                size,
            ) is Err,
        },
{
    let (t, s) = (
        byte_count(text::ints_of_usize(target), size),
        byte_count(text::ints_of_i32(shape), size),
    );
    if view_result(shape, strides, target, size, Err(e)) && strides == row_major(
        text::ints_of_i32(shape),
    ) && t is Ok && s is Ok && t == s {
        let i = choose|i: int| #[trigger]
            first_too_large(target, i) && e == (TensorError::DimensionTooLarge {
                dimension: target[i],
            });
        assert(target[i] > i32::MAX);
    }
    if view_result(shape, strides, target, size, Err(e)) {
        lemma_count_errors(text::ints_of_usize(target), target.len() as int);
        lemma_count_errors(text::ints_of_i32(shape), shape.len() as int);
    }
}

proof fn lemma_count_errors(dims: Seq<int>, n: int)
    ensures
        count_prefix(dims, n) matches Err(e) ==> e == TensorError::NegativeDimension || e
            == TensorError::ShapeOverflow,
    decreases n,
{
    if n > 0 {
        lemma_count_errors(dims, n - 1);
    }
}

/// The addressable extent is complete. Let `offsets` be the largest element offsets
/// over the leading axes: an extent of a shape with elements is formed exactly when no
/// stride is negative and no offset, nor the byte size, leaves `usize`; it ends with
/// the last element. A shape without elements spans nothing.
pub proof fn addressable_extents_are_complete(
    shape: Seq<i32>,
    strides: Seq<i32>,
    size: int,
    offsets: Seq<int>,
)
    requires
        offsets.len() == shape.len() + 1,
        strides.len() == shape.len(),
        offsets[0] == 0,
        forall|k: int|
            0 <= k < shape.len() ==> #[trigger] offsets[k + 1] == offsets[k] + (shape[k] - 1)
                * strides[k],
    ensures
        (exists|k: int| 0 <= k < shape.len() && #[trigger] shape[k] <= 0) ==> addressable(
            shape,
            strides,
            size,
        ) == Ok::<int, TensorError>(0),
        (forall|k: int| 0 <= k < shape.len() ==> #[trigger] shape[k] > 0) ==> {
            &&& addressable(shape, strides, size) is Ok <==> (forall|k: int|
                0 <= k < shape.len() ==> #[trigger] strides[k] >= 0 && offsets[k + 1]
                    <= usize::MAX) && offsets.last() + 1 <= usize::MAX && (offsets.last() + 1)
                * size <= usize::MAX
            &&& addressable(shape, strides, size) matches Ok(bytes) ==> bytes == (offsets.last()
                + 1) * size
        },
{
    lemma_extent_complete(shape, strides, offsets, shape.len() as int);
    if exists|k: int| 0 <= k < shape.len() && #[trigger] shape[k] <= 0 {
        let k = choose|k: int| 0 <= k < shape.len() && #[trigger] shape[k] <= 0;
        assert(!all_positive(shape));
    }
}

proof fn lemma_extent_complete(shape: Seq<i32>, strides: Seq<i32>, offsets: Seq<int>, n: int)
    requires
        0 <= n <= shape.len(),
        offsets.len() == shape.len() + 1,
        strides.len() == shape.len(),
        offsets[0] == 0,
        forall|k: int|
            0 <= k < shape.len() ==> #[trigger] offsets[k + 1] == offsets[k] + (shape[k] - 1)
                * strides[k],
    ensures
        extent_prefix(shape, strides, n) is Ok <==> forall|k: int|
            0 <= k < n ==> #[trigger] strides[k] >= 0 && offsets[k + 1] <= usize::MAX,
        extent_prefix(shape, strides, n) matches Ok(o) ==> o == offsets[n],
    decreases n,
{
    if n > 0 {
        lemma_extent_complete(shape, strides, offsets, n - 1);
        assert(offsets[(n - 1) + 1] == offsets[n - 1] + (shape[n - 1] - 1) * strides[n - 1]);
        if extent_prefix(shape, strides, n) is Ok {
            assert forall|k: int| 0 <= k < n implies #[trigger] strides[k] >= 0 && offsets[k + 1]
                <= usize::MAX by {}
        }
    }
}

/// A layout of another number of strides than dimensions has no extent.
pub proof fn extents_need_a_stride_per_dimension(shape: Seq<i32>, strides: Seq<i32>, size: int)
    requires
        shape.len() != strides.len(),
    ensures
        addressable(shape, strides, size) == Err::<int, TensorError>(TensorError::StrideRank),
{
}

/// A product grows by each factor, from 1 on.
pub proof fn a_product_grows_by_each_factor(s: Seq<int>, x: int)
    ensures
        product(Seq::empty()) == 1,
        product(s.push(x)) == product(s) * x,
{
    assert(s.push(x).drop_last() =~= s);
}

/// An element's offset adds up index times stride over the axes.
pub proof fn an_offset_grows_by_each_axis(index: Seq<int>, strides: Seq<i32>, x: int)
    ensures
        offset_of(Seq::empty(), strides) == 0,
        offset_of(index.push(x), strides) == offset_of(index, strides) + x * strides[index.len()
            as int],
{
    assert(index.push(x).drop_last() =~= index);
}

/// Every element of a layout with an extent lies inside the extent.
pub proof fn elements_lie_in_the_extent(
    index: Seq<int>,
    shape: Seq<i32>,
    strides: Seq<i32>,
    size: int,
)
    requires
        size >= 1,
        in_shape(index, shape),
        addressable(shape, strides, size) is Ok,
    ensures
        0 <= offset_of(index, strides) * size,
        (offset_of(index, strides) + 1) * size <= addressable(shape, strides, size)->Ok_0,
{
    assert forall|k: int| 0 <= k < shape.len() implies #[trigger] shape[k] > 0 by {
        assert(0 <= index[k] < shape[k]);
    }
    lemma_offset_bound(index, shape, strides, shape.len() as int);
    assert(index.take(shape.len() as int) =~= index);
    let (o, m) = (
        offset_of(index, strides),
        extent_prefix(shape, strides, shape.len() as int)->Ok_0,
    );
    assert(0 <= o * size && (o + 1) * size <= (m + 1) * size) by (nonlinear_arith)
        requires
            0 <= o <= m,
            size >= 1,
    ;
}

/// A shape that cannot be counted has a negative dimension or too many elements.
pub proof fn counting_fails_in_two_ways(dims: Seq<int>)
    ensures
        element_count(dims) matches Err(e) ==> e == TensorError::NegativeDimension || e
            == TensorError::ShapeOverflow,
{
    lemma_count_errors(dims, dims.len() as int);
}

/// Dimensions pass exactly when all fit `i32`; the first that does not is named.
pub proof fn the_first_large_dimension_is_refused(target: Seq<usize>, r: Result<(), TensorError>)
    requires
        dims_result(target, r),
    ensures
        r is Ok <==> forall|i: int| 0 <= i < target.len() ==> #[trigger] target[i] <= 0x7FFF_FFFF,
        r matches Err(e) ==> exists|i: int|
            0 <= i < target.len() && e == (TensorError::DimensionTooLarge {
                dimension: #[trigger] target[i],
            }) && target[i] > 0x7FFF_FFFF && forall|j: int|
                0 <= j < i ==> #[trigger] target[j] <= 0x7FFF_FFFF,
        dims_fit(target) <==> r is Ok,
{
    if r is Err {
        let i = choose|i: int| #[trigger]
            first_too_large(target, i) && r->Err_0 == (TensorError::DimensionTooLarge {
                dimension: target[i],
            });
        assert(target[i] > i32::MAX);
    }
}

/// An index addresses an element exactly when it has a place on each axis, from 0 up
/// to the dimension.
pub proof fn an_index_lies_inside_each_axis(index: Seq<int>, shape: Seq<i32>)
    ensures
        in_shape(index, shape) <==> index.len() == shape.len() && forall|i: int|
            0 <= i < index.len() ==> 0 <= #[trigger] index[i] && index[i] < shape[i],
{
}

/// A refused extent has a negative stride or leaves `usize`: the first axis at fault
/// decides.
pub proof fn the_first_fault_refuses_an_extent(
    shape: Seq<i32>,
    strides: Seq<i32>,
    size: int,
    offsets: Seq<int>,
    k: int,
)
    requires
        offsets.len() == shape.len() + 1,
        strides.len() == shape.len(),
        offsets[0] == 0,
        forall|i: int|
            0 <= i < shape.len() ==> #[trigger] offsets[i + 1] == offsets[i] + (shape[i] - 1)
                * strides[i],
        forall|i: int| 0 <= i < shape.len() ==> #[trigger] shape[i] > 0,
        0 <= k < shape.len(),
        forall|i: int|
            0 <= i < k ==> #[trigger] strides[i] >= 0 && offsets[i + 1] <= usize::MAX,
    ensures
        strides[k] < 0 ==> addressable(shape, strides, size) == Err::<int, TensorError>(
            TensorError::NegativeStride,
        ),
        strides[k] >= 0 && offsets[k + 1] > usize::MAX ==> addressable(shape, strides, size)
            == Err::<int, TensorError>(TensorError::ExtentOverflow),
{
    lemma_extent_complete(shape, strides, offsets, k);
    assert(offsets[k + 1] == offsets[k] + (shape[k] - 1) * strides[k]);
    if strides[k] < 0 || offsets[k + 1] > usize::MAX {
        lemma_extent_stops(shape, strides, k + 1, shape.len() as int);
    }
}

/// A layout is recorded as row-major exactly when it has the row-major strides and
/// each of them fits `i32`.
pub proof fn recorded_strides_fit(shape: Seq<i32>, strides: Seq<i32>)
    ensures
        row_major_fits(shape, strides) <==> strides == row_major(text::ints_of_i32(shape))
            && forall|i: int|
            0 <= i < shape.len() ==> #[trigger] product(text::ints_of_i32(shape).skip(i + 1))
                <= 0x7FFF_FFFF,
{
}

/// Row-major strides that leave `i32` wrap: each differs from the number of elements it
/// steps over by a multiple of 2^32.
pub proof fn large_row_major_strides_wrap(dims: Seq<int>, i: int)
    requires
        0 <= i < dims.len(),
    ensures
        row_major(dims).len() == dims.len(),
        (row_major(dims)[i] - product(dims.skip(i + 1))) % 0x1_0000_0000 == 0,
{
    let m = 0x1_0000_0000int;
    let p = product(dims.skip(i + 1));
    let r = p % m;
    vstd::arithmetic::div_mod::lemma_fundamental_div_mod(p, m);
    let q = p / m;
    assert(r - p == (-q) * m);
    assert(r - m - p == (-q - 1) * m);
    vstd::arithmetic::div_mod::lemma_mod_multiples_basic(-q, m);
    vstd::arithmetic::div_mod::lemma_mod_multiples_basic(-q - 1, m);
}

/// A view is refused for the first reason that applies: a layout that is not contiguous,
/// a shape that cannot be counted in bytes, the new one before the old, another size, and
/// then a dimension beyond `i32`.
pub proof fn views_are_refused_in_order(
    shape: Seq<i32>,
    strides: Seq<i32>,
    target: Seq<usize>,
    size: int,
    e: TensorError,
)
    requires
        view_result(shape, strides, target, size, Err(e)),
    ensures
        ({
            let wanted = byte_count(text::ints_of_usize(target), size);
            let current = byte_count(text::ints_of_i32(shape), size);
            &&& strides != row_major(text::ints_of_i32(shape)) ==> (e matches TensorError::NonContiguousView {
                shape: s,
                strides: t,
            } && s@ == shape && t@ == strides)
            &&& strides == row_major(text::ints_of_i32(shape)) && wanted is Err ==> e
                == wanted->Err_0
            &&& strides == row_major(text::ints_of_i32(shape)) && wanted is Ok && current is Err
                ==> e == current->Err_0
            &&& strides == row_major(text::ints_of_i32(shape)) && wanted is Ok && current is Ok
                && wanted->Ok_0 != current->Ok_0 ==> (e matches TensorError::ViewSize {
                target: t,
                shape: s,
            } && t@ == target && s@ == shape)
            &&& strides == row_major(text::ints_of_i32(shape)) && wanted is Ok && current is Ok
                && wanted->Ok_0 == current->Ok_0 ==> e is DimensionTooLarge
        }),
{
}

/// A grid that fails with positive dimensions and tiles of the right rank fails for a
/// tile beyond `u32`; an extent that fails with strides that are not negative overflows.
pub proof fn the_last_refusals_are_for_size(
    shape: Seq<i32>,
    strides: Seq<i32>,
    tile: Seq<usize>,
    size: int,
    r: Result<(u32, u32, u32), TensorError>,
)
    requires
        1 <= shape.len() <= 3,
        tile.len() == shape.len(),
        strides.len() == shape.len(),
        forall|i: int|
            0 <= i < shape.len() ==> (#[trigger] shape[i]) > 0 && tile[i] > 0 && strides[i] >= 0,
        grid_result(shape, tile, r),
    ensures
        r matches Err(e) ==> e is PartitionDimensionTooLarge,
        addressable(shape, strides, size) matches Err(e) ==> e == TensorError::ExtentOverflow,
{
    if tile.contains(0) {
        let i = choose|i: int| 0 <= i < tile.len() && tile[i] == 0;
        assert(shape[i] > 0);
    }
    lemma_extent_overflows(shape, strides, shape.len() as int);
}

proof fn lemma_extent_overflows(shape: Seq<i32>, strides: Seq<i32>, n: int)
    requires
        0 <= n <= shape.len(),
        strides.len() == shape.len(),
        forall|i: int| 0 <= i < shape.len() ==> (#[trigger] shape[i]) > 0 && strides[i] >= 0,
    ensures
        extent_prefix(shape, strides, n) matches Err(e) ==> e == TensorError::ExtentOverflow,
    decreases n,
{
    if n > 0 {
        lemma_extent_overflows(shape, strides, n - 1);
        assert(shape[n - 1] > 0);
    }
}

} // verus!
