//! Vectors of tensors: the tensors, and the table of their device pointers that a
//! kernel reads.
use std::sync::Arc;
use vstd::prelude::*;

use crate::dtype::DTypeId;
use crate::error::TensorError;
use crate::partition;
use crate::shape;
use crate::storage::Allocation;
use crate::tensor;
use crate::tensor::Tensor;
use crate::text;

verus! {

/// Tensors, with a device tensor that holds their pointers.
#[derive(Debug)]
pub struct DeviceVec {
    host_vec: Vec<Arc<Tensor>>,
    device_vec: Arc<Tensor>,
}

/// The pointer of a tensor with device memory, as a table entry.
pub open spec fn entry(tensor: Tensor) -> i64 {
    match tensor.backing() {
        Allocation::Device { ptr, .. } => ptr as i64,
        Allocation::Meta { .. } => 0,
    }
}

/// The pointers of tensors, in order; none where one has no device memory.
pub fn pointer_table(tensors: &Vec<Tensor>) -> (r: Option<Vec<i64>>)
    ensures
        r is Some <==> forall|i: int|
            0 <= i < tensors@.len() ==> (#[trigger] tensors@[i]).backing() is Device,
        r matches Some(table) ==> table@ == tensors@.map_values(|t: Tensor| entry(t)),
{
    let mut table: Vec<i64> = Vec::new();
    let mut i: usize = 0;
    while i < tensors.len()
        invariant
            i <= tensors@.len(),
            forall|k: int| 0 <= k < i ==> (#[trigger] tensors@[k]).backing() is Device,
            table@ == tensors@.take(i as int).map_values(|t: Tensor| entry(t)),
        decreases tensors.len() - i,
    {
        match tensors[i].cu_deviceptr() {
            Some(ptr) => {
                let word = #[verifier::truncate] (ptr as i64);
                table.push(word);
                assert(word == entry(tensors@[i as int]));
                assert(tensors@.take(i + 1).map_values(|t: Tensor| entry(t)) =~= tensors@.take(
                    i as int,
                ).map_values(|t: Tensor| entry(t)).push(word));
            },
            None => {
                assert(!(tensors@[i as int].backing() is Device));
                return None;
            },
        }
        i += 1;
    }
    assert(tensors@.take(i as int) =~= tensors@);
    Some(table)
}

impl DeviceVec {
    /// The tensors, in order.
    pub closed spec fn tensors(self) -> Seq<Tensor> {
        self.host_vec@.map_values(|t: Arc<Tensor>| *t)
    }

    /// The device tensor of pointers.
    pub closed spec fn table(self) -> Tensor {
        *self.device_vec
    }

    /// A vector of tensors whose pointers were copied to `table`, a tensor of `i64`
    /// with one entry per tensor, which takes one dimension. The entries are those
    /// of [`pointer_table`].
    pub fn from(tensors: Vec<Tensor>, table: Tensor) -> (r: DeviceVec)
        requires
            tensors@.len() <= i32::MAX,
            table.elem() == DTypeId::I64,
            table.backing().bytes() == 8 * tensors@.len(),
        ensures
            r.tensors() == tensors@,
            r.table().wf(),
            r.table().shares_storage(table),
            r.table().dims() == tensor::as_i32_dims(seq![tensors@.len() as usize]),
            r.table().contiguous(),
    {
        let ghost all = tensors@;
        let n = tensors.len();
        let shape: [usize; 1] = [n];
        proof {
            assert(shape@ =~= seq![n]);
            lemma_table_bytes(n);
        }
        let device_vec = Arc::new(table.reshape_unchecked(&shape));
        let mut rest = tensors;
        let mut host_vec: Vec<Arc<Tensor>> = Vec::new();
        let mut i: usize = 0;
        assert(rest@ =~= all.skip(0));
        while i < n
            invariant
                n == all.len(),
                i <= n,
                rest@ == all.skip(i as int),
                host_vec@.map_values(|t: Arc<Tensor>| *t) == all.take(i as int),
            decreases n - i,
        {
            let next = rest.remove(0);
            assert(next == all[i as int]);
            assert(rest@ =~= all.skip(i + 1));
            let ghost before = host_vec@;
            host_vec.push(Arc::new(next));
            assert(host_vec@.map_values(|t: Arc<Tensor>| *t) =~= before.map_values(
                |t: Arc<Tensor>| *t,
            ).push(next));
            assert(all.take(i + 1) =~= all.take(i as int).push(next));
            i += 1;
        }
        assert(all.take(i as int) =~= all);
        DeviceVec { host_vec, device_vec }
    }

    /// How many tensors the vector holds.
    pub fn len(&self) -> (r: usize)
        ensures
            r == self.tensors().len(),
    {
        self.host_vec.len()
    }

    /// Whether the vector holds no tensor.
    pub fn is_empty(&self) -> (r: bool)
        ensures
            r == (self.tensors().len() == 0),
    {
        self.host_vec.len() == 0
    }

    /// The device tensor of pointers.
    pub fn inner(&self) -> (r: &Arc<Tensor>)
        ensures
            **r == self.table(),
    {
        &self.device_vec
    }

    /// The tensor at `index`.
    pub fn index(&self, index: usize) -> (r: &Arc<Tensor>)
        requires
            index < self.tensors().len(),
        ensures
            **r == self.tensors()[index as int],
    {
        &self.host_vec[index]
    }

    /// The tensors, one at a time.
    pub fn into_iter(self) -> (r: DeviceVecIntoIter)
        ensures
            r.rest() == self.tensors(),
    {
        DeviceVecIntoIter { items: self }
    }
}

/// A table of `n` pointers takes eight bytes per entry.
proof fn lemma_table_bytes(n: usize)
    requires
        8 * n <= usize::MAX,
    ensures
        shape::byte_count(text::ints_of_usize(seq![n]), 8) == Ok::<int, TensorError>(8 * n),
{
    let dims = text::ints_of_usize(seq![n]);
    assert(dims.len() == 1 && dims[0] == n);
    assert(shape::count_prefix(dims, 0) == Ok::<int, TensorError>(1));
    assert(1 * dims[0] == n);
    assert(shape::count_prefix(dims, 1 - 1) == Ok::<int, TensorError>(1));
    assert(shape::count_prefix(dims, 1) == Ok::<int, TensorError>(1 * dims[0]));
}

/// The tensors of a vector that are still to be taken.
#[derive(Debug)]
pub struct DeviceVecIntoIter {
    items: DeviceVec,
}

impl DeviceVecIntoIter {
    /// The tensors still to be taken, in order.
    pub closed spec fn rest(self) -> Seq<Tensor> {
        self.items.tensors()
    }

    /// The next tensor, or its handle where that is not the only one.
    pub fn next(&mut self) -> (r: Option<Result<Tensor, Arc<Tensor>>>)
        ensures
            if old(self).rest().len() == 0 {
                r is None && final(self).rest() == old(self).rest()
            } else {
                &&& final(self).rest() == old(self).rest().drop_first()
                &&& match r {
                    Some(Ok(tensor)) => tensor == old(self).rest().first(),
                    Some(Err(handle)) => *handle == old(self).rest().first(),
                    None => false,
                }
            },
    {
        if self.items.is_empty() {
            return None;
        }
        let ghost before = self.items.host_vec@;
        let x = self.items.host_vec.remove(0);
        assert(*x == before.map_values(|t: Arc<Tensor>| *t)[0]);
        assert(self.rest() =~= before.map_values(|t: Arc<Tensor>| *t).drop_first());
        Some(partition::try_unwrap(x))
    }
}

/// A table entry holds the pointer's 64 bits: a pointer below 2^63 as itself, a larger
/// one less 2^64.
pub proof fn a_table_entry_holds_the_pointer(tensor: Tensor)
    requires
        tensor.backing() is Device,
    ensures
        tensor.backing()->ptr < 0x8000_0000_0000_0000 ==> entry(tensor) == tensor.backing()->ptr,
        tensor.backing()->ptr >= 0x8000_0000_0000_0000 ==> entry(tensor) == tensor.backing()->ptr
            - 0x1_0000_0000_0000_0000,
{
    let p = tensor.backing()->ptr;
    assert(p < 0x8000_0000_0000_0000 ==> (p as i64) == p) by (bit_vector);
    assert(p >= 0x8000_0000_0000_0000 ==> (p as i64) == p - 0x1_0000_0000_0000_0000) by (bit_vector);
}

} // verus!
