//! Backing storage of tensors: the allocation and the accesses in flight on it.
use vstd::prelude::*;

use crate::error::{DeviceError, InternalFault, TensorError};

verus! {

/// The address from which a tensor without device memory derives its
/// specialization. Hints clamp a pointer's alignment to 16, and every owned
/// allocation is at least so aligned, so the specialization is the one that a
/// real tensor has.
pub const META_SPEC_PTR: u64 = 16;

/// What backs a tensor.
#[derive(Debug, Clone, Copy, PartialEq, Eq, Structural)]
pub enum Allocation {
    /// Device memory.
    Device { ptr: u64, len_bytes: usize, device_id: usize },
    /// Metadata only: valid shape and strides, no device memory.
    Meta { len_bytes: usize, device_id: usize },
}

impl Allocation {
    pub open spec fn bytes(self) -> int {
        match self {
            Allocation::Device { len_bytes, .. } => len_bytes as int,
            Allocation::Meta { len_bytes, .. } => len_bytes as int,
        }
    }

    pub open spec fn device(self) -> int {
        match self {
            Allocation::Device { device_id, .. } => device_id as int,
            Allocation::Meta { device_id, .. } => device_id as int,
        }
    }

    pub open spec fn spec_address(self) -> u64 {
        match self {
            Allocation::Device { ptr, .. } => ptr,
            Allocation::Meta { .. } => META_SPEC_PTR,
        }
    }

    /// The length in bytes.
    pub fn len_bytes(&self) -> (r: usize)
        ensures
            r == self.bytes(),
    {
        match self {
            Allocation::Device { len_bytes, .. } => *len_bytes,
            Allocation::Meta { len_bytes, .. } => *len_bytes,
        }
    }

    /// The device that owns the memory.
    pub fn device_id(&self) -> (r: usize)
        ensures
            r == self.device(),
    {
        match self {
            Allocation::Device { device_id, .. } => *device_id,
            Allocation::Meta { device_id, .. } => *device_id,
        }
    }

    /// The device pointer, which metadata alone does not have.
    pub fn cu_deviceptr(&self) -> (r: Option<u64>)
        ensures
            r is Some <==> self is Device,
            *self matches Allocation::Device { ptr, .. } ==> r == Some(ptr),
    {
        match self {
            Allocation::Device { ptr, .. } => Some(*ptr),
            Allocation::Meta { .. } => None,
        }
    }

    /// The address that specializations are computed from; never dereferenced.
    pub fn spec_ptr(&self) -> (r: u64)
        ensures
            r == self.spec_address(),
    {
        match self {
            Allocation::Device { ptr, .. } => *ptr,
            Allocation::Meta { .. } => META_SPEC_PTR,
        }
    }
}

/// One access in flight.
#[derive(Debug, Clone, Copy, PartialEq, Eq, Structural)]
pub struct StorageAccess {
    pub id: u64,
    pub stream: usize,
    pub write: bool,
    /// Recorded into a graph rather than executing.
    pub recording: bool,
}

/// Two executing accesses on different streams of which one writes.
pub open spec fn races(a: StorageAccess, b: StorageAccess) -> bool {
    !a.recording && !b.recording && a.stream != b.stream && (a.write || b.write)
}

/// No two accesses of the table race.
pub open spec fn exclusive(accesses: Seq<StorageAccess>) -> bool {
    forall|i: int, j: int|
        0 <= i < accesses.len() && 0 <= j < accesses.len() ==> !races(
            #[trigger] accesses[i],
            #[trigger] accesses[j],
        )
}

/// Every access of the table has an id of its own.
pub open spec fn distinct_ids(accesses: Seq<StorageAccess>) -> bool {
    forall|i: int, j: int|
        0 <= i < j < accesses.len() ==> (#[trigger] accesses[i]).id != (#[trigger] accesses[j]).id
}

/// Hands out access ids. No id is given out twice, so that a stale release
/// matches no later access.
#[derive(Debug)]
pub struct AccessIds {
    next: u64,
}

impl AccessIds {
    /// The id was given out.
    pub closed spec fn issued(self, id: u64) -> bool {
        1 <= id < self.next
    }

    /// Some id is left.
    pub closed spec fn has_next(self) -> bool {
        1 <= self.next < u64::MAX
    }

    /// The ids that are out after one more: those that were, and `id`, which was
    /// not.
    pub open spec fn issues(self, id: u64, after: AccessIds) -> bool {
        &&& !self.issued(id)
        &&& forall|x: u64| #[trigger] after.issued(x) <==> self.issued(x) || x == id
    }

    /// No id is out.
    pub fn new() -> (r: AccessIds)
        ensures
            forall|x: u64| !r.issued(x),
            r.has_next(),
    {
        AccessIds { next: 1 }
    }

    /// Whether some id is left.
    pub fn can_issue(&self) -> (r: bool)
        ensures
            r == self.has_next(),
    {
        1 <= self.next && self.next < u64::MAX
    }

    /// Gives out an id.
    fn issue(&mut self) -> (r: u64)
        requires
            old(self).has_next(),
        ensures
            old(self).issues(r, *final(self)),
    {
        let id = self.next;
        self.next = id + 1;
        id
    }
}

/// The position of the first access with `id`, the length where there is none.
pub open spec fn position_of(accesses: Seq<StorageAccess>, id: u64) -> int
    decreases accesses.len(),
{
    if accesses.len() == 0 {
        0
    } else if accesses[0].id == id {
        0
    } else {
        1 + position_of(accesses.skip(1), id)
    }
}

/// The accesses after the release of `id`: the first entry with that id is
/// replaced by the last.
pub open spec fn released(accesses: Seq<StorageAccess>, id: u64) -> Seq<StorageAccess> {
    let p = position_of(accesses, id);
    if p < accesses.len() {
        accesses.update(p, accesses.last()).drop_last()
    } else {
        accesses
    }
}

/// A registered access: what releases it, and what a replay of a recorded one
/// acquires again.
#[derive(Debug, Clone, Copy, PartialEq, Eq, Structural)]
pub struct StorageLease {
    pub id: u64,
    pub write: bool,
    pub recorded: bool,
}

/// Where and how an access runs: the stream, its device, and whether the stream
/// records a graph.
#[derive(Debug, Clone, Copy, PartialEq, Eq, Structural)]
pub struct AccessContext {
    pub device_id: usize,
    pub stream: usize,
    pub recording: bool,
}

/// Backing storage shared by the tensors and views over one allocation.
#[derive(Debug)]
pub struct Storage {
    allocation: Allocation,
    accesses: Vec<StorageAccess>,
}

impl Storage {
    pub closed spec fn backing(self) -> Allocation {
        self.allocation
    }

    pub closed spec fn in_flight(self) -> Seq<StorageAccess> {
        self.accesses@
    }

    /// No two accesses in flight race, and no two have one id.
    pub open spec fn wf(self) -> bool {
        exclusive(self.in_flight()) && distinct_ids(self.in_flight())
    }

    #[verifier::type_invariant]
    spec fn valid(self) -> bool {
        self.wf()
    }

    /// Every access in flight has an id that `ids` gave out.
    pub open spec fn known_to(self, ids: AccessIds) -> bool {
        forall|i: int| 0 <= i < self.in_flight().len() ==> ids.issued((#[trigger] self.in_flight()[i]).id)
    }

    /// The storage and the ids after an access was asked for: unchanged where it
    /// is refused, else with one more access, under an id that was never out.
    pub open spec fn registered(
        self,
        after: Storage,
        ids: AccessIds,
        ids_after: AccessIds,
        r: Result<u64, DeviceError>,
        stream: usize,
        write: bool,
        recording: bool,
    ) -> bool {
        &&& after.backing() == self.backing()
        &&& match r {
            Ok(id) => {
                &&& recording || !self.conflicts(stream, write)
                &&& ids.issues(id, ids_after)
                &&& forall|i: int|
                    0 <= i < self.in_flight().len() ==> (#[trigger] self.in_flight()[i]).id != id
                &&& after.in_flight() == self.in_flight().push(
                    StorageAccess { id, stream, write, recording },
                )
            },
            Err(e) => {
                &&& !recording && self.conflicts(stream, write)
                &&& e == DeviceError::Internal(InternalFault::ConflictingAccess)
                &&& ids_after == ids
                &&& after.in_flight() == self.in_flight()
            },
        }
    }

    /// An executing access would race one in flight.
    pub open spec fn conflicts(self, stream: usize, write: bool) -> bool {
        exists|i: int|
            0 <= i < self.in_flight().len() && !(#[trigger] self.in_flight()[i]).recording
                && self.in_flight()[i].stream != stream && (write || self.in_flight()[i].write)
    }

    /// Storage with no access in flight.
    pub fn new(allocation: Allocation) -> (r: Storage)
        ensures
            r.wf(),
            r.backing() == allocation,
            r.in_flight() == Seq::<StorageAccess>::empty(),
    {
        Storage { allocation, accesses: Vec::new() }
    }

    /// Registers an in-flight access and returns its id, which `ids` never gave
    /// out before. An executing access is refused where another stream's
    /// executing access conflicts with it; a recorded one never is.
    pub fn register_access(
        &mut self,
        ids: &mut AccessIds,
        stream: usize,
        write: bool,
        recording: bool,
    ) -> (r: Result<u64, DeviceError>)
        requires
            old(self).known_to(*old(ids)),
            old(ids).has_next(),
        ensures
            final(self).wf(),
            final(self).known_to(*final(ids)),
            old(self).registered(
                *final(self),
                *old(ids),
                *final(ids),
                r,
                stream,
                write,
                recording,
            ),
    {
        proof {
            use_type_invariant(&*self);
        }
        if !recording {
            let mut i: usize = 0;
            while i < self.accesses.len()
                invariant
                    i <= self.accesses.len(),
                    !recording,
                    *self == *old(self),
                    *ids == *old(ids),
                    self.wf(),
                    self.known_to(*ids),
                    forall|k: int|
                        0 <= k < i ==> (#[trigger] self.in_flight()[k]).recording
                            || self.in_flight()[k].stream == stream || !(write
                            || self.in_flight()[k].write),
                decreases self.accesses.len() - i,
            {
                let access = self.accesses[i];
                if !access.recording && access.stream != stream && (write || access.write) {
                    assert(!self.in_flight()[i as int].recording);
                    return Err(DeviceError::Internal(InternalFault::ConflictingAccess));
                }
                i += 1;
            }
        }
        let id = ids.issue();
        let access = StorageAccess { id, stream, write, recording };
        proof {
            let (s, t) = (self.in_flight(), self.in_flight().push(access));
            assert forall|i: int, j: int|
                0 <= i < t.len() && 0 <= j < t.len() implies !races(
                #[trigger] t[i],
                #[trigger] t[j],
            ) by {
                if i < s.len() && j < s.len() {
                    assert(t[i] == s[i] && t[j] == s[j]);
                } else if i < s.len() {
                    assert(t[i] == s[i]);
                } else if j < s.len() {
                    assert(t[j] == s[j]);
                }
            }
            assert forall|i: int, j: int| 0 <= i < j < t.len() implies (#[trigger] t[i]).id
                != (#[trigger] t[j]).id by {
                assert(t[i] == s[i]);
                if j < s.len() {
                    assert(t[j] == s[j]);
                }
            }
        }
        let mut accesses: Vec<StorageAccess> = Vec::new();
        std::mem::swap(&mut accesses, &mut self.accesses);
        accesses.push(access);
        self.accesses = accesses;
        proof {
            let (s, t) = (old(self).in_flight(), self.in_flight());
            assert forall|i: int| 0 <= i < t.len() implies ids.issued((#[trigger] t[i]).id) by {
                if i < s.len() {
                    assert(t[i] == s[i]);
                }
            }
        }
        Ok(id)
    }

    /// [`register_access`](Self::register_access), handing back what releases
    /// the access.
    pub fn acquire(
        &mut self,
        ids: &mut AccessIds,
        stream: usize,
        write: bool,
        recording: bool,
    ) -> (r: Result<StorageLease, DeviceError>)
        requires
            old(self).known_to(*old(ids)),
            old(ids).has_next(),
        ensures
            final(self).wf(),
            final(self).known_to(*final(ids)),
            old(self).registered(
                *final(self),
                *old(ids),
                *final(ids),
                lease_id(r),
                stream,
                write,
                recording,
            ),
            r matches Ok(lease) ==> lease.write == write && lease.recorded == recording,
    {
        match self.register_access(ids, stream, write, recording) {
            Ok(id) => Ok(StorageLease { id, write, recorded: recording }),
            Err(e) => Err(e),
        }
    }

    /// Acquires access for work on `ctx`: refused on another device, then as
    /// [`register_access`](Self::register_access) refuses. A recorded lease
    /// belongs to the graph and is reacquired on each replay; any other is held
    /// by the submission.
    pub fn retain(&mut self, ctx: AccessContext, ids: &mut AccessIds, write: bool) -> (r: Result<
        StorageLease,
        DeviceError,
    >)
        requires
            old(self).known_to(*old(ids)),
            old(ids).has_next(),
        ensures
            final(self).wf(),
            final(self).known_to(*final(ids)),
            if old(self).backing().device() != ctx.device_id {
                &&& r == Err::<StorageLease, DeviceError>(
                    DeviceError::Internal(InternalFault::DifferentDevices),
                )
                &&& final(self).backing() == old(self).backing()
                &&& final(self).in_flight() == old(self).in_flight()
                &&& *final(ids) == *old(ids)
            } else {
                &&& old(self).registered(
                    *final(self),
                    *old(ids),
                    *final(ids),
                    lease_id(r),
                    ctx.stream,
                    write,
                    ctx.recording,
                )
                &&& r matches Ok(lease) ==> lease.write == write && lease.recorded
                    == ctx.recording
            },
    {
        proof {
            use_type_invariant(&*self);
        }
        if self.device_id() != ctx.device_id {
            return Err(DeviceError::Internal(InternalFault::DifferentDevices));
        }
        self.acquire(ids, ctx.stream, write, ctx.recording)
    }

    /// Releases the access registered under `id`; an unknown id changes nothing.
    pub fn release_access(&mut self, id: u64)
        ensures
            final(self).wf(),
            final(self).backing() == old(self).backing(),
            final(self).in_flight() == released(old(self).in_flight(), id),
            forall|ids: AccessIds| old(self).known_to(ids) ==> #[trigger] final(self).known_to(ids),
    {
        proof {
            use_type_invariant(&*self);
        }
        let ghost s = self.in_flight();
        assert(s.skip(0) =~= s);
        let mut i: usize = 0;
        while i < self.accesses.len()
            invariant
                i <= self.accesses.len(),
                *self == *old(self),
                s == self.in_flight(),
                exclusive(s),
                distinct_ids(s),
                position_of(s, id) == i + position_of(s.skip(i as int), id),
            decreases self.accesses.len() - i,
        {
            if self.accesses[i].id == id {
                proof {
                    assert(s.skip(i as int)[0] == s[i as int]);
                    lemma_released_exclusive(s, i as int);
                }
                let mut accesses: Vec<StorageAccess> = Vec::new();
                std::mem::swap(&mut accesses, &mut self.accesses);
                accesses.swap_remove(i);
                self.accesses = accesses;
                proof {
                    let t = self.in_flight();
                    assert forall|ids: AccessIds| old(self).known_to(ids) implies #[trigger] self.known_to(
                        ids,
                    ) by {
                        assert forall|k: int| 0 <= k < t.len() implies ids.issued(
                            (#[trigger] t[k]).id,
                        ) by {
                            assert(t[k] == s[k] || t[k] == s[s.len() - 1]);
                        }
                    }
                }
                return ;
            }
            assert(s.skip(i as int)[0] == s[i as int]);
            assert(s.skip(i as int).skip(1) =~= s.skip(i + 1));
            i += 1;
        }
        assert(s.skip(i as int).len() == 0);
    }

    /// Whether no tensor or view other than one handle shares the storage. Each
    /// access in flight holds one handle of its own.
    pub fn is_unique(&self, handles: usize) -> (r: bool)
        ensures
            r == (handles == 1 + self.in_flight().len()),
    {
        handles >= 1 && handles - 1 == self.accesses.len()
    }

    /// Mutable partitioning is refused where another tensor or view shares the
    /// storage: a launch could read through it what the partition writes.
    pub fn check_unique(&self, handles: usize) -> (r: Result<(), TensorError>)
        ensures
            r == (if handles == 1 + self.in_flight().len() {
                Ok::<(), TensorError>(())
            } else {
                Err::<(), TensorError>(TensorError::SharedPartition)
            }),
    {
        if self.is_unique(handles) {
            Ok(())
        } else {
            Err(TensorError::SharedPartition)
        }
    }

    /// The length of the allocation in bytes.
    pub fn len_bytes(&self) -> (r: usize)
        ensures
            r == self.backing().bytes(),
    {
        self.allocation.len_bytes()
    }

    /// The device that owns the allocation.
    pub fn device_id(&self) -> (r: usize)
        ensures
            r == self.backing().device(),
    {
        self.allocation.device_id()
    }

    /// The allocation.
    pub fn allocation(&self) -> (r: Allocation)
        ensures
            r == self.backing(),
    {
        self.allocation
    }
}

/// The id behind a lease.
pub open spec fn lease_id(r: Result<StorageLease, DeviceError>) -> Result<u64, DeviceError> {
    match r {
        Ok(lease) => Ok(lease.id),
        Err(e) => Err(e),
    }
}

proof fn lemma_released_exclusive(s: Seq<StorageAccess>, p: int)
    requires
        exclusive(s),
        distinct_ids(s),
        0 <= p < s.len(),
    ensures
        exclusive(s.update(p, s.last()).drop_last()),
        distinct_ids(s.update(p, s.last()).drop_last()),
{
    let t = s.update(p, s.last()).drop_last();
    assert forall|i: int, j: int| 0 <= i < t.len() && 0 <= j < t.len() implies !races(
        #[trigger] t[i],
        #[trigger] t[j],
    ) by {
        let i0 = if i == p {
            s.len() - 1
        } else {
            i
        };
        let j0 = if j == p {
            s.len() - 1
        } else {
            j
        };
        assert(t[i] == s[i0] && t[j] == s[j0]);
    }
    assert forall|i: int, j: int| 0 <= i < j < t.len() implies (#[trigger] t[i]).id != (
    #[trigger] t[j]).id by {
        if i == p {
            assert(t[i] == s.last() && t[j] == s[j]);
        } else if j == p {
            assert(t[j] == s.last() && t[i] == s[i]);
        } else {
            assert(t[i] == s[i] && t[j] == s[j]);
        }
    }
}

/// Ids stay known: a storage whose accesses were all given out by `ids` is known
/// to them after they give out more.
pub proof fn known_accesses_stay_known(
    storage: Storage,
    ids: AccessIds,
    id: u64,
    after: AccessIds,
)
    requires
        storage.known_to(ids),
        ids.issues(id, after),
    ensures
        storage.known_to(after),
{
}

/// A release under an id that is no longer in flight changes nothing, and after a
/// release no access in flight has the id: a stale release cannot match.
pub proof fn a_stale_release_matches_nothing(s: Seq<StorageAccess>, id: u64)
    requires
        distinct_ids(s),
    ensures
        forall|i: int| 0 <= i < released(s, id).len() ==> (#[trigger] released(s, id)[i]).id != id,
        released(released(s, id), id) == released(s, id),
{
    lemma_position_found(s, id);
    let (p, t) = (position_of(s, id), released(s, id));
    assert forall|i: int| 0 <= i < t.len() implies (#[trigger] t[i]).id != id by {
        if p < s.len() {
            if i == p {
                assert(t[i] == s.last());
                assert(s[p].id != s[s.len() - 1].id);
            } else {
                assert(t[i] == s[i]);
                if i < p {
                    assert(s[i].id != s[p].id);
                } else {
                    assert(s[p].id != s[i].id);
                }
            }
        }
    }
    lemma_position_found(t, id);
}

/// Releasing an access right after it was registered under a fresh id leaves
/// the accesses as they were.
pub proof fn release_undoes_register(s: Seq<StorageAccess>, access: StorageAccess)
    requires
        forall|i: int| 0 <= i < s.len() ==> (#[trigger] s[i]).id != access.id,
    ensures
        released(s.push(access), access.id) == s,
{
    lemma_position_fresh(s, access);
    let t = s.push(access);
    assert(t.update(s.len() as int, t.last()).drop_last() =~= s);
}

proof fn lemma_position_fresh(s: Seq<StorageAccess>, access: StorageAccess)
    requires
        forall|i: int| 0 <= i < s.len() ==> (#[trigger] s[i]).id != access.id,
    ensures
        position_of(s.push(access), access.id) == s.len(),
    decreases s.len(),
{
    if s.len() > 0 {
        assert(s[0].id != access.id);
        assert forall|i: int| 0 <= i < s.skip(1).len() implies (#[trigger] s.skip(1)[i]).id
            != access.id by {
            assert(s[i + 1].id != access.id);
        }
        lemma_position_fresh(s.skip(1), access);
        assert(s.push(access).skip(1) =~= s.skip(1).push(access));
    }
}

/// A release drops one access with the id, where there is one, and keeps every
/// other access.
pub proof fn release_removes_one_access(s: Seq<StorageAccess>, id: u64)
    ensures
        (exists|i: int| 0 <= i < s.len() && (#[trigger] s[i]).id == id) ==> {
            let p = position_of(s, id);
            0 <= p < s.len() && s[p].id == id && released(s, id).to_multiset()
                == s.to_multiset().remove(s[p])
        },
        (forall|i: int| 0 <= i < s.len() ==> (#[trigger] s[i]).id != id) ==> released(s, id) == s,
{
    lemma_position_found(s, id);
    let p = position_of(s, id);
    if p < s.len() {
        broadcast use vstd::seq_lib::group_to_multiset_ensures;

        vstd::seq_lib::to_multiset_remove(s, p);
        let t = released(s, id);
        assert(t.len() == s.len() - 1);
        if p == s.len() - 1 {
            assert(t =~= s.remove(p));
        } else {
            // The last entry moves from the end into the gap.
            let gap = s.remove(p);
            assert(gap.last() == s.last());
            assert(gap.drop_last() =~= t.remove(p));
            vstd::seq_lib::to_multiset_remove(gap, gap.len() - 1);
            vstd::seq_lib::to_multiset_remove(t, p);
            assert(gap.remove(gap.len() - 1) =~= gap.drop_last());
            assert(t[p] == s.last());
            assert(gap.to_multiset().remove(s.last()) =~= t.to_multiset().remove(s.last()));
            assert(gap.to_multiset() =~= gap.to_multiset().remove(s.last()).insert(s.last()));
            assert(t.to_multiset() =~= t.to_multiset().remove(s.last()).insert(s.last()));
        }
    }
}

proof fn lemma_position_found(s: Seq<StorageAccess>, id: u64)
    ensures
        0 <= position_of(s, id) <= s.len(),
        position_of(s, id) < s.len() ==> s[position_of(s, id)].id == id,
        position_of(s, id) == s.len() ==> forall|i: int|
            0 <= i < s.len() ==> (#[trigger] s[i]).id != id,
    decreases s.len(),
{
    if s.len() > 0 && s[0].id != id {
        lemma_position_found(s.skip(1), id);
        let p = position_of(s.skip(1), id);
        if p == s.len() - 1 {
            assert forall|i: int| 0 <= i < s.len() implies (#[trigger] s[i]).id != id by {
                if i > 0 {
                    assert(s.skip(1)[i - 1] == s[i]);
                }
            }
        } else {
            assert(s.skip(1)[p] == s[p + 1]);
        }
    }
}

/// An access is refused exactly when it executes while another stream's executing
/// access is in flight and one of the two writes. One that is taken stands behind the
/// others, which stay as they were; a refused one changes nothing.
pub proof fn an_access_is_refused_exactly_where_it_would_race(
    storage: Storage,
    after: Storage,
    ids: AccessIds,
    ids_after: AccessIds,
    r: Result<u64, DeviceError>,
    stream: usize,
    write: bool,
    recording: bool,
)
    requires
        storage.registered(after, ids, ids_after, r, stream, write, recording),
    ensures
        r is Err <==> !recording && exists|i: int|
            0 <= i < storage.in_flight().len() && !(#[trigger] storage.in_flight()[i]).recording
                && storage.in_flight()[i].stream != stream && (write
                || storage.in_flight()[i].write),
        after.backing() == storage.backing(),
        r matches Err(e) ==> e == DeviceError::Internal(InternalFault::ConflictingAccess)
            && ids_after == ids && after.in_flight() == storage.in_flight(),
        r matches Ok(id) ==> {
            &&& after.in_flight().len() == storage.in_flight().len() + 1
            &&& forall|i: int|
                0 <= i < storage.in_flight().len() ==> #[trigger] after.in_flight()[i]
                    == storage.in_flight()[i] && storage.in_flight()[i].id != id
            &&& after.in_flight().last().id == id
            &&& after.in_flight().last().stream == stream
            &&& after.in_flight().last().write == write
            &&& after.in_flight().last().recording == recording
            &&& !ids.issued(id) && ids_after.issued(id)
            &&& forall|x: u64| x != id ==> (#[trigger] ids_after.issued(x) <==> ids.issued(x))
        },
{
}

/// Accesses exclude one another exactly when of any two that execute on different
/// streams neither writes; this does not depend on their order.
pub proof fn executing_streams_share_storage_only_to_read(s: Seq<StorageAccess>)
    ensures
        exclusive(s) <==> forall|i: int, j: int|
            0 <= i < s.len() && 0 <= j < s.len() && (#[trigger] s[i]).stream != (
            #[trigger] s[j]).stream && !s[i].recording && !s[j].recording ==> !s[i].write
                && !s[j].write,
        distinct_ids(s) <==> forall|i: int, j: int|
            0 <= i < s.len() && 0 <= j < s.len() && (#[trigger] s[i]).id == (#[trigger] s[j]).id
                ==> i == j,
{
    if exclusive(s) {
        assert forall|i: int, j: int|
            0 <= i < s.len() && 0 <= j < s.len() && (#[trigger] s[i]).stream != (
            #[trigger] s[j]).stream && !s[i].recording && !s[j].recording implies !s[i].write
            && !s[j].write by {
            assert(!races(s[i], s[j]));
        }
    }
}

/// An allocation has the length and device it was made with; memory is specialized by
/// its own address, metadata by the address 16.
pub proof fn an_allocation_has_its_length_and_device(ptr: u64, len_bytes: usize, device_id: usize)
    ensures
        (Allocation::Device { ptr, len_bytes, device_id }).bytes() == len_bytes,
        (Allocation::Device { ptr, len_bytes, device_id }).device() == device_id,
        (Allocation::Device { ptr, len_bytes, device_id }).spec_address() == ptr,
        (Allocation::Meta { len_bytes, device_id }).bytes() == len_bytes,
        (Allocation::Meta { len_bytes, device_id }).device() == device_id,
        (Allocation::Meta { len_bytes, device_id }).spec_address() == 16,
{
}

/// A release moves the last access into the gap and leaves every other in place; it
/// releases the first access with the id.
pub proof fn a_release_fills_the_gap_with_the_last_access(s: Seq<StorageAccess>, p: int)
    requires
        0 <= p < s.len(),
        forall|i: int| 0 <= i < p ==> (#[trigger] s[i]).id != s[p].id,
    ensures
        released(s, s[p].id).len() == s.len() - 1,
        p < s.len() - 1 ==> released(s, s[p].id)[p] == s[s.len() - 1],
        forall|i: int|
            0 <= i < s.len() - 1 && i != p ==> #[trigger] released(s, s[p].id)[i] == s[i],
{
    lemma_first_position(s, s[p].id, p);
}

proof fn lemma_first_position(s: Seq<StorageAccess>, id: u64, p: int)
    requires
        0 <= p < s.len(),
        s[p].id == id,
        forall|i: int| 0 <= i < p ==> (#[trigger] s[i]).id != id,
    ensures
        position_of(s, id) == p,
    decreases s.len(),
{
    if p > 0 {
        assert(s[0].id != id);
        let t = s.skip(1);
        assert forall|i: int| 0 <= i < p - 1 implies (#[trigger] t[i]).id != id by {
            assert(s[i + 1].id != id);
        }
        assert(t[p - 1] == s[p]);
        lemma_first_position(t, id, p - 1);
    }
}

/// Once ids are in use, one is left as long as some id below the largest was not given
/// out.
pub proof fn ids_last_until_all_are_out(ids: AccessIds)
    requires
        ids.issued(1),
    ensures
        ids.has_next() <==> exists|id: u64| 1 <= id < u64::MAX && !#[trigger] ids.issued(id),
{
    if ids.has_next() {
        assert(!ids.issued(ids.next));
    }
}

/// A storage is known to the ids exactly when each access in flight has one of them.
pub proof fn a_storage_is_known_by_its_accesses(storage: Storage, ids: AccessIds)
    ensures
        storage.known_to(ids) <==> forall|i: int|
            0 <= i < storage.in_flight().len() ==> ids.issued(
                (#[trigger] storage.in_flight()[i]).id,
            ),
{
}

/// The id of a lease is that under which the access is in flight.
pub proof fn a_lease_is_released_by_its_id(lease: StorageLease, e: DeviceError)
    ensures
        lease_id(Ok(lease)) == Ok::<u64, DeviceError>(lease.id),
        lease_id(Err(e)) == Err::<u64, DeviceError>(e),
{
}

/// Of any two accesses in flight on one storage that execute on different streams
/// neither writes, and no two have one id.
pub proof fn accesses_in_flight_never_race(storage: Storage, i: int, j: int)
    requires
        storage.wf(),
        0 <= i < j < storage.in_flight().len(),
    ensures
        storage.in_flight()[i].id != storage.in_flight()[j].id,
        storage.in_flight()[i].stream != storage.in_flight()[j].stream
            && !storage.in_flight()[i].recording && !storage.in_flight()[j].recording
            ==> !storage.in_flight()[i].write && !storage.in_flight()[j].write,
{
    assert(!races(storage.in_flight()[i], storage.in_flight()[j]));
}

} // verus!
