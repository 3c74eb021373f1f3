//! The plans of one cache, found by device, builder options and argument layout.
use std::collections::HashMap;
use std::sync::Arc;
use vstd::prelude::*;

use crate::plan::argument::ErasedPlanArg;
use crate::plan::inner;
use crate::plan::inner::PlanInner;
use crate::plan::options::{OptionsModel, PlanOptions};

verus! {

/// `std::sync::Arc::clone`: another handle to the same value.
#[verifier::external_body]
pub(crate) fn share<T>(value: &Arc<T>) -> (r: Arc<T>)
    ensures
        r == *value,
{
    Arc::clone(value)
}

/// The value behind a handle.
pub open spec fn target<F>(plan: Arc<PlanInner<F>>) -> PlanInner<F> {
    *plan
}

/// The plan serves a lookup: same generation, device and options, and the
/// arguments have its layout.
pub open spec fn serves<F>(
    plan: PlanInner<F>,
    epoch: u64,
    device_id: usize,
    options: OptionsModel,
    args: Seq<ErasedPlanArg<'_>>,
) -> bool {
    &&& plan.generation() == epoch
    &&& plan.device() == device_id
    &&& plan.opts() == options
    &&& inner::args_match(plan.layouts(), args)
}

/// The key a plan is stored under.
pub open spec fn key_of<F>(plan: PlanInner<F>) -> u64 {
    inner::plan_key(plan.device(), plan.opts(), inner::layout_keys(plan.layouts()))
}

/// What a lookup finds: the newest plan where it serves, else the oldest that
/// does.
pub open spec fn found<F>(
    plans: Seq<PlanInner<F>>,
    epoch: u64,
    device_id: usize,
    options: OptionsModel,
    args: Seq<ErasedPlanArg<'_>>,
    i: int,
) -> bool {
    &&& 0 <= i < plans.len()
    &&& serves(plans[i], epoch, device_id, options, args)
    &&& i == plans.len() - 1 || (!serves(plans.last(), epoch, device_id, options, args) && forall|
        k: int,
    |
        0 <= k < i ==> !serves(#[trigger] plans[k], epoch, device_id, options, args))
}

/// No plan serves the lookup.
pub open spec fn none_serves<F>(
    plans: Seq<PlanInner<F>>,
    epoch: u64,
    device_id: usize,
    options: OptionsModel,
    args: Seq<ErasedPlanArg<'_>>,
) -> bool {
    forall|k: int|
        0 <= k < plans.len() ==> !serves(#[trigger] plans[k], epoch, device_id, options, args)
}

/// A plan of the same generation, device, options and layout is stored.
pub open spec fn holds_entry<F>(plans: Seq<PlanInner<F>>, plan: PlanInner<F>) -> bool {
    exists|k: int| 0 <= k < plans.len() && (#[trigger] plans[k]).is_same_entry(plan)
}

/// The plans after an insert in generation `current`: a plan of an older
/// generation, or one whose entry is held, is not stored.
pub open spec fn inserted<F>(plans: Seq<PlanInner<F>>, plan: PlanInner<F>, current: u64) -> Seq<
    PlanInner<F>,
> {
    if plan.generation() == current && !holds_entry(plans, plan) {
        plans.push(plan)
    } else {
        plans
    }
}

/// No two plans have one entry.
pub open spec fn one_plan_per_entry<F>(plans: Seq<PlanInner<F>>) -> bool {
    forall|i: int, j: int|
        0 <= i < j < plans.len() ==> !(#[trigger] plans[i]).is_same_entry(#[trigger] plans[j])
}

/// A bucket lists, in ascending order, positions of plans with its key.
pub open spec fn bucket_ok<F>(plans: Seq<PlanInner<F>>, k: u64, bucket: Seq<usize>) -> bool {
    &&& forall|a: int, b: int| 0 <= a < b < bucket.len() ==> #[trigger] bucket[a] < #[trigger] bucket[b]
    &&& forall|a: int|
        0 <= a < bucket.len() ==> #[trigger] bucket[a] < plans.len() && key_of(
            plans[bucket[a] as int],
        ) == k
}

/// The index lists every plan under its key.
pub open spec fn indexed<F>(plans: Seq<PlanInner<F>>, index: Map<u64, Vec<usize>>) -> bool {
    &&& forall|k: u64| #[trigger]
        index.contains_key(k) ==> bucket_ok(plans, k, index[k]@)
    &&& forall|i: int|
        0 <= i < plans.len() ==> index.contains_key(key_of(#[trigger] plans[i]))
            && index[key_of(plans[i])]@.contains(i as usize)
}

/// A cache's plans, oldest first, indexed by key. A lookup tries the newest plan
/// without hashing, then the bucket of its key.
pub struct PlanMap<F> {
    plans: Vec<Arc<PlanInner<F>>>,
    by_key: HashMap<u64, Vec<usize>>,
}

impl<F> PlanMap<F> {
    /// The plans, oldest first.
    pub closed spec fn contents(self) -> Seq<PlanInner<F>> {
        self.plans@.map_values(|p: Arc<PlanInner<F>>| *p)
    }

    /// Every plan is well formed and indexed, and no two have one entry.
    #[verifier::type_invariant]
    pub closed spec fn wf(self) -> bool {
        &&& indexed(self.contents(), self.by_key@)
        &&& one_plan_per_entry(self.contents())
        &&& forall|i: int| 0 <= i < self.contents().len() ==> (#[trigger] self.contents()[i]).wf()
    }

    /// What holds of every well-formed map.
    pub proof fn wf_facts(self)
        requires
            self.wf(),
        ensures
            one_plan_per_entry(self.contents()),
            forall|i: int|
                0 <= i < self.contents().len() ==> (#[trigger] self.contents()[i]).wf(),
    {
    }

    /// No plans.
    pub fn new() -> (r: PlanMap<F>)
        ensures
            r.wf(),
            r.contents() == Seq::<PlanInner<F>>::empty(),
    {
        broadcast use vstd::std_specs::hash::group_hash_axioms;

        let plans: Vec<Arc<PlanInner<F>>> = Vec::new();
        let by_key: HashMap<u64, Vec<usize>> = HashMap::new();
        let ghost none = PlanMap { plans, by_key };
        assert(none.contents() =~= Seq::<PlanInner<F>>::empty());
        PlanMap { plans, by_key }
    }

    /// How many plans are stored.
    pub fn len(&self) -> (r: usize)
        ensures
            r == self.contents().len(),
    {
        self.plans.len()
    }

    /// Whether no plan is stored.
    pub fn is_empty(&self) -> (r: bool)
        ensures
            r == (self.contents().len() == 0),
    {
        self.plans.len() == 0
    }

    /// Removes every plan.
    pub fn clear(&mut self)
        ensures
            final(self).wf(),
            final(self).contents() == Seq::<PlanInner<F>>::empty(),
    {
        *self = PlanMap::new();
    }

    fn plan_serves(
        plan: &PlanInner<F>,
        epoch: u64,
        device_id: usize,
        options: &PlanOptions,
        args: &[ErasedPlanArg<'_>],
    ) -> (r: bool)
        ensures
            r == serves(*plan, epoch, device_id, options@, args@),
    {
        plan.epoch() == epoch && plan.device_id() == device_id && plan.options().same(options)
            && plan.param_count() == args.len() && plan.matches(args)
    }

    /// The stored plan for a device and options whose layout the arguments have.
    pub fn get(
        &self,
        epoch: u64,
        device_id: usize,
        options: &PlanOptions,
        args: &[ErasedPlanArg<'_>],
    ) -> (r: Option<Arc<PlanInner<F>>>)
        ensures
            match r {
                Some(plan) => plan.wf() && exists|i: int|
                    found(self.contents(), epoch, device_id, options@, args@, i)
                        && #[trigger] self.contents()[i] == *plan,
                None => none_serves(self.contents(), epoch, device_id, options@, args@),
            },
    {
        broadcast use vstd::std_specs::hash::group_hash_axioms;

        proof {
            use_type_invariant(self);
        }
        let ghost plans = self.contents();
        let n = self.plans.len();
        if n == 0 {
            return None;
        }
        let newest = &self.plans[n - 1];
        assert(plans[n - 1] == **newest);
        if PlanMap::plan_serves(newest, epoch, device_id, options, args) {
            assert(found(plans, epoch, device_id, options@, args@, n - 1));
            return Some(share(newest));
        }
        assert(!serves(plans.last(), epoch, device_id, options@, args@));
        let key = inner::args_key(device_id, options, args);
        assert forall|i: int|
            0 <= i < plans.len() && serves(
                #[trigger] plans[i],
                epoch,
                device_id,
                options@,
                args@,
            ) implies key_of(plans[i]) == key by {
            inner::served_arguments_have_the_plans_key(plans[i], args@);
        }
        match self.by_key.get(&key) {
            None => {
                assert(none_serves(plans, epoch, device_id, options@, args@));
                None
            },
            Some(bucket) => {
                assert(bucket_ok(plans, key, bucket@));
                let mut j: usize = 0;
                while j < bucket.len()
                    invariant
                        self.wf(),
                        plans == self.contents(),
                        n == plans.len(),
                        n > 0,
                        self.by_key@.contains_key(key),
                        *bucket == self.by_key@[key],
                        bucket_ok(plans, key, bucket@),
                        !serves(plans.last(), epoch, device_id, options@, args@),
                        forall|i: int|
                            0 <= i < plans.len() && serves(
                                #[trigger] plans[i],
                                epoch,
                                device_id,
                                options@,
                                args@,
                            ) ==> key_of(plans[i]) == key,
                        j <= bucket.len(),
                        forall|b: int|
                            0 <= b < j ==> !serves(
                                plans[(#[trigger] bucket@[b]) as int],
                                epoch,
                                device_id,
                                options@,
                                args@,
                            ),
                    decreases bucket.len() - j,
                {
                    let i = bucket[j];
                    assert(i < plans.len());
                    let plan = &self.plans[i];
                    assert(plans[i as int] == **plan);
                    if PlanMap::plan_serves(plan, epoch, device_id, options, args) {
                        proof {
                            assert forall|k: int| 0 <= k < i implies !serves(
                                #[trigger] plans[k],
                                epoch,
                                device_id,
                                options@,
                                args@,
                            ) by {
                                if serves(plans[k], epoch, device_id, options@, args@) {
                                    assert(bucket@.contains(k as usize));
                                    let b = choose|b: int|
                                        0 <= b < bucket@.len() && #[trigger] bucket@[b] == k as usize;
                                    if b > j {
                                        assert(bucket@[j as int] < bucket@[b]);
                                    }
                                    assert(b < j);
                                }
                            }
                            assert(found(plans, epoch, device_id, options@, args@, i as int));
                        }
                        return Some(share(plan));
                    }
                    j += 1;
                }
                proof {
                    assert forall|k: int| 0 <= k < plans.len() implies !serves(
                        #[trigger] plans[k],
                        epoch,
                        device_id,
                        options@,
                        args@,
                    ) by {
                        if serves(plans[k], epoch, device_id, options@, args@) {
                            assert(bucket@.contains(k as usize));
                            let b = choose|b: int|
                                0 <= b < bucket@.len() && #[trigger] bucket@[b] == k as usize;
                            assert(!serves(
                                plans[bucket@[b] as int],
                                epoch,
                                device_id,
                                options@,
                                args@,
                            ));
                        }
                    }
                }
                None
            },
        }
    }

    /// Whether a plan of the same entry is stored.
    fn has_entry(&self, plan: &PlanInner<F>) -> (r: bool)
        ensures
            r == holds_entry(self.contents(), *plan),
    {
        broadcast use vstd::std_specs::hash::group_hash_axioms;

        proof {
            use_type_invariant(self);
        }
        let ghost plans = self.contents();
        let ghost n = self.plans.len();
        assert(plans.len() == n);
        let key = plan.cache_key();
        assert forall|k: int| 0 <= k < plans.len() && (#[trigger] plans[k]).is_same_entry(
            *plan,
        ) implies key_of(plans[k]) == key by {}
        match self.by_key.get(&key) {
            None => {
                proof {
                    if holds_entry(plans, *plan) {
                        let k = choose|k: int|
                            0 <= k < plans.len() && (#[trigger] plans[k]).is_same_entry(*plan);
                        assert(self.by_key@.contains_key(key_of(plans[k])));
                    }
                }
                false
            },
            Some(bucket) => {
                assert(bucket_ok(plans, key, bucket@));
                let mut j: usize = 0;
                while j < bucket.len()
                    invariant
                        plans == self.contents(),
                        bucket_ok(plans, key, bucket@),
                        j <= bucket.len(),
                        forall|b: int|
                            0 <= b < j ==> !plans[(#[trigger] bucket@[b]) as int].is_same_entry(
                                *plan,
                            ),
                    decreases bucket.len() - j,
                {
                    let i = bucket[j];
                    assert(i < plans.len());
                    assert(plans[i as int] == *self.plans@[i as int]);
                    if self.plans[i].same_entry(plan) {
                        assert(plans[i as int].is_same_entry(*plan));
                        return true;
                    }
                    j += 1;
                }
                proof {
                    if holds_entry(plans, *plan) {
                        let k = choose|k: int|
                            0 <= k < plans.len() && (#[trigger] plans[k]).is_same_entry(*plan);
                        assert(key_of(plans[k]) == key);
                        assert(bucket@.contains(k as usize));
                        assert((k as usize) as int == k);
                        let b = choose|b: int|
                            0 <= b < bucket@.len() && #[trigger] bucket@[b] == k as usize;
                        assert(!plans[bucket@[b] as int].is_same_entry(*plan));
                    }
                }
                false
            },
        }
    }

    /// Lists position `i` under `key`.
    fn list(by_key: &mut HashMap<u64, Vec<usize>>, key: u64, i: usize)
        ensures
            final(by_key)@.dom() == old(by_key)@.dom().insert(key),
            forall|k: u64|
                k != key && old(by_key)@.contains_key(k) ==> #[trigger] final(by_key)@[k] == old(
                    by_key,
                )@[k],
            final(by_key)@[key]@ == (if old(by_key)@.contains_key(key) {
                old(by_key)@[key]@
            } else {
                Seq::empty()
            }).push(i),
    {
        broadcast use vstd::std_specs::hash::group_hash_axioms;

        let mut bucket = match by_key.remove(&key) {
            Some(bucket) => bucket,
            None => Vec::new(),
        };
        bucket.push(i);
        by_key.insert(key, bucket);
        assert(by_key@.dom() =~= old(by_key)@.dom().insert(key));
    }

    /// Adds a plan, unless one for the same generation, device, options and
    /// layout is stored, or the plan was resolved before generation `current`.
    pub fn insert(&mut self, plan: Arc<PlanInner<F>>, current: u64)
        ensures
            final(self).wf(),
            final(self).contents() == inserted(old(self).contents(), *plan, current),
    {
        proof {
            use_type_invariant(&*self);
        }
        if plan.epoch() != current || self.has_entry(&plan) {
            return ;
        }
        let ghost before = self.contents();
        let ghost index = self.by_key@;
        let ghost p = target(plan);
        let added: &PlanInner<F> = &plan;
        proof {
            use_type_invariant(added);
        }
        let mut taken = PlanMap::new();
        std::mem::swap(&mut taken, self);
        let PlanMap { mut plans, mut by_key } = taken;
        let key = plan.cache_key();
        let i = plans.len();
        PlanMap::<F>::list(&mut by_key, key, i);
        plans.push(plan);
        let ghost stored = PlanMap { plans, by_key };
        proof {
            let after = before.push(p);
            assert(stored.contents() =~= after);
            lemma_reindexed(before, index, p, by_key@);
            assert forall|a: int, b: int| 0 <= a < b < after.len() implies !(#[trigger] after[a]).is_same_entry(
                #[trigger] after[b],
            ) by {
                if b < before.len() {
                    assert(after[a] == before[a] && after[b] == before[b]);
                } else {
                    assert(after[a] == before[a]);
                }
            }
            assert forall|k: int| 0 <= k < after.len() implies (#[trigger] after[k]).wf() by {
                if k < before.len() {
                    assert(after[k] == before[k]);
                }
            }
        }
        *self = PlanMap { plans, by_key };
    }
}

/// The index after a plan was added to the bucket of its key.
proof fn lemma_reindexed<F>(
    plans: Seq<PlanInner<F>>,
    index: Map<u64, Vec<usize>>,
    p: PlanInner<F>,
    after: Map<u64, Vec<usize>>,
)
    requires
        indexed(plans, index),
        plans.len() <= usize::MAX,
        after.dom() == index.dom().insert(key_of(p)),
        forall|k: u64|
            k != key_of(p) && index.contains_key(k) ==> #[trigger] after[k] == index[k],
        after[key_of(p)]@ == (if index.contains_key(key_of(p)) {
            index[key_of(p)]@
        } else {
            Seq::empty()
        }).push(plans.len() as usize),
    ensures
        indexed(plans.push(p), after),
{
    let all = plans.push(p);
    let key = key_of(p);
    let before = if index.contains_key(key) {
        index[key]@
    } else {
        Seq::empty()
    };
    let bucket = after[key];
    assert(after.contains_key(key));
    assert forall|k: u64| #[trigger] after.contains_key(k) implies bucket_ok(all, k, after[k]@) by {
        if k == key {
            if index.contains_key(key) {
                assert(bucket_ok(plans, key, before));
            }
            let s = bucket@;
            assert forall|a: int, b: int| 0 <= a < b < s.len() implies #[trigger] s[a]
                < #[trigger] s[b] by {
                if b == before.len() {
                    assert(before[a] < plans.len());
                } else {
                    assert(before[a] < before[b]);
                }
            }
            assert forall|a: int| 0 <= a < s.len() implies #[trigger] s[a] < all.len() && key_of(
                all[s[a] as int],
            ) == key by {
                if a < before.len() {
                    assert(before[a] < plans.len());
                    assert(key_of(plans[before[a] as int]) == key);
                }
            }
        } else {
            assert(index.dom().insert(key).contains(k));
            assert(index.contains_key(k));
            assert(after[k] == index[k]);
            assert(bucket_ok(plans, k, index[k]@));
            let s = index[k]@;
            assert forall|a: int| 0 <= a < s.len() implies #[trigger] s[a] < all.len() && key_of(
                all[s[a] as int],
            ) == k by {
                assert(s[a] < plans.len());
            }
        }
    }
    assert forall|i: int| 0 <= i < all.len() implies after.contains_key(key_of(#[trigger] all[i]))
        && after[key_of(all[i])]@.contains(i as usize) by {
        if i < plans.len() {
            assert(all[i] == plans[i]);
            let k = key_of(plans[i]);
            assert(index.contains_key(k));
            assert(index[k]@.contains(i as usize));
            assert(after.dom().contains(k));
            if k == key {
                let b = choose|b: int| 0 <= b < before.len() && #[trigger] before[b] == i as usize;
                assert(bucket@[b] == i as usize);
            }
        } else {
            assert(bucket@[before.len() as int] == i as usize);
        }
    }
}

/// A lookup right after an insert that stored its plan finds that plan: it is
/// the newest.
pub proof fn an_inserted_plan_is_found<F>(
    plans: Seq<PlanInner<F>>,
    plan: PlanInner<F>,
    current: u64,
    args: Seq<ErasedPlanArg<'_>>,
)
    requires
        plan.generation() == current,
        !holds_entry(plans, plan),
        inner::args_match(plan.layouts(), args),
    ensures
        ({
            let after = inserted(plans, plan, current);
            found(after, current, plan.device(), plan.opts(), args, after.len() - 1)
                && after.last() == plan
        }),
{
}

/// After an insert in the plan's own generation, whether or not an equal entry was
/// held before, a lookup for arguments of the plan's layout is served.
pub proof fn a_completed_miss_is_then_a_hit<F>(
    plans: Seq<PlanInner<F>>,
    plan: PlanInner<F>,
    args: Seq<ErasedPlanArg<'_>>,
)
    requires
        inner::args_match(plan.layouts(), args),
    ensures
        !none_serves(
            inserted(plans, plan, plan.generation()),
            plan.generation(),
            plan.device(),
            plan.opts(),
            args,
        ),
{
    let after = inserted(plans, plan, plan.generation());
    let k = if holds_entry(plans, plan) {
        choose|k: int| 0 <= k < plans.len() && (#[trigger] plans[k]).is_same_entry(plan)
    } else {
        plans.len() as int
    };
    assert(after[k].is_same_entry(plan));
    assert(serves(after[k], plan.generation(), plan.device(), plan.opts(), args));
}

/// A plan of an older generation is never served.
pub proof fn stale_plans_are_not_served<F>(
    plan: PlanInner<F>,
    epoch: u64,
    device_id: usize,
    options: OptionsModel,
    args: Seq<ErasedPlanArg<'_>>,
)
    requires
        plan.generation() != epoch,
    ensures
        !serves(plan, epoch, device_id, options, args),
{
}

/// Inserting twice stores at most one plan.
pub proof fn inserting_twice_stores_one_plan<F>(
    plans: Seq<PlanInner<F>>,
    plan: PlanInner<F>,
    current: u64,
)
    ensures
        inserted(inserted(plans, plan, current), plan, current) == inserted(plans, plan, current),
{
    let once = inserted(plans, plan, current);
    if plan.generation() == current && !holds_entry(plans, plan) {
        assert(once[plans.len() as int].is_same_entry(plan));
        assert(holds_entry(once, plan));
    }
}

/// Empties every plan map: what an eviction from the kernel cache does, after it
/// began a new generation.
pub fn clear_plan_caches<F>(stores: &mut Vec<PlanMap<F>>)
    ensures
        final(stores)@.len() == old(stores)@.len(),
        forall|i: int|
            0 <= i < final(stores)@.len() ==> (#[trigger] final(stores)@[i]).wf()
                && final(stores)@[i].contents() == Seq::<PlanInner<F>>::empty(),
{
    let n = stores.len();
    let mut i: usize = 0;
    while i < n
        invariant
            n == stores@.len(),
            n == old(stores)@.len(),
            i <= n,
            forall|k: int|
                0 <= k < i ==> (#[trigger] stores@[k]).wf() && stores@[k].contents() == Seq::<
                    PlanInner<F>,
                >::empty(),
        decreases n - i,
    {
        stores.set(i, PlanMap::new());
        i += 1;
    }
}

/// Whatever order an insert and an eviction to generation `next` come in, the
/// plan of the older generation is not stored afterwards: the eviction empties
/// what was inserted before it, and the insert refuses the plan after it.
pub proof fn an_eviction_outlives_no_older_plan<F>(
    plans: Seq<PlanInner<F>>,
    plan: PlanInner<F>,
    next: u64,
)
    requires
        plan.generation() != next,
    ensures
        inserted(Seq::empty(), plan, next) == Seq::<PlanInner<F>>::empty(),
        inserted(plans, plan, next) == plans,
{
}

/// A plan serves a lookup exactly when it is of the generation asked for, of the device
/// and the options, and each argument has the layout of its parameter.
pub proof fn a_plan_serves_its_own_lookups<F>(
    plan: PlanInner<F>,
    epoch: u64,
    device_id: usize,
    options: OptionsModel,
    args: Seq<ErasedPlanArg<'_>>,
)
    ensures
        serves(plan, epoch, device_id, options, args) <==> plan.generation() == epoch
            && plan.device() == device_id && plan.opts() == options && args.len()
            == plan.layouts().len() && forall|i: int|
            0 <= i < args.len() ==> crate::plan::argument::has_layout(
                (#[trigger] args[i]).key@,
                args[i].hint,
                plan.layouts()[i],
            ),
{
}

/// A lookup finds a plan exactly when some plan serves it: the newest where that one
/// does, and the oldest that does otherwise. It finds one plan only.
pub proof fn a_lookup_finds_the_newest_or_the_oldest<F>(
    plans: Seq<PlanInner<F>>,
    epoch: u64,
    device_id: usize,
    options: OptionsModel,
    args: Seq<ErasedPlanArg<'_>>,
    i: int,
)
    requires
        0 <= i < plans.len(),
        serves(plans[i], epoch, device_id, options, args),
        i < plans.len() - 1 ==> !serves(plans[plans.len() - 1], epoch, device_id, options, args),
        i < plans.len() - 1 ==> forall|k: int|
            0 <= k < i ==> !serves(#[trigger] plans[k], epoch, device_id, options, args),
    ensures
        forall|j: int| #[trigger] found(plans, epoch, device_id, options, args, j) <==> j == i,
        !none_serves(plans, epoch, device_id, options, args),
{
    assert forall|j: int| #[trigger]
        found(plans, epoch, device_id, options, args, j) implies j == i by {
        assert(plans.last() == plans[plans.len() - 1]);
        if j < i {
            if i < plans.len() - 1 {
                assert(!serves(plans[j], epoch, device_id, options, args));
            }
        } else if j > i {
            if j < plans.len() - 1 {
                assert(!serves(plans[i], epoch, device_id, options, args));
            }
        }
    }
}

/// A lookup that finds nothing is one that no plan serves.
pub proof fn a_lookup_misses_only_where_none_serves<F>(
    plans: Seq<PlanInner<F>>,
    epoch: u64,
    device_id: usize,
    options: OptionsModel,
    args: Seq<ErasedPlanArg<'_>>,
)
    ensures
        none_serves(plans, epoch, device_id, options, args) <==> forall|i: int|
            0 <= i < plans.len() ==> !serves(
                #[trigger] plans[i],
                epoch,
                device_id,
                options,
                args,
            ),
        none_serves(plans, epoch, device_id, options, args) ==> forall|i: int| !#[trigger]
            found(plans, epoch, device_id, options, args, i),
{
}

/// An insert keeps the plans before it in place. It adds the plan exactly when the plan
/// is of the current generation and none is stored with its generation, device, options
/// and layouts.
pub proof fn an_insert_adds_a_new_entry_behind_the_others<F>(
    plans: Seq<PlanInner<F>>,
    plan: PlanInner<F>,
    current: u64,
)
    ensures
        ({
            let after = inserted(plans, plan, current);
            let new = plan.generation() == current && forall|k: int|
                0 <= k < plans.len() ==> !((#[trigger] plans[k]).generation() == plan.generation()
                    && plans[k].device() == plan.device() && plans[k].opts() == plan.opts()
                    && plans[k].layouts() == plan.layouts());
            &&& after.len() == plans.len() + (if new {
                1int
            } else {
                0
            })
            &&& forall|k: int| 0 <= k < plans.len() ==> #[trigger] after[k] == plans[k]
            &&& new ==> after[plans.len() as int] == plan
        }),
{
    if forall|k: int|
        0 <= k < plans.len() ==> !((#[trigger] plans[k]).generation() == plan.generation()
            && plans[k].device() == plan.device() && plans[k].opts() == plan.opts()
            && plans[k].layouts() == plan.layouts()) {
        assert(!holds_entry(plans, plan));
    } else {
        let k = choose|k: int|
            0 <= k < plans.len() && (#[trigger] plans[k]).generation() == plan.generation()
                && plans[k].device() == plan.device() && plans[k].opts() == plan.opts()
                && plans[k].layouts() == plan.layouts();
        assert(plans[k].is_same_entry(plan));
    }
}

/// An insert keeps one plan per entry.
pub proof fn an_insert_keeps_one_plan_per_entry<F>(
    plans: Seq<PlanInner<F>>,
    plan: PlanInner<F>,
    current: u64,
)
    requires
        one_plan_per_entry(plans),
    ensures
        one_plan_per_entry(inserted(plans, plan, current)),
{
    let after = inserted(plans, plan, current);
    assert forall|i: int, j: int| 0 <= i < j < after.len() implies !(
    #[trigger] after[i]).is_same_entry(#[trigger] after[j]) by {
        assert(after[i] == plans[i]);
        if j < plans.len() {
            assert(after[j] == plans[j]);
        }
    }
}

/// A plan is stored under the hash of its device, options and layouts.
pub proof fn a_plan_is_stored_under_its_key<F>(plan: PlanInner<F>)
    ensures
        key_of(plan) == crate::plan::key::fx_words(
            inner::key_words(plan.device(), plan.opts(), inner::layout_keys(plan.layouts())),
        ),
{
}

} // verus!
