//! Typed plans, the sink that collects one from a launcher, and plan caches.
//!
//! A plan's type says how it may launch: a [`Safe`] plan through
//! [`LaunchPlan::launch`], an [`Unchecked`] plan of an `unsafe` entry point or of
//! a programmatic dependent launch only through the unchecked methods.
use std::marker::PhantomData;
use std::sync::Arc;
use vstd::prelude::*;

use crate::error::{DeviceError, InternalFault, LaunchFault};
use crate::plan::argument;
use crate::plan::argument::{ErasedPlanArg, RawArg};
use crate::plan::inner;
use crate::plan::inner::{CapturedLaunch, LayoutCheck, PlanInner, ReplayLaunch};
use crate::plan::options::{OptionsModel, PlanOptions};
use crate::plan::param::{PlanArgs, SealedSafety};
use crate::plan::store;
use crate::plan::store::PlanMap;
use crate::text;

verus! {

/// Marks what an entry point generates: its kernel marker and its launcher.
pub trait EntryGenerated {

}

/// Names one entry point in types.
pub trait Kernel: EntryGenerated + Sized {
    /// The entry point's parameter kinds, in order: a tuple of parameter markers.
    type Params;

    /// The entry point's path, `module::function`.
    const PATH: &'static str;
}

/// How a [`LaunchPlan`] may be launched: [`Safe`] or [`Unchecked`].
pub trait PlanSafety: SealedSafety {
    /// Plans of this kind need no unsafe launch.
    spec fn is_safe() -> bool;
}

/// A plan that launches safely.
pub struct Safe {
    marker: (),
}

/// A plan that launches only through the unchecked methods.
pub struct Unchecked {
    marker: (),
}

impl SealedSafety for Safe {

}

impl PlanSafety for Safe {
    open spec fn is_safe() -> bool {
        true
    }
}

impl SealedSafety for Unchecked {

}

impl PlanSafety for Unchecked {
    open spec fn is_safe() -> bool {
        false
    }
}

/// A launch of kernel `K` resolved for one argument layout, launched as `S`
/// allows. `F` is the compiled function.
pub struct LaunchPlan<F, K: Kernel, S: PlanSafety> {
    inner: Arc<PlanInner<F>>,
    marker: PhantomData<(K, S)>,
}

/// A plan bound to its arguments.
pub struct PlannedLaunch<F, A> {
    plan: Arc<PlanInner<F>>,
    args: A,
    layout: LayoutCheck,
}

impl<F, K: Kernel, S: PlanSafety> LaunchPlan<F, K, S> {
    pub closed spec fn plan(self) -> PlanInner<F> {
        *self.inner
    }

    /// The plan is one of kernel `K`, and one of a safe entry point without
    /// programmatic dependent launch where `S` is [`Safe`].
    #[verifier::type_invariant]
    pub open spec fn wf(self) -> bool {
        &&& self.plan().wf()
        &&& self.plan().path() == K::PATH@
        &&& S::is_safe() ==> !self.plan().from_unsafe_entry() && !self.plan().dependent()
    }

    fn wrap(inner: Arc<PlanInner<F>>) -> (r: LaunchPlan<F, K, S>)
        requires
            inner.path() == K::PATH@,
            S::is_safe() ==> !inner.from_unsafe_entry() && !inner.dependent(),
        ensures
            r.plan() == *inner,
            r.wf(),
    {
        let wrapped: &PlanInner<F> = &inner;
        proof {
            use_type_invariant(wrapped);
        }
        LaunchPlan { inner, marker: PhantomData }
    }

    /// Another handle to the plan.
    pub fn share(&self) -> (r: LaunchPlan<F, K, S>)
        ensures
            r.plan() == self.plan(),
            r.wf(),
    {
        proof {
            use_type_invariant(self);
        }
        LaunchPlan::wrap(store::share(&self.inner))
    }

    /// The path of the entry point this plan launches.
    pub fn kernel(&self) -> (r: &'static str)
        ensures
            r@ == K::PATH@,
    {
        K::PATH
    }

    /// The builder options this plan was built with.
    pub fn options(&self) -> (r: &PlanOptions)
        ensures
            r@ == self.plan().opts(),
    {
        self.inner.options()
    }

    /// The compiled function the plan launches.
    pub fn function(&self) -> (r: &F)
        ensures
            *r == self.plan().func(),
    {
        self.inner.function()
    }

    /// Whether the plan was built with programmatic dependent launch.
    pub fn is_programmatic_dependent_launch(&self) -> (r: bool)
        ensures
            r == self.plan().dependent(),
    {
        self.inner.is_programmatic_dependent_launch()
    }

    /// Whether `args` have exactly the layout this plan was built for.
    pub fn matches<A: PlanArgs<K::Params>>(&self, args: &A) -> (r: bool)
        ensures
            r == inner::args_match(self.plan().layouts(), args.erased()),
    {
        let erased = args.erase();
        erased.len() == self.inner.param_count() && self.inner.matches(erased.as_slice())
    }

    /// A launch with raw pointers and scalars, checked against the plan. The
    /// guard keeps the compiled function until the kernel completes.
    pub fn launch_raw(&self, device_id: usize, args: &[RawArg]) -> (r: Result<
        RawLaunch<F>,
        DeviceError,
    >)
        ensures
            if args@.len() != self.plan().layouts().len() {
                r == Err::<RawLaunch<F>, DeviceError>(
                    DeviceError::Launch(
                        LaunchFault::ArgumentCount {
                            expected: self.plan().layouts().len() as usize,
                            given: args@.len() as usize,
                        },
                    ),
                )
            } else if device_id != self.plan().device() {
                r == Err::<RawLaunch<F>, DeviceError>(
                    DeviceError::Launch(
                        LaunchFault::PlanDevice { plan: self.plan().device(), stream: device_id },
                    ),
                )
            } else {
                match r {
                    Ok(guard) => {
                        &&& inner::raw_check_result(self.plan().layouts(), args@, Ok(()))
                        &&& self.plan().replays(inner::raw_bits(args@), guard.submitted())
                        &&& guard.kept() == self.plan().func()
                    },
                    Err(e) => inner::raw_check_result(self.plan().layouts(), args@, Err(e)),
                }
            },
    {
        match self.inner.launch_raw(device_id, args) {
            Ok(launch) => Ok(RawLaunch { plan: store::share(&self.inner), launch }),
            Err(e) => Err(e),
        }
    }

    /// [`launch_raw`](Self::launch_raw) without its checks: the caller passes one
    /// argument per parameter that meets them.
    pub fn launch_raw_unchecked(&self, args: &[RawArg]) -> (r: ReplayLaunch)
        requires
            args@.len() == self.plan().layouts().len(),
        ensures
            self.plan().replays(inner::raw_bits(args@), r),
    {
        self.inner.launch_raw_unchecked(args)
    }
}

/// A kernel submitted with raw arguments: what the driver is handed, and the
/// compiled function, whose module stays loaded while the guard lives.
pub struct RawLaunch<F> {
    plan: Arc<PlanInner<F>>,
    launch: ReplayLaunch,
}

impl<F> RawLaunch<F> {
    /// What the driver is handed.
    pub closed spec fn submitted(self) -> ReplayLaunch {
        self.launch
    }

    /// The function that the guard keeps.
    pub closed spec fn kept(self) -> F {
        self.plan.func()
    }

    /// What the driver is handed.
    pub fn launch(&self) -> (r: &ReplayLaunch)
        ensures
            *r == self.submitted(),
    {
        &self.launch
    }

    /// The function that the guard keeps.
    pub fn function(&self) -> (r: &F)
        ensures
            *r == self.kept(),
    {
        self.plan.function()
    }
}

impl<F, K: Kernel> LaunchPlan<F, K, Safe> {
    /// A launch of this plan over `args`, whose layout is still to be checked.
    pub fn launch<A: PlanArgs<K::Params>>(&self, args: A) -> (r: PlannedLaunch<F, A>)
        ensures
            r.bound_plan() == self.plan(),
            r.bound_args() == args,
            r.pending(),
    {
        PlannedLaunch { plan: store::share(&self.inner), args, layout: LayoutCheck::Pending }
    }
}

impl<F, K: Kernel> LaunchPlan<F, K, Unchecked> {
    /// A launch of an unchecked plan over `args`: the caller upholds the entry
    /// point's contract. The layout is still checked.
    pub fn launch_unchecked<A: PlanArgs<K::Params>>(&self, args: A) -> (r: PlannedLaunch<F, A>)
        ensures
            r.bound_plan() == self.plan(),
            r.bound_args() == args,
            r.pending(),
    {
        PlannedLaunch { plan: store::share(&self.inner), args, layout: LayoutCheck::Pending }
    }
}

impl<F, A> PlannedLaunch<F, A> {
    pub closed spec fn bound_plan(self) -> PlanInner<F> {
        *self.plan
    }

    pub closed spec fn bound_args(self) -> A {
        self.args
    }

    /// The layout of the arguments is still to be checked.
    pub closed spec fn pending(self) -> bool {
        self.layout == LayoutCheck::Pending
    }

    /// The arguments, handed back after the launch.
    pub fn into_args(self) -> (r: A)
        ensures
            r == self.bound_args(),
    {
        self.args
    }

    /// The compiled function, which the submission keeps until the kernel
    /// completes.
    pub fn function(&self) -> (r: &F)
        ensures
            *r == self.bound_plan().func(),
    {
        self.plan.function()
    }

    /// Whether there is one argument per parameter of the plan.
    pub fn has_all_arguments<P>(&self) -> (r: bool) where A: PlanArgs<P>
        ensures
            r == (self.bound_args().erased().len() == self.bound_plan().layouts().len()),
    {
        let erased = self.args.erase();
        erased.len() == self.plan.param_count()
    }

    /// The accesses to acquire once the launch is resolved and before it is
    /// submitted: the position and the write flag of each tensor argument, in
    /// order.
    pub fn accesses<P>(&self) -> (r: Vec<(usize, bool)>) where A: PlanArgs<P>
        ensures
            r@ == argument::accesses(self.bound_args().erased()),
    {
        let erased = self.args.erase();
        argument::accesses_of(erased.as_slice())
    }

    /// Resolves the launch on a device: what the driver is handed, or the refusal
    /// of another device or layout. Each of the launch's
    /// [`accesses`](Self::accesses) is acquired before it is submitted.
    pub fn execute<P>(&self, device_id: usize) -> (r: Result<ReplayLaunch, DeviceError>) where
        A: PlanArgs<P>,

        requires
            self.bound_args().erased().len() == self.bound_plan().layouts().len(),
        ensures
            if device_id != self.bound_plan().device() {
                r == Err::<ReplayLaunch, DeviceError>(
                    DeviceError::Launch(
                        LaunchFault::PlanDevice {
                            plan: self.bound_plan().device(),
                            stream: device_id,
                        },
                    ),
                )
            } else {
                match r {
                    Ok(launch) => (self.pending() ==> inner::args_match(
                        self.bound_plan().layouts(),
                        self.bound_args().erased(),
                    )) && self.bound_plan().replays(
                        inner::arg_slots(self.bound_args().erased()),
                        launch,
                    ),
                    Err(e) => self.pending() && inner::layout_check_result(
                        self.bound_plan().layouts(),
                        self.bound_args().erased(),
                        Err(e),
                    ),
                }
            },
    {
        let erased = self.args.erase();
        self.plan.execute(device_id, self.layout, erased.as_slice())
    }
}

/// Collects the plan from a launcher running in plan mode.
pub struct PlanSink<F> {
    captured: Option<Arc<PlanInner<F>>>,
}

impl<F> PlanSink<F> {
    /// The captured plan, if any.
    pub closed spec fn held(self) -> Option<PlanInner<F>> {
        match self.captured {
            Some(plan) => Some(*plan),
            None => None,
        }
    }

    /// An empty sink.
    pub fn new() -> (r: PlanSink<F>)
        ensures
            r.held() is None,
    {
        PlanSink { captured: None }
    }

    /// Captures a launch in place of submitting it.
    pub fn capture(&mut self, device_id: usize, captured: CapturedLaunch<'_, F>) -> (r: Result<
        (),
        DeviceError,
    >)
        ensures
            match r {
                Ok(()) => final(self).held() matches Some(plan) && inner::plannable(
                    captured.launch.parts(),
                    captured.launch_checks@,
                    captured.layouts@,
                    captured.param_starts@,
                ) && plan.slots_distinct() && plan.captures(
                    captured.launch.parts(),
                    captured.kernel@,
                    device_id,
                    captured.epoch,
                    captured.layouts@,
                    captured.unsafe_entry,
                    captured.options@,
                ),
                Err(e) => final(self).held() == old(self).held() && inner::capture_fault(
                    captured.launch.parts(),
                    captured.launch_checks@,
                    captured.layouts@,
                    captured.param_starts@,
                    e,
                ),
            },
    {
        match PlanInner::from_launch(device_id, captured) {
            Ok(plan) => {
                self.captured = Some(Arc::new(plan));
                Ok(())
            },
            Err(e) => Err(e),
        }
    }

    /// Takes the captured plan of `kernel`; the sink is empty afterwards.
    fn take(&mut self, kernel: &str) -> (r: Result<Arc<PlanInner<F>>, DeviceError>)
        ensures
            final(self).held() is None,
            match old(self).held() {
                None => r == Err::<Arc<PlanInner<F>>, DeviceError>(
                    DeviceError::Launch(LaunchFault::NothingCaptured),
                ),
                Some(plan) => if plan.path() != kernel@ {
                    wrong_kernel(plan, kernel@, r is Err, r->Err_0)
                } else {
                    r matches Ok(p) && *p == plan
                },
            },
    {
        let taken = self.captured.take();
        match taken {
            None => Err(DeviceError::Launch(LaunchFault::NothingCaptured)),
            Some(plan) => {
                if !text::same_text(plan.kernel(), kernel) {
                    return Err(
                        DeviceError::Internal(
                            InternalFault::WrongKernel {
                                plan: plan.kernel().to_owned(),
                                kernel: kernel.to_owned(),
                            },
                        ),
                    );
                }
                Ok(plan)
            },
        }
    }

    /// The captured plan, as a safe plan of `K`: refused for an unsafe entry
    /// point or a programmatic dependent launch.
    pub fn finish<K: Kernel>(&mut self) -> (r: Result<LaunchPlan<F, K, Safe>, DeviceError>)
        ensures
            final(self).held() is None,
            match old(self).held() {
                None => r == Err::<LaunchPlan<F, K, Safe>, DeviceError>(
                    DeviceError::Launch(LaunchFault::NothingCaptured),
                ),
                Some(plan) => if plan.path() != K::PATH@ {
                    wrong_kernel(plan, K::PATH@, r is Err, r->Err_0)
                } else if plan.from_unsafe_entry() || plan.dependent() {
                    r matches Err(
                        DeviceError::Internal(InternalFault::NeedsUnsafeLaunch { kernel }),
                    ) && kernel@ == plan.path()
                } else {
                    r matches Ok(p) && p.plan() == plan && p.wf()
                },
            },
    {
        match self.take(K::PATH) {
            Ok(plan) => {
                if plan.is_unsafe_entry() || plan.is_programmatic_dependent_launch() {
                    return Err(
                        DeviceError::Internal(
                            InternalFault::NeedsUnsafeLaunch { kernel: plan.kernel().to_owned() },
                        ),
                    );
                }
                Ok(LaunchPlan::wrap(plan))
            },
            Err(e) => Err(e),
        }
    }

    /// The captured plan, as an unchecked plan of `K`.
    pub fn finish_unchecked<K: Kernel>(&mut self) -> (r: Result<
        LaunchPlan<F, K, Unchecked>,
        DeviceError,
    >)
        ensures
            final(self).held() is None,
            match old(self).held() {
                None => r == Err::<LaunchPlan<F, K, Unchecked>, DeviceError>(
                    DeviceError::Launch(LaunchFault::NothingCaptured),
                ),
                Some(plan) => if plan.path() != K::PATH@ {
                    wrong_kernel(plan, K::PATH@, r is Err, r->Err_0)
                } else {
                    r matches Ok(p) && p.plan() == plan && p.wf()
                },
            },
    {
        match self.take(K::PATH) {
            Ok(plan) => Ok(LaunchPlan::wrap(plan)),
            Err(e) => Err(e),
        }
    }
}

/// A plan of another kernel was refused.
pub open spec fn wrong_kernel<F>(
    plan: PlanInner<F>,
    kernel: Seq<char>,
    refused: bool,
    e: DeviceError,
) -> bool {
    &&& refused
    &&& e matches DeviceError::Internal(InternalFault::WrongKernel { plan: p, kernel: k })
    &&& p@ == plan.path()
    &&& k@ == kernel
}

/// A generated launcher that can build a safe plan, on a stream of type `S`.
///
/// Only an entry point's own launcher is one: the plan it builds is well formed,
/// has one layout per argument, and records exactly the options it was given.
pub trait PlanLauncher<F, S>: EntryGenerated + Sized {
    /// The entry point's marker.
    type Kernel: Kernel;

    /// The arguments the launch returns.
    type Args: PlanArgs<<Self::Kernel as Kernel>::Params>;

    /// Replaces the launcher's options with `options`, resolves the launch into a
    /// plan without launching the kernel, and hands the arguments back.
    fn plan_with(self, options: &PlanOptions, stream: &S) -> (r: Result<
        (LaunchPlan<F, Self::Kernel, Safe>, Self::Args),
        DeviceError,
    >)
        ensures
            r matches Ok((plan, args)) ==> plan.wf() && plan.plan().opts() == options@
                && args.erased().len() == plan.plan().layouts().len(),
    ;
}

/// One kernel's safe plans, keyed by device, builder options and argument
/// layout.
pub struct PlanCache<F, K: Kernel> {
    plans: PlanMap<F>,
    marker: PhantomData<K>,
}

/// What a cache does with a launch: replay a stored plan, or have one built from
/// the arguments, whose slot values it records.
pub enum CacheStep<F, K: Kernel> {
    Hit(LaunchPlan<F, K, Safe>),
    Miss { given: Vec<u128> },
}

impl<F, K: Kernel> PlanCache<F, K> {
    /// The stored plans, oldest first.
    pub closed spec fn contents(self) -> Seq<PlanInner<F>> {
        self.plans.contents()
    }

    /// Every stored plan is a safe plan of `K`, and no two have one entry.
    #[verifier::type_invariant]
    pub closed spec fn wf(self) -> bool {
        &&& self.plans.wf()
        &&& forall|i: int|
            0 <= i < self.contents().len() ==> is_safe_plan::<F, K>(#[trigger] self.contents()[i])
    }

    /// What holds of every well-formed cache.
    pub proof fn wf_facts(self)
        requires
            self.wf(),
        ensures
            store::one_plan_per_entry(self.contents()),
            forall|i: int|
                0 <= i < self.contents().len() ==> is_safe_plan::<F, K>(
                    #[trigger] self.contents()[i],
                ),
    {
        self.plans.wf_facts();
    }

    /// An empty cache.
    pub fn new() -> (r: PlanCache<F, K>)
        ensures
            r.wf(),
            r.contents() == Seq::<PlanInner<F>>::empty(),
    {
        PlanCache { plans: PlanMap::new(), marker: PhantomData }
    }

    /// The stored plan for a device, built with `options`, whose layout `args`
    /// match, if any.
    pub fn get<A: PlanArgs<K::Params>>(
        &self,
        epoch: u64,
        device_id: usize,
        options: &PlanOptions,
        args: &A,
    ) -> (r: Option<LaunchPlan<F, K, Safe>>)
        ensures
            match r {
                Some(p) => p.wf() && exists|i: int|
                    store::found(
                        self.contents(),
                        epoch,
                        device_id,
                        options@,
                        args.erased(),
                        i,
                    ) && #[trigger] self.contents()[i] == p.plan(),
                None => store::none_serves(
                    self.contents(),
                    epoch,
                    device_id,
                    options@,
                    args.erased(),
                ),
            },
    {
        proof {
            use_type_invariant(self);
        }
        let erased = args.erase();
        match self.plans.get(epoch, device_id, options, erased.as_slice()) {
            Some(plan) => {
                proof {
                    let i = choose|i: int|
                        store::found(
                            self.contents(),
                            epoch,
                            device_id,
                            options@,
                            args.erased(),
                            i,
                        ) && #[trigger] self.contents()[i] == *plan;
                    assert(is_safe_plan::<F, K>(self.contents()[i]));
                }
                Some(LaunchPlan::wrap(plan))
            },
            None => None,
        }
    }

    /// Adds `plan`, unless the cache already holds one for the same generation,
    /// device, options and layout, or the plan is of an older generation.
    pub fn insert(&mut self, plan: LaunchPlan<F, K, Safe>, current: u64)
        ensures
            final(self).wf(),
            final(self).contents() == store::inserted(old(self).contents(), plan.plan(), current),
    {
        proof {
            use_type_invariant(&*self);
            use_type_invariant(&plan);
        }
        let ghost before = self.contents();
        let mut plans = PlanMap::new();
        std::mem::swap(&mut plans, &mut self.plans);
        plans.insert(plan.inner, current);
        assert forall|i: int| 0 <= i < plans.contents().len() implies is_safe_plan::<F, K>(
            #[trigger] plans.contents()[i],
        ) by {
            if i < before.len() {
                assert(plans.contents()[i] == before[i]);
            }
        }
        self.plans = plans;
    }

    /// The first step of a launch over `args`: the stored plan, or a miss with
    /// the arguments' slot values.
    pub fn begin<A: PlanArgs<K::Params>>(
        &self,
        epoch: u64,
        device_id: usize,
        options: &PlanOptions,
        args: &A,
    ) -> (r: CacheStep<F, K>)
        ensures
            match r {
                CacheStep::Hit(p) => p.wf() && exists|i: int|
                    store::found(
                        self.contents(),
                        epoch,
                        device_id,
                        options@,
                        args.erased(),
                        i,
                    ) && #[trigger] self.contents()[i] == p.plan(),
                CacheStep::Miss { given } => given@ == inner::arg_slots(args.erased())
                    && store::none_serves(
                    self.contents(),
                    epoch,
                    device_id,
                    options@,
                    args.erased(),
                ),
            },
    {
        match self.get(epoch, device_id, options, args) {
            Some(plan) => CacheStep::Hit(plan),
            None => {
                let erased = args.erase();
                CacheStep::Miss { given: inner::slot_values(erased.as_slice()) }
            },
        }
    }

    /// The last step of a launch that missed: `plan` was built from `args`, which
    /// the launcher handed back. Refused where the arguments do not have the
    /// plan's layout, or where the launcher handed back or marshalled another
    /// value than was `given`. Otherwise the plan is stored, and the launch needs
    /// no further layout check.
    pub fn complete<A: PlanArgs<K::Params>>(
        &mut self,
        current: u64,
        plan: LaunchPlan<F, K, Safe>,
        args: A,
        given: &Vec<u128>,
    ) -> (r: Result<PlannedLaunch<F, A>, DeviceError>)
        requires
            args.erased().len() == plan.plan().layouts().len(),
            given@.len() == args.erased().len(),
        ensures
            final(self).wf(),
            completed::<F, K::Params, A>(
                old(self).contents(),
                plan.plan(),
                args,
                given@,
                current,
                r,
                final(self).contents(),
            ),
    {
        proof {
            use_type_invariant(&*self);
            use_type_invariant(&plan);
        }
        let erased = args.erase();
        match plan.inner.check(erased.as_slice()) {
            Ok(()) => {},
            Err(e) => {
                return Err(e);
            },
        }
        let mut i: usize = 0;
        while i < erased.len()
            invariant
                i <= erased.len(),
                *self == *old(self),
                old(self).wf(),
                erased@ == args.erased(),
                erased@.len() == plan.plan().layouts().len(),
                given@.len() == erased@.len(),
                inner::args_match(plan.plan().layouts(), erased@),
                forall|k: int|
                    0 <= k < i ==> passed(plan.plan(), #[trigger] erased@[k], given@[k], k),
            decreases erased.len() - i,
        {
            let marshalled = plan.inner.marshalled(i);
            if erased[i].slot != given[i] || marshalled != given[i] {
                assert(!passed(plan.plan(), erased@[i as int], given@[i as int], i as int));
                return Err(DeviceError::Launch(LaunchFault::ChangedArgument { index: i }));
            }
            i += 1;
        }
        let launch = PlannedLaunch {
            plan: store::share(&plan.inner),
            args,
            layout: LayoutCheck::Done,
        };
        self.insert(plan, current);
        Ok(launch)
    }

    /// A launch over `args` with the stored plan for the device, the options and
    /// their layout. On a miss, `launcher` turns the arguments back into the
    /// kernel's launcher, which plans them on `stream`; the plan is stored unless
    /// it was not built from exactly these arguments. `now` reads the cache
    /// generation, for the lookup and again once the plan is built.
    pub fn launch<A, L, S, N, B>(
        &mut self,
        now: N,
        device_id: usize,
        options: &PlanOptions,
        args: A,
        stream: &S,
        launcher: B,
    ) -> (r: Result<PlannedLaunch<F, A>, DeviceError>) where
        A: PlanArgs<K::Params>,
        L: PlanLauncher<F, S, Kernel = K, Args = A>,
        N: Fn() -> u64,
        B: FnOnce(A) -> L,

        requires
            now.requires(()),
            launcher.requires((args,)),
        ensures
            final(self).wf(),
            exists|epoch: u64| #[trigger]
                now.ensures((), epoch) && if !store::none_serves(
                    old(self).contents(),
                    epoch,
                    device_id,
                    options@,
                    args.erased(),
                ) {
                    &&& served::<F, K::Params, A>(
                        old(self).contents(),
                        epoch,
                        device_id,
                        options@,
                        args,
                        r,
                    )
                    &&& final(self).contents() == old(self).contents()
                } else {
                    exists|l: L, built: Result<(LaunchPlan<F, K, Safe>, A), DeviceError>|
                        {
                            &&& #[trigger] launcher.ensures((args,), l)
                            &&& #[trigger] call_ensures(L::plan_with, (l, options, stream), built)
                            &&& match built {
                                Err(e) => r == Err::<PlannedLaunch<F, A>, DeviceError>(e)
                                    && final(self).contents() == old(self).contents(),
                                Ok((plan, back)) => exists|current: u64| #[trigger]
                                    now.ensures((), current) && completed::<F, K::Params, A>(
                                        old(self).contents(),
                                        plan.plan(),
                                        back,
                                        inner::arg_slots(args.erased()),
                                        current,
                                        r,
                                        final(self).contents(),
                                    ),
                            }
                        }
                },
    {
        proof {
            use_type_invariant(&*self);
        }
        let epoch = now();
        match self.begin(epoch, device_id, options, &args) {
            CacheStep::Hit(plan) => {
                let launch = hit(plan, args);
                Ok(launch)
            },
            CacheStep::Miss { given } => {
                proof {
                    args.has_arity();
                }
                let l = launcher(args);
                match l.plan_with(options, stream) {
                    Err(e) => Err(e),
                    Ok((plan, back)) => {
                        proof {
                            back.has_arity();
                        }
                        let current = now();
                        self.complete(current, plan, back, &given)
                    },
                }
            },
        }
    }

    /// How many plans are stored.
    pub fn len(&self) -> (r: usize)
        ensures
            r == self.contents().len(),
    {
        self.plans.len()
    }

    /// Whether no plan is stored.
    pub fn is_empty(&self) -> (r: bool)
        ensures
            r == (self.contents().len() == 0),
    {
        self.plans.is_empty()
    }

    /// Removes every plan.
    pub fn clear(&mut self)
        ensures
            final(self).wf(),
            final(self).contents() == Seq::<PlanInner<F>>::empty(),
    {
        *self = PlanCache::new();
    }
}

/// A launch of a stored plan, which the lookup matched: no further layout check.
pub fn hit<F, K: Kernel, A: PlanArgs<K::Params>>(plan: LaunchPlan<F, K, Safe>, args: A) -> (r:
    PlannedLaunch<F, A>)
    requires
        inner::args_match(plan.plan().layouts(), args.erased()),
    ensures
        r.bound_plan() == plan.plan(),
        r.bound_args() == args,
        !r.pending(),
{
    PlannedLaunch { plan: plan.inner, args, layout: LayoutCheck::Done }
}

/// The end of a launch that missed in a cache of `before`: `plan` was built, and
/// `args` handed back, from the values `given`.
pub open spec fn completed<F, P, A: PlanArgs<P>>(
    before: Seq<PlanInner<F>>,
    plan: PlanInner<F>,
    args: A,
    given: Seq<u128>,
    current: u64,
    r: Result<PlannedLaunch<F, A>, DeviceError>,
    after: Seq<PlanInner<F>>,
) -> bool {
    match r {
        Ok(launch) => {
            &&& inner::args_match(plan.layouts(), args.erased())
            &&& passed_through(plan, args.erased(), given)
            &&& after == store::inserted(before, plan, current)
            &&& launch.bound_plan() == plan
            &&& launch.bound_args() == args
            &&& !launch.pending()
        },
        Err(e) => {
            &&& after == before
            &&& if !inner::args_match(plan.layouts(), args.erased()) {
                inner::layout_check_result(plan.layouts(), args.erased(), Err(e))
            } else {
                changed_argument(plan, args.erased(), given, e)
            }
        },
    }
}

/// A launch that hit: a stored plan that serves it, bound to its arguments.
pub open spec fn served<F, P, A: PlanArgs<P>>(
    plans: Seq<PlanInner<F>>,
    epoch: u64,
    device_id: usize,
    options: OptionsModel,
    args: A,
    r: Result<PlannedLaunch<F, A>, DeviceError>,
) -> bool {
    &&& r matches Ok(launch)
    &&& launch.bound_args() == args
    &&& !launch.pending()
    &&& exists|i: int|
        store::found(plans, epoch, device_id, options, args.erased(), i) && #[trigger] plans[i]
            == launch.bound_plan()
}

/// A well-formed plan of `K` that launches safely.
pub open spec fn is_safe_plan<F, K: Kernel>(plan: PlanInner<F>) -> bool {
    &&& plan.wf()
    &&& plan.path() == K::PATH@
    &&& !plan.from_unsafe_entry()
    &&& !plan.dependent()
}

/// Argument `i` was handed back and marshalled as the value it was given.
pub open spec fn passed<F>(
    plan: PlanInner<F>,
    arg: ErasedPlanArg<'_>,
    given: u128,
    i: int,
) -> bool {
    arg.slot == given && plan.template()[plan.param_slots()[i] as int] == given
}

/// Every argument was passed through unchanged.
pub open spec fn passed_through<F>(
    plan: PlanInner<F>,
    args: Seq<ErasedPlanArg<'_>>,
    given: Seq<u128>,
) -> bool {
    forall|k: int| 0 <= k < args.len() ==> passed(plan, #[trigger] args[k], given[k], k)
}

/// The first argument that was not passed through.
pub open spec fn changed_argument<F>(
    plan: PlanInner<F>,
    args: Seq<ErasedPlanArg<'_>>,
    given: Seq<u128>,
    e: DeviceError,
) -> bool {
    e matches DeviceError::Launch(LaunchFault::ChangedArgument { index }) && index < args.len()
        && !passed(plan, args[index as int], given[index as int], index as int) && forall|k: int|
        0 <= k < index ==> passed(plan, #[trigger] args[k], given[k], k)
}

/// A miss ends in a launch exactly when the arguments that came back have the layouts
/// of the plan, and each has the value it was given and was marshalled with. The plan is
/// then stored and the launch bound to it; otherwise nothing is stored.
pub proof fn a_miss_ends_in_a_launch_where_nothing_changed<F, P, A: PlanArgs<P>>(
    before: Seq<PlanInner<F>>,
    plan: PlanInner<F>,
    args: A,
    given: Seq<u128>,
    current: u64,
    r: Result<PlannedLaunch<F, A>, DeviceError>,
    after: Seq<PlanInner<F>>,
)
    requires
        completed::<F, P, A>(before, plan, args, given, current, r, after),
    ensures
        r is Ok <==> inner::args_match(plan.layouts(), args.erased()) && forall|k: int|
            0 <= k < args.erased().len() ==> (#[trigger] args.erased()[k]).slot == given[k]
                && plan.template()[plan.param_slots()[k] as int] == given[k],
        r is Ok ==> after == store::inserted(before, plan, current) && r->Ok_0.bound_plan() == plan
            && r->Ok_0.bound_args() == args && !r->Ok_0.pending(),
        r is Err ==> after == before,
        r matches Err(DeviceError::Launch(LaunchFault::ChangedArgument { index })) ==> index
            < args.erased().len() && (args.erased()[index as int].slot != given[index as int]
            || plan.template()[plan.param_slots()[index as int] as int] != given[index as int])
            && forall|k: int|
            0 <= k < index ==> (#[trigger] args.erased()[k]).slot == given[k]
                && plan.template()[plan.param_slots()[k] as int] == given[k],
{
    let e = args.erased();
    if r is Ok {
        assert forall|k: int| 0 <= k < e.len() implies (#[trigger] e[k]).slot == given[k]
            && plan.template()[plan.param_slots()[k] as int] == given[k] by {
            assert(passed(plan, e[k], given[k], k));
        }
    } else if inner::args_match(plan.layouts(), e) {
        let index = r->Err_0->Launch_0->ChangedArgument_index as int;
        assert(!passed(plan, e[index], given[index], index));
        assert forall|k: int| 0 <= k < index implies (#[trigger] e[k]).slot == given[k]
            && plan.template()[plan.param_slots()[k] as int] == given[k] by {
            assert(passed(plan, e[k], given[k], k));
        }
    }
}

/// A served launch is bound to a stored plan that serves it and to its own arguments,
/// and needs no further check.
pub proof fn a_served_launch_is_bound_to_a_serving_plan<F, P, A: PlanArgs<P>>(
    plans: Seq<PlanInner<F>>,
    epoch: u64,
    device_id: usize,
    options: OptionsModel,
    args: A,
    r: Result<PlannedLaunch<F, A>, DeviceError>,
)
    requires
        served::<F, P, A>(plans, epoch, device_id, options, args, r),
    ensures
        r is Ok,
        r->Ok_0.bound_args() == args,
        !r->Ok_0.pending(),
        plans.contains(r->Ok_0.bound_plan()),
        store::serves(r->Ok_0.bound_plan(), epoch, device_id, options, args.erased()),
{
}

/// A plan is safe exactly when it is a well-formed plan of the kernel, of a safe entry
/// point, without programmatic dependent launch; only the safe kind asks for it.
pub proof fn safe_plans_are_of_safe_entries<F, K: Kernel>(plan: PlanInner<F>)
    ensures
        is_safe_plan::<F, K>(plan) <==> plan.wf() && plan.path() == K::PATH@
            && !plan.from_unsafe_entry() && !plan.dependent(),
        Safe::is_safe(),
        !Unchecked::is_safe(),
{
}

/// A refused kernel is named together with the plan's own.
pub proof fn a_refused_kernel_is_named<F>(
    plan: PlanInner<F>,
    kernel: Seq<char>,
    refused: bool,
    e: DeviceError,
)
    requires
        wrong_kernel(plan, kernel, refused, e),
    ensures
        refused,
        e matches DeviceError::Internal(InternalFault::WrongKernel { plan: p, kernel: k }) && p@
            == plan.path() && k@ == kernel,
{
}

/// A launch plan is one of its own kernel, and a safe one is of a safe entry point and
/// submitted without programmatic dependent launch.
pub proof fn a_launch_plan_is_of_its_kernel<F, K: Kernel, S: PlanSafety>(p: LaunchPlan<F, K, S>)
    ensures
        p.wf() <==> p.plan().wf() && p.plan().path() == K::PATH@ && (S::is_safe() ==> !(
        p.plan().from_unsafe_entry() || p.plan().dependent())),
{
}

} // verus!
