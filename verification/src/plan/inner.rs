//! A launch resolved for one argument layout.
use vstd::prelude::*;

use crate::error::{DeviceError, InternalFault, LaunchFault};
use crate::launch::{AsyncKernelLaunch, KernelLaunchParts, LaunchConfig, PartsModel};
use crate::plan::argument;
use crate::plan::argument::{ErasedPlanArg, RawArg};
use crate::plan::key;
use crate::plan::layout;
use crate::plan::layout::{ArgLayout, KeyModel, LayoutModel, UnsupportedParam};
use crate::plan::options::{OptionsModel, PlanOptions};
use crate::predicate;
use crate::predicate::{Atom, LaunchCheck, Predicate};

verus! {

/// A plan fixes the atom's value: shapes and partitions are part of the argument
/// layout, and the grid is fixed by the plan.
pub open spec fn pinned(atom: Atom) -> bool {
    match atom {
        Atom::Dim { .. } => true,
        Atom::ViewExtent { .. } => true,
        Atom::TileCount { .. } => true,
        Atom::NumTileBlocks(_) => true,
        Atom::Iv(_) => false,
        Atom::TileBlockId(_) => false,
    }
}

/// Whether a plan pins an atom's value, so that a launch check reading it holds
/// on every replay once it held when the plan was built.
pub fn fixed_by_plan(atom: &Atom) -> (r: bool)
    ensures
        r == pinned(*atom),
{
    match atom {
        Atom::Dim { .. } | Atom::ViewExtent { .. } | Atom::TileCount { .. } => true,
        Atom::NumTileBlocks(_) => true,
        Atom::Iv(_) | Atom::TileBlockId(_) => false,
    }
}

/// Every atom that the predicate reads is pinned.
pub open spec fn reads_pinned(p: Predicate) -> bool {
    forall|i: int| 0 <= i < p.subject().terms().len() ==> pinned((#[trigger] p.subject().terms()[i]).0)
}

fn check_is_pinned(check: &LaunchCheck) -> (r: bool)
    ensures
        r == reads_pinned(check.predicate),
{
    let atoms = check.predicate.atoms();
    let ghost terms = check.predicate.subject().terms();
    let mut i: usize = 0;
    while i < atoms.len()
        invariant
            terms == check.predicate.subject().terms(),
            atoms@ == terms.map_values(|e: (Atom, i64)| e.0),
            i <= atoms.len(),
            forall|k: int| 0 <= k < i ==> pinned((#[trigger] terms[k]).0),
        decreases atoms.len() - i,
    {
        assert(atoms@[i as int] == terms[i as int].0);
        if !fixed_by_plan(&atoms[i]) {
            return false;
        }
        i += 1;
    }
    true
}

/// A launch check that passed when the plan was built passes on every replay:
/// environments that agree on what a plan pins decide it alike.
pub proof fn pinned_checks_survive_replay(
    p: Predicate,
    built: spec_fn(Atom) -> Option<i64>,
    replayed: spec_fn(Atom) -> Option<i64>,
)
    requires
        reads_pinned(p),
        forall|a: Atom| pinned(a) ==> #[trigger] built(a) == replayed(a),
    ensures
        p.eval_spec(built) == p.eval_spec(replayed),
{
    let s = p.subject().terms();
    lemma_pinned_prefix(s, s.len() as int, p.subject().offset() as i64, built, replayed);
}

proof fn lemma_pinned_prefix(
    s: Seq<(Atom, i64)>,
    n: int,
    start: i64,
    built: spec_fn(Atom) -> Option<i64>,
    replayed: spec_fn(Atom) -> Option<i64>,
)
    requires
        0 <= n <= s.len(),
        forall|i: int| 0 <= i < s.len() ==> pinned((#[trigger] s[i]).0),
        forall|a: Atom| pinned(a) ==> #[trigger] built(a) == replayed(a),
    ensures
        predicate::eval_prefix(s, n, start, built) == predicate::eval_prefix(s, n, start, replayed),
    decreases n,
{
    if n > 0 {
        lemma_pinned_prefix(s, n - 1, start, built, replayed);
        assert(pinned(s[n - 1].0));
        assert(built(s[n - 1].0) == replayed(s[n - 1].0));
    }
}

/// A generated launcher's fully resolved launch, captured in place of submitting
/// it.
pub struct CapturedLaunch<'a, F> {
    /// The validated launch.
    pub launch: AsyncKernelLaunch<F>,
    /// The entry point's path.
    pub kernel: String,
    /// The cache generation, read before the launcher resolved the function.
    pub epoch: u64,
    /// The function's hoisted launch checks, which the launcher has passed.
    pub launch_checks: &'a [LaunchCheck],
    /// Each parameter's layout, in order.
    pub layouts: Vec<Result<ArgLayout, UnsupportedParam>>,
    /// Each parameter's first driver argument, in order.
    pub param_starts: &'a [usize],
    /// Whether the entry point is `unsafe`.
    pub unsafe_entry: bool,
    /// The builder options the launcher was given.
    pub options: PlanOptions,
}

struct PlanParam {
    layout: ArgLayout,
    /// Slot holding this parameter's pointer or scalar value.
    slot: usize,
}

/// A launch of a kernel resolved for one argument layout: the function, the
/// launch configuration, and the argument values as a template that a replay
/// patches.
pub struct PlanInner<F> {
    kernel: String,
    function: F,
    cfg: LaunchConfig,
    programmatic_dependent_launch: bool,
    device_id: usize,
    epoch: u64,
    unsafe_entry: bool,
    options: PlanOptions,
    values: Vec<u128>,
    offsets: Vec<usize>,
    params: Vec<PlanParam>,
}

/// The first driver argument of parameter `n`: the arguments of the parameters
/// before it.
pub open spec fn arg_start(layouts: Seq<LayoutModel>, n: int) -> int
    decreases n,
{
    if n <= 0 {
        0
    } else {
        arg_start(layouts, n - 1) + layouts[n - 1].arg_count_spec()
    }
}

/// One past the last driver argument that the launcher recorded for parameter
/// `i` of `total` arguments.
pub open spec fn span_end(starts: Seq<usize>, total: int, i: int) -> int {
    if i + 1 < starts.len() {
        starts[i + 1] as int
    } else {
        total
    }
}

/// The recorded span of parameter `i` is the one its layout accounts for, and its
/// first argument exists.
pub open spec fn param_fits(
    layout: Result<ArgLayout, UnsupportedParam>,
    starts: Seq<usize>,
    total: int,
    i: int,
) -> bool {
    &&& layout is Ok
    &&& span_end(starts, total, i) - starts[i] == layout->Ok_0@.arg_count_spec()
    &&& starts[i] < total
}

/// Why parameter `i` is refused.
pub open spec fn param_fault(
    layout: Result<ArgLayout, UnsupportedParam>,
    starts: Seq<usize>,
    total: int,
    i: int,
    e: DeviceError,
) -> bool {
    match layout {
        Err(UnsupportedParam(what)) => e matches DeviceError::Launch(
            LaunchFault::UnsupportedParam { index, what: w },
        ) && index == i && w@ == what@,
        Ok(l) => if span_end(starts, total, i) - starts[i] != l@.arg_count_spec() {
            e matches DeviceError::Internal(
                InternalFault::ParamSpan { index, start, end, count },
            ) && index == i && start == starts[i] && end == span_end(starts, total, i) && (
            l@.arg_count_spec() <= usize::MAX ==> count == l@.arg_count_spec())
        } else {
            e matches DeviceError::Internal(InternalFault::NoArgument { start, index }) && start
                == starts[i] && index == i
        },
    }
}

/// The first argument that lies outside the value slots.
pub open spec fn stray_offset(offsets: Seq<usize>, slots: int, i: int) -> bool {
    &&& 0 <= i < offsets.len()
    &&& offsets[i] >= slots
    &&& forall|k: int| 0 <= k < i ==> #[trigger] offsets[k] < slots
}

/// The first launch check that reads what a plan does not pin.
pub open spec fn unpinned_check(checks: Seq<LaunchCheck>, i: int) -> bool {
    &&& 0 <= i < checks.len()
    &&& !reads_pinned(checks[i].predicate)
    &&& forall|k: int| 0 <= k < i ==> reads_pinned((#[trigger] checks[k]).predicate)
}

/// Every launch check reads only what a plan pins.
pub open spec fn all_pinned(checks: Seq<LaunchCheck>) -> bool {
    forall|k: int| 0 <= k < checks.len() ==> reads_pinned((#[trigger] checks[k]).predicate)
}

/// Every argument lies inside the value slots.
pub open spec fn offsets_inside(offsets: Seq<usize>, slots: int) -> bool {
    forall|k: int| 0 <= k < offsets.len() ==> #[trigger] offsets[k] < slots
}

/// The first parameter starts at argument 0; without parameters there are no
/// arguments.
pub open spec fn starts_at_zero(starts: Seq<usize>, total: int) -> bool {
    if starts.len() > 0 {
        starts[0] == 0
    } else {
        total == 0
    }
}

/// A captured launch can be planned.
pub open spec fn plannable<F>(
    parts: PartsModel<F>,
    checks: Seq<LaunchCheck>,
    layouts: Seq<Result<ArgLayout, UnsupportedParam>>,
    starts: Seq<usize>,
) -> bool {
    let total = parts.offsets.len() as int;
    &&& all_pinned(checks)
    &&& parts.cfg is Some
    &&& offsets_inside(parts.offsets, parts.values.len() as int)
    &&& starts.len() == layouts.len()
    &&& starts_at_zero(starts, total)
    &&& forall|i: int| 0 <= i < layouts.len() ==> param_fits(#[trigger] layouts[i], starts, total, i)
}

/// Why a captured launch cannot be planned: the first refusal that applies, in
/// order.
pub open spec fn capture_fault<F>(
    parts: PartsModel<F>,
    checks: Seq<LaunchCheck>,
    layouts: Seq<Result<ArgLayout, UnsupportedParam>>,
    starts: Seq<usize>,
    e: DeviceError,
) -> bool {
    let total = parts.offsets.len() as int;
    let slots = parts.values.len() as int;
    if !all_pinned(checks) {
        e matches DeviceError::Launch(LaunchFault::UnpinnedCheck { cause }) && exists|i: int|
            unpinned_check(checks, i) && cause@ == (#[trigger] checks[i]).cause@
    } else if parts.cfg is None {
        e == DeviceError::Internal(InternalFault::PlanWithoutConfig)
    } else if !offsets_inside(parts.offsets, slots) {
        e matches DeviceError::Internal(InternalFault::ArgumentSlot { offset, slots: n }) && n
            == slots && exists|i: int|
            stray_offset(parts.offsets, slots, i) && offset == #[trigger] parts.offsets[i]
    } else if starts.len() != layouts.len() {
        e == DeviceError::Internal(
            InternalFault::ParamStarts {
                starts: starts.len() as usize,
                params: layouts.len() as usize,
            },
        )
    } else if !starts_at_zero(starts, total) {
        e == DeviceError::Internal(InternalFault::OutsideParams)
    } else {
        exists|i: int|
            0 <= i < layouts.len() && !param_fits(#[trigger] layouts[i], starts, total, i)
                && param_fault(layouts[i], starts, total, i, e) && forall|k: int|
                0 <= k < i ==> param_fits(#[trigger] layouts[k], starts, total, k)
    }
}

/// The template with the first `n` values written into their slots.
pub open spec fn patched(
    template: Seq<u128>,
    slots: Seq<usize>,
    bits: Seq<u128>,
    n: int,
) -> Seq<u128>
    decreases n,
{
    if n <= 0 {
        template
    } else {
        patched(template, slots, bits, n - 1).update(slots[n - 1] as int, bits[n - 1])
    }
}

/// The words of a cache key: the device, the options, then each argument.
pub open spec fn key_words(device_id: usize, options: OptionsModel, keys: Seq<KeyModel>) -> Seq<
    usize,
>
    decreases keys.len(),
{
    if keys.len() == 0 {
        seq![device_id] + options.words()
    } else {
        key_words(device_id, options, keys.drop_last()) + keys.last().words()
    }
}

/// The cache key of a device, options and argument keys.
pub open spec fn plan_key(device_id: usize, options: OptionsModel, keys: Seq<KeyModel>) -> u64 {
    key::fx_words(key_words(device_id, options, keys))
}

/// The keys of layouts.
pub open spec fn layout_keys(layouts: Seq<LayoutModel>) -> Seq<KeyModel> {
    layouts.map_values(|l: LayoutModel| l.key())
}

/// The keys of arguments.
pub open spec fn arg_keys(args: Seq<ErasedPlanArg<'_>>) -> Seq<KeyModel> {
    args.map_values(|a: ErasedPlanArg<'_>| a.key@)
}

/// The slot values of arguments.
pub open spec fn arg_slots(args: Seq<ErasedPlanArg<'_>>) -> Seq<u128> {
    args.map_values(|a: ErasedPlanArg<'_>| a.slot)
}

/// Each argument has the layout of its parameter.
pub open spec fn args_match(layouts: Seq<LayoutModel>, args: Seq<ErasedPlanArg<'_>>) -> bool {
    &&& args.len() == layouts.len()
    &&& forall|i: int|
        0 <= i < args.len() ==> argument::has_layout(
            (#[trigger] args[i]).key@,
            args[i].hint,
            layouts[i],
        )
}

/// Matching arguments have the keys of the layouts they match.
pub proof fn matching_arguments_have_the_layout_keys(
    layouts: Seq<LayoutModel>,
    args: Seq<ErasedPlanArg<'_>>,
)
    requires
        args_match(layouts, args),
    ensures
        arg_keys(args) == layout_keys(layouts),
{
    assert forall|i: int| 0 <= i < args.len() implies #[trigger] arg_keys(args)[i] == layout_keys(
        layouts,
    )[i] by {
        assert(argument::has_layout(args[i].key@, args[i].hint, layouts[i]));
    }
    assert(arg_keys(args) =~= layout_keys(layouts));
}

impl<F> PlanInner<F> {
    pub closed spec fn path(self) -> Seq<char> {
        self.kernel@
    }

    pub closed spec fn func(self) -> F {
        self.function
    }

    pub closed spec fn config(self) -> LaunchConfig {
        self.cfg
    }

    pub closed spec fn dependent(self) -> bool {
        self.programmatic_dependent_launch
    }

    pub closed spec fn device(self) -> usize {
        self.device_id
    }

    pub closed spec fn generation(self) -> u64 {
        self.epoch
    }

    pub closed spec fn from_unsafe_entry(self) -> bool {
        self.unsafe_entry
    }

    pub closed spec fn opts(self) -> OptionsModel {
        self.options@
    }

    /// The argument values of the captured launch.
    pub closed spec fn template(self) -> Seq<u128> {
        self.values@
    }

    /// The slot of each driver argument.
    pub closed spec fn arg_slots(self) -> Seq<usize> {
        self.offsets@
    }

    /// The layout of each parameter.
    pub closed spec fn layouts(self) -> Seq<LayoutModel> {
        Seq::new(self.params@.len(), |i: int| self.params@[i].layout@)
    }

    /// The slot of each parameter's pointer or scalar value.
    pub closed spec fn param_slots(self) -> Seq<usize> {
        Seq::new(self.params@.len(), |i: int| self.params@[i].slot)
    }

    /// Every driver argument lies in the template, the parameters' layouts
    /// account for all of them, and each parameter's slot is that of its first
    /// argument.
    #[verifier::type_invariant]
    pub open spec fn wf(self) -> bool {
        &&& self.layouts().len() == self.param_slots().len()
        &&& offsets_inside(self.arg_slots(), self.template().len() as int)
        &&& arg_start(self.layouts(), self.layouts().len() as int) == self.arg_slots().len()
        &&& forall|i: int|
            0 <= i < self.layouts().len() ==> 0 <= #[trigger] arg_start(self.layouts(), i)
                < self.arg_slots().len() && self.param_slots()[i]
                == self.arg_slots()[arg_start(self.layouts(), i)]
    }

    /// No two driver arguments share a slot.
    pub open spec fn slots_distinct(self) -> bool {
        forall|i: int, j: int|
            0 <= i < j < self.arg_slots().len() ==> #[trigger] self.arg_slots()[i]
                != #[trigger] self.arg_slots()[j]
    }

    /// The plan is what the captured parts describe.
    pub open spec fn captures(
        self,
        parts: PartsModel<F>,
        kernel: Seq<char>,
        device_id: usize,
        epoch: u64,
        layouts: Seq<Result<ArgLayout, UnsupportedParam>>,
        unsafe_entry: bool,
        options: OptionsModel,
    ) -> bool {
        &&& self.path() == kernel
        &&& self.func() == parts.func
        &&& parts.cfg == Some(self.config())
        &&& self.dependent() == parts.dependent
        &&& self.device() == device_id
        &&& self.generation() == epoch
        &&& self.from_unsafe_entry() == unsafe_entry
        &&& self.opts() == options
        &&& self.template() == parts.values
        &&& self.arg_slots() == parts.offsets
        &&& self.layouts().len() == layouts.len()
        &&& forall|i: int|
            0 <= i < layouts.len() ==> (#[trigger] layouts[i]) is Ok && self.layouts()[i]
                == layouts[i]->Ok_0@
    }

    /// Plans a launch that was taken apart, or says why it cannot be planned.
    pub fn from_parts(
        parts: KernelLaunchParts<F>,
        kernel: String,
        device_id: usize,
        epoch: u64,
        launch_checks: &[LaunchCheck],
        layouts: Vec<Result<ArgLayout, UnsupportedParam>>,
        param_starts: &[usize],
        unsafe_entry: bool,
        options: PlanOptions,
    ) -> (r: Result<PlanInner<F>, DeviceError>)
        ensures
            match r {
                Ok(plan) => {
                    &&& plannable(parts@, launch_checks@, layouts@, param_starts@)
                    &&& plan.wf()
                    &&& plan.captures(
                        parts@,
                        kernel@,
                        device_id,
                        epoch,
                        layouts@,
                        unsafe_entry,
                        options@,
                    )
                },
                Err(e) => capture_fault(parts@, launch_checks@, layouts@, param_starts@, e),
            },
    {
        let mut c: usize = 0;
        while c < launch_checks.len()
            invariant
                c <= launch_checks.len(),
                forall|k: int|
                    0 <= k < c ==> reads_pinned((#[trigger] launch_checks@[k]).predicate),
            decreases launch_checks.len() - c,
        {
            if !check_is_pinned(&launch_checks[c]) {
                assert(unpinned_check(launch_checks@, c as int));
                return Err(
                    DeviceError::Launch(
                        LaunchFault::UnpinnedCheck { cause: launch_checks[c].cause.clone() },
                    ),
                );
            }
            c += 1;
        }
        let cfg = match parts.cfg {
            Some(cfg) => cfg,
            None => {
                return Err(DeviceError::Internal(InternalFault::PlanWithoutConfig));
            },
        };
        let total = parts.offsets.len();
        let slots = parts.values.len();
        let mut o: usize = 0;
        while o < total
            invariant
                all_pinned(launch_checks@),
                parts.cfg is Some,
                total == parts.offsets@.len(),
                slots == parts.values@.len(),
                o <= total,
                forall|k: int| 0 <= k < o ==> #[trigger] parts.offsets@[k] < slots,
            decreases total - o,
        {
            if parts.offsets[o] >= slots {
                assert(stray_offset(parts.offsets@, slots as int, o as int));
                return Err(
                    DeviceError::Internal(
                        InternalFault::ArgumentSlot { offset: parts.offsets[o], slots },
                    ),
                );
            }
            o += 1;
        }
        if param_starts.len() != layouts.len() {
            return Err(
                DeviceError::Internal(
                    InternalFault::ParamStarts { starts: param_starts.len(), params: layouts.len() },
                ),
            );
        }
        let first = if param_starts.len() > 0 {
            param_starts[0]
        } else {
            total
        };
        if first != 0 {
            return Err(DeviceError::Internal(InternalFault::OutsideParams));
        }
        let n = layouts.len();
        let ghost all = layouts@;
        let ghost starts = param_starts@;
        let mut rest = layouts;
        let mut params: Vec<PlanParam> = Vec::new();
        assert(rest@ =~= all.skip(0));
        let mut i: usize = 0;
        while i < n
            invariant
                all_pinned(launch_checks@),
                parts.cfg is Some,
                offsets_inside(parts.offsets@, slots as int),
                total == parts.offsets@.len(),
                slots == parts.values@.len(),
                all == layouts@,
                n == all.len(),
                starts == param_starts@,
                starts.len() == n,
                starts_at_zero(starts, total as int),
                i <= n,
                rest@ == all.skip(i as int),
                params@.len() == i,
                forall|k: int| 0 <= k < i ==> param_fits(#[trigger] all[k], starts, total as int, k),
                forall|k: int|
                    0 <= k < i ==> (#[trigger] params@[k]).layout@ == all[k]->Ok_0@
                        && params@[k].slot == parts.offsets@[starts[k] as int],
            decreases n - i,
        {
            let next = rest.remove(0);
            assert(next == all[i as int]);
            assert(rest@ =~= all.skip(i + 1));
            let layout = match next {
                Ok(layout) => layout,
                Err(UnsupportedParam(what)) => {
                    assert(!param_fits(all[i as int], starts, total as int, i as int));
                    return Err(
                        DeviceError::Launch(
                            LaunchFault::UnsupportedParam { index: i, what: what.to_owned() },
                        ),
                    );
                },
            };
            let start = param_starts[i];
            let end = if i + 1 < n {
                param_starts[i + 1]
            } else {
                total
            };
            assert(end == span_end(starts, total as int, i as int));
            let counted = layout.arg_count();
            let fits = match counted {
                Some(count) => end >= start && end - start == count,
                None => false,
            };
            if !fits {
                assert(!param_fits(all[i as int], starts, total as int, i as int));
                let count = match counted {
                    Some(count) => count,
                    None => usize::MAX,
                };
                return Err(
                    DeviceError::Internal(
                        InternalFault::ParamSpan { index: i, start, end, count },
                    ),
                );
            }
            if start >= total {
                assert(!param_fits(all[i as int], starts, total as int, i as int));
                return Err(
                    DeviceError::Internal(InternalFault::NoArgument { start, index: i }),
                );
            }
            let slot = parts.offsets[start];
            params.push(PlanParam { layout, slot });
            i += 1;
        }
        let ghost plan = PlanInner {
            kernel,
            function: parts.func,
            cfg,
            programmatic_dependent_launch: parts.programmatic_dependent_launch,
            device_id,
            epoch,
            unsafe_entry,
            options,
            values: parts.values,
            offsets: parts.offsets,
            params,
        };
        proof {
            assert forall|k: int| 0 <= k < n implies (#[trigger] all[k]) is Ok
                && plan.layouts()[k] == all[k]->Ok_0@ by {
                assert(param_fits(all[k], starts, total as int, k));
                assert(plan.params@[k].layout@ == all[k]->Ok_0@);
            }
            lemma_spans(all, plan.layouts(), starts, total as int, n as int);
            assert forall|k: int| 0 <= k < plan.layouts().len() implies 0 <= #[trigger] arg_start(
                plan.layouts(),
                k,
            ) < plan.arg_slots().len() && plan.param_slots()[k] == plan.arg_slots()[arg_start(
                plan.layouts(),
                k,
            )] by {
                lemma_spans(all, plan.layouts(), starts, total as int, k);
                assert(param_fits(all[k], starts, total as int, k));
                assert(plan.params@[k].slot == plan.offsets@[starts[k] as int]);
            }
        }
        Ok(
            PlanInner {
                kernel,
                function: parts.func,
                cfg,
                programmatic_dependent_launch: parts.programmatic_dependent_launch,
                device_id,
                epoch,
                unsafe_entry,
                options,
                values: parts.values,
                offsets: parts.offsets,
                params,
            },
        )
    }

    /// Plans a captured launch on a device, or says why it cannot be planned.
    pub fn from_launch(device_id: usize, captured: CapturedLaunch<'_, F>) -> (r: Result<
        PlanInner<F>,
        DeviceError,
    >)
        ensures
            match r {
                Ok(plan) => {
                    &&& plannable(
                        captured.launch.parts(),
                        captured.launch_checks@,
                        captured.layouts@,
                        captured.param_starts@,
                    )
                    &&& plan.wf()
                    &&& plan.slots_distinct()
                    &&& plan.captures(
                        captured.launch.parts(),
                        captured.kernel@,
                        device_id,
                        captured.epoch,
                        captured.layouts@,
                        captured.unsafe_entry,
                        captured.options@,
                    )
                },
                Err(e) => capture_fault(
                    captured.launch.parts(),
                    captured.launch_checks@,
                    captured.layouts@,
                    captured.param_starts@,
                    e,
                ),
            },
    {
        let parts = captured.launch.into_parts();
        let ghost count = parts.values.len();
        let r = PlanInner::from_parts(
            parts,
            captured.kernel,
            device_id,
            captured.epoch,
            captured.launch_checks,
            captured.layouts,
            captured.param_starts,
            captured.unsafe_entry,
            captured.options,
        );
        proof {
            if r is Ok {
                let slots = r->Ok_0.arg_slots();
                assert(slots.len() == count);
                assert forall|i: int, j: int| 0 <= i < j < slots.len() implies #[trigger] slots[i]
                    != #[trigger] slots[j] by {
                    assert(slots[i] == i && slots[j] == j);
                }
            }
        }
        r
    }
}

/// The recorded start of a parameter is the sum of the argument counts before it.
proof fn lemma_spans(
    all: Seq<Result<ArgLayout, UnsupportedParam>>,
    layouts: Seq<LayoutModel>,
    starts: Seq<usize>,
    total: int,
    n: int,
)
    requires
        starts.len() == all.len(),
        layouts.len() == all.len(),
        starts_at_zero(starts, total),
        forall|k: int| 0 <= k < all.len() ==> param_fits(#[trigger] all[k], starts, total, k),
        forall|k: int|
            0 <= k < all.len() ==> (#[trigger] all[k]) is Ok && layouts[k] == all[k]->Ok_0@,
        0 <= n <= all.len(),
    ensures
        n < all.len() ==> arg_start(layouts, n) == starts[n],
        n == all.len() ==> arg_start(layouts, n) == total,
    decreases n,
{
    if n > 0 {
        lemma_spans(all, layouts, starts, total, n - 1);
        assert(param_fits(all[n - 1], starts, total, n - 1));
        assert(layouts[n - 1] == all[n - 1]->Ok_0@);
    }
}

/// What the driver is handed by a replay.
#[derive(Debug)]
pub struct ReplayLaunch {
    pub cfg: LaunchConfig,
    /// Submit with programmatic dependent launch.
    pub dependent: bool,
    /// The driver arguments, in order.
    pub args: Vec<u128>,
}

/// Whether a replay still has to check its arguments' layout.
#[derive(Debug, Clone, Copy, PartialEq, Eq, Structural)]
pub enum LayoutCheck {
    Pending,
    /// Already matched against the plan, by a cache lookup.
    Done,
}

/// The cache key of a lookup for `args` on `device_id` with `options`.
pub fn args_key(device_id: usize, options: &PlanOptions, args: &[ErasedPlanArg<'_>]) -> (r: u64)
    ensures
        r == plan_key(device_id, options@, arg_keys(args@)),
{
    let ghost keys = arg_keys(args@);
    let mut words: Vec<usize> = Vec::new();
    words.push(device_id);
    options.push_words(&mut words);
    assert(words@ =~= key_words(device_id, options@, keys.take(0)));
    let mut i: usize = 0;
    while i < args.len()
        invariant
            keys == arg_keys(args@),
            i <= args.len(),
            words@ == key_words(device_id, options@, keys.take(i as int)),
        decreases args.len() - i,
    {
        args[i].key.push_words(&mut words);
        assert(keys.take(i + 1).drop_last() =~= keys.take(i as int));
        assert(keys.take(i + 1).last() == args@[i as int].key@);
        i += 1;
    }
    assert(keys.take(i as int) =~= keys);
    key::hash_words(&words)
}

impl<F> PlanInner<F> {
    /// The entry point's path.
    pub fn kernel(&self) -> (r: &str)
        ensures
            r@ == self.path(),
    {
        self.kernel.as_str()
    }

    /// The compiled function.
    pub fn function(&self) -> (r: &F)
        ensures
            *r == self.func(),
    {
        &self.function
    }

    /// The builder options the plan was built with.
    pub fn options(&self) -> (r: &PlanOptions)
        ensures
            r@ == self.opts(),
    {
        &self.options
    }

    /// Whether the plan was built with programmatic dependent launch.
    pub fn is_programmatic_dependent_launch(&self) -> (r: bool)
        ensures
            r == self.dependent(),
    {
        self.programmatic_dependent_launch
    }

    /// Whether the entry point is `unsafe`.
    pub fn is_unsafe_entry(&self) -> (r: bool)
        ensures
            r == self.from_unsafe_entry(),
    {
        self.unsafe_entry
    }

    /// The device the plan was built for.
    pub fn device_id(&self) -> (r: usize)
        ensures
            r == self.device(),
    {
        self.device_id
    }

    /// The cache generation the plan was resolved in.
    pub fn epoch(&self) -> (r: u64)
        ensures
            r == self.generation(),
    {
        self.epoch
    }

    /// How many parameters the kernel has.
    pub fn param_count(&self) -> (r: usize)
        ensures
            r == self.layouts().len(),
    {
        self.params.len()
    }

    /// The layout of a parameter.
    pub fn layout(&self, i: usize) -> (r: &ArgLayout)
        requires
            i < self.layouts().len(),
        ensures
            r@ == self.layouts()[i as int],
    {
        &self.params[i].layout
    }

    /// The template value of a parameter.
    pub fn marshalled(&self, i: usize) -> (r: u128)
        requires
            i < self.layouts().len(),
        ensures
            r == self.template()[self.param_slots()[i as int] as int],
    {
        proof {
            use_type_invariant(self);
        }
        assert(0 <= arg_start(self.layouts(), i as int) < self.arg_slots().len());
        self.values[self.params[i].slot]
    }

    /// The index of the first argument whose layout is not its parameter's, the
    /// number of arguments where there is none.
    fn first_mismatch(&self, args: &[ErasedPlanArg<'_>]) -> (r: usize)
        requires
            args@.len() == self.layouts().len(),
        ensures
            r <= args@.len(),
            forall|k: int|
                0 <= k < r ==> argument::has_layout(
                    (#[trigger] args@[k]).key@,
                    args@[k].hint,
                    self.layouts()[k],
                ),
            r < args@.len() ==> !argument::has_layout(
                args@[r as int].key@,
                args@[r as int].hint,
                self.layouts()[r as int],
            ),
    {
        let mut i: usize = 0;
        while i < args.len()
            invariant
                i <= args.len(),
                args@.len() == self.layouts().len(),
                forall|k: int|
                    0 <= k < i ==> argument::has_layout(
                        (#[trigger] args@[k]).key@,
                        args@[k].hint,
                        self.layouts()[k],
                    ),
            decreases args.len() - i,
        {
            if !argument::arg_matches(&args[i], &self.params[i].layout) {
                return i;
            }
            i += 1;
        }
        i
    }

    /// Whether `args`, one per parameter, have exactly the layout this plan was
    /// built for.
    pub fn matches(&self, args: &[ErasedPlanArg<'_>]) -> (r: bool)
        requires
            args@.len() == self.layouts().len(),
        ensures
            r == args_match(self.layouts(), args@),
    {
        let i = self.first_mismatch(args);
        i == args.len()
    }

    /// As [`matches`](Self::matches), with the first mismatch as an error.
    pub fn check(&self, args: &[ErasedPlanArg<'_>]) -> (r: Result<(), DeviceError>)
        requires
            args@.len() == self.layouts().len(),
        ensures
            layout_check_result(self.layouts(), args@, r),
    {
        let i = self.first_mismatch(args);
        if i == args.len() {
            Ok(())
        } else {
            Err(
                DeviceError::Launch(
                    LaunchFault::LayoutMismatch {
                        index: i,
                        layout: self.params[i].layout.to_string(),
                    },
                ),
            )
        }
    }

    /// This plan's cache key: equal to [`args_key`] of every device, options and
    /// arguments it serves.
    pub fn cache_key(&self) -> (r: u64)
        ensures
            r == plan_key(self.device(), self.opts(), layout_keys(self.layouts())),
    {
        let ghost keys = layout_keys(self.layouts());
        let mut words: Vec<usize> = Vec::new();
        words.push(self.device_id);
        self.options.push_words(&mut words);
        assert(words@ =~= key_words(self.device(), self.opts(), keys.take(0)));
        let mut i: usize = 0;
        while i < self.params.len()
            invariant
                keys == layout_keys(self.layouts()),
                i <= self.params.len(),
                words@ == key_words(self.device(), self.opts(), keys.take(i as int)),
            decreases self.params.len() - i,
        {
            self.params[i].layout.key().push_words(&mut words);
            assert(keys.take(i + 1).drop_last() =~= keys.take(i as int));
            assert(keys.take(i + 1).last() == self.params@[i as int].layout@.key());
            i += 1;
        }
        assert(keys.take(i as int) =~= keys);
        key::hash_words(&words)
    }

    /// The plan and `other` have one generation, device, options and layout.
    pub open spec fn is_same_entry(self, other: PlanInner<F>) -> bool {
        &&& self.generation() == other.generation()
        &&& self.device() == other.device()
        &&& self.opts() == other.opts()
        &&& self.layouts() == other.layouts()
    }

    /// Whether a cache would serve `other` wherever it serves this plan: same
    /// generation, device, options and layout.
    pub fn same_entry(&self, other: &PlanInner<F>) -> (r: bool)
        ensures
            r == self.is_same_entry(*other),
    {
        if self.epoch != other.epoch || self.device_id != other.device_id || !self.options.same(
            &other.options,
        ) || self.params.len() != other.params.len() {
            assert(self.layouts().len() == self.params@.len() && other.layouts().len()
                == other.params@.len());
            return false;
        }
        let mut i: usize = 0;
        while i < self.params.len()
            invariant
                i <= self.params.len(),
                self.params.len() == other.params.len(),
                forall|k: int| 0 <= k < i ==> #[trigger] self.layouts()[k] == other.layouts()[k],
            decreases self.params.len() - i,
        {
            if !self.params[i].layout.same(&other.params[i].layout) {
                assert(self.layouts()[i as int] != other.layouts()[i as int]);
                return false;
            }
            i += 1;
        }
        assert(self.layouts() =~= other.layouts());
        true
    }

    /// The checks of a raw launch: the argument count, the device, and that each
    /// argument satisfies its parameter's layout.
    pub fn check_raw(&self, device_id: usize, args: &[RawArg]) -> (r: Result<(), DeviceError>)
        ensures
            if args@.len() != self.layouts().len() {
                r == Err::<(), DeviceError>(
                    DeviceError::Launch(
                        LaunchFault::ArgumentCount {
                            expected: self.layouts().len() as usize,
                            given: args@.len() as usize,
                        },
                    ),
                )
            } else if device_id != self.device() {
                r == Err::<(), DeviceError>(
                    DeviceError::Launch(
                        LaunchFault::PlanDevice { plan: self.device(), stream: device_id },
                    ),
                )
            } else {
                raw_check_result(self.layouts(), args@, r)
            },
    {
        if args.len() != self.params.len() {
            return Err(
                DeviceError::Launch(
                    LaunchFault::ArgumentCount { expected: self.params.len(), given: args.len() },
                ),
            );
        }
        if device_id != self.device_id {
            return Err(
                DeviceError::Launch(
                    LaunchFault::PlanDevice { plan: self.device_id, stream: device_id },
                ),
            );
        }
        let mut i: usize = 0;
        while i < args.len()
            invariant
                i <= args.len(),
                args@.len() == self.layouts().len(),
                device_id == self.device(),
                forall|k: int|
                    0 <= k < i ==> argument::raw_satisfies(
                        self.layouts()[k],
                        (#[trigger] args@[k])@,
                    ),
            decreases args.len() - i,
        {
            if !args[i].satisfies(&self.params[i].layout) {
                assert(!argument::raw_satisfies(self.layouts()[i as int], args@[i as int]@));
                return Err(
                    DeviceError::Launch(
                        LaunchFault::RawArgument {
                            index: i,
                            arg: args[i].to_string(),
                            layout: self.params[i].layout.to_string(),
                        },
                    ),
                );
            }
            i += 1;
        }
        Ok(())
    }

    /// The argument template with one value per parameter written over it.
    fn patch(&self, bits: &[u128]) -> (r: Vec<u128>)
        requires
            bits@.len() == self.layouts().len(),
        ensures
            r@ == patched(self.template(), self.param_slots(), bits@, bits@.len() as int),
            r@.len() == self.template().len(),
    {
        proof {
            use_type_invariant(self);
        }
        let mut values: Vec<u128> = Vec::new();
        let mut v: usize = 0;
        while v < self.values.len()
            invariant
                v <= self.values.len(),
                values@ == self.values@.take(v as int),
            decreases self.values.len() - v,
        {
            values.push(self.values[v]);
            assert(self.values@.take(v + 1) =~= self.values@.take(v as int).push(
                self.values@[v as int],
            ));
            v += 1;
        }
        assert(self.values@.take(v as int) =~= self.values@);
        let mut i: usize = 0;
        while i < bits.len()
            invariant
                self.wf(),
                bits@.len() == self.layouts().len(),
                i <= bits.len(),
                values@.len() == self.template().len(),
                values@ == patched(self.template(), self.param_slots(), bits@, i as int),
            decreases bits.len() - i,
        {
            assert(0 <= arg_start(self.layouts(), i as int) < self.arg_slots().len());
            let slot = self.params[i].slot;
            assert(slot == self.param_slots()[i as int]);
            values.set(slot, bits[i]);
            i += 1;
        }
        values
    }

    /// The driver launch over patched values: each argument is the value in its
    /// slot.
    fn driver_launch(&self, values: &Vec<u128>) -> (r: ReplayLaunch)
        requires
            values@.len() == self.template().len(),
        ensures
            r.cfg == self.config(),
            r.dependent == self.dependent(),
            r.args@ == self.arguments_of(values@),
    {
        proof {
            use_type_invariant(self);
        }
        let mut args: Vec<u128> = Vec::new();
        let mut i: usize = 0;
        while i < self.offsets.len()
            invariant
                self.wf(),
                values@.len() == self.template().len(),
                i <= self.offsets.len(),
                args@ == self.arguments_of(values@).take(i as int),
            decreases self.offsets.len() - i,
        {
            assert(self.arg_slots()[i as int] < self.template().len());
            let value = values[self.offsets[i]];
            args.push(value);
            assert(self.arguments_of(values@).take(i + 1) =~= self.arguments_of(values@).take(
                i as int,
            ).push(value));
            i += 1;
        }
        assert(self.arguments_of(values@).take(i as int) =~= self.arguments_of(values@));
        ReplayLaunch { cfg: self.cfg, dependent: self.programmatic_dependent_launch, args }
    }

    /// The driver arguments that slot values give.
    pub open spec fn arguments_of(self, values: Seq<u128>) -> Seq<u128> {
        self.arg_slots().map_values(|o: usize| values[o as int])
    }

    /// The driver arguments of a replay with one value per parameter.
    pub open spec fn replayed(self, bits: Seq<u128>) -> Seq<u128> {
        self.arguments_of(
            patched(self.template(), self.param_slots(), bits, bits.len() as int),
        )
    }

    /// `r` is a replay of the plan with one value per parameter.
    pub open spec fn replays(self, bits: Seq<u128>, r: ReplayLaunch) -> bool {
        &&& r.cfg == self.config()
        &&& r.dependent == self.dependent()
        &&& r.args@ == self.replayed(bits)
    }

    /// A raw launch: the checks, then the template with `args` written over it.
    pub fn launch_raw(&self, device_id: usize, args: &[RawArg]) -> (r: Result<
        ReplayLaunch,
        DeviceError,
    >)
        ensures
            if args@.len() != self.layouts().len() {
                r == Err::<ReplayLaunch, DeviceError>(
                    DeviceError::Launch(
                        LaunchFault::ArgumentCount {
                            expected: self.layouts().len() as usize,
                            given: args@.len() as usize,
                        },
                    ),
                )
            } else if device_id != self.device() {
                r == Err::<ReplayLaunch, DeviceError>(
                    DeviceError::Launch(
                        LaunchFault::PlanDevice { plan: self.device(), stream: device_id },
                    ),
                )
            } else {
                match r {
                    Ok(launch) => raw_check_result(self.layouts(), args@, Ok(()))
                        && self.replays(raw_bits(args@), launch),
                    Err(e) => raw_check_result(self.layouts(), args@, Err(e)),
                }
            },
    {
        proof {
            use_type_invariant(self);
        }
        match self.check_raw(device_id, args) {
            Ok(()) => Ok(self.launch_raw_unchecked(args)),
            Err(e) => Err(e),
        }
    }

    /// [`launch_raw`](Self::launch_raw) without its checks: one argument per
    /// parameter is written over the template.
    pub fn launch_raw_unchecked(&self, args: &[RawArg]) -> (r: ReplayLaunch)
        requires
            args@.len() == self.layouts().len(),
        ensures
            self.replays(raw_bits(args@), r),
    {
        proof {
            use_type_invariant(self);
        }
        let mut bits: Vec<u128> = Vec::new();
        let mut i: usize = 0;
        while i < args.len()
            invariant
                i <= args.len(),
                bits@ == raw_bits(args@).take(i as int),
            decreases args.len() - i,
        {
            bits.push(args[i].slot_value());
            assert(raw_bits(args@).take(i + 1) =~= raw_bits(args@).take(i as int).push(
                args@[i as int]@.bits_of(),
            ));
            i += 1;
        }
        assert(raw_bits(args@).take(i as int) =~= raw_bits(args@));
        let values = self.patch(bits.as_slice());
        self.driver_launch(&values)
    }

    /// A replay over typed arguments: refused on another device, or where the
    /// layout still has to be checked and does not match.
    pub fn execute(
        &self,
        device_id: usize,
        layout: LayoutCheck,
        args: &[ErasedPlanArg<'_>],
    ) -> (r: Result<ReplayLaunch, DeviceError>)
        requires
            args@.len() == self.layouts().len(),
        ensures
            if device_id != self.device() {
                r == Err::<ReplayLaunch, DeviceError>(
                    DeviceError::Launch(
                        LaunchFault::PlanDevice { plan: self.device(), stream: device_id },
                    ),
                )
            } else {
                match r {
                    Ok(launch) => (layout == LayoutCheck::Pending ==> args_match(
                        self.layouts(),
                        args@,
                    )) && self.replays(arg_slots(args@), launch),
                    Err(e) => layout == LayoutCheck::Pending && layout_check_result(
                        self.layouts(),
                        args@,
                        Err(e),
                    ),
                }
            },
    {
        proof {
            use_type_invariant(self);
        }
        if device_id != self.device_id {
            return Err(
                DeviceError::Launch(
                    LaunchFault::PlanDevice { plan: self.device_id, stream: device_id },
                ),
            );
        }
        if layout == LayoutCheck::Pending {
            match self.check(args) {
                Ok(()) => {},
                Err(e) => {
                    return Err(e);
                },
            }
        }
        let bits = slot_values(args);
        let values = self.patch(bits.as_slice());
        Ok(self.driver_launch(&values))
    }
}

/// The slot values of arguments, in order.
pub fn slot_values(args: &[ErasedPlanArg<'_>]) -> (r: Vec<u128>)
    ensures
        r@ == arg_slots(args@),
{
    let mut bits: Vec<u128> = Vec::new();
    let mut i: usize = 0;
    while i < args.len()
        invariant
            i <= args.len(),
            bits@ == arg_slots(args@).take(i as int),
        decreases args.len() - i,
    {
        bits.push(args[i].slot);
        assert(arg_slots(args@).take(i + 1) =~= arg_slots(args@).take(i as int).push(
            args@[i as int].slot,
        ));
        i += 1;
    }
    assert(arg_slots(args@).take(i as int) =~= arg_slots(args@));
    bits
}

/// The slot values of raw arguments.
pub open spec fn raw_bits(args: Seq<RawArg>) -> Seq<u128> {
    args.map_values(|a: RawArg| a@.bits_of())
}

/// The result of a layout check: the first mismatch as an error.
pub open spec fn layout_check_result(
    layouts: Seq<LayoutModel>,
    args: Seq<ErasedPlanArg<'_>>,
    r: Result<(), DeviceError>,
) -> bool {
    match r {
        Ok(()) => args_match(layouts, args),
        Err(e) => e matches DeviceError::Launch(LaunchFault::LayoutMismatch { index, layout })
            && index < args.len() && layout@ == layouts[index as int].text() && !argument::has_layout(
            args[index as int].key@,
            args[index as int].hint,
            layouts[index as int],
        ) && forall|k: int|
            0 <= k < index ==> argument::has_layout(
                (#[trigger] args[k]).key@,
                args[k].hint,
                layouts[k],
            ),
    }
}

/// The result of a raw check: the first unsatisfied layout as an error.
pub open spec fn raw_check_result(
    layouts: Seq<LayoutModel>,
    args: Seq<RawArg>,
    r: Result<(), DeviceError>,
) -> bool {
    match r {
        Ok(()) => forall|k: int|
            0 <= k < args.len() ==> argument::raw_satisfies(layouts[k], (#[trigger] args[k])@),
        Err(e) => e matches DeviceError::Launch(LaunchFault::RawArgument { index, arg, layout })
            && index < args.len() && arg@ == args[index as int]@.text() && layout@
            == layouts[index as int].text() && !argument::raw_satisfies(layouts[index as int], args[index as int]@)
            && forall|k: int|
            0 <= k < index ==> argument::raw_satisfies(layouts[k], (#[trigger] args[k])@),
    }
}

/// A plan's cache key is that of every device, options and arguments it serves.
pub proof fn served_arguments_have_the_plans_key<F>(
    plan: PlanInner<F>,
    args: Seq<ErasedPlanArg<'_>>,
)
    requires
        args_match(plan.layouts(), args),
    ensures
        plan_key(plan.device(), plan.opts(), arg_keys(args)) == plan_key(
            plan.device(),
            plan.opts(),
            layout_keys(plan.layouts()),
        ),
{
    matching_arguments_have_the_layout_keys(plan.layouts(), args);
}

proof fn lemma_arg_start_grows(layouts: Seq<LayoutModel>, i: int, j: int)
    requires
        0 <= i < j <= layouts.len(),
    ensures
        arg_start(layouts, i) < arg_start(layouts, j),
    decreases j,
{
    if i < j - 1 {
        lemma_arg_start_grows(layouts, i, j - 1);
    }
}

proof fn lemma_patched(
    template: Seq<u128>,
    slots: Seq<usize>,
    bits: Seq<u128>,
    n: int,
)
    requires
        0 <= n <= slots.len(),
        bits.len() == slots.len(),
        forall|i: int| 0 <= i < slots.len() ==> #[trigger] slots[i] < template.len(),
        forall|i: int, j: int|
            0 <= i < j < slots.len() ==> #[trigger] slots[i] != #[trigger] slots[j],
    ensures
        patched(template, slots, bits, n).len() == template.len(),
        forall|i: int|
            0 <= i < n ==> patched(template, slots, bits, n)[(#[trigger] slots[i]) as int]
                == bits[i],
        forall|s: int|
            0 <= s < template.len() && (forall|i: int| 0 <= i < n ==> #[trigger] slots[i] != s)
                ==> #[trigger] patched(template, slots, bits, n)[s] == template[s],
    decreases n,
{
    if n > 0 {
        lemma_patched(template, slots, bits, n - 1);
        let prev = patched(template, slots, bits, n - 1);
        let next = patched(template, slots, bits, n);
        assert forall|i: int| 0 <= i < n implies next[(#[trigger] slots[i]) as int] == bits[i] by {
            if i < n - 1 {
                assert(slots[i] != slots[n - 1]);
            }
        }
        assert forall|s: int|
            0 <= s < template.len() && (forall|i: int| 0 <= i < n ==> #[trigger] slots[i]
                != s) implies #[trigger] next[s] == template[s] by {
            assert(slots[n - 1] != s);
            assert(prev[s] == template[s]);
        }
    }
}

/// A replay writes each parameter's value as the first driver argument of that
/// parameter, and leaves every other driver argument as the launcher marshalled
/// it.
pub proof fn a_replay_writes_only_pointers_and_scalars<F>(plan: PlanInner<F>, bits: Seq<u128>)
    requires
        plan.wf(),
        plan.slots_distinct(),
        bits.len() == plan.layouts().len(),
    ensures
        forall|i: int|
            #![trigger arg_start(plan.layouts(), i)]
            0 <= i < bits.len() ==> plan.replayed(bits)[arg_start(plan.layouts(), i)] == bits[i],
        forall|a: int|
            0 <= a < plan.arg_slots().len() && (forall|i: int|
                0 <= i < bits.len() ==> #[trigger] arg_start(plan.layouts(), i) != a)
                ==> #[trigger] plan.replayed(bits)[a] == plan.arguments_of(plan.template())[a],
{
    let slots = plan.param_slots();
    let layouts = plan.layouts();
    assert forall|i: int| 0 <= i < slots.len() implies #[trigger] slots[i] < plan.template().len() by {
        assert(0 <= arg_start(layouts, i) < plan.arg_slots().len());
        assert(plan.arg_slots()[arg_start(layouts, i)] < plan.template().len());
    }
    assert forall|i: int, j: int| 0 <= i < j < slots.len() implies #[trigger] slots[i]
        != #[trigger] slots[j] by {
        lemma_arg_start_grows(layouts, i, j);
        assert(0 <= arg_start(layouts, i) < plan.arg_slots().len());
        assert(0 <= arg_start(layouts, j) < plan.arg_slots().len());
        assert(plan.arg_slots()[arg_start(layouts, i)] != plan.arg_slots()[arg_start(layouts, j)]);
    }
    lemma_patched(plan.template(), slots, bits, bits.len() as int);
    let values = patched(plan.template(), slots, bits, bits.len() as int);
    assert forall|i: int|
        #![trigger arg_start(plan.layouts(), i)]
        0 <= i < bits.len() implies plan.replayed(bits)[arg_start(plan.layouts(), i)] == bits[i] by {
        assert(plan.param_slots()[i] == plan.arg_slots()[arg_start(layouts, i)]);
        assert(values[slots[i] as int] == bits[i]);
    }
    assert forall|a: int|
        0 <= a < plan.arg_slots().len() && (forall|i: int|
            0 <= i < bits.len() ==> #[trigger] arg_start(plan.layouts(), i) != a) implies #[trigger] plan.replayed(
        bits,
    )[a] == plan.arguments_of(plan.template())[a] by {
        let s = plan.arg_slots()[a] as int;
        assert(s < plan.template().len());
        assert forall|i: int| 0 <= i < bits.len() implies #[trigger] slots[i] != s by {
            let b = arg_start(layouts, i);
            assert(b != a);
            assert(0 <= b < plan.arg_slots().len());
            assert(slots[i] == plan.arg_slots()[b]);
            if b < a {
                assert(plan.arg_slots()[b] != plan.arg_slots()[a]);
            } else {
                assert(plan.arg_slots()[a] != plan.arg_slots()[b]);
            }
        }
        assert(values[s] == plan.template()[s]);
    }
}

/// Replaying the values that the launcher marshalled is the captured launch.
pub proof fn replaying_the_captured_values_is_the_captured_launch<F>(
    plan: PlanInner<F>,
    bits: Seq<u128>,
)
    requires
        plan.wf(),
        bits.len() == plan.layouts().len(),
        forall|i: int|
            0 <= i < bits.len() ==> #[trigger] bits[i] == plan.template()[plan.param_slots()[i] as int],
    ensures
        plan.replayed(bits) == plan.arguments_of(plan.template()),
{
    let slots = plan.param_slots();
    assert forall|i: int| 0 <= i < slots.len() implies #[trigger] slots[i] < plan.template().len() by {
        assert(0 <= arg_start(plan.layouts(), i) < plan.arg_slots().len());
        assert(plan.arg_slots()[arg_start(plan.layouts(), i)] < plan.template().len());
    }
    lemma_repatched(plan.template(), slots, bits, bits.len() as int);
}

proof fn lemma_repatched(template: Seq<u128>, slots: Seq<usize>, bits: Seq<u128>, n: int)
    requires
        0 <= n <= bits.len(),
        bits.len() == slots.len(),
        forall|i: int| 0 <= i < slots.len() ==> #[trigger] slots[i] < template.len(),
        forall|i: int| 0 <= i < bits.len() ==> #[trigger] bits[i] == template[slots[i] as int],
    ensures
        patched(template, slots, bits, n) == template,
    decreases n,
{
    if n > 0 {
        lemma_repatched(template, slots, bits, n - 1);
        assert(slots[n - 1] < template.len());
        assert(bits[n - 1] == template[slots[n - 1] as int]);
        assert(patched(template, slots, bits, n) =~= template);
    }
}

/// A captured launch is planned exactly when it is consistent. Let `sums` be the
/// driver arguments that the layouts before each parameter take: the recorded starts
/// are these sums and the driver has as many arguments as all of them, every argument
/// has a slot, the launch has a configuration, and no check reads what only the device
/// knows.
pub proof fn a_launch_is_planned_when_its_arguments_add_up<F>(
    parts: PartsModel<F>,
    checks: Seq<LaunchCheck>,
    layouts: Seq<Result<ArgLayout, UnsupportedParam>>,
    starts: Seq<usize>,
    sums: Seq<int>,
)
    requires
        forall|i: int| 0 <= i < layouts.len() ==> (#[trigger] layouts[i]) is Ok,
        sums.len() == layouts.len() + 1,
        sums[0] == 0,
        forall|i: int|
            0 <= i < layouts.len() ==> sums[i + 1] == sums[i] + (
            #[trigger] layouts[i])->Ok_0@.arg_count_spec(),
    ensures
        plannable(parts, checks, layouts, starts) <==> {
            &&& parts.cfg is Some
            &&& starts.len() == layouts.len()
            &&& forall|i: int| 0 <= i < starts.len() ==> #[trigger] starts[i] == sums[i]
            &&& parts.offsets.len() == sums.last()
            &&& forall|a: int|
                0 <= a < parts.offsets.len() ==> #[trigger] parts.offsets[a] < parts.values.len()
            &&& forall|c: int, i: int|
                0 <= c < checks.len() && 0 <= i < checks[c].predicate.subject().terms().len() ==> !((
                #[trigger] checks[c].predicate.subject().terms()[i]).0 is Iv) && !(
                checks[c].predicate.subject().terms()[i].0 is TileBlockId)
        },
{
    let total = parts.offsets.len() as int;
    let n = layouts.len() as int;
    assert(all_pinned(checks) <==> forall|c: int, i: int|
        0 <= c < checks.len() && 0 <= i < checks[c].predicate.subject().terms().len() ==> !((
        #[trigger] checks[c].predicate.subject().terms()[i]).0 is Iv) && !(
        checks[c].predicate.subject().terms()[i].0 is TileBlockId)) by {
        if all_pinned(checks) {
            assert forall|c: int, i: int|
                0 <= c < checks.len() && 0 <= i
                    < checks[c].predicate.subject().terms().len() implies !((
            #[trigger] checks[c].predicate.subject().terms()[i]).0 is Iv) && !(
            checks[c].predicate.subject().terms()[i].0 is TileBlockId) by {
                assert(reads_pinned(checks[c].predicate));
                assert(pinned(checks[c].predicate.subject().terms()[i].0));
            }
        }
        if forall|c: int, i: int|
            0 <= c < checks.len() && 0 <= i < checks[c].predicate.subject().terms().len() ==> !((
            #[trigger] checks[c].predicate.subject().terms()[i]).0 is Iv) && !(
            checks[c].predicate.subject().terms()[i].0 is TileBlockId) {
            assert forall|c: int| 0 <= c < checks.len() implies reads_pinned(
                (#[trigger] checks[c]).predicate,
            ) by {
                assert forall|i: int|
                    0 <= i < checks[c].predicate.subject().terms().len() implies pinned(
                    (#[trigger] checks[c].predicate.subject().terms()[i]).0,
                ) by {
                    assert(!(checks[c].predicate.subject().terms()[i].0 is Iv));
                }
            }
        }
    }
    if plannable(parts, checks, layouts, starts) {
        assert forall|i: int| 0 <= i < n implies #[trigger] starts[i] == sums[i] by {
            lemma_starts_are_sums(layouts, starts, sums, total, i);
        }
        lemma_starts_are_sums(layouts, starts, sums, total, n);
    }
    if starts.len() == n && total == sums.last() && forall|i: int|
        0 <= i < starts.len() ==> #[trigger] starts[i] == sums[i] {
        if n > 0 {
            assert(starts[0] == sums[0]);
        }
        assert forall|i: int| 0 <= i < n implies param_fits(#[trigger] layouts[i], starts, total, i) by {
            assert(layouts[i] is Ok);
            assert(starts[i] == sums[i]);
            if i + 1 < n {
                assert(starts[i + 1] == sums[i + 1]);
            }
            lemma_sums_grow(layouts, sums, i, n);
        }
    }
}

proof fn lemma_starts_are_sums(
    layouts: Seq<Result<ArgLayout, UnsupportedParam>>,
    starts: Seq<usize>,
    sums: Seq<int>,
    total: int,
    n: int,
)
    requires
        starts.len() == layouts.len(),
        sums.len() == layouts.len() + 1,
        sums[0] == 0,
        forall|i: int|
            0 <= i < layouts.len() ==> sums[i + 1] == sums[i] + (
            #[trigger] layouts[i])->Ok_0@.arg_count_spec(),
        starts_at_zero(starts, total),
        forall|k: int| 0 <= k < layouts.len() ==> param_fits(#[trigger] layouts[k], starts, total, k),
        0 <= n <= layouts.len(),
    ensures
        n < layouts.len() ==> sums[n] == starts[n],
        n == layouts.len() ==> sums[n] == total,
    decreases n,
{
    if n > 0 {
        lemma_starts_are_sums(layouts, starts, sums, total, n - 1);
        assert(param_fits(layouts[n - 1], starts, total, n - 1));
        assert(sums[(n - 1) + 1] == sums[n - 1] + layouts[n - 1]->Ok_0@.arg_count_spec());
    }
}

proof fn lemma_sums_grow(
    layouts: Seq<Result<ArgLayout, UnsupportedParam>>,
    sums: Seq<int>,
    i: int,
    j: int,
)
    requires
        0 <= i < j <= layouts.len(),
        sums.len() == layouts.len() + 1,
        forall|k: int|
            0 <= k < layouts.len() ==> sums[k + 1] == sums[k] + (
            #[trigger] layouts[k])->Ok_0@.arg_count_spec(),
    ensures
        sums[i] < sums[j],
    decreases j,
{
    let last = layouts[j - 1];
    assert(sums[(j - 1) + 1] == sums[j - 1] + last->Ok_0@.arg_count_spec());
    assert(last->Ok_0@.arg_count_spec() >= 1);
    if i < j - 1 {
        lemma_sums_grow(layouts, sums, i, j - 1);
    }
}

/// A parameter that plans cannot record, and a launch without a configuration, keep a
/// launch from being planned; a refused launch is one that cannot be planned.
pub proof fn refused_launches_cannot_be_planned<F>(
    parts: PartsModel<F>,
    checks: Seq<LaunchCheck>,
    layouts: Seq<Result<ArgLayout, UnsupportedParam>>,
    starts: Seq<usize>,
    e: DeviceError,
)
    ensures
        (exists|i: int| 0 <= i < layouts.len() && (#[trigger] layouts[i]) is Err) ==> !plannable(
            parts,
            checks,
            layouts,
            starts,
        ),
        parts.cfg is None ==> !plannable(parts, checks, layouts, starts),
        capture_fault(parts, checks, layouts, starts, e) ==> !plannable(
            parts,
            checks,
            layouts,
            starts,
        ),
{
    if exists|i: int| 0 <= i < layouts.len() && (#[trigger] layouts[i]) is Err {
        let i = choose|i: int| 0 <= i < layouts.len() && (#[trigger] layouts[i]) is Err;
        assert(!param_fits(layouts[i], starts, parts.offsets.len() as int, i));
    }
}

/// The cause of a refusal says what is wrong: a check that reads the device, the first
/// in order, before a missing configuration, before the first argument without a slot,
/// before a wrong number of starts, before arguments outside the parameters, before the
/// first parameter whose recorded span is not its layout's.
pub proof fn a_refusal_names_the_first_fault<F>(
    parts: PartsModel<F>,
    checks: Seq<LaunchCheck>,
    layouts: Seq<Result<ArgLayout, UnsupportedParam>>,
    starts: Seq<usize>,
    e: DeviceError,
)
    requires
        capture_fault(parts, checks, layouts, starts, e),
    ensures
        match e {
            DeviceError::Launch(LaunchFault::UnpinnedCheck { cause }) => exists|c: int, i: int|
                0 <= c < checks.len() && cause@ == checks[c].cause@ && 0 <= i
                    < checks[c].predicate.subject().terms().len() && ((
                #[trigger] checks[c].predicate.subject().terms()[i]).0 is Iv
                    || checks[c].predicate.subject().terms()[i].0 is TileBlockId),
            DeviceError::Internal(InternalFault::PlanWithoutConfig) => parts.cfg is None,
            DeviceError::Internal(InternalFault::ArgumentSlot { offset, slots }) => slots
                == parts.values.len() && offset >= slots && exists|a: int|
                0 <= a < parts.offsets.len() && #[trigger] parts.offsets[a] == offset && forall|
                    b: int,
                |
                    0 <= b < a ==> #[trigger] parts.offsets[b] < slots,
            DeviceError::Internal(InternalFault::ParamStarts { starts: s, params }) => s
                != params || starts.len() > usize::MAX || layouts.len() > usize::MAX,
            DeviceError::Internal(InternalFault::OutsideParams) => if starts.len() > 0 {
                starts[0] > 0
            } else {
                parts.offsets.len() > 0
            },
            DeviceError::Launch(LaunchFault::UnsupportedParam { index, what }) => index
                < layouts.len() && layouts[index as int] is Err && what@
                == layouts[index as int]->Err_0.0@,
            DeviceError::Internal(InternalFault::ParamSpan { index, start, end, count }) => index
                < layouts.len() && layouts[index as int] is Ok && start == starts[index as int]
                && end == (if index + 1 < starts.len() {
                starts[index + 1] as int
            } else {
                parts.offsets.len() as int
            }) && end - start != layouts[index as int]->Ok_0@.arg_count_spec() && (
            layouts[index as int]->Ok_0@.arg_count_spec() <= usize::MAX ==> count
                == layouts[index as int]->Ok_0@.arg_count_spec()),
            DeviceError::Internal(InternalFault::NoArgument { start, index }) => index
                < layouts.len() && start == starts[index as int] && start >= parts.offsets.len(),
            _ => false,
        },
{
    let total = parts.offsets.len() as int;
    if !all_pinned(checks) {
        let c = choose|c: int|
            unpinned_check(checks, c) && e->Launch_0->UnpinnedCheck_cause@ == (
            #[trigger] checks[c]).cause@;
        let terms = checks[c].predicate.subject().terms();
        let i = choose|i: int| 0 <= i < terms.len() && !pinned((#[trigger] terms[i]).0);
        assert(checks[c].predicate.subject().terms()[i].0 is Iv
            || checks[c].predicate.subject().terms()[i].0 is TileBlockId);
    }
}

/// Arguments match a plan exactly when there is one for each parameter and each has
/// the layout of its own.
pub proof fn arguments_match_one_by_one(layouts: Seq<LayoutModel>, args: Seq<ErasedPlanArg<'_>>)
    ensures
        args_match(layouts, args) <==> args.len() == layouts.len() && forall|i: int|
            0 <= i < layouts.len() ==> argument::has_layout(
                (#[trigger] args[i]).key@,
                args[i].hint,
                layouts[i],
            ),
{
}

/// A layout check passes exactly for matching arguments; its error is about the first
/// argument that does not match.
pub proof fn a_layout_check_finds_the_first_mismatch(
    layouts: Seq<LayoutModel>,
    args: Seq<ErasedPlanArg<'_>>,
    r: Result<(), DeviceError>,
    i: int,
)
    requires
        args.len() == layouts.len(),
        layout_check_result(layouts, args, r),
        0 <= i < args.len(),
        !argument::has_layout(args[i].key@, args[i].hint, layouts[i]),
        forall|k: int|
            0 <= k < i ==> argument::has_layout((#[trigger] args[k]).key@, args[k].hint, layouts[k]),
    ensures
        r matches Err(DeviceError::Launch(LaunchFault::LayoutMismatch { index, layout })) && index
            == i && layout@ == layouts[i].text(),
{
    if r is Err {
        let index = r->Err_0->Launch_0->LayoutMismatch_index as int;
        if i < index {
            assert(argument::has_layout(args[i].key@, args[i].hint, layouts[i]));
        }
    }
}

/// A raw check passes exactly when each argument satisfies its layout; its error is
/// about the first that does not.
pub proof fn a_raw_check_finds_the_first_unsatisfied_layout(
    layouts: Seq<LayoutModel>,
    args: Seq<RawArg>,
    r: Result<(), DeviceError>,
    i: int,
)
    requires
        args.len() == layouts.len(),
        raw_check_result(layouts, args, r),
        0 <= i < args.len(),
        !argument::raw_satisfies(layouts[i], args[i]@),
        forall|k: int| 0 <= k < i ==> argument::raw_satisfies(layouts[k], (#[trigger] args[k])@),
    ensures
        r matches Err(DeviceError::Launch(LaunchFault::RawArgument { index, arg, layout }))
            && index == i && arg@ == args[i]@.text() && layout@ == layouts[i].text(),
{
    if r is Err {
        let index = r->Err_0->Launch_0->RawArgument_index as int;
        if i < index {
            assert(argument::raw_satisfies(layouts[i], args[i]@));
        }
    }
}

/// Both checks pass where every argument is as its parameter asks.
pub proof fn checks_pass_where_every_argument_fits(
    layouts: Seq<LayoutModel>,
    args: Seq<ErasedPlanArg<'_>>,
    raw: Seq<RawArg>,
    r: Result<(), DeviceError>,
)
    requires
        args.len() == layouts.len(),
        raw.len() == layouts.len(),
    ensures
        layout_check_result(layouts, args, r) && (forall|i: int|
            0 <= i < args.len() ==> argument::has_layout(
                (#[trigger] args[i]).key@,
                args[i].hint,
                layouts[i],
            )) ==> r is Ok,
        raw_check_result(layouts, raw, r) && (forall|i: int|
            0 <= i < raw.len() ==> argument::raw_satisfies(layouts[i], (#[trigger] raw[i])@))
            ==> r is Ok,
{
}

/// Keys and slot values are taken argument by argument, in order.
pub proof fn keys_and_values_are_taken_in_order(
    layouts: Seq<LayoutModel>,
    args: Seq<ErasedPlanArg<'_>>,
    raw: Seq<RawArg>,
)
    ensures
        layout_keys(layouts).len() == layouts.len(),
        forall|i: int|
            0 <= i < layouts.len() ==> #[trigger] layout_keys(layouts)[i] == layouts[i].key(),
        arg_keys(args).len() == args.len(),
        forall|i: int| 0 <= i < args.len() ==> #[trigger] arg_keys(args)[i] == args[i].key@,
        arg_slots(args).len() == args.len(),
        forall|i: int| 0 <= i < args.len() ==> #[trigger] arg_slots(args)[i] == args[i].slot,
        raw_bits(raw).len() == raw.len(),
        forall|i: int| 0 <= i < raw.len() ==> #[trigger] raw_bits(raw)[i] == raw[i]@.bits_of(),
{
}

/// A driver argument is the value in its slot, and a replay has as many as the plan.
pub proof fn driver_arguments_are_read_from_their_slots<F>(
    plan: PlanInner<F>,
    values: Seq<u128>,
    bits: Seq<u128>,
    r: ReplayLaunch,
)
    ensures
        plan.arguments_of(values).len() == plan.arg_slots().len(),
        forall|a: int|
            0 <= a < plan.arg_slots().len() ==> #[trigger] plan.arguments_of(values)[a]
                == values[plan.arg_slots()[a] as int],
        plan.replays(bits, r) <==> r.cfg == plan.config() && r.dependent == plan.dependent()
            && r.args@ == plan.replayed(bits),
        plan.replayed(bits).len() == plan.arg_slots().len(),
{
}

/// The driver arguments of a parameter follow those of the parameters before it.
pub proof fn driver_arguments_follow_one_another(layouts: Seq<LayoutModel>, sums: Seq<int>, n: int)
    requires
        0 <= n <= layouts.len(),
        sums.len() == layouts.len() + 1,
        sums[0] == 0,
        forall|i: int|
            0 <= i < layouts.len() ==> sums[i + 1] == sums[i] + (
            #[trigger] layouts[i]).arg_count_spec(),
    ensures
        arg_start(layouts, n) == sums[n],
    decreases n,
{
    if n > 0 {
        driver_arguments_follow_one_another(layouts, sums, n - 1);
        assert(sums[(n - 1) + 1] == sums[n - 1] + layouts[n - 1].arg_count_spec());
    }
}

/// Two plans share a cache entry exactly when one generation, device, options and
/// layout of every parameter serve both.
pub proof fn an_entry_is_generation_device_options_and_layouts<F>(a: PlanInner<F>, b: PlanInner<F>)
    ensures
        a.is_same_entry(b) <==> a.generation() == b.generation() && a.device() == b.device()
            && a.opts() == b.opts() && a.layouts().len() == b.layouts().len() && forall|i: int|
            0 <= i < a.layouts().len() ==> #[trigger] a.layouts()[i] == b.layouts()[i],
{
    if a.layouts().len() == b.layouts().len() && forall|i: int|
        0 <= i < a.layouts().len() ==> #[trigger] a.layouts()[i] == b.layouts()[i] {
        assert(a.layouts() =~= b.layouts());
    }
}

/// A plan records all that the launch was captured with.
pub proof fn a_plan_records_the_captured_launch<F>(
    plan: PlanInner<F>,
    parts: PartsModel<F>,
    kernel: Seq<char>,
    device_id: usize,
    epoch: u64,
    layouts: Seq<Result<ArgLayout, UnsupportedParam>>,
    unsafe_entry: bool,
    options: OptionsModel,
)
    requires
        plan.captures(parts, kernel, device_id, epoch, layouts, unsafe_entry, options),
    ensures
        plan.path() == kernel,
        plan.func() == parts.func,
        parts.cfg == Some(plan.config()),
        plan.dependent() == parts.dependent,
        plan.device() == device_id,
        plan.generation() == epoch,
        plan.from_unsafe_entry() == unsafe_entry,
        plan.opts() == options,
        plan.template() == parts.values,
        plan.arg_slots() == parts.offsets,
        plan.layouts().len() == layouts.len(),
        forall|i: int|
            0 <= i < layouts.len() ==> (#[trigger] layouts[i]) is Ok && plan.layouts()[i]
                == layouts[i]->Ok_0@,
{
    lemma_a_plan_holds_the_captured_launch(
        plan,
        parts,
        kernel,
        device_id,
        epoch,
        layouts,
        unsafe_entry,
        options,
    );
}

/// What a plan is read by is what it holds.
proof fn lemma_a_plan_holds_the_captured_launch<F>(
    plan: PlanInner<F>,
    parts: PartsModel<F>,
    kernel: Seq<char>,
    device_id: usize,
    epoch: u64,
    layouts: Seq<Result<ArgLayout, UnsupportedParam>>,
    unsafe_entry: bool,
    options: OptionsModel,
)
    requires
        plan.captures(parts, kernel, device_id, epoch, layouts, unsafe_entry, options),
    ensures
        plan.kernel@ == kernel,
        plan.function == parts.func,
        parts.cfg == Some(plan.cfg),
        plan.programmatic_dependent_launch == parts.dependent,
        plan.device_id == device_id,
        plan.epoch == epoch,
        plan.unsafe_entry == unsafe_entry,
        plan.options@ == options,
        plan.values@ == parts.values,
        plan.offsets@ == parts.offsets,
        plan.params@.len() == layouts.len(),
        forall|i: int|
            0 <= i < layouts.len() ==> layouts[i] is Ok && (#[trigger] plan.params@[i]).layout@
                == layouts[i]->Ok_0@,
{
    assert(plan.layouts().len() == plan.params@.len());
    assert forall|i: int| 0 <= i < layouts.len() implies layouts[i] is Ok && (
    #[trigger] plan.params@[i]).layout@ == layouts[i]->Ok_0@ by {
        assert(layouts[i] is Ok && plan.layouts()[i] == layouts[i]->Ok_0@);
    }
}

/// The words of a cache key are those of the device, the options, and each argument
/// in turn.
pub proof fn key_words_grow_by_argument(
    device_id: usize,
    options: OptionsModel,
    keys: Seq<KeyModel>,
    last: KeyModel,
)
    ensures
        key_words(device_id, options, Seq::empty()) == seq![device_id] + options.words(),
        key_words(device_id, options, keys.push(last)) == key_words(device_id, options, keys)
            + last.words(),
{
    assert(keys.push(last).drop_last() =~= keys);
}

/// The words of argument keys, the first in front.
spec fn tail_words(keys: Seq<KeyModel>) -> Seq<usize>
    decreases keys.len(),
{
    if keys.len() == 0 {
        Seq::empty()
    } else {
        keys[0].words() + tail_words(keys.skip(1))
    }
}

proof fn lemma_tail_grows(keys: Seq<KeyModel>, last: KeyModel)
    ensures
        tail_words(keys.push(last)) == tail_words(keys) + last.words(),
    decreases keys.len(),
{
    if keys.len() == 0 {
        assert(keys.push(last).skip(1) =~= Seq::empty());
        assert(tail_words(Seq::<KeyModel>::empty()) == Seq::<usize>::empty());
        assert(keys.push(last)[0] == last);
        assert(tail_words(keys.push(last)) =~= last.words());
        assert(tail_words(keys) + last.words() =~= last.words());
    } else {
        assert(keys.push(last).skip(1) =~= keys.skip(1).push(last));
        lemma_tail_grows(keys.skip(1), last);
        assert(tail_words(keys.push(last)) =~= tail_words(keys) + last.words());
    }
}

proof fn lemma_key_words_front(device_id: usize, options: OptionsModel, keys: Seq<KeyModel>)
    ensures
        key_words(device_id, options, keys) == seq![device_id] + (options.words() + tail_words(
            keys,
        )),
    decreases keys.len(),
{
    if keys.len() == 0 {
        assert(key_words(device_id, options, keys) =~= seq![device_id] + (options.words()
            + tail_words(keys)));
    } else {
        let front = keys.drop_last();
        lemma_key_words_front(device_id, options, front);
        lemma_tail_grows(front, keys.last());
        assert(front.push(keys.last()) =~= keys);
        assert(key_words(device_id, options, keys) =~= seq![device_id] + (options.words()
            + tail_words(keys)));
    }
}

proof fn lemma_tails_differ(a: Seq<KeyModel>, b: Seq<KeyModel>)
    requires
        forall|i: int| 0 <= i < a.len() ==> (#[trigger] a[i]).countable(),
        forall|i: int| 0 <= i < b.len() ==> (#[trigger] b[i]).countable(),
        tail_words(a) == tail_words(b),
    ensures
        a == b,
    decreases a.len(),
{
    if a.len() == 0 {
        if b.len() > 0 {
            layout::argument_keys_are_told_apart(b[0], b[0], Seq::empty(), Seq::empty());
            assert(tail_words(b).len() > 0);
        }
        assert(a =~= b);
    } else if b.len() == 0 {
        layout::argument_keys_are_told_apart(a[0], a[0], Seq::empty(), Seq::empty());
        assert(tail_words(a).len() > 0);
    } else {
        let (s, t) = (a.skip(1), b.skip(1));
        assert(a[0].countable() && b[0].countable());
        layout::argument_keys_are_told_apart(a[0], b[0], tail_words(s), tail_words(t));
        assert forall|i: int| 0 <= i < s.len() implies (#[trigger] s[i]).countable() by {
            assert(s[i] == a[i + 1]);
        }
        assert forall|i: int| 0 <= i < t.len() implies (#[trigger] t[i]).countable() by {
            assert(t[i] == b[i + 1]);
        }
        lemma_tails_differ(s, t);
        assert forall|i: int| 0 <= i < a.len() implies #[trigger] a[i] == b[i] by {
            if i > 0 {
                assert(s[i - 1] == a[i] && t[i - 1] == b[i]);
            }
        }
        assert(a.len() == b.len()) by {
            assert(s.len() == t.len());
        }
        assert(a =~= b);
    }
}

/// The words of a cache key tell apart devices, options and argument keys: two lookups
/// whose words agree are for one device, one set of options, and arguments of one layout
/// each.
pub proof fn cache_keys_are_hashed_from_distinct_words(
    device_a: usize,
    options_a: OptionsModel,
    a: Seq<KeyModel>,
    device_b: usize,
    options_b: OptionsModel,
    b: Seq<KeyModel>,
)
    requires
        options_a.countable(),
        options_b.countable(),
        forall|i: int| 0 <= i < a.len() ==> (#[trigger] a[i]).countable(),
        forall|i: int| 0 <= i < b.len() ==> (#[trigger] b[i]).countable(),
    ensures
        key_words(device_a, options_a, a) == key_words(device_b, options_b, b) <==> device_a
            == device_b && options_a == options_b && a == b,
{
    if key_words(device_a, options_a, a) == key_words(device_b, options_b, b) {
        lemma_key_words_front(device_a, options_a, a);
        lemma_key_words_front(device_b, options_b, b);
        let (x, y) = (options_a.words() + tail_words(a), options_b.words() + tail_words(b));
        key::lemma_same_front(seq![device_a], seq![device_b], x, y);
        assert(seq![device_a][0] == seq![device_b][0]);
        crate::plan::options::options_are_told_apart(
            options_a,
            options_b,
            tail_words(a),
            tail_words(b),
        );
        lemma_tails_differ(a, b);
    }
}

/// Every driver argument of a plan lies in its template, the layouts account for all of
/// them, and each parameter's value is patched where its first argument is read.
pub proof fn a_plan_patches_the_first_argument_of_each_parameter<F>(
    plan: PlanInner<F>,
    sums: Seq<int>,
)
    requires
        plan.wf(),
        sums.len() == plan.layouts().len() + 1,
        sums[0] == 0,
        forall|i: int|
            0 <= i < plan.layouts().len() ==> sums[i + 1] == sums[i] + (
            #[trigger] plan.layouts()[i]).arg_count_spec(),
    ensures
        plan.param_slots().len() == plan.layouts().len(),
        plan.arg_slots().len() == sums.last(),
        forall|a: int|
            0 <= a < plan.arg_slots().len() ==> #[trigger] plan.arg_slots()[a]
                < plan.template().len(),
        forall|i: int|
            0 <= i < plan.layouts().len() ==> 0 <= #[trigger] sums[i] < plan.arg_slots().len(),
        forall|i: int|
            0 <= i < plan.layouts().len() ==> #[trigger] plan.param_slots()[i]
                == plan.arg_slots()[sums[i]],
{
    let n = plan.layouts().len() as int;
    driver_arguments_follow_one_another(plan.layouts(), sums, n);
    assert forall|i: int| 0 <= i < n implies 0 <= #[trigger] sums[i] < plan.arg_slots().len() by {
        driver_arguments_follow_one_another(plan.layouts(), sums, i);
        assert(0 <= arg_start(plan.layouts(), i) < plan.arg_slots().len());
    }
    assert forall|i: int| 0 <= i < n implies #[trigger] plan.param_slots()[i]
        == plan.arg_slots()[sums[i]] by {
        driver_arguments_follow_one_another(plan.layouts(), sums, i);
        assert(0 <= arg_start(plan.layouts(), i) < plan.arg_slots().len());
    }
}

/// Refusals come in order: a check that reads the device, then a missing configuration,
/// then an argument without a slot, then a wrong number of starts, then arguments outside
/// the parameters, then the first parameter that plans cannot record or whose span is not
/// its layout's.
pub proof fn refusals_come_in_order<F>(
    parts: PartsModel<F>,
    checks: Seq<LaunchCheck>,
    layouts: Seq<Result<ArgLayout, UnsupportedParam>>,
    starts: Seq<usize>,
    e: DeviceError,
    i: int,
)
    requires
        capture_fault(parts, checks, layouts, starts, e),
    ensures
        ({
            let total = parts.offsets.len();
            let pinned_checks = forall|c: int|
                0 <= c < checks.len() ==> reads_pinned((#[trigger] checks[c]).predicate);
            let slotted = forall|a: int|
                0 <= a < total ==> #[trigger] parts.offsets[a] < parts.values.len();
            let at_zero = if starts.len() > 0 {
                starts[0] == 0
            } else {
                total == 0
            };
            let clear = pinned_checks && parts.cfg is Some && slotted && starts.len()
                == layouts.len() && at_zero;
            &&& !pinned_checks ==> (e is Launch && e->Launch_0 is UnpinnedCheck)
            &&& pinned_checks && parts.cfg is None ==> e == DeviceError::Internal(
                InternalFault::PlanWithoutConfig,
            )
            &&& pinned_checks && parts.cfg is Some && !slotted ==> (e is Internal
                && e->Internal_0 is ArgumentSlot)
            &&& pinned_checks && parts.cfg is Some && slotted && starts.len() != layouts.len()
                ==> (e is Internal && e->Internal_0 is ParamStarts)
            &&& pinned_checks && parts.cfg is Some && slotted && starts.len() == layouts.len()
                && !at_zero ==> e == DeviceError::Internal(InternalFault::OutsideParams)
            &&& clear && 0 <= i < layouts.len() && layouts[i] is Err && (forall|k: int|
                0 <= k < i ==> param_fits(#[trigger] layouts[k], starts, total as int, k)) ==> (
            e matches DeviceError::Launch(LaunchFault::UnsupportedParam { index, what }) && index
                == i && what@ == layouts[i]->Err_0.0@)
            &&& clear && 0 <= i < layouts.len() && layouts[i] is Ok && (if i + 1 < starts.len() {
                starts[i + 1] as int
            } else {
                total as int
            }) - starts[i] != layouts[i]->Ok_0@.arg_count_spec() && (forall|k: int|
                0 <= k < i ==> param_fits(#[trigger] layouts[k], starts, total as int, k)) ==> (
            e matches DeviceError::Internal(InternalFault::ParamSpan { index, .. }) && index == i)
        }),
{
    let total = parts.offsets.len() as int;
    if all_pinned(checks) && parts.cfg is Some && offsets_inside(
        parts.offsets,
        parts.values.len() as int,
    ) && starts.len() == layouts.len() && starts_at_zero(starts, total) {
        let j = choose|j: int|
            0 <= j < layouts.len() && !param_fits(#[trigger] layouts[j], starts, total, j)
                && param_fault(layouts[j], starts, total, j, e) && forall|k: int|
                0 <= k < j ==> param_fits(#[trigger] layouts[k], starts, total, k);
        if 0 <= i < layouts.len() && !param_fits(layouts[i], starts, total, i) && (forall|k: int|
            0 <= k < i ==> param_fits(#[trigger] layouts[k], starts, total, k)) {
            if i < j {
                assert(param_fits(layouts[i], starts, total, i));
            } else if j < i {
                assert(param_fits(layouts[j], starts, total, j));
            }
            assert(i == j);
        }
    }
}

/// A parameter fits exactly when it is recorded, its arguments are as many as its layout
/// takes, and the first of them exists.
pub proof fn a_parameter_fits_its_span(
    layout: Result<ArgLayout, UnsupportedParam>,
    starts: Seq<usize>,
    total: int,
    i: int,
)
    requires
        0 <= i < starts.len(),
    ensures
        param_fits(layout, starts, total, i) <==> layout is Ok && starts[i] < total && (if i + 1
            < starts.len() {
            starts[i + 1] as int
        } else {
            total
        }) - starts[i] == layout->Ok_0@.arg_count_spec(),
{
}

} // verus!
