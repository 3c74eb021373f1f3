//! What a launch check reads: the values that argument layouts and a launch
//! configuration give its atoms.
use vstd::prelude::*;

use crate::launch::{LaunchConfig, PartsModel};
use crate::plan::argument::ErasedPlanArg;
use crate::plan::inner;
use crate::plan::inner::{PlanInner, ReplayLaunch};
use crate::plan::layout::{ArgLayout, KeyModel, TensorModel, UnsupportedParam};
use crate::plan::options::OptionsModel;
use crate::predicate::{Atom, LaunchCheck, Predicate};

verus! {

/// The tensor at a parameter position, where there is one.
pub open spec fn tensor_at(keys: Seq<KeyModel>, param: usize) -> Option<TensorModel> {
    if param < keys.len() {
        match keys[param as int] {
            KeyModel::Tensor(t) => Some(t),
            _ => None,
        }
    } else {
        None
    }
}

/// The extent of the whole tensor along an axis.
pub open spec fn root_extent(keys: Seq<KeyModel>, param: usize, axis: usize) -> Option<i64> {
    match tensor_at(keys, param) {
        Some(t) => if axis < t.shape.len() {
            Some(t.shape[axis as int] as i64)
        } else {
            None
        },
        None => None,
    }
}

/// The extent of the kernel-visible view along an axis: that of the piece an
/// output is partitioned into, of the whole tensor for an input.
pub open spec fn view_extent(keys: Seq<KeyModel>, param: usize, axis: usize) -> Option<i64> {
    match tensor_at(keys, param) {
        Some(t) => match t.partition {
            Some(p) => if axis < p.shape.len() && p.shape[axis as int] <= i64::MAX {
                Some(p.shape[axis as int] as i64)
            } else {
                None
            },
            None => root_extent(keys, param, axis),
        },
        None => None,
    }
}

/// The number of `tile`-sized tiles that cover the whole tensor along an axis.
pub open spec fn tile_count(keys: Seq<KeyModel>, param: usize, axis: usize, tile: i32) -> Option<
    i64,
> {
    match root_extent(keys, param, axis) {
        Some(extent) => if tile >= 1 {
            Some(((extent + tile - 1) / tile as int) as i64)
        } else {
            None
        },
        None => None,
    }
}

/// The number of tile blocks on a grid axis.
pub open spec fn grid_blocks(cfg: LaunchConfig, axis: usize) -> Option<i64> {
    if axis == 0 {
        Some(cfg.grid_dim.0 as i64)
    } else if axis == 1 {
        Some(cfg.grid_dim.1 as i64)
    } else if axis == 2 {
        Some(cfg.grid_dim.2 as i64)
    } else {
        None
    }
}

/// The environment of arguments with these layout keys under a launch
/// configuration. What only the device knows comes from `device`.
pub open spec fn environment(
    keys: Seq<KeyModel>,
    cfg: LaunchConfig,
    device: spec_fn(Atom) -> Option<i64>,
) -> spec_fn(Atom) -> Option<i64> {
    |atom: Atom|
        match atom {
            Atom::Dim { param, axis } => root_extent(keys, param, axis),
            Atom::ViewExtent { param, axis } => view_extent(keys, param, axis),
            Atom::TileCount { param, axis, tile } => tile_count(keys, param, axis, tile),
            Atom::NumTileBlocks(axis) => grid_blocks(cfg, axis),
            Atom::Iv(_) => device(atom),
            Atom::TileBlockId(_) => device(atom),
        }
}

/// What a plan pins is exactly what layouts and configuration decide: a predicate
/// that reads nothing else has one value, whatever the device holds.
pub proof fn layouts_and_grid_decide_pinned_checks(
    p: Predicate,
    keys: Seq<KeyModel>,
    cfg: LaunchConfig,
    before: spec_fn(Atom) -> Option<i64>,
    after: spec_fn(Atom) -> Option<i64>,
)
    requires
        inner::reads_pinned(p),
    ensures
        p.eval_spec(environment(keys, cfg, before)) == p.eval_spec(environment(keys, cfg, after)),
{
    inner::pinned_checks_survive_replay(
        p,
        environment(keys, cfg, before),
        environment(keys, cfg, after),
    );
}

/// The layout keys of a captured launch.
pub open spec fn captured_keys(layouts: Seq<Result<ArgLayout, UnsupportedParam>>) -> Seq<KeyModel> {
    layouts.map_values(|l: Result<ArgLayout, UnsupportedParam>| l->Ok_0@.key())
}

/// A replay may skip the launch checks. Where a launch was planned, and `args`
/// match the plan, every check has for the replay over `args` the value that it
/// had for the captured launch: one that passed passes again.
pub proof fn launch_checks_survive_replay<F>(
    plan: PlanInner<F>,
    parts: PartsModel<F>,
    kernel: Seq<char>,
    device_id: usize,
    epoch: u64,
    checks: Seq<LaunchCheck>,
    layouts: Seq<Result<ArgLayout, UnsupportedParam>>,
    starts: Seq<usize>,
    unsafe_entry: bool,
    options: OptionsModel,
    args: Seq<ErasedPlanArg<'_>>,
    launch: ReplayLaunch,
    before: spec_fn(Atom) -> Option<i64>,
    after: spec_fn(Atom) -> Option<i64>,
)
    requires
        inner::plannable(parts, checks, layouts, starts),
        plan.captures(parts, kernel, device_id, epoch, layouts, unsafe_entry, options),
        inner::args_match(plan.layouts(), args),
        plan.replays(inner::arg_slots(args), launch),
    ensures
        forall|i: int|
            0 <= i < checks.len() ==> (#[trigger] checks[i]).predicate.eval_spec(
                environment(captured_keys(layouts), parts.cfg->Some_0, before),
            ) == checks[i].predicate.eval_spec(
                environment(inner::arg_keys(args), launch.cfg, after),
            ),
{
    inner::matching_arguments_have_the_layout_keys(plan.layouts(), args);
    assert forall|i: int| 0 <= i < layouts.len() implies #[trigger] captured_keys(layouts)[i]
        == inner::layout_keys(plan.layouts())[i] by {
        assert(layouts[i] is Ok);
    }
    assert(captured_keys(layouts) =~= inner::layout_keys(plan.layouts()));
    assert forall|i: int| 0 <= i < checks.len() implies (#[trigger] checks[i]).predicate.eval_spec(
        environment(captured_keys(layouts), parts.cfg->Some_0, before),
    ) == checks[i].predicate.eval_spec(
        environment(inner::arg_keys(args), launch.cfg, after),
    ) by {
        layouts_and_grid_decide_pinned_checks(
            checks[i].predicate,
            captured_keys(layouts),
            launch.cfg,
            before,
            after,
        );
    }
}

/// A plan pins an atom exactly when the layouts and the grid decide its value: the
/// atom then reads the same whatever the device holds, and any other does not.
pub proof fn a_plan_pins_what_the_device_cannot_change(atom: Atom)
    ensures
        inner::pinned(atom) <==> forall|
            keys: Seq<KeyModel>,
            cfg: LaunchConfig,
            before: spec_fn(Atom) -> Option<i64>,
            after: spec_fn(Atom) -> Option<i64>,
        |
            (#[trigger] environment(keys, cfg, before))(atom) == (#[trigger] environment(
                keys,
                cfg,
                after,
            ))(atom),
{
    let keys = Seq::<KeyModel>::empty();
    let cfg: LaunchConfig = arbitrary();
    let nothing = |a: Atom| None::<i64>;
    let zero = |a: Atom| Some(0i64);
    if !inner::pinned(atom) {
        assert(environment(keys, cfg, nothing)(atom) != environment(keys, cfg, zero)(atom));
    }
}

/// An atom is known at launch exactly when the layouts and the grid decide its value,
/// and on the device otherwise.
pub proof fn what_the_launch_decides_is_known_at_launch(atom: Atom)
    ensures
        (atom.stage_of() is Launch) <==> forall|
            keys: Seq<KeyModel>,
            cfg: LaunchConfig,
            before: spec_fn(Atom) -> Option<i64>,
            after: spec_fn(Atom) -> Option<i64>,
        |
            (#[trigger] environment(keys, cfg, before))(atom) == (#[trigger] environment(
                keys,
                cfg,
                after,
            ))(atom),
        atom.stage_of() is Launch || atom.stage_of() is Device,
{
    a_plan_pins_what_the_device_cannot_change(atom);
}

/// A check can be planned exactly when none of its atoms is an induction variable or
/// the id of a tile block.
pub proof fn checks_without_device_values_can_be_planned(p: Predicate)
    ensures
        inner::reads_pinned(p) <==> forall|i: int|
            0 <= i < p.subject().terms().len() ==> !((#[trigger] p.subject().terms()[i]).0 is Iv)
                && !(p.subject().terms()[i].0 is TileBlockId),
{
    if inner::reads_pinned(p) {
        assert forall|i: int| 0 <= i < p.subject().terms().len() implies !((
        #[trigger] p.subject().terms()[i]).0 is Iv) && !(p.subject().terms()[i].0 is TileBlockId) by {
            assert(inner::pinned(p.subject().terms()[i].0));
        }
    }
}

/// A dimension reads the extent of the whole tensor, where the parameter is a tensor
/// that has the axis.
pub proof fn a_dimension_reads_the_whole_extent(
    keys: Seq<KeyModel>,
    cfg: LaunchConfig,
    device: spec_fn(Atom) -> Option<i64>,
    param: usize,
    axis: usize,
)
    ensures
        ({
            let r = environment(keys, cfg, device)(Atom::Dim { param, axis });
            let known = param < keys.len() && keys[param as int] is Tensor && axis
                < keys[param as int]->Tensor_0.shape.len();
            &&& r is Some <==> known
            &&& r is Some ==> r->Some_0 == keys[param as int]->Tensor_0.shape[axis as int]
        }),
{
}

/// A view extent reads the extent of the piece for a partitioned tensor, and that of
/// the whole tensor otherwise.
pub proof fn a_view_extent_reads_the_piece(
    keys: Seq<KeyModel>,
    cfg: LaunchConfig,
    device: spec_fn(Atom) -> Option<i64>,
    param: usize,
    axis: usize,
)
    ensures
        ({
            let r = environment(keys, cfg, device)(Atom::ViewExtent { param, axis });
            if param < keys.len() && keys[param as int] is Tensor {
                match keys[param as int]->Tensor_0.partition {
                    Some(piece) => (r is Some <==> axis < piece.shape.len()
                        && piece.shape[axis as int] <= i64::MAX) && (r is Some ==> r->Some_0
                        == piece.shape[axis as int]),
                    None => r == environment(keys, cfg, device)(Atom::Dim { param, axis }),
                }
            } else {
                r is None
            }
        }),
{
}

/// A tile count reads the least number of tiles that reach the end of the axis.
pub proof fn a_tile_count_covers_the_axis(
    keys: Seq<KeyModel>,
    cfg: LaunchConfig,
    device: spec_fn(Atom) -> Option<i64>,
    param: usize,
    axis: usize,
    tile: i32,
)
    ensures
        ({
            let r = environment(keys, cfg, device)(Atom::TileCount { param, axis, tile });
            let extent = environment(keys, cfg, device)(Atom::Dim { param, axis });
            &&& r is Some <==> extent is Some && tile >= 1
            &&& r is Some ==> tile * (r->Some_0 - 1) < extent->Some_0 <= tile * r->Some_0
        }),
{
    if root_extent(keys, param, axis) is Some && tile >= 1 {
        let extent = root_extent(keys, param, axis)->Some_0 as int;
        let t = tile as int;
        let x = extent + t - 1;
        vstd::arithmetic::div_mod::lemma_fundamental_div_mod(x, t);
        vstd::arithmetic::div_mod::lemma_mod_bound(x, t);
        let q = x / t;
        assert(t * (q - 1) == t * q - t) by (nonlinear_arith);
        assert(i32::MIN <= extent <= i32::MAX);
        assert(-0x1_0000_0000 <= q <= 0x1_0000_0000) by (nonlinear_arith)
            requires
                t >= 1,
                t * q <= x,
                x < t * q + t,
                x <= extent + t - 1,
                x == extent + t - 1,
                -0x8000_0000 <= extent <= 0x7FFF_FFFF,
                t <= 0x7FFF_FFFF,
        ;
    }
}

/// A number of tile blocks reads the grid; what only the device knows is left to it.
pub proof fn a_block_count_reads_the_grid(
    keys: Seq<KeyModel>,
    cfg: LaunchConfig,
    device: spec_fn(Atom) -> Option<i64>,
    axis: usize,
    atom: Atom,
)
    ensures
        ({
            let r = environment(keys, cfg, device)(Atom::NumTileBlocks(axis));
            &&& r is Some <==> axis < 3
            &&& axis == 0 ==> r->Some_0 == cfg.grid_dim.0
            &&& axis == 1 ==> r->Some_0 == cfg.grid_dim.1
            &&& axis == 2 ==> r->Some_0 == cfg.grid_dim.2
        }),
        atom is Iv || atom is TileBlockId ==> environment(keys, cfg, device)(atom) == device(atom),
{
}

} // verus!
