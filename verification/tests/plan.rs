use cutile::binding::{KernelInput, KernelInputStored, KernelOutput, KernelOutputStored};
use cutile::dtype::{DTypeId, DivHint, SpecializationBits};
use cutile::error::{DeviceError, LaunchFault};
use cutile::launch::{AsyncKernelLaunch, KernelLaunchParts, LaunchConfig};
use cutile::partition::{IntoPartition, Partition};
use cutile::plan::argument::{accesses_of, ErasedPlanArg, RawArg, TensorArg};
use cutile::plan::inner::{args_key, CapturedLaunch, PlanInner, ReplayLaunch};
use cutile::plan::launch_plan::{CacheStep, EntryGenerated, Kernel, LaunchPlan, PlanCache};
use cutile::plan::launch_plan::{PlanLauncher, PlanSink, Safe, Unchecked};
use cutile::plan::layout::{ArgLayout, UnsupportedParam};
use cutile::plan::options::{CompileOptions, LauncherSettings, PlanGrid, PlanOptions};
use cutile::plan::param::{In, InputArg, Out, OutputArg, PlanArgs, Ptr, Scalar, SpreadArgs};
use cutile::plan::store::{clear_plan_caches, PlanMap};
use cutile::predicate::{Atom, LaunchCheck, Predicate, Term};
use cutile::scalar::{Float, FloatKind, PlanScalar, SlotValue};
use cutile::scalar::{BF16, F16, F32, F4E2M1FNX2, F64, F8E4M3FN, F8E5M2, F8E5M3FNU, F8E8M0FNU, TF32};
use cutile::storage::Storage;
use cutile::tensor::{SpecInputs, Tensor, TensorView};
use std::cell::Cell;
use std::sync::Arc;

// ── Options ────────────────────────────────────────────────────────────────

fn round_trip(options: &PlanOptions) -> PlanOptions {
    let (grid, const_grid) = options.launcher_grid();
    PlanOptions::from_launcher(grid, const_grid, None, CompileOptions::default())
}

#[test]
fn grid_options_round_trip_through_the_launcher() {
    for options in [
        PlanOptions::new(),
        PlanOptions::new().grid((0, 0, 0)),
        PlanOptions::new().grid((4, 1, 1)),
        PlanOptions::new().const_grid((4, 1, 1)),
        PlanOptions::new().const_grid((0, 0, 0)),
    ] {
        assert_eq!(round_trip(&options), options);
    }
    assert_eq!(PlanOptions::new().grid((0, 0, 0)), PlanOptions::new());
}

#[test]
fn options_are_read_back_as_they_were_set() {
    let options = PlanOptions::default()
        .const_grid((2, 3, 4))
        .generics(vec!["128".to_string(), "f32".to_string()])
        .compile_options(CompileOptions { lineinfo: true, ..CompileOptions::default() });
    assert_eq!(options.get_grid(), PlanGrid::ConstGrid((2, 3, 4)));
    assert_eq!(options.get_generics().unwrap(), ["128".to_string(), "f32".to_string()]);
    assert!(options.get_compile_options().lineinfo);
    assert!(options.same(&options.clone()));
    assert!(!options.same(&PlanOptions::new()));
    assert!(PlanOptions::new().get_generics().is_none());
    // Another text, and no texts, are other options.
    let one = PlanOptions::new().generics(vec!["16".to_string()]);
    let other = PlanOptions::new().generics(vec!["17".to_string()]);
    assert!(!one.same(&other));
    assert!(!PlanOptions::new().generics(vec![]).same(&PlanOptions::new()));
}

// ── Scalars ────────────────────────────────────────────────────────────────

/// Plans hint exactly the scalar types the launcher hints: another hinted type
/// would make a plan's layout disagree with its launch.
#[test]
fn plan_scalars_are_hinted_as_the_launcher_hints_them() {
    fn case<T: PlanScalar>(one: T) -> (&'static str, bool) {
        (one.dtype().as_str(), one.div_hint().is_some())
    }
    fn float<K: FloatKind>() -> Float<K> {
        Float::from_bits(1).unwrap()
    }
    let is_integer_scalar =
        |name: &str| ["u8", "u16", "u32", "u64", "i8", "i16", "i32", "i64"].contains(&name);
    for (name, hinted) in [
        case(true),
        case(1u8),
        case(1u16),
        case(1u32),
        case(1u64),
        case(1i8),
        case(1i16),
        case(1i32),
        case(1i64),
        case(float::<F16>()),
        case(float::<BF16>()),
        case(float::<F32>()),
        case(float::<TF32>()),
        case(float::<F64>()),
        case(float::<F8E4M3FN>()),
        case(float::<F8E5M2>()),
        case(float::<F8E8M0FNU>()),
        case(float::<F8E5M3FNU>()),
        case(float::<F4E2M1FNX2>()),
    ] {
        assert_eq!(hinted, is_integer_scalar(name), "{name}");
    }
}

#[test]
fn float_scalars_hold_only_their_own_bits() {
    assert!(Float::<F16>::from_bits(0x1_0000).is_none());
    assert!(Float::<F8E5M2>::from_bits(0x100).is_none());
    assert!(Float::<TF32>::from_bits(1 << 32).is_none());
    assert_eq!(Float::<BF16>::from_bits(0xFFFF).unwrap().to_bits(), 0xFFFF);
    assert_eq!(Float::<F64>::from_bits(u64::MAX).unwrap().to_slot(), u64::MAX as u128);
}

// ── A kernel to plan ───────────────────────────────────────────────────────

const B: usize = 16;

/// Stands in for the compiler's specialization of a tensor.
fn specialize(inputs: SpecInputs) -> SpecializationBits {
    SpecializationBits {
        shape_div: inputs.shape.iter().map(|&d| DivHint::from_value(d)).collect(),
        stride_div: inputs.strides.iter().map(|&d| DivHint::from_value(d)).collect(),
        stride_one: inputs.strides.iter().map(|&d| d == 1).collect(),
        base_ptr_div: DivHint::from_ptr(inputs.ptr),
    }
}

fn device_f32(ptr: u64, len: usize) -> Tensor {
    Tensor::from_raw_parts(ptr, 4 * len, 0, DTypeId::F32, vec![len as i32], vec![1])
}

fn f32s(x: f32) -> Float<F32> {
    Float::from_bits(x.to_bits() as u64).unwrap()
}

/// An input: a whole tensor or a view.
#[derive(Clone, Copy)]
enum Input<'a> {
    Whole(&'a Tensor),
    View(&'a TensorView<'a>),
}

struct Bound<T> {
    value: T,
    spec: SpecializationBits,
}

/// The partition of a tensor that alone holds its storage.
fn tiled<const RANK: usize>(t: Tensor, shape: [usize; RANK]) -> Partition<Tensor> {
    let storage = Storage::new(t.allocation());
    t.partition(&storage, 1, shape).unwrap()
}

/// As [`tiled`], for a launch that may cover a prefix of the tiles.
fn prefix_tiled<const RANK: usize>(t: Tensor, shape: [usize; RANK]) -> Partition<Tensor> {
    let storage = Storage::new(t.allocation());
    t.partition_prefix(&storage, 1, shape).unwrap()
}

fn output(t: Tensor, tile: usize) -> Bound<Partition<Tensor>> {
    let spec = specialize(t.spec_inputs());
    Bound { value: tiled(t, [tile]), spec }
}

fn input(t: Tensor) -> Bound<Tensor> {
    let spec = specialize(t.spec_inputs());
    Bound { value: t, spec }
}

fn view<'a>(v: TensorView<'a>) -> Bound<TensorView<'a>> {
    let spec = specialize(v.spec_inputs());
    Bound { value: v, spec }
}

struct AxpyKernel;
impl EntryGenerated for AxpyKernel {}
impl Kernel for AxpyKernel {
    type Params = (Out, In, In, Scalar<Float<F32>>);
    const PATH: &'static str = "plan_module::axpy";
}

struct PickKernel;
impl EntryGenerated for PickKernel {}
impl Kernel for PickKernel {
    type Params = (Out, In, Scalar<i32>);
    const PATH: &'static str = "plan_module::pick";
}

type AxpyArgs<'a> = (OutputArg<'a>, InputArg<'a>, InputArg<'a>, Float<F32>);
type PickArgs<'a> = (OutputArg<'a>, InputArg<'a>, i32);
type Function = Arc<&'static str>;

/// A launcher of `axpy`: what the generated one holds.
struct Axpy<'a> {
    z: &'a Bound<Partition<Tensor>>,
    x: (Input<'a>, &'a SpecializationBits),
    y: (Input<'a>, &'a SpecializationBits),
    a: Float<F32>,
    settings: LauncherSettings,
    dependent: bool,
    unsafe_entry: bool,
    epoch: u64,
}

fn axpy<'a>(
    z: &'a Bound<Partition<Tensor>>,
    x: &'a Bound<Tensor>,
    y: &'a Bound<Tensor>,
    a: f32,
) -> Axpy<'a> {
    axpy_over(z, (Input::Whole(&x.value), &x.spec), (Input::Whole(&y.value), &y.spec), a)
}

fn axpy_over<'a>(
    z: &'a Bound<Partition<Tensor>>,
    x: (Input<'a>, &'a SpecializationBits),
    y: (Input<'a>, &'a SpecializationBits),
    a: f32,
) -> Axpy<'a> {
    Axpy {
        z,
        x,
        y,
        a: f32s(a),
        settings: LauncherSettings::new(),
        dependent: false,
        unsafe_entry: false,
        epoch: 0,
    }
}

fn tensor_arg<'a>(input: (Input<'a>, &'a SpecializationBits)) -> TensorArg<'a> {
    match input.0 {
        Input::Whole(t) => TensorArg::input(t, input.1),
        Input::View(v) => TensorArg::view(v, input.1),
    }
}

impl<'a> Axpy<'a> {
    fn args(&self) -> AxpyArgs<'a> {
        (
            OutputArg::new(&TensorArg::output(&self.z.value, &self.z.spec)).unwrap(),
            InputArg::new(&tensor_arg(self.x)).unwrap(),
            InputArg::new(&tensor_arg(self.y)).unwrap(),
            self.a,
        )
    }

    /// The resolved launch and where each parameter starts.
    fn resolve(&self) -> (AsyncKernelLaunch<Function>, Vec<usize>) {
        let mut launch = AsyncKernelLaunch::new(Arc::new("axpy"));
        let mut starts = vec![launch.arg_count()];
        self.z.value.push_kernel_args(&mut launch);
        for input in [self.x, self.y] {
            starts.push(launch.arg_count());
            match input.0 {
                Input::Whole(t) => t.push_kernel_args(&mut launch),
                Input::View(v) => v.push_kernel_args(&mut launch),
            }
        }
        starts.push(launch.arg_count());
        launch.push_arg(self.a);
        let grid = self.settings.get_launch_grid();
        let grid_dim = if grid == (0, 0, 0) { self.z.value.grid().unwrap() } else { grid };
        launch.set_launch_config(LaunchConfig {
            grid_dim,
            block_dim: (1, 1, 1),
            shared_mem_bytes: 0,
        });
        if self.dependent {
            launch.programmatic_dependent_launch();
        }
        (launch, starts)
    }

    fn layouts(&self) -> Vec<Result<ArgLayout, UnsupportedParam>> {
        let plan_input = |input: (Input<'a>, &'a SpecializationBits)| match input.0 {
            Input::Whole(t) => t.plan_layout(input.1),
            Input::View(v) => v.plan_layout(input.1),
        };
        vec![
            self.z.value.plan_layout(&self.z.spec),
            plan_input(self.x),
            plan_input(self.y),
            Ok(ArgLayout::scalar(self.a.dtype(), self.a.div_hint())),
        ]
    }

    fn capture(self) -> PlanSink<Function> {
        let (launch, starts) = self.resolve();
        let layouts = self.layouts();
        let mut sink = PlanSink::new();
        let captured = CapturedLaunch {
            launch,
            kernel: AxpyKernel::PATH.to_string(),
            epoch: self.epoch,
            launch_checks: &[],
            layouts,
            param_starts: &starts,
            unsafe_entry: self.unsafe_entry,
            options: self.settings.into_options(),
        };
        sink.capture(0, captured).unwrap();
        sink
    }

    fn plan(self) -> LaunchPlan<Function, AxpyKernel, Safe> {
        self.capture().finish::<AxpyKernel>().unwrap()
    }

    fn grid(mut self, grid: (u32, u32, u32)) -> Self {
        self.settings = self.settings.grid(grid);
        self
    }
}

impl<'a> EntryGenerated for Axpy<'a> {}
impl<'a> PlanLauncher<Function, ()> for Axpy<'a> {
    type Kernel = AxpyKernel;
    type Args = AxpyArgs<'a>;
    fn plan_with(
        mut self,
        options: &PlanOptions,
        _stream: &(),
    ) -> Result<(LaunchPlan<Function, AxpyKernel, Safe>, AxpyArgs<'a>), DeviceError> {
        self.settings = self.settings.with_options(options);
        let args = self.args();
        Ok((self.plan(), args))
    }
}

fn replay<'a>(plan: &LaunchPlan<Function, AxpyKernel, Safe>, args: AxpyArgs<'a>) -> ReplayLaunch {
    plan.launch(args).execute::<<AxpyKernel as Kernel>::Params>(0).unwrap()
}

// ── Replays ────────────────────────────────────────────────────────────────

#[test]
fn plan_replays_match_the_launcher_bit_for_bit() {
    let (z, x, y) = (
        output(device_f32(0x1000, 64), B),
        input(device_f32(0x2000, 64)),
        input(device_f32(0x3000, 64)),
    );
    let plan = axpy(&z, &x, &y, 2.0).plan();
    // Fresh tensors (new pointers), a new scalar, same layout.
    for (round, a) in [3.0f32, -0.5, 1e-3].into_iter().enumerate() {
        let base = 0x10_0000 * (round as u64 + 1);
        let (z2, x2, y2) = (
            output(device_f32(base, 64), B),
            input(device_f32(base + 0x1000, 64)),
            input(device_f32(base + 0x2000, 64)),
        );
        let planned = replay(&plan, axpy(&z2, &x2, &y2, a).args());
        let launched = axpy(&z2, &x2, &y2, a).resolve().0.launch("sm_90").unwrap();
        assert_eq!(planned.args, launched.args, "round {round}");
        assert_eq!(planned.cfg, launched.cfg);
        assert_eq!(planned.cfg.grid_dim, (4, 1, 1));
        assert!(!planned.dependent);
    }
}

#[test]
fn plan_refuses_other_layouts() {
    let (z, x) = (output(device_f32(0x1000, 64), B), input(device_f32(0x2000, 64)));
    let plan = axpy(&z, &x, &x, 1.0).plan();

    let (z48, x48) = (output(device_f32(0x1000, 48), B), input(device_f32(0x2000, 48)));
    let args = axpy(&z48, &x48, &x48, 1.0).args();
    assert!(!plan.matches(&args));
    let err = plan.launch(args).execute::<<AxpyKernel as Kernel>::Params>(0).unwrap_err();
    assert!(err.to_string().contains("does not match"), "{}", err.to_string());
    let layout = z.value.plan_layout(&z.spec).unwrap().to_string();
    assert_eq!(err, DeviceError::Launch(LaunchFault::LayoutMismatch { index: 0, layout }));

    // Same shapes, other partition: a different launch.
    let other = output(device_f32(0x1000, 64), 8);
    let args = axpy(&other, &x, &x, 1.0).args();
    let err = plan.launch(args).execute::<<AxpyKernel as Kernel>::Params>(0).unwrap_err();
    assert!(err.to_string().contains("does not match"), "{}", err.to_string());

    // A less aligned input has another specialization.
    let low = input(device_f32(0x2004, 64));
    let args = axpy(&z, &x, &low, 1.0).args();
    let err = plan.launch(args).execute::<<AxpyKernel as Kernel>::Params>(0).unwrap_err();
    assert_eq!(
        err.to_string(),
        "argument 2 does not match the layout the plan was built for: Tensor(TensorLayout { \
         dtype: F32, device_id: 0, shape: [64], strides: [1], spec: SpecializationBits { \
         shape_div: [DivHint { divisor: 16 }], stride_div: [DivHint { divisor: 1 }], \
         stride_one: [true], base_ptr_div: DivHint { divisor: 16 } }, partition: None })"
    );

    // Another device is refused before the layout is looked at.
    let args = axpy(&z48, &x48, &x48, 1.0).args();
    let err = plan.launch(args).execute::<<AxpyKernel as Kernel>::Params>(1).unwrap_err();
    assert_eq!(
        err.to_string(),
        "launch plan was built for device 0, the stream is on device 1"
    );
}

#[test]
fn a_planned_launch_hands_its_arguments_back() {
    let (z, x) = (output(device_f32(0x1000, 64), B), input(device_f32(0x2000, 64)));
    let plan = axpy(&z, &x, &x, 1.0).plan();
    let launch = plan.launch(axpy(&z, &x, &x, 4.0).args());
    assert_eq!(**launch.function(), "axpy");
    assert_eq!(launch.into_args().3.to_bits(), 4.0f32.to_bits() as u64);
    assert_eq!(plan.kernel(), "plan_module::axpy");
    assert!(!plan.is_programmatic_dependent_launch());
}

#[test]
fn view_inputs_replay_at_their_offset() {
    let x = device_f32(0x8000, 128);
    let (y, z) = (input(device_f32(0x2000, 64)), output(device_f32(0x3000, 64), B));
    let built = view(x.slice(&[16..80]).unwrap());
    let window = view(x.slice(&[32..96]).unwrap());
    let y_in = (Input::Whole(&y.value), &y.spec);
    let plan = axpy_over(&z, (Input::View(&built.value), &built.spec), y_in, 2.0).plan();

    // Another window of the same tensor: same layout, another offset. The
    // replay must read from the view's own start, not the tensor's.
    let launcher = axpy_over(&z, (Input::View(&window.value), &window.spec), y_in, 2.0);
    let planned = replay(&plan, launcher.args());
    assert_eq!(planned.args, launcher.resolve().0.launch("sm_90").unwrap().args);
    // After the output's five arguments comes the view's pointer.
    assert_eq!(planned.args[5], 0x8000 + 4 * 32);
}

/// Owned inputs are shared for the launch, and handed back after it.
#[test]
fn owned_tensor_inputs_plan_and_replay() {
    let z = output(device_f32(0x1000, 64), B);
    let first = input(device_f32(0x2000, 64));
    let plan = axpy(&z, &first, &first, 1.0).plan();
    for round in 1..3u64 {
        let stored = device_f32(0x1_0000 * round, 64).prepare();
        let spec = specialize(stored.spec_inputs());
        let x = (Input::Whole(&stored), &spec);
        let launcher = axpy_over(&z, x, x, 1.0);
        let planned = replay(&plan, launcher.args());
        assert_eq!(planned.args, launcher.resolve().0.launch("sm_90").unwrap().args);
        assert_eq!(planned.args[5], 0x1_0000 * round as u128);
        let back = Tensor::recover(stored).unwrap();
        assert_eq!(back.cu_deviceptr(), Some(0x1_0000 * round));
    }
}

#[test]
fn raw_launch_writes_only_pointers_and_scalars() {
    let (z, x) = (output(device_f32(0x1000, 64), B), input(device_f32(0x2000, 64)));
    let plan = axpy(&z, &x, &x, 1.0).plan();
    let good = [
        RawArg::ptr(0xA000),
        RawArg::ptr(0xB000),
        RawArg::ptr(0xC000),
        RawArg::scalar(f32s(0.5)),
    ];
    let guard = plan.launch_raw(0, &good).unwrap();
    let half = 0.5f32.to_bits() as u128;
    let expected =
        vec![0xA000, 64, 1, 16, 1, 0xB000, 64, 1, 0xC000, 64, 1, half];
    assert_eq!(guard.launch().args, expected);
    assert_eq!(**guard.function(), "axpy");

    // The unchecked form writes the same slots.
    assert_eq!(plan.launch_raw_unchecked(&good).args, expected);

    // The kernel assumes 16-byte-aligned bases.
    let mut misaligned = good;
    misaligned[1] = RawArg::ptr(0xB004);
    // A scalar of another dtype.
    let mut wrong_dtype = good;
    wrong_dtype[3] = RawArg::scalar(Float::<F64>::from_bits(0.5f64.to_bits()).unwrap());
    // A pointer where the kernel takes a scalar.
    let mut wrong_kind = good;
    wrong_kind[3] = RawArg::ptr(0xC000);
    for (what, args) in [
        ("misaligned", &misaligned[..]),
        ("wrong dtype", &wrong_dtype[..]),
        ("wrong kind", &wrong_kind[..]),
        ("too few", &good[..3]),
    ] {
        assert!(plan.launch_raw(0, args).is_err(), "{what} must be refused");
    }
    let refused = |args: &[RawArg], device: usize| match plan.launch_raw(device, args) {
        Ok(_) => panic!("must be refused"),
        Err(e) => e,
    };
    assert_eq!(
        refused(&misaligned, 0).to_string(),
        "raw argument 1 (RawArg(Ptr(45060))) does not satisfy the plan's layout \
         Tensor(TensorLayout { dtype: F32, device_id: 0, shape: [64], strides: [1], \
         spec: SpecializationBits { shape_div: [DivHint { divisor: 16 }], \
         stride_div: [DivHint { divisor: 1 }], stride_one: [true], \
         base_ptr_div: DivHint { divisor: 16 } }, partition: None })"
    );
    assert_eq!(
        refused(&wrong_dtype, 0).to_string(),
        "raw argument 3 (RawArg(Scalar { dtype: F64, hint: None, bits: 4602678819172646912 })) \
         does not satisfy the plan's layout Scalar { dtype: F32, hint: None }"
    );
    assert_eq!(
        refused(&good[..3], 0).to_string(),
        "launch plan takes 4 arguments, got 3"
    );
    assert_eq!(
        refused(&good, 7).to_string(),
        "launch plan was built for device 0, the stream is on device 7"
    );
}

// ── Integer scalars and raw pointers ───────────────────────────────────────

fn pick_args<'a>(
    z: &'a Bound<Partition<Tensor>>,
    x: &'a Bound<Tensor>,
    n: i32,
) -> PickArgs<'a> {
    (
        OutputArg::new(&TensorArg::output(&z.value, &z.spec)).unwrap(),
        InputArg::new(&TensorArg::input(&x.value, &x.spec)).unwrap(),
        n,
    )
}

fn pick_plan(
    z: &Bound<Partition<Tensor>>,
    x: &Bound<Tensor>,
    n: i32,
) -> LaunchPlan<Function, PickKernel, Safe> {
    let mut launch = AsyncKernelLaunch::new(Arc::new("pick"));
    z.value.push_kernel_args(&mut launch);
    let x_start = launch.arg_count();
    x.value.push_kernel_args(&mut launch);
    let n_start = launch.arg_count();
    launch.push_arg(n);
    launch.set_launch_config(LaunchConfig {
        grid_dim: (1, 1, 1),
        block_dim: (1, 1, 1),
        shared_mem_bytes: 0,
    });
    let mut sink = PlanSink::new();
    let captured = CapturedLaunch {
        launch,
        kernel: "plan_module::pick".to_string(),
        epoch: 0,
        launch_checks: &[],
        layouts: vec![
            z.value.plan_layout(&z.spec),
            x.value.plan_layout(&x.spec),
            Ok(ArgLayout::scalar(DTypeId::I32, n.div_hint())),
        ],
        param_starts: &[0, x_start, n_start],
        unsafe_entry: false,
        options: PlanOptions::new().grid((1, 1, 1)),
    };
    sink.capture(0, captured).unwrap();
    sink.finish::<PickKernel>().unwrap()
}

#[test]
fn integer_scalars_keep_their_divisibility() {
    let (z, x) = (output(device_f32(0x1000, 16), B), input(device_f32(0x2000, 64)));
    // Built with n = 16: the kernel assumes n divisible by 16.
    let plan = pick_plan(&z, &x, 16);
    let run = |n: i32| {
        plan.launch(pick_args(&z, &x, n)).execute::<<PickKernel as Kernel>::Params>(0)
    };
    // n = 32 has the same hint.
    assert_eq!(*run(32).unwrap().args.last().unwrap(), 32);
    // n = 8 would break the assumption.
    assert!(run(8).is_err());
    let raw = |n: i32| [RawArg::ptr(0x1000), RawArg::ptr(0x2000), RawArg::scalar(n)];
    assert!(plan.launch_raw(0, &raw(8)).is_err());
    // The raw form accepts any value at least as divisible.
    let guard = plan.launch_raw(0, &raw(48)).unwrap();
    assert_eq!(*guard.launch().args.last().unwrap(), 48);

    // Built with n = 8, the safe form wants the exact hint, the raw form 8 at least.
    let plan = pick_plan(&z, &x, 8);
    let args = pick_args(&z, &x, 16);
    assert!(!plan.matches(&args));
    assert!(plan.launch_raw(0, &raw(16)).is_ok());
    assert!(plan.launch_raw(0, &raw(4)).is_err());
    assert!(plan.launch_raw(0, &raw(-8)).is_ok());
}

struct AddPtrKernel;
impl EntryGenerated for AddPtrKernel {}
impl Kernel for AddPtrKernel {
    type Params = (Ptr, Ptr, Ptr, Scalar<i32>);
    const PATH: &'static str = "plan_module::add_ptr";
}

#[test]
fn unsafe_entry_points_replay_through_the_raw_form() {
    let len = 32i32;
    let mut launch = AsyncKernelLaunch::new(Arc::new("add_ptr"));
    let pointers = [0x1000u64, 0x2000, 0x3008];
    for p in pointers {
        launch.push_device_ptr(p);
    }
    launch.push_arg(len);
    launch.set_launch_config(LaunchConfig {
        grid_dim: (8, 1, 1),
        block_dim: (1, 1, 1),
        shared_mem_bytes: 0,
    });
    let mut layouts: Vec<Result<ArgLayout, UnsupportedParam>> =
        pointers.iter().map(|&p| Ok(ArgLayout::pointer(DTypeId::F32, p))).collect();
    layouts.push(Ok(ArgLayout::scalar(DTypeId::I32, len.div_hint())));
    let mut sink = PlanSink::new();
    let captured = CapturedLaunch {
        launch,
        kernel: "plan_module::add_ptr".to_string(),
        epoch: 0,
        launch_checks: &[],
        layouts,
        param_starts: &[0, 1, 2, 3],
        unsafe_entry: true,
        options: PlanOptions::new().grid((8, 1, 1)),
    };
    sink.capture(0, captured).unwrap();
    let plan: LaunchPlan<Function, AddPtrKernel, Unchecked> = sink.finish_unchecked().unwrap();
    let raw = |y: u64| {
        [RawArg::ptr(0x7000), RawArg::ptr(0x8000), RawArg::ptr(y), RawArg::scalar(len)]
    };
    assert_eq!(plan.launch_raw(0, &raw(0x9008)).unwrap().launch().args, [0x7000, 0x8000, 0x9008, 32]);
    // The third pointer was 8-aligned.
    assert!(plan.launch_raw(0, &raw(0x9004)).is_err());
}

// ── Safety ─────────────────────────────────────────────────────────────────

#[test]
fn plans_of_unsafe_entry_points_need_unsafe_launches() {
    let (z, x) = (output(device_f32(0x1000, 64), B), input(device_f32(0x2000, 64)));
    let mut launcher = axpy(&z, &x, &x, 1.0);
    launcher.unsafe_entry = true;
    let err = match launcher.capture().finish::<AxpyKernel>() {
        Ok(_) => panic!("must not be a safe plan"),
        Err(e) => e,
    };
    assert_eq!(
        err.to_string(),
        "a plan of `plan_module::axpy` needs an unsafe launch but was built as `Safe`"
    );
    let mut launcher = axpy(&z, &x, &x, 1.0);
    launcher.unsafe_entry = true;
    let plan = launcher.capture().finish_unchecked::<AxpyKernel>().unwrap();
    let args = axpy(&z, &x, &x, 2.0).args();
    let run = plan.launch_unchecked(args).execute::<<AxpyKernel as Kernel>::Params>(0).unwrap();
    assert_eq!(run.args[0], 0x1000);

    // The layout is still checked on the unsafe path.
    let short = output(device_f32(0x1000, 32), B);
    let args = axpy(&short, &x, &x, 2.0).args();
    let err =
        plan.launch_unchecked(args).execute::<<AxpyKernel as Kernel>::Params>(0).unwrap_err();
    assert!(err.to_string().contains("does not match"), "{}", err.to_string());
}

#[test]
fn plans_with_programmatic_dependent_launch_need_unsafe_launches() {
    let (z, x) = (output(device_f32(0x1000, 64), B), input(device_f32(0x2000, 64)));
    let dependent = || {
        let mut launcher = axpy(&z, &x, &x, 1.0);
        launcher.dependent = true;
        launcher.capture()
    };
    assert!(dependent().finish::<AxpyKernel>().is_err());
    let plan = dependent().finish_unchecked::<AxpyKernel>().unwrap();
    assert!(plan.is_programmatic_dependent_launch());
    let args = axpy(&z, &x, &x, 1.0).args();
    let run = plan.launch_unchecked(args).execute::<<AxpyKernel as Kernel>::Params>(0).unwrap();
    assert!(run.dependent);
}

#[test]
fn a_sink_gives_its_plan_once_and_only_as_its_kernel() {
    let (z, x) = (output(device_f32(0x1000, 64), B), input(device_f32(0x2000, 64)));
    let mut sink = axpy(&z, &x, &x, 1.0).capture();
    let err = match sink.finish::<PickKernel>() {
        Ok(_) => panic!("another kernel"),
        Err(e) => e,
    };
    assert_eq!(
        err.to_string(),
        "a plan of `plan_module::axpy` was finished as a plan of `plan_module::pick`"
    );
    let err = match sink.finish::<AxpyKernel>() {
        Ok(_) => panic!("taken already"),
        Err(e) => e,
    };
    assert_eq!(err, DeviceError::Launch(LaunchFault::NothingCaptured));
    assert_eq!(err.to_string(), "the launcher finished without resolving a launch");
}

/// A launch lists the accesses of its tensors in argument order: a write for each
/// output, a read for each input, and none for a scalar.
#[test]
fn launches_list_their_accesses_in_order() {
    let (z, x) = (output(device_f32(0x1000, 64), B), input(device_f32(0x2000, 64)));
    let y = input(device_f32(0x3000, 64));
    let plan = axpy(&z, &x, &y, 1.0).plan();
    let launch = plan.launch(axpy(&z, &x, &y, 1.0).args());
    assert_eq!(
        launch.accesses::<<AxpyKernel as Kernel>::Params>(),
        vec![(0, true), (1, false), (2, false)]
    );
    assert!(launch.has_all_arguments::<<AxpyKernel as Kernel>::Params>());
    assert_eq!(accesses_of(&[]), vec![]);
    let scalar = ErasedPlanArg::scalar(7i32);
    let read = TensorArg::input(&x.value, &x.spec).erase().unwrap();
    assert_eq!(accesses_of(&[scalar, read, scalar, read]), vec![(1, false), (3, false)]);
}

/// Checks on extents and the grid have one value for all arguments that match a
/// plan, so that a replay may skip them.
#[test]
fn launch_checks_have_one_value_for_matching_arguments() {
    let dim = Term::atom(Atom::Dim { param: 1, axis: 0 });
    let blocks = Term::atom(Atom::NumTileBlocks(0));
    let divisible = Predicate::divisible_by(dim.clone(), 16).unwrap();
    let fewer = Predicate::lt(&blocks, &dim).unwrap();
    let values = |ptr: u64, len: usize| {
        let (z, x) = (output(device_f32(0x1000, 64), B), input(device_f32(ptr, len)));
        let built = input(device_f32(0x7000, 64));
        let plan = axpy(&z, &built, &built, 1.0).plan();
        let matches = plan.matches(&axpy(&z, &x, &x, 2.0).args());
        let env = |atom: &Atom| match atom {
            Atom::Dim { param: 1, axis } => x.value.shape().get(*axis).map(|&d| d as i64),
            Atom::NumTileBlocks(0) => Some(4),
            _ => None,
        };
        (matches, divisible.eval(&env), fewer.eval(&env))
    };
    assert_eq!(values(0x2000, 64), (true, Some(true), Some(true)));
    assert_eq!(values(0x9000, 64), (true, Some(true), Some(true)));
    // Another extent is another layout, for which a check may fail.
    assert_eq!(values(0x2000, 4), (false, Some(false), Some(false)));
}

#[test]
fn layouts_are_shown_with_all_they_hold() {
    let z = output(device_f32(0x1000, 64), B);
    let x = input(device_f32(0x2000, 64));
    for layout in [
        z.value.plan_layout(&z.spec).unwrap(),
        x.value.plan_layout(&x.spec).unwrap(),
        ArgLayout::Scalar { dtype: DTypeId::I32, hint: Some(DivHint { divisor: 8 }) },
        ArgLayout::Scalar { dtype: DTypeId::Bool, hint: None },
        ArgLayout::Pointer { dtype: DTypeId::F8E5M2, hint: DivHint { divisor: 4 } },
    ] {
        assert_eq!(layout.to_string(), format!("{layout:?}"));
    }
    for arg in [RawArg::ptr(u64::MAX), RawArg::scalar(-1i64), RawArg::scalar(12u8)] {
        assert_eq!(arg.to_string(), format!("{arg:?}"));
    }
}

#[test]
fn launcher_settings_become_the_options_of_a_plan() {
    let compile = CompileOptions { lineinfo: true, others: vec!["opt_level=3".to_string()] };
    let settings = LauncherSettings::new()
        .const_grid((4, 1, 1))
        .generics(vec!["16".to_string()])
        .compile_options(compile.clone());
    assert_eq!(settings.get_launch_grid(), (4, 1, 1));
    let recorded = settings.into_options();
    let options = PlanOptions::new()
        .const_grid((4, 1, 1))
        .generics(vec!["16".to_string()])
        .compile_options(compile);
    assert!(recorded.same(&options));
    // Options replace every setting made before.
    let replaced = LauncherSettings::new()
        .generics(vec!["32".to_string()])
        .compile_options(CompileOptions::default())
        .with_options(&options)
        .into_options();
    assert!(replaced.same(&options));
    let cleared = LauncherSettings::new()
        .generics(vec!["32".to_string()])
        .with_options(&PlanOptions::new())
        .into_options();
    assert!(cleared.same(&PlanOptions::new()));
}

/// Plans are told apart by every compiler option.
#[test]
fn compile_options_are_part_of_the_key() {
    let with = |lineinfo: bool, others: &[&str]| {
        let others = others.iter().map(|s| s.to_string()).collect();
        PlanOptions::new().compile_options(CompileOptions { lineinfo, others })
    };
    let all = [
        with(false, &[]),
        with(true, &[]),
        with(false, &["opt_level=3"]),
        with(false, &["opt_level=2"]),
        with(false, &["opt_level=3", "fast_math"]),
    ];
    assert_eq!(all[0], PlanOptions::new());
    for (i, a) in all.iter().enumerate() {
        for (j, b) in all.iter().enumerate() {
            assert_eq!(a.same(b), i == j);
            assert_eq!(args_key(0, a, &[]) == args_key(0, b, &[]), i == j);
        }
    }
}

#[test]
fn plans_record_their_builder_options() {
    let (z, x) = (output(device_f32(0x1000, 64), B), input(device_f32(0x2000, 64)));
    assert_eq!(axpy(&z, &x, &x, 1.0).plan().options(), &PlanOptions::new());
    let opts = PlanOptions::new()
        .grid((4, 1, 1))
        .generics(vec!["16".to_string()])
        .compile_options(CompileOptions { lineinfo: true, ..CompileOptions::default() });
    let (plan, _) = axpy(&z, &x, &x, 1.0).plan_with(&opts, &()).unwrap();
    assert_eq!(plan.options(), &opts);
}

// ── Capture ────────────────────────────────────────────────────────────────

fn parts(values: Vec<u128>, offsets: Vec<usize>) -> KernelLaunchParts<()> {
    KernelLaunchParts {
        func: (),
        cfg: Some(LaunchConfig {
            grid_dim: (1, 1, 1),
            block_dim: (1, 1, 1),
            shared_mem_bytes: 0,
        }),
        programmatic_dependent_launch: false,
        values,
        offsets,
    }
}

fn plan_parts(
    parts: KernelLaunchParts<()>,
    checks: &[LaunchCheck],
    layouts: Vec<Result<ArgLayout, UnsupportedParam>>,
    starts: &[usize],
) -> Result<PlanInner<()>, DeviceError> {
    let options = PlanOptions::new();
    PlanInner::from_parts(parts, "m::k".to_string(), 3, 9, checks, layouts, starts, false, options)
}

fn scalar() -> Result<ArgLayout, UnsupportedParam> {
    Ok(ArgLayout::scalar(DTypeId::I32, None))
}

fn text(r: Result<PlanInner<()>, DeviceError>) -> String {
    match r {
        Ok(_) => panic!("must be refused"),
        Err(e) => e.to_string(),
    }
}

#[test]
fn captures_that_cannot_be_planned_are_refused() {
    let check = LaunchCheck {
        predicate: Predicate::nonzero(Term::atom(Atom::Iv(0))),
        cause: "induction variable".to_string(),
    };
    assert_eq!(
        text(plan_parts(parts(vec![], vec![]), &[check], vec![], &[])),
        "launch plans do not support this kernel: a launch check depends on more than argument \
         layouts and the grid (induction variable)"
    );
    let mut unconfigured = parts(vec![], vec![]);
    unconfigured.cfg = None;
    assert_eq!(
        text(plan_parts(unconfigured, &[], vec![], &[])),
        "planned launch has no launch config"
    );
    assert_eq!(
        text(plan_parts(parts(vec![1], vec![0, 4]), &[], vec![], &[])),
        "planned launch has an argument at slot 4 of 1"
    );
    assert_eq!(
        text(plan_parts(parts(vec![1], vec![0]), &[], vec![scalar()], &[])),
        "planned launch recorded 0 parameter starts for 1 parameters"
    );
    assert_eq!(
        text(plan_parts(parts(vec![1], vec![0]), &[], vec![], &[])),
        "planned launch has arguments outside every parameter"
    );
    assert_eq!(
        text(plan_parts(parts(vec![1], vec![0]), &[], vec![scalar()], &[1])),
        "planned launch has arguments outside every parameter"
    );
    let unsupported = Err(UnsupportedParam("mapped partition output"));
    assert_eq!(
        text(plan_parts(parts(vec![1, 2], vec![0, 1]), &[], vec![scalar(), unsupported], &[0, 1])),
        "launch plans do not support parameter 1 (mapped partition output)"
    );
    assert_eq!(
        text(plan_parts(parts(vec![1, 2], vec![0, 1]), &[], vec![scalar()], &[0])),
        "planned launch marshalled parameter 0 as arguments 0..2; its layout accounts for 1"
    );
}

#[test]
fn checks_on_layouts_and_the_grid_are_planned() {
    let check = LaunchCheck {
        predicate: Predicate::lt(
            &Term::atom(Atom::Dim { param: 0, axis: 0 }),
            &Term::atom(Atom::NumTileBlocks(0)),
        )
        .unwrap(),
        cause: String::new(),
    };
    let plan = match plan_parts(parts(vec![7, 8], vec![1, 0]), &[check], vec![scalar(), scalar()], &[0, 1]) {
        Ok(plan) => plan,
        Err(e) => panic!("{}", e.to_string()),
    };
    assert_eq!((plan.device_id(), plan.epoch(), plan.param_count()), (3, 9, 2));
    assert_eq!(plan.kernel(), "m::k");
    // The first argument lies in slot 1.
    assert_eq!((plan.marshalled(0), plan.marshalled(1)), (8, 7));
    let raw = [RawArg::scalar(5i32), RawArg::scalar(6i32)];
    assert_eq!(plan.launch_raw_unchecked(&raw).args, vec![5, 6]);
}

// ── Caches ─────────────────────────────────────────────────────────────────

#[test]
fn plan_cache_serves_alternating_shapes() {
    let mut cache: PlanCache<Function, AxpyKernel> = PlanCache::new();
    let opts = PlanOptions::new();
    let builds = Cell::new(0);
    for round in 0..3 {
        // Two layouts through one call site: one plan each.
        for len in [64usize, 48] {
            let base = 0x1_0000 * (round as u64 + 1);
            let (z, x) = (output(device_f32(base, len), B), input(device_f32(base + 0x1000, len)));
            let a = round as f32 + 1.0;
            let launch = cache
                .launch(|| 0, 0, &opts, axpy(&z, &x, &x, a).args(), &(), |_| {
                    builds.set(builds.get() + 1);
                    axpy(&z, &x, &x, a)
                })
                .unwrap();
            let run = launch.execute::<<AxpyKernel as Kernel>::Params>(0).unwrap();
            let direct = axpy(&z, &x, &x, a).resolve().0.launch("sm_90").unwrap();
            assert_eq!(run.args, direct.args, "len {len}");
            assert_eq!(run.cfg, direct.cfg);
        }
    }
    assert_eq!(builds.get(), 2, "one build per layout");
    assert_eq!(cache.len(), 2);
}

#[test]
fn plan_cache_keys_on_the_launch_grid() {
    let mut cache: PlanCache<Function, AxpyKernel> = PlanCache::new();
    let builds = Cell::new(0);
    let t = device_f32(0x1000, 64);
    let spec = specialize(t.spec_inputs());
    let z = Bound { value: prefix_tiled(t, [B]), spec };
    let (x, y) = (input(device_f32(0x2000, 64)), input(device_f32(0x3000, 64)));
    for tiles in [2u32, 4, 2, 4] {
        let opts = PlanOptions::new().grid((tiles, 1, 1));
        let launch = cache
            .launch(|| 0, 0, &opts, axpy(&z, &x, &y, 1.0).args(), &(), |_| {
                builds.set(builds.get() + 1);
                axpy(&z, &x, &y, 1.0)
            })
            .unwrap();
        let run = launch.execute::<<AxpyKernel as Kernel>::Params>(0).unwrap();
        assert_eq!(run.cfg.grid_dim, (tiles, 1, 1));
    }
    assert_eq!(builds.get(), 2, "one build per grid");
    assert_eq!(cache.len(), 2);
}

#[test]
fn plans_are_typed_by_their_kernel() {
    let (z, x) = (output(device_f32(0x1000, 64), B), input(device_f32(0x2000, 64)));
    let axpy_plan = axpy(&z, &x, &x, 1.0).plan();
    let pick_plan = pick_plan(&z, &x, 16);
    assert_eq!(axpy_plan.kernel(), <AxpyKernel as Kernel>::PATH);
    assert!(axpy_plan.kernel().ends_with("plan_module::axpy"));
    assert_eq!(pick_plan.kernel(), <PickKernel as Kernel>::PATH);
    let mut cache = PlanCache::<Function, AxpyKernel>::new();
    cache.insert(axpy_plan, 0);
    assert_eq!(cache.len(), 1);
}

#[test]
fn plan_launch_keeps_a_cache_per_call_site() {
    let mut axpys: PlanCache<Function, AxpyKernel> = PlanCache::new();
    let mut picks: PlanCache<Function, PickKernel> = PlanCache::new();
    for len in [64usize, 48, 64] {
        let (z, x) = (output(device_f32(0x1000, len), B), input(device_f32(0x2000, len)));
        axpys.insert(axpy(&z, &x, &x, 1.0).plan(), 0);
        picks.insert(pick_plan(&z, &x, 16), 0);
    }
    assert_eq!((axpys.len(), picks.len()), (2, 2));
    axpys.clear();
    assert_eq!((axpys.len(), picks.len()), (0, 2));
}

#[test]
fn plan_cache_options_override_the_launcher() {
    let mut cache: PlanCache<Function, AxpyKernel> = PlanCache::new();
    let t = device_f32(0x1000, 64);
    let spec = specialize(t.spec_inputs());
    let z = Bound { value: prefix_tiled(t, [B]), spec };
    let x = input(device_f32(0x2000, 64));
    let asked = PlanOptions::new().grid((2, 1, 1));
    // A different grid than the key: the cache's options win, so the plan
    // cannot be filed under the wrong key.
    let launch = cache
        .launch(|| 0, 0, &asked, axpy(&z, &x, &x, 1.0).args(), &(), |_| {
            axpy(&z, &x, &x, 1.0).grid((4, 1, 1))
        })
        .unwrap();
    let run = launch.execute::<<AxpyKernel as Kernel>::Params>(0).unwrap();
    assert_eq!(run.cfg.grid_dim, (2, 1, 1));
    let plan = cache.get(0, 0, &asked, &axpy(&z, &x, &x, 1.0).args()).unwrap();
    assert_eq!(plan.options(), &asked);
}

#[test]
fn plan_cache_refuses_a_closure_that_changes_the_arguments() {
    let mut cache: PlanCache<Function, AxpyKernel> = PlanCache::new();
    let z = output(device_f32(0x1000, 64), B);
    let (x, y) = (input(device_f32(0x2000, 64)), input(device_f32(0x3000, 64)));
    let opts = PlanOptions::new();
    // Same layouts, so the plan's layout check alone would accept these.
    let swapped = cache
        .launch(|| 0, 0, &opts, axpy(&z, &x, &y, 1.0).args(), &(), |_| axpy(&z, &y, &x, 1.0))
        .err()
        .unwrap();
    assert!(swapped.to_string().contains("changed argument 1"), "{}", swapped.to_string());
    let rescaled = cache
        .launch(|| 0, 0, &opts, axpy(&z, &x, &y, 1.0).args(), &(), |_| axpy(&z, &x, &y, 2.0))
        .err()
        .unwrap();
    assert!(rescaled.to_string().contains("changed argument 3"), "{}", rescaled.to_string());
    assert_eq!(
        rescaled.to_string(),
        "the launcher closure changed argument 3; it must pass the arguments through unchanged \
         and in order, as `|(a, b)| kernel(a, b)`"
    );
    assert!(cache.is_empty());
    // The same tensor twice is indistinguishable, and harmless, swapped.
    assert!(cache
        .launch(|| 0, 0, &opts, axpy(&z, &x, &x, 1.0).args(), &(), |_| axpy(&z, &x, &x, 1.0))
        .is_ok());
    assert_eq!(cache.len(), 1);
}

#[test]
fn a_launcher_of_another_layout_is_refused_on_a_miss() {
    let mut cache: PlanCache<Function, AxpyKernel> = PlanCache::new();
    let (z, x) = (output(device_f32(0x1000, 64), B), input(device_f32(0x2000, 64)));
    let opts = PlanOptions::new();
    let given = match cache.begin(0, 0, &opts, &axpy(&z, &x, &x, 1.0).args()) {
        CacheStep::Miss { given } => given,
        CacheStep::Hit(_) => panic!("the cache is empty"),
    };
    assert_eq!(given, vec![0x1000, 0x2000, 0x2000, 1.0f32.to_bits() as u128]);
    let z8 = output(device_f32(0x1000, 64), 8);
    let layout = z8.value.plan_layout(&z8.spec).unwrap().to_string();
    let plan = axpy(&z8, &x, &x, 1.0).plan();
    let err = cache.complete(0, plan, axpy(&z, &x, &x, 1.0).args(), &given).err().unwrap();
    assert_eq!(err, DeviceError::Launch(LaunchFault::LayoutMismatch { index: 0, layout }));
    assert!(cache.is_empty());
}

#[test]
fn plan_caches_keep_one_plan_per_options_and_layout() {
    let mut cache: PlanCache<Function, AxpyKernel> = PlanCache::new();
    let (z, x) = (output(device_f32(0x1000, 64), B), input(device_f32(0x2000, 64)));
    // Two plans resolved independently for one layout: the cache keeps the first.
    let first = axpy(&z, &x, &x, 1.0).plan();
    let second = axpy(&z, &x, &x, 2.0).plan();
    let kept = Arc::clone(first.function());
    cache.insert(first.share(), 0);
    cache.insert(second, 0);
    cache.insert(first, 0);
    assert_eq!(cache.len(), 1);
    let found = cache.get(0, 0, &PlanOptions::new(), &axpy(&z, &x, &x, 3.0).args()).unwrap();
    assert!(Arc::ptr_eq(found.function(), &kept));

    // Other options are another entry, even an explicit grid equal to the
    // inferred one.
    cache.insert(axpy(&z, &x, &x, 1.0).grid((4, 1, 1)).plan(), 0);
    assert_eq!(cache.len(), 2);
    // Neither serves another device.
    assert!(cache.get(0, 1, &PlanOptions::new(), &axpy(&z, &x, &x, 3.0).args()).is_none());
}

#[test]
fn plans_resolved_before_an_eviction_are_neither_stored_nor_served() {
    let mut cache: PlanCache<Function, AxpyKernel> = PlanCache::new();
    let (z, x) = (output(device_f32(0x1000, 64), B), input(device_f32(0x2000, 64)));
    cache.insert(axpy(&z, &x, &x, 1.0).plan(), 1);
    assert!(cache.is_empty());
    cache.insert(axpy(&z, &x, &x, 1.0).plan(), 0);
    let args = axpy(&z, &x, &x, 1.0).args();
    assert!(cache.get(1, 0, &PlanOptions::new(), &args).is_none());
    assert!(cache.get(0, 0, &PlanOptions::new(), &args).is_some());
    cache.clear();
    assert!(cache.get(0, 0, &PlanOptions::new(), &args).is_none());
}

#[test]
fn evictions_empty_every_plan_cache() {
    let plan = || match plan_parts(parts(vec![1], vec![0]), &[], vec![scalar()], &[0]) {
        Ok(plan) => Arc::new(plan),
        Err(e) => panic!("{}", e.to_string()),
    };
    let mut stores = vec![PlanMap::new(), PlanMap::new()];
    for store in stores.iter_mut() {
        store.insert(plan(), 9);
        assert_eq!(store.len(), 1);
    }
    clear_plan_caches(&mut stores);
    assert_eq!(stores.len(), 2);
    assert!(stores.iter().all(|s| s.is_empty()));
    // The emptied cache takes plans of the next generation only.
    stores[0].insert(plan(), 10);
    assert!(stores[0].is_empty());
    stores[0].insert(plan(), 9);
    assert_eq!(stores[0].len(), 1);
}

#[test]
fn equal_arguments_have_the_key_of_their_plan() {
    let (z, x) = (output(device_f32(0x1000, 64), B), input(device_f32(0x2000, 64)));
    let launcher = axpy(&z, &x, &x, 1.0);
    let layouts = launcher.layouts();
    let (launch, starts) = launcher.resolve();
    let plan = match PlanInner::from_parts(
        launch.into_parts(),
        "plan_module::axpy".to_string(),
        0,
        0,
        &[],
        layouts,
        &starts,
        false,
        PlanOptions::new(),
    ) {
        Ok(plan) => plan,
        Err(e) => panic!("{}", e.to_string()),
    };
    let key = |options: &PlanOptions, a: f32, device: usize| {
        let args = axpy(&z, &x, &x, a).args();
        let erased = PlanArgs::<<AxpyKernel as Kernel>::Params>::erase(&args);
        cutile::plan::inner::args_key(device, options, &erased)
    };
    assert_eq!(plan.cache_key(), key(&PlanOptions::new(), 9.0, 0));
    assert_ne!(plan.cache_key(), key(&PlanOptions::new().grid((4, 1, 1)), 9.0, 0));
    assert_ne!(plan.cache_key(), key(&PlanOptions::new(), 9.0, 1));
    // One word mixed into an empty key: (0 + 1) * K, rotated left by 26.
    let one = cutile::plan::key::hash_words(&vec![1]);
    assert_eq!(one, 0xf135_7aea_2e62_a9c5u64.rotate_left(26));
}

#[test]
fn tuples_spread_into_calls() {
    assert_eq!((1, 2, 3).spread(|a: i32, b: i32, c: i32| a * 100 + b * 10 + c), 123);
    assert_eq!(().spread(|| 7), 7);
    let twelve = (1, 2, 3, 4, 5, 6, 7, 8, 9, 10, 11, 12);
    let last = |_: i32, _: i32, _: i32, _: i32, _: i32, _: i32, _: i32, _: i32, _: i32, _: i32, _: i32, l: i32| l;
    assert_eq!(twelve.spread(last), 12);
}

#[test]
fn stored_arguments_come_back() {
    let t = device_f32(0x1000, 64);
    let p = Partition::prepare(tiled(t, [B]));
    assert_eq!(<Partition<Tensor> as KernelOutput>::recover(p).partition_shape, vec![B]);
    let mapped = tiled(device_f32(0x1000, 64), [B]).map([1], 2);
    assert_eq!(
        mapped.plan_layout(&specialize(mapped.partition.object.spec_inputs())),
        Err(UnsupportedParam("mapped partition output"))
    );
    assert_eq!(KernelOutput::prepare(mapped).partition.partition_shape, vec![B]);
    let shared = device_f32(0x2000, 8).prepare();
    assert_eq!(Tensor::recover(shared).unwrap().shape(), &[8]);
    let shared = device_f32(0x2000, 8).prepare();
    let other = Arc::clone(&shared);
    assert!(Tensor::recover(shared).is_err());
    assert_eq!(other.shape(), &[8]);
}
