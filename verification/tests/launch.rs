use cutile::error::{DeviceError, LaunchFault};
use cutile::launch::{ArcKernelArgument, AsyncKernelLaunch, KernelArgStorage, LaunchConfig};
use cutile::scalar::{scalar_bits, Float, PlanScalar, SlotValue, BF16, F32};
use cutile::dtype::{DTypeId, DivHint, SpecializationBits};
use std::sync::Arc;

/// Values of every accepted width roundtrip through the arena.
#[test]
fn values_roundtrip_and_survive_arena_growth() {
    let mut storage = KernelArgStorage::default();
    storage.push(7u8);
    storage.push(0x1122_3344_5566_7788u64);
    storage.push(-5i32);
    for i in 0..64u64 {
        storage.push(i);
    }
    let slots = storage.as_slots();
    assert_eq!(slots.len(), 3 + 64);
    assert_eq!(slots[0] as u8, 7);
    assert_eq!(slots[1] as u64, 0x1122_3344_5566_7788);
    assert_eq!(slots[2] as i32, -5);
    for i in 0..64usize {
        assert_eq!(slots[3 + i] as u64, i as u64);
    }
}

/// Every argument has a 16-byte slot of its own.
#[test]
fn slots_are_sixteen_byte_aligned() {
    let mut storage = KernelArgStorage::default();
    assert!(storage.is_empty());
    storage.push(1u8);
    storage.push(2u128);
    let slots = storage.as_slots();
    assert_eq!(std::mem::size_of_val(&slots[0]), 16);
    assert_eq!(storage.len(), 2);
    assert_eq!(slots[1], 2);
}

#[test]
fn scalars_are_zero_extended_into_their_slot() {
    assert_eq!(scalar_bits(-1i8), 0xFF);
    assert_eq!(scalar_bits(-2i16), 0xFFFE);
    assert_eq!(scalar_bits(-5i32), 0xFFFF_FFFB);
    assert_eq!(scalar_bits(i64::MIN), 0x8000_0000_0000_0000);
    assert_eq!(scalar_bits(true), 1);
    assert_eq!(scalar_bits(u64::MAX), u64::MAX as u128);
    let f = Float::<F32>::from_bits(1.5f32.to_bits() as u64).unwrap();
    assert_eq!(f.to_slot(), 0x3FC0_0000);
}

#[test]
fn integer_scalars_are_hinted_by_divisibility() {
    let divisor = |hint: Option<DivHint>| hint.unwrap().divisor;
    assert_eq!(divisor(48i32.div_hint()), 16);
    assert_eq!(divisor(8u8.div_hint()), 8);
    assert_eq!(divisor((-8i64).div_hint()), 8);
    assert_eq!(divisor(12u16.div_hint()), 4);
    assert_eq!(divisor(6i8.div_hint()), 2);
    assert_eq!(divisor(7u64.div_hint()), 1);
    assert_eq!(divisor(0i16.div_hint()), 16);
    assert_eq!(divisor((1u64 << 40).div_hint()), 16);
    assert!(true.div_hint().is_none());
    let f = Float::<BF16>::from_bits(16).unwrap();
    assert!(f.div_hint().is_none());
    assert_eq!(divisor(24u32.div_hint()), 8);
    assert_eq!(DivHint::from_ptr(0x1000).divisor, 16);
    assert_eq!(DivHint::from_ptr(0x1004).divisor, 4);
    assert_eq!(DivHint::from_value(-2).divisor, 2);
}

/// Plans hint exactly the integer types.
#[test]
fn hinted_types_are_the_integers() {
    let hinted = [
        DTypeId::U8, DTypeId::U16, DTypeId::U32, DTypeId::U64,
        DTypeId::I8, DTypeId::I16, DTypeId::I32, DTypeId::I64,
    ];
    for d in hinted {
        assert!(d.is_integer(), "{}", d.as_str());
    }
    let unhinted = [
        DTypeId::Bool, DTypeId::F16, DTypeId::BF16, DTypeId::F32, DTypeId::TF32, DTypeId::F64,
        DTypeId::F8E4M3FN, DTypeId::F8E5M2, DTypeId::F8E8M0FNU, DTypeId::F8E5M3FNU,
        DTypeId::F4E2M1FNX2,
    ];
    for d in unhinted {
        assert!(!d.is_integer(), "{}", d.as_str());
    }
    assert_eq!(DTypeId::F8E4M3FN.as_str(), "f8e4m3fn");
    assert_eq!(DTypeId::F64.size(), 8);
    assert_eq!(DTypeId::BF16.size(), 2);
}

fn config() -> LaunchConfig {
    LaunchConfig { grid_dim: (4, 2, 1), block_dim: (128, 1, 1), shared_mem_bytes: 0 }
}

#[test]
fn a_launch_without_a_configuration_is_refused() {
    let launch = AsyncKernelLaunch::new("f");
    let err = launch.launch("sm_90").unwrap_err();
    assert_eq!(err, DeviceError::Launch(LaunchFault::NoLaunchConfig));
    assert_eq!(err.to_string(), "Await called before launching the kernel.");
}

#[test]
fn a_launch_hands_its_arguments_to_the_driver_in_order() {
    let mut launch = AsyncKernelLaunch::new("f");
    launch.push_device_ptr(0x7000);
    launch.push_arg(-1i32);
    launch.push_arg(3u8);
    assert_eq!(launch.arg_count(), 3);
    assert_eq!(*launch.func(), "f");
    launch.set_launch_config(config());
    // Without dependent launch the architecture does not matter.
    let driver = launch.launch("sm_80").unwrap();
    assert_eq!(driver.args, vec![0x7000, 0xFFFF_FFFF, 3]);
    assert_eq!(driver.cfg, config());
    assert!(!driver.dependent);
}

/// A vector that is pushed as its pointer and its length.
struct DeviceSlice {
    ptr: u64,
    len: i32,
}

impl ArcKernelArgument for DeviceSlice {
    fn push_arg_arc<F>(self: &Arc<Self>, launcher: &mut AsyncKernelLaunch<F>) {
        launcher.push_device_ptr(self.ptr).push_arg(self.len);
    }
}

#[test]
fn a_launch_is_built_in_one_chain() {
    let slice = Arc::new(DeviceSlice { ptr: 0x9000, len: 12 });
    let mut launch = AsyncKernelLaunch::new(());
    launch
        .push_device_ptr(0x7000)
        .push_arg(5u8)
        .push_arg_arc(&slice)
        .set_launch_config(config())
        .programmatic_dependent_launch()
        .push_arg(true);
    let driver = launch.launch("sm_90").unwrap();
    assert_eq!(driver.args, vec![0x7000, 5, 0x9000, 12, 1]);
    assert_eq!(driver.cfg, config());
    assert!(driver.dependent);
}

/// The architecture is asked for only where the launch is not refused before it
/// is looked at.
#[test]
fn only_configured_dependent_launches_need_the_architecture() {
    let mut launch = AsyncKernelLaunch::new(());
    assert!(!launch.needs_architecture());
    assert!(!launch.programmatic_dependent_launch().needs_architecture());
    assert!(launch.set_launch_config(config()).needs_architecture());
    let mut plain = AsyncKernelLaunch::new(());
    assert!(!plain.set_launch_config(config()).needs_architecture());
}

#[test]
fn dependent_launch_needs_sm_90_or_newer() {
    let on = |arch: &str| {
        let mut launch = AsyncKernelLaunch::new(());
        launch.set_launch_config(config());
        launch.programmatic_dependent_launch();
        launch.launch(arch)
    };
    for arch in ["sm_90", "sm_90a", "sm_100f", "sm_120", "sm_100af", "sm_+90"] {
        assert!(on(arch).unwrap().dependent, "{arch}");
    }
    for arch in ["sm_80", "sm_89a", "sm_", "sm_a", "compute_90", "90", "", "sm_9x", "sm_99999999999"] {
        let err = on(arch).unwrap_err();
        let text = format!("programmatic dependent launch requires sm_90 or newer; target {arch}");
        assert_eq!(err.to_string(), text);
    }
}

#[test]
fn a_launch_taken_apart_keeps_one_slot_per_argument() {
    let mut launch = AsyncKernelLaunch::new(9u8);
    launch.push_arg(1u64);
    launch.push_arg(2u64);
    launch.programmatic_dependent_launch();
    let parts = launch.into_parts();
    assert_eq!(parts.func, 9);
    assert!(parts.cfg.is_none());
    assert!(parts.programmatic_dependent_launch);
    assert_eq!(parts.values, vec![1, 2]);
    assert_eq!(parts.offsets, vec![0, 1]);
}

#[test]
fn stride_hints_tell_only_unit_strides_apart() {
    let spec = SpecializationBits {
        shape_div: vec![DivHint::from_value(8); 3],
        stride_div: vec![DivHint::from_value(64), DivHint::from_value(8), DivHint::from_value(1)],
        stride_one: vec![false, false, true],
        base_ptr_div: DivHint::from_ptr(0x1000),
    };
    assert_eq!(spec.strides_hint(), vec![-1, -1, 1]);
}
