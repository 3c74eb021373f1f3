//! Host-side logic of a tile-kernel runtime, verified with Verus.
//!
//! - [`predicate`]: affine terms over kernel quantities, and the launch checks
//!   that are decided on them.
//! - [`shape`], [`storage`], [`tensor`], [`device_vec`]: tensor metadata, the
//!   accesses in flight on shared storage, views and slices.
//! - [`partition`], [`binding`]: partitions of tensors into tiles, their launch
//!   grids, and how arguments are bound to a launch.
//! - [`scalar`], [`dtype`], [`launch`]: argument slots and resolved launches.
//! - [`plan`]: launches resolved once and replayed, and the cache of them.
//! - [`text`], [`show`], [`error`]: how values and refusals are worded.
//! - [`expand`]: what the expansion of a kernel module decides.
//!
//! Device memory, driver calls, locks and token streams stay outside: the
//! library takes and returns plain values.

pub mod binding;
pub mod device_vec;
pub mod dtype;
pub mod error;
pub mod expand;
pub mod launch;
pub mod partition;
pub mod plan;
pub mod predicate;
pub mod scalar;
pub mod shape;
pub mod show;
pub mod storage;
pub mod tensor;
pub mod text;
