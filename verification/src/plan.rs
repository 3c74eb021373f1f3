//! Launch plans: resolve a kernel launch once per argument layout, then replay
//! it by writing only pointers and scalars.
//!
//! A plan is exact: it accepts only arguments whose layout equals the one it was
//! built for. A cache keeps one kernel's plans by device, builder options and
//! argument layout.

pub mod argument;
pub mod environment;
pub mod inner;
pub mod key;
pub mod launch_plan;
pub mod layout;
pub mod options;
pub mod param;
pub mod store;
