//! Expansion of kernel modules: which items of a module are emitted how, what an
//! entry point's attribute may say, and what its launcher offers.

pub mod attribute;
pub mod items;
pub mod launcher;
pub mod module;
pub mod source;
