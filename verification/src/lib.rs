//! Layout verification for foreign structure declarations.
//!
//! A binding to a foreign ABI declares structures whose sizes are dictated by
//! the foreign platform. This crate computes the size of each declaration under
//! configurable packing rules, compares it with the size the platform's
//! reference material mandates, and reports every declaration that disagrees,
//! by name.

pub mod align;
pub mod layout;
pub mod layout_lemmas;
pub mod harness;
pub mod attribution;
