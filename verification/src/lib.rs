//! The reactive core of a retained-mode UI toolkit: a tree of views addressed
//! by entity ids, a shared context that nested callbacks mutate, typed
//! handles onto single views, lens-based bindings and a focus stack.

pub mod binding;
pub mod borrow;
pub mod context;
pub mod data;
pub mod entity;
pub mod handle;
pub mod tree;
