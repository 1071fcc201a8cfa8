//! Allocators for kernel objects.

pub mod arena;

pub use arena::{Arena, InsertError};
