//! Execution core of a small dynamic-language interpreter: a tagged value
//! model, the three equality relations such a language exposes, a lexically
//! scoped environment stack, an iterator protocol adapter, and the loop
//! executors that drive iteration under explicit control-flow signals.

pub mod value;
pub mod bigint;
pub mod equality;
pub mod context;
pub mod iterable;
pub mod node;
