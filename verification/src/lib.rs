//! The allocation and state-lifetime core of a UI-component runtime: a
//! tree of nested allocation scopes over a generational slot table,
//! copyable `State` handles with borrow and borrow-mutable access, an
//! adaptive capacity heuristic that pre-sizes scopes from the previous
//! render cycle's usage, and a bitset tracker recording which state cells
//! a render pass read or wrote.
//!
//! Every value registered by a scope is dropped exactly once: no earlier
//! than its owning scope's drop, no later than its runtime's.

pub mod dirty;
pub mod runtime;
pub mod scope;
pub mod slot_table;
pub mod state;
