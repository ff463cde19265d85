//! A unification-based type inference library: a generic engine of mutable,
//! shareable type-variable nodes, and a small type system (booleans, sized
//! integers, nominal and row-constrained structs) built on top of it.

pub mod infer;
pub mod laws;
pub mod ty;
