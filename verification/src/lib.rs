//! Runtime substrate for a small class-based scripting language: tagged
//! values, a handle-addressed heap with string interning, a tracing
//! mark-sweep collector, and the compiler-facing token and parse-rule types.

pub mod chunk;
pub mod function;
pub mod heap;
pub mod object;
pub mod reference;
pub mod rule;
pub mod token;
pub mod value;
