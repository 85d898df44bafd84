//! A chunk of code: a linear bytecode stream, a parallel source-line map,
//! and a constant pool.

use vstd::prelude::*;
use crate::value::Value;

verus! {

/// A linear instruction stream with its constant pool. `lines[pc]` records
/// the source line of the instruction byte at `pc`, used only for error
/// messages.
#[derive(Clone, Debug)]
pub struct Chunk {
    /// The bytecode stream.
    pub instructions: Vec<u8>,
    /// Source line of each instruction byte, parallel to `instructions`.
    pub lines: Vec<u32>,
    /// The constant pool.
    pub constants: Vec<Value>,
}

impl Default for Chunk {
    /// An empty chunk: no code, no lines, no constants.
    fn default() -> (r: Self)
        ensures
            r.instructions@ == Seq::<u8>::empty(),
            r.lines@ == Seq::<u32>::empty(),
            r.constants@ == Seq::<Value>::empty(),
    {
        Chunk { instructions: Vec::new(), lines: Vec::new(), constants: Vec::new() }
    }
}

} // verus!
