//! The compile-time template of a callable: a chunk of code, an arity, and
//! the upvalue specifications closures bind at run time.

use vstd::prelude::*;
use crate::chunk::Chunk;
use crate::heap::Heap;
use crate::heap::mark_step;
use crate::heap::sat_usize;
use crate::heap::mul_saturating;
use crate::object::Object;
use crate::reference::Reference;
use crate::reference::Tag;
use crate::reference::marked_at;
use crate::reference::ref_in_bounds;
use crate::reference::ref_is;
use crate::value::Value;
use crate::value::value_in_bounds;
use crate::value::value_marked;
use crate::value::value_ok;

verus! {

/// How a closure captures one upvalue: from the enclosing frame's locals
/// (`is_local`) or from the enclosing closure's own upvalues, at `index`.
#[derive(Clone, Copy, Debug, PartialEq, Eq, Structural)]
pub struct Upvalue {
    /// Captured from the enclosing frame's locals.
    pub is_local: bool,
    /// Slot or upvalue index in the enclosing scope.
    pub index: usize,
}

/// Most arguments a function may declare.
pub const MAX_ARITY: usize = 255;

/// Most entries a constant pool may hold (long-constant encoding).
pub const MAX_CONSTANTS: usize = 16777216;

/// Most upvalues a function may capture.
pub const MAX_UPVALUES: usize = 256;

/// Bytes charged for a function's fixed structure.
pub const FUNCTION_BASE_SIZE: usize = 96;

/// Bytes charged per upvalue specification.
pub const UPVALUE_SPEC_SIZE: usize = 16;

/// Bytes charged per instruction byte.
pub const INSTRUCTION_SIZE: usize = 1;

/// Bytes charged per line-map entry.
pub const LINE_SIZE: usize = 4;

/// Bytes charged per constant-pool entry.
pub const CONSTANT_SIZE: usize = 16;

/// The `Function` type.
#[derive(Clone, Debug)]
pub struct Function {
    /// The name of the function.
    pub name: Reference,
    /// A chunk of code.
    pub chunk: Chunk,
    /// The arity of the function.
    pub arity: usize,
    /// Upvalues.
    pub upvalues: Vec<Upvalue>,
}

/// The limits the compiler keeps: arity, constant pool and upvalue count
/// all bounded.
pub open spec fn fun_wf(f: Function) -> bool {
    &&& f.arity <= MAX_ARITY
    &&& f.chunk.constants@.len() <= MAX_CONSTANTS
    &&& f.upvalues@.len() <= MAX_UPVALUES
    &&& f.chunk.lines@.len() == f.chunk.instructions@.len()
}

/// The function's references resolve: its name is a string and every
/// constant is consistent with the heap.
pub open spec fn fun_ok(objects: Seq<Option<Object>>, f: Function) -> bool {
    &&& ref_is(objects, f.name, Tag::String)
    &&& forall|j: int|
        0 <= j < f.chunk.constants@.len() ==> value_ok(objects, #[trigger] f.chunk.constants@[j])
}

/// Every reference the function holds has its mark bit set.
pub open spec fn fun_marked(marked: Seq<bool>, f: Function) -> bool {
    &&& marked_at(marked, f.name)
    &&& forall|j: int|
        0 <= j < f.chunk.constants@.len() ==> value_marked(marked, #[trigger] f.chunk.constants@[j])
}

/// The function holds a reference to slot `i`: its name, or a reference
/// held by one of its constants.
pub open spec fn fun_ref_at(f: Function, i: int) -> bool {
    ||| f.name.slot == i
    ||| exists|j: int|
        0 <= j < f.chunk.constants@.len() && crate::value::value_ref_at(
            #[trigger] f.chunk.constants@[j],
            i,
        )
}

/// Every reference the function holds points below `n`.
pub open spec fn fun_in_bounds(f: Function, n: nat) -> bool {
    &&& ref_in_bounds(f.name, n)
    &&& forall|j: int|
        0 <= j < f.chunk.constants@.len() ==> value_in_bounds(#[trigger] f.chunk.constants@[j], n)
}

/// Bytes the function contributes to the heap's allocation count:
/// structure plus owned buffers.
pub open spec fn fun_size(f: Function) -> int {
    FUNCTION_BASE_SIZE + f.upvalues@.len() * UPVALUE_SPEC_SIZE + f.chunk.instructions@.len()
        * INSTRUCTION_SIZE + f.chunk.lines@.len() * LINE_SIZE + f.chunk.constants@.len()
        * CONSTANT_SIZE
}

/// The display form of a function: the top-level script shows as
/// `<script>` (its name is empty), any other as `<fn NAME>`.
pub open spec fn function_format(objects: Seq<Option<Object>>, f: Function) -> Seq<char> {
    if crate::heap::string_at(objects, f.name).len() == 0 {
        "<script>"@
    } else {
        "<fn "@ + crate::heap::string_at(objects, f.name) + ">"@
    }
}

impl Function {
    /// The function's display form, its name resolved through the heap.
    pub fn format(&self, garbage_collector: &Heap) -> (r: String)
        requires
            ref_is(garbage_collector.objects@, self.name, Tag::String),
        ensures
            r@ == function_format(garbage_collector.objects@, *self),
    {
        let name = garbage_collector.deref_string(self.name);
        if name.as_str().unicode_len() == 0 {
            String::from_str("<script>")
        } else {
            let mut out = String::from_str("<fn ");
            out.append(name.as_str());
            out.append(">");
            out
        }
    }

    /// Constructor: a fresh, nameless-bodied template with no code yet.
    pub fn new(name: Reference) -> (r: Self)
        requires
            name.tag == Tag::String,
        ensures
            r.name == name,
            r.arity == 0,
            r.chunk.instructions@ == Seq::<u8>::empty(),
            r.chunk.lines@ == Seq::<u32>::empty(),
            r.chunk.constants@ == Seq::<Value>::empty(),
            r.upvalues@ == Seq::<Upvalue>::empty(),
            fun_wf(r),
    {
        let arity: usize = 0;
        let chunk = Chunk::default();
        let upvalues = Vec::new();
        Self { arity, chunk, name, upvalues }
    }

    /// Bytes this function contributes to `bytes_allocated`, saturating at
    /// the machine limit.
    pub fn get_size(&self) -> (r: usize)
        ensures
            r == sat_usize(fun_size(*self)),
    {
        let upvalue_bytes = mul_saturating(self.upvalues.len(), UPVALUE_SPEC_SIZE);
        let instruction_bytes = mul_saturating(self.chunk.instructions.len(), INSTRUCTION_SIZE);
        let line_bytes = mul_saturating(self.chunk.lines.len(), LINE_SIZE);
        let constant_bytes = mul_saturating(self.chunk.constants.len(), CONSTANT_SIZE);
        FUNCTION_BASE_SIZE.saturating_add(upvalue_bytes).saturating_add(
            instruction_bytes,
        ).saturating_add(line_bytes).saturating_add(constant_bytes)
    }

    /// Marks the function's name and every reference in its constant pool.
    pub fn trace(&self, garbage_collector: &mut Heap)
        requires
            fun_in_bounds(*self, old(garbage_collector).marked@.len() as nat),
        ensures
            mark_step(*old(garbage_collector), *final(garbage_collector)),
            fun_marked(final(garbage_collector).marked@, *self),
            forall|i: int|
                0 <= i < final(garbage_collector).marked@.len()
                    && (#[trigger] final(garbage_collector).marked@[i])
                    && !old(garbage_collector).marked@[i] ==> fun_ref_at(*self, i),
    {
        garbage_collector.mark_object(self.name);
        let ghost start = *garbage_collector;
        let mut j: usize = 0;
        while j < self.chunk.constants.len()
            invariant
                j <= self.chunk.constants@.len(),
                fun_in_bounds(*self, garbage_collector.marked@.len() as nat),
                mark_step(start, *garbage_collector),
                marked_at(garbage_collector.marked@, self.name),
                forall|k: int|
                    0 <= k < j ==> value_marked(
                        garbage_collector.marked@,
                        #[trigger] self.chunk.constants@[k],
                    ),
                forall|i: int|
                    0 <= i < garbage_collector.marked@.len()
                        && (#[trigger] garbage_collector.marked@[i])
                        && !old(garbage_collector).marked@[i] ==> fun_ref_at(*self, i),
            decreases self.chunk.constants@.len() - j,
        {
            let ghost before = *garbage_collector;
            let constant = self.chunk.constants[j];
            garbage_collector.mark_value(constant);
            proof {
                crate::heap::lemma_mark_step_trans(start, before, *garbage_collector);
                assert forall|i: int|
                    0 <= i < garbage_collector.marked@.len()
                        && (#[trigger] garbage_collector.marked@[i])
                        && !old(garbage_collector).marked@[i] implies fun_ref_at(*self, i) by {
                    if !before.marked@[i] {
                        assert(crate::value::value_ref_at(self.chunk.constants@[j as int], i));
                    }
                }
            }
            j += 1;
        }
        proof {
            crate::heap::lemma_mark_step_trans(
                *old(garbage_collector),
                start,
                *garbage_collector,
            );
        }
    }
}

} // verus!
